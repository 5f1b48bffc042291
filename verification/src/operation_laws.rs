//! What the edits, the inspect report, validation, the TeX rendering and
//! the PPTX export plan do, stated over all inputs.
use vstd::prelude::*;

use crate::commands::{inspect_report, slide_lines, slides_lines};
use crate::ids::uuid_text;
use crate::measure::Measure;
use crate::model::Slide;
use crate::package::DeckPackage;
use crate::model::{asset_file_name, element_bounds, element_id, Asset, Element, Presentation, Rect};
use crate::ops::{
    asset_issues, assets_issues, element_issues, elements_issues, image_issues, is_referenced,
    issues_if, error_issue, math_issues, moved, package_issues, reference_issues, resized,
    slide_issues, slides_issues, Severity,
};
use crate::pptx::exporter::{resolved_pictures, ResolvedView};
use crate::pptx::tex_export::{normalized_math, tex_color};
use crate::pptx::tex_render::{rendered_element, TexBox};

verus! {

// ---------------------------------------------------------------------
// Moving and resizing
// ---------------------------------------------------------------------

/// Moving an element, of any kind, puts its top-left corner exactly at
/// the requested point and keeps its size, its id and its kind.
pub proof fn law_move_puts_the_element_at_the_point(e: Element, x: Measure, y: Measure)
    ensures
        element_bounds(moved(e, x, y)) == (Rect {
            x,
            y,
            width: element_bounds(e).width,
            height: element_bounds(e).height,
        }),
        element_id(moved(e, x, y)) == element_id(e),
        (moved(e, x, y) is Text) == (e is Text),
        (moved(e, x, y) is Math) == (e is Math),
        (moved(e, x, y) is Image) == (e is Image),
        (moved(e, x, y) is Shape) == (e is Shape),
        (moved(e, x, y) is Table) == (e is Table),
        (moved(e, x, y) is Chart) == (e is Chart),
{
}

/// Resizing an element, of any kind, gives it exactly the requested size
/// and keeps its position, its id and its kind.
pub proof fn law_resize_gives_the_element_the_size(e: Element, width: Measure, height: Measure)
    ensures
        element_bounds(resized(e, width, height)) == (Rect {
            x: element_bounds(e).x,
            y: element_bounds(e).y,
            width,
            height,
        }),
        element_id(resized(e, width, height)) == element_id(e),
        (resized(e, width, height) is Text) == (e is Text),
        (resized(e, width, height) is Math) == (e is Math),
        (resized(e, width, height) is Image) == (e is Image),
        (resized(e, width, height) is Shape) == (e is Shape),
        (resized(e, width, height) is Table) == (e is Table),
        (resized(e, width, height) is Chart) == (e is Chart),
{
}

// ---------------------------------------------------------------------
// Pictures of an export plan
// ---------------------------------------------------------------------

/// The image elements among some elements, in order, as the asset each
/// shows and the bounds it has.
pub open spec fn image_placements(elements: Seq<Element>) -> Seq<(u128, Rect)>
    decreases elements.len(),
{
    if elements.len() == 0 {
        seq![]
    } else {
        let prev = image_placements(elements.drop_last());
        match elements.last() {
            Element::Image(i) => prev.push((i.asset_id, i.bounds)),
            _ => prev,
        }
    }
}

/// Each picture an export plans for some elements is placed exactly where
/// the image element it comes from is (same x, y, width and height), one
/// picture per image element and in their order, and carries the bytes of
/// that image's own asset.
pub proof fn law_planned_pictures_keep_their_bounds(
    p: Presentation,
    bytes: Map<u128, Vec<u8>>,
    elements: Seq<Element>,
    counter: nat,
)
    ensures
        resolved_pictures(p, bytes, elements, counter) matches Ok(v) ==> {
            &&& v.len() == image_placements(elements).len()
            &&& forall|j: int|
                0 <= j < v.len() ==> {
                    &&& (#[trigger] v[j]).bounds == image_placements(elements)[j].1
                    &&& bytes.contains_key(image_placements(elements)[j].0)
                    &&& v[j].bytes == bytes[image_placements(elements)[j].0]@
                }
        },
    decreases elements.len(),
{
    if elements.len() > 0 {
        law_planned_pictures_keep_their_bounds(p, bytes, elements.drop_last(), counter);
        let prev = resolved_pictures(p, bytes, elements.drop_last(), counter);
        let places = image_placements(elements.drop_last());
        if let Ok(v) = resolved_pictures(p, bytes, elements, counter) {
            if let Ok(pv) = prev {
                if let Element::Image(i) = elements.last() {
                    crate::model::lemma_first_index(
                        crate::model::asset_ids(p.assets@),
                        i.asset_id,
                    );
                    let a = crate::model::asset_lookup(p.assets@, i.asset_id)->Some_0;
                    let k = crate::model::first_index(crate::model::asset_ids(p.assets@), i.asset_id)->Some_0;
                    assert(crate::model::asset_ids(p.assets@)[k] == p.assets@[k].id);
                    assert(a.id == i.asset_id);
                    assert forall|j: int| 0 <= j < v.len() implies {
                        &&& (#[trigger] v[j]).bounds == image_placements(elements)[j].1
                        &&& bytes.contains_key(image_placements(elements)[j].0)
                        &&& v[j].bytes == bytes[image_placements(elements)[j].0]@
                    } by {
                        if j < pv.len() {
                            assert(v[j] == pv[j]);
                            assert(image_placements(elements)[j] == places[j]);
                        }
                    }
                }
            }
        }
    }
}


// ---------------------------------------------------------------------
// The inspect report
// ---------------------------------------------------------------------

/// How many report lines the slides before slide `i` take: four header
/// lines each, and one line per element.
pub open spec fn lines_before(ss: Seq<Slide>, i: nat) -> nat
    decreases i,
{
    if i == 0 {
        0
    } else {
        lines_before(ss, (i - 1) as nat) + 4 + ss[i - 1].elements@.len()
    }
}

proof fn lemma_lines_before_mono(ss: Seq<Slide>, i: nat, j: nat)
    requires
        i <= j,
    ensures
        lines_before(ss, i) <= lines_before(ss, j),
    decreases j - i,
{
    if i < j {
        lemma_lines_before_mono(ss, i, (j - 1) as nat);
    }
}

proof fn lemma_lines_before_prefix(ss: Seq<Slide>, i: nat)
    requires
        0 < ss.len(),
        i < ss.len(),
    ensures
        lines_before(ss, i) == lines_before(ss.drop_last(), i),
    decreases i,
{
    if i > 0 {
        lemma_lines_before_prefix(ss, (i - 1) as nat);
        assert(ss[i - 1] == ss.drop_last()[i - 1]);
    }
}

proof fn lemma_slides_lines(ss: Seq<Slide>)
    ensures
        slides_lines(ss).len() == lines_before(ss, ss.len()),
        forall|i: int, k: int|
            0 <= i < ss.len() && 0 <= k < ss[i].elements@.len() ==> slides_lines(ss)[lines_before(
                ss,
                i as nat,
            ) + 4 + k] == crate::commands::element_line(#[trigger] ss[i].elements@[k]),
    decreases ss.len(),
{
    if ss.len() > 0 {
        let d = ss.drop_last();
        let n = (ss.len() - 1) as nat;
        lemma_slides_lines(d);
        lemma_lines_before_prefix(ss, n);
        let last = slide_lines(n, ss.last());
        assert(last.len() == 4 + ss.last().elements@.len());
        assert forall|i: int, k: int|
            0 <= i < ss.len() && 0 <= k < ss[i].elements@.len() implies slides_lines(ss)[lines_before(
                ss,
                i as nat,
            ) + 4 + k] == crate::commands::element_line(#[trigger] ss[i].elements@[k]) by {
            if i < n {
                lemma_lines_before_prefix(ss, i as nat);
                assert(d[i] == ss[i]);
                lemma_lines_before_mono(d, (i + 1) as nat, n);
            } else {
                assert(ss[i] == ss.last());
                assert(last[4 + k] == crate::commands::element_line(ss.last().elements@[k]));
            }
        }
    }
}

/// The line `inspect` reports for an image element: its id, its alt text
/// (or `(no alt)` when it has none), and the id of its asset.
pub open spec fn image_report_line(id: u128, alt: Option<Seq<char>>, asset_id: u128) -> Seq<char> {
    "  - Image ["@ + uuid_text(id) + "]: "@ + (match alt {
        Some(a) => a,
        None => "(no alt)"@,
    }) + " (asset_id "@ + uuid_text(asset_id) + ")"@
}

/// The report of a package has, for element `k` of slide `i`, a line after
/// the three count lines, the asset lines, the lines of the slides before
/// and slide `i`'s four header lines. For an image that line shows its
/// own alt text when it has one, and `(no alt)` only when it has none.
pub proof fn law_inspect_reports_each_image(pkg: DeckPackage, i: int, k: int)
    requires
        0 <= i < pkg.presentation.slides@.len(),
        0 <= k < pkg.presentation.slides@[i].elements@.len(),
        pkg.presentation.slides@[i].elements@[k] is Image,
    ensures
        ({
            let p = pkg.presentation;
            let im = p.slides@[i].elements@[k]->Image_0;
            let n = 3 + p.assets@.len() + lines_before(p.slides@, i as nat) + 4 + k;
            &&& n < inspect_report(pkg).len()
            &&& inspect_report(pkg)[n] == image_report_line(
                im.id,
                match im.alt {
                    Some(a) => Some(a@),
                    None => None,
                },
                im.asset_id,
            )
        }),
{
    let p = pkg.presentation;
    lemma_slides_lines(p.slides@);
    lemma_lines_before_mono(p.slides@, (i + 1) as nat, p.slides@.len());
    let head = seq![
        "Title: "@ + p.metadata.title@,
        "Slides: "@ + crate::text::decimal(p.slides@.len()),
        "Assets: "@ + crate::text::decimal(p.assets@.len()),
    ] + p.assets@.map_values(|a: crate::model::Asset| crate::commands::asset_line(a, pkg.asset_bytes@));
    assert(head.len() == 3 + p.assets@.len());
    let e = p.slides@[i].elements@[k];
    assert(slides_lines(p.slides@)[lines_before(p.slides@, i as nat) + 4 + k] == crate::commands::element_line(e));
}


// ---------------------------------------------------------------------
// Validation notes
// ---------------------------------------------------------------------

/// The note validation gives for an asset that no element references.
pub open spec fn unused_asset_note(a: Asset) -> (Severity, Seq<char>) {
    (
        Severity::Info,
        "asset "@ + uuid_text(a.id) + " ("@ + asset_file_name(a)
            + ") is declared but not referenced by any element"@,
    )
}

/// Whether every issue is an error.
pub open spec fn all_errors(s: Seq<(Severity, Seq<char>)>) -> bool {
    forall|j: int| 0 <= j < s.len() ==> (#[trigger] s[j]).0 == Severity::Error
}

proof fn lemma_errors_concat(a: Seq<(Severity, Seq<char>)>, b: Seq<(Severity, Seq<char>)>)
    requires
        all_errors(a),
        all_errors(b),
    ensures
        all_errors(a + b),
{
    assert forall|j: int| 0 <= j < (a + b).len() implies (#[trigger] (a + b)[j]).0 == Severity::Error by {
        if j < a.len() {
            assert((a + b)[j] == a[j]);
        } else {
            assert((a + b)[j] == b[j - a.len()]);
        }
    }
}

proof fn lemma_errors_if(c: bool, m: Seq<char>)
    ensures
        all_errors(issues_if(c, error_issue(m))),
{
}

proof fn lemma_reference_errors(pkg: DeckPackage, id: u128, context: Seq<char>, raster: bool)
    ensures
        all_errors(reference_issues(pkg, id, context, raster)),
{
    match crate::model::asset_lookup(pkg.presentation.assets@, id) {
        None => {},
        Some(a) => {
            let first = issues_if(
                !pkg.asset_bytes@.contains_key(a.id),
                error_issue(
                    "asset "@ + uuid_text(a.id) + " ("@ + asset_file_name(a) + ") referenced by "@
                        + context + " is declared but missing from assets/ in the package"@,
                ),
            );
            let second = issues_if(
                raster && !crate::ops::is_raster_media_type(a.media_type@),
                error_issue(
                    context + " must point to a raster image asset, but asset "@ + uuid_text(a.id)
                        + " has media_type "@ + a.media_type@,
                ),
            );
            lemma_errors_concat(first, second);
        },
    }
}

proof fn lemma_element_errors(pkg: DeckPackage, slide_id: u128, e: Element)
    ensures
        all_errors(element_issues(pkg, slide_id, e)),
{
    let bounds = crate::ops::bounds_issues(slide_id, e);
    let kind = match e {
        Element::Text(t) => crate::ops::text_issues(slide_id, t),
        Element::Math(m) => math_issues(pkg, slide_id, m),
        Element::Image(im) => image_issues(pkg, im),
        _ => seq![],
    };
    match e {
        Element::Math(m) => {
            let first = issues_if(
                crate::text::trimmed(m.tex@).len() == 0,
                error_issue(
                    "math element "@ + uuid_text(m.id) + " on slide "@ + uuid_text(slide_id)
                        + " has empty tex"@,
                ),
            );
            let second = issues_if(
                crate::measure::is_non_positive_bits(m.font_size.bits),
                error_issue(
                    "math element "@ + uuid_text(m.id) + " on slide "@ + uuid_text(slide_id)
                        + " has non-positive font_size"@,
                ),
            );
            let tail = match m.render_asset_id {
                Some(r) => reference_issues(
                    pkg,
                    r,
                    "math element "@ + uuid_text(m.id) + " render_asset_id "@ + uuid_text(r),
                    true,
                ),
                None => seq![],
            };
            if let Some(r) = m.render_asset_id {
                lemma_reference_errors(
                    pkg,
                    r,
                    "math element "@ + uuid_text(m.id) + " render_asset_id "@ + uuid_text(r),
                    true,
                );
            }
            lemma_errors_concat(first, second);
            lemma_errors_concat(first + second, tail);
        },
        Element::Image(im) => {
            let head = reference_issues(
                pkg,
                im.asset_id,
                "image element "@ + uuid_text(im.id) + " asset_id "@ + uuid_text(im.asset_id),
                false,
            );
            lemma_reference_errors(
                pkg,
                im.asset_id,
                "image element "@ + uuid_text(im.id) + " asset_id "@ + uuid_text(im.asset_id),
                false,
            );
            let tail = match im.render_asset_id {
                Some(r) => reference_issues(
                    pkg,
                    r,
                    "image element "@ + uuid_text(im.id) + " render_asset_id "@ + uuid_text(r),
                    true,
                ),
                None => seq![],
            };
            if let Some(r) = im.render_asset_id {
                lemma_reference_errors(
                    pkg,
                    r,
                    "image element "@ + uuid_text(im.id) + " render_asset_id "@ + uuid_text(r),
                    true,
                );
            }
            lemma_errors_concat(head, tail);
        },
        _ => {},
    }
    lemma_errors_concat(bounds, kind);
}

proof fn lemma_elements_errors(pkg: DeckPackage, slide_id: u128, es: Seq<Element>)
    ensures
        all_errors(elements_issues(pkg, slide_id, es)),
    decreases es.len(),
{
    if es.len() > 0 {
        lemma_elements_errors(pkg, slide_id, es.drop_last());
        lemma_element_errors(pkg, slide_id, es.last());
        lemma_errors_concat(
            elements_issues(pkg, slide_id, es.drop_last()),
            element_issues(pkg, slide_id, es.last()),
        );
    }
}

proof fn lemma_slides_errors(pkg: DeckPackage, ss: Seq<Slide>)
    ensures
        all_errors(slides_issues(pkg, ss)),
    decreases ss.len(),
{
    if ss.len() > 0 {
        lemma_slides_errors(pkg, ss.drop_last());
        let s = ss.last();
        let size = issues_if(
            crate::measure::is_non_positive_bits(s.size.width.bits)
                || crate::measure::is_non_positive_bits(s.size.height.bits),
            error_issue(
                "slide "@ + uuid_text(s.id) + " has a non-positive size ("@ + s.size.width.shown@
                    + " x "@ + s.size.height.shown@ + ")"@,
            ),
        );
        lemma_elements_errors(pkg, s.id, s.elements@);
        lemma_errors_concat(size, elements_issues(pkg, s.id, s.elements@));
        lemma_errors_concat(slides_issues(pkg, ss.drop_last()), slide_issues(pkg, s));
    }
}

proof fn lemma_uuid_text_len(id: u128)
    ensures
        uuid_text(id).len() == 36,
{
    crate::laws::lemma_hex_digits_len(id as nat, 32);
}

/// Two unused-asset notes are the same only for the same asset id.
proof fn lemma_note_names_its_asset(a: Asset, b: Asset)
    requires
        unused_asset_note(a) == unused_asset_note(b),
    ensures
        a.id == b.id,
{
    reveal_strlit("asset ");
    lemma_uuid_text_len(a.id);
    lemma_uuid_text_len(b.id);
    let ma = unused_asset_note(a).1;
    let mb = unused_asset_note(b).1;
    assert(ma.subrange(6, 42) =~= uuid_text(a.id));
    assert(mb.subrange(6, 42) =~= uuid_text(b.id));
    crate::laws::lemma_uuid_text_injective(a.id, b.id);
}

proof fn lemma_assets_no_note(pkg: DeckPackage, assets: Seq<Asset>, a: Asset)
    requires
        is_referenced(pkg.presentation, a.id),
    ensures
        forall|j: int| 0 <= j < assets_issues(pkg, assets).len() ==> #[trigger] assets_issues(pkg, assets)[j]
            != unused_asset_note(a),
    decreases assets.len(),
{
    if assets.len() > 0 {
        lemma_assets_no_note(pkg, assets.drop_last(), a);
        let b = assets.last();
        let prev = assets_issues(pkg, assets.drop_last());
        let cur = asset_issues(pkg, b);
        let referenced = is_referenced(pkg.presentation, b.id);
        let first = issues_if(
            !pkg.asset_bytes@.contains_key(b.id) && !referenced,
            error_issue(
                "asset "@ + uuid_text(b.id) + " ("@ + asset_file_name(b)
                    + ") is declared in assets[] but missing from the package"@,
            ),
        );
        let second = issues_if(!referenced, seq![unused_asset_note(b)]);
        assert(cur =~= first + second);
        assert forall|j: int| 0 <= j < cur.len() implies #[trigger] cur[j] != unused_asset_note(a) by {
            if j < first.len() {
                assert(cur[j] == first[j]);
            } else {
                assert(cur[j] == second[j - first.len()]);
                if cur[j] == unused_asset_note(a) {
                    lemma_note_names_its_asset(a, b);
                }
            }
        }
        assert forall|j: int|
            0 <= j < assets_issues(pkg, assets).len() implies #[trigger] assets_issues(pkg, assets)[j]
            != unused_asset_note(a) by {
            if j < prev.len() {
                assert(assets_issues(pkg, assets)[j] == prev[j]);
            } else {
                assert(assets_issues(pkg, assets)[j] == cur[j - prev.len()]);
            }
        }
    }
}

/// Validation notes an asset as unused only when no element references
/// it: for an asset some element references, no issue of the package is
/// that asset's unused-asset note.
pub proof fn law_referenced_asset_is_not_noted(pkg: DeckPackage, a: Asset)
    requires
        is_referenced(pkg.presentation, a.id),
    ensures
        forall|j: int|
            0 <= j < package_issues(pkg).len() ==> #[trigger] package_issues(pkg)[j] != unused_asset_note(a),
{
    let p = pkg.presentation;
    let empty = issues_if(p.slides@.len() == 0, error_issue("presentation has no slides"@));
    lemma_slides_errors(pkg, p.slides@);
    lemma_errors_concat(empty, slides_issues(pkg, p.slides@));
    let head = empty + slides_issues(pkg, p.slides@);
    let tail = assets_issues(pkg, p.assets@);
    lemma_assets_no_note(pkg, p.assets@, a);
    assert forall|j: int|
        0 <= j < package_issues(pkg).len() implies #[trigger] package_issues(pkg)[j] != unused_asset_note(a) by {
        if j < head.len() {
            assert(package_issues(pkg)[j] == head[j]);
            assert(head[j].0 == Severity::Error);
        } else {
            assert(package_issues(pkg)[j] == tail[j - head.len()]);
        }
    }
}


// ---------------------------------------------------------------------
// TeX formulas
// ---------------------------------------------------------------------

/// What a formula's TeX node holds: its own colour around its normalized
/// TeX source, set in display style.
pub open spec fn coloured_formula(color: Seq<char>, tex: Seq<char>) -> Seq<char> {
    "\\textcolor[HTML]{"@ + tex_color(color) + "}{\\ensuremath{\\displaystyle "@ + normalized_math(tex)
        + "}}"@
}

/// A formula is rendered in its own colour: its TeX node holds
/// `\textcolor[HTML]{..}` with the formula's colour (as TeX's HTML model
/// writes it), wrapped around the formula's normalized source.
pub proof fn law_formula_keeps_its_colour(
    m: crate::model::MathElement,
    p: Presentation,
    b: TexBox,
)
    ensures
        rendered_element(Element::Math(m), p, b) is Ok,
        exists|i: int|
            #[trigger] crate::text::occurs_at(
                rendered_element(Element::Math(m), p, b)->Ok_0,
                coloured_formula(m.color.value@, m.tex@),
                i,
            ),
{
    reveal_strlit("}\\selectfont\\textcolor[HTML]{");
    reveal_strlit("}\\selectfont");
    reveal_strlit("\\textcolor[HTML]{");
    reveal_strlit("}}};\n");
    reveal_strlit("}}");
    reveal_strlit("};\n");
    let col = tex_color(m.color.value@);
    let content = normalized_math(m.tex@);
    let r = crate::pptx::tex_render::math_node(b, col, content);
    let a = "\\node[anchor=north west, inner sep=0pt, align=center, text width="@ + b.width@ + "bp] at ("@
        + b.x@ + ",-"@ + b.y@ + ") {\\fontsize{"@ + b.font_size@ + "}{"@ + b.leading@
        + "}\\selectfont"@;
    let x = coloured_formula(m.color.value@, m.tex@);
    assert("}\\selectfont\\textcolor[HTML]{"@ =~= "}\\selectfont"@ + "\\textcolor[HTML]{"@);
    assert("}}};\n"@ =~= "}}"@ + "};\n"@);
    assert(r =~= a + x + "};\n"@);
    assert(r.subrange(a.len() as int, (a.len() + x.len()) as int) =~= x);
    assert(crate::text::occurs_at(r, x, a.len() as int));
    assert(rendered_element(Element::Math(m), p, b) == Ok::<Seq<char>, Seq<char>>(r));
    assert(rendered_element(Element::Math(m), p, b)->Ok_0 == r);
}

} // verus!
