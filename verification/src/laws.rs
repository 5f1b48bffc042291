//! Properties of the library as a whole: what validation says of a sound
//! deck, of a dangling reference and of a spare asset; that media types
//! and extensions map back and forth; that the bytes a package is saved
//! with are the bytes it opens with; and that `pack` refuses exactly the
//! decks `validate` fails.
use vstd::prelude::*;

use crate::commands::{messages_of, pack_refusal_of, verdict};
use crate::ids::{hex_digit, hex_digits, uuid_text};
use crate::measure::{is_negative_bits, is_non_positive_bits};
use crate::model::{
    asset_file_name, asset_lookup, element_bounds, extension_media_type, media_extension, Asset,
    Element, Presentation, Slide,
};
use crate::ops::{
    assets_issues, asset_issues, element_issues, elements_issues, error_issue, image_issues,
    info_issue, is_raster_media_type, is_referenced, math_issues, package_issues,
    reference_issues, slide_issues, slides_issues, issues_if, Severity,
};
use crate::package::{asset_entry_name, bytes_view, loaded_bytes, saved_entries, DeckPackage};
use crate::pptx::export::{escaped_xml_char, xml_escaped};
use crate::pptx::slide_parser::{joined, text_step, ParsedTextView, TextScan};
use crate::pptx::xml::{
    amp_ref, apos_ref, gt_ref, lt_ref, quot_ref, xml_text_decoded, ScanStep, XmlEventView,
};
use crate::pptx::exporter::parts_view;
use crate::pptx::tex_export::{tex_char, tex_escaped};
use crate::pptx::package::{part_bytes, part_text, PackagePart};
use crate::pptx::paths::{
    join_segments, last_index_of, media_type_of_path, push_segment, resolved_target, segment_state,
    slide_rels_path,
};
use crate::pptx::import::{
    all_images, built_from, bytes_built, image_built, slide_built, slide_part, text_built, ImportedSlideView,
};
use crate::measure::Measure;
use crate::text::{
    ascii_lower, ascii_lower_char, decimal, has_prefix, has_suffix, leading_count, strip_leading, trimmed,
};

verus! {

// ---------------------------------------------------------------------
// Validation
// ---------------------------------------------------------------------

/// Whether every issue is only a note.
pub open spec fn all_notes(issues: Seq<(Severity, Seq<char>)>) -> bool {
    forall|i: int| 0 <= i < issues.len() ==> #[trigger] issues[i].0 == Severity::Info
}

/// Whether an asset reference resolves: the asset is declared, its bytes
/// are in the package and, where a raster rendering is asked for, it is
/// a raster image.
pub open spec fn reference_resolves(pkg: DeckPackage, id: u128, raster: bool) -> bool {
    asset_lookup(pkg.presentation.assets@, id) matches Some(a) && pkg.asset_bytes@.contains_key(a.id)
        && (raster ==> is_raster_media_type(a.media_type@))
}

/// Whether an element passes the checklist: non-negative size, a
/// positive font size, non-empty TeX, and references that resolve.
pub open spec fn element_sound(pkg: DeckPackage, e: Element) -> bool {
    let b = element_bounds(e);
    &&& !is_negative_bits(b.width.bits)
    &&& !is_negative_bits(b.height.bits)
    &&& match e {
        Element::Text(t) => !is_non_positive_bits(t.font_size.bits),
        Element::Math(m) => trimmed(m.tex@).len() > 0 && !is_non_positive_bits(m.font_size.bits)
            && (m.render_asset_id matches Some(r) ==> reference_resolves(pkg, r, true)),
        Element::Image(im) => reference_resolves(pkg, im.asset_id, false) && (
        im.render_asset_id matches Some(r) ==> reference_resolves(pkg, r, true)),
        _ => true,
    }
}

/// Whether a package passes the whole checklist: it has slides, each of
/// positive size with sound elements, and every declared asset has its
/// bytes. (Assets no element uses are allowed.)
pub open spec fn package_sound(pkg: DeckPackage) -> bool {
    let p = pkg.presentation;
    &&& p.slides@.len() > 0
    &&& forall|i: int|
        0 <= i < p.slides@.len() ==> !is_non_positive_bits(#[trigger] p.slides@[i].size.width.bits)
            && !is_non_positive_bits(p.slides@[i].size.height.bits)
    &&& forall|i: int, k: int|
        0 <= i < p.slides@.len() && 0 <= k < p.slides@[i].elements@.len() ==> element_sound(
            pkg,
            #[trigger] p.slides@[i].elements@[k],
        )
    &&& forall|j: int|
        0 <= j < p.assets@.len() ==> pkg.asset_bytes@.contains_key(#[trigger] p.assets@[j].id)
}

proof fn lemma_all_notes_concat(a: Seq<(Severity, Seq<char>)>, b: Seq<(Severity, Seq<char>)>)
    requires
        all_notes(a),
        all_notes(b),
    ensures
        all_notes(a + b),
{
    assert forall|i: int| 0 <= i < (a + b).len() implies #[trigger] (a + b)[i].0 == Severity::Info by {
        if i < a.len() {
            assert((a + b)[i] == a[i]);
        } else {
            assert((a + b)[i] == b[i - a.len()]);
        }
    }
}

proof fn lemma_reference_notes(pkg: DeckPackage, id: u128, context: Seq<char>, raster: bool)
    requires
        reference_resolves(pkg, id, raster),
    ensures
        all_notes(reference_issues(pkg, id, context, raster)),
{
    let r = reference_issues(pkg, id, context, raster);
    assert(r =~= seq![]);
}

proof fn lemma_element_notes(pkg: DeckPackage, slide_id: u128, e: Element)
    requires
        element_sound(pkg, e),
    ensures
        all_notes(element_issues(pkg, slide_id, e)),
{
    let b = crate::ops::bounds_issues(slide_id, e);
    assert(b =~= seq![]);
    match e {
        Element::Text(t) => {
            assert(crate::ops::text_issues(slide_id, t) =~= seq![]);
        },
        Element::Math(m) => {
            let ctx = "math element "@ + uuid_text(m.id) + " render_asset_id "@;
            match m.render_asset_id {
                Some(r) => {
                    lemma_reference_notes(pkg, r, ctx + uuid_text(r), true);
                },
                None => {},
            }
            let head = issues_if(
                trimmed(m.tex@).len() == 0,
                error_issue(
                    "math element "@ + uuid_text(m.id) + " on slide "@ + uuid_text(slide_id)
                        + " has empty tex"@,
                ),
            ) + issues_if(
                is_non_positive_bits(m.font_size.bits),
                error_issue(
                    "math element "@ + uuid_text(m.id) + " on slide "@ + uuid_text(slide_id)
                        + " has non-positive font_size"@,
                ),
            );
            assert(head =~= seq![]);
            assert(all_notes(head));
            let tail = match m.render_asset_id {
                Some(r) => reference_issues(
                    pkg,
                    r,
                    "math element "@ + uuid_text(m.id) + " render_asset_id "@ + uuid_text(r),
                    true,
                ),
                None => seq![],
            };
            assert(all_notes(tail));
            lemma_all_notes_concat(head, tail);
            assert(math_issues(pkg, slide_id, m) == head + tail);
        },
        Element::Image(im) => {
            lemma_reference_notes(
                pkg,
                im.asset_id,
                "image element "@ + uuid_text(im.id) + " asset_id "@ + uuid_text(im.asset_id),
                false,
            );
            let tail = match im.render_asset_id {
                Some(r) => reference_issues(
                    pkg,
                    r,
                    "image element "@ + uuid_text(im.id) + " render_asset_id "@ + uuid_text(r),
                    true,
                ),
                None => seq![],
            };
            match im.render_asset_id {
                Some(r) => {
                    lemma_reference_notes(
                        pkg,
                        r,
                        "image element "@ + uuid_text(im.id) + " render_asset_id "@ + uuid_text(r),
                        true,
                    );
                },
                None => {},
            }
            assert(all_notes(tail));
            lemma_all_notes_concat(
                reference_issues(
                    pkg,
                    im.asset_id,
                    "image element "@ + uuid_text(im.id) + " asset_id "@ + uuid_text(im.asset_id),
                    false,
                ),
                tail,
            );
        },
        _ => {},
    }
    let kind = match e {
        Element::Text(t) => crate::ops::text_issues(slide_id, t),
        Element::Math(m) => math_issues(pkg, slide_id, m),
        Element::Image(im) => image_issues(pkg, im),
        _ => seq![],
    };
    assert(all_notes(kind));
    lemma_all_notes_concat(b, kind);
}

proof fn lemma_elements_notes(pkg: DeckPackage, slide_id: u128, es: Seq<Element>)
    requires
        forall|k: int| 0 <= k < es.len() ==> element_sound(pkg, #[trigger] es[k]),
    ensures
        all_notes(elements_issues(pkg, slide_id, es)),
    decreases es.len(),
{
    if es.len() > 0 {
        lemma_elements_notes(pkg, slide_id, es.drop_last());
        lemma_element_notes(pkg, slide_id, es.last());
        lemma_all_notes_concat(
            elements_issues(pkg, slide_id, es.drop_last()),
            element_issues(pkg, slide_id, es.last()),
        );
    }
}

proof fn lemma_slides_notes(pkg: DeckPackage, ss: Seq<Slide>)
    requires
        forall|i: int|
            0 <= i < ss.len() ==> !is_non_positive_bits(#[trigger] ss[i].size.width.bits)
                && !is_non_positive_bits(ss[i].size.height.bits),
        forall|i: int, k: int|
            0 <= i < ss.len() && 0 <= k < ss[i].elements@.len() ==> element_sound(
                pkg,
                #[trigger] ss[i].elements@[k],
            ),
    ensures
        all_notes(slides_issues(pkg, ss)),
    decreases ss.len(),
{
    if ss.len() > 0 {
        let s = ss.last();
        assert(s == ss[ss.len() - 1]);
        lemma_slides_notes(pkg, ss.drop_last());
        assert forall|k: int| 0 <= k < s.elements@.len() implies element_sound(
            pkg,
            #[trigger] s.elements@[k],
        ) by {
            assert(s.elements@[k] == ss[ss.len() - 1].elements@[k]);
        }
        lemma_elements_notes(pkg, s.id, s.elements@);
        let size = issues_if(
            is_non_positive_bits(s.size.width.bits) || is_non_positive_bits(s.size.height.bits),
            error_issue(
                "slide "@ + uuid_text(s.id) + " has a non-positive size ("@ + s.size.width.shown@
                    + " x "@ + s.size.height.shown@ + ")"@,
            ),
        );
        assert(size =~= seq![]);
        lemma_all_notes_concat(size, elements_issues(pkg, s.id, s.elements@));
        lemma_all_notes_concat(slides_issues(pkg, ss.drop_last()), slide_issues(pkg, s));
    }
}

proof fn lemma_assets_notes(pkg: DeckPackage, assets: Seq<Asset>)
    requires
        forall|j: int| 0 <= j < assets.len() ==> pkg.asset_bytes@.contains_key(#[trigger] assets[j].id),
    ensures
        all_notes(assets_issues(pkg, assets)),
    decreases assets.len(),
{
    if assets.len() > 0 {
        let a = assets.last();
        assert(a == assets[assets.len() - 1]);
        lemma_assets_notes(pkg, assets.drop_last());
        let referenced = is_referenced(pkg.presentation, a.id);
        let first = issues_if(
            !pkg.asset_bytes@.contains_key(a.id) && !referenced,
            error_issue(
                "asset "@ + uuid_text(a.id) + " ("@ + asset_file_name(a)
                    + ") is declared in assets[] but missing from the package"@,
            ),
        );
        assert(first =~= seq![]);
        let second = issues_if(
            !referenced,
            info_issue(
                "asset "@ + uuid_text(a.id) + " ("@ + asset_file_name(a)
                    + ") is declared but not referenced by any element"@,
            ),
        );
        assert(all_notes(second));
        lemma_all_notes_concat(first, second);
        lemma_all_notes_concat(assets_issues(pkg, assets.drop_last()), asset_issues(pkg, a));
    }
}

/// A package that passes the checklist gets no error from validation:
/// at most notes (such as one per asset that no element uses).
pub proof fn law_sound_package_validates(pkg: DeckPackage)
    requires
        package_sound(pkg),
    ensures
        all_notes(package_issues(pkg)),
        messages_of(package_issues(pkg), Severity::Error).len() == 0,
{
    let p = pkg.presentation;
    lemma_slides_notes(pkg, p.slides@);
    lemma_assets_notes(pkg, p.assets@);
    let empty = issues_if(p.slides@.len() == 0, error_issue("presentation has no slides"@));
    assert(empty =~= seq![]);
    lemma_all_notes_concat(empty, slides_issues(pkg, p.slides@));
    lemma_all_notes_concat(empty + slides_issues(pkg, p.slides@), assets_issues(pkg, p.assets@));
    lemma_no_error_messages(package_issues(pkg));
}

proof fn lemma_no_error_messages(issues: Seq<(Severity, Seq<char>)>)
    requires
        all_notes(issues),
    ensures
        messages_of(issues, Severity::Error).len() == 0,
    decreases issues.len(),
{
    if issues.len() > 0 {
        assert(all_notes(issues.drop_last())) by {
            assert forall|i: int| 0 <= i < issues.drop_last().len() implies #[trigger] issues.drop_last()[i].0
                == Severity::Info by {
                assert(issues.drop_last()[i] == issues[i]);
            }
        }
        lemma_no_error_messages(issues.drop_last());
        assert(issues.last() == issues[issues.len() - 1]);
    }
}


/// Whether some issue is `x`.
pub open spec fn has_issue(issues: Seq<(Severity, Seq<char>)>, x: (Severity, Seq<char>)) -> bool {
    exists|j: int| 0 <= j < issues.len() && #[trigger] issues[j] == x
}

proof fn lemma_has_left(a: Seq<(Severity, Seq<char>)>, b: Seq<(Severity, Seq<char>)>, x: (Severity, Seq<char>))
    requires
        has_issue(a, x),
    ensures
        has_issue(a + b, x),
{
    let j = choose|j: int| 0 <= j < a.len() && #[trigger] a[j] == x;
    assert((a + b)[j] == x);
}

proof fn lemma_has_right(a: Seq<(Severity, Seq<char>)>, b: Seq<(Severity, Seq<char>)>, x: (Severity, Seq<char>))
    requires
        has_issue(b, x),
    ensures
        has_issue(a + b, x),
{
    let j = choose|j: int| 0 <= j < b.len() && #[trigger] b[j] == x;
    assert((a + b)[a.len() + j] == x);
}

proof fn lemma_elements_have(pkg: DeckPackage, slide_id: u128, es: Seq<Element>, k: int, x: (Severity, Seq<char>))
    requires
        0 <= k < es.len(),
        has_issue(element_issues(pkg, slide_id, es[k]), x),
    ensures
        has_issue(elements_issues(pkg, slide_id, es), x),
    decreases es.len(),
{
    if k == es.len() - 1 {
        lemma_has_right(elements_issues(pkg, slide_id, es.drop_last()), element_issues(pkg, slide_id, es.last()), x);
    } else {
        assert(es.drop_last()[k] == es[k]);
        lemma_elements_have(pkg, slide_id, es.drop_last(), k, x);
        lemma_has_left(elements_issues(pkg, slide_id, es.drop_last()), element_issues(pkg, slide_id, es.last()), x);
    }
}

proof fn lemma_slides_have(pkg: DeckPackage, ss: Seq<Slide>, i: int, x: (Severity, Seq<char>))
    requires
        0 <= i < ss.len(),
        has_issue(slide_issues(pkg, ss[i]), x),
    ensures
        has_issue(slides_issues(pkg, ss), x),
    decreases ss.len(),
{
    if i == ss.len() - 1 {
        lemma_has_right(slides_issues(pkg, ss.drop_last()), slide_issues(pkg, ss.last()), x);
    } else {
        assert(ss.drop_last()[i] == ss[i]);
        lemma_slides_have(pkg, ss.drop_last(), i, x);
        lemma_has_left(slides_issues(pkg, ss.drop_last()), slide_issues(pkg, ss.last()), x);
    }
}

proof fn lemma_assets_have(pkg: DeckPackage, assets: Seq<Asset>, j: int, x: (Severity, Seq<char>))
    requires
        0 <= j < assets.len(),
        has_issue(asset_issues(pkg, assets[j]), x),
    ensures
        has_issue(assets_issues(pkg, assets), x),
    decreases assets.len(),
{
    if j == assets.len() - 1 {
        lemma_has_right(assets_issues(pkg, assets.drop_last()), asset_issues(pkg, assets.last()), x);
    } else {
        assert(assets.drop_last()[j] == assets[j]);
        lemma_assets_have(pkg, assets.drop_last(), j, x);
        lemma_has_left(assets_issues(pkg, assets.drop_last()), asset_issues(pkg, assets.last()), x);
    }
}

/// The error validation reports for an image whose asset is not declared.
pub open spec fn undeclared_image_asset_issue(element: u128, asset: u128) -> (Severity, Seq<char>) {
    (
        Severity::Error,
        "image element "@ + uuid_text(element) + " asset_id "@ + uuid_text(asset)
            + " references asset_id "@ + uuid_text(asset) + " which is not declared in assets[]"@,
    )
}

/// An image whose asset id is not declared makes validation report an
/// error naming the element and that asset id.
pub proof fn law_dangling_image_is_an_error(pkg: DeckPackage, i: int, k: int)
    requires
        0 <= i < pkg.presentation.slides@.len(),
        0 <= k < pkg.presentation.slides@[i].elements@.len(),
        pkg.presentation.slides@[i].elements@[k] matches Element::Image(im) && asset_lookup(
            pkg.presentation.assets@,
            im.asset_id,
        ) is None,
    ensures
        pkg.presentation.slides@[i].elements@[k] matches Element::Image(im) && has_issue(
            package_issues(pkg),
            undeclared_image_asset_issue(im.id, im.asset_id),
        ),
{
    let p = pkg.presentation;
    let s = p.slides@[i];
    let e = s.elements@[k];
    let im = e->Image_0;
    let x = undeclared_image_asset_issue(im.id, im.asset_id);
    let r = reference_issues(
        pkg,
        im.asset_id,
        "image element "@ + uuid_text(im.id) + " asset_id "@ + uuid_text(im.asset_id),
        false,
    );
    assert(r[0] == x);
    let tail = match im.render_asset_id {
        Some(rr) => reference_issues(
            pkg,
            rr,
            "image element "@ + uuid_text(im.id) + " render_asset_id "@ + uuid_text(rr),
            true,
        ),
        None => seq![],
    };
    lemma_has_left(r, tail, x);
    assert(image_issues(pkg, im) == r + tail);
    lemma_has_right(crate::ops::bounds_issues(s.id, e), image_issues(pkg, im), x);
    lemma_elements_have(pkg, s.id, s.elements@, k, x);
    let size = issues_if(
        is_non_positive_bits(s.size.width.bits) || is_non_positive_bits(s.size.height.bits),
        error_issue(
            "slide "@ + uuid_text(s.id) + " has a non-positive size ("@ + s.size.width.shown@
                + " x "@ + s.size.height.shown@ + ")"@,
        ),
    );
    lemma_has_right(size, elements_issues(pkg, s.id, s.elements@), x);
    lemma_slides_have(pkg, p.slides@, i, x);
    let empty = issues_if(p.slides@.len() == 0, error_issue("presentation has no slides"@));
    lemma_has_right(empty, slides_issues(pkg, p.slides@), x);
    lemma_has_left(empty + slides_issues(pkg, p.slides@), assets_issues(pkg, p.assets@), x);
}

/// The note validation gives an asset no element uses.
pub open spec fn unused_asset_note(a: Asset) -> (Severity, Seq<char>) {
    (
        Severity::Info,
        "asset "@ + uuid_text(a.id) + " ("@ + asset_file_name(a)
            + ") is declared but not referenced by any element"@,
    )
}

/// A declared asset that no element uses is noted by validation.
pub proof fn law_unused_asset_is_noted(pkg: DeckPackage, j: int)
    requires
        0 <= j < pkg.presentation.assets@.len(),
        !is_referenced(pkg.presentation, pkg.presentation.assets@[j].id),
    ensures
        has_issue(package_issues(pkg), unused_asset_note(pkg.presentation.assets@[j])),
{
    let p = pkg.presentation;
    let a = p.assets@[j];
    let x = unused_asset_note(a);
    let first = issues_if(
        !pkg.asset_bytes@.contains_key(a.id),
        error_issue(
            "asset "@ + uuid_text(a.id) + " ("@ + asset_file_name(a)
                + ") is declared in assets[] but missing from the package"@,
        ),
    );
    let second = issues_if(
        true,
        info_issue(
            "asset "@ + uuid_text(a.id) + " ("@ + asset_file_name(a)
                + ") is declared but not referenced by any element"@,
        ),
    );
    assert(second[0] == x);
    lemma_has_right(first, second, x);
    assert(asset_issues(pkg, a) == first + second);
    lemma_assets_have(pkg, p.assets@, j, x);
    let empty = issues_if(p.slides@.len() == 0, error_issue("presentation has no slides"@));
    lemma_has_right(empty + slides_issues(pkg, p.slides@), assets_issues(pkg, p.assets@), x);
}

/// Whether some issue is an error.
pub open spec fn has_error(issues: Seq<(Severity, Seq<char>)>) -> bool {
    exists|j: int| 0 <= j < issues.len() && #[trigger] issues[j].0 == Severity::Error
}

proof fn lemma_error_left(a: Seq<(Severity, Seq<char>)>, b: Seq<(Severity, Seq<char>)>)
    requires
        has_error(a),
    ensures
        has_error(a + b),
{
    let j = choose|j: int| 0 <= j < a.len() && #[trigger] a[j].0 == Severity::Error;
    assert((a + b)[j] == a[j]);
}

proof fn lemma_error_right(a: Seq<(Severity, Seq<char>)>, b: Seq<(Severity, Seq<char>)>)
    requires
        has_error(b),
    ensures
        has_error(a + b),
{
    let j = choose|j: int| 0 <= j < b.len() && #[trigger] b[j].0 == Severity::Error;
    assert((a + b)[a.len() + j] == b[j]);
}

proof fn lemma_error_issue(m: Seq<char>)
    ensures
        has_error(error_issue(m)),
{
    assert(error_issue(m)[0].0 == Severity::Error);
}

proof fn lemma_reference_error(pkg: DeckPackage, id: u128, context: Seq<char>, raster: bool)
    requires
        !reference_resolves(pkg, id, raster),
    ensures
        has_error(reference_issues(pkg, id, context, raster)),
{
    match asset_lookup(pkg.presentation.assets@, id) {
        None => {
            lemma_error_issue(
                context + " references asset_id "@ + uuid_text(id) + " which is not declared in assets[]"@,
            );
        },
        Some(a) => {
            let first = issues_if(
                !pkg.asset_bytes@.contains_key(a.id),
                error_issue(
                    "asset "@ + uuid_text(a.id) + " ("@ + asset_file_name(a) + ") referenced by "@
                        + context + " is declared but missing from assets/ in the package"@,
                ),
            );
            let second = issues_if(
                raster && !is_raster_media_type(a.media_type@),
                error_issue(
                    context + " must point to a raster image asset, but asset "@ + uuid_text(a.id)
                        + " has media_type "@ + a.media_type@,
                ),
            );
            if !pkg.asset_bytes@.contains_key(a.id) {
                assert(first[0].0 == Severity::Error);
                lemma_error_left(first, second);
            } else {
                assert(second[0].0 == Severity::Error);
                lemma_error_right(first, second);
            }
        },
    }
}

proof fn lemma_element_error(pkg: DeckPackage, slide_id: u128, e: Element)
    requires
        !element_sound(pkg, e),
    ensures
        has_error(element_issues(pkg, slide_id, e)),
{
    let b = element_bounds(e);
    let bounds = crate::ops::bounds_issues(slide_id, e);
    let kind = match e {
        Element::Text(t) => crate::ops::text_issues(slide_id, t),
        Element::Math(m) => math_issues(pkg, slide_id, m),
        Element::Image(im) => image_issues(pkg, im),
        _ => seq![],
    };
    if is_negative_bits(b.width.bits) || is_negative_bits(b.height.bits) {
        assert(bounds[0].0 == Severity::Error);
        lemma_error_left(bounds, kind);
        return;
    }
    match e {
        Element::Text(t) => {
            assert(crate::ops::text_issues(slide_id, t)[0].0 == Severity::Error);
        },
        Element::Math(m) => {
            let empty = issues_if(
                trimmed(m.tex@).len() == 0,
                error_issue(
                    "math element "@ + uuid_text(m.id) + " on slide "@ + uuid_text(slide_id)
                        + " has empty tex"@,
                ),
            );
            let font = issues_if(
                is_non_positive_bits(m.font_size.bits),
                error_issue(
                    "math element "@ + uuid_text(m.id) + " on slide "@ + uuid_text(slide_id)
                        + " has non-positive font_size"@,
                ),
            );
            let tail = match m.render_asset_id {
                Some(r) => reference_issues(
                    pkg,
                    r,
                    "math element "@ + uuid_text(m.id) + " render_asset_id "@ + uuid_text(r),
                    true,
                ),
                None => seq![],
            };
            assert(math_issues(pkg, slide_id, m) == empty + font + tail);
            if trimmed(m.tex@).len() == 0 {
                assert(empty[0].0 == Severity::Error);
                lemma_error_left(empty, font);
                lemma_error_left(empty + font, tail);
            } else if is_non_positive_bits(m.font_size.bits) {
                assert(font[0].0 == Severity::Error);
                lemma_error_right(empty, font);
                lemma_error_left(empty + font, tail);
            } else {
                let r = m.render_asset_id->Some_0;
                lemma_reference_error(
                    pkg,
                    r,
                    "math element "@ + uuid_text(m.id) + " render_asset_id "@ + uuid_text(r),
                    true,
                );
                lemma_error_right(empty + font, tail);
            }
        },
        Element::Image(im) => {
            let first = reference_issues(
                pkg,
                im.asset_id,
                "image element "@ + uuid_text(im.id) + " asset_id "@ + uuid_text(im.asset_id),
                false,
            );
            let tail = match im.render_asset_id {
                Some(r) => reference_issues(
                    pkg,
                    r,
                    "image element "@ + uuid_text(im.id) + " render_asset_id "@ + uuid_text(r),
                    true,
                ),
                None => seq![],
            };
            assert(image_issues(pkg, im) == first + tail);
            if !reference_resolves(pkg, im.asset_id, false) {
                lemma_reference_error(
                    pkg,
                    im.asset_id,
                    "image element "@ + uuid_text(im.id) + " asset_id "@ + uuid_text(im.asset_id),
                    false,
                );
                lemma_error_left(first, tail);
            } else {
                let r = im.render_asset_id->Some_0;
                lemma_reference_error(
                    pkg,
                    r,
                    "image element "@ + uuid_text(im.id) + " render_asset_id "@ + uuid_text(r),
                    true,
                );
                lemma_error_right(first, tail);
            }
        },
        _ => {},
    }
    lemma_error_right(bounds, kind);
}

proof fn lemma_elements_error(pkg: DeckPackage, slide_id: u128, es: Seq<Element>, k: int)
    requires
        0 <= k < es.len(),
        has_error(element_issues(pkg, slide_id, es[k])),
    ensures
        has_error(elements_issues(pkg, slide_id, es)),
    decreases es.len(),
{
    if k == es.len() - 1 {
        lemma_error_right(elements_issues(pkg, slide_id, es.drop_last()), element_issues(pkg, slide_id, es.last()));
    } else {
        assert(es.drop_last()[k] == es[k]);
        lemma_elements_error(pkg, slide_id, es.drop_last(), k);
        lemma_error_left(elements_issues(pkg, slide_id, es.drop_last()), element_issues(pkg, slide_id, es.last()));
    }
}

proof fn lemma_slides_error(pkg: DeckPackage, ss: Seq<Slide>, i: int)
    requires
        0 <= i < ss.len(),
        has_error(slide_issues(pkg, ss[i])),
    ensures
        has_error(slides_issues(pkg, ss)),
    decreases ss.len(),
{
    if i == ss.len() - 1 {
        lemma_error_right(slides_issues(pkg, ss.drop_last()), slide_issues(pkg, ss.last()));
    } else {
        assert(ss.drop_last()[i] == ss[i]);
        lemma_slides_error(pkg, ss.drop_last(), i);
        lemma_error_left(slides_issues(pkg, ss.drop_last()), slide_issues(pkg, ss.last()));
    }
}

proof fn lemma_assets_error(pkg: DeckPackage, assets: Seq<Asset>, j: int)
    requires
        0 <= j < assets.len(),
        has_error(asset_issues(pkg, assets[j])),
    ensures
        has_error(assets_issues(pkg, assets)),
    decreases assets.len(),
{
    if j == assets.len() - 1 {
        lemma_error_right(assets_issues(pkg, assets.drop_last()), asset_issues(pkg, assets.last()));
    } else {
        assert(assets.drop_last()[j] == assets[j]);
        lemma_assets_error(pkg, assets.drop_last(), j);
        lemma_error_left(assets_issues(pkg, assets.drop_last()), asset_issues(pkg, assets.last()));
    }
}

/// An error inside the slides is an error of the package.
proof fn lemma_slide_error_lifts(pkg: DeckPackage, i: int)
    requires
        0 <= i < pkg.presentation.slides@.len(),
        has_error(slide_issues(pkg, pkg.presentation.slides@[i])),
    ensures
        has_error(package_issues(pkg)),
{
    let p = pkg.presentation;
    lemma_slides_error(pkg, p.slides@, i);
    let empty = issues_if(p.slides@.len() == 0, error_issue("presentation has no slides"@));
    lemma_error_right(empty, slides_issues(pkg, p.slides@));
    lemma_error_left(empty + slides_issues(pkg, p.slides@), assets_issues(pkg, p.assets@));
}

/// An error of an element is an error of the package.
proof fn lemma_element_error_lifts(pkg: DeckPackage, i: int, k: int)
    requires
        0 <= i < pkg.presentation.slides@.len(),
        0 <= k < pkg.presentation.slides@[i].elements@.len(),
        !element_sound(pkg, pkg.presentation.slides@[i].elements@[k]),
    ensures
        has_error(package_issues(pkg)),
{
    let s = pkg.presentation.slides@[i];
    lemma_element_error(pkg, s.id, s.elements@[k]);
    lemma_elements_error(pkg, s.id, s.elements@, k);
    let size = issues_if(
        is_non_positive_bits(s.size.width.bits) || is_non_positive_bits(s.size.height.bits),
        error_issue(
            "slide "@ + uuid_text(s.id) + " has a non-positive size ("@ + s.size.width.shown@
                + " x "@ + s.size.height.shown@ + ")"@,
        ),
    );
    lemma_error_right(size, elements_issues(pkg, s.id, s.elements@));
    lemma_slide_error_lifts(pkg, i);
}

/// Whether slide `i` exists and has a non-positive width or height.
spec fn slide_too_small(pkg: DeckPackage, i: int) -> bool {
    &&& 0 <= i < pkg.presentation.slides@.len()
    &&& is_non_positive_bits(pkg.presentation.slides@[i].size.width.bits)
        || is_non_positive_bits(pkg.presentation.slides@[i].size.height.bits)
}

/// A slide of non-positive size is an error of the package.
proof fn lemma_slide_size_error_lifts(pkg: DeckPackage, i: int)
    requires
        slide_too_small(pkg, i),
    ensures
        has_error(package_issues(pkg)),
{
    let s = pkg.presentation.slides@[i];
    let size = issues_if(
        is_non_positive_bits(s.size.width.bits) || is_non_positive_bits(s.size.height.bits),
        error_issue(
            "slide "@ + uuid_text(s.id) + " has a non-positive size ("@ + s.size.width.shown@
                + " x "@ + s.size.height.shown@ + ")"@,
        ),
    );
    assert(size[0].0 == Severity::Error);
    lemma_error_left(size, elements_issues(pkg, s.id, s.elements@));
    assert(slide_issues(pkg, s) == size + elements_issues(pkg, s.id, s.elements@));
    lemma_slide_error_lifts(pkg, i);
}

/// A package that fails the checklist gets at least one error from
/// validation: together with the law above, validation passes exactly
/// the packages that pass the checklist.
pub proof fn law_unsound_package_fails_validation(pkg: DeckPackage)
    requires
        !package_sound(pkg),
    ensures
        has_error(package_issues(pkg)),
{
    let p = pkg.presentation;
    let empty = issues_if(p.slides@.len() == 0, error_issue("presentation has no slides"@));
    if p.slides@.len() == 0 {
        assert(empty[0].0 == Severity::Error);
        lemma_error_left(empty, slides_issues(pkg, p.slides@));
        lemma_error_left(empty + slides_issues(pkg, p.slides@), assets_issues(pkg, p.assets@));
    } else if exists|i: int| #[trigger] slide_too_small(pkg, i) {
        let i = choose|i: int| #[trigger] slide_too_small(pkg, i);
        lemma_slide_size_error_lifts(pkg, i);
    } else if exists|i: int, k: int|
        0 <= i < p.slides@.len() && 0 <= k < p.slides@[i].elements@.len() && !element_sound(
            pkg,
            #[trigger] p.slides@[i].elements@[k],
        ) {
        let (i, k) = choose|i: int, k: int|
            0 <= i < p.slides@.len() && 0 <= k < p.slides@[i].elements@.len() && !element_sound(
                pkg,
                #[trigger] p.slides@[i].elements@[k],
            );
        lemma_element_error_lifts(pkg, i, k);
    } else {
        assert forall|i: int| 0 <= i < p.slides@.len() implies !is_non_positive_bits(
            #[trigger] p.slides@[i].size.width.bits,
        ) && !is_non_positive_bits(p.slides@[i].size.height.bits) by {
            assert(!slide_too_small(pkg, i));
        }
        assert(exists|j: int|
            0 <= j < p.assets@.len() && !pkg.asset_bytes@.contains_key(#[trigger] p.assets@[j].id));
        let j = choose|j: int|
            0 <= j < p.assets@.len() && !pkg.asset_bytes@.contains_key(#[trigger] p.assets@[j].id);
        let a = p.assets@[j];
        if is_referenced(p, a.id) {
            let (i, k) = choose|i: int, k: int|
                0 <= i < p.slides@.len() && 0 <= k < p.slides@[i].elements@.len()
                    && crate::ops::element_references(#[trigger] p.slides@[i].elements@[k], a.id);
            lemma_referenced_missing_bytes(pkg, a.id, p.slides@[i].elements@[k]);
            lemma_element_error_lifts(pkg, i, k);
        } else {
            let first = issues_if(
                !pkg.asset_bytes@.contains_key(a.id) && !is_referenced(p, a.id),
                error_issue(
                    "asset "@ + uuid_text(a.id) + " ("@ + asset_file_name(a)
                        + ") is declared in assets[] but missing from the package"@,
                ),
            );
            let second = issues_if(
                !is_referenced(p, a.id),
                info_issue(
                    "asset "@ + uuid_text(a.id) + " ("@ + asset_file_name(a)
                        + ") is declared but not referenced by any element"@,
                ),
            );
            assert(first[0].0 == Severity::Error);
            lemma_error_left(first, second);
            assert(asset_issues(pkg, a) == first + second);
            lemma_assets_error(pkg, p.assets@, j);
            lemma_error_right(empty + slides_issues(pkg, p.slides@), assets_issues(pkg, p.assets@));
        }
    }
}

/// An element that references an id whose bytes are missing is unsound.
proof fn lemma_referenced_missing_bytes(pkg: DeckPackage, id: u128, e: Element)
    requires
        !pkg.asset_bytes@.contains_key(id),
        crate::ops::element_references(e, id),
    ensures
        !element_sound(pkg, e),
{
    crate::model::lemma_first_index(crate::model::asset_ids(pkg.presentation.assets@), id);
    if let Some(a) = asset_lookup(pkg.presentation.assets@, id) {
        let i = crate::model::first_index(crate::model::asset_ids(pkg.presentation.assets@), id)->Some_0;
        assert(crate::model::asset_ids(pkg.presentation.assets@)[i] == id);
        assert(a.id == id);
    }
}

// ---------------------------------------------------------------------
// pack and validate
// ---------------------------------------------------------------------

/// `pack` refuses a deck exactly when `validate` fails it.
pub proof fn law_pack_refuses_what_validate_fails(
    deck_json: Seq<char>,
    file: Seq<char>,
    issues: Seq<(Severity, Seq<char>)>,
)
    ensures
        pack_refusal_of(deck_json, issues) is Some <==> verdict(file, issues) is Err,
{
}


// ---------------------------------------------------------------------
// Saving and opening a package
// ---------------------------------------------------------------------

/// A part whose name differs from `name` does not change what is read
/// under `name`, wherever it stands among the parts.
proof fn lemma_part_bytes_ignores(parts: Seq<PackagePart>, pos: int, extra: PackagePart, name: Seq<char>)
    requires
        0 <= pos <= parts.len(),
        extra.name@ != name,
    ensures
        part_bytes(parts.insert(pos, extra), name) == part_bytes(parts, name),
    decreases parts.len(),
{
    let with = parts.insert(pos, extra);
    if pos == 0 {
        assert(with.drop_first() =~= parts);
    } else {
        assert(with[0] == parts[0]);
        assert(with.drop_first() =~= parts.drop_first().insert(pos - 1, extra));
        lemma_part_bytes_ignores(parts.drop_first(), pos - 1, extra, name);
    }
}

proof fn lemma_loaded_bytes_ignore(assets: Seq<Asset>, parts: Seq<PackagePart>, pos: int, extra: PackagePart)
    requires
        0 <= pos <= parts.len(),
        forall|m: int| 0 <= m < assets.len() ==> asset_entry_name(#[trigger] assets[m]) != extra.name@,
    ensures
        loaded_bytes(assets, parts.insert(pos, extra)) == loaded_bytes(assets, parts),
    decreases assets.len(),
{
    if assets.len() > 0 {
        let prev = assets.drop_last();
        assert forall|m: int| 0 <= m < prev.len() implies asset_entry_name(#[trigger] prev[m]) != extra.name@ by {
            assert(prev[m] == assets[m]);
        }
        lemma_loaded_bytes_ignore(prev, parts, pos, extra);
        assert(assets[assets.len() - 1] == assets.last());
        lemma_part_bytes_ignores(parts, pos, extra, asset_entry_name(assets.last()));
    }
}

/// Readers ignore extra files: a file that is neither `deck.json` nor the
/// file of a declared asset, added anywhere in a package, changes neither
/// the `deck.json` that is read nor the asset bytes that are loaded.
pub proof fn law_extra_files_are_ignored(
    assets: Seq<Asset>,
    parts: Seq<PackagePart>,
    pos: int,
    extra: PackagePart,
)
    requires
        0 <= pos <= parts.len(),
        extra.name@ != "deck.json"@,
        forall|m: int| 0 <= m < assets.len() ==> asset_entry_name(#[trigger] assets[m]) != extra.name@,
    ensures
        part_text(parts.insert(pos, extra), "deck.json"@) == part_text(parts, "deck.json"@),
        loaded_bytes(assets, parts.insert(pos, extra)) == loaded_bytes(assets, parts),
{
    lemma_part_bytes_ignores(parts, pos, extra, "deck.json"@);
    lemma_loaded_bytes_ignore(assets, parts, pos, extra);
}


/// Sixteen to the `n`.
pub open spec fn pow16(n: nat) -> nat
    decreases n,
{
    if n == 0 {
        1
    } else {
        16 * pow16((n - 1) as nat)
    }
}

pub(crate) proof fn lemma_hex_digits_len(v: nat, n: nat)
    ensures
        hex_digits(v, n).len() == n,
    decreases n,
{
    if n > 0 {
        lemma_hex_digits_len(v / 16, (n - 1) as nat);
    }
}

/// Distinct digits have distinct characters.
proof fn lemma_hex_digit_injective(a: int, b: int)
    requires
        0 <= a < 16,
        0 <= b < 16,
        hex_digit(a) == hex_digit(b),
    ensures
        a == b,
{
}

/// The `n` lowest hexadecimal digits of numbers below `16^n` determine
/// the numbers.
proof fn lemma_hex_digits_injective(v: nat, w: nat, n: nat)
    requires
        v < pow16(n),
        w < pow16(n),
        hex_digits(v, n) == hex_digits(w, n),
    ensures
        v == w,
    decreases n,
{
    if n > 0 {
        let hv = hex_digits(v, n);
        let hw = hex_digits(w, n);
        assert(hv.drop_last() =~= hex_digits(v / 16, (n - 1) as nat));
        assert(hw.drop_last() =~= hex_digits(w / 16, (n - 1) as nat));
        assert(hv.last() == hex_digit((v % 16) as int));
        assert(hw.last() == hex_digit((w % 16) as int));
        lemma_hex_digit_injective((v % 16) as int, (w % 16) as int);
        lemma_hex_digits_injective(v / 16, w / 16, (n - 1) as nat);
    }
}

/// Two UUIDs with the same text are the same.
pub proof fn lemma_uuid_text_injective(a: u128, b: u128)
    requires
        uuid_text(a) == uuid_text(b),
    ensures
        a == b,
{
    let ha = hex_digits(a as nat, 32);
    let hb = hex_digits(b as nat, 32);
    lemma_hex_digits_len(a as nat, 32);
    lemma_hex_digits_len(b as nat, 32);
    let ua = uuid_text(a);
    let ub = uuid_text(b);
    assert forall|k: int| 0 <= k < 32 implies ha[k] == hb[k] by {
        let at = if k < 8 {
            k
        } else if k < 12 {
            k + 1
        } else if k < 16 {
            k + 2
        } else if k < 20 {
            k + 3
        } else {
            k + 4
        };
        assert(ua[at] == ha[k]);
        assert(ub[at] == hb[k]);
    }
    assert(ha =~= hb);
    assert(pow16(32) == 0x1_0000_0000_0000_0000_0000_0000_0000_0000nat) by {
        reveal_with_fuel(pow16, 33);
    }
    lemma_hex_digits_injective(a as nat, b as nat, 32);
}

/// Two assets whose files have the same name have the same id.
pub proof fn lemma_entry_name_injective(a: Asset, b: Asset)
    requires
        asset_entry_name(a) == asset_entry_name(b),
    ensures
        a.id == b.id,
{
    reveal_strlit("assets/");
    let na = asset_entry_name(a);
    let nb = asset_entry_name(b);
    let ua = uuid_text(a.id);
    let ub = uuid_text(b.id);
    lemma_hex_digits_len(a.id as nat, 32);
    lemma_hex_digits_len(b.id as nat, 32);
    assert(ua.len() == 36 && ub.len() == 36);
    assert forall|k: int| 0 <= k < 36 implies ua[k] == ub[k] by {
        assert(na[7 + k] == ua[k]);
        assert(nb[7 + k] == ub[k]);
    }
    assert(ua =~= ub);
    lemma_uuid_text_injective(a.id, b.id);
}

/// Where every part named `name` holds `v`, the first does.
proof fn lemma_part_bytes_all(parts: Seq<PackagePart>, name: Seq<char>, v: Seq<u8>)
    requires
        forall|j: int| 0 <= j < parts.len() && #[trigger] parts[j].name@ == name ==> parts[j].bytes@ == v,
    ensures
        part_bytes(parts, name) matches Some(b) ==> b == v,
        part_bytes(parts, name) is None <==> forall|j: int|
            0 <= j < parts.len() ==> #[trigger] parts[j].name@ != name,
    decreases parts.len(),
{
    if parts.len() > 0 {
        let rest = parts.drop_first();
        assert forall|j: int| 0 <= j < rest.len() && #[trigger] rest[j].name@ == name implies rest[j].bytes@ == v by {
            assert(rest[j] == parts[j + 1]);
        }
        lemma_part_bytes_all(rest, name, v);
        if parts[0].name@ != name {
            if part_bytes(parts, name) is None {
                assert forall|j: int| 0 <= j < parts.len() implies #[trigger] parts[j].name@ != name by {
                    if j > 0 {
                        assert(parts[j] == rest[j - 1]);
                    }
                }
            } else {
                let j = choose|j: int| 0 <= j < rest.len() && #[trigger] rest[j].name@ == name;
                assert(parts[j + 1] == rest[j]);
            }
        }
    }
}

/// Every saved file named like the file of asset `a` holds `a`'s bytes.
proof fn lemma_saved_names(assets: Seq<Asset>, bytes: Map<u128, Vec<u8>>, a: Asset)
    ensures
        forall|j: int|
            0 <= j < saved_entries(assets, bytes).len() && #[trigger] saved_entries(assets, bytes)[j].0
                == asset_entry_name(a) ==> bytes.contains_key(a.id) && saved_entries(
                assets,
                bytes,
            )[j].1 == bytes[a.id]@,
    decreases assets.len(),
{
    if assets.len() > 0 {
        let prev = assets.drop_last();
        lemma_saved_names(prev, bytes, a);
        let sp = saved_entries(prev, bytes);
        let sa = saved_entries(assets, bytes);
        let last = assets.last();
        assert forall|j: int| 0 <= j < sa.len() && #[trigger] sa[j].0 == asset_entry_name(a) implies bytes.contains_key(
            a.id,
        ) && sa[j].1 == bytes[a.id]@ by {
            if j < sp.len() {
                assert(sa[j] == sp[j]);
            } else {
                assert(sa[j] == (asset_entry_name(last), bytes[last.id]@));
                lemma_entry_name_injective(last, a);
            }
        }
    }
}

/// An asset with bytes has its file among the saved files.
proof fn lemma_saved_has(assets: Seq<Asset>, bytes: Map<u128, Vec<u8>>, m: int)
    requires
        0 <= m < assets.len(),
        bytes.contains_key(assets[m].id),
    ensures
        exists|j: int|
            0 <= j < saved_entries(assets, bytes).len() && #[trigger] saved_entries(assets, bytes)[j].0
                == asset_entry_name(assets[m]),
    decreases assets.len(),
{
    let sa = saved_entries(assets, bytes);
    let prev = assets.drop_last();
    if m < assets.len() - 1 {
        assert(prev[m] == assets[m]);
        lemma_saved_has(prev, bytes, m);
        let sp = saved_entries(prev, bytes);
        let j = choose|j: int| 0 <= j < sp.len() && #[trigger] sp[j].0 == asset_entry_name(prev[m]);
        assert(sa[j] == sp[j]);
    } else {
        assert(assets.last() == assets[m]);
        assert(sa[sa.len() - 1] == (asset_entry_name(assets[m]), bytes[assets[m].id]@));
        assert(sa[sa.len() - 1].0 == asset_entry_name(assets[m]));
    }
}

/// The ids of some assets.
pub open spec fn asset_id_set(assets: Seq<Asset>) -> Set<u128> {
    Set::new(|id: u128| exists|m: int| 0 <= m < assets.len() && #[trigger] assets[m].id == id)
}

/// Saving a package and opening the result gives back the bytes of every
/// declared asset the package held: the files a package is saved with
/// (`deck.json`, then the asset files) load, for its assets, exactly its
/// asset bytes.
pub proof fn law_saved_bytes_open_back(
    assets: Seq<Asset>,
    bytes: Map<u128, Vec<u8>>,
    deck_json: Seq<u8>,
    files: Seq<PackagePart>,
)
    requires
        parts_view(files) == seq![("deck.json"@, deck_json)] + saved_entries(assets, bytes),
    ensures
        loaded_bytes(assets, files) == bytes_view(bytes).restrict(asset_id_set(assets)),
{
    assert forall|m: int| 0 <= m < assets.len() implies (#[trigger] part_bytes(
        files,
        asset_entry_name(assets[m]),
    )) == (if bytes.contains_key(assets[m].id) {
        Some(bytes[assets[m].id]@)
    } else {
        None
    }) by {
        lemma_asset_file_found(assets, bytes, deck_json, files, m);
    }
    lemma_loaded_prefix(assets, bytes, files, assets.len() as nat);
    assert(assets.take(assets.len() as int) =~= assets);
}


/// In the saved files, the file of asset `m` holds its bytes, and is
/// there exactly when it has bytes.
proof fn lemma_asset_file_found(
    assets: Seq<Asset>,
    bytes: Map<u128, Vec<u8>>,
    deck_json: Seq<u8>,
    files: Seq<PackagePart>,
    m: int,
)
    requires
        0 <= m < assets.len(),
        parts_view(files) == seq![("deck.json"@, deck_json)] + saved_entries(assets, bytes),
    ensures
        part_bytes(files, asset_entry_name(assets[m])) == (if bytes.contains_key(assets[m].id) {
            Some(bytes[assets[m].id]@)
        } else {
            None
        }),
{
    reveal_strlit("deck.json");
    reveal_strlit("assets/");
    let saved = saved_entries(assets, bytes);
    let a = assets[m];
    let name = asset_entry_name(a);
    lemma_saved_names(assets, bytes, a);
    assert(name[0] == 'a');
    assert(parts_view(files).len() == files.len());
    assert(files.len() == saved.len() + 1);
    assert forall|j: int| 0 <= j < files.len() && #[trigger] files[j].name@ == name implies files[j].bytes@
        == bytes[a.id]@ && bytes.contains_key(a.id) by {
        assert(parts_view(files)[j] == (files[j].name@, files[j].bytes@));
        if j == 0 {
            assert(parts_view(files)[0] == ("deck.json"@, deck_json));
            assert("deck.json"@[0] == 'd');
            assert(false);
        } else {
            assert(parts_view(files)[j] == saved[j - 1]);
            assert(saved[j - 1].0 == name);
            assert(saved[j - 1].1 == files[j].bytes@);
        }
    }
    lemma_part_bytes_all(files, name, bytes[a.id]@);
    if bytes.contains_key(a.id) {
        lemma_saved_has(assets, bytes, m);
        let j = choose|j: int| 0 <= j < saved.len() && #[trigger] saved[j].0 == name;
        assert(parts_view(files)[j + 1] == saved[j]);
        assert(files[j + 1].name@ == name);
    }
}

proof fn lemma_loaded_prefix(
    assets: Seq<Asset>,
    bytes: Map<u128, Vec<u8>>,
    files: Seq<PackagePart>,
    n: nat,
)
    requires
        n <= assets.len(),
        forall|m: int|
            0 <= m < assets.len() ==> (#[trigger] part_bytes(files, asset_entry_name(assets[m])))
                == (if bytes.contains_key(assets[m].id) {
                Some(bytes[assets[m].id]@)
            } else {
                None
            }),
    ensures
        loaded_bytes(assets.take(n as int), files) == bytes_view(bytes).restrict(
            asset_id_set(assets.take(n as int)),
        ),
    decreases n,
{
    let pre = assets.take(n as int);
    if n == 0 {
        assert(bytes_view(bytes).restrict(asset_id_set(pre)) =~= Map::empty());
    } else {
        lemma_loaded_prefix(assets, bytes, files, (n - 1) as nat);
        let prev = assets.take(n - 1);
        assert(pre.drop_last() =~= prev);
        let a = assets[n - 1];
        assert(pre.last() == a);
        let _ = part_bytes(files, asset_entry_name(assets[n - 1]));
        assert(asset_id_set(pre) =~= asset_id_set(prev).insert(a.id)) by {
            assert forall|id: u128| asset_id_set(pre).contains(id) implies asset_id_set(prev).insert(
                a.id,
            ).contains(id) by {
                let m = choose|m: int| 0 <= m < pre.len() && #[trigger] pre[m].id == id;
                if m < n - 1 {
                    assert(prev[m] == pre[m]);
                }
            }
            assert forall|id: u128| asset_id_set(prev).insert(a.id).contains(id) implies asset_id_set(
                pre,
            ).contains(id) by {
                if id == a.id {
                    assert(pre[n - 1].id == id);
                } else {
                    let m = choose|m: int| 0 <= m < prev.len() && #[trigger] prev[m].id == id;
                    assert(pre[m] == prev[m]);
                }
            }
        }
        assert(loaded_bytes(pre, files) =~= bytes_view(bytes).restrict(asset_id_set(pre)));
    }
}

// ---------------------------------------------------------------------
// Escaping
// ---------------------------------------------------------------------

/// TeX escaping works character by character: escaping two texts one
/// after the other is escaping them joined, so no escape is ever escaped
/// again.
pub proof fn law_tex_escaping_is_per_character(a: Seq<char>, b: Seq<char>)
    ensures
        tex_escaped(a + b) == tex_escaped(a) + tex_escaped(b),
    decreases b.len(),
{
    if b.len() == 0 {
        assert(a + b =~= a);
        assert(tex_escaped(a) + tex_escaped(b) =~= tex_escaped(a));
    } else {
        law_tex_escaping_is_per_character(a, b.drop_last());
        assert((a + b).drop_last() =~= a + b.drop_last());
        assert((a + b).last() == b.last());
        assert(tex_escaped(a) + tex_escaped(b) =~= tex_escaped(a) + tex_escaped(b.drop_last())
            + tex_char(b.last()));
    }
}

/// XML escaping works character by character too.
pub proof fn law_xml_escaping_is_per_character(a: Seq<char>, b: Seq<char>)
    ensures
        xml_escaped(a + b) == xml_escaped(a) + xml_escaped(b),
    decreases b.len(),
{
    if b.len() == 0 {
        assert(a + b =~= a);
        assert(xml_escaped(a) + xml_escaped(b) =~= xml_escaped(a));
    } else {
        law_xml_escaping_is_per_character(a, b.drop_last());
        assert((a + b).drop_last() =~= a + b.drop_last());
        assert((a + b).last() == b.last());
        assert(xml_escaped(a) + xml_escaped(b) =~= xml_escaped(a) + xml_escaped(b.drop_last())
            + escaped_xml_char(b.last()));
    }
}

// ---------------------------------------------------------------------
// Media types and extensions
// ---------------------------------------------------------------------

/// The media types an asset file extension stands for.
pub open spec fn is_canonical_media_type(t: Seq<char>) -> bool {
    ||| t == "image/png"@
    ||| t == "image/jpeg"@
    ||| t == "image/gif"@
    ||| t == "image/webp"@
    ||| t == "image/bmp"@
    ||| t == "image/svg+xml"@
    ||| t == "application/pdf"@
}

/// A canonical media type gives an extension that gives it back.
pub proof fn law_media_type_round_trip(t: Seq<char>)
    requires
        is_canonical_media_type(t),
    ensures
        extension_media_type(media_extension(t)) == t,
{
    reveal_strlit("png");
    reveal_strlit("jpeg");
    reveal_strlit("gif");
    reveal_strlit("webp");
    reveal_strlit("bmp");
    reveal_strlit("svg");
    reveal_strlit("pdf");
    reveal_strlit("jpg");
    reveal_strlit("image/png");
    reveal_strlit("image/jpeg");
    reveal_strlit("image/jpg");
    reveal_strlit("image/gif");
    reveal_strlit("image/webp");
    reveal_strlit("image/bmp");
    reveal_strlit("image/svg+xml");
    reveal_strlit("application/pdf");
    let e = media_extension(t);
    lemma_lower_is_identity(e);
    // Literals of equal length differ at a known position.
    assert("image/png"@[6] == 'p' && "image/jpg"@[6] == 'j' && "image/gif"@[6] == 'g'
        && "image/bmp"@[6] == 'b');
    assert("image/jpeg"@[6] == 'j' && "image/webp"@[6] == 'w');
    assert("png"@[0] == 'p' && "jpg"@[0] == 'j' && "gif"@[0] == 'g' && "bmp"@[0] == 'b'
        && "svg"@[0] == 's' && "pdf"@[0] == 'p' && "pdf"@[1] == 'd' && "png"@[1] == 'n');
    assert("jpeg"@[0] == 'j' && "webp"@[0] == 'w');
}

/// Lower-casing text without ASCII capitals leaves it unchanged.
proof fn lemma_lower_is_identity(s: Seq<char>)
    requires
        forall|i: int| 0 <= i < s.len() ==> !('A' <= #[trigger] s[i] && s[i] <= 'Z'),
    ensures
        ascii_lower(s) == s,
{
    assert(ascii_lower(s) =~= s);
}

/// An extension (in any ASCII case) that names a media type gives a media
/// type whose extension is the lower-case extension.
pub proof fn law_extension_round_trip(ext: Seq<char>)
    requires
        extension_media_type(ext) != "application/octet-stream"@,
        ascii_lower(ext) != "jpg"@,
    ensures
        media_extension(extension_media_type(ext)) == ascii_lower(ext),
{
    reveal_strlit("png");
    reveal_strlit("jpeg");
    reveal_strlit("gif");
    reveal_strlit("webp");
    reveal_strlit("bmp");
    reveal_strlit("svg");
    reveal_strlit("pdf");
    reveal_strlit("jpg");
    reveal_strlit("image/png");
    reveal_strlit("image/jpeg");
    reveal_strlit("image/jpg");
    reveal_strlit("image/gif");
    reveal_strlit("image/webp");
    reveal_strlit("image/bmp");
    reveal_strlit("image/svg+xml");
    reveal_strlit("application/pdf");
    reveal_strlit("application/octet-stream");
    let e = ascii_lower(ext);
    assert forall|i: int| 0 <= i < e.len() implies !('A' <= #[trigger] e[i] && e[i] <= 'Z') by {
        assert(e[i] == ascii_lower_char(ext[i]));
    }
    lemma_lower_is_identity(e);
    assert("image/png"@[6] == 'p' && "image/jpg"@[6] == 'j' && "image/gif"@[6] == 'g'
        && "image/bmp"@[6] == 'b');
    assert("image/jpeg"@[6] == 'j' && "image/webp"@[6] == 'w');
    assert("png"@[0] == 'p' && "jpg"@[0] == 'j' && "gif"@[0] == 'g' && "bmp"@[0] == 'b'
        && "svg"@[0] == 's' && "pdf"@[0] == 'p' && "pdf"@[1] == 'd' && "png"@[1] == 'n');
    assert("jpeg"@[0] == 'j' && "webp"@[0] == 'w');
    if e == "png"@ {
        assert(extension_media_type(ext) == "image/png"@);
        assert(media_extension("image/png"@) == "png"@);
    } else if e == "jpeg"@ {
        assert(extension_media_type(ext) == "image/jpeg"@);
        assert(media_extension("image/jpeg"@) == "jpeg"@);
    } else if e == "gif"@ {
        assert(extension_media_type(ext) == "image/gif"@);
        assert(media_extension("image/gif"@) == "gif"@);
    } else if e == "webp"@ {
        assert(extension_media_type(ext) == "image/webp"@);
        assert(media_extension("image/webp"@) == "webp"@);
    } else if e == "bmp"@ {
        assert(extension_media_type(ext) == "image/bmp"@);
        assert(media_extension("image/bmp"@) == "bmp"@);
    } else if e == "svg"@ {
        assert(extension_media_type(ext) == "image/svg+xml"@);
        assert(media_extension("image/svg+xml"@) == "svg"@);
    } else {
        assert(e == "pdf"@);
        assert(extension_media_type(ext) == "application/pdf"@);
        assert("application/pdf"@.len() == 15);
        assert("image/svg+xml"@.len() == 13);
        assert("image/webp"@.len() == 10 && "image/jpeg"@.len() == 10);
        assert(media_extension("application/pdf"@) == "pdf"@);
    }
}


// ---------------------------------------------------------------------
// Part names shared by export and import
// ---------------------------------------------------------------------

/// The characters of a decimal number are digits.
proof fn lemma_decimal_digits(n: nat)
    ensures
        decimal(n).len() > 0,
        forall|i: int| 0 <= i < decimal(n).len() ==> '0' <= #[trigger] decimal(n)[i] <= '9',
    decreases n,
{
    if n >= 10 {
        lemma_decimal_digits(n / 10);
        let d = decimal(n / 10);
        assert forall|i: int| 0 <= i < decimal(n).len() implies '0' <= #[trigger] decimal(n)[i] <= '9' by {
            if i < d.len() {
                assert(decimal(n)[i] == d[i]);
            }
        }
    }
}

/// The segment state after characters that hold no `/`.
proof fn lemma_state_plain(s: Seq<char>, t: Seq<char>)
    requires
        forall|i: int| 0 <= i < t.len() ==> t[i] != '/',
    ensures
        segment_state(s + t) == (segment_state(s).0, segment_state(s).1 + t),
    decreases t.len(),
{
    if t.len() == 0 {
        assert(s + t =~= s);
        assert(segment_state(s).1 + t =~= segment_state(s).1);
    } else {
        assert((s + t).drop_last() =~= s + t.drop_last());
        assert((s + t).last() == t.last());
        lemma_state_plain(s, t.drop_last());
        assert((segment_state(s).1 + t.drop_last()).push(t.last()) =~= segment_state(s).1 + t);
    }
}

/// The segment state after a segment and its closing `/`.
proof fn lemma_state_segment(s: Seq<char>, seg: Seq<char>)
    requires
        segment_state(s).1.len() == 0,
        forall|i: int| 0 <= i < seg.len() ==> seg[i] != '/',
    ensures
        segment_state(s + seg + seq!['/']) == (push_segment(segment_state(s).0, seg), Seq::<char>::empty()),
{
    lemma_state_plain(s, seg);
    assert((s + seg + seq!['/']).drop_last() =~= s + seg);
    assert(segment_state(s).1 + seg =~= seg);
}


/// The slide target the exported presentation gives its `n`-th slide.
pub open spec fn exported_slide_target(n: nat) -> Seq<char> {
    "slides/slide"@ + decimal(n) + ".xml"@
}

/// The `/` in an exported slide target is its seventh character.
proof fn lemma_slide_target_slash(n: nat)
    ensures
        exported_slide_target(n)[6] == '/',
        exported_slide_target(n).len() == 16 + decimal(n).len(),
        forall|j: int| 6 < j < exported_slide_target(n).len() ==> #[trigger] exported_slide_target(n)[j] != '/',
        exported_slide_target(n)[0] == 's',
        last_index_of(exported_slide_target(n), '/') == Some(6int),
{
    reveal_strlit("slides/slide");
    reveal_strlit(".xml");
    lemma_decimal_digits(n);
    let t = exported_slide_target(n);
    let d = decimal(n);
    assert forall|j: int| 6 < j < t.len() implies #[trigger] t[j] != '/' by {
        if j < 12 {
            assert(t[j] == "slides/slide"@[j]);
        } else if j < 12 + d.len() {
            assert(t[j] == d[j - 12]);
        } else {
            assert(t[j] == ".xml"@[j - 12 - d.len()]);
        }
    }
    assert(t[6] == '/');
    crate::pptx::paths::lemma_last_index_of(t, '/');
    match last_index_of(t, '/') {
        Some(i) => {
            if i < 6 {
                assert(t[6] != '/');
            }
            if i > 6 {
                assert(t[i] != '/');
            }
        },
        None => {
            assert(t[6] != '/');
        },
    }
}

/// An exported slide target is taken as it stands, under `ppt/`.
proof fn lemma_slide_target_part(n: nat)
    ensures
        strip_leading(exported_slide_target(n), '/') == exported_slide_target(n),
        !has_prefix(exported_slide_target(n), "ppt/"@),
        slide_part(exported_slide_target(n)) == "ppt/slides/slide"@ + decimal(n) + ".xml"@,
{
    reveal_strlit("slides/slide");
    reveal_strlit(".xml");
    reveal_strlit("ppt/");
    reveal_strlit("ppt/slides/slide");
    lemma_slide_target_slash(n);
    let t = exported_slide_target(n);
    assert(leading_count(t, '/') == 0);
    assert(t.skip(0) =~= t);
    assert(t.subrange(0, 4)[0] == 's');
    assert("ppt/"@[0] == 'p');
    assert("ppt/"@ + t =~= "ppt/slides/slide"@ + decimal(n) + ".xml"@);
}

/// The parts an export writes for its `n`-th slide are the parts an
/// import reads for the slide target the export gives it: the slide part,
/// its relationships part, and, for each picture, the media part its
/// relationship `../media/{name}` names.
pub proof fn law_exported_part_names_resolve(n: nat, media_name: Seq<char>)
    requires
        media_name.len() > 0,
        media_name != "."@,
        media_name != ".."@,
        forall|i: int| 0 <= i < media_name.len() ==> media_name[i] != '/',
    ensures
        slide_part(exported_slide_target(n)) == "ppt/slides/slide"@ + decimal(n) + ".xml"@,
        slide_rels_path(exported_slide_target(n)) == "ppt/slides/_rels/slide"@ + decimal(n)
            + ".xml.rels"@,
        resolved_target(exported_slide_target(n), "../media/"@ + media_name) == "ppt/media/"@
            + media_name,
{
    reveal_strlit("slides/slide");
    reveal_strlit(".xml");
    reveal_strlit("ppt/");
    reveal_strlit("/_rels/");
    reveal_strlit(".rels");
    reveal_strlit("ppt/slides/_rels/slide");
    reveal_strlit(".xml.rels");
    reveal_strlit("../media/");
    reveal_strlit("ppt/media/");
    reveal_strlit("/");
    reveal_strlit("ppt");
    reveal_strlit(".");
    reveal_strlit("..");
    lemma_slide_target_part(n);
    lemma_slide_target_slash(n);
    let t = exported_slide_target(n);
    let d = decimal(n);
    // the relationships part
    assert(t.take(6) =~= seq!['s', 'l', 'i', 'd', 'e', 's']);
    assert(t.skip(7) =~= "slide"@ + d + ".xml"@) by {
        reveal_strlit("slide");
    }
    assert("ppt/"@ + t.take(6) + "/_rels/"@ + t.skip(7) + ".rels"@ =~= "ppt/slides/_rels/slide"@ + d
        + ".xml.rels"@) by {
        reveal_strlit("slide");
    }
    // the media part
    let target = "../media/"@ + media_name;
    assert(target[0] == '.');
    assert(!has_prefix(target, "/"@)) by {
        assert(target.subrange(0, 1)[0] == '.');
    }
    let source = "ppt/"@ + t;
    assert(source[3] == '/');
    assert forall|j: int| 3 < j < source.len() && j != 10 implies #[trigger] source[j] != '/' by {
        if j < 10 {
            assert(source[j] == t[j - 4]);
        } else {
            assert(source[j] == t[j - 4]);
        }
    }
    assert(source[10] == '/');
    crate::pptx::paths::lemma_last_index_of(source, '/');
    assert(last_index_of(source, '/') == Some(10int));
    let ppt = seq!['p', 'p', 't'];
    let slides = seq!['s', 'l', 'i', 'd', 'e', 's'];
    let up = seq!['.', '.'];
    let media = seq!['m', 'e', 'd', 'i', 'a'];
    let s0 = Seq::<char>::empty();
    let s1 = s0 + ppt + seq!['/'];
    let s2 = s1 + slides + seq!['/'];
    let s3 = s2 + up + seq!['/'];
    let s4 = s3 + media + seq!['/'];
    assert(segment_state(s0) == (Seq::<Seq<char>>::empty(), Seq::<char>::empty()));
    lemma_state_segment(s0, ppt);
    lemma_state_segment(s1, slides);
    lemma_state_segment(s2, up);
    lemma_state_segment(s3, media);
    lemma_state_plain(s4, media_name);
    assert(source.take(10) + seq!['/'] + target =~= s4 + media_name);
    assert(ppt != "."@ && ppt != ".."@ && ppt.len() > 0);
    assert(slides != "."@ && slides != ".."@);
    assert(media != "."@ && media != ".."@);
    assert(up == ".."@);
    let stack = seq![ppt, media];
    assert(segment_state(s4).0 =~= stack);
    assert(segment_state(s4 + media_name) == (stack, s4.take(0) + media_name));
    assert(Seq::<char>::empty() + media_name =~= media_name);
    assert(push_segment(stack, media_name) =~= seq![ppt, media, media_name]);
    assert(seq![ppt, media, media_name].drop_last() =~= stack);
    assert(stack.drop_last() =~= seq![ppt]);
    assert(join_segments(seq![ppt]) == ppt);
    assert(join_segments(stack) == ppt + seq!['/'] + media);
    assert(join_segments(seq![ppt, media, media_name]) =~= "ppt/media/"@ + media_name);
}


/// A pattern that matches the end of `s` character by character ends it.
proof fn lemma_suffix(s: Seq<char>, pat: Seq<char>)
    requires
        pat.len() <= s.len(),
        forall|k: int| 0 <= k < pat.len() ==> s[s.len() - pat.len() + k] == #[trigger] pat[k],
    ensures
        has_suffix(s, pat),
{
    assert(s.subrange(s.len() - pat.len(), s.len() as int) =~= pat);
}

/// A pattern that differs from the end of `s` at one place does not end it.
proof fn lemma_not_suffix(s: Seq<char>, pat: Seq<char>, k: int)
    requires
        0 <= k < pat.len(),
        pat.len() <= s.len() ==> s[s.len() - pat.len() + k] != pat[k],
    ensures
        !has_suffix(s, pat),
{
    if pat.len() <= s.len() {
        assert(s.subrange(s.len() - pat.len(), s.len() as int)[k] != pat[k]);
    }
}

/// An asset of a raster media type is exported as a media part named with
/// its extension, and imported back with the same media type, whatever
/// the part's name before the extension.
pub proof fn law_exported_media_type_imports_back(stem: Seq<char>, t: Seq<char>)
    requires
        t == "image/png"@ || t == "image/jpeg"@ || t == "image/gif"@ || t == "image/webp"@
            || t == "image/bmp"@,
    ensures
        media_type_of_path(stem + "."@ + media_extension(t)) == t,
{
    reveal_strlit("png");
    reveal_strlit("jpeg");
    reveal_strlit("gif");
    reveal_strlit("webp");
    reveal_strlit("bmp");
    reveal_strlit(".");
    reveal_strlit(".png");
    reveal_strlit(".jpg");
    reveal_strlit(".jpeg");
    reveal_strlit(".gif");
    reveal_strlit(".webp");
    reveal_strlit(".bmp");
    reveal_strlit("image/png");
    reveal_strlit("image/jpeg");
    reveal_strlit("image/jpg");
    reveal_strlit("image/gif");
    reveal_strlit("image/webp");
    reveal_strlit("image/bmp");
    reveal_strlit("image/svg+xml");
    reveal_strlit("application/pdf");
    assert("image/png"@[6] == 'p' && "image/jpg"@[6] == 'j' && "image/gif"@[6] == 'g'
        && "image/bmp"@[6] == 'b');
    assert("image/jpeg"@[6] == 'j' && "image/webp"@[6] == 'w');
    let e = media_extension(t);
    let tail = "."@ + e;
    let p = stem + tail;
    assert(stem + "."@ + e =~= p);
    let lower = ascii_lower(p);
    let n = lower.len();
    assert forall|k: int| 0 <= k < tail.len() implies lower[n - tail.len() + k] == #[trigger] tail[k] by {
        assert(p[stem.len() + k] == tail[k]);
    }
    assert(lower[n - 1] == tail[tail.len() - 1]);
    assert(lower[n - 2] == tail[tail.len() - 2]);
    assert(lower[n - 3] == tail[tail.len() - 3]);
    assert(lower[n - 4] == tail[tail.len() - 4]);
    if e == "png"@ {
        lemma_suffix(lower, ".png"@);
    } else if e == "jpeg"@ {
        assert(lower[n - 5] == tail[0]);
        lemma_not_suffix(lower, ".png"@, 0);
        lemma_not_suffix(lower, ".jpg"@, 0);
        lemma_suffix(lower, ".jpeg"@);
    } else if e == "gif"@ {
        lemma_not_suffix(lower, ".png"@, 1);
        lemma_not_suffix(lower, ".jpg"@, 1);
        lemma_not_suffix(lower, ".jpeg"@, 1);
        lemma_suffix(lower, ".gif"@);
    } else if e == "webp"@ {
        assert(lower[n - 5] == tail[0]);
        lemma_not_suffix(lower, ".png"@, 0);
        lemma_not_suffix(lower, ".jpg"@, 0);
        lemma_not_suffix(lower, ".jpeg"@, 1);
        lemma_not_suffix(lower, ".gif"@, 0);
        lemma_suffix(lower, ".webp"@);
    } else {
        assert(e == "bmp"@);
        lemma_not_suffix(lower, ".png"@, 1);
        lemma_not_suffix(lower, ".jpg"@, 1);
        lemma_not_suffix(lower, ".jpeg"@, 1);
        lemma_not_suffix(lower, ".gif"@, 1);
        lemma_not_suffix(lower, ".webp"@, 1);
        lemma_suffix(lower, ".bmp"@);
    }
}


/// Decoding the escape of one character, followed by more text, gives the
/// character followed by the decoding of the rest.
proof fn lemma_decode_escaped_char(c: char, r: Seq<char>)
    ensures
        xml_text_decoded(escaped_xml_char(c) + r) == seq![c] + xml_text_decoded(r),
{
    reveal_strlit("&amp;");
    reveal_strlit("&lt;");
    reveal_strlit("&gt;");
    let x = escaped_xml_char(c) + r;
    if c == '&' {
        assert(escaped_xml_char(c) =~= amp_ref());
        assert(x.subrange(0, 5) =~= amp_ref());
        assert(x.skip(5) =~= r);
    } else if c == '<' {
        assert(escaped_xml_char(c) =~= lt_ref());
        assert(x[1] == 'l');
        if x.len() >= 5 {
            assert(x.subrange(0, 5)[1] != amp_ref()[1]);
        }
        assert(x.subrange(0, 4) =~= lt_ref());
        assert(x.skip(4) =~= r);
    } else if c == '>' {
        assert(escaped_xml_char(c) =~= gt_ref());
        assert(x[1] == 'g');
        if x.len() >= 5 {
            assert(x.subrange(0, 5)[1] != amp_ref()[1]);
        }
        assert(x.subrange(0, 4)[1] != lt_ref()[1]);
        assert(x.subrange(0, 4) =~= gt_ref());
        assert(x.skip(4) =~= r);
    } else {
        assert(escaped_xml_char(c) =~= seq![c]);
        assert(x[0] == c);
        if x.len() >= 4 {
            assert(x.subrange(0, 4)[0] != lt_ref()[0]);
            assert(x.subrange(0, 4)[0] != gt_ref()[0]);
        }
        if x.len() >= 5 {
            assert(x.subrange(0, 5)[0] != amp_ref()[0]);
        }
        if x.len() >= 6 {
            assert(x.subrange(0, 6)[0] != quot_ref()[0]);
            assert(x.subrange(0, 6)[0] != apos_ref()[0]);
        }
        assert(x.skip(1) =~= r);
    }
}

/// Text written into a slide's text run reads back unchanged: decoding
/// the escaped text gives the text, so the text-box scan, at the content
/// of a run, adds exactly the text that was written.
pub proof fn law_written_text_reads_back(s: Seq<char>, st: TextScan)
    requires
        st.awaiting_run,
    ensures
        xml_text_decoded(xml_escaped(s)) == s,
        text_step(st, Some(XmlEventView::Text { content: xml_escaped(s) })) == ScanStep::<
            TextScan,
            Seq<ParsedTextView>,
        >::Next(TextScan { text: joined(st.text, s), awaiting_run: false, ..st }),
    decreases s.len(),
{
    if s.len() == 0 {
        assert(xml_escaped(s) =~= Seq::<char>::empty());
    } else {
        let rest = s.drop_first();
        law_written_text_reads_back(rest, st);
        law_xml_escaping_is_per_character(seq![s[0]], rest);
        assert(seq![s[0]].drop_last() =~= Seq::<char>::empty());
        assert(seq![s[0]].last() == s[0]);
        assert(xml_escaped(Seq::<char>::empty()) =~= Seq::<char>::empty());
        assert(Seq::<char>::empty() + escaped_xml_char(s[0]) =~= escaped_xml_char(s[0]));
        assert(xml_escaped(seq![s[0]]) =~= escaped_xml_char(s[0]));
        assert(seq![s[0]] + rest =~= s);
        lemma_decode_escaped_char(s[0], xml_escaped(rest));
        assert(seq![s[0]] + rest =~= s);
    }
}


/// A slide target may be written relative to `ppt/`, with `ppt/`, or with
/// `/ppt/`: all three name the same slide part and the same relationships
/// part.
pub proof fn law_slide_target_spellings(t: Seq<char>)
    requires
        t.len() > 0,
        t[0] != '/',
        !has_prefix(t, "ppt/"@),
    ensures
        slide_part("ppt/"@ + t) == slide_part(t),
        slide_part("/ppt/"@ + t) == slide_part(t),
        slide_rels_path("ppt/"@ + t) == slide_rels_path(t),
        slide_rels_path("/ppt/"@ + t) == slide_rels_path(t),
{
    reveal_strlit("ppt/");
    reveal_strlit("/ppt/");
    let u = "ppt/"@ + t;
    let w = "/ppt/"@ + t;
    assert(leading_count(t, '/') == 0);
    assert(t.skip(0) =~= t);
    assert(u[0] == 'p');
    assert(leading_count(u, '/') == 0);
    assert(u.skip(0) =~= u);
    assert(u.subrange(0, 4) =~= "ppt/"@);
    assert(has_prefix(u, "ppt/"@));
    assert(u.skip(4) =~= t);
    assert(w.drop_first() =~= u);
    assert(leading_count(w, '/') == 1);
    assert(w.skip(1) =~= u);
    assert(strip_leading(w, '/') == u);
    assert(strip_leading(u, '/') == u);
    assert(strip_leading(t, '/') == t);
}


/// The pictures of the first `i` slides come first among all pictures.
proof fn lemma_all_images_prefix(slides: Seq<ImportedSlideView>, i: int)
    requires
        0 <= i < slides.len(),
    ensures
        all_images(slides.take(i + 1)) == all_images(slides.take(i)) + slides[i].images,
        all_images(slides.take(i + 1)).len() <= all_images(slides).len(),
    decreases slides.len(),
{
    assert(slides.take(i + 1).drop_last() =~= slides.take(i));
    assert(slides.take(i + 1).last() == slides[i]);
    if i + 1 == slides.len() {
        assert(slides.take(i + 1) =~= slides);
    } else {
        let shorter = slides.drop_last();
        assert(shorter.take(i + 1) =~= slides.take(i + 1));
        assert(shorter.take(i) =~= slides.take(i));
        assert(shorter[i] == slides[i]);
        lemma_all_images_prefix(shorter, i);
    }
}

/// Every picture an import makes resolves: the image element has no
/// rendering of its own, its asset is one of the deck's assets, and the
/// package holds that asset's bytes.
pub proof fn law_imported_images_resolve<F: Fn(i64) -> Measure, G: Fn(String) -> Measure>(
    pkg: DeckPackage,
    slides: Seq<ImportedSlideView>,
    to_points: F,
    font_points: G,
    i: int,
    k: int,
)
    requires
        built_from(pkg, slides, to_points, font_points),
        0 <= i < pkg.presentation.slides@.len(),
        0 <= k < pkg.presentation.slides@[i].elements@.len(),
        pkg.presentation.slides@[i].elements@[k] is Image,
    ensures
        pkg.presentation.slides@[i].elements@[k]->Image_0.render_asset_id is None,
        exists|m: int|
            0 <= m < pkg.presentation.assets@.len() && #[trigger] pkg.presentation.assets@[m].id
                == pkg.presentation.slides@[i].elements@[k]->Image_0.asset_id,
        pkg.asset_bytes@.contains_key(pkg.presentation.slides@[i].elements@[k]->Image_0.asset_id),
{
    let p = pkg.presentation;
    let v = slides[i];
    let a = all_images(slides.take(i)).len() as int;
    let b = all_images(slides.take(i + 1)).len() as int;
    let sub = p.assets@.subrange(a, b);
    lemma_all_images_prefix(slides, i);
    assert(slide_built(p.slides@[i], v, sub, to_points, font_points));
    let e = p.slides@[i].elements@[k];
    if k < v.texts.len() {
        assert(text_built(p.slides@[i].elements@[k], v.texts[k], to_points, font_points));
        reveal(text_built);
        assert(false);
    }
    let j = k - v.texts.len();
    assert(p.slides@[i].elements@[v.texts.len() + j] == e);
    assert(image_built(p.slides@[i].elements@[v.texts.len() + j], v.images[j], sub[j], to_points));
    assert(sub[j] == p.assets@[a + j]);
    assert(p.assets@[a + j].id == e->Image_0.asset_id);
    reveal(bytes_built);
    assert(pkg.asset_bytes@.contains_key(p.assets@[a + j].id));
}


/// The media type of an extension does not depend on its case: an
/// extension and its lower-cased form name the same media type.
pub proof fn law_extension_case_does_not_matter(ext: Seq<char>)
    ensures
        extension_media_type(ascii_lower(ext)) == extension_media_type(ext),
{
    assert(ascii_lower(ascii_lower(ext)) =~= ascii_lower(ext));
}


/// How many image elements there are among some elements.
pub open spec fn image_element_count(es: Seq<Element>) -> nat
    decreases es.len(),
{
    if es.len() == 0 {
        0
    } else {
        image_element_count(es.drop_last()) + if es.last() is Image {
            1nat
        } else {
            0nat
        }
    }
}

/// How many image elements a deck's slides hold.
pub open spec fn deck_image_count(ss: Seq<Slide>) -> nat
    decreases ss.len(),
{
    if ss.len() == 0 {
        0
    } else {
        deck_image_count(ss.drop_last()) + image_element_count(ss.last().elements@)
    }
}

proof fn lemma_count_after(es: Seq<Element>, t: int)
    requires
        0 <= t <= es.len(),
        forall|j: int| 0 <= j < t ==> !(#[trigger] es[j] is Image),
        forall|j: int| t <= j < es.len() ==> #[trigger] es[j] is Image,
    ensures
        image_element_count(es) == es.len() - t,
    decreases es.len(),
{
    if es.len() > 0 {
        let d = es.drop_last();
        if es.len() > t {
            assert(es.last() == es[es.len() - 1]);
            assert forall|j: int| 0 <= j < t implies !(#[trigger] d[j] is Image) by {
                assert(d[j] == es[j]);
            }
            assert forall|j: int| t <= j < d.len() implies #[trigger] d[j] is Image by {
                assert(d[j] == es[j]);
            }
            lemma_count_after(d, t);
        } else {
            assert(es.last() == es[es.len() - 1]);
            assert forall|j: int| 0 <= j < d.len() implies !(#[trigger] d[j] is Image) by {
                assert(d[j] == es[j]);
            }
            lemma_count_after(d, d.len() as int);
        }
    }
}

/// An imported slide holds one image element per picture read.
proof fn lemma_slide_image_count<F: Fn(i64) -> Measure, G: Fn(String) -> Measure>(
    s: Slide,
    v: ImportedSlideView,
    assets: Seq<Asset>,
    to_points: F,
    font_points: G,
)
    requires
        slide_built(s, v, assets, to_points, font_points),
    ensures
        image_element_count(s.elements@) == v.images.len(),
{
    let es = s.elements@;
    let t = v.texts.len() as int;
    assert forall|j: int| 0 <= j < t implies !(#[trigger] es[j] is Image) by {
        assert(text_built(es[j], v.texts[j], to_points, font_points));
        reveal(text_built);
    }
    assert forall|j: int| t <= j < es.len() implies #[trigger] es[j] is Image by {
        let k = j - t;
        assert(es[v.texts.len() + k] == es[j]);
        assert(image_built(es[v.texts.len() + k], v.images[k], assets[k], to_points));
    }
    lemma_count_after(es, t);
}

/// The first `i` imported slides hold as many image elements as pictures
/// were read for them.
proof fn lemma_deck_image_count<F: Fn(i64) -> Measure, G: Fn(String) -> Measure>(
    pkg: DeckPackage,
    slides: Seq<ImportedSlideView>,
    to_points: F,
    font_points: G,
    i: int,
)
    requires
        built_from(pkg, slides, to_points, font_points),
        0 <= i <= slides.len(),
    ensures
        deck_image_count(pkg.presentation.slides@.take(i)) == all_images(slides.take(i)).len(),
    decreases i,
{
    let p = pkg.presentation;
    if i == 0 {
        assert(p.slides@.take(0) =~= Seq::<Slide>::empty());
        assert(slides.take(0) =~= Seq::<ImportedSlideView>::empty());
    } else {
        let j = i - 1;
        lemma_deck_image_count(pkg, slides, to_points, font_points, j);
        lemma_all_images_prefix(slides, j);
        let a = all_images(slides.take(j)).len() as int;
        let b = all_images(slides.take(j + 1)).len() as int;
        assert(slide_built(p.slides@[j], slides[j], p.assets@.subrange(a, b), to_points, font_points));
        lemma_slide_image_count(p.slides@[j], slides[j], p.assets@.subrange(a, b), to_points, font_points);
        assert(p.slides@.take(i).drop_last() =~= p.slides@.take(j));
        assert(p.slides@.take(i).last() == p.slides@[j]);
    }
}

/// An import makes one asset per image element and holds bytes for those
/// assets alone.
pub proof fn law_imported_assets_match_images<F: Fn(i64) -> Measure, G: Fn(String) -> Measure>(
    pkg: DeckPackage,
    slides: Seq<ImportedSlideView>,
    to_points: F,
    font_points: G,
)
    requires
        built_from(pkg, slides, to_points, font_points),
    ensures
        pkg.presentation.assets@.len() == deck_image_count(pkg.presentation.slides@),
        forall|id: u128|
            #[trigger] pkg.asset_bytes@.contains_key(id) ==> exists|m: int|
                0 <= m < pkg.presentation.assets@.len() && pkg.presentation.assets@[m].id == id,
{
    let p = pkg.presentation;
    let n = slides.len() as int;
    lemma_deck_image_count(pkg, slides, to_points, font_points, n);
    assert(p.slides@.take(n) =~= p.slides@);
    assert(slides.take(n) =~= slides);
    reveal(bytes_built);
}

} // verus!
