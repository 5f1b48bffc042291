//! PPTX export: what a deck's slides need, then the parts of the `.pptx`.
//!
//! Planning resolves every picture to its asset bytes before anything is
//! written, so a deck with a dangling reference fails before any output
//! exists. Assembling then copies the template, patching the parts that
//! depend on the slides, and adds the generated slides, their media and
//! their relationships. Lengths reach assembly already converted to EMU.
use vstd::prelude::*;

use std::collections::BTreeMap;

use crate::error::PptxError;
use crate::ids::{id_text, uuid_text};
use crate::measure::Measure;
use crate::model::{
    asset_file_name, asset_lookup, extension_for_media_type, media_extension, Asset, Element,
    Presentation, Rect, Slide,
};
use crate::package::DeckPackage;
use crate::pptx::export::{
    is_generated_part, is_generated_slide_part, patch_content_types, patch_presentation_relationships,
    patch_presentation_xml, patch_slide_size, patched_content_types,
    patched_presentation_relationships, patched_presentation_xml, slide_relationships_xml,
    slide_xml, strings_view, with_slide_size, generate_slide_relationships, generate_slide_xml,
    PictureShape, ResolvedImage, TextShape,
};
use crate::pptx::package::{Package, PackagePart};
use crate::text::{append_decimal, decimal, str_eq};
use vstd::utf8::{decode_utf8, encode_utf8, valid_utf8};

verus! {

/// PPTX export.
pub struct PptxExporter;

/// A text box to generate: its shape id, where it goes, its font size,
/// colour and text.
#[derive(Debug, Clone)]
pub struct TextSource {
    pub id: u64,
    pub bounds: Rect,
    pub font_size: Measure,
    pub color: String,
    pub text: String,
}

/// What one slide holds: its text boxes and its resolved pictures.
#[derive(Debug, Clone)]
pub struct SlidePlan {
    pub texts: Vec<TextSource>,
    pub images: Vec<ResolvedImage>,
}

/// What an export writes: the slide size (the first slide's), each
/// slide's content, and the image extensions embedded, in order.
#[derive(Debug, Clone)]
pub struct ExportPlan {
    pub slide_width: Measure,
    pub slide_height: Measure,
    pub slides: Vec<SlidePlan>,
    pub image_extensions: Vec<String>,
}

pub struct TextSourceView {
    pub id: nat,
    pub bounds: Rect,
    pub font_size: Measure,
    pub color: Seq<char>,
    pub text: Seq<char>,
}

pub struct ResolvedView {
    pub rel_id: Seq<char>,
    pub media_name: Seq<char>,
    pub extension: Seq<char>,
    pub bytes: Seq<u8>,
    pub bounds: Rect,
}

pub open spec fn text_source_view(t: TextSource) -> TextSourceView {
    TextSourceView {
        id: t.id as nat,
        bounds: t.bounds,
        font_size: t.font_size,
        color: t.color@,
        text: t.text@,
    }
}

pub open spec fn resolved_view(r: ResolvedImage) -> ResolvedView {
    ResolvedView {
        rel_id: r.rel_id@,
        media_name: r.media_name@,
        extension: r.extension@,
        bytes: r.bytes@,
        bounds: r.bounds,
    }
}

pub open spec fn text_sources_view(v: Seq<TextSource>) -> Seq<TextSourceView> {
    v.map_values(|t: TextSource| text_source_view(t))
}

pub open spec fn resolved_images_view(v: Seq<ResolvedImage>) -> Seq<ResolvedView> {
    v.map_values(|r: ResolvedImage| resolved_view(r))
}

/// The text boxes of a slide's elements: each text element, and each
/// formula without a rendering (shown as its TeX source), with shape id
/// `100 + ` its position among the elements.
pub open spec fn text_sources(elements: Seq<Element>) -> Seq<TextSourceView>
    decreases elements.len(),
{
    if elements.len() == 0 {
        seq![]
    } else {
        let prev = text_sources(elements.drop_last());
        let id = (100 + elements.len() - 1) as nat;
        match elements.last() {
            Element::Text(t) => prev.push(
                TextSourceView {
                    id,
                    bounds: t.bounds,
                    font_size: t.font_size,
                    color: t.color.value@,
                    text: t.text@,
                },
            ),
            Element::Math(m) => if m.render_asset_id is None {
                prev.push(
                    TextSourceView {
                        id,
                        bounds: m.bounds,
                        font_size: m.font_size,
                        color: m.color.value@,
                        text: m.tex@,
                    },
                )
            } else {
                prev
            },
            _ => prev,
        }
    }
}

/// The picture an element places: an image's own asset, with the
/// element's id and bounds. No other element places a picture.
pub open spec fn picture_source(e: Element) -> Option<(u128, u128, Rect)> {
    match e {
        Element::Image(i) => Some((i.id, i.asset_id, i.bounds)),
        _ => None,
    }
}

/// The error for a picture whose asset is not declared.
pub open spec fn undeclared_asset_message(element: u128, asset: u128) -> Seq<char> {
    "image element "@ + uuid_text(element) + " references asset_id "@ + uuid_text(asset)
        + " which is not declared in assets[]"@
}

/// The error for an asset whose bytes the package lacks.
pub open spec fn missing_bytes_message(a: Asset) -> Seq<char> {
    "asset "@ + uuid_text(a.id) + " ("@ + asset_file_name(a)
        + ") is declared but its bytes are not present in the package -- the .deckpkg is missing assets/"@
        + asset_file_name(a)
}

/// The pictures of a slide's elements, resolved to asset bytes; media are
/// numbered on from `counter` across the deck, relationships from 1
/// within the slide. The first picture that cannot be resolved fails.
pub open spec fn resolved_pictures(
    p: Presentation,
    bytes: Map<u128, Vec<u8>>,
    elements: Seq<Element>,
    counter: nat,
) -> Result<Seq<ResolvedView>, Seq<char>>
    decreases elements.len(),
{
    if elements.len() == 0 {
        Ok(seq![])
    } else {
        match resolved_pictures(p, bytes, elements.drop_last(), counter) {
            Err(m) => Err(m),
            Ok(prev) => match picture_source(elements.last()) {
                None => Ok(prev),
                Some((eid, aid, b)) => match asset_lookup(p.assets@, aid) {
                    None => Err(undeclared_asset_message(eid, aid)),
                    Some(a) => if !bytes.contains_key(a.id) {
                        Err(missing_bytes_message(a))
                    } else {
                        Ok(
                            prev.push(
                                ResolvedView {
                                    rel_id: "rId"@ + decimal(prev.len() + 1),
                                    media_name: "image"@ + decimal(counter + prev.len() + 1)
                                        + "."@ + media_extension(a.media_type@),
                                    extension: media_extension(a.media_type@),
                                    bytes: bytes[a.id]@,
                                    bounds: b,
                                },
                            ),
                        )
                    },
                },
            },
        }
    }
}

/// The number of pictures planned.
pub open spec fn image_total(plans: Seq<(Seq<TextSourceView>, Seq<ResolvedView>)>) -> nat
    decreases plans.len(),
{
    if plans.len() == 0 {
        0
    } else {
        image_total(plans.drop_last()) + plans.last().1.len()
    }
}

/// The content of each slide, in order; the first picture that cannot be
/// resolved fails the whole plan.
pub open spec fn planned_slides(
    p: Presentation,
    bytes: Map<u128, Vec<u8>>,
    slides: Seq<Slide>,
) -> Result<Seq<(Seq<TextSourceView>, Seq<ResolvedView>)>, Seq<char>>
    decreases slides.len(),
{
    if slides.len() == 0 {
        Ok(seq![])
    } else {
        match planned_slides(p, bytes, slides.drop_last()) {
            Err(m) => Err(m),
            Ok(prev) => match resolved_pictures(p, bytes, slides.last().elements@, image_total(prev)) {
                Err(m) => Err(m),
                Ok(ims) => Ok(prev.push((text_sources(slides.last().elements@), ims))),
            },
        }
    }
}

/// Every extension a picture can have, in byte order.
pub open spec fn known_extensions() -> Seq<Seq<char>> {
    seq!["bmp"@, "gif"@, "jpeg"@, "pdf"@, "png"@, "svg"@, "webp"@]
}

/// Whether some planned picture has extension `ext`.
pub open spec fn extension_used(plans: Seq<(Seq<TextSourceView>, Seq<ResolvedView>)>, ext: Seq<
    char,
>) -> bool {
    exists|i: int, k: int|
        0 <= i < plans.len() && 0 <= k < plans[i].1.len() && #[trigger] plans[i].1[k].extension
            == ext
}

/// The extensions of `known` that some planned picture has, in order.
pub open spec fn used_extensions(
    known: Seq<Seq<char>>,
    plans: Seq<(Seq<TextSourceView>, Seq<ResolvedView>)>,
) -> Seq<Seq<char>>
    decreases known.len(),
{
    if known.len() == 0 {
        seq![]
    } else {
        used_extensions(known.drop_last(), plans) + if extension_used(plans, known.last()) {
            seq![known.last()]
        } else {
            seq![]
        }
    }
}

/// The number of elements of a deck.
pub open spec fn element_count(slides: Seq<Slide>) -> nat
    decreases slides.len(),
{
    if slides.len() == 0 {
        0
    } else {
        element_count(slides.drop_last()) + slides.last().elements@.len()
    }
}

/// The plan view: each slide's text boxes and pictures.
pub open spec fn plans_view(v: Seq<SlidePlan>) -> Seq<(Seq<TextSourceView>, Seq<ResolvedView>)> {
    v.map_values(|s: SlidePlan| (text_sources_view(s.texts@), resolved_images_view(s.images@)))
}

fn slide_text_sources(elements: &Vec<Element>) -> (v: Vec<TextSource>)
    requires
        elements@.len() <= usize::MAX - 100,
    ensures
        text_sources_view(v@) == text_sources(elements@),
{
    let mut v: Vec<TextSource> = Vec::new();
    let mut i: usize = 0;
    assert(text_sources_view(v@) =~= text_sources(elements@.take(0)));
    while i < elements.len()
        invariant
            i <= elements@.len() <= usize::MAX - 100,
            text_sources_view(v@) == text_sources(elements@.take(i as int)),
        decreases elements.len() - i,
    {
        assert(elements@.take(i + 1).drop_last() =~= elements@.take(i as int));
        assert(elements@.take(i + 1).last() == elements@[i as int]);
        let id = (i + 100) as u64;
        let ghost before = text_sources_view(v@);
        match &elements[i] {
            Element::Text(t) => {
                v.push(
                    TextSource {
                        id,
                        bounds: t.bounds.copy(),
                        font_size: t.font_size.copy(),
                        color: t.color.value.clone(),
                        text: t.text.clone(),
                    },
                );
                assert(text_sources_view(v@) =~= before.push(text_source_view(v@.last())));
            },
            Element::Math(m) => {
                if m.render_asset_id.is_none() {
                    v.push(
                        TextSource {
                            id,
                            bounds: m.bounds.copy(),
                            font_size: m.font_size.copy(),
                            color: m.color.value.clone(),
                            text: m.tex.clone(),
                        },
                    );
                    assert(text_sources_view(v@) =~= before.push(text_source_view(v@.last())));
                }
            },
            _ => {},
        }
        i += 1;
    }
    assert(elements@.take(elements@.len() as int) =~= elements@);
    v
}

fn undeclared_asset_error(element: u128, asset: u128) -> (e: PptxError)
    ensures
        e matches PptxError::InvalidImageSource(m) && m@ == undeclared_asset_message(element, asset),
{
    let mut m = String::from_str("image element ");
    m.append(id_text(element).as_str());
    m.append(" references asset_id ");
    m.append(id_text(asset).as_str());
    m.append(" which is not declared in assets[]");
    PptxError::InvalidImageSource(m)
}

fn missing_bytes_error(a: &Asset) -> (e: PptxError)
    ensures
        e matches PptxError::InvalidImageSource(m) && m@ == missing_bytes_message(*a),
{
    let name = a.file_name();
    let mut m = String::from_str("asset ");
    m.append(id_text(a.id).as_str());
    m.append(" (");
    m.append(name.as_str());
    m.append(") is declared but its bytes are not present in the package -- the .deckpkg is missing assets/");
    m.append(name.as_str());
    PptxError::InvalidImageSource(m)
}

/// The error reported for a message.
pub open spec fn reports_message<T>(r: Result<T, PptxError>, m: Seq<char>) -> bool {
    r matches Err(PptxError::InvalidImageSource(s)) && s@ == m
}

proof fn lemma_pictures_fail(
    p: Presentation,
    bytes: Map<u128, Vec<u8>>,
    elements: Seq<Element>,
    counter: nat,
    k: int,
)
    requires
        0 <= k < elements.len(),
        resolved_pictures(p, bytes, elements.take(k + 1), counter) is Err,
    ensures
        resolved_pictures(p, bytes, elements, counter) == resolved_pictures(
            p,
            bytes,
            elements.take(k + 1),
            counter,
        ),
    decreases elements.len() - k,
{
    if k + 1 < elements.len() {
        assert(elements.take(elements.len() - 1).take(k + 1) =~= elements.take(k + 1));
        lemma_pictures_fail(p, bytes, elements.take(elements.len() - 1), counter, k);
        assert(elements.drop_last() =~= elements.take(elements.len() - 1));
    } else {
        assert(elements.take(k + 1) =~= elements);
    }
}

fn resolve_pictures(
    p: &Presentation,
    bytes: &BTreeMap<u128, Vec<u8>>,
    elements: &Vec<Element>,
    counter: usize,
) -> (res: Result<Vec<ResolvedImage>, PptxError>)
    requires
        counter + elements@.len() <= usize::MAX,
    ensures
        match resolved_pictures(*p, bytes@, elements@, counter as nat) {
            Ok(v) => res matches Ok(r) && resolved_images_view(r@) == v,
            Err(m) => reports_message(res, m),
        },
{
    let mut out: Vec<ResolvedImage> = Vec::new();
    let mut i: usize = 0;
    assert(resolved_images_view(out@) =~= seq![]);
    assert(elements@.take(0) =~= seq![]);
    while i < elements.len()
        invariant
            i <= elements@.len(),
            counter + elements@.len() <= usize::MAX,
            out@.len() <= i,
            resolved_pictures(*p, bytes@, elements@.take(i as int), counter as nat) == Ok::<
                Seq<ResolvedView>,
                Seq<char>,
            >(resolved_images_view(out@)),
        decreases elements.len() - i,
    {
        assert(elements@.take(i + 1).drop_last() =~= elements@.take(i as int));
        assert(elements@.take(i + 1).last() == elements@[i as int]);
        let source: Option<(u128, u128, &Rect)> = match &elements[i] {
            Element::Image(im) => Some((im.id, im.asset_id, &im.bounds)),
            _ => None,
        };
        if let Some((eid, aid, b)) = source {
            let asset = match p.find_asset(aid) {
                Some(a) => a,
                None => {
                    proof {
                        lemma_pictures_fail(*p, bytes@, elements@, counter as nat, i as int);
                    }
                    return Err(undeclared_asset_error(eid, aid));
                },
            };
            let data = match crate::package::bytes_of(bytes, asset.id) {
                Some(d) => d,
                None => {
                    proof {
                        lemma_pictures_fail(*p, bytes@, elements@, counter as nat, i as int);
                    }
                    return Err(missing_bytes_error(asset));
                },
            };
            let n = out.len();
            let extension = extension_for_media_type(asset.media_type.as_str());
            let mut rel_id = String::from_str("rId");
            append_decimal(&mut rel_id, (n + 1) as u64);
            let mut media_name = String::from_str("image");
            append_decimal(&mut media_name, (counter + n + 1) as u64);
            media_name.append(".");
            media_name.append(extension);
            let copied = data.clone();
            assert(copied@ =~= data@);
            let ghost before = resolved_images_view(out@);
            out.push(
                ResolvedImage {
                    rel_id,
                    media_name,
                    extension: String::from_str(extension),
                    bytes: copied,
                    bounds: b.copy(),
                },
            );
            assert(resolved_images_view(out@) =~= before.push(resolved_view(out@.last())));
        }
        i += 1;
    }
    assert(elements@.take(elements@.len() as int) =~= elements@);
    Ok(out)
}

proof fn lemma_plans_fail(p: Presentation, bytes: Map<u128, Vec<u8>>, slides: Seq<Slide>, k: int)
    requires
        0 <= k < slides.len(),
        planned_slides(p, bytes, slides.take(k + 1)) is Err,
    ensures
        planned_slides(p, bytes, slides) == planned_slides(p, bytes, slides.take(k + 1)),
    decreases slides.len() - k,
{
    if k + 1 < slides.len() {
        assert(slides.take(slides.len() - 1).take(k + 1) =~= slides.take(k + 1));
        lemma_plans_fail(p, bytes, slides.take(slides.len() - 1), k);
        assert(slides.drop_last() =~= slides.take(slides.len() - 1));
    } else {
        assert(slides.take(k + 1) =~= slides);
    }
}

proof fn lemma_image_total_bound(plans: Seq<(Seq<TextSourceView>, Seq<ResolvedView>)>, slides: Seq<Slide>)
    requires
        plans.len() == slides.len(),
        forall|i: int| 0 <= i < plans.len() ==> plans[i].1.len() <= slides[i].elements@.len(),
    ensures
        image_total(plans) <= element_count(slides),
    decreases plans.len(),
{
    if plans.len() > 0 {
        lemma_image_total_bound(plans.drop_last(), slides.drop_last());
    }
}

proof fn lemma_element_count_take(slides: Seq<Slide>, i: int)
    requires
        0 <= i < slides.len(),
    ensures
        element_count(slides.take(i + 1)) == element_count(slides.take(i)) + slides[i].elements@.len(),
        element_count(slides.take(i + 1)) <= element_count(slides),
    decreases slides.len() - i,
{
    assert(slides.take(i + 1).drop_last() =~= slides.take(i));
    if i + 1 < slides.len() {
        lemma_element_count_take(slides, i + 1);
    } else {
        assert(slides.take(i + 1) =~= slides);
    }
}

proof fn lemma_resolved_len(
    p: Presentation,
    bytes: Map<u128, Vec<u8>>,
    elements: Seq<Element>,
    counter: nat,
)
    requires
        resolved_pictures(p, bytes, elements, counter) is Ok,
    ensures
        resolved_pictures(p, bytes, elements, counter)->Ok_0.len() <= elements.len(),
    decreases elements.len(),
{
    if elements.len() > 0 {
        lemma_resolved_len(p, bytes, elements.drop_last(), counter);
    }
}

/// Whether some picture of the plans has an extension.
fn uses_extension(slides: &Vec<SlidePlan>, ext: &str) -> (r: bool)
    ensures
        r == extension_used(plans_view(slides@), ext@),
{
    let ghost pv = plans_view(slides@);
    let mut i: usize = 0;
    while i < slides.len()
        invariant
            i <= slides@.len(),
            pv == plans_view(slides@),
            forall|a: int, k: int|
                0 <= a < i && 0 <= k < pv[a].1.len() ==> #[trigger] pv[a].1[k].extension != ext@,
        decreases slides.len() - i,
    {
        let images = &slides[i].images;
        let mut k: usize = 0;
        while k < images.len()
            invariant
                i < slides@.len(),
                k <= images@.len(),
                images@ == slides@[i as int].images@,
                pv == plans_view(slides@),
                forall|a: int, q: int|
                    0 <= a < i && 0 <= q < pv[a].1.len() ==> #[trigger] pv[a].1[q].extension != ext@,
                forall|q: int| 0 <= q < k ==> #[trigger] pv[i as int].1[q].extension != ext@,
            decreases images.len() - k,
        {
            assert(pv[i as int].1[k as int] == resolved_view(images@[k as int]));
            if str_eq(images[k].extension.as_str(), ext) {
                assert(pv[i as int].1[k as int].extension == ext@);
                return true;
            }
            k += 1;
        }
        i += 1;
    }
    false
}

impl PptxExporter {
    /// Plans an export: a deck without slides is refused; every image's
    /// own asset must resolve to a declared asset whose bytes the package
    /// holds, the first that does not failing the export. A formula with a
    /// rendering places nothing. Image extensions come out in the order of
    /// a sorted set.
    pub fn plan(package: &DeckPackage) -> (res: Result<ExportPlan, PptxError>)
        requires
            element_count(package.presentation.slides@) <= usize::MAX - 100,
        ensures
            package.presentation.slides@.len() == 0 ==> reports_message(
                res,
                "presentation must contain at least one slide"@,
            ),
            package.presentation.slides@.len() > 0 ==> match planned_slides(
                package.presentation,
                package.asset_bytes@,
                package.presentation.slides@,
            ) {
                Ok(plans) => res matches Ok(plan) && plans_view(plan.slides@) == plans
                    && plan.slide_width == package.presentation.slides@[0].size.width
                    && plan.slide_height == package.presentation.slides@[0].size.height
                    && strings_view(plan.image_extensions@) == used_extensions(
                    known_extensions(),
                    plans,
                ),
                Err(m) => reports_message(res, m),
            },
    {
        let p = &package.presentation;
        if p.slides.len() == 0 {
            return Err(
                PptxError::InvalidImageSource(
                    String::from_str("presentation must contain at least one slide"),
                ),
            );
        }
        let ghost all = p.slides@;
        let mut slides: Vec<SlidePlan> = Vec::new();
        let mut counter: usize = 0;
        let mut i: usize = 0;
        assert(all.take(0) =~= seq![]);
        assert(plans_view(slides@) =~= seq![]);
        while i < p.slides.len()
            invariant
                i <= all.len(),
                all.len() > 0,
                all == p.slides@,
                all == package.presentation.slides@,
                *p == package.presentation,
                element_count(all) <= usize::MAX - 100,
                counter == image_total(plans_view(slides@)),
                counter <= element_count(all.take(i as int)),
                planned_slides(*p, package.asset_bytes@, all.take(i as int)) == Ok::<
                    Seq<(Seq<TextSourceView>, Seq<ResolvedView>)>,
                    Seq<char>,
                >(plans_view(slides@)),
            decreases p.slides.len() - i,
        {
            proof {
                lemma_element_count_take(all, i as int);
                assert(all.take(i + 1).drop_last() =~= all.take(i as int));
                assert(all.take(i + 1).last() == all[i as int]);
            }
            let slide = &p.slides[i];
            let images = match resolve_pictures(p, &package.asset_bytes, &slide.elements, counter) {
                Ok(v) => v,
                Err(e) => {
                    proof {
                        let prev = plans_view(slides@);
                        let r = resolved_pictures(
                            *p,
                            package.asset_bytes@,
                            all[i as int].elements@,
                            image_total(prev),
                        );
                        assert(r is Err);
                        assert(planned_slides(*p, package.asset_bytes@, all.take(i + 1)) == Err::<
                            Seq<(Seq<TextSourceView>, Seq<ResolvedView>)>,
                            Seq<char>,
                        >(r->Err_0));
                        lemma_plans_fail(*p, package.asset_bytes@, all, i as int);
                        assert(reports_message(Err::<ExportPlan, PptxError>(e), r->Err_0));
                    }
                    return Err(e);
                },
            };
            proof {
                lemma_resolved_len(*p, package.asset_bytes@, slide.elements@, counter as nat);
            }
            let texts = slide_text_sources(&slide.elements);
            counter = counter + images.len();
            let ghost before = plans_view(slides@);
            slides.push(SlidePlan { texts, images });
            assert(plans_view(slides@) =~= before.push(
                (text_sources_view(slides@.last().texts@), resolved_images_view(slides@.last().images@)),
            ));
            assert(plans_view(slides@).drop_last() =~= before);
            i += 1;
        }
        assert(all.take(all.len() as int) =~= all);
        let known = ["bmp", "gif", "jpeg", "pdf", "png", "svg", "webp"];
        let ghost kv = known_extensions();
        let mut image_extensions: Vec<String> = Vec::new();
        let mut k: usize = 0;
        proof {
            reveal_strlit("bmp");
            reveal_strlit("gif");
            reveal_strlit("jpeg");
            reveal_strlit("pdf");
            reveal_strlit("png");
            reveal_strlit("svg");
            reveal_strlit("webp");
        }
        assert(strings_view(image_extensions@) =~= used_extensions(kv.take(0), plans_view(slides@)));
        while k < 7
            invariant
                k <= 7,
                kv == known_extensions(),
                forall|q: int| 0 <= q < 7 ==> #[trigger] known@[q]@ == kv[q],
                strings_view(image_extensions@) == used_extensions(kv.take(k as int), plans_view(slides@)),
            decreases 7 - k,
        {
            assert(kv.take(k + 1).drop_last() =~= kv.take(k as int));
            assert(kv.take(k + 1).last() == kv[k as int]);
            let ghost before = strings_view(image_extensions@);
            if uses_extension(&slides, known[k]) {
                image_extensions.push(String::from_str(known[k]));
                assert(strings_view(image_extensions@) =~= before + seq![kv[k as int]]);
            } else {
                assert(before =~= before + seq![]);
            }
            k += 1;
        }
        assert(kv.take(7) =~= kv);
        Ok(
            ExportPlan {
                slide_width: p.slides[0].size.width.copy(),
                slide_height: p.slides[0].size.height.copy(),
                slides,
                image_extensions,
            },
        )
    }
}

// ---------------------------------------------------------------------
// Assembling the parts
// ---------------------------------------------------------------------

/// What std's `String::from_utf8_lossy` makes of some bytes: their
/// characters, with U+FFFD for each invalid sequence.
pub uninterp spec fn utf8_lossy(b: Seq<u8>) -> Seq<char>;

/// The text of some bytes, invalid sequences replaced.
///
/// Trusted: calls `String::from_utf8_lossy`; std documents that it gives
/// the decoded text of valid UTF-8 unchanged. Otherwise the result is
/// only named: it depends on the bytes alone.
#[verifier::external_body]
fn lossy_text(bytes: &Vec<u8>) -> (s: String)
    ensures
        s@ == utf8_lossy(bytes@),
        valid_utf8(bytes@) ==> s@ == decode_utf8(bytes@),
{
    String::from_utf8_lossy(bytes).to_string()
}

/// The UTF-8 bytes of a text.
pub(crate) fn text_bytes(s: &str) -> (b: Vec<u8>)
    ensures
        b@ == encode_utf8(s@),
{
    vstd::slice::slice_to_vec(s.as_bytes())
}

/// The names and bytes of parts.
pub open spec fn parts_view(parts: Seq<PackagePart>) -> Seq<(Seq<char>, Seq<u8>)> {
    parts.map_values(|p: PackagePart| (p.name@, p.bytes@))
}

/// A template part as exported: the presentation, its relationships and
/// the content types patched for the slides written; any other part
/// unchanged.
pub open spec fn exported_template_part(
    name: Seq<char>,
    bytes: Seq<u8>,
    slide_count: nat,
    cx: int,
    cy: int,
    exts: Seq<Seq<char>>,
) -> Seq<u8> {
    if name == "ppt/presentation.xml"@ {
        encode_utf8(
            with_slide_size(patched_presentation_xml(utf8_lossy(bytes), slide_count), cx, cy),
        )
    } else if name == "ppt/_rels/presentation.xml.rels"@ {
        encode_utf8(patched_presentation_relationships(utf8_lossy(bytes), slide_count))
    } else if name == "[Content_Types].xml"@ {
        encode_utf8(patched_content_types(utf8_lossy(bytes), slide_count, exts))
    } else {
        bytes
    }
}

/// The template's parts as exported, in order, leaving out the slide
/// parts the export generates itself.
pub open spec fn exported_template(
    parts: Seq<PackagePart>,
    slide_count: nat,
    cx: int,
    cy: int,
    exts: Seq<Seq<char>>,
) -> Seq<(Seq<char>, Seq<u8>)>
    decreases parts.len(),
{
    if parts.len() == 0 {
        seq![]
    } else {
        let prev = exported_template(parts.drop_last(), slide_count, cx, cy, exts);
        let last = parts.last();
        if is_generated_part(last.name@) {
            prev
        } else {
            prev.push(
                (
                    last.name@,
                    exported_template_part(last.name@, last.bytes@, slide_count, cx, cy, exts),
                ),
            )
        }
    }
}

/// The media parts of a slide's pictures.
pub open spec fn media_parts(images: Seq<ResolvedImage>) -> Seq<(Seq<char>, Seq<u8>)> {
    images.map_values(|im: ResolvedImage| ("ppt/media/"@ + im.media_name@, im.bytes@))
}

/// The parts generated for slide `number` (from 1): the slide, its media,
/// its relationships.
pub open spec fn slide_parts(
    number: nat,
    texts: Seq<TextShape>,
    pictures: Seq<PictureShape>,
    images: Seq<ResolvedImage>,
) -> Seq<(Seq<char>, Seq<u8>)> {
    seq![("ppt/slides/slide"@ + decimal(number) + ".xml"@, encode_utf8(slide_xml(texts, pictures)))]
        + media_parts(images) + seq![
        (
            "ppt/slides/_rels/slide"@ + decimal(number) + ".xml.rels"@,
            encode_utf8(slide_relationships_xml(images)),
        ),
    ]
}

/// The parts generated for all slides, slide after slide.
pub open spec fn generated_parts(
    plans: Seq<SlidePlan>,
    texts: Seq<Vec<TextShape>>,
    pictures: Seq<Vec<PictureShape>>,
) -> Seq<(Seq<char>, Seq<u8>)>
    decreases plans.len(),
{
    if plans.len() == 0 || texts.len() == 0 || pictures.len() == 0 {
        seq![]
    } else {
        generated_parts(plans.drop_last(), texts.drop_last(), pictures.drop_last()) + slide_parts(
            plans.len(),
            texts.last()@,
            pictures.last()@,
            plans.last().images@,
        )
    }
}

fn part_name(prefix: &str, number: u64, suffix: &str) -> (s: String)
    ensures
        s@ == prefix@ + decimal(number as nat) + suffix@,
{
    let mut s = String::from_str(prefix);
    append_decimal(&mut s, number);
    s.append(suffix);
    s
}

pub(crate) fn copy_bytes(b: &Vec<u8>) -> (c: Vec<u8>)
    ensures
        c@ == b@,
{
    let c = b.clone();
    assert(c@ =~= b@);
    c
}

/// Whether the shapes of a slide are those of its plan: one text box per
/// planned text, with its shape id, colour and text, and one picture per
/// planned image, with its relationship id, in order. Only their lengths in
/// EMU and font sizes come from elsewhere.
pub open spec fn shapes_follow(plan: SlidePlan, texts: Seq<TextShape>, pictures: Seq<PictureShape>) -> bool {
    &&& texts.len() == plan.texts@.len()
    &&& forall|j: int|
        0 <= j < texts.len() ==> {
            &&& #[trigger] texts[j].id == plan.texts@[j].id
            &&& texts[j].color@ == plan.texts@[j].color@
            &&& texts[j].text@ == plan.texts@[j].text@
        }
    &&& pictures.len() == plan.images@.len()
    &&& forall|j: int| 0 <= j < pictures.len() ==> #[trigger] pictures[j].rel_id@ == plan.images@[j].rel_id@
}

impl PptxExporter {
    /// The text boxes of a planned slide, each with its shape id, colour
    /// and text from the plan and its offset, extent and font size (in EMU
    /// and hundredths of a point) from `geometry`, in order.
    pub fn text_shapes(plan: &SlidePlan, geometry: &Vec<(i64, i64, i64, i64, i64)>) -> (shapes: Vec<
        TextShape,
    >)
        requires
            geometry@.len() == plan.texts@.len(),
        ensures
            shapes@.len() == plan.texts@.len(),
            forall|j: int|
                0 <= j < shapes@.len() ==> {
                    &&& #[trigger] shapes@[j].id == plan.texts@[j].id
                    &&& shapes@[j].color@ == plan.texts@[j].color@
                    &&& shapes@[j].text@ == plan.texts@[j].text@
                    &&& (shapes@[j].x, shapes@[j].y, shapes@[j].cx, shapes@[j].cy, shapes@[j].font_size)
                        == geometry@[j]
                },
    {
        let mut shapes: Vec<TextShape> = Vec::new();
        let mut j: usize = 0;
        while j < plan.texts.len()
            invariant
                j <= plan.texts@.len(),
                geometry@.len() == plan.texts@.len(),
                shapes@.len() == j,
                forall|i: int|
                    0 <= i < j ==> {
                        &&& #[trigger] shapes@[i].id == plan.texts@[i].id
                        &&& shapes@[i].color@ == plan.texts@[i].color@
                        &&& shapes@[i].text@ == plan.texts@[i].text@
                        &&& (shapes@[i].x, shapes@[i].y, shapes@[i].cx, shapes@[i].cy, shapes@[i].font_size)
                            == geometry@[i]
                    },
            decreases plan.texts.len() - j,
        {
            let t = &plan.texts[j];
            let (x, y, cx, cy, font_size) = geometry[j];
            shapes.push(
                TextShape {
                    id: t.id,
                    x,
                    y,
                    cx,
                    cy,
                    font_size,
                    color: t.color.clone(),
                    text: t.text.clone(),
                },
            );
            j += 1;
        }
        shapes
    }

    /// The pictures of a planned slide, each with its relationship id from
    /// the plan and its offset and extent (in EMU) from `geometry`, in
    /// order.
    pub fn picture_shapes(plan: &SlidePlan, geometry: &Vec<(i64, i64, i64, i64)>) -> (shapes: Vec<
        PictureShape,
    >)
        requires
            geometry@.len() == plan.images@.len(),
        ensures
            shapes@.len() == plan.images@.len(),
            forall|j: int|
                0 <= j < shapes@.len() ==> {
                    &&& #[trigger] shapes@[j].rel_id@ == plan.images@[j].rel_id@
                    &&& (shapes@[j].x, shapes@[j].y, shapes@[j].cx, shapes@[j].cy) == geometry@[j]
                },
    {
        let mut shapes: Vec<PictureShape> = Vec::new();
        let mut j: usize = 0;
        while j < plan.images.len()
            invariant
                j <= plan.images@.len(),
                geometry@.len() == plan.images@.len(),
                shapes@.len() == j,
                forall|i: int|
                    0 <= i < j ==> {
                        &&& #[trigger] shapes@[i].rel_id@ == plan.images@[i].rel_id@
                        &&& (shapes@[i].x, shapes@[i].y, shapes@[i].cx, shapes@[i].cy) == geometry@[i]
                    },
            decreases plan.images.len() - j,
        {
            let (x, y, cx, cy) = geometry[j];
            shapes.push(PictureShape { x, y, cx, cy, rel_id: plan.images[j].rel_id.clone() });
            j += 1;
        }
        shapes
    }

    /// The parts of the exported `.pptx`: the template's parts (its own
    /// slide parts left out; the presentation, its relationships and the
    /// content types patched for the planned slides, slide size `cx` x
    /// `cy` EMU, and image extensions), then for each slide its part, its
    /// media and its relationships. Each slide's text boxes and pictures
    /// come converted to EMU in `texts` and `pictures`: everything else
    /// they carry is the plan's.
    pub fn assemble(
        template: &Package,
        plan: &ExportPlan,
        cx: i64,
        cy: i64,
        texts: &Vec<Vec<TextShape>>,
        pictures: &Vec<Vec<PictureShape>>,
    ) -> (res: Vec<PackagePart>)
        requires
            texts@.len() == plan.slides@.len(),
            pictures@.len() == plan.slides@.len(),
            plan.slides@.len() <= usize::MAX - 256,
            forall|k: int| 0 <= k < pictures@.len() ==> #[trigger] pictures@[k]@.len() <= usize::MAX - 500,
            forall|k: int|
                0 <= k < plan.slides@.len() ==> shapes_follow(#[trigger] plan.slides@[k], texts@[k]@, pictures@[k]@),
        ensures
            parts_view(res@) == exported_template(
                template.parts@,
                plan.slides@.len(),
                cx as int,
                cy as int,
                strings_view(plan.image_extensions@),
            ) + generated_parts(plan.slides@, texts@, pictures@),
    {
        let n = plan.slides.len();
        let ghost exts = strings_view(plan.image_extensions@);
        let mut out: Vec<PackagePart> = Vec::new();
        let mut i: usize = 0;
        assert(template.parts@.take(0) =~= seq![]);
        assert(parts_view(out@) =~= seq![]);
        while i < template.parts.len()
            invariant
                i <= template.parts@.len(),
                n == plan.slides@.len(),
                n <= usize::MAX - 256,
                exts == strings_view(plan.image_extensions@),
                parts_view(out@) == exported_template(
                    template.parts@.take(i as int),
                    n as nat,
                    cx as int,
                    cy as int,
                    exts,
                ),
            decreases template.parts.len() - i,
        {
            assert(template.parts@.take(i + 1).drop_last() =~= template.parts@.take(i as int));
            assert(template.parts@.take(i + 1).last() == template.parts@[i as int]);
            let part = &template.parts[i];
            let name = part.name.as_str();
            if !is_generated_slide_part(name) {
                let bytes = if str_eq(name, "ppt/presentation.xml") {
                    let xml = lossy_text(&part.bytes);
                    let patched = patch_presentation_xml(xml.as_str(), n);
                    let patched = patch_slide_size(patched.as_str(), cx, cy);
                    text_bytes(patched.as_str())
                } else if str_eq(name, "ppt/_rels/presentation.xml.rels") {
                    let xml = lossy_text(&part.bytes);
                    text_bytes(patch_presentation_relationships(xml.as_str(), n).as_str())
                } else if str_eq(name, "[Content_Types].xml") {
                    let xml = lossy_text(&part.bytes);
                    text_bytes(patch_content_types(xml.as_str(), n, &plan.image_extensions).as_str())
                } else {
                    copy_bytes(&part.bytes)
                };
                let ghost before = parts_view(out@);
                out.push(PackagePart { name: part.name.clone(), bytes });
                assert(parts_view(out@) =~= before.push((out@.last().name@, out@.last().bytes@)));
            }
            i += 1;
        }
        assert(template.parts@.take(template.parts@.len() as int) =~= template.parts@);
        let ghost head = parts_view(out@);
        let mut k: usize = 0;
        assert(plan.slides@.take(0) =~= seq![]);
        assert(generated_parts(plan.slides@.take(0), texts@.take(0), pictures@.take(0)) =~= seq![]);
        assert(parts_view(out@) =~= head + seq![]);
        while k < n
            invariant
                k <= n,
                n == plan.slides@.len(),
                n <= usize::MAX - 256,
                texts@.len() == n,
                pictures@.len() == n,
                forall|q: int| 0 <= q < pictures@.len() ==> #[trigger] pictures@[q]@.len() <= usize::MAX - 500,
                parts_view(out@) == head + generated_parts(
                    plan.slides@.take(k as int),
                    texts@.take(k as int),
                    pictures@.take(k as int),
                ),
            decreases n - k,
        {
            let number = (k + 1) as u64;
            let images = &plan.slides[k].images;
            let ghost before = parts_view(out@);
            let xml = generate_slide_xml(&texts[k], &pictures[k]);
            out.push(
                PackagePart {
                    name: part_name("ppt/slides/slide", number, ".xml"),
                    bytes: text_bytes(xml.as_str()),
                },
            );
            let ghost with_slide = parts_view(out@);
            assert(with_slide =~= before.push((out@.last().name@, out@.last().bytes@)));
            let mut j: usize = 0;
            assert(media_parts(images@.take(0)) =~= seq![]);
            while j < images.len()
                invariant
                    j <= images@.len(),
                    parts_view(out@) == with_slide + media_parts(images@.take(j as int)),
                decreases images.len() - j,
            {
                let mut name = String::from_str("ppt/media/");
                name.append(images[j].media_name.as_str());
                let ghost b = parts_view(out@);
                out.push(PackagePart { name, bytes: copy_bytes(&images[j].bytes) });
                assert(parts_view(out@) =~= b.push((out@.last().name@, out@.last().bytes@)));
                assert(images@.take(j + 1).drop_last() =~= images@.take(j as int));
                assert(media_parts(images@.take(j + 1)) =~= media_parts(images@.take(j as int)).push(
                    ("ppt/media/"@ + images@[j as int].media_name@, images@[j as int].bytes@),
                ));
                j += 1;
            }
            assert(images@.take(images@.len() as int) =~= images@);
            let rels = generate_slide_relationships(images);
            let ghost b2 = parts_view(out@);
            out.push(
                PackagePart {
                    name: part_name("ppt/slides/_rels/slide", number, ".xml.rels"),
                    bytes: text_bytes(rels.as_str()),
                },
            );
            proof {
                assert(parts_view(out@) =~= b2.push((out@.last().name@, out@.last().bytes@)));
                let sp = slide_parts((k + 1) as nat, texts@[k as int]@, pictures@[k as int]@, images@);
                assert(parts_view(out@) =~= before + sp);
                assert(plan.slides@.take(k + 1).drop_last() =~= plan.slides@.take(k as int));
                assert(texts@.take(k + 1).drop_last() =~= texts@.take(k as int));
                assert(pictures@.take(k + 1).drop_last() =~= pictures@.take(k as int));
                assert(generated_parts(plan.slides@.take(k + 1), texts@.take(k + 1), pictures@.take(k + 1))
                    == generated_parts(plan.slides@.take(k as int), texts@.take(k as int), pictures@.take(k as int)) + sp);
                assert(parts_view(out@) =~= head + generated_parts(
                    plan.slides@.take(k + 1),
                    texts@.take(k + 1),
                    pictures@.take(k + 1),
                ));
            }
            k += 1;
        }
        assert(plan.slides@.take(n as int) =~= plan.slides@);
        assert(texts@.take(n as int) =~= texts@);
        assert(pictures@.take(n as int) =~= pictures@);
        out
    }
}

} // verus!
