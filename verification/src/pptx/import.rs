//! PPTX import: the slides of an opened `.pptx`, as a deck package.
//!
//! Reading walks the presentation part for its slide list, follows each
//! slide relationship to its part, and gathers the part's text boxes and
//! pictures (with the bytes of each picture's media part). Building then
//! turns what was read into a presentation. Lengths in a `.pptx` are EMU;
//! the caller supplies the conversions to points.
use vstd::prelude::*;

use std::collections::BTreeMap;

use crate::error::PptxError;
use crate::measure::Measure;
use crate::model::{
    is_default_theme, is_widescreen, Asset, Color, Element, ImageElement, Presentation, Rect,
    Slide, TextElement,
};
use crate::package::DeckPackage;
use crate::pptx::package::{part_bytes, part_text, Package};
use crate::pptx::paths::{
    file_name, last_segment, media_type_for_path, media_type_of_path, resolve_relationship_target,
    resolved_target, slide_rels_path,
};
use crate::pptx::relationships::{
    budget_for, event_budget, parsed_relationships, relationships_view, Relationship,
    Relationships,
};
use crate::pptx::slide_parser::{
    attr_last, copy_image, image_view, images_view, last_attribute, opt_view, parsed_images,
    parsed_texts, texts_view, ParsedImage, ParsedImageView, ParsedText, ParsedTextView,
    SlideParser,
};
use crate::pptx::xml::{
    attrs_view, event_view, events_view, is_tag, listed_event, next_event, read_failure,
    reader_position, reader_source, scan_error, source_event, tag_is, xml_reader, EventSource,
    ScanStep, XmlEvent, XmlEventView,
};
use crate::text::{chars_of, has_prefix, starts_with, str_eq, string_of_range, skip_leading, strip_leading};

verus! {

// ---------------------------------------------------------------------
// Reading parts
// ---------------------------------------------------------------------

/// Why reading a part failed: the package does not hold it, or it is not
/// what it should be (UTF-8 text, well-formed XML).
pub enum ReadFailure {
    Missing,
    Malformed,
}

/// The text of a part, or why it cannot be had.
pub open spec fn text_of_part(parts: Seq<crate::pptx::package::PackagePart>, name: Seq<char>) -> Result<
    Seq<char>,
    ReadFailure,
> {
    match part_bytes(parts, name) {
        None => Err(ReadFailure::Missing),
        Some(_) => match part_text(parts, name) {
            None => Err(ReadFailure::Malformed),
            Some(t) => Ok(t),
        },
    }
}

/// The bytes of a part, or why they cannot be had.
pub open spec fn bytes_of_part(parts: Seq<crate::pptx::package::PackagePart>, name: Seq<char>) -> Result<
    Seq<u8>,
    ReadFailure,
> {
    match part_bytes(parts, name) {
        None => Err(ReadFailure::Missing),
        Some(b) => Ok(b),
    }
}

/// The error a failure is reported as: a missing part as the zip crate's
/// error, anything malformed as an XML error.
pub open spec fn reports<T>(r: Result<T, PptxError>, f: ReadFailure) -> bool {
    match f {
        ReadFailure::Missing => r matches Err(PptxError::Zip(_)),
        ReadFailure::Malformed => r matches Err(PptxError::Xml(_)),
    }
}

// ---------------------------------------------------------------------
// The slide list
// ---------------------------------------------------------------------

/// A slide of the presentation's slide list: the relationship id that
/// names its part.
#[derive(Debug, Clone)]
pub struct SlideRef {
    pub relationship_id: String,
}

/// Reading the presentation part.
pub struct PresentationParser;

/// What one event does to the slide-list scan: each `sldId` adds its
/// prefixed `id` attribute (`r:id`); the end of the part gives the ids
/// found.
pub open spec fn slide_id_step(found: Seq<Seq<char>>, ev: Option<XmlEventView>) -> ScanStep<
    Seq<Seq<char>>,
    Seq<Seq<char>>,
> {
    match ev {
        None => ScanStep::Fail,
        Some(XmlEventView::Eof) => ScanStep::Done(found),
        Some(XmlEventView::Open { name, attributes }) => if tag_is(name, "sldId"@) {
            match attr_last(attributes, ":id"@, true) {
                None => ScanStep::Fail,
                Some(Some(r)) => ScanStep::Next(found.push(r)),
                Some(None) => ScanStep::Next(found),
            }
        } else {
            ScanStep::Next(found)
        },
        Some(_) => ScanStep::Next(found),
    }
}

/// The slide relationship ids of a source from its `pos`-th event on,
/// within `fuel` events; on a failed read, an unreadable attribute or a
/// budget run out, the message of that failure.
pub open spec fn slide_ids_by(src: EventSource, pos: nat, found: Seq<Seq<char>>, fuel: nat) -> Result<
    Seq<Seq<char>>,
    Seq<char>,
>
    decreases fuel,
{
    if fuel == 0 {
        Err("xml part has too many events"@)
    } else {
        match slide_id_step(found, source_event(src, pos)) {
            ScanStep::Fail => Err(scan_error(src, pos)),
            ScanStep::Done(f) => Ok(f),
            ScanStep::Next(f) => slide_ids_by(src, pos + 1, f, (fuel - 1) as nat),
        }
    }
}

/// The slide relationship ids of a presentation part, in slide order;
/// when the part is not well-formed XML, the message of the failure.
pub open spec fn slide_ids_read(xml: Seq<char>) -> Result<Seq<Seq<char>>, Seq<char>> {
    slide_ids_by(EventSource::Part(xml), 0, seq![], event_budget(xml.len()))
}

/// The same, without the message of a failure.
pub open spec fn parsed_slide_ids(xml: Seq<char>) -> Option<Seq<Seq<char>>> {
    match slide_ids_read(xml) {
        Ok(ids) => Some(ids),
        Err(_) => None,
    }
}

/// The slide relationship ids of a presentation part given as its events;
/// `None` when an attribute cannot be read or the events end before `Eof`.
pub open spec fn slide_ids_of_events(events: Seq<XmlEventView>) -> Option<Seq<Seq<char>>> {
    match slide_ids_by(EventSource::Listed(events), 0, seq![], events.len()) {
        Ok(ids) => Some(ids),
        Err(_) => None,
    }
}

pub open spec fn slide_refs_view(refs: Seq<SlideRef>) -> Seq<Seq<char>> {
    refs.map_values(|r: SlideRef| r.relationship_id@)
}

/// What a step of the slide-list scan gave.
enum SlideListStep {
    Next,
    Done,
    Fail,
}

/// One step of the slide-list scan.
fn slide_id_step_exec(refs: &mut Vec<SlideRef>, ev: Option<&XmlEvent>) -> (r: SlideListStep)
    ensures
        match slide_id_step(
            slide_refs_view(old(refs)@),
            match ev {
                Some(e) => Some(event_view(*e)),
                None => None,
            },
        ) {
            ScanStep::Next(f) => r is Next && slide_refs_view(final(refs)@) == f,
            ScanStep::Done(f) => r is Done && slide_refs_view(final(refs)@) == f,
            ScanStep::Fail => r is Fail,
        },
{
    match ev {
        None => SlideListStep::Fail,
        Some(XmlEvent::Eof) => SlideListStep::Done,
        Some(XmlEvent::Open { name, attributes }) => {
            if is_tag(name.as_str(), "sldId") {
                match last_attribute(attributes, ":id", true) {
                    None => SlideListStep::Fail,
                    Some(Some(r)) => {
                        let ghost before = slide_refs_view(refs@);
                        refs.push(SlideRef { relationship_id: r });
                        assert(slide_refs_view(refs@) =~= before.push(refs@.last().relationship_id@));
                        SlideListStep::Next
                    },
                    Some(None) => SlideListStep::Next,
                }
            } else {
                SlideListStep::Next
            }
        },
        Some(_) => SlideListStep::Next,
    }
}

impl PresentationParser {
    /// The slide list of a presentation part, in order.
    pub fn slide_relationships(xml: &str) -> (res: Result<Vec<SlideRef>, PptxError>)
        ensures
            match slide_ids_read(xml@) {
                Ok(ids) => res matches Ok(v) && slide_refs_view(v@) == ids,
                Err(m) => res matches Err(PptxError::Xml(e)) && e@ == m,
            },
    {
        let mut reader = xml_reader(xml);
        let mut refs: Vec<SlideRef> = Vec::new();
        let mut fuel = budget_for(xml);
        assert(slide_refs_view(refs@) =~= seq![]);
        loop
            invariant
                reader_source(reader) == xml@,
                slide_ids_read(xml@) == slide_ids_by(
                    EventSource::Part(xml@),
                    reader_position(reader),
                    slide_refs_view(refs@),
                    fuel as nat,
                ),
            decreases fuel,
        {
            if fuel == 0 {
                return Err(PptxError::Xml(String::from_str("xml part has too many events")));
            }
            let read = next_event(&mut reader);
            fuel -= 1;
            let step = match &read {
                Ok(e) => slide_id_step_exec(&mut refs, Some(e)),
                Err(_) => slide_id_step_exec(&mut refs, None),
            };
            match step {
                SlideListStep::Next => {},
                SlideListStep::Done => {
                    return Ok(refs);
                },
                SlideListStep::Fail => {
                    return Err(PptxError::Xml(read_failure(read)));
                },
            }
        }
    }

    /// The slide list of a presentation part given as its events (as
    /// quick-xml reads them), found as `slide_relationships` finds it;
    /// `None` when an attribute cannot be read or the events end before
    /// `Eof`.
    pub fn slide_relationships_from_events(events: &Vec<XmlEvent>) -> (res: Option<Vec<SlideRef>>)
        ensures
            match slide_ids_of_events(events_view(events@)) {
                Some(ids) => res matches Some(v) && slide_refs_view(v@) == ids,
                None => res is None,
            },
    {
        let ghost src = EventSource::Listed(events_view(events@));
        let mut refs: Vec<SlideRef> = Vec::new();
        assert(slide_refs_view(refs@) =~= seq![]);
        let mut i: usize = 0;
        while i < events.len()
            invariant
                i <= events@.len(),
                src == EventSource::Listed(events_view(events@)),
                slide_ids_by(src, 0, seq![], events@.len()) == slide_ids_by(
                    src,
                    i as nat,
                    slide_refs_view(refs@),
                    (events@.len() - i) as nat,
                ),
            decreases events.len() - i,
        {
            match slide_id_step_exec(&mut refs, listed_event(events, i)) {
                SlideListStep::Next => {},
                SlideListStep::Done => {
                    return Some(refs);
                },
                SlideListStep::Fail => {
                    return None;
                },
            }
            i += 1;
        }
        None
    }
}

/// The part a slide relationship target names: targets are taken from
/// `ppt/`, with or without that prefix and a leading `/`.
pub open spec fn slide_part(target: Seq<char>) -> Seq<char> {
    let n = strip_leading(target, '/');
    if has_prefix(n, "ppt/"@) {
        n
    } else {
        "ppt/"@ + n
    }
}

/// The name of the part a slide relationship target names.
pub fn slide_part_path(target: &str) -> (res: String)
    ensures
        res@ == slide_part(target@),
{
    let t = chars_of(target);
    let from = skip_leading(&t, 0, t.len(), '/');
    assert(t@.subrange(0, t@.len() as int) =~= t@);
    let n = string_of_range(&t, from, t.len());
    if starts_with(&chars_of(n.as_str()), &chars_of("ppt/")) {
        n
    } else {
        let mut out = String::from_str("ppt/");
        out.append(n.as_str());
        out
    }
}

/// The target of the first relationship with id `id`.
pub open spec fn first_target(rels: Seq<(Seq<char>, Seq<char>)>, id: Seq<char>) -> Option<
    Seq<char>,
>
    decreases rels.len(),
{
    if rels.len() == 0 {
        None
    } else if rels[0].0 == id {
        Some(rels[0].1)
    } else {
        first_target(rels.drop_first(), id)
    }
}

fn find_target(rels: &Vec<Relationship>, id: &str) -> (res: Option<String>)
    ensures
        opt_view(res) == first_target(relationships_view(rels@), id@),
{
    let ghost view = relationships_view(rels@);
    let mut i: usize = 0;
    assert(view.skip(0) =~= view);
    while i < rels.len()
        invariant
            i <= rels@.len(),
            view == relationships_view(rels@),
            first_target(view, id@) == first_target(view.skip(i as int), id@),
        decreases rels.len() - i,
    {
        assert(view.skip(i as int).drop_first() =~= view.skip(i + 1));
        assert(view.skip(i as int)[0] == view[i as int]);
        if str_eq(rels[i].id.as_str(), id) {
            return Some(rels[i].target.clone());
        }
        i += 1;
    }
    None
}

// ---------------------------------------------------------------------
// Reading slides
// ---------------------------------------------------------------------

/// PPTX import.
pub struct PptxImporter;

/// A picture as read: where its media part is and the bytes it holds.
#[derive(Debug, Clone)]
pub struct ImportedImage {
    pub image: ParsedImage,
    pub media_path: String,
    pub bytes: Vec<u8>,
}

/// A slide as read: its text boxes, then its pictures.
#[derive(Debug, Clone)]
pub struct ImportedSlide {
    pub texts: Vec<ParsedText>,
    pub images: Vec<ImportedImage>,
}

pub struct ImportedImageView {
    pub image: ParsedImageView,
    pub media_path: Seq<char>,
    pub bytes: Seq<u8>,
}

pub struct ImportedSlideView {
    pub texts: Seq<ParsedTextView>,
    pub images: Seq<ImportedImageView>,
}

pub open spec fn imported_image_view(i: ImportedImage) -> ImportedImageView {
    ImportedImageView { image: image_view(i.image), media_path: i.media_path@, bytes: i.bytes@ }
}

pub open spec fn imported_images_view(v: Seq<ImportedImage>) -> Seq<ImportedImageView> {
    v.map_values(|i: ImportedImage| imported_image_view(i))
}

pub open spec fn imported_slide_view(s: ImportedSlide) -> ImportedSlideView {
    ImportedSlideView { texts: texts_view(s.texts@), images: imported_images_view(s.images@) }
}

pub open spec fn imported_slides_view(v: Seq<ImportedSlide>) -> Seq<ImportedSlideView> {
    v.map_values(|s: ImportedSlide| imported_slide_view(s))
}

/// The pictures of a slide whose relationship is found, each with its
/// media part; the first media part that cannot be read fails the slide.
pub open spec fn slide_images(
    parts: Seq<crate::pptx::package::PackagePart>,
    slide_target: Seq<char>,
    rels: Seq<(Seq<char>, Seq<char>)>,
    images: Seq<ParsedImageView>,
) -> Result<Seq<ImportedImageView>, ReadFailure>
    decreases images.len(),
{
    if images.len() == 0 {
        Ok(seq![])
    } else {
        match slide_images(parts, slide_target, rels, images.drop_last()) {
            Err(e) => Err(e),
            Ok(prev) => match first_target(rels, images.last().relationship_id) {
                None => Ok(prev),
                Some(t) => {
                    let path = resolved_target(slide_target, t);
                    match bytes_of_part(parts, path) {
                        Err(e) => Err(e),
                        Ok(b) => Ok(
                            prev.push(
                                ImportedImageView { image: images.last(), media_path: path, bytes: b },
                            ),
                        ),
                    }
                },
            },
        }
    }
}

/// A slide read from its part and its relationships part.
pub open spec fn imported_slide(
    parts: Seq<crate::pptx::package::PackagePart>,
    target: Seq<char>,
) -> Result<ImportedSlideView, ReadFailure> {
    match text_of_part(parts, slide_part(target)) {
        Err(e) => Err(e),
        Ok(xml) => match parsed_texts(xml) {
            None => Err(ReadFailure::Malformed),
            Some(texts) => match parsed_images(xml) {
                None => Err(ReadFailure::Malformed),
                Some(images) => match text_of_part(parts, slide_rels_path(target)) {
                    Err(e) => Err(e),
                    Ok(rx) => match parsed_relationships(rx, event_budget(rx.len())) {
                        None => Err(ReadFailure::Malformed),
                        Some(rels) => match slide_images(parts, target, rels, images) {
                            Err(e) => Err(e),
                            Ok(ims) => Ok(ImportedSlideView { texts, images: ims }),
                        },
                    },
                },
            },
        },
    }
}

/// The slides of the slide list whose relationship is found, in order.
pub open spec fn imported_slides(
    parts: Seq<crate::pptx::package::PackagePart>,
    refs: Seq<Seq<char>>,
    rels: Seq<(Seq<char>, Seq<char>)>,
) -> Result<Seq<ImportedSlideView>, ReadFailure>
    decreases refs.len(),
{
    if refs.len() == 0 {
        Ok(seq![])
    } else {
        match imported_slides(parts, refs.drop_last(), rels) {
            Err(e) => Err(e),
            Ok(prev) => match first_target(rels, refs.last()) {
                None => Ok(prev),
                Some(t) => match imported_slide(parts, t) {
                    Err(e) => Err(e),
                    Ok(s) => Ok(prev.push(s)),
                },
            },
        }
    }
}

/// Everything an import reads from a package, or why it cannot.
pub open spec fn import_reading(parts: Seq<crate::pptx::package::PackagePart>) -> Result<
    Seq<ImportedSlideView>,
    ReadFailure,
> {
    match text_of_part(parts, "ppt/presentation.xml"@) {
        Err(e) => Err(e),
        Ok(px) => match parsed_slide_ids(px) {
            None => Err(ReadFailure::Malformed),
            Some(refs) => match text_of_part(parts, "ppt/_rels/presentation.xml.rels"@) {
                Err(e) => Err(e),
                Ok(rx) => match parsed_relationships(rx, event_budget(rx.len())) {
                    None => Err(ReadFailure::Malformed),
                    Some(rels) => imported_slides(parts, refs, rels),
                },
            },
        },
    }
}

fn read_slide_images(
    package: &Package,
    slide_target: &str,
    rels: &Vec<Relationship>,
    images: Vec<ParsedImage>,
) -> (res: Result<Vec<ImportedImage>, PptxError>)
    ensures
        match slide_images(
            package.parts@,
            slide_target@,
            relationships_view(rels@),
            images_view(images@),
        ) {
            Ok(v) => res matches Ok(out) && imported_images_view(out@) == v,
            Err(f) => reports(res, f),
        },
{
    let ghost all = images_view(images@);
    let ghost rv = relationships_view(rels@);
    let mut out: Vec<ImportedImage> = Vec::new();
    let mut k: usize = 0;
    assert(all.take(0) =~= seq![]);
    assert(imported_images_view(out@) =~= seq![]);
    while k < images.len()
        invariant
            k <= images@.len(),
            all == images_view(images@),
            rv == relationships_view(rels@),
            slide_images(package.parts@, slide_target@, rv, all.take(k as int)) == Ok::<
                Seq<ImportedImageView>,
                ReadFailure,
            >(imported_images_view(out@)),
        decreases images.len() - k,
    {
        assert(all.take(k + 1).drop_last() =~= all.take(k as int));
        assert(all.take(k + 1).last() == image_view(images@[k as int]));
        let image = &images[k];
        match find_target(rels, image.relationship_id.as_str()) {
            None => {},
            Some(t) => {
                let path = resolve_relationship_target(slide_target, t.as_str());
                let bytes = match package.read_bytes(path.as_str()) {
                    Ok(b) => b,
                    Err(e) => {
                        proof {
                            lemma_slide_images_fail(
                                package.parts@,
                                slide_target@,
                                rv,
                                all,
                                k as int,
                            );
                        }
                        return Err(e);
                    },
                };
                let im = ImportedImage { image: copy_image(image), media_path: path, bytes };
                let ghost before = imported_images_view(out@);
                out.push(im);
                assert(imported_images_view(out@) =~= before.push(imported_image_view(im)));
            },
        }
        k += 1;
    }
    assert(all.take(all.len() as int) =~= all);
    Ok(out)
}

/// A failure at one picture fails the whole list.
proof fn lemma_slide_images_fail(
    parts: Seq<crate::pptx::package::PackagePart>,
    slide_target: Seq<char>,
    rels: Seq<(Seq<char>, Seq<char>)>,
    images: Seq<ParsedImageView>,
    k: int,
)
    requires
        0 <= k < images.len(),
        slide_images(parts, slide_target, rels, images.take(k + 1)) is Err,
    ensures
        slide_images(parts, slide_target, rels, images) == slide_images(
            parts,
            slide_target,
            rels,
            images.take(k + 1),
        ),
    decreases images.len() - k,
{
    if k + 1 < images.len() {
        assert(images.take(images.len() - 1).take(k + 1) =~= images.take(k + 1));
        lemma_slide_images_fail(parts, slide_target, rels, images.take(images.len() - 1), k);
        assert(images.drop_last() =~= images.take(images.len() - 1));
    } else {
        assert(images.take(k + 1) =~= images);
    }
}



fn read_slide(package: &Package, target: &str) -> (res: Result<ImportedSlide, PptxError>)
    ensures
        match imported_slide(package.parts@, target@) {
            Ok(v) => res matches Ok(s) && imported_slide_view(s) == v,
            Err(f) => reports(res, f),
        },
{
    let part = slide_part_path(target);
    let xml = package.read_string(part.as_str())?;
    let texts = SlideParser::extract_text_elements(xml.as_str())?;
    let images = SlideParser::extract_images(xml.as_str())?;
    let rels_path = crate::pptx::paths::slide_relationships_path(target);
    let rx = package.read_string(rels_path.as_str())?;
    let rels = Relationships::parse(rx.as_str())?;
    let ims = read_slide_images(package, target, &rels, images)?;
    Ok(ImportedSlide { texts, images: ims })
}

/// A failure at one slide fails the whole list.
proof fn lemma_slides_fail(
    parts: Seq<crate::pptx::package::PackagePart>,
    refs: Seq<Seq<char>>,
    rels: Seq<(Seq<char>, Seq<char>)>,
    k: int,
)
    requires
        0 <= k < refs.len(),
        imported_slides(parts, refs.take(k + 1), rels) is Err,
    ensures
        imported_slides(parts, refs, rels) == imported_slides(parts, refs.take(k + 1), rels),
    decreases refs.len() - k,
{
    if k + 1 < refs.len() {
        assert(refs.take(refs.len() - 1).take(k + 1) =~= refs.take(k + 1));
        lemma_slides_fail(parts, refs.take(refs.len() - 1), rels, k);
        assert(refs.drop_last() =~= refs.take(refs.len() - 1));
    } else {
        assert(refs.take(k + 1) =~= refs);
    }
}

// ---------------------------------------------------------------------
// Building the deck
// ---------------------------------------------------------------------

/// The alt text of an imported picture: its description or name, else
/// the file name of its media part.
pub open spec fn imported_alt(im: ImportedImageView) -> Option<Seq<char>> {
    match im.image.alt {
        Some(a) => Some(a),
        None => if last_segment(im.media_path).len() > 0 {
            Some(last_segment(im.media_path))
        } else {
            None
        },
    }
}

/// The pictures of all slides, slide after slide.
pub open spec fn all_images(slides: Seq<ImportedSlideView>) -> Seq<ImportedImageView>
    decreases slides.len(),
{
    if slides.len() == 0 {
        seq![]
    } else {
        all_images(slides.drop_last()) + slides.last().images
    }
}

/// A rectangle whose corners and sides are the conversions of the given
/// EMU lengths.
pub open spec fn rect_from<F: Fn(i64) -> Measure>(
    r: Rect,
    x: i64,
    y: i64,
    w: i64,
    h: i64,
    to_points: F,
) -> bool {
    &&& to_points.ensures((x,), r.x)
    &&& to_points.ensures((y,), r.y)
    &&& to_points.ensures((w,), r.width)
    &&& to_points.ensures((h,), r.height)
}

/// The text element an imported text box becomes.
#[verifier::opaque]
pub open spec fn text_built<F: Fn(i64) -> Measure, G: Fn(String) -> Measure>(
    e: Element,
    t: ParsedTextView,
    to_points: F,
    font_points: G,
) -> bool {
    &&& e matches Element::Text(te)
    &&& te.text@ == t.text
    &&& te.color.value@ == t.color
    &&& rect_from(te.bounds, t.x, t.y, t.width, t.height, to_points)
    &&& exists|sz: String| sz@ == t.font_size && #[trigger] font_points.ensures((sz,), te.font_size)
}

/// The image element and the asset an imported picture becomes.
pub open spec fn image_built<F: Fn(i64) -> Measure>(
    e: Element,
    im: ImportedImageView,
    asset: Asset,
    to_points: F,
) -> bool {
    &&& e matches Element::Image(ie)
    &&& ie.asset_id == asset.id
    &&& ie.render_asset_id is None
    &&& opt_view(ie.alt) == imported_alt(im)
    &&& rect_from(ie.bounds, im.image.x, im.image.y, im.image.width, im.image.height, to_points)
    &&& asset.media_type@ == media_type_of_path(im.media_path)
    &&& opt_view(asset.alt) == imported_alt(im)
}

/// The slide an imported slide becomes, with the assets of its pictures:
/// its text elements first, then its image elements.
pub open spec fn slide_built<F: Fn(i64) -> Measure, G: Fn(String) -> Measure>(
    s: Slide,
    v: ImportedSlideView,
    assets: Seq<Asset>,
    to_points: F,
    font_points: G,
) -> bool {
    &&& s.name matches Some(n) && n@ == "Imported Slide"@
    &&& is_widescreen(s.size)
    &&& s.elements@.len() == v.texts.len() + v.images.len()
    &&& assets.len() == v.images.len()
    &&& forall|j: int|
        0 <= j < v.texts.len() ==> text_built(#[trigger] s.elements@[j], v.texts[j], to_points, font_points)
    &&& forall|k: int|
        0 <= k < v.images.len() ==> image_built(
            #[trigger] s.elements@[v.texts.len() + k],
            v.images[k],
            assets[k],
            to_points,
        )
}

/// The bytes of the assets: every asset id has bytes, every id with bytes
/// is an asset's, and an asset whose id no later asset takes has the
/// bytes of its picture.
#[verifier::opaque]
pub open spec fn bytes_built(bytes: Map<u128, Vec<u8>>, assets: Seq<Asset>, images: Seq<
    ImportedImageView,
>) -> bool {
    &&& assets.len() == images.len()
    &&& forall|m: int| 0 <= m < assets.len() ==> bytes.contains_key(#[trigger] assets[m].id)
    &&& forall|id: u128|
        bytes.contains_key(id) ==> exists|m: int| 0 <= m < assets.len() && #[trigger] assets[m].id == id
    &&& forall|m: int|
        0 <= m < assets.len() && (forall|n: int| m < n < assets.len() ==> assets[n].id != assets[m].id)
            ==> bytes[#[trigger] assets[m].id]@ == images[m].bytes
}

/// The deck an import builds from what it read.
pub open spec fn built_from<F: Fn(i64) -> Measure, G: Fn(String) -> Measure>(
    pkg: DeckPackage,
    slides: Seq<ImportedSlideView>,
    to_points: F,
    font_points: G,
) -> bool {
    let p = pkg.presentation;
    &&& p.metadata.title@ == "Imported Presentation"@
    &&& p.metadata.author is None
    &&& is_default_theme(p.theme)
    &&& p.slides@.len() == slides.len()
    &&& p.assets@.len() == all_images(slides).len()
    &&& forall|i: int|
        0 <= i < slides.len() ==> slide_built(
            #[trigger] p.slides@[i],
            slides[i],
            p.assets@.subrange(
                all_images(slides.take(i)).len() as int,
                all_images(slides.take(i + 1)).len() as int,
            ),
            to_points,
            font_points,
        )
    &&& bytes_built(pkg.asset_bytes@, p.assets@, all_images(slides))
}

proof fn lemma_bytes_push(
    bytes: Map<u128, Vec<u8>>,
    assets: Seq<Asset>,
    images: Seq<ImportedImageView>,
    a: Asset,
    b: Vec<u8>,
    im: ImportedImageView,
)
    requires
        bytes_built(bytes, assets, images),
        b@ == im.bytes,
    ensures
        bytes_built(bytes.insert(a.id, b), assets.push(a), images.push(im)),
{
    reveal(bytes_built);
    let nb = bytes.insert(a.id, b);
    let na = assets.push(a);
    let ni = images.push(im);
    assert forall|m: int| 0 <= m < na.len() implies nb.contains_key(#[trigger] na[m].id) by {
        if m < assets.len() {
            assert(na[m] == assets[m]);
        }
    }
    assert forall|id: u128| nb.contains_key(id) implies exists|m: int|
        0 <= m < na.len() && #[trigger] na[m].id == id by {
        if id == a.id {
            assert(na[assets.len() as int].id == id);
        } else {
            assert(bytes.contains_key(id));
            let m = choose|m: int| 0 <= m < assets.len() && #[trigger] assets[m].id == id;
            assert(na[m] == assets[m]);
        }
    }
    assert forall|m: int|
        0 <= m < na.len() && (forall|n: int| m < n < na.len() ==> na[n].id != na[m].id) implies nb[#[trigger] na[m].id]@
        == ni[m].bytes by {
        if m < assets.len() {
            assert(na[m] == assets[m]);
            assert(na[assets.len() as int] == a);
            assert(a.id != assets[m].id);
            assert forall|n: int| m < n < assets.len() implies assets[n].id != assets[m].id by {
                assert(na[n] == assets[n]);
            }
            assert(ni[m] == images[m]);
        }
    }
}

fn copy_opt(o: &Option<String>) -> (r: Option<String>)
    ensures
        opt_view(r) == opt_view(*o),
{
    crate::pptx::slide_parser::clone_opt(o)
}

/// Adds one imported picture: its asset, its bytes and its image element.
fn add_imported_image<F: Fn(i64) -> Measure>(
    presentation: &mut Presentation,
    asset_bytes: &mut BTreeMap<u128, Vec<u8>>,
    slide: &mut Slide,
    im: &ImportedImage,
    to_points: &F,
)
    requires
        forall|e: i64| to_points.requires((e,)),
    ensures
        final(presentation).metadata == old(presentation).metadata,
        final(presentation).theme == old(presentation).theme,
        final(presentation).id == old(presentation).id,
        final(presentation).slides@ == old(presentation).slides@,
        final(presentation).assets@.drop_last() == old(presentation).assets@,
        final(presentation).assets@.len() == old(presentation).assets@.len() + 1,
        exists|b: Vec<u8>|
            b@ == im.bytes@ && #[trigger] old(asset_bytes)@.insert(
                final(presentation).assets@.last().id,
                b,
            ) == final(asset_bytes)@,
        final(slide).name == old(slide).name,
        final(slide).size == old(slide).size,
        final(slide).elements@.drop_last() == old(slide).elements@,
        final(slide).elements@.len() == old(slide).elements@.len() + 1,
        image_built(
            final(slide).elements@.last(),
            imported_image_view(*im),
            final(presentation).assets@.last(),
            *to_points,
        ),
{
    let media_type = media_type_for_path(im.media_path.as_str());
    let alt = match &im.image.alt {
        Some(a) => Some(a.clone()),
        None => file_name(im.media_path.as_str()),
    };
    let asset = Asset {
        id: crate::ids::fresh_id(),
        media_type: String::from_str(media_type),
        alt: copy_opt(&alt),
    };
    let asset_id = asset.id;
    let b = im.bytes.clone();
    assert(b@ =~= im.bytes@);
    crate::package::insert_bytes(asset_bytes, asset_id, b);
    presentation.assets.push(asset);
    let e = Element::Image(
        ImageElement {
            id: crate::ids::fresh_id(),
            bounds: Rect {
                x: to_points(im.image.x),
                y: to_points(im.image.y),
                width: to_points(im.image.width),
                height: to_points(im.image.height),
            },
            asset_id,
            render_asset_id: None,
            alt,
        },
    );
    slide.elements.push(e);
    assert(slide.elements@.drop_last() =~= old(slide).elements@);
    assert(presentation.assets@.drop_last() =~= old(presentation).assets@);
}

/// Adds one imported slide to a deck under construction.
#[verifier::rlimit(40)]
fn add_imported_slide<F: Fn(i64) -> Measure, G: Fn(String) -> Measure>(
    presentation: &mut Presentation,
    asset_bytes: &mut BTreeMap<u128, Vec<u8>>,
    slide: ImportedSlide,
    to_points: &F,
    font_points: &G,
    Ghost(done): Ghost<Seq<ImportedImageView>>,
)
    requires
        forall|v: i64| to_points.requires((v,)),
        forall|s: String| font_points.requires((s,)),
        bytes_built(old(asset_bytes)@, old(presentation).assets@, done),
    ensures
        final(presentation).metadata == old(presentation).metadata,
        final(presentation).theme == old(presentation).theme,
        final(presentation).id == old(presentation).id,
        final(presentation).slides@.drop_last() == old(presentation).slides@,
        final(presentation).slides@.len() == old(presentation).slides@.len() + 1,
        final(presentation).assets@.subrange(0, old(presentation).assets@.len() as int)
            == old(presentation).assets@,
        final(presentation).assets@.len() == old(presentation).assets@.len()
            + slide.images@.len(),
        slide_built(
            final(presentation).slides@.last(),
            imported_slide_view(slide),
            final(presentation).assets@.subrange(
                old(presentation).assets@.len() as int,
                final(presentation).assets@.len() as int,
            ),
            *to_points,
            *font_points,
        ),
        bytes_built(
            final(asset_bytes)@,
            final(presentation).assets@,
            done + imported_images_view(slide.images@),
        ),
{
    let ghost v = imported_slide_view(slide);
    let mut s = Slide::new(Some(String::from_str("Imported Slide")));
    let ImportedSlide { texts, images } = slide;
    let mut j: usize = 0;
    while j < texts.len()
        invariant
            j <= texts@.len(),
            v.texts == texts_view(texts@),
            s.name matches Some(n) && n@ == "Imported Slide"@,
            is_widescreen(s.size),
            s.elements@.len() == j,
            forall|e: i64| to_points.requires((e,)),
            forall|z: String| font_points.requires((z,)),
            *presentation == *old(presentation),
            asset_bytes@ == old(asset_bytes)@,
            forall|q: int|
                0 <= q < j ==> text_built(
                    #[trigger] s.elements@[q],
                    v.texts[q],
                    *to_points,
                    *font_points,
                ),
        decreases texts.len() - j,
    {
        let t = &texts[j];
        let sz = t.font_size.clone();
        let ghost szg = sz;
        let font_size = font_points(sz);
        let ghost fs = font_size;
        let e = Element::Text(
            TextElement {
                id: crate::ids::fresh_id(),
                bounds: Rect {
                    x: to_points(t.x),
                    y: to_points(t.y),
                    width: to_points(t.width),
                    height: to_points(t.height),
                },
                text: t.text.clone(),
                font_size,
                color: Color::hex(t.color.as_str()),
            },
        );
        assert(v.texts[j as int] == crate::pptx::slide_parser::text_view(texts@[j as int]));
        assert(szg@ == v.texts[j as int].font_size && font_points.ensures((szg,), fs));
        assert(exists|sz: String| sz@ == v.texts[j as int].font_size && #[trigger] (*font_points).ensures((sz,), fs));
        assert(e matches Element::Text(te) && te.font_size == fs);
        assert(text_built(e, v.texts[j as int], *to_points, *font_points)) by {
            reveal(text_built);
        }
        s.elements.push(e);
        j += 1;
    }
    let ghost base = presentation.assets@.len();
    let ghost old_assets = presentation.assets@;
    let mut k: usize = 0;
    while k < images.len()
        invariant
            k <= images@.len(),
            v.images == imported_images_view(images@),
            v.texts.len() == texts@.len(),
            s.name matches Some(n) && n@ == "Imported Slide"@,
            is_widescreen(s.size),
            s.elements@.len() == texts@.len() + k,
            forall|e: i64| to_points.requires((e,)),
            forall|q: int|
                0 <= q < v.texts.len() ==> text_built(
                    #[trigger] s.elements@[q],
                    v.texts[q],
                    *to_points,
                    *font_points,
                ),
            presentation.metadata == old(presentation).metadata,
            presentation.theme == old(presentation).theme,
            presentation.id == old(presentation).id,
            presentation.slides@ == old(presentation).slides@,
            base == old(presentation).assets@.len(),
            old_assets == old(presentation).assets@,
            presentation.assets@.len() == base + k,
            presentation.assets@.subrange(0, base as int) == old_assets,
            forall|q: int|
                0 <= q < k ==> image_built(
                    #[trigger] s.elements@[v.texts.len() + q],
                    v.images[q],
                    presentation.assets@[base + q],
                    *to_points,
                ),
            bytes_built(asset_bytes@, presentation.assets@, done + v.images.take(k as int)),
        decreases images.len() - k,
    {
        let ghost before_assets = presentation.assets@;
        let ghost before_bytes = asset_bytes@;
        let ghost before_elems = s.elements@;
        add_imported_image(presentation, asset_bytes, &mut s, &images[k], to_points);
        proof {
            let asset = presentation.assets@.last();
            let b = choose|b: Vec<u8>|
                b@ == images@[k as int].bytes@ && #[trigger] before_bytes.insert(asset.id, b)
                    == asset_bytes@;
            assert(presentation.assets@ == before_assets.push(asset));
            let all = done + v.images.take(k + 1);
            assert(all =~= (done + v.images.take(k as int)).push(v.images[k as int]));
            assert(v.images[k as int] == imported_image_view(images@[k as int]));
            assert(presentation.assets@.subrange(0, base as int) =~= old_assets);
            assert(s.elements@ == before_elems.push(s.elements@.last()));
            lemma_bytes_push(
                before_bytes,
                before_assets,
                done + v.images.take(k as int),
                asset,
                b,
                v.images[k as int],
            );
        }
        k += 1;
    }
    proof {
        assert(v.images.take(v.images.len() as int) =~= v.images);
        let sub = presentation.assets@.subrange(base as int, presentation.assets@.len() as int);
        assert forall|q: int| 0 <= q < v.images.len() implies image_built(
            s.elements@[v.texts.len() + q],
            v.images[q],
            sub[q],
            *to_points,
        ) by {
            assert(sub[q] == presentation.assets@[base + q]);
        }
    }
    presentation.slides.push(s);
    assert(presentation.slides@.drop_last() =~= old(presentation).slides@);
}


proof fn lemma_subrange_of_prefix(a: Seq<Asset>, b: Seq<Asset>, lo: int, hi: int)
    requires
        b.len() <= a.len(),
        a.subrange(0, b.len() as int) == b,
        0 <= lo <= hi <= b.len(),
    ensures
        a.subrange(lo, hi) == b.subrange(lo, hi),
{
    assert forall|k: int| 0 <= k < hi - lo implies a.subrange(lo, hi)[k] == b.subrange(lo, hi)[k] by {
        assert(a.subrange(0, b.len() as int)[lo + k] == a[lo + k]);
    }
    assert(a.subrange(lo, hi) =~= b.subrange(lo, hi));
}

proof fn lemma_all_images_take(all: Seq<ImportedSlideView>, i: int)
    requires
        0 <= i < all.len(),
    ensures
        all_images(all.take(i + 1)) == all_images(all.take(i)) + all[i].images,
{
    assert(all.take(i + 1).drop_last() =~= all.take(i));
}

proof fn lemma_all_images_take_mono(all: Seq<ImportedSlideView>, a: int, b: int)
    requires
        0 <= a <= b <= all.len(),
    ensures
        all_images(all.take(a)).len() <= all_images(all.take(b)).len(),
    decreases b - a,
{
    if a < b {
        lemma_all_images_take_mono(all, a, b - 1);
        lemma_all_images_take(all, b - 1);
    }
}

impl PptxImporter {
    /// Reads the slides of an opened `.pptx`: the slide list of
    /// `ppt/presentation.xml`, each slide found through the presentation
    /// relationships, and for each slide its text boxes and the pictures
    /// whose image relationship is found, with their media bytes.
    pub fn read_slides(package: &mut Package) -> (res: Result<Vec<ImportedSlide>, PptxError>)
        ensures
            *final(package) == *old(package),
            match import_reading(old(package).parts@) {
                Ok(v) => res matches Ok(s) && imported_slides_view(s@) == v,
                Err(f) => reports(res, f),
            },
    {
        let px = package.read_string("ppt/presentation.xml")?;
        let refs = PresentationParser::slide_relationships(px.as_str())?;
        let prels = Relationships::load_presentation_relationships(package)?;
        let ghost parts = package.parts@;
        let ghost rv = slide_refs_view(refs@);
        let ghost pv = relationships_view(prels@);
        assert(import_reading(parts) == imported_slides(parts, rv, pv));
        let mut slides: Vec<ImportedSlide> = Vec::new();
        let mut i: usize = 0;
        assert(rv.take(0) =~= seq![]);
        assert(imported_slides_view(slides@) =~= seq![]);
        while i < refs.len()
            invariant
                i <= refs@.len(),
                *package == *old(package),
                parts == package.parts@,
                import_reading(parts) == imported_slides(parts, rv, pv),
                rv == slide_refs_view(refs@),
                pv == relationships_view(prels@),
                imported_slides(parts, rv.take(i as int), pv) == Ok::<
                    Seq<ImportedSlideView>,
                    ReadFailure,
                >(imported_slides_view(slides@)),
            decreases refs.len() - i,
        {
            assert(rv.take(i + 1).drop_last() =~= rv.take(i as int));
            assert(rv.take(i + 1).last() == refs@[i as int].relationship_id@);
            match find_target(&prels, refs[i].relationship_id.as_str()) {
                None => {},
                Some(t) => {
                    let s = match read_slide(package, t.as_str()) {
                        Ok(s) => s,
                        Err(e) => {
                            proof {
                                lemma_slides_fail(parts, rv, pv, i as int);
                            }
                            return Err(e);
                        },
                    };
                    let ghost before = imported_slides_view(slides@);
                    slides.push(s);
                    assert(imported_slides_view(slides@) =~= before.push(imported_slide_view(s)));
                },
            }
            i += 1;
        }
        assert(rv.take(rv.len() as int) =~= rv);
        Ok(slides)
    }

    /// Builds a deck from slides read from a `.pptx`: a presentation
    /// titled "Imported Presentation" with one slide ("Imported Slide") per
    /// slide read, holding a text element per text box and then an image
    /// element per picture; each picture also becomes an asset (typed by
    /// its media part's extension) whose bytes the package carries.
    /// Lengths go through `to_points`, run sizes through `font_points`.
    pub fn build<F: Fn(i64) -> Measure, G: Fn(String) -> Measure>(
        slides: Vec<ImportedSlide>,
        to_points: &F,
        font_points: &G,
    ) -> (pkg: DeckPackage)
        requires
            forall|e: i64| to_points.requires((e,)),
            forall|z: String| font_points.requires((z,)),
        ensures
            built_from(pkg, imported_slides_view(slides@), *to_points, *font_points),
    {
        let ghost all = imported_slides_view(slides@);
        let n = slides.len();
        let mut presentation = Presentation::new("Imported Presentation");
        let mut asset_bytes: BTreeMap<u128, Vec<u8>> = BTreeMap::new();
        let mut rest = slides;
        let mut i: usize = 0;
        assert(all.take(0) =~= seq![]);
        assert(imported_slides_view(rest@) =~= all.skip(0));
        assert(bytes_built(asset_bytes@, presentation.assets@, all_images(all.take(0)))) by {
            reveal(bytes_built);
        }
        while rest.len() > 0
            invariant
                forall|e: i64| to_points.requires((e,)),
                forall|z: String| font_points.requires((z,)),
                i <= all.len(),
                all.len() == n,
                imported_slides_view(rest@) == all.skip(i as int),
                presentation.metadata.title@ == "Imported Presentation"@,
                presentation.metadata.author is None,
                is_default_theme(presentation.theme),
                presentation.slides@.len() == i,
                presentation.assets@.len() == all_images(all.take(i as int)).len(),
                forall|q: int|
                    0 <= q < i ==> slide_built(
                        #[trigger] presentation.slides@[q],
                        all[q],
                        presentation.assets@.subrange(
                            all_images(all.take(q)).len() as int,
                            all_images(all.take(q + 1)).len() as int,
                        ),
                        *to_points,
                        *font_points,
                    ),
                bytes_built(asset_bytes@, presentation.assets@, all_images(all.take(i as int))),
            decreases rest.len(),
        {
            let ghost before = presentation;
            let ghost done = all_images(all.take(i as int));
            assert(imported_slides_view(rest@).len() == rest@.len());
            assert(i < all.len());
            assert(imported_slides_view(rest@)[0] == imported_slide_view(rest@[0]));
            let ghost old_rest = rest@;
            let slide = rest.remove(0);
            proof {
                assert(all.skip(i as int)[0] == imported_slide_view(slide));
                assert forall|j: int| 0 <= j < rest@.len() implies imported_slides_view(rest@)[j]
                    == all.skip(i + 1)[j] by {
                    assert(rest@[j] == old_rest[j + 1]);
                    assert(imported_slides_view(old_rest)[j + 1] == all.skip(i as int)[j + 1]);
                }
                assert(imported_slides_view(rest@) =~= all.skip(i + 1));
                assert(all.take(i + 1).drop_last() =~= all.take(i as int));
                assert(all[i as int] == imported_slide_view(slide));
            }
            add_imported_slide(
                &mut presentation,
                &mut asset_bytes,
                slide,
                to_points,
                font_points,
                Ghost(done),
            );
            proof {
                lemma_all_images_take(all, i as int);
                assert forall|q: int| 0 <= q < i + 1 implies slide_built(
                    #[trigger] presentation.slides@[q],
                    all[q],
                    presentation.assets@.subrange(
                        all_images(all.take(q)).len() as int,
                        all_images(all.take(q + 1)).len() as int,
                    ),
                    *to_points,
                    *font_points,
                ) by {
                    if q < i {
                        lemma_all_images_take_mono(all, q, i as int);
                        lemma_all_images_take_mono(all, q + 1, i as int);
                        assert(presentation.slides@[q] == before.slides@[q]);
                        lemma_all_images_take_mono(all, q, q + 1);
                        lemma_subrange_of_prefix(
                            presentation.assets@,
                            before.assets@,
                            all_images(all.take(q)).len() as int,
                            all_images(all.take(q + 1)).len() as int,
                        );
                    }
                }
            }
            i += 1;
        }
        proof {
            assert(all.skip(i as int).len() == 0);
            assert(all.take(i as int) =~= all);
        }
        DeckPackage { presentation, asset_bytes }
    }

    /// Imports an opened `.pptx`: reads its slides, then builds the deck.
    pub fn import<F: Fn(i64) -> Measure, G: Fn(String) -> Measure>(
        package: &mut Package,
        to_points: &F,
        font_points: &G,
    ) -> (res: Result<DeckPackage, PptxError>)
        requires
            forall|e: i64| to_points.requires((e,)),
            forall|z: String| font_points.requires((z,)),
        ensures
            *final(package) == *old(package),
            match import_reading(old(package).parts@) {
                Ok(v) => res matches Ok(pkg) && built_from(pkg, v, *to_points, *font_points),
                Err(f) => reports(res, f),
            },
    {
        let slides = Self::read_slides(package)?;
        Ok(Self::build(slides, to_points, font_points))
    }
}

} // verus!
