//! Building the parts of a `.pptx`: patching the template's presentation,
//! relationships and content-type parts, and generating slide parts.
//!
//! Positions and sizes reach this module already converted to EMU
//! (1 pt = 12700 EMU) and font sizes in hundredths of a point.
use vstd::prelude::*;

use crate::model::{extension_media_type, media_type_for_extension, Rect};
use crate::pptx::xml_text::{
    insert_before, inserted_before, remove_relationships_of_type,
    remove_slide_content_type_overrides, replace_between, replaced_between, without_tags,
};
use crate::text::{
    append_decimal, append_range, append_signed, chars_of, contains, contains_seq, decimal,
    ends_with, find, find_from, first_occurrence, has_prefix, has_suffix, push_char,
    signed_decimal, skip_leading, starts_with, strip_leading, string_of, to_upper, trim_bounds,
    trimmed, unicode_upper,
};

verus! {

/// An image placed on a slide: its relationship id within the slide, its
/// media file name and extension, its bytes and where it goes.
#[derive(Debug, Clone)]
pub struct ResolvedImage {
    pub rel_id: String,
    pub media_name: String,
    pub extension: String,
    pub bytes: Vec<u8>,
    pub bounds: Rect,
}

/// A text box of a slide, its geometry in EMU and its font size in
/// hundredths of a point.
#[derive(Debug, Clone)]
pub struct TextShape {
    pub id: u64,
    pub x: i64,
    pub y: i64,
    pub cx: i64,
    pub cy: i64,
    pub font_size: i64,
    pub color: String,
    pub text: String,
}

/// A picture of a slide, its geometry in EMU and the relationship id of
/// its image.
#[derive(Debug, Clone)]
pub struct PictureShape {
    pub x: i64,
    pub y: i64,
    pub cx: i64,
    pub cy: i64,
    pub rel_id: String,
}

/// The escape of one character of XML text content.
pub open spec fn escaped_xml_char(c: char) -> Seq<char> {
    if c == '&' {
        "&amp;"@
    } else if c == '<' {
        "&lt;"@
    } else if c == '>' {
        "&gt;"@
    } else {
        seq![c]
    }
}

/// Text with `&`, `<` and `>` escaped for XML content.
pub open spec fn xml_escaped(s: Seq<char>) -> Seq<char>
    decreases s.len(),
{
    if s.len() == 0 {
        seq![]
    } else {
        xml_escaped(s.drop_last()) + escaped_xml_char(s.last())
    }
}

/// Escapes `&`, `<` and `>` for XML text content.
pub fn xml_escape(text: &str) -> (res: String)
    ensures
        res@ == xml_escaped(text@),
{
    let chars = chars_of(text);
    let mut out = String::new();
    let mut i: usize = 0;
    while i < chars.len()
        invariant
            i <= chars@.len(),
            out@ == xml_escaped(chars@.take(i as int)),
        decreases chars.len() - i,
    {
        let c = chars[i];
        if c == '&' {
            out.append("&amp;");
        } else if c == '<' {
            out.append("&lt;");
        } else if c == '>' {
            out.append("&gt;");
        } else {
            push_char(&mut out, c);
        }
        assert(chars@.take(i + 1).drop_last() =~= chars@.take(i as int));
        i += 1;
    }
    assert(chars@.take(chars@.len() as int) =~= chars@);
    assert(chars@ == text@);
    out
}

/// A color value as a PPTX `srgbClr` value: trimmed, without leading `#`,
/// upper-cased.
pub open spec fn pptx_color(color: Seq<char>) -> Seq<char> {
    unicode_upper(strip_leading(trimmed(color), '#'))
}

/// Converts a `#RRGGBB` color to the form PPTX uses.
pub fn pptx_rgb(color: &str) -> (res: String)
    ensures
        res@ == pptx_color(color@),
{
    let chars = chars_of(color);
    let (a, b) = trim_bounds(&chars);
    let s = skip_leading(&chars, a, b, '#');
    let stripped = crate::text::string_of_range(&chars, s, b);
    to_upper(stripped.as_str())
}

/// Whether a package part is a slide or slide-relationships part that
/// the exporter generates itself.
pub open spec fn is_generated_part(path: Seq<char>) -> bool {
    (has_prefix(path, "ppt/slides/slide"@) && has_suffix(path, ".xml"@)) || (has_prefix(
        path,
        "ppt/slides/_rels/slide"@,
    ) && has_suffix(path, ".xml.rels"@))
}

/// Whether a package part is one the exporter generates itself.
pub fn is_generated_slide_part(path: &str) -> (res: bool)
    ensures
        res == is_generated_part(path@),
{
    let p = chars_of(path);
    (starts_with(&p, &chars_of("ppt/slides/slide")) && ends_with(&p, &chars_of(".xml"))) || (
    starts_with(&p, &chars_of("ppt/slides/_rels/slide")) && ends_with(&p, &chars_of(".xml.rels")))
}

/// The content type of an image extension.
pub fn image_content_type(extension: &str) -> (res: &'static str)
    ensures
        res@ == extension_media_type(extension@),
{
    media_type_for_extension(extension)
}

/// `xml` with its first `<p:sldSz .../>` element replaced by one for a
/// `cx` x `cy` EMU slide; `xml` itself when there is none.
pub open spec fn with_slide_size(xml: Seq<char>, cx: int, cy: int) -> Seq<char> {
    match first_occurrence(xml, "<p:sldSz"@) {
        None => xml,
        Some(s) => match first_occurrence(xml.skip(s), "/>"@) {
            None => xml,
            Some(r) => xml.take(s) + slide_size_element(cx, cy) + xml.skip(s + r + 2),
        },
    }
}

/// Sets the slide size declared in `presentation.xml` to `cx` x `cy` EMU.
pub fn patch_slide_size(xml: &str, cx: i64, cy: i64) -> (res: String)
    ensures
        res@ == with_slide_size(xml@, cx as int, cy as int),
{
    let x = chars_of(xml);
    let open = chars_of("<p:sldSz");
    let close = chars_of("/>");
    proof {
        reveal_strlit("/>");
    }
    let Some(start) = find(&x, &open) else {
        return string_of(&x);
    };
    proof {
        crate::text::lemma_first_occurrence_from(x@, open@, 0);
        crate::text::lemma_skip_search(x@, close@, start as int);
    }
    let Some(close_at) = find_from(&x, &close, start) else {
        return string_of(&x);
    };
    proof {
        crate::text::lemma_first_occurrence_from(x@, close@, start as int);
    }
    let n = x.len();
    assert(close_at + 2 <= n);
    let end = close_at + 2;
    let mut out = String::new();
    append_range(&mut out, &x, 0, start);
    append_slide_size_element(&mut out, cx, cy);
    append_range(&mut out, &x, end, n);
    assert(x@.subrange(0, start as int) =~= x@.take(start as int));
    assert(x@.subrange(end as int, n as int) =~= x@.skip(end as int));
    out
}

/// The `<p:sldId>` entries of the first `n` slides.
pub open spec fn slide_id_list(n: nat) -> Seq<char>
    decreases n,
{
    if n == 0 {
        seq![]
    } else {
        slide_id_list((n - 1) as nat) + slide_id_entry((n - 1) as nat)
    }
}

/// `presentation.xml` with its slide list replaced by one for
/// `slide_count` slides.
pub open spec fn patched_presentation_xml(xml: Seq<char>, slide_count: nat) -> Seq<char> {
    replaced_between(xml, "<p:sldIdLst>"@, "</p:sldIdLst>"@, slide_id_list(slide_count))
}

/// Replaces the slide list of `presentation.xml` with one for
/// `slide_count` slides, numbered from 256.
pub fn patch_presentation_xml(xml: &str, slide_count: usize) -> (res: String)
    requires
        slide_count <= usize::MAX - 256,
    ensures
        res@ == patched_presentation_xml(xml@, slide_count as nat),
{
    let mut ids = String::new();
    let mut index: usize = 0;
    while index < slide_count
        invariant
            index <= slide_count <= usize::MAX - 256,
            ids@ == slide_id_list(index as nat),
        decreases slide_count - index,
    {
        append_slide_id_entry(&mut ids, index as u64);
        index += 1;
    }
    replace_between(xml, "<p:sldIdLst>", "</p:sldIdLst>", ids.as_str())
}

/// The presentation's relationships to the first `n` slides.
pub open spec fn slide_relationship_list(n: nat) -> Seq<char>
    decreases n,
{
    if n == 0 {
        seq![]
    } else {
        slide_relationship_list((n - 1) as nat) + slide_relationship_entry((n - 1) as nat)
    }
}

/// The relationship type of a slide.
pub open spec fn slide_relationship_type() -> Seq<char> {
    "http://schemas.openxmlformats.org/officeDocument/2006/relationships/slide"@
}

/// `presentation.xml.rels` with its slide relationships replaced by ones
/// for `slide_count` slides.
pub open spec fn patched_presentation_relationships(xml: Seq<char>, slide_count: nat) -> Seq<
    char,
> {
    inserted_before(
        without_tags(
            xml,
            "<Relationship"@,
            "Type=\""@ + slide_relationship_type() + "\""@,
        ),
        "</Relationships>"@,
        slide_relationship_list(slide_count),
    )
}

/// Replaces the presentation's slide relationships with ones for
/// `slide_count` slides (`rIdSlide1`, ...).
pub fn patch_presentation_relationships(xml: &str, slide_count: usize) -> (res: String)
    requires
        slide_count <= usize::MAX - 256,
    ensures
        res@ == patched_presentation_relationships(xml@, slide_count as nat),
{
    let without_old_slides = remove_relationships_of_type(
        xml,
        "http://schemas.openxmlformats.org/officeDocument/2006/relationships/slide",
    );
    let mut rels = String::new();
    let mut index: usize = 0;
    while index < slide_count
        invariant
            index <= slide_count <= usize::MAX - 256,
            rels@ == slide_relationship_list(index as nat),
        decreases slide_count - index,
    {
        append_slide_relationship_entry(&mut rels, index as u64);
        index += 1;
    }
    insert_before(without_old_slides.as_str(), "</Relationships>", rels.as_str())
}

/// The content-type overrides of the first `n` slides.
pub open spec fn slide_override_list(n: nat) -> Seq<char>
    decreases n,
{
    if n == 0 {
        seq![]
    } else {
        slide_override_list((n - 1) as nat) + slide_override_entry((n - 1) as nat)
    }
}

/// The `<Default>` declarations for the extensions `exts` that `existing`
/// does not declare yet.
pub open spec fn missing_defaults(exts: Seq<Seq<char>>, existing: Seq<char>) -> Seq<char>
    decreases exts.len(),
{
    if exts.len() == 0 {
        seq![]
    } else {
        missing_defaults(exts.drop_last(), existing) + if contains_seq(
            existing,
            "Extension=\""@ + exts.last() + "\""@,
        ) {
            seq![]
        } else {
            default_content_type(exts.last())
        }
    }
}

/// The characters of each string.
pub open spec fn strings_view(v: Seq<String>) -> Seq<Seq<char>> {
    v.map_values(|s: String| s@)
}

/// `[Content_Types].xml` with its slide overrides replaced by ones for
/// `slide_count` slides and a `<Default>` added for each image extension
/// it does not declare yet.
pub open spec fn patched_content_types(xml: Seq<char>, slide_count: nat, exts: Seq<Seq<char>>) -> Seq<
    char,
> {
    let with_overrides = inserted_before(
        without_tags(xml, "<Override"@, "PartName=\"/ppt/slides/slide"@),
        "</Types>"@,
        slide_override_list(slide_count),
    );
    let defaults = missing_defaults(exts, with_overrides);
    if defaults.len() == 0 {
        with_overrides
    } else {
        inserted_before(with_overrides, "</Types>"@, defaults)
    }
}

/// Patches `[Content_Types].xml` for `slide_count` generated slides and
/// the image extensions the slides embed.
pub fn patch_content_types(xml: &str, slide_count: usize, image_extensions: &Vec<String>) -> (res:
    String)
    requires
        slide_count <= usize::MAX - 256,
    ensures
        res@ == patched_content_types(xml@, slide_count as nat, strings_view(image_extensions@)),
{
    let without_old = remove_slide_content_type_overrides(xml);
    let mut overrides = String::new();
    let mut index: usize = 0;
    while index < slide_count
        invariant
            index <= slide_count <= usize::MAX - 256,
            overrides@ == slide_override_list(index as nat),
        decreases slide_count - index,
    {
        append_slide_override_entry(&mut overrides, index as u64);
        index += 1;
    }
    let with_overrides = insert_before(without_old.as_str(), "</Types>", overrides.as_str());
    let existing = chars_of(with_overrides.as_str());
    let ghost exts = strings_view(image_extensions@);
    let mut defaults = String::new();
    let mut k: usize = 0;
    while k < image_extensions.len()
        invariant
            k <= image_extensions@.len(),
            exts == strings_view(image_extensions@),
            existing@ == with_overrides@,
            defaults@ == missing_defaults(exts.take(k as int), existing@),
        decreases image_extensions.len() - k,
    {
        let extension = image_extensions[k].as_str();
        let mut needle = String::from_str("Extension=\"");
        needle.append(extension);
        needle.append("\"");
        if !contains(&existing, &chars_of(needle.as_str())) {
            append_default_content_type(&mut defaults, extension);
        }
        assert(exts.take(k + 1).drop_last() =~= exts.take(k as int));
        k += 1;
    }
    assert(exts.take(exts.len() as int) =~= exts);
    if defaults.as_str().is_empty() {
        return with_overrides;
    }
    insert_before(with_overrides.as_str(), "</Types>", defaults.as_str())
}

/// The relationships of images `images` of a slide.
pub open spec fn image_relationship_list(images: Seq<ResolvedImage>) -> Seq<char>
    decreases images.len(),
{
    if images.len() == 0 {
        seq![]
    } else {
        image_relationship_list(images.drop_last()) + image_relationship(images.last())
    }
}

/// The relationships part of a slide embedding `images`.
pub open spec fn slide_relationships_xml(images: Seq<ResolvedImage>) -> Seq<char> {
    relationships_head() + layout_relationship() + image_relationship_list(images)
        + relationships_tail()
}

/// Generates the relationships part of a slide: its layout, then each of
/// its images.
pub fn generate_slide_relationships(images: &Vec<ResolvedImage>) -> (res: String)
    ensures
        res@ == slide_relationships_xml(images@),
{
    let mut out = String::new();
    append_relationships_head(&mut out);
    append_layout_relationship(&mut out);
    let mut k: usize = 0;
    while k < images.len()
        invariant
            k <= images@.len(),
            out@ == relationships_head() + layout_relationship() + image_relationship_list(
                images@.take(k as int),
            ),
        decreases images.len() - k,
    {
        append_image_relationship(&mut out, &images[k]);
        assert(images@.take(k + 1).drop_last() =~= images@.take(k as int));
        k += 1;
    }
    assert(images@.take(images@.len() as int) =~= images@);
    append_relationships_tail(&mut out);
    out
}

/// The text boxes `texts`, in order.
pub open spec fn text_shapes_xml(texts: Seq<TextShape>) -> Seq<char>
    decreases texts.len(),
{
    if texts.len() == 0 {
        seq![]
    } else {
        text_shapes_xml(texts.drop_last()) + text_shape_xml(texts.last())
    }
}

/// The pictures `pictures`, numbered from 0, in order.
pub open spec fn pictures_xml(pictures: Seq<PictureShape>) -> Seq<char>
    decreases pictures.len(),
{
    if pictures.len() == 0 {
        seq![]
    } else {
        pictures_xml(pictures.drop_last()) + picture_xml(
            (pictures.len() - 1) as nat,
            pictures.last(),
        )
    }
}

/// The slide part holding `texts` and then `pictures`.
pub open spec fn slide_xml(texts: Seq<TextShape>, pictures: Seq<PictureShape>) -> Seq<char> {
    slide_head() + text_shapes_xml(texts) + pictures_xml(pictures) + slide_tail()
}

/// Generates a slide part: its text boxes, then its pictures (ids from
/// 500).
pub fn generate_slide_xml(texts: &Vec<TextShape>, pictures: &Vec<PictureShape>) -> (res: String)
    requires
        pictures@.len() <= usize::MAX - 500,
    ensures
        res@ == slide_xml(texts@, pictures@),
{
    let mut out = String::new();
    append_slide_head(&mut out);
    let mut k: usize = 0;
    while k < texts.len()
        invariant
            k <= texts@.len(),
            out@ == slide_head() + text_shapes_xml(texts@.take(k as int)),
        decreases texts.len() - k,
    {
        append_text_shape(&mut out, &texts[k]);
        assert(texts@.take(k + 1).drop_last() =~= texts@.take(k as int));
        k += 1;
    }
    assert(texts@.take(texts@.len() as int) =~= texts@);
    let ghost with_texts = out@;
    let mut j: usize = 0;
    while j < pictures.len()
        invariant
            j <= pictures@.len() <= usize::MAX - 500,
            out@ == with_texts + pictures_xml(pictures@.take(j as int)),
        decreases pictures.len() - j,
    {
        append_picture(&mut out, j as u64, &pictures[j]);
        assert(pictures@.take(j + 1).drop_last() =~= pictures@.take(j as int));
        j += 1;
    }
    assert(pictures@.take(pictures@.len() as int) =~= pictures@);
    append_slide_tail(&mut out);
    out
}

fn append_relationships_head(out: &mut String)
    ensures
        final(out)@ == old(out)@ + relationships_head(),
{
    out.append("<?xml version=\"1.0\" encoding=\"UTF-8\" standalone=\"yes\"?>\n<Relationships xmlns=\"http://schemas.openxmlformats.org/package/2006/relationships\">\n");
}

fn append_layout_relationship(out: &mut String)
    ensures
        final(out)@ == old(out)@ + layout_relationship(),
{
    out.append("<Relationship Id=\"rIdLayout1\" Type=\"http://schemas.openxmlformats.org/officeDocument/2006/relationships/slideLayout\" Target=\"../slideLayouts/slideLayout1.xml\"/>");
}

fn append_relationships_tail(out: &mut String)
    ensures
        final(out)@ == old(out)@ + relationships_tail(),
{
    out.append("\n</Relationships>\n");
}

fn append_slide_head(out: &mut String)
    ensures
        final(out)@ == old(out)@ + slide_head(),
{
    out.append("<?xml version=\"1.0\" encoding=\"UTF-8\" standalone=\"yes\"?>\n<p:sld\nxmlns:a=\"http://schemas.openxmlformats.org/drawingml/2006/main\"\nxmlns:r=\"http://schemas.openxmlformats.org/officeDocument/2006/relationships\"\nxmlns:p=\"http://schemas.openxmlformats.org/presentationml/2006/main\">\n\n<p:cSld>\n<p:spTree>\n\n<p:nvGrpSpPr>\n<p:cNvPr id=\"1\" name=\"\"/>\n<p:cNvGrpSpPr/>\n<p:nvPr/>\n</p:nvGrpSpPr>\n\n<p:grpSpPr>\n<a:xfrm>\n<a:off x=\"0\" y=\"0\"/>\n<a:ext cx=\"0\" cy=\"0\"/>\n<a:chOff x=\"0\" y=\"0\"/>\n<a:chExt cx=\"0\" cy=\"0\"/>\n</a:xfrm>\n</p:grpSpPr>\n\n");
}

fn append_slide_tail(out: &mut String)
    ensures
        final(out)@ == old(out)@ + slide_tail(),
{
    out.append("\n\n</p:spTree>\n</p:cSld>\n\n<p:clrMapOvr>\n<a:masterClrMapping/>\n</p:clrMapOvr>\n\n</p:sld>\n");
}

/// One `<p:sldId>` entry of the slide list, for slide `index` (from 0).
pub open spec fn slide_id_entry(index: nat) -> Seq<char> {
    "<p:sldId id=\""@
    + decimal(256 + index)
    + "\" r:id=\"rIdSlide"@
    + decimal(index + 1)
    + "\"/>"@
}

fn append_slide_id_entry(out: &mut String, index: u64)
    requires
        index <= u64::MAX - 256,
    ensures
        final(out)@ == old(out)@ + slide_id_entry(index as nat),
{
    out.append("<p:sldId id=\"");
    append_decimal(out, 256 + index);
    out.append("\" r:id=\"rIdSlide");
    append_decimal(out, index + 1);
    out.append("\"/>");
}

/// The presentation's relationship to slide `index` (from 0).
pub open spec fn slide_relationship_entry(index: nat) -> Seq<char> {
    "<Relationship Id=\"rIdSlide"@
    + decimal(index + 1)
    + "\" Type=\"http://schemas.openxmlformats.org/officeDocument/2006/relationships/slide\" Target=\"slides/slide"@
    + decimal(index + 1)
    + ".xml\"/>"@
}

fn append_slide_relationship_entry(out: &mut String, index: u64)
    requires
        index <= u64::MAX - 256,
    ensures
        final(out)@ == old(out)@ + slide_relationship_entry(index as nat),
{
    out.append("<Relationship Id=\"rIdSlide");
    append_decimal(out, index + 1);
    out.append("\" Type=\"http://schemas.openxmlformats.org/officeDocument/2006/relationships/slide\" Target=\"slides/slide");
    append_decimal(out, index + 1);
    out.append(".xml\"/>");
}

/// The content-type override of slide `index` (from 0).
pub open spec fn slide_override_entry(index: nat) -> Seq<char> {
    "<Override PartName=\"/ppt/slides/slide"@
    + decimal(index + 1)
    + ".xml\" ContentType=\"application/vnd.openxmlformats-officedocument.presentationml.slide+xml\"/>"@
}

fn append_slide_override_entry(out: &mut String, index: u64)
    requires
        index <= u64::MAX - 256,
    ensures
        final(out)@ == old(out)@ + slide_override_entry(index as nat),
{
    out.append("<Override PartName=\"/ppt/slides/slide");
    append_decimal(out, index + 1);
    out.append(".xml\" ContentType=\"application/vnd.openxmlformats-officedocument.presentationml.slide+xml\"/>");
}

/// The slide-size element for a `cx` x `cy` EMU slide.
pub open spec fn slide_size_element(cx: int, cy: int) -> Seq<char> {
    "<p:sldSz cx=\""@
    + signed_decimal(cx)
    + "\" cy=\""@
    + signed_decimal(cy)
    + "\"/>"@
}

fn append_slide_size_element(out: &mut String, cx: i64, cy: i64)
    ensures
        final(out)@ == old(out)@ + slide_size_element(cx as int, cy as int),
{
    out.append("<p:sldSz cx=\"");
    append_signed(out, cx);
    out.append("\" cy=\"");
    append_signed(out, cy);
    out.append("\"/>");
}

/// The `<Default>` content type declaration for an image extension.
pub open spec fn default_content_type(extension: Seq<char>) -> Seq<char> {
    "<Default Extension=\""@
    + extension
    + "\" ContentType=\""@
    + extension_media_type(extension)
    + "\"/>"@
}

fn append_default_content_type(out: &mut String, extension: &str)
    ensures
        final(out)@ == old(out)@ + default_content_type(extension@),
{
    out.append("<Default Extension=\"");
    out.append(extension);
    out.append("\" ContentType=\"");
    out.append(media_type_for_extension(extension));
    out.append("\"/>");
}


/// The `<p:sp>` text box of a text shape.
pub open spec fn text_shape_xml(t: TextShape) -> Seq<char> {
    "\n<p:sp>\n  <p:nvSpPr>\n    <p:cNvPr id=\""@
    + decimal(t.id as nat)
    + "\" name=\"Text"@
    + decimal(t.id as nat)
    + "\"/>\n    <p:cNvSpPr txBox=\"1\"/>\n    <p:nvPr/>\n  </p:nvSpPr>\n\n  <p:spPr>\n    <a:xfrm>\n      <a:off x=\""@
    + signed_decimal(t.x as int)
    + "\" y=\""@
    + signed_decimal(t.y as int)
    + "\"/>\n      <a:ext cx=\""@
    + signed_decimal(t.cx as int)
    + "\" cy=\""@
    + signed_decimal(t.cy as int)
    + "\"/>\n    </a:xfrm>\n\n    <a:prstGeom prst=\"rect\">\n      <a:avLst/>\n    </a:prstGeom>\n  </p:spPr>\n\n  <p:txBody>\n    <a:bodyPr/>\n    <a:lstStyle/>\n    <a:p>\n      <a:r>\n        <a:rPr sz=\""@
    + signed_decimal(t.font_size as int)
    + "\">\n        <a:solidFill>\n            <a:srgbClr val=\""@
    + pptx_color(t.color@)
    + "\"/>\n        </a:solidFill>\n        </a:rPr>\n        <a:t>"@
    + xml_escaped(t.text@)
    + "</a:t>\n      </a:r>\n    </a:p>\n  </p:txBody>\n</p:sp>\n"@
}

fn append_text_shape(out: &mut String, t: &TextShape)
    ensures
        final(out)@ == old(out)@ + text_shape_xml(*t),
{
    out.append("\n<p:sp>\n  <p:nvSpPr>\n    <p:cNvPr id=\"");
    append_decimal(out, t.id);
    out.append("\" name=\"Text");
    append_decimal(out, t.id);
    out.append("\"/>\n    <p:cNvSpPr txBox=\"1\"/>\n    <p:nvPr/>\n  </p:nvSpPr>\n\n  <p:spPr>\n    <a:xfrm>\n      <a:off x=\"");
    append_signed(out, t.x);
    out.append("\" y=\"");
    append_signed(out, t.y);
    out.append("\"/>\n      <a:ext cx=\"");
    append_signed(out, t.cx);
    out.append("\" cy=\"");
    append_signed(out, t.cy);
    out.append("\"/>\n    </a:xfrm>\n\n    <a:prstGeom prst=\"rect\">\n      <a:avLst/>\n    </a:prstGeom>\n  </p:spPr>\n\n  <p:txBody>\n    <a:bodyPr/>\n    <a:lstStyle/>\n    <a:p>\n      <a:r>\n        <a:rPr sz=\"");
    append_signed(out, t.font_size);
    out.append("\">\n        <a:solidFill>\n            <a:srgbClr val=\"");
    out.append(pptx_rgb(t.color.as_str()).as_str());
    out.append("\"/>\n        </a:solidFill>\n        </a:rPr>\n        <a:t>");
    out.append(xml_escape(t.text.as_str()).as_str());
    out.append("</a:t>\n      </a:r>\n    </a:p>\n  </p:txBody>\n</p:sp>\n");
}

/// The `<p:pic>` of picture `index` (from 0) of a slide.
pub open spec fn picture_xml(index: nat, p: PictureShape) -> Seq<char> {
    "\n<p:pic>\n  <p:nvPicPr>\n    <p:cNvPr id=\""@
    + decimal(500 + index)
    + "\" name=\"Image"@
    + decimal(500 + index)
    + "\"/>\n    <p:cNvPicPr>\n      <a:picLocks noChangeAspect=\"1\"/>\n    </p:cNvPicPr>\n    <p:nvPr/>\n  </p:nvPicPr>\n\n  <p:blipFill>\n    <a:blip r:embed=\""@
    + p.rel_id@
    + "\"/>\n    <a:stretch>\n      <a:fillRect/>\n    </a:stretch>\n  </p:blipFill>\n\n  <p:spPr>\n    <a:xfrm>\n      <a:off x=\""@
    + signed_decimal(p.x as int)
    + "\" y=\""@
    + signed_decimal(p.y as int)
    + "\"/>\n      <a:ext cx=\""@
    + signed_decimal(p.cx as int)
    + "\" cy=\""@
    + signed_decimal(p.cy as int)
    + "\"/>\n    </a:xfrm>\n\n    <a:prstGeom prst=\"rect\">\n      <a:avLst/>\n    </a:prstGeom>\n  </p:spPr>\n</p:pic>\n"@
}

fn append_picture(out: &mut String, index: u64, p: &PictureShape)
    requires
        index <= u64::MAX - 500,
    ensures
        final(out)@ == old(out)@ + picture_xml(index as nat, *p),
{
    out.append("\n<p:pic>\n  <p:nvPicPr>\n    <p:cNvPr id=\"");
    append_decimal(out, 500 + index);
    out.append("\" name=\"Image");
    append_decimal(out, 500 + index);
    out.append("\"/>\n    <p:cNvPicPr>\n      <a:picLocks noChangeAspect=\"1\"/>\n    </p:cNvPicPr>\n    <p:nvPr/>\n  </p:nvPicPr>\n\n  <p:blipFill>\n    <a:blip r:embed=\"");
    out.append(p.rel_id.as_str());
    out.append("\"/>\n    <a:stretch>\n      <a:fillRect/>\n    </a:stretch>\n  </p:blipFill>\n\n  <p:spPr>\n    <a:xfrm>\n      <a:off x=\"");
    append_signed(out, p.x);
    out.append("\" y=\"");
    append_signed(out, p.y);
    out.append("\"/>\n      <a:ext cx=\"");
    append_signed(out, p.cx);
    out.append("\" cy=\"");
    append_signed(out, p.cy);
    out.append("\"/>\n    </a:xfrm>\n\n    <a:prstGeom prst=\"rect\">\n      <a:avLst/>\n    </a:prstGeom>\n  </p:spPr>\n</p:pic>\n");
}

/// The relationship of a slide to one of its images.
pub open spec fn image_relationship(image: ResolvedImage) -> Seq<char> {
    "<Relationship Id=\""@ + image.rel_id@ + "\" Type=\"http://schemas.openxmlformats.org/officeDocument/2006/relationships/image\" Target=\"../media/"@ + image.media_name@ + "\"/>"@
}

fn append_image_relationship(out: &mut String, image: &ResolvedImage)
    ensures
        final(out)@ == old(out)@ + image_relationship(*image),
{
    out.append("<Relationship Id=\"");
    out.append(image.rel_id.as_str());
    out.append("\" Type=\"http://schemas.openxmlformats.org/officeDocument/2006/relationships/image\" Target=\"../media/");
    out.append(image.media_name.as_str());
    out.append("\"/>");
}

/// The opening of a slide relationships part.
pub open spec fn relationships_head() -> Seq<char> {
    "<?xml version=\"1.0\" encoding=\"UTF-8\" standalone=\"yes\"?>\n<Relationships xmlns=\"http://schemas.openxmlformats.org/package/2006/relationships\">\n"@
}

/// The relationship of every slide to the one slide layout.
pub open spec fn layout_relationship() -> Seq<char> {
    "<Relationship Id=\"rIdLayout1\" Type=\"http://schemas.openxmlformats.org/officeDocument/2006/relationships/slideLayout\" Target=\"../slideLayouts/slideLayout1.xml\"/>"@
}

/// The closing of a slide relationships part.
pub open spec fn relationships_tail() -> Seq<char> {
    "\n</Relationships>\n"@
}

/// The opening of a slide part, up to its shapes.
pub open spec fn slide_head() -> Seq<char> {
    "<?xml version=\"1.0\" encoding=\"UTF-8\" standalone=\"yes\"?>\n<p:sld\nxmlns:a=\"http://schemas.openxmlformats.org/drawingml/2006/main\"\nxmlns:r=\"http://schemas.openxmlformats.org/officeDocument/2006/relationships\"\nxmlns:p=\"http://schemas.openxmlformats.org/presentationml/2006/main\">\n\n<p:cSld>\n<p:spTree>\n\n<p:nvGrpSpPr>\n<p:cNvPr id=\"1\" name=\"\"/>\n<p:cNvGrpSpPr/>\n<p:nvPr/>\n</p:nvGrpSpPr>\n\n<p:grpSpPr>\n<a:xfrm>\n<a:off x=\"0\" y=\"0\"/>\n<a:ext cx=\"0\" cy=\"0\"/>\n<a:chOff x=\"0\" y=\"0\"/>\n<a:chExt cx=\"0\" cy=\"0\"/>\n</a:xfrm>\n</p:grpSpPr>\n\n"@
}

/// The closing of a slide part, after its shapes.
pub open spec fn slide_tail() -> Seq<char> {
    "\n\n</p:spTree>\n</p:cSld>\n\n<p:clrMapOvr>\n<a:masterClrMapping/>\n</p:clrMapOvr>\n\n</p:sld>\n"@
}

} // verus!
