//! The text boxes and pictures of a slide part.
//!
//! Both scans walk the part's XML events once. A shape (`sp`) or picture
//! (`pic`) opening tag starts a fresh record; the tags inside it fill the
//! record; its closing tag emits the record when it is complete. Lengths
//! stay in EMU here, exactly as the part writes them.
use vstd::prelude::*;

use crate::error::PptxError;
use crate::pptx::relationships::{budget_for, event_budget};
use crate::pptx::xml::{
    attrs_view, decode_xml_text, event_view, events_view, is_tag, listed_event, next_event,
    read_failure, reader_position, reader_source, scan_error, source_event, tag_is, xml_reader,
    xml_text_decoded, EventSource, ScanStep, XmlEvent, XmlEventView,
};
use crate::text::{chars_of, ends_with, has_suffix, parse_i64, parsed_i64, push_char, str_eq};

verus! {

/// Reading slide parts.
pub struct SlideParser;

/// A text box of a slide: its text (one line per `a:t` run, with the
/// predefined entity references of XML decoded), its offset
/// and extent in EMU (`0`, `0`, 100pt and 30pt where the part gives
/// none), the `sz` of its runs as written (hundredths of a point, `1800`
/// where none is given), and its colour as `#RRGGBB` (`#000000` where
/// none is given).
#[derive(Debug, Clone)]
pub struct ParsedText {
    pub text: String,
    pub x: i64,
    pub y: i64,
    pub width: i64,
    pub height: i64,
    pub font_size: String,
    pub color: String,
}

/// A picture of a slide: the relationship id of its image, its offset and
/// extent in EMU, and its description (or, failing that, its name).
#[derive(Debug, Clone)]
pub struct ParsedImage {
    pub relationship_id: String,
    pub x: i64,
    pub y: i64,
    pub width: i64,
    pub height: i64,
    pub alt: Option<String>,
}

/// The characters and numbers of a text box.
pub struct ParsedTextView {
    pub text: Seq<char>,
    pub x: i64,
    pub y: i64,
    pub width: i64,
    pub height: i64,
    pub font_size: Seq<char>,
    pub color: Seq<char>,
}

/// The characters and numbers of a picture.
pub struct ParsedImageView {
    pub relationship_id: Seq<char>,
    pub x: i64,
    pub y: i64,
    pub width: i64,
    pub height: i64,
    pub alt: Option<Seq<char>>,
}

pub open spec fn opt_view(o: Option<String>) -> Option<Seq<char>> {
    match o {
        Some(s) => Some(s@),
        None => None,
    }
}

pub open spec fn text_view(t: ParsedText) -> ParsedTextView {
    ParsedTextView {
        text: t.text@,
        x: t.x,
        y: t.y,
        width: t.width,
        height: t.height,
        font_size: t.font_size@,
        color: t.color@,
    }
}

pub open spec fn texts_view(v: Seq<ParsedText>) -> Seq<ParsedTextView> {
    v.map_values(|t: ParsedText| text_view(t))
}

pub open spec fn image_view(i: ParsedImage) -> ParsedImageView {
    ParsedImageView {
        relationship_id: i.relationship_id@,
        x: i.x,
        y: i.y,
        width: i.width,
        height: i.height,
        alt: opt_view(i.alt),
    }
}

pub open spec fn images_view(v: Seq<ParsedImage>) -> Seq<ParsedImageView> {
    v.map_values(|i: ParsedImage| image_view(i))
}

/// Whether an attribute key is the one looked for: equal to it, or, with
/// `by_suffix`, ending in it.
pub open spec fn key_matches(k: Seq<char>, key: Seq<char>, by_suffix: bool) -> bool {
    if by_suffix {
        has_suffix(k, key)
    } else {
        k == key
    }
}

/// The value of the last attribute whose key matches (`Some(None)` when
/// none does), or `None` when an attribute of the tag could not be read.
pub open spec fn attr_last(
    attrs: Seq<Option<(Seq<char>, Seq<char>)>>,
    key: Seq<char>,
    by_suffix: bool,
) -> Option<Option<Seq<char>>>
    decreases attrs.len(),
{
    if attrs.len() == 0 {
        Some(None)
    } else {
        match attr_last(attrs.drop_last(), key, by_suffix) {
            None => None,
            Some(prev) => match attrs.last() {
                None => None,
                Some((k, v)) => if key_matches(k, key, by_suffix) {
                    Some(Some(v))
                } else {
                    Some(prev)
                },
            },
        }
    }
}

proof fn lemma_attr_last_fails(
    attrs: Seq<Option<(Seq<char>, Seq<char>)>>,
    key: Seq<char>,
    by_suffix: bool,
    k: int,
)
    requires
        0 <= k < attrs.len(),
        attrs[k] is None,
    ensures
        attr_last(attrs, key, by_suffix) is None,
    decreases attrs.len(),
{
    if k < attrs.len() - 1 {
        lemma_attr_last_fails(attrs.drop_last(), key, by_suffix, k);
    }
}

/// The last matching attribute of a tag.
pub(crate) fn last_attribute(attrs: &Vec<Option<(String, String)>>, key: &str, by_suffix: bool) -> (res:
    Option<Option<String>>)
    ensures
        match attr_last(attrs_view(attrs@), key@, by_suffix) {
            None => res is None,
            Some(v) => res matches Some(r) && opt_view(r) == v,
        },
{
    let ghost view = attrs_view(attrs@);
    let key_chars = chars_of(key);
    let mut found: Option<String> = None;
    let mut i: usize = 0;
    while i < attrs.len()
        invariant
            i <= attrs@.len(),
            view == attrs_view(attrs@),
            key_chars@ == key@,
            attr_last(view.take(i as int), key@, by_suffix) == Some(opt_view(found)),
        decreases attrs.len() - i,
    {
        assert(view.take(i + 1).drop_last() =~= view.take(i as int));
        match &attrs[i] {
            None => {
                proof {
                    lemma_attr_last_fails(view, key@, by_suffix, i as int);
                }
                return None;
            },
            Some((k, v)) => {
                let hit = if by_suffix {
                    ends_with(&chars_of(k.as_str()), &key_chars)
                } else {
                    str_eq(k.as_str(), key)
                };
                if hit {
                    found = Some(v.clone());
                }
            },
        }
        i += 1;
    }
    assert(view.take(view.len() as int) =~= view);
    Some(found)
}

/// A length in EMU as written in an attribute; `0` where it is not a
/// decimal integer.
pub open spec fn emu_value(v: Seq<char>) -> i64 {
    match parsed_i64(v) {
        Some(n) => n,
        None => 0,
    }
}

fn emu_of(v: &String) -> (n: i64)
    ensures
        n == emu_value(v@),
{
    match parse_i64(v.as_str()) {
        Some(n) => n,
        None => 0,
    }
}

/// A coordinate updated by an attribute value, where there is one.
pub open spec fn or_emu(v: Option<Seq<char>>, old: Option<i64>) -> Option<i64> {
    match v {
        Some(s) => Some(emu_value(s)),
        None => old,
    }
}

/// A value updated where there is a new one.
pub open spec fn or_keep(v: Option<Seq<char>>, old: Option<Seq<char>>) -> Option<Seq<char>> {
    match v {
        Some(s) => Some(s),
        None => old,
    }
}

pub open spec fn unwrap_or<T>(o: Option<T>, d: T) -> T {
    match o {
        Some(v) => v,
        None => d,
    }
}

// ---------------------------------------------------------------------
// Text boxes
// ---------------------------------------------------------------------

/// The state of the text-box scan: whether it is inside a shape, what the
/// current shape has gathered, and the text boxes found so far.
pub struct TextScan {
    pub in_shape: bool,
    pub text: Seq<char>,
    pub x: Option<i64>,
    pub y: Option<i64>,
    pub width: Option<i64>,
    pub height: Option<i64>,
    pub font_size: Option<Seq<char>>,
    pub color: Option<Seq<char>>,
    pub found: Seq<ParsedTextView>,
    pub awaiting_run: bool,
}

pub open spec fn text_scan_start() -> TextScan {
    TextScan {
        in_shape: false,
        text: seq![],
        x: None,
        y: None,
        width: None,
        height: None,
        font_size: None,
        color: None,
        found: seq![],
        awaiting_run: false,
    }
}

/// What an opening tag does to the text-box scan; `None` when the tag
/// has an attribute that cannot be read and the scan reads it.
pub open spec fn text_open(st: TextScan, name: Seq<char>, attrs: Seq<
    Option<(Seq<char>, Seq<char>)>,
>) -> Option<TextScan> {
    let st1 = if tag_is(name, "sp"@) {
        TextScan {
            in_shape: true,
            text: seq![],
            x: None,
            y: None,
            width: None,
            height: None,
            font_size: None,
            color: None,
            ..st
        }
    } else {
        st
    };
    if !st1.in_shape {
        Some(st1)
    } else if tag_is(name, "off"@) {
        match (attr_last(attrs, "x"@, false), attr_last(attrs, "y"@, false)) {
            (Some(a), Some(b)) => Some(TextScan { x: or_emu(a, st1.x), y: or_emu(b, st1.y), ..st1 }),
            _ => None,
        }
    } else if tag_is(name, "ext"@) {
        match (attr_last(attrs, "cx"@, false), attr_last(attrs, "cy"@, false)) {
            (Some(a), Some(b)) => Some(
                TextScan { width: or_emu(a, st1.width), height: or_emu(b, st1.height), ..st1 },
            ),
            _ => None,
        }
    } else if tag_is(name, "rPr"@) {
        match attr_last(attrs, "sz"@, false) {
            Some(a) => Some(TextScan { font_size: or_keep(a, st1.font_size), ..st1 }),
            None => None,
        }
    } else if tag_is(name, "srgbClr"@) {
        match attr_last(attrs, "val"@, false) {
            Some(Some(v)) => Some(TextScan { color: Some(seq!['#'] + v), ..st1 }),
            Some(None) => Some(st1),
            None => None,
        }
    } else {
        Some(st1)
    }
}

/// The text of a shape with one more run: runs are joined by newlines.
pub open spec fn joined(text: Seq<char>, content: Seq<char>) -> Seq<char> {
    if text.len() == 0 {
        content
    } else {
        text + seq!['\n'] + content
    }
}

/// The text box a shape makes.
pub open spec fn finished_text(st: TextScan) -> ParsedTextView {
    ParsedTextView {
        text: st.text,
        x: unwrap_or(st.x, 0),
        y: unwrap_or(st.y, 0),
        width: unwrap_or(st.width, 1270000),
        height: unwrap_or(st.height, 381000),
        font_size: unwrap_or(st.font_size, "1800"@),
        color: unwrap_or(st.color, "#000000"@),
    }
}

/// What a closing tag does to the text-box scan: the end of a shape emits
/// its text box when it has text.
pub open spec fn text_close(st: TextScan, name: Seq<char>) -> TextScan {
    if tag_is(name, "sp"@) {
        TextScan {
            in_shape: false,
            found: if st.text.len() > 0 {
                st.found.push(finished_text(st))
            } else {
                st.found
            },
            ..st
        }
    } else {
        st
    }
}

/// What one event does to the text-box scan. A run tag (`t`) inside a
/// shape makes the next event the run's text, decoded, when it is text (any other
/// event, or a failed read, there is passed over); the end of the part
/// gives the text boxes found.
pub open spec fn text_step(st: TextScan, ev: Option<XmlEventView>) -> ScanStep<
    TextScan,
    Seq<ParsedTextView>,
> {
    if st.awaiting_run {
        ScanStep::Next(
            match ev {
                Some(XmlEventView::Text { content }) => TextScan {
                    text: joined(st.text, xml_text_decoded(content)),
                    awaiting_run: false,
                    ..st
                },
                _ => TextScan { awaiting_run: false, ..st },
            },
        )
    } else {
        match ev {
            None => ScanStep::Fail,
            Some(XmlEventView::Eof) => ScanStep::Done(st.found),
            Some(XmlEventView::Open { name, attributes }) => match text_open(st, name, attributes) {
                None => ScanStep::Fail,
                Some(st1) => ScanStep::Next(
                    TextScan { awaiting_run: st1.in_shape && tag_is(name, "t"@), ..st1 },
                ),
            },
            Some(XmlEventView::Close { name }) => ScanStep::Next(text_close(st, name)),
            Some(_) => ScanStep::Next(st),
        }
    }
}

/// The text boxes of a source from its `pos`-th event on, within `fuel`
/// events; on a failed read, an unreadable attribute or a budget run out,
/// the message of that failure.
pub open spec fn texts_by(src: EventSource, pos: nat, st: TextScan, fuel: nat) -> Result<
    Seq<ParsedTextView>,
    Seq<char>,
>
    decreases fuel,
{
    if fuel == 0 {
        Err("xml part has too many events"@)
    } else {
        match text_step(st, source_event(src, pos)) {
            ScanStep::Fail => Err(scan_error(src, pos)),
            ScanStep::Done(found) => Ok(found),
            ScanStep::Next(st1) => texts_by(src, pos + 1, st1, (fuel - 1) as nat),
        }
    }
}

/// The text boxes of a slide part, in document order; when the part is
/// not well-formed XML, the message of the failure.
pub open spec fn texts_read(xml: Seq<char>) -> Result<Seq<ParsedTextView>, Seq<char>> {
    texts_by(EventSource::Part(xml), 0, text_scan_start(), event_budget(xml.len()))
}

/// The same, without the message of a failure.
pub open spec fn parsed_texts(xml: Seq<char>) -> Option<Seq<ParsedTextView>> {
    match texts_read(xml) {
        Ok(found) => Some(found),
        Err(_) => None,
    }
}

/// The text boxes of a slide part given as its events; `None` when an
/// attribute cannot be read or the events end before the end of the part.
pub open spec fn texts_of_events(events: Seq<XmlEventView>) -> Option<Seq<ParsedTextView>> {
    match texts_by(EventSource::Listed(events), 0, text_scan_start(), events.len()) {
        Ok(found) => Some(found),
        Err(_) => None,
    }
}

struct ShapeState {
    in_shape: bool,
    text: String,
    x: Option<i64>,
    y: Option<i64>,
    width: Option<i64>,
    height: Option<i64>,
    font_size: Option<String>,
    color: Option<String>,
}

spec fn shape_view(s: ShapeState, found: Seq<ParsedTextView>) -> TextScan {
    TextScan {
        in_shape: s.in_shape,
        text: s.text@,
        x: s.x,
        y: s.y,
        width: s.width,
        height: s.height,
        font_size: opt_view(s.font_size),
        color: opt_view(s.color),
        found,
        awaiting_run: false,
    }
}

struct TextScanner {
    st: ShapeState,
    found: Vec<ParsedText>,
    awaiting_run: bool,
}

spec fn scanner_view(sc: TextScanner) -> TextScan {
    TextScan { awaiting_run: sc.awaiting_run, ..shape_view(sc.st, texts_view(sc.found@)) }
}

/// What a step of an exec scan gave.
enum Scanned {
    Next,
    Done,
    Fail,
}

fn text_scanner() -> (sc: TextScanner)
    ensures
        scanner_view(sc) == text_scan_start(),
{
    let sc = TextScanner {
        st: ShapeState {
            in_shape: false,
            text: String::new(),
            x: None,
            y: None,
            width: None,
            height: None,
            font_size: None,
            color: None,
        },
        found: Vec::new(),
        awaiting_run: false,
    };
    assert(texts_view(sc.found@) =~= seq![]);
    sc
}

/// One step of the text-box scan.
fn text_step_exec(sc: &mut TextScanner, ev: Option<&XmlEvent>) -> (r: Scanned)
    ensures
        match text_step(
            scanner_view(*old(sc)),
            match ev {
                Some(e) => Some(event_view(*e)),
                None => None,
            },
        ) {
            ScanStep::Next(s) => r is Next && scanner_view(*final(sc)) == s,
            ScanStep::Done(f) => r is Done && texts_view(final(sc).found@) == f,
            ScanStep::Fail => r is Fail,
        },
{
    let ghost found = texts_view(sc.found@);
    if sc.awaiting_run {
        sc.awaiting_run = false;
        if let Some(XmlEvent::Text { content }) = ev {
            let ghost prev = sc.st.text@;
            if !sc.st.text.as_str().is_empty() {
                push_char(&mut sc.st.text, '\n');
            }
            let decoded = decode_xml_text(content.as_str());
            sc.st.text.append(decoded.as_str());
            assert(sc.st.text@ =~= joined(prev, xml_text_decoded(content@)));
        }
        return Scanned::Next;
    }
    match ev {
        None => Scanned::Fail,
        Some(XmlEvent::Eof) => Scanned::Done,
        Some(XmlEvent::Open { name, attributes }) => {
            if !text_open_step(&mut sc.st, name.as_str(), attributes, Ghost(found)) {
                return Scanned::Fail;
            }
            if sc.st.in_shape && is_tag(name.as_str(), "t") {
                sc.awaiting_run = true;
            }
            Scanned::Next
        },
        Some(XmlEvent::Close { name }) => {
            if is_tag(name.as_str(), "sp") {
                if !sc.st.text.as_str().is_empty() {
                    let t = ParsedText {
                        text: sc.st.text.clone(),
                        x: match sc.st.x { Some(v) => v, None => 0 },
                        y: match sc.st.y { Some(v) => v, None => 0 },
                        width: match sc.st.width { Some(v) => v, None => 1270000 },
                        height: match sc.st.height { Some(v) => v, None => 381000 },
                        font_size: copy_or(&sc.st.font_size, "1800"),
                        color: copy_or(&sc.st.color, "#000000"),
                    };
                    sc.found.push(t);
                    assert(texts_view(sc.found@) =~= found.push(text_view(t)));
                }
                sc.st.in_shape = false;
            }
            Scanned::Next
        },
        Some(_) => Scanned::Next,
    }
}

fn text_open_step(
    st: &mut ShapeState,
    name: &str,
    attrs: &Vec<Option<(String, String)>>,
    Ghost(found): Ghost<Seq<ParsedTextView>>,
) -> (ok: bool)
    ensures
        match text_open(shape_view(*old(st), found), name@, attrs_view(attrs@)) {
            Some(s) => ok && shape_view(*final(st), found) == s,
            None => !ok,
        },
{
    if is_tag(name, "sp") {
        st.in_shape = true;
        st.text = String::new();
        st.x = None;
        st.y = None;
        st.width = None;
        st.height = None;
        st.font_size = None;
        st.color = None;
    }
    if !st.in_shape {
        return true;
    }
    if is_tag(name, "off") {
        match (last_attribute(attrs, "x", false), last_attribute(attrs, "y", false)) {
            (Some(a), Some(b)) => {
                if let Some(v) = a {
                    st.x = Some(emu_of(&v));
                }
                if let Some(v) = b {
                    st.y = Some(emu_of(&v));
                }
                true
            },
            _ => false,
        }
    } else if is_tag(name, "ext") {
        match (last_attribute(attrs, "cx", false), last_attribute(attrs, "cy", false)) {
            (Some(a), Some(b)) => {
                if let Some(v) = a {
                    st.width = Some(emu_of(&v));
                }
                if let Some(v) = b {
                    st.height = Some(emu_of(&v));
                }
                true
            },
            _ => false,
        }
    } else if is_tag(name, "rPr") {
        match last_attribute(attrs, "sz", false) {
            Some(a) => {
                if let Some(v) = a {
                    st.font_size = Some(v);
                }
                true
            },
            None => false,
        }
    } else if is_tag(name, "srgbClr") {
        match last_attribute(attrs, "val", false) {
            Some(Some(v)) => {
                let mut c = String::from_str("#");
                c.append(v.as_str());
                proof {
                    reveal_strlit("#");
                    assert(c@ =~= seq!['#'] + v@);
                }
                st.color = Some(c);
                true
            },
            Some(None) => true,
            None => false,
        }
    } else {
        true
    }
}

fn copy_or(o: &Option<String>, d: &str) -> (s: String)
    ensures
        s@ == unwrap_or(opt_view(*o), d@),
{
    match o {
        Some(v) => v.clone(),
        None => String::from_str(d),
    }
}

/// A copy of a picture record.
pub(crate) fn copy_image(i: &ParsedImage) -> (r: ParsedImage)
    ensures
        image_view(r) == image_view(*i),
{
    ParsedImage {
        relationship_id: i.relationship_id.clone(),
        x: i.x,
        y: i.y,
        width: i.width,
        height: i.height,
        alt: clone_opt(&i.alt),
    }
}

// ---------------------------------------------------------------------
// Pictures
// ---------------------------------------------------------------------

/// The state of the picture scan: whether it is inside a picture, what
/// the current picture has gathered, and the pictures found so far.
pub struct ImageScan {
    pub in_picture: bool,
    pub relationship_id: Option<Seq<char>>,
    pub alt: Option<Seq<char>>,
    pub x: Option<i64>,
    pub y: Option<i64>,
    pub width: Option<i64>,
    pub height: Option<i64>,
    pub found: Seq<ParsedImageView>,
}

pub open spec fn image_scan_start() -> ImageScan {
    ImageScan {
        in_picture: false,
        relationship_id: None,
        alt: None,
        x: None,
        y: None,
        width: None,
        height: None,
        found: seq![],
    }
}

/// What an opening tag does to the picture scan; `None` when the tag has
/// an attribute that cannot be read and the scan reads it.
pub open spec fn image_open(st: ImageScan, name: Seq<char>, attrs: Seq<
    Option<(Seq<char>, Seq<char>)>,
>) -> Option<ImageScan> {
    let st1 = if tag_is(name, "pic"@) {
        ImageScan {
            in_picture: true,
            relationship_id: None,
            alt: None,
            x: None,
            y: None,
            width: None,
            height: None,
            ..st
        }
    } else {
        st
    };
    if !st1.in_picture {
        Some(st1)
    } else if tag_is(name, "cNvPr"@) {
        match (attr_last(attrs, "name"@, false), attr_last(attrs, "descr"@, false)) {
            (Some(n), Some(d)) => Some(ImageScan { alt: or_keep(d, n), ..st1 }),
            _ => None,
        }
    } else if tag_is(name, "blip"@) {
        match attr_last(attrs, "embed"@, true) {
            Some(r) => Some(ImageScan { relationship_id: or_keep(r, st1.relationship_id), ..st1 }),
            None => None,
        }
    } else if tag_is(name, "off"@) {
        match (attr_last(attrs, "x"@, false), attr_last(attrs, "y"@, false)) {
            (Some(a), Some(b)) => Some(ImageScan { x: or_emu(a, st1.x), y: or_emu(b, st1.y), ..st1 }),
            _ => None,
        }
    } else if tag_is(name, "ext"@) {
        match (attr_last(attrs, "cx"@, false), attr_last(attrs, "cy"@, false)) {
            (Some(a), Some(b)) => Some(
                ImageScan { width: or_emu(a, st1.width), height: or_emu(b, st1.height), ..st1 },
            ),
            _ => None,
        }
    } else {
        Some(st1)
    }
}

/// What a closing tag does to the picture scan: the end of a picture
/// emits it when its relationship id, offset and extent are all known.
pub open spec fn image_close(st: ImageScan, name: Seq<char>) -> ImageScan {
    if tag_is(name, "pic"@) {
        ImageScan {
            in_picture: false,
            found: match (st.relationship_id, st.x, st.y, st.width, st.height) {
                (Some(r), Some(x), Some(y), Some(w), Some(h)) => st.found.push(
                    ParsedImageView { relationship_id: r, x, y, width: w, height: h, alt: st.alt },
                ),
                _ => st.found,
            },
            ..st
        }
    } else {
        st
    }
}

/// What one event does to the picture scan; the end of the part gives the
/// pictures found.
pub open spec fn image_step(st: ImageScan, ev: Option<XmlEventView>) -> ScanStep<
    ImageScan,
    Seq<ParsedImageView>,
> {
    match ev {
        None => ScanStep::Fail,
        Some(XmlEventView::Eof) => ScanStep::Done(st.found),
        Some(XmlEventView::Open { name, attributes }) => match image_open(st, name, attributes) {
            None => ScanStep::Fail,
            Some(st1) => ScanStep::Next(st1),
        },
        Some(XmlEventView::Close { name }) => ScanStep::Next(image_close(st, name)),
        Some(_) => ScanStep::Next(st),
    }
}

/// The pictures of a source from its `pos`-th event on, within `fuel`
/// events; on a failed read, an unreadable attribute or a budget run out,
/// the message of that failure.
pub open spec fn images_by(src: EventSource, pos: nat, st: ImageScan, fuel: nat) -> Result<
    Seq<ParsedImageView>,
    Seq<char>,
>
    decreases fuel,
{
    if fuel == 0 {
        Err("xml part has too many events"@)
    } else {
        match image_step(st, source_event(src, pos)) {
            ScanStep::Fail => Err(scan_error(src, pos)),
            ScanStep::Done(found) => Ok(found),
            ScanStep::Next(st1) => images_by(src, pos + 1, st1, (fuel - 1) as nat),
        }
    }
}

/// The pictures of a slide part, in document order; when the part is not
/// well-formed XML, the message of the failure.
pub open spec fn images_read(xml: Seq<char>) -> Result<Seq<ParsedImageView>, Seq<char>> {
    images_by(EventSource::Part(xml), 0, image_scan_start(), event_budget(xml.len()))
}

/// The same, without the message of a failure.
pub open spec fn parsed_images(xml: Seq<char>) -> Option<Seq<ParsedImageView>> {
    match images_read(xml) {
        Ok(found) => Some(found),
        Err(_) => None,
    }
}

/// The pictures of a slide part given as its events; `None` when an
/// attribute cannot be read or the events end before the end of the part.
pub open spec fn images_of_events(events: Seq<XmlEventView>) -> Option<Seq<ParsedImageView>> {
    match images_by(EventSource::Listed(events), 0, image_scan_start(), events.len()) {
        Ok(found) => Some(found),
        Err(_) => None,
    }
}

struct PictureState {
    in_picture: bool,
    relationship_id: Option<String>,
    alt: Option<String>,
    x: Option<i64>,
    y: Option<i64>,
    width: Option<i64>,
    height: Option<i64>,
}

spec fn picture_view(s: PictureState, found: Seq<ParsedImageView>) -> ImageScan {
    ImageScan {
        in_picture: s.in_picture,
        relationship_id: opt_view(s.relationship_id),
        alt: opt_view(s.alt),
        x: s.x,
        y: s.y,
        width: s.width,
        height: s.height,
        found,
    }
}

struct PictureScanner {
    st: PictureState,
    found: Vec<ParsedImage>,
}

spec fn picture_scanner_view(sc: PictureScanner) -> ImageScan {
    picture_view(sc.st, images_view(sc.found@))
}

fn picture_scanner() -> (sc: PictureScanner)
    ensures
        picture_scanner_view(sc) == image_scan_start(),
{
    let sc = PictureScanner {
        st: PictureState {
            in_picture: false,
            relationship_id: None,
            alt: None,
            x: None,
            y: None,
            width: None,
            height: None,
        },
        found: Vec::new(),
    };
    assert(images_view(sc.found@) =~= seq![]);
    sc
}

/// One step of the picture scan.
fn image_step_exec(sc: &mut PictureScanner, ev: Option<&XmlEvent>) -> (r: Scanned)
    ensures
        match image_step(
            picture_scanner_view(*old(sc)),
            match ev {
                Some(e) => Some(event_view(*e)),
                None => None,
            },
        ) {
            ScanStep::Next(s) => r is Next && picture_scanner_view(*final(sc)) == s,
            ScanStep::Done(f) => r is Done && images_view(final(sc).found@) == f,
            ScanStep::Fail => r is Fail,
        },
{
    let ghost found = images_view(sc.found@);
    match ev {
        None => Scanned::Fail,
        Some(XmlEvent::Eof) => Scanned::Done,
        Some(XmlEvent::Open { name, attributes }) => {
            if !image_open_step(&mut sc.st, name.as_str(), attributes, Ghost(found)) {
                return Scanned::Fail;
            }
            Scanned::Next
        },
        Some(XmlEvent::Close { name }) => {
            if is_tag(name.as_str(), "pic") {
                if let (Some(r), Some(x), Some(y), Some(w), Some(h)) = (
                    &sc.st.relationship_id,
                    sc.st.x,
                    sc.st.y,
                    sc.st.width,
                    sc.st.height,
                ) {
                    let im = ParsedImage {
                        relationship_id: r.clone(),
                        x,
                        y,
                        width: w,
                        height: h,
                        alt: clone_opt(&sc.st.alt),
                    };
                    sc.found.push(im);
                    assert(images_view(sc.found@) =~= found.push(image_view(im)));
                }
                sc.st.in_picture = false;
            }
            Scanned::Next
        },
        Some(_) => Scanned::Next,
    }
}

pub(crate) fn clone_opt(o: &Option<String>) -> (r: Option<String>)
    ensures
        opt_view(r) == opt_view(*o),
{
    match o {
        Some(v) => Some(v.clone()),
        None => None,
    }
}

fn image_open_step(
    st: &mut PictureState,
    name: &str,
    attrs: &Vec<Option<(String, String)>>,
    Ghost(found): Ghost<Seq<ParsedImageView>>,
) -> (ok: bool)
    ensures
        match image_open(picture_view(*old(st), found), name@, attrs_view(attrs@)) {
            Some(s) => ok && picture_view(*final(st), found) == s,
            None => !ok,
        },
{
    if is_tag(name, "pic") {
        st.in_picture = true;
        st.relationship_id = None;
        st.alt = None;
        st.x = None;
        st.y = None;
        st.width = None;
        st.height = None;
    }
    if !st.in_picture {
        return true;
    }
    if is_tag(name, "cNvPr") {
        match (last_attribute(attrs, "name", false), last_attribute(attrs, "descr", false)) {
            (Some(n), Some(d)) => {
                st.alt = match d {
                    Some(v) => Some(v),
                    None => n,
                };
                true
            },
            _ => false,
        }
    } else if is_tag(name, "blip") {
        match last_attribute(attrs, "embed", true) {
            Some(r) => {
                if let Some(v) = r {
                    st.relationship_id = Some(v);
                }
                true
            },
            None => false,
        }
    } else if is_tag(name, "off") {
        match (last_attribute(attrs, "x", false), last_attribute(attrs, "y", false)) {
            (Some(a), Some(b)) => {
                if let Some(v) = a {
                    st.x = Some(emu_of(&v));
                }
                if let Some(v) = b {
                    st.y = Some(emu_of(&v));
                }
                true
            },
            _ => false,
        }
    } else if is_tag(name, "ext") {
        match (last_attribute(attrs, "cx", false), last_attribute(attrs, "cy", false)) {
            (Some(a), Some(b)) => {
                if let Some(v) = a {
                    st.width = Some(emu_of(&v));
                }
                if let Some(v) = b {
                    st.height = Some(emu_of(&v));
                }
                true
            },
            _ => false,
        }
    } else {
        true
    }
}

impl SlideParser {
    /// The text of each text box of a slide part, in document order.
    pub fn extract_text(xml: &str) -> (res: Result<Vec<String>, PptxError>)
        ensures
            match texts_read(xml@) {
                Ok(ts) => res matches Ok(v) && v@.len() == ts.len() && forall|i: int|
                    0 <= i < ts.len() ==> #[trigger] v@[i]@ == ts[i].text,
                Err(m) => res matches Err(PptxError::Xml(e)) && e@ == m,
            },
    {
        let elements = Self::extract_text_elements(xml)?;
        let mut out: Vec<String> = Vec::new();
        let mut i: usize = 0;
        while i < elements.len()
            invariant
                i <= elements@.len(),
                out@.len() == i,
                forall|j: int| 0 <= j < i ==> #[trigger] out@[j]@ == elements@[j].text@,
            decreases elements.len() - i,
        {
            out.push(elements[i].text.clone());
            i += 1;
        }
        Ok(out)
    }

    /// The text boxes of a slide part, in document order: each shape
    /// (`sp`) with text, its runs (`t`) joined by newlines, with the
    /// offset (`off`), extent (`ext`), run size (`rPr sz`) and colour
    /// (`srgbClr val`) found inside it.
    pub fn extract_text_elements(xml: &str) -> (res: Result<Vec<ParsedText>, PptxError>)
        ensures
            match texts_read(xml@) {
                Ok(ts) => res matches Ok(v) && texts_view(v@) == ts,
                Err(m) => res matches Err(PptxError::Xml(e)) && e@ == m,
            },
    {
        let mut reader = xml_reader(xml);
        let mut sc = text_scanner();
        let mut fuel = budget_for(xml);
        loop
            invariant
                reader_source(reader) == xml@,
                texts_read(xml@) == texts_by(
                    EventSource::Part(xml@),
                    reader_position(reader),
                    scanner_view(sc),
                    fuel as nat,
                ),
            decreases fuel,
        {
            if fuel == 0 {
                return Err(PptxError::Xml(String::from_str("xml part has too many events")));
            }
            let read = next_event(&mut reader);
            fuel -= 1;
            let step = match &read {
                Ok(e) => text_step_exec(&mut sc, Some(e)),
                Err(_) => text_step_exec(&mut sc, None),
            };
            match step {
                Scanned::Next => {},
                Scanned::Done => {
                    return Ok(sc.found);
                },
                Scanned::Fail => {
                    return Err(PptxError::Xml(read_failure(read)));
                },
            }
        }
    }

    /// The text boxes of a slide part given as its events (as quick-xml
    /// reads them), found as `extract_text_elements` finds them; `None`
    /// when an attribute cannot be read or the events end before `Eof`.
    pub fn texts_from_events(events: &Vec<XmlEvent>) -> (res: Option<Vec<ParsedText>>)
        ensures
            match texts_of_events(events_view(events@)) {
                Some(ts) => res matches Some(v) && texts_view(v@) == ts,
                None => res is None,
            },
    {
        let ghost src = EventSource::Listed(events_view(events@));
        let mut sc = text_scanner();
        let mut i: usize = 0;
        while i < events.len()
            invariant
                i <= events@.len(),
                src == EventSource::Listed(events_view(events@)),
                texts_by(src, 0, text_scan_start(), events@.len()) == texts_by(
                    src,
                    i as nat,
                    scanner_view(sc),
                    (events@.len() - i) as nat,
                ),
            decreases events.len() - i,
        {
            match text_step_exec(&mut sc, listed_event(events, i)) {
                Scanned::Next => {},
                Scanned::Done => {
                    return Some(sc.found);
                },
                Scanned::Fail => {
                    return None;
                },
            }
            i += 1;
        }
        None
    }

    /// The pictures of a slide part, in document order: each picture
    /// (`pic`) whose image relationship (`blip` `*embed`), offset (`off`)
    /// and extent (`ext`) are all given, with its description (`cNvPr
    /// descr`, else `name`).
    pub fn extract_images(xml: &str) -> (res: Result<Vec<ParsedImage>, PptxError>)
        ensures
            match images_read(xml@) {
                Ok(ims) => res matches Ok(v) && images_view(v@) == ims,
                Err(m) => res matches Err(PptxError::Xml(e)) && e@ == m,
            },
    {
        let mut reader = xml_reader(xml);
        let mut sc = picture_scanner();
        let mut fuel = budget_for(xml);
        loop
            invariant
                reader_source(reader) == xml@,
                images_read(xml@) == images_by(
                    EventSource::Part(xml@),
                    reader_position(reader),
                    picture_scanner_view(sc),
                    fuel as nat,
                ),
            decreases fuel,
        {
            if fuel == 0 {
                return Err(PptxError::Xml(String::from_str("xml part has too many events")));
            }
            let read = next_event(&mut reader);
            fuel -= 1;
            let step = match &read {
                Ok(e) => image_step_exec(&mut sc, Some(e)),
                Err(_) => image_step_exec(&mut sc, None),
            };
            match step {
                Scanned::Next => {},
                Scanned::Done => {
                    return Ok(sc.found);
                },
                Scanned::Fail => {
                    return Err(PptxError::Xml(read_failure(read)));
                },
            }
        }
    }

    /// The pictures of a slide part given as its events (as quick-xml reads
    /// them), found as `extract_images` finds them; `None` when an
    /// attribute cannot be read or the events end before `Eof`.
    pub fn images_from_events(events: &Vec<XmlEvent>) -> (res: Option<Vec<ParsedImage>>)
        ensures
            match images_of_events(events_view(events@)) {
                Some(ims) => res matches Some(v) && images_view(v@) == ims,
                None => res is None,
            },
    {
        let ghost src = EventSource::Listed(events_view(events@));
        let mut sc = picture_scanner();
        let mut i: usize = 0;
        while i < events.len()
            invariant
                i <= events@.len(),
                src == EventSource::Listed(events_view(events@)),
                images_by(src, 0, image_scan_start(), events@.len()) == images_by(
                    src,
                    i as nat,
                    picture_scanner_view(sc),
                    (events@.len() - i) as nat,
                ),
            decreases events.len() - i,
        {
            match image_step_exec(&mut sc, listed_event(events, i)) {
                Scanned::Next => {},
                Scanned::Done => {
                    return Some(sc.found);
                },
                Scanned::Fail => {
                    return None;
                },
            }
            i += 1;
        }
        None
    }
}

} // verus!
