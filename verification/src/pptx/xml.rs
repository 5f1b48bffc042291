//! Reading XML parts as a stream of events, through quick-xml.
//!
//! quick-xml's reader is deterministic: the events it yields for a text
//! depend on that text alone. The reader is described by the text it reads
//! and by how many events have been asked of it; the event it yields at
//! each step is named by `xml_event_at`.
use vstd::prelude::*;

use quick_xml::events::Event::{Empty, End, Eof, Start, Text};
use quick_xml::Reader;

use crate::text::{chars_eq, chars_of, has_prefix, matches_at, occurs_at, push_char};

verus! {

#[verifier::external_type_specification]
#[verifier::external_body]
#[verifier::reject_recursive_types(R)]
pub struct ExXmlReader<R>(Reader<R>);

/// One event of an XML part. Start tags and empty-element tags both come
/// as `Open`; each attribute is `None` when it could not be read.
/// Names, attribute keys and values and text are the raw (unescaped)
/// characters of the part.
#[derive(Debug, Clone)]
pub enum XmlEvent {
    Open { name: String, attributes: Vec<Option<(String, String)>> },
    Close { name: String },
    Text { content: String },
    Eof,
    Other,
}

/// The characters of an event.
pub enum XmlEventView {
    Open { name: Seq<char>, attributes: Seq<Option<(Seq<char>, Seq<char>)>> },
    Close { name: Seq<char> },
    Text { content: Seq<char> },
    Eof,
    Other,
}

/// The characters of one attribute.
pub open spec fn attribute_view(a: Option<(String, String)>) -> Option<(Seq<char>, Seq<char>)> {
    match a {
        Some((k, v)) => Some((k@, v@)),
        None => None,
    }
}

/// The characters of a tag's attributes.
pub open spec fn attrs_view(attrs: Seq<Option<(String, String)>>) -> Seq<
    Option<(Seq<char>, Seq<char>)>,
> {
    attrs.map_values(|a: Option<(String, String)>| attribute_view(a))
}

/// The characters of an event.
pub open spec fn event_view(e: XmlEvent) -> XmlEventView {
    match e {
        XmlEvent::Open { name, attributes } => XmlEventView::Open {
            name: name@,
            attributes: attrs_view(attributes@),
        },
        XmlEvent::Close { name } => XmlEventView::Close { name: name@ },
        XmlEvent::Text { content } => XmlEventView::Text { content: content@ },
        XmlEvent::Eof => XmlEventView::Eof,
        XmlEvent::Other => XmlEventView::Other,
    }
}

/// The event quick-xml's reader yields at its `n`-th read (from 0) of
/// `xml`, or `None` where that read fails.
pub uninterp spec fn xml_event_at(xml: Seq<char>, n: nat) -> Option<XmlEventView>;

/// The text of the error quick-xml's reader gives at its `n`-th read (from
/// 0) of `xml`, where that read fails.
pub uninterp spec fn xml_read_error(xml: Seq<char>, n: nat) -> Seq<char>;

/// The text a reader reads.
pub uninterp spec fn reader_source(r: Reader<&[u8]>) -> Seq<char>;

/// How many events have been asked of a reader.
pub uninterp spec fn reader_position(r: Reader<&[u8]>) -> nat;

/// Where a scan takes its events from: a part read by quick-xml, or
/// events given as they are.
pub enum EventSource {
    Part(Seq<char>),
    Listed(Seq<XmlEventView>),
}

/// The `n`-th event (from 0) of a source; `None` where reading fails or
/// the given events have run out.
pub open spec fn source_event(src: EventSource, n: nat) -> Option<XmlEventView> {
    match src {
        EventSource::Part(xml) => xml_event_at(xml, n),
        EventSource::Listed(events) => if n < events.len() {
            Some(events[n as int])
        } else {
            None
        },
    }
}

/// The message of a scan that fails where its source gives no event: the
/// reader's error, or, for given events, that they ended too soon.
pub open spec fn source_error(src: EventSource, n: nat) -> Seq<char> {
    match src {
        EventSource::Part(xml) => xml_read_error(xml, n),
        EventSource::Listed(_) => "xml events end before the end of the part"@,
    }
}

/// The message of a scan that failed at its `n`-th event: the read failed,
/// or a tag's attribute could not be read.
pub open spec fn scan_error(src: EventSource, n: nat) -> Seq<char> {
    if source_event(src, n) is None {
        source_error(src, n)
    } else {
        "unreadable xml attribute"@
    }
}

/// The characters of some events.
pub open spec fn events_view(events: Seq<XmlEvent>) -> Seq<XmlEventView> {
    events.map_values(|e: XmlEvent| event_view(e))
}

/// What one step of a scan gives: the next state, the scan's result, or
/// a failure.
pub enum ScanStep<S, R> {
    Next(S),
    Done(R),
    Fail,
}

/// An event as read from a list: the `i`-th one, if there is one.
pub(crate) fn listed_event(events: &Vec<XmlEvent>, i: usize) -> (e: Option<&XmlEvent>)
    ensures
        match source_event(EventSource::Listed(events_view(events@)), i as nat) {
            Some(v) => e matches Some(x) && event_view(*x) == v,
            None => e is None,
        },
{
    if i < events.len() {
        Some(&events[i])
    } else {
        None
    }
}

/// The message of a scan that failed on a read: the reader's own, or that
/// an attribute could not be read.
pub(crate) fn read_failure(read: Result<XmlEvent, String>) -> (msg: String)
    ensures
        match read {
            Err(m) => msg@ == m@,
            Ok(_) => msg@ == "unreadable xml attribute"@,
        },
{
    match read {
        Err(m) => m,
        Ok(_) => String::from_str("unreadable xml attribute"),
    }
}

/// A reader over `xml`, with nothing read yet.
///
/// Trusted: calls `quick_xml::Reader::from_str` (default configuration).
#[verifier::external_body]
pub(crate) fn xml_reader<'a>(xml: &'a str) -> (r: Reader<&'a [u8]>)
    ensures
        reader_source(r) == xml@,
        reader_position(r) == 0,
{
    Reader::from_str(xml)
}

/// Reads the next event.
///
/// Trusted: calls `quick_xml::Reader::read_event` and converts what it
/// yields (start and empty tags to `Open`, attributes decoded as UTF-8,
/// comments, declarations and the like to `Other`). The text of an error
/// is named: like the events, it depends on the text read and on how many
/// reads came before.
#[verifier::external_body]
pub(crate) fn next_event<'a>(r: &mut Reader<&'a [u8]>) -> (res: Result<XmlEvent, String>)
    ensures
        reader_source(*final(r)) == reader_source(*old(r)),
        reader_position(*final(r)) == reader_position(*old(r)) + 1,
        match res {
            Ok(e) => xml_event_at(reader_source(*old(r)), reader_position(*old(r))) == Some(
                event_view(e),
            ),
            Err(m) => xml_event_at(reader_source(*old(r)), reader_position(*old(r))) is None
                && m@ == xml_read_error(reader_source(*old(r)), reader_position(*old(r))),
        },
{
    let lossy = |b: &[u8]| String::from_utf8_lossy(b).to_string();
    let event = r.read_event().map_err(|e| e.to_string())?;
    Ok(match event {
        Start(e) | Empty(e) => XmlEvent::Open {
            name: lossy(e.name().as_ref()),
            attributes: e.attributes().map(|a| a.ok().map(|a| (lossy(a.key.as_ref()), lossy(&a.value)))).collect(),
        },
        End(e) => XmlEvent::Close { name: lossy(e.name().as_ref()) },
        Text(t) => XmlEvent::Text { content: lossy(t.as_ref()) },
        Eof => XmlEvent::Eof,
        _ => XmlEvent::Other,
    })
}

/// Whether a qualified tag name has the given local name: it is the local
/// name itself, or a prefix and `:` followed by it.
pub open spec fn tag_is(name: Seq<char>, local: Seq<char>) -> bool {
    name == local || (name.len() > local.len() && name[name.len() - local.len() - 1] == ':'
        && name.skip(name.len() - local.len()) == local)
}

/// Whether a qualified tag name has the given local name.
pub fn is_tag(name: &str, local_name: &str) -> (res: bool)
    ensures
        res == tag_is(name@, local_name@),
{
    let n = chars_of(name);
    let l = chars_of(local_name);
    if chars_eq(&n, &l) {
        return true;
    }
    if n.len() <= l.len() {
        return false;
    }
    let prefix_end = n.len() - l.len() - 1;
    let r = n[prefix_end] == ':' && crate::text::ends_with(&n, &l);
    proof {
        assert(n@.skip(n@.len() - l@.len()) =~= n@.subrange(n@.len() - l@.len(), n@.len() as int));
    }
    r
}


// ---------------------------------------------------------------------
// Text content
// ---------------------------------------------------------------------

/// The five predefined entity references of XML.
pub open spec fn amp_ref() -> Seq<char> {
    seq!['&', 'a', 'm', 'p', ';']
}

pub open spec fn lt_ref() -> Seq<char> {
    seq!['&', 'l', 't', ';']
}

pub open spec fn gt_ref() -> Seq<char> {
    seq!['&', 'g', 't', ';']
}

pub open spec fn quot_ref() -> Seq<char> {
    seq!['&', 'q', 'u', 'o', 't', ';']
}

pub open spec fn apos_ref() -> Seq<char> {
    seq!['&', 'a', 'p', 'o', 's', ';']
}

/// The characters XML text content stands for: each of the five
/// predefined entity references (`&amp;`, `&lt;`, `&gt;`, `&quot;`,
/// `&apos;`) becomes its character; everything else, character
/// references included, stays as written.
pub open spec fn xml_text_decoded(s: Seq<char>) -> Seq<char>
    decreases s.len(),
{
    if s.len() == 0 {
        seq![]
    } else if has_prefix(s, amp_ref()) {
        seq!['&'] + xml_text_decoded(s.skip(5))
    } else if has_prefix(s, lt_ref()) {
        seq!['<'] + xml_text_decoded(s.skip(4))
    } else if has_prefix(s, gt_ref()) {
        seq!['>'] + xml_text_decoded(s.skip(4))
    } else if has_prefix(s, quot_ref()) {
        seq!['"'] + xml_text_decoded(s.skip(6))
    } else if has_prefix(s, apos_ref()) {
        seq!['\''] + xml_text_decoded(s.skip(6))
    } else {
        seq![s[0]] + xml_text_decoded(s.skip(1))
    }
}

proof fn lemma_occurs_is_prefix(s: Seq<char>, p: Seq<char>, i: int)
    requires
        0 <= i <= s.len(),
    ensures
        occurs_at(s, p, i) == has_prefix(s.skip(i), p),
{
    if i + p.len() <= s.len() {
        assert(s.skip(i).subrange(0, p.len() as int) =~= s.subrange(i, i + p.len()));
    }
}

/// Decodes the predefined entity references of XML text content.
pub fn decode_xml_text(text: &str) -> (res: String)
    ensures
        res@ == xml_text_decoded(text@),
{
    let c = chars_of(text);
    let amp = vec!['&', 'a', 'm', 'p', ';'];
    let lt = vec!['&', 'l', 't', ';'];
    let gt = vec!['&', 'g', 't', ';'];
    let quot = vec!['&', 'q', 'u', 'o', 't', ';'];
    let apos = vec!['&', 'a', 'p', 'o', 's', ';'];
    assert(amp@ =~= amp_ref() && lt@ =~= lt_ref() && gt@ =~= gt_ref());
    assert(quot@ =~= quot_ref() && apos@ =~= apos_ref());
    let mut out = String::new();
    let mut i: usize = 0;
    assert(c@.skip(0) =~= c@);
    while i < c.len()
        invariant
            i <= c@.len(),
            c@ == text@,
            amp@ == amp_ref() && lt@ == lt_ref() && gt@ == gt_ref(),
            quot@ == quot_ref() && apos@ == apos_ref(),
            out@ + xml_text_decoded(c@.skip(i as int)) == xml_text_decoded(c@),
        decreases c.len() - i,
    {
        let ghost rest = c@.skip(i as int);
        proof {
            lemma_occurs_is_prefix(c@, amp_ref(), i as int);
            lemma_occurs_is_prefix(c@, lt_ref(), i as int);
            lemma_occurs_is_prefix(c@, gt_ref(), i as int);
            lemma_occurs_is_prefix(c@, quot_ref(), i as int);
            lemma_occurs_is_prefix(c@, apos_ref(), i as int);
        }
        let ghost before = out@;
        let (ch, n): (char, usize) = if matches_at(&c, &amp, i) {
            ('&', 5)
        } else if matches_at(&c, &lt, i) {
            ('<', 4)
        } else if matches_at(&c, &gt, i) {
            ('>', 4)
        } else if matches_at(&c, &quot, i) {
            ('"', 6)
        } else if matches_at(&c, &apos, i) {
            ('\'', 6)
        } else {
            (c[i], 1)
        };
        assert(i + n <= c@.len());
        assert(rest.skip(n as int) =~= c@.skip(i + n));
        assert(xml_text_decoded(rest) == seq![ch] + xml_text_decoded(rest.skip(n as int)));
        push_char(&mut out, ch);
        assert(out@ + xml_text_decoded(c@.skip(i + n)) =~= before + xml_text_decoded(rest));
        i += n;
    }
    assert(c@.skip(i as int) =~= Seq::<char>::empty());
    assert(out@ + xml_text_decoded(Seq::<char>::empty()) =~= out@);
    out
}

} // verus!
