//! Relationship parts (`*.rels`): which part a relationship id points to.
use vstd::prelude::*;

use crate::error::PptxError;
use crate::pptx::package::{part_bytes, part_text, Package};
use crate::pptx::paths::{slide_rels_path, slide_relationships_path};
use crate::pptx::xml::{
    attrs_view, event_view, events_view, listed_event, next_event, read_failure, reader_position,
    reader_source, scan_error, source_event, xml_reader, EventSource, ScanStep, XmlEvent,
    XmlEventView,
};
use crate::text::{chars_of, ends_with, has_suffix, str_eq};

verus! {

/// One relationship: its id and the part it targets.
#[derive(Debug, Clone)]
pub struct Relationship {
    pub id: String,
    pub target: String,
}

/// Reading and parsing relationship parts.
pub struct Relationships;

/// How many events a part of `len` bytes is read for at most. quick-xml
/// consumes input with every event before the end, so it reaches the end
/// well within this.
pub open spec fn event_budget(len: nat) -> nat {
    if len + 2 <= usize::MAX {
        len + 2
    } else {
        usize::MAX as nat
    }
}

/// The event budget of a part.
pub fn budget_for(xml: &str) -> (b: usize)
    ensures
        b as nat == event_budget(xml@.len()),
{
    let n = crate::text::chars_of(xml).len();
    if n <= usize::MAX - 2 {
        n + 2
    } else {
        usize::MAX
    }
}

/// The `Id` and `Target` found among a tag's attributes (the last of each
/// wins), or `None` when an attribute could not be read.
pub open spec fn id_and_target(attrs: Seq<Option<(Seq<char>, Seq<char>)>>) -> Option<
    (Option<Seq<char>>, Option<Seq<char>>),
>
    decreases attrs.len(),
{
    if attrs.len() == 0 {
        Some((None, None))
    } else {
        match id_and_target(attrs.drop_last()) {
            None => None,
            Some((id, target)) => match attrs.last() {
                None => None,
                Some((k, v)) => if k == "Id"@ {
                    Some((Some(v), target))
                } else if k == "Target"@ {
                    Some((id, Some(v)))
                } else {
                    Some((id, target))
                },
            },
        }
    }
}

/// What one event does to the relationship scan: a tag whose name ends in
/// `Relationship` and has both an `Id` and a `Target` adds them; the end
/// of the part gives the relationships found.
pub open spec fn relationship_step(
    found: Seq<(Seq<char>, Seq<char>)>,
    ev: Option<XmlEventView>,
) -> ScanStep<Seq<(Seq<char>, Seq<char>)>, Seq<(Seq<char>, Seq<char>)>> {
    match ev {
        None => ScanStep::Fail,
        Some(XmlEventView::Eof) => ScanStep::Done(found),
        Some(XmlEventView::Open { name, attributes }) => if has_suffix(name, "Relationship"@) {
            match id_and_target(attributes) {
                None => ScanStep::Fail,
                Some((Some(id), Some(target))) => ScanStep::Next(found.push((id, target))),
                Some(_) => ScanStep::Next(found),
            }
        } else {
            ScanStep::Next(found)
        },
        Some(_) => ScanStep::Next(found),
    }
}

/// The relationships (as id and target) of a source from its `pos`-th
/// event on, having found `found` already, within `fuel` events; when an
/// event cannot be read, an attribute cannot be read or the budget runs
/// out, the message of that failure.
pub open spec fn relationships_by(
    src: EventSource,
    pos: nat,
    found: Seq<(Seq<char>, Seq<char>)>,
    fuel: nat,
) -> Result<Seq<(Seq<char>, Seq<char>)>, Seq<char>>
    decreases fuel,
{
    if fuel == 0 {
        Err("xml part has too many events"@)
    } else {
        match relationship_step(found, source_event(src, pos)) {
            ScanStep::Fail => Err(scan_error(src, pos)),
            ScanStep::Done(f) => Ok(f),
            ScanStep::Next(f) => relationships_by(src, pos + 1, f, (fuel - 1) as nat),
        }
    }
}

/// The relationships of a relationships part, in document order: every
/// tag whose name ends in `Relationship` and that has both an `Id` and a
/// `Target`; when the part is not well-formed XML, the message of the
/// failure.
pub open spec fn relationships_read(xml: Seq<char>, budget: nat) -> Result<
    Seq<(Seq<char>, Seq<char>)>,
    Seq<char>,
> {
    relationships_by(EventSource::Part(xml), 0, seq![], budget)
}

/// The same, without the message of a failure.
pub open spec fn parsed_relationships(xml: Seq<char>, budget: nat) -> Option<
    Seq<(Seq<char>, Seq<char>)>,
> {
    match relationships_read(xml, budget) {
        Ok(rels) => Some(rels),
        Err(_) => None,
    }
}

/// The relationships of a relationships part given as its events; `None`
/// when an attribute cannot be read or the events end before `Eof`.
pub open spec fn relationships_of_events(events: Seq<XmlEventView>) -> Option<
    Seq<(Seq<char>, Seq<char>)>,
> {
    match relationships_by(EventSource::Listed(events), 0, seq![], events.len()) {
        Ok(rels) => Some(rels),
        Err(_) => None,
    }
}

/// The id and target of each relationship.
pub open spec fn relationships_view(rels: Seq<Relationship>) -> Seq<(Seq<char>, Seq<char>)> {
    rels.map_values(|r: Relationship| (r.id@, r.target@))
}

/// Reads the `Id` and `Target` of a tag.
fn scan_id_and_target(attributes: &Vec<Option<(String, String)>>) -> (res: Option<
    (Option<String>, Option<String>),
>)
    ensures
        match id_and_target(
            attrs_view(attributes@),
        ) {
            None => res is None,
            Some((id, target)) => res matches Some((i, t)) && (match i {
                Some(s) => id == Some(s@),
                None => id is None,
            }) && (match t {
                Some(s) => target == Some(s@),
                None => target is None,
            }),
        },
{
    let ghost view = attrs_view(attributes@);
    let mut id: Option<String> = None;
    let mut target: Option<String> = None;
    let mut k: usize = 0;
    while k < attributes.len()
        invariant
            k <= attributes@.len(),
            view == attrs_view(attributes@),
            id_and_target(view.take(k as int)) matches Some((i, t)) && (match id {
                Some(s) => i == Some(s@),
                None => i is None,
            }) && (match target {
                Some(s) => t == Some(s@),
                None => t is None,
            }),
        decreases attributes.len() - k,
    {
        assert(view.take(k + 1).drop_last() =~= view.take(k as int));
        match &attributes[k] {
            None => {
                proof {
                    lemma_id_and_target_fails(view, k as int);
                }
                return None;
            },
            Some((key, value)) => {
                if str_eq(key.as_str(), "Id") {
                    id = Some(value.clone());
                } else if str_eq(key.as_str(), "Target") {
                    target = Some(value.clone());
                }
            },
        }
        k += 1;
    }
    assert(view.take(view.len() as int) =~= view);
    Some((id, target))
}

/// An unreadable attribute makes the whole scan fail.
proof fn lemma_id_and_target_fails(attrs: Seq<Option<(Seq<char>, Seq<char>)>>, k: int)
    requires
        0 <= k < attrs.len(),
        attrs[k] is None,
    ensures
        id_and_target(attrs) is None,
    decreases attrs.len(),
{
    if k < attrs.len() - 1 {
        lemma_id_and_target_fails(attrs.drop_last(), k);
    }
}

/// What a step of the relationship scan gave.
enum RelationshipStep {
    Next,
    Done,
    Fail,
}

/// One step of the relationship scan.
fn relationship_step_exec(rels: &mut Vec<Relationship>, ev: Option<&XmlEvent>) -> (r:
    RelationshipStep)
    ensures
        match relationship_step(
            relationships_view(old(rels)@),
            match ev {
                Some(e) => Some(event_view(*e)),
                None => None,
            },
        ) {
            ScanStep::Next(f) => r is Next && relationships_view(final(rels)@) == f,
            ScanStep::Done(f) => r is Done && relationships_view(final(rels)@) == f,
            ScanStep::Fail => r is Fail,
        },
{
    match ev {
        None => RelationshipStep::Fail,
        Some(XmlEvent::Eof) => RelationshipStep::Done,
        Some(XmlEvent::Open { name, attributes }) => {
            if ends_with(&chars_of(name.as_str()), &chars_of("Relationship")) {
                match scan_id_and_target(attributes) {
                    None => RelationshipStep::Fail,
                    Some((Some(id), Some(target))) => {
                        let ghost before = relationships_view(rels@);
                        rels.push(Relationship { id, target });
                        assert(relationships_view(rels@) =~= before.push(
                            (rels@.last().id@, rels@.last().target@),
                        ));
                        RelationshipStep::Next
                    },
                    Some(_) => RelationshipStep::Next,
                }
            } else {
                RelationshipStep::Next
            }
        },
        Some(_) => RelationshipStep::Next,
    }
}

impl Relationships {
    /// The relationships of the presentation part.
    pub fn load_presentation_relationships(package: &mut Package) -> (res: Result<
        Vec<Relationship>,
        PptxError,
    >)
        ensures
            *final(package) == *old(package),
            part_bytes(old(package).parts@, "ppt/_rels/presentation.xml.rels"@) is None
                ==> res matches Err(PptxError::Zip(_)),
            part_bytes(old(package).parts@, "ppt/_rels/presentation.xml.rels"@) is Some
                && part_text(old(package).parts@, "ppt/_rels/presentation.xml.rels"@) is None
                ==> (res matches Err(PptxError::Xml(m)) && m@ == "part is not UTF-8 text: "@
                + "ppt/_rels/presentation.xml.rels"@),
            part_text(old(package).parts@, "ppt/_rels/presentation.xml.rels"@) matches Some(t)
                ==> match relationships_read(t, event_budget(t.len())) {
                Ok(rels) => res matches Ok(v) && relationships_view(v@) == rels,
                Err(m) => res matches Err(PptxError::Xml(e)) && e@ == m,
            },
    {
        let xml = package.read_string("ppt/_rels/presentation.xml.rels")?;
        Self::parse(xml.as_str())
    }

    /// The relationships of a slide part, read from its `_rels` part.
    pub fn load_slide_relationships(package: &mut Package, slide_target: &str) -> (res: Result<
        Vec<Relationship>,
        PptxError,
    >)
        ensures
            *final(package) == *old(package),
            part_bytes(old(package).parts@, slide_rels_path(slide_target@)) is None
                ==> res matches Err(PptxError::Zip(_)),
            part_bytes(old(package).parts@, slide_rels_path(slide_target@)) is Some
                && part_text(old(package).parts@, slide_rels_path(slide_target@)) is None
                ==> (res matches Err(PptxError::Xml(m)) && m@ == "part is not UTF-8 text: "@
                + slide_rels_path(slide_target@)),
            part_text(old(package).parts@, slide_rels_path(slide_target@)) matches Some(t)
                ==> match relationships_read(t, event_budget(t.len())) {
                Ok(rels) => res matches Ok(v) && relationships_view(v@) == rels,
                Err(m) => res matches Err(PptxError::Xml(e)) && e@ == m,
            },
    {
        let rels_path = slide_relationships_path(slide_target);
        let xml = package.read_string(rels_path.as_str())?;
        Self::parse(xml.as_str())
    }

    /// Parses a relationships part: every tag whose name ends in
    /// `Relationship` and has both an `Id` and a `Target`, in order.
    pub fn parse(xml: &str) -> (res: Result<Vec<Relationship>, PptxError>)
        ensures
            match relationships_read(xml@, event_budget(xml@.len())) {
                Ok(rels) => res matches Ok(v) && relationships_view(v@) == rels,
                Err(m) => res matches Err(PptxError::Xml(e)) && e@ == m,
            },
    {
        let mut reader = xml_reader(xml);
        let mut rels: Vec<Relationship> = Vec::new();
        let mut fuel = budget_for(xml);
        let ghost total = event_budget(xml@.len());
        assert(relationships_view(rels@) =~= seq![]);
        loop
            invariant
                reader_source(reader) == xml@,
                total == event_budget(xml@.len()),
                relationships_read(xml@, total) == relationships_by(
                    EventSource::Part(xml@),
                    reader_position(reader),
                    relationships_view(rels@),
                    fuel as nat,
                ),
            decreases fuel,
        {
            if fuel == 0 {
                return Err(PptxError::Xml(String::from_str("xml part has too many events")));
            }
            let read = next_event(&mut reader);
            fuel -= 1;
            let step = match &read {
                Ok(e) => relationship_step_exec(&mut rels, Some(e)),
                Err(_) => relationship_step_exec(&mut rels, None),
            };
            match step {
                RelationshipStep::Next => {},
                RelationshipStep::Done => {
                    return Ok(rels);
                },
                RelationshipStep::Fail => {
                    return Err(PptxError::Xml(read_failure(read)));
                },
            }
        }
    }

    /// The relationships of a relationships part given as its events (as
    /// quick-xml reads them), found as `parse` finds them; `None` when an
    /// attribute cannot be read or the events end before `Eof`.
    pub fn from_events(events: &Vec<XmlEvent>) -> (res: Option<Vec<Relationship>>)
        ensures
            match relationships_of_events(events_view(events@)) {
                Some(rels) => res matches Some(v) && relationships_view(v@) == rels,
                None => res is None,
            },
    {
        let ghost src = EventSource::Listed(events_view(events@));
        let mut rels: Vec<Relationship> = Vec::new();
        assert(relationships_view(rels@) =~= seq![]);
        let mut i: usize = 0;
        while i < events.len()
            invariant
                i <= events@.len(),
                src == EventSource::Listed(events_view(events@)),
                relationships_by(src, 0, seq![], events@.len()) == relationships_by(
                    src,
                    i as nat,
                    relationships_view(rels@),
                    (events@.len() - i) as nat,
                ),
            decreases events.len() - i,
        {
            match relationship_step_exec(&mut rels, listed_event(events, i)) {
                RelationshipStep::Next => {},
                RelationshipStep::Done => {
                    return Some(rels);
                },
                RelationshipStep::Fail => {
                    return None;
                },
            }
            i += 1;
        }
        None
    }
}

} // verus!
