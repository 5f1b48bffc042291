//! Text surgery on OOXML parts: locating markers, splicing, and dropping
//! whole self-closing tags.
use vstd::prelude::*;

use crate::text::{
    append_range, chars_of, lemma_skip_search, contains, contains_seq, find, find_from, first_occurrence,
    first_occurrence_from, lemma_first_occurrence_from, occurs_at, string_of,
};

verus! {

/// `xml` with the text between the first `start_tag` and the first
/// `end_tag` replaced; `xml` itself when either is missing.
pub open spec fn replaced_between(
    xml: Seq<char>,
    start_tag: Seq<char>,
    end_tag: Seq<char>,
    replacement: Seq<char>,
) -> Seq<char> {
    match (first_occurrence(xml, start_tag), first_occurrence(xml, end_tag)) {
        (Some(s), Some(e)) => xml.take(s + start_tag.len()) + replacement + xml.skip(e),
        _ => xml,
    }
}

/// `xml` with `insertion` placed right before the first `marker`; `xml`
/// itself when the marker is missing.
pub open spec fn inserted_before(xml: Seq<char>, marker: Seq<char>, insertion: Seq<char>) -> Seq<
    char,
> {
    match first_occurrence(xml, marker) {
        Some(i) => xml.take(i) + insertion + xml.skip(i),
        None => xml,
    }
}

/// `rest` with every tag that starts at an occurrence of `open` and ends
/// at the next `/>` dropped when it contains `needle`. Scanning stops,
/// keeping the remainder, at an `open` with no `/>` after it.
pub open spec fn without_tags(rest: Seq<char>, open: Seq<char>, needle: Seq<char>) -> Seq<char>
    decreases rest.len(),
{
    match first_occurrence(rest, open) {
        None => rest,
        Some(s) => match first_occurrence(rest.skip(s), "/>"@) {
            None => rest,
            Some(r) => {
                let end = s + r + 2;
                let tag = rest.subrange(s, end);
                if s < 0 || end <= s || end > rest.len() {
                    rest
                } else {
                    rest.take(s) + (if contains_seq(tag, needle) {
                        seq![]
                    } else {
                        tag
                    }) + without_tags(rest.skip(end), open, needle)
                }
            },
        },
    }
}

/// Facts about a found occurrence.
proof fn lemma_found(s: Seq<char>, pattern: Seq<char>)
    ensures
        first_occurrence(s, pattern) matches Some(p) ==> 0 <= p && p + pattern.len() <= s.len()
            && occurs_at(s, pattern, p),
{
    lemma_first_occurrence_from(s, pattern, 0);
}

/// Replaces the text between the first `start_tag` and the first
/// `end_tag` of `xml` with `replacement`.
pub fn replace_between(xml: &str, start_tag: &str, end_tag: &str, replacement: &str) -> (res:
    String)
    ensures
        res@ == replaced_between(xml@, start_tag@, end_tag@, replacement@),
{
    let x = chars_of(xml);
    let st = chars_of(start_tag);
    let Some(start) = find(&x, &st) else {
        return string_of(&x);
    };
    let Some(end) = find(&x, &chars_of(end_tag)) else {
        return string_of(&x);
    };
    proof {
        lemma_found(x@, st@);
        lemma_found(x@, end_tag@);
    }
    let sl = st.len();
    assert(start + sl <= x.len());
    let content_start = start + sl;
    let mut out = String::new();
    append_range(&mut out, &x, 0, content_start);
    out.append(replacement);
    append_range(&mut out, &x, end, x.len());
    assert(x@.subrange(0, content_start as int) =~= x@.take(content_start as int));
    assert(x@.subrange(end as int, x@.len() as int) =~= x@.skip(end as int));
    out
}

/// Inserts `insertion` right before the first `marker` of `xml`.
pub fn insert_before(xml: &str, marker: &str, insertion: &str) -> (res: String)
    ensures
        res@ == inserted_before(xml@, marker@, insertion@),
{
    let x = chars_of(xml);
    let Some(index) = find(&x, &chars_of(marker)) else {
        return string_of(&x);
    };
    proof {
        lemma_found(x@, marker@);
    }
    let mut out = String::new();
    append_range(&mut out, &x, 0, index);
    out.append(insertion);
    append_range(&mut out, &x, index, x.len());
    assert(x@.subrange(0, index as int) =~= x@.take(index as int));
    assert(x@.subrange(index as int, x@.len() as int) =~= x@.skip(index as int));
    out
}

/// Drops from `xml` every tag that starts with `open`, ends at the next
/// `/>` and contains `needle`.
pub fn remove_tags_containing(xml: &str, open: &str, needle: &Vec<char>) -> (res: String)
    ensures
        res@ == without_tags(xml@, open@, needle@),
{
    let x = chars_of(xml);
    let o = chars_of(open);
    let close = chars_of("/>");
    proof {
        reveal_strlit("/>");
    }
    assert(close@.len() == 2);
    let mut out = String::new();
    let mut pos: usize = 0;
    let n = x.len();
    assert(x@.skip(0) =~= x@);
    loop
        invariant_except_break
            out@ + without_tags(x@.skip(pos as int), o@, needle@) == without_tags(
                xml@,
                open@,
                needle@,
            ),
        invariant
            pos <= x@.len(),
            x@ == xml@,
            o@ == open@,
            close@ == "/>"@,
            close@.len() == 2,
            n == x@.len(),
        ensures
            out@ == without_tags(xml@, open@, needle@),
        decreases x@.len() - pos,
    {
        let ghost rest = x@.skip(pos as int);
        proof {
            lemma_skip_search(x@, o@, pos as int);
        }
        let Some(start) = find_from(&x, &o, pos) else {
            append_range(&mut out, &x, pos, x.len());
            assert(x@.subrange(pos as int, x@.len() as int) =~= rest);
            assert(first_occurrence(rest, o@) is None);
            assert(without_tags(rest, o@, needle@) == rest);
            break;
        };
        proof {
            lemma_first_occurrence_from(x@, o@, pos as int);
            lemma_skip_search(x@, close@, start as int);
            assert(x@.skip(start as int) =~= rest.skip(start - pos));
        }
        let Some(close_at) = find_from(&x, &close, start) else {
            append_range(&mut out, &x, pos, x.len());
            assert(x@.subrange(pos as int, x@.len() as int) =~= rest);
            assert(first_occurrence(rest, o@) == Some(start - pos));
            assert(first_occurrence(rest.skip(start - pos), close@) is None);
            assert(without_tags(rest, o@, needle@) == rest);
            break;
        };
        proof {
            lemma_first_occurrence_from(x@, close@, start as int);
        }
        assert(close_at + 2 <= x@.len());
        let end = close_at + 2;
        append_range(&mut out, &x, pos, start);
        let mut tag: Vec<char> = Vec::new();
        let mut i = start;
        while i < end
            invariant
                start <= i <= end <= x@.len(),
                tag@ == x@.subrange(start as int, i as int),
            decreases end - i,
        {
            tag.push(x[i]);
            assert(x@.subrange(start as int, i + 1) =~= x@.subrange(start as int, i as int).push(
                x@[i as int],
            ));
            i += 1;
        }
        if !contains(&tag, needle) {
            append_range(&mut out, &x, start, end);
        }
        proof {
            let s = start - pos;
            let e = end - pos;
            assert(rest.take(s) =~= x@.subrange(pos as int, start as int));
            assert(rest.subrange(s, e) =~= x@.subrange(start as int, end as int));
            assert(rest.skip(e) =~= x@.skip(end as int));
        }
        pos = end;
    }
    out
}

/// Drops every `<Relationship .../>` whose `Type` is exactly
/// `relationship_type`. The whole `Type="..."` value is matched, so a
/// type that merely starts with the given one is kept.
pub fn remove_relationships_of_type(xml: &str, relationship_type: &str) -> (res: String)
    ensures
        res@ == without_tags(
            xml@,
            "<Relationship"@,
            "Type=\""@ + relationship_type@ + "\""@,
        ),
{
    let mut needle = String::from_str("Type=\"");
    needle.append(relationship_type);
    needle.append("\"");
    remove_tags_containing(xml, "<Relationship", &chars_of(needle.as_str()))
}

/// Drops every `<Override .../>` for a generated slide part.
pub fn remove_slide_content_type_overrides(xml: &str) -> (res: String)
    ensures
        res@ == without_tags(xml@, "<Override"@, "PartName=\"/ppt/slides/slide"@),
{
    remove_tags_containing(xml, "<Override", &chars_of("PartName=\"/ppt/slides/slide"))
}

} // verus!
