//! Part names inside a `.pptx` package: resolving relationship targets,
//! normalizing `.`/`..` segments, and naming the parts of a slide.
use vstd::prelude::*;

use crate::text::{
    append_range, ascii_lower, chars_eq, chars_of, ends_with, has_prefix, has_suffix, push_char,
    skip_leading, starts_with, strip_leading, string_of, string_of_range, to_ascii_lower,
};

verus! {

/// The position of the last `c` in `s`, if any.
pub open spec fn last_index_of(s: Seq<char>, c: char) -> Option<int>
    decreases s.len(),
{
    if s.len() == 0 {
        None
    } else if s.last() == c {
        Some(s.len() - 1)
    } else {
        last_index_of(s.drop_last(), c)
    }
}

pub(crate) proof fn lemma_last_index_of(s: Seq<char>, c: char)
    ensures
        last_index_of(s, c) matches Some(i) ==> 0 <= i < s.len() && s[i] == c && forall|j: int|
            i < j < s.len() ==> s[j] != c,
        last_index_of(s, c) is None ==> forall|j: int| 0 <= j < s.len() ==> s[j] != c,
    decreases s.len(),
{
    if s.len() > 0 && s.last() != c {
        lemma_last_index_of(s.drop_last(), c);
        assert forall|j: int| 0 <= j < s.len() - 1 implies s[j] == s.drop_last()[j] by {}
    }
}

/// The position of the last `c` in `chars[..to]`.
fn rfind_char(chars: &Vec<char>, to: usize, c: char) -> (res: Option<usize>)
    requires
        to <= chars@.len(),
    ensures
        res matches Some(i) ==> last_index_of(chars@.take(to as int), c) == Some(i as int) && i
            < to,
        res is None ==> last_index_of(chars@.take(to as int), c) is None,
{
    let mut i = to;
    while i > 0
        invariant
            i <= to <= chars@.len(),
            last_index_of(chars@.take(to as int), c) == last_index_of(chars@.take(i as int), c),
        decreases i,
    {
        assert(chars@.take(i as int).drop_last() =~= chars@.take(i - 1));
        if chars[i - 1] == c {
            return Some(i - 1);
        }
        i -= 1;
    }
    None
}

// ---------------------------------------------------------------------
// Normalizing `.` and `..`
// ---------------------------------------------------------------------

/// The segment stack after taking one more `/`-separated segment: empty
/// and `.` segments are dropped, `..` drops the previous segment.
pub open spec fn push_segment(stack: Seq<Seq<char>>, seg: Seq<char>) -> Seq<Seq<char>> {
    if seg.len() == 0 || seg == "."@ {
        stack
    } else if seg == ".."@ {
        if stack.len() == 0 {
            stack
        } else {
            stack.drop_last()
        }
    } else {
        stack.push(seg)
    }
}

/// The segments done so far and the segment being read, after reading
/// the characters of `s`.
pub open spec fn segment_state(s: Seq<char>) -> (Seq<Seq<char>>, Seq<char>)
    decreases s.len(),
{
    if s.len() == 0 {
        (seq![], seq![])
    } else {
        let (stack, cur) = segment_state(s.drop_last());
        if s.last() == '/' {
            (push_segment(stack, cur), seq![])
        } else {
            (stack, cur.push(s.last()))
        }
    }
}

/// Segments joined with `/`.
pub open spec fn join_segments(parts: Seq<Seq<char>>) -> Seq<char>
    decreases parts.len(),
{
    if parts.len() == 0 {
        seq![]
    } else if parts.len() == 1 {
        parts[0]
    } else {
        join_segments(parts.drop_last()) + seq!['/'] + parts.last()
    }
}

/// A part name with empty and `.` segments dropped and each `..` taking
/// back the segment before it.
pub open spec fn normalized_path(path: Seq<char>) -> Seq<char> {
    let (stack, cur) = segment_state(path);
    join_segments(push_segment(stack, cur))
}

/// Whether two character sequences are equal, as a value.
fn seq_is(a: &Vec<char>, lit: &str) -> (r: bool)
    ensures
        r == (a@ == lit@),
{
    chars_eq(a, &chars_of(lit))
}

fn push_segment_exec(stack: &mut Vec<Vec<char>>, seg: Vec<char>)
    ensures
        segs_view(final(stack)@) == push_segment(segs_view(old(stack)@), seg@),
{
    if seg.len() == 0 || seq_is(&seg, ".") {
        assert(seg.len() == 0 ==> seg@.len() == 0);
    } else if seq_is(&seg, "..") {
        if stack.len() > 0 {
            let _ = stack.pop();
            assert(segs_view(stack@) =~= segs_view(old(stack)@).drop_last());
        }
    } else {
        stack.push(seg);
        assert(segs_view(stack@) =~= segs_view(old(stack)@).push(seg@));
    }
}

/// The characters of each segment.
pub open spec fn segs_view(v: Seq<Vec<char>>) -> Seq<Seq<char>> {
    v.map_values(|s: Vec<char>| s@)
}

/// Resolves `.` and `..` segments and drops empty ones.
pub fn normalize_package_path(path: &str) -> (res: String)
    ensures
        res@ == normalized_path(path@),
{
    let chars = chars_of(path);
    let mut stack: Vec<Vec<char>> = Vec::new();
    let mut cur: Vec<char> = Vec::new();
    let mut i: usize = 0;
    while i < chars.len()
        invariant
            i <= chars@.len(),
            (segs_view(stack@), cur@) == segment_state(chars@.take(i as int)),
        decreases chars.len() - i,
    {
        assert(chars@.take(i + 1).drop_last() =~= chars@.take(i as int));
        let c = chars[i];
        if c == '/' {
            let seg = cur;
            cur = Vec::new();
            push_segment_exec(&mut stack, seg);
        } else {
            cur.push(c);
        }
        i += 1;
    }
    assert(chars@.take(chars@.len() as int) =~= chars@);
    push_segment_exec(&mut stack, cur);
    let mut out = String::new();
    let mut k: usize = 0;
    while k < stack.len()
        invariant
            k <= stack@.len(),
            out@ == join_segments(segs_view(stack@).take(k as int)),
        decreases stack.len() - k,
    {
        let ghost parts = segs_view(stack@).take(k + 1);
        assert(parts.drop_last() =~= segs_view(stack@).take(k as int));
        if k > 0 {
            push_char(&mut out, '/');
        } else {
            assert(parts.len() == 1);
        }
        let seg = &stack[k];
        append_range(&mut out, seg, 0, seg.len());
        assert(seg@.subrange(0, seg@.len() as int) =~= seg@);
        k += 1;
    }
    assert(segs_view(stack@).take(stack@.len() as int) =~= segs_view(stack@));
    out
}

/// Where a relationship `target` of part `source_part` points: absolute
/// targets are taken from the package root, relative ones from the source
/// part's folder (parts outside `ppt/` are taken to lie under it).
pub open spec fn resolved_target(source_part: Seq<char>, target: Seq<char>) -> Seq<char> {
    if has_prefix(target, "/"@) {
        normalized_path(strip_leading(target, '/'))
    } else {
        let s0 = strip_leading(source_part, '/');
        let source = if has_prefix(s0, "ppt/"@) {
            s0
        } else {
            "ppt/"@ + s0
        };
        let dir = match last_index_of(source, '/') {
            Some(i) => source.take(i),
            None => "ppt"@,
        };
        normalized_path(dir + seq!['/'] + target)
    }
}

/// Resolves a relationship target against the part it was found in.
pub fn resolve_relationship_target(source_part: &str, target: &str) -> (res: String)
    ensures
        res@ == resolved_target(source_part@, target@),
{
    let t = chars_of(target);
    if starts_with(&t, &chars_of("/")) {
        let from = skip_leading(&t, 0, t.len(), '/');
        let stripped = string_of_range(&t, from, t.len());
        assert(t@.subrange(0, t@.len() as int) =~= t@);
        return normalize_package_path(stripped.as_str());
    }
    let sp = chars_of(source_part);
    let from = skip_leading(&sp, 0, sp.len(), '/');
    assert(sp@.subrange(0, sp@.len() as int) =~= sp@);
    let s0 = string_of_range(&sp, from, sp.len());
    let s0c = chars_of(s0.as_str());
    let source = if starts_with(&s0c, &chars_of("ppt/")) {
        s0c
    } else {
        let mut with_prefix = String::from_str("ppt/");
        with_prefix.append(s0.as_str());
        chars_of(with_prefix.as_str())
    };
    let mut joined = match rfind_char(&source, source.len(), '/') {
        Some(i) => {
            assert(source@.take(source@.len() as int) =~= source@);
            string_of_range(&source, 0, i)
        },
        None => {
            assert(source@.take(source@.len() as int) =~= source@);
            String::from_str("ppt")
        },
    };
    proof {
        if let Some(i) = last_index_of(source@, '/') {
            assert(source@.subrange(0, i) =~= source@.take(i));
        }
    }
    let ghost dir = joined@;
    push_char(&mut joined, '/');
    joined.append(target);
    proof {
        let s0v = strip_leading(source_part@, '/');
        assert(s0@ == s0v);
        let spec_source = if has_prefix(s0v, "ppt/"@) {
            s0v
        } else {
            "ppt/"@ + s0v
        };
        assert(source@ == spec_source);
        let spec_dir = match last_index_of(spec_source, '/') {
            Some(i) => spec_source.take(i),
            None => "ppt"@,
        };
        assert(dir == spec_dir);
        assert(joined@ == spec_dir + seq!['/'] + target@);
        assert(!has_prefix(target@, "/"@));
    }
    normalize_package_path(joined.as_str())
}

/// The media type of a part, from its (case-folded) extension.
pub open spec fn media_type_of_path(path: Seq<char>) -> Seq<char> {
    let lower = ascii_lower(path);
    if has_suffix(lower, ".png"@) {
        "image/png"@
    } else if has_suffix(lower, ".jpg"@) || has_suffix(lower, ".jpeg"@) {
        "image/jpeg"@
    } else if has_suffix(lower, ".gif"@) {
        "image/gif"@
    } else if has_suffix(lower, ".webp"@) {
        "image/webp"@
    } else if has_suffix(lower, ".bmp"@) {
        "image/bmp"@
    } else {
        "application/octet-stream"@
    }
}

/// The media type of a part, from its extension, ignoring case.
///
/// Only ASCII letters are folded: the known extensions are ASCII, and no
/// other character lower-cases to a character that could end one of them,
/// so this agrees with a full Unicode lower-casing.
pub fn media_type_for_path(path: &str) -> (res: &'static str)
    ensures
        res@ == media_type_of_path(path@),
{
    let lower = to_ascii_lower(&chars_of(path));
    if ends_with(&lower, &chars_of(".png")) {
        "image/png"
    } else if ends_with(&lower, &chars_of(".jpg")) || ends_with(&lower, &chars_of(".jpeg")) {
        "image/jpeg"
    } else if ends_with(&lower, &chars_of(".gif")) {
        "image/gif"
    } else if ends_with(&lower, &chars_of(".webp")) {
        "image/webp"
    } else if ends_with(&lower, &chars_of(".bmp")) {
        "image/bmp"
    } else {
        "application/octet-stream"
    }
}

/// The last `/`-separated segment of a part name.
pub open spec fn last_segment(path: Seq<char>) -> Seq<char> {
    match last_index_of(path, '/') {
        Some(i) => path.skip(i + 1),
        None => path,
    }
}

/// The file name of a part: its last segment, unless that is empty.
pub fn file_name(path: &str) -> (res: Option<String>)
    ensures
        res matches Some(n) ==> n@ == last_segment(path@) && n@.len() > 0,
        res is None ==> last_segment(path@).len() == 0,
{
    let p = chars_of(path);
    let from = match rfind_char(&p, p.len(), '/') {
        Some(i) => i + 1,
        None => 0,
    };
    proof {
        assert(p@.take(p@.len() as int) =~= p@);
        match last_index_of(p@, '/') {
            Some(i) => assert(p@.subrange(i + 1, p@.len() as int) =~= p@.skip(i + 1)),
            None => assert(p@.subrange(0, p@.len() as int) =~= p@),
        }
    }
    if from == p.len() {
        return None;
    }
    Some(string_of_range(&p, from, p.len()))
}

/// The relationships part of a slide part: `ppt/{dir}/_rels/{file}.rels`.
pub open spec fn slide_rels_path(slide_target: Seq<char>) -> Seq<char> {
    let normalized = strip_leading(slide_target, '/');
    let slide_path = if has_prefix(normalized, "ppt/"@) {
        normalized.skip(4)
    } else {
        normalized
    };
    match last_index_of(slide_path, '/') {
        None => "ppt/_rels/"@ + slide_path + ".rels"@,
        Some(i) => "ppt/"@ + slide_path.take(i) + "/_rels/"@ + slide_path.skip(i + 1) + ".rels"@,
    }
}

/// The name of the relationships part of a slide part.
pub fn slide_relationships_path(slide_target: &str) -> (res: String)
    ensures
        res@ == slide_rels_path(slide_target@),
{
    let t = chars_of(slide_target);
    let from = skip_leading(&t, 0, t.len(), '/');
    assert(t@.subrange(0, t@.len() as int) =~= t@);
    let normalized = string_of_range(&t, from, t.len());
    let n = chars_of(normalized.as_str());
    let prefix = chars_of("ppt/");
    proof {
        reveal_strlit("ppt/");
    }
    let start: usize = if starts_with(&n, &prefix) {
        4
    } else {
        0
    };
    let slide_path = string_of_range(&n, start, n.len());
    let sp = chars_of(slide_path.as_str());
    proof {
        assert(n@.subrange(0, n@.len() as int) =~= n@);
        assert(n@.subrange(start as int, n@.len() as int) =~= if start == 4 {
            n@.skip(4)
        } else {
            n@
        });
    }
    match rfind_char(&sp, sp.len(), '/') {
        None => {
            assert(sp@.take(sp@.len() as int) =~= sp@);
            let mut out = String::from_str("ppt/_rels/");
            out.append(slide_path.as_str());
            out.append(".rels");
            out
        },
        Some(i) => {
            assert(sp@.take(sp@.len() as int) =~= sp@);
            let mut out = String::from_str("ppt/");
            append_range(&mut out, &sp, 0, i);
            out.append("/_rels/");
            append_range(&mut out, &sp, i + 1, sp.len());
            out.append(".rels");
            assert(sp@.subrange(0, i as int) =~= sp@.take(i as int));
            assert(sp@.subrange(i + 1, sp@.len() as int) =~= sp@.skip(i + 1));
            out
        },
    }
}

} // verus!
