//! Character-level string helpers shared by every module of the library.
//!
//! Strings are reasoned about through their views, `Seq<char>`; positions
//! are character positions throughout.
use vstd::prelude::*;

verus! {

/// Appends one character to a string.
///
/// Trusted: wraps `String::push`, which std documents as appending the
/// given `char` to the end of the `String`.
#[verifier::external_body]
pub(crate) fn push_char(s: &mut String, c: char)
    ensures
        final(s)@ == old(s)@.push(c),
{
    s.push(c);
}

/// The characters of a string slice, in order.
pub fn chars_of(s: &str) -> (res: Vec<char>)
    ensures
        res@ == s@,
{
    let mut res: Vec<char> = Vec::new();
    for c in it: s.chars()
        invariant
            it.seq() == s@,
            res@ == s@.take(it.index() as int),
    {
        res.push(c);
    }
    assert(s@.take(s@.len() as int) =~= s@);
    res
}

/// A string holding exactly the characters `chars[from..to]`.
pub fn string_of_range(chars: &Vec<char>, from: usize, to: usize) -> (res: String)
    requires
        from <= to <= chars@.len(),
    ensures
        res@ == chars@.subrange(from as int, to as int),
{
    let mut res = String::new();
    let mut i = from;
    while i < to
        invariant
            from <= i <= to <= chars@.len(),
            res@ == chars@.subrange(from as int, i as int),
        decreases to - i,
    {
        push_char(&mut res, chars[i]);
        assert(chars@.subrange(from as int, i + 1) =~= chars@.subrange(from as int, i as int).push(
            chars@[i as int],
        ));
        i += 1;
    }
    res
}

/// A string holding exactly the given characters.
pub fn string_of(chars: &Vec<char>) -> (res: String)
    ensures
        res@ == chars@,
{
    let res = string_of_range(chars, 0, chars.len());
    assert(chars@.subrange(0, chars@.len() as int) =~= chars@);
    res
}

/// Appends the characters `chars[from..to]` to `out`.
pub fn append_range(out: &mut String, chars: &Vec<char>, from: usize, to: usize)
    requires
        from <= to <= chars@.len(),
    ensures
        final(out)@ == old(out)@ + chars@.subrange(from as int, to as int),
{
    let mut i = from;
    while i < to
        invariant
            from <= i <= to <= chars@.len(),
            out@ == old(out)@ + chars@.subrange(from as int, i as int),
        decreases to - i,
    {
        push_char(out, chars[i]);
        assert(chars@.subrange(from as int, i + 1) =~= chars@.subrange(from as int, i as int).push(
            chars@[i as int],
        ));
        i += 1;
    }
}

/// Whether two character sequences are equal.
pub fn chars_eq(a: &Vec<char>, b: &Vec<char>) -> (res: bool)
    ensures
        res == (a@ == b@),
{
    if a.len() != b.len() {
        return false;
    }
    let mut i: usize = 0;
    while i < a.len()
        invariant
            a@.len() == b@.len(),
            i <= a@.len(),
            forall|j: int| 0 <= j < i ==> a@[j] == b@[j],
        decreases a.len() - i,
    {
        if a[i] != b[i] {
            return false;
        }
        i += 1;
    }
    assert(a@ =~= b@);
    true
}

/// Whether two string slices hold the same characters.
pub fn str_eq(a: &str, b: &str) -> (res: bool)
    ensures
        res == (a@ == b@),
{
    chars_eq(&chars_of(a), &chars_of(b))
}

/// Whether `pattern` occurs in `s` starting at position `at`.
pub open spec fn occurs_at(s: Seq<char>, pattern: Seq<char>, at: int) -> bool {
    0 <= at && at + pattern.len() <= s.len() && s.subrange(at, at + pattern.len()) == pattern
}

/// Whether `pattern` occurs at position `at` of `s`.
pub fn matches_at(s: &Vec<char>, pattern: &Vec<char>, at: usize) -> (res: bool)
    ensures
        res == occurs_at(s@, pattern@, at as int),
{
    if at > s.len() || pattern.len() > s.len() - at {
        return false;
    }
    let mut i: usize = 0;
    while i < pattern.len()
        invariant
            at + pattern@.len() <= s@.len(),
            s@.len() <= usize::MAX,
            i <= pattern@.len(),
            forall|j: int| 0 <= j < i ==> s@[at + j] == pattern@[j],
        decreases pattern.len() - i,
    {
        if s[at + i] != pattern[i] {
            assert(s@.subrange(at as int, at + pattern@.len())[i as int] != pattern@[i as int]);
            return false;
        }
        i += 1;
    }
    assert(s@.subrange(at as int, at + pattern@.len()) =~= pattern@);
    true
}

/// The first position at or after `from` where `pattern` occurs in `s`,
/// if any.
pub open spec fn first_occurrence_from(s: Seq<char>, pattern: Seq<char>, from: int) -> Option<int>
    decreases s.len() + 1 - from,
{
    if from < 0 || from + pattern.len() > s.len() {
        None
    } else if occurs_at(s, pattern, from) {
        Some(from)
    } else {
        first_occurrence_from(s, pattern, from + 1)
    }
}

/// The first position where `pattern` occurs in `s`, if any.
pub open spec fn first_occurrence(s: Seq<char>, pattern: Seq<char>) -> Option<int> {
    first_occurrence_from(s, pattern, 0)
}

/// Whether `pattern` occurs anywhere in `s`.
pub open spec fn contains_seq(s: Seq<char>, pattern: Seq<char>) -> bool {
    first_occurrence(s, pattern) is Some
}

/// What `first_occurrence_from` returns: the least position, at or after
/// `from`, at which the pattern occurs.
pub proof fn lemma_first_occurrence_from(s: Seq<char>, pattern: Seq<char>, from: int)
    requires
        0 <= from,
    ensures
        first_occurrence_from(s, pattern, from) matches Some(p) ==> from <= p && occurs_at(
            s,
            pattern,
            p,
        ) && forall|q: int| from <= q < p ==> !occurs_at(s, pattern, q),
        first_occurrence_from(s, pattern, from) is None ==> forall|q: int|
            from <= q ==> !occurs_at(s, pattern, q),
    decreases s.len() + 1 - from,
{
    if from + pattern.len() > s.len() {
    } else if occurs_at(s, pattern, from) {
    } else {
        lemma_first_occurrence_from(s, pattern, from + 1);
    }
}

/// How the tail of `x` from `at` relates to a search from `at`.
pub proof fn lemma_skip_search(x: Seq<char>, pattern: Seq<char>, at: int)
    requires
        0 <= at <= x.len(),
    ensures
        first_occurrence(x.skip(at), pattern) matches Some(p) ==> first_occurrence_from(
            x,
            pattern,
            at,
        ) == Some(at + p),
        first_occurrence(x.skip(at), pattern) is None ==> first_occurrence_from(x, pattern, at)
            is None,
{
    let t = x.skip(at);
    lemma_first_occurrence_from(t, pattern, 0);
    lemma_first_occurrence_from(x, pattern, at);
    assert forall|q: int| 0 <= q implies occurs_at(t, pattern, q) == occurs_at(x, pattern, at + q) by {
        if q + pattern.len() <= t.len() {
            assert(t.subrange(q, q + pattern.len()) =~= x.subrange(at + q, at + q + pattern.len()));
        }
    }
    match first_occurrence(t, pattern) {
        Some(p) => {
            match first_occurrence_from(x, pattern, at) {
                Some(p2) => {
                    if p2 < at + p {
                        assert(occurs_at(t, pattern, p2 - at));
                    }
                    if p2 > at + p {
                        assert(occurs_at(x, pattern, at + p));
                    }
                },
                None => {
                    assert(occurs_at(x, pattern, at + p));
                },
            }
        },
        None => {
            match first_occurrence_from(x, pattern, at) {
                Some(p2) => {
                    assert(occurs_at(t, pattern, p2 - at));
                },
                None => {},
            }
        },
    }
}

/// The first position at or after `from` where `pattern` occurs in `s`.
pub fn find_from(s: &Vec<char>, pattern: &Vec<char>, from: usize) -> (res: Option<usize>)
    ensures
        res matches Some(p) ==> first_occurrence_from(s@, pattern@, from as int) == Some(p as int),
        res is None ==> first_occurrence_from(s@, pattern@, from as int) is None,
{
    if from > s.len() || pattern.len() > s.len() - from {
        return None;
    }
    if pattern.len() == 0 {
        assert(s@.subrange(from as int, from as int) =~= pattern@);
        return Some(from);
    }
    let last = s.len() - pattern.len();
    let mut i = from;
    while i <= last
        invariant
            from <= i,
            pattern@.len() >= 1,
            last + pattern@.len() == s@.len(),
            s@.len() <= usize::MAX,
            first_occurrence_from(s@, pattern@, from as int) == first_occurrence_from(
                s@,
                pattern@,
                i as int,
            ),
        decreases last + 1 - i,
    {
        if matches_at(s, pattern, i) {
            return Some(i);
        }
        i += 1;
    }
    None
}

/// The first position where `pattern` occurs in `s`.
pub fn find(s: &Vec<char>, pattern: &Vec<char>) -> (res: Option<usize>)
    ensures
        res matches Some(p) ==> first_occurrence(s@, pattern@) == Some(p as int),
        res is None ==> first_occurrence(s@, pattern@) is None,
{
    find_from(s, pattern, 0)
}

/// Whether `pattern` occurs anywhere in `s`.
pub fn contains(s: &Vec<char>, pattern: &Vec<char>) -> (res: bool)
    ensures
        res == contains_seq(s@, pattern@),
{
    find(s, pattern).is_some()
}

/// Whether `s` starts with `prefix`.
pub open spec fn has_prefix(s: Seq<char>, prefix: Seq<char>) -> bool {
    occurs_at(s, prefix, 0)
}

/// Whether `s` ends with `suffix`.
pub open spec fn has_suffix(s: Seq<char>, suffix: Seq<char>) -> bool {
    occurs_at(s, suffix, s.len() - suffix.len())
}

/// Whether `s` starts with `prefix`.
pub fn starts_with(s: &Vec<char>, prefix: &Vec<char>) -> (res: bool)
    ensures
        res == has_prefix(s@, prefix@),
{
    matches_at(s, prefix, 0)
}

/// Whether `s` ends with `suffix`.
pub fn ends_with(s: &Vec<char>, suffix: &Vec<char>) -> (res: bool)
    ensures
        res == has_suffix(s@, suffix@),
{
    if suffix.len() > s.len() {
        return false;
    }
    matches_at(s, suffix, s.len() - suffix.len())
}

/// The decimal digit character for `d` (`0 <= d < 10`).
pub open spec fn digit_char(d: int) -> char {
    (('0' as int) + d) as char
}

/// The decimal text of a natural number, without leading zeros.
pub open spec fn decimal(n: nat) -> Seq<char>
    decreases n,
{
    if n < 10 {
        seq![digit_char(n as int)]
    } else {
        decimal(n / 10).push(digit_char((n % 10) as int))
    }
}

/// Appends the decimal text of `n` to `out`.
pub fn append_decimal(out: &mut String, n: u64)
    ensures
        final(out)@ == old(out)@ + decimal(n as nat),
    decreases n,
{
    if n >= 10 {
        append_decimal(out, n / 10);
    }
    let d = (n % 10) as u32;
    let c = char_from_digit(d);
    push_char(out, c);
    if n >= 10 {
        assert(old(out)@ + decimal(n as nat) =~= old(out)@ + decimal((n / 10) as nat) + seq![
            digit_char((n % 10) as int),
        ]);
    } else {
        assert(decimal(n as nat) =~= seq![digit_char(n as int)]);
    }
}

/// The decimal text of an integer, with a leading `-` when negative.
pub open spec fn signed_decimal(v: int) -> Seq<char> {
    if v < 0 {
        seq!['-'] + decimal((-v) as nat)
    } else {
        decimal(v as nat)
    }
}

/// Appends the decimal text of `v` to `out`.
pub fn append_signed(out: &mut String, v: i64)
    ensures
        final(out)@ == old(out)@ + signed_decimal(v as int),
{
    if v < 0 {
        push_char(out, '-');
        let magnitude: u64 = if v == i64::MIN {
            9_223_372_036_854_775_808u64
        } else {
            (-v) as u64
        };
        append_decimal(out, magnitude);
        assert(old(out)@ + signed_decimal(v as int) =~= old(out)@.push('-') + decimal(
            magnitude as nat,
        ));
    } else {
        append_decimal(out, v as u64);
    }
}

/// The character of decimal digit `d`.
fn char_from_digit(d: u32) -> (c: char)
    requires
        d < 10,
    ensures
        c == digit_char(d as int),
{
    if d == 0 {
        '0'
    } else if d == 1 {
        '1'
    } else if d == 2 {
        '2'
    } else if d == 3 {
        '3'
    } else if d == 4 {
        '4'
    } else if d == 5 {
        '5'
    } else if d == 6 {
        '6'
    } else if d == 7 {
        '7'
    } else if d == 8 {
        '8'
    } else {
        '9'
    }
}

/// ASCII lower-casing of one character; every other character is kept.
pub open spec fn ascii_lower_char(c: char) -> char {
    if 'A' <= c && c <= 'Z' {
        ((c as int) + 32) as char
    } else {
        c
    }
}

/// ASCII lower-casing of a character sequence.
pub open spec fn ascii_lower(s: Seq<char>) -> Seq<char> {
    s.map_values(|c: char| ascii_lower_char(c))
}

/// ASCII lower-casing of one character.
pub fn lower_char(c: char) -> (r: char)
    ensures
        r == ascii_lower_char(c),
{
    if 'A' <= c && c <= 'Z' {
        let v = (c as u32) + 32;
        char_from_ascii_code(v)
    } else {
        c
    }
}

/// The ASCII character with the given code (`v < 128`).
fn char_from_ascii_code(v: u32) -> (c: char)
    requires
        v < 128,
    ensures
        c as int == v as int,
{
    let b = v as u8;
    b as char
}

/// ASCII lower-casing of a character sequence.
pub fn to_ascii_lower(s: &Vec<char>) -> (r: Vec<char>)
    ensures
        r@ == ascii_lower(s@),
{
    let mut r: Vec<char> = Vec::new();
    let mut i: usize = 0;
    while i < s.len()
        invariant
            i <= s@.len(),
            r@ == ascii_lower(s@.take(i as int)),
        decreases s.len() - i,
    {
        r.push(lower_char(s[i]));
        assert(s@.take(i + 1) =~= s@.take(i as int).push(s@[i as int]));
        assert(ascii_lower(s@.take(i + 1)) =~= ascii_lower(s@.take(i as int)).push(
            ascii_lower_char(s@[i as int]),
        ));
        i += 1;
    }
    assert(s@.take(s@.len() as int) =~= s@);
    r
}

/// Whether `c` has the Unicode `White_Space` property, which is what
/// std's `char::is_whitespace` (and so `str::trim`) tests.
pub open spec fn is_white_space(c: char) -> bool {
    let v = c as int;
    ||| 0x09 <= v <= 0x0d
    ||| v == 0x20
    ||| v == 0x85
    ||| v == 0xa0
    ||| v == 0x1680
    ||| 0x2000 <= v <= 0x200a
    ||| v == 0x2028
    ||| v == 0x2029
    ||| v == 0x202f
    ||| v == 0x205f
    ||| v == 0x3000
}

/// Whether `c` is white space.
pub fn is_space_char(c: char) -> (r: bool)
    ensures
        r == is_white_space(c),
{
    let v = c as u32;
    (0x09 <= v && v <= 0x0d) || v == 0x20 || v == 0x85 || v == 0xa0 || v == 0x1680 || (0x2000
        <= v && v <= 0x200a) || v == 0x2028 || v == 0x2029 || v == 0x202f || v == 0x205f || v
        == 0x3000
}

/// Number of leading white-space characters of `s`.
pub open spec fn leading_space(s: Seq<char>) -> nat
    decreases s.len(),
{
    if s.len() > 0 && is_white_space(s[0]) {
        1 + leading_space(s.drop_first())
    } else {
        0
    }
}

/// Number of trailing white-space characters of `s`.
pub open spec fn trailing_space(s: Seq<char>) -> nat
    decreases s.len(),
{
    if s.len() > 0 && is_white_space(s.last()) {
        1 + trailing_space(s.drop_last())
    } else {
        0
    }
}

/// `s` without leading and trailing white space (what `str::trim` gives).
pub open spec fn trimmed(s: Seq<char>) -> Seq<char> {
    let start = leading_space(s) as int;
    let rest = s.subrange(start, s.len() as int);
    rest.subrange(0, rest.len() - trailing_space(rest))
}

/// Counting leading white space from the front.
proof fn lemma_leading_space_step(s: Seq<char>, i: int)
    requires
        0 <= i <= s.len(),
        forall|j: int| 0 <= j < i ==> is_white_space(s[j]),
    ensures
        leading_space(s) == i + leading_space(s.subrange(i, s.len() as int)),
    decreases i,
{
    if i > 0 {
        lemma_leading_space_step(s.drop_first(), i - 1);
        assert(s.drop_first().subrange(i - 1, s.drop_first().len() as int) =~= s.subrange(
            i,
            s.len() as int,
        ));
    } else {
        assert(s.subrange(0, s.len() as int) =~= s);
    }
}

/// Counting trailing white space from the back.
proof fn lemma_trailing_space_step(s: Seq<char>, i: int)
    requires
        0 <= i <= s.len(),
        forall|j: int| s.len() - i <= j < s.len() ==> is_white_space(s[j]),
    ensures
        trailing_space(s) == i + trailing_space(s.subrange(0, s.len() - i)),
    decreases i,
{
    if i > 0 {
        lemma_trailing_space_step(s.drop_last(), i - 1);
        assert(s.drop_last().subrange(0, s.drop_last().len() - (i - 1)) =~= s.subrange(
            0,
            s.len() - i,
        ));
    } else {
        assert(s.subrange(0, s.len() as int) =~= s);
    }
}

/// The bounds `(start, end)` of `s` without its surrounding white space.
pub fn trim_bounds(s: &Vec<char>) -> (res: (usize, usize))
    ensures
        res.0 <= res.1 <= s@.len(),
        s@.subrange(res.0 as int, res.1 as int) == trimmed(s@),
{
    let mut start: usize = 0;
    while start < s.len() && is_space_char(s[start])
        invariant
            start <= s@.len(),
            forall|j: int| 0 <= j < start ==> is_white_space(s@[j]),
        decreases s.len() - start,
    {
        start += 1;
    }
    let ghost rest = s@.subrange(start as int, s@.len() as int);
    proof {
        lemma_leading_space_step(s@, start as int);
        assert(leading_space(rest) == 0) by {
            if rest.len() > 0 {
                assert(rest[0] == s@[start as int]);
            }
        }
    }
    let mut end: usize = s.len();
    while end > start && is_space_char(s[end - 1])
        invariant
            start <= end <= s@.len(),
            rest == s@.subrange(start as int, s@.len() as int),
            forall|j: int| end <= j < s@.len() ==> is_white_space(s@[j]),
        decreases end - start,
    {
        end -= 1;
    }
    proof {
        let k = (s@.len() - end) as int;
        assert forall|j: int| rest.len() - k <= j < rest.len() implies is_white_space(rest[j]) by {
            assert(rest[j] == s@[start + j]);
        }
        lemma_trailing_space_step(rest, k);
        let inner = rest.subrange(0, rest.len() - k);
        assert(inner =~= s@.subrange(start as int, end as int));
        assert(trailing_space(inner) == 0) by {
            if inner.len() > 0 {
                assert(inner.last() == s@[end - 1]);
            }
        }
    }
    (start, end)
}

/// Whether `s` is empty once its surrounding white space is removed.
pub fn is_blank(s: &Vec<char>) -> (res: bool)
    ensures
        res == (trimmed(s@).len() == 0),
{
    let (a, b) = trim_bounds(s);
    a == b
}

/// The value of a sequence of decimal digits.
pub open spec fn digits_value(s: Seq<char>) -> int
    decreases s.len(),
{
    if s.len() == 0 {
        0
    } else {
        digits_value(s.drop_last()) * 10 + (s.last() as int - '0' as int)
    }
}

/// Whether every character is an ASCII decimal digit.
pub open spec fn all_digits(s: Seq<char>) -> bool {
    forall|i: int| 0 <= i < s.len() ==> '0' <= #[trigger] s[i] && s[i] <= '9'
}

/// What std's `str::parse::<i64>` accepts: an optional `+` or `-`, then
/// one or more ASCII digits, with a value in range.
pub open spec fn parsed_i64(s: Seq<char>) -> Option<i64> {
    let neg = s.len() > 0 && s[0] == '-';
    let body = if s.len() > 0 && (s[0] == '-' || s[0] == '+') {
        s.drop_first()
    } else {
        s
    };
    let v = if neg {
        -digits_value(body)
    } else {
        digits_value(body)
    };
    if body.len() == 0 || !all_digits(body) || v < i64::MIN || v > i64::MAX {
        None
    } else {
        Some(v as i64)
    }
}

proof fn lemma_digits_value_nonneg(s: Seq<char>)
    requires
        all_digits(s),
    ensures
        digits_value(s) >= 0,
    decreases s.len(),
{
    if s.len() > 0 {
        assert(all_digits(s.drop_last())) by {
            assert forall|i: int| 0 <= i < s.len() - 1 implies '0' <= #[trigger] s.drop_last()[i]
                && s.drop_last()[i] <= '9' by {
                assert(s.drop_last()[i] == s[i]);
            }
        }
        lemma_digits_value_nonneg(s.drop_last());
        assert('0' <= s[s.len() - 1]);
    }
}

/// Parses a decimal `i64` the way std's `str::parse::<i64>` does.
pub fn parse_i64(s: &str) -> (res: Option<i64>)
    ensures
        res == parsed_i64(s@),
{
    let c = chars_of(s);
    let n = c.len();
    let neg = n > 0 && c[0] == '-';
    let start: usize = if n > 0 && (c[0] == '-' || c[0] == '+') {
        1
    } else {
        0
    };
    let ghost body = c@.subrange(start as int, n as int);
    assert(body =~= if c@.len() > 0 && (c@[0] == '-' || c@[0] == '+') {
        c@.drop_first()
    } else {
        c@
    });
    if start == n {
        return None;
    }
    let limit: u128 = 0x8000_0000_0000_0000u128;
    let mut acc: u128 = 0;
    let mut over = false;
    let mut i = start;
    while i < n
        invariant
            start <= i <= n == c@.len(),
            body == c@.subrange(start as int, n as int),
            all_digits(c@.subrange(start as int, i as int)),
            !over ==> acc as int == digits_value(c@.subrange(start as int, i as int)) && acc
                <= limit,
            over ==> digits_value(c@.subrange(start as int, i as int)) > limit,
            limit == 0x8000_0000_0000_0000u128,
            c@ == s@,
            !all_digits(body) ==> parsed_i64(s@) is None,
        decreases n - i,
    {
        let d = c[i];
        let ghost prev = c@.subrange(start as int, i as int);
        let ghost next = c@.subrange(start as int, i + 1);
        assert(next.drop_last() =~= prev);
        assert(next.last() == d);
        if d < '0' || d > '9' {
            proof {
                assert(!all_digits(body)) by {
                    assert(body[i - start] == d);
                }
            }
            return None;
        }
        assert(all_digits(next)) by {
            assert forall|j: int| 0 <= j < next.len() implies '0' <= #[trigger] next[j] && next[j]
                <= '9' by {
                if j < next.len() - 1 {
                    assert(next[j] == prev[j]);
                }
            }
        }
        proof {
            lemma_digits_value_nonneg(prev);
        }
        let dv = (d as u32 - '0' as u32) as u128;
        if !over {
            let v = acc * 10 + dv;
            if v > limit {
                over = true;
            } else {
                acc = v;
            }
        }
        i += 1;
    }
    assert(c@.subrange(start as int, n as int) == body);
    if over {
        return None;
    }
    if neg {
        proof {
            assert(c@[0] == '-');
        }
        if acc == limit {
            Some(i64::MIN)
        } else {
            Some(-(acc as i64))
        }
    } else {
        if acc >= limit {
            None
        } else {
            Some(acc as i64)
        }
    }
}

/// What std's `str::to_uppercase` gives for a string: its Unicode
/// upper-case mapping.
pub uninterp spec fn unicode_upper(s: Seq<char>) -> Seq<char>;

/// Upper-cases a string.
///
/// Trusted: calls `str::to_uppercase`. The Unicode case mapping takes
/// pages to state, so its result is only named: it depends on the
/// characters of the argument alone.
#[verifier::external_body]
pub(crate) fn to_upper(s: &str) -> (r: String)
    ensures
        r@ == unicode_upper(s@),
{
    s.to_uppercase()
}

/// The number of leading `c` characters of `s`.
pub open spec fn leading_count(s: Seq<char>, c: char) -> nat
    decreases s.len(),
{
    if s.len() > 0 && s[0] == c {
        1 + leading_count(s.drop_first(), c)
    } else {
        0
    }
}

/// `s` without its leading `c` characters (what `trim_start_matches(c)`
/// gives).
pub open spec fn strip_leading(s: Seq<char>, c: char) -> Seq<char> {
    s.skip(leading_count(s, c) as int)
}

proof fn lemma_leading_count_step(s: Seq<char>, c: char, i: int)
    requires
        0 <= i <= s.len(),
        forall|j: int| 0 <= j < i ==> s[j] == c,
    ensures
        leading_count(s, c) == i + leading_count(s.skip(i), c),
    decreases i,
{
    if i > 0 {
        lemma_leading_count_step(s.drop_first(), c, i - 1);
        assert(s.drop_first().skip(i - 1) =~= s.skip(i));
    } else {
        assert(s.skip(0) =~= s);
    }
}

/// The position of the first character of `chars[from..to]` that is not
/// `c`, or `to`.
pub fn skip_leading(chars: &Vec<char>, from: usize, to: usize, c: char) -> (res: usize)
    requires
        from <= to <= chars@.len(),
    ensures
        from <= res <= to,
        chars@.subrange(res as int, to as int) == strip_leading(
            chars@.subrange(from as int, to as int),
            c,
        ),
{
    let mut i = from;
    while i < to && chars[i] == c
        invariant
            from <= i <= to <= chars@.len(),
            forall|j: int| from <= j < i ==> chars@[j] == c,
        decreases to - i,
    {
        i += 1;
    }
    proof {
        let t = chars@.subrange(from as int, to as int);
        let k = i - from;
        lemma_leading_count_step(t, c, k);
        assert(t.skip(k) =~= chars@.subrange(i as int, to as int));
        if i < to {
            assert(t.skip(k)[0] == chars@[i as int]);
        }
        assert(leading_count(t.skip(k), c) == 0);
    }
    i
}

/// Whether the view of a string is all ASCII hexadecimal digits.
pub open spec fn is_hex_char(c: char) -> bool {
    ('0' <= c && c <= '9') || ('a' <= c && c <= 'f') || ('A' <= c && c <= 'F')
}

/// Whether `c` is an ASCII hexadecimal digit.
pub fn hex_char(c: char) -> (r: bool)
    ensures
        r == is_hex_char(c),
{
    ('0' <= c && c <= '9') || ('a' <= c && c <= 'f') || ('A' <= c && c <= 'F')
}

} // verus!
