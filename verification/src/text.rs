//! Text primitives over which the parsers are written: character classes, trimming,
//! searching, splitting into fields and lines, and decimal integer literals.
//!
//! Every function takes and returns string slices; its contract speaks of their
//! characters as a `Seq<char>`.

use vstd::prelude::*;
use vstd::string::StrSliceExecFns;

verus! {

/// Whether `c` counts as white space: the answer of `char::is_whitespace`.
pub uninterp spec fn is_whitespace(c: char) -> bool;

/// Whether `c` is a letter or a numeral: the answer of `char::is_alphanumeric`.
pub uninterp spec fn is_alphanumeric(c: char) -> bool;

/// Calls `char::is_whitespace`. Nothing is claimed of the answer but that it is
/// the one meant wherever a contract speaks of [`is_whitespace`].
#[verifier::external_body]
pub(crate) fn char_is_whitespace(c: char) -> (b: bool)
    ensures
        b == is_whitespace(c),
{
    c.is_whitespace()
}

/// Calls `char::is_alphanumeric`. Nothing is claimed of the answer but that it is
/// the one meant wherever a contract speaks of [`is_alphanumeric`].
#[verifier::external_body]
pub(crate) fn char_is_alphanumeric(c: char) -> (b: bool)
    ensures
        b == is_alphanumeric(c),
{
    c.is_alphanumeric()
}

/// `s` without its leading white space.
pub open spec fn trimmed_start(s: Seq<char>) -> Seq<char>
    decreases s.len(),
{
    if s.len() > 0 && is_whitespace(s.first()) {
        trimmed_start(s.drop_first())
    } else {
        s
    }
}

/// `s` without its trailing white space.
pub open spec fn trimmed_end(s: Seq<char>) -> Seq<char>
    decreases s.len(),
{
    if s.len() > 0 && is_whitespace(s.last()) {
        trimmed_end(s.drop_last())
    } else {
        s
    }
}

/// `s` without its leading and trailing white space.
pub open spec fn trimmed(s: Seq<char>) -> Seq<char> {
    trimmed_end(trimmed_start(s))
}

/// Whether `i` is the position of the first `c` in `s`.
pub open spec fn is_first_at(s: Seq<char>, c: char, i: int) -> bool {
    &&& 0 <= i < s.len()
    &&& s[i] == c
    &&& forall|j: int| 0 <= j < i ==> s[j] != c
}

/// The position of the first `c` in `s`, if `s` holds one.
pub open spec fn first_index(s: Seq<char>, c: char) -> Option<int> {
    if exists|i: int| is_first_at(s, c, i) {
        Some(choose|i: int| is_first_at(s, c, i))
    } else {
        None
    }
}

/// The fields of `s` between occurrences of `sep`: one more than there are
/// separators, empty fields included.
pub open spec fn fields(s: Seq<char>, sep: char) -> Seq<Seq<char>>
    decreases s.len(),
{
    match first_index(s, sep) {
        Some(i) => {
            proof {
                lemma_first_index_is_first(s, sep);
            }
            seq![s.subrange(0, i)] + fields(s.subrange(i + 1, s.len() as int), sep)
        },
        None => seq![s],
    }
}

/// `line` without one trailing carriage return.
pub open spec fn without_carriage_return(line: Seq<char>) -> Seq<char> {
    if line.len() > 0 && line.last() == '\r' {
        line.drop_last()
    } else {
        line
    }
}

/// The lines of `s`. A line ends at a line feed, or at the end of the text; the line
/// feed, and a carriage return directly before it, are not part of the line. A text
/// that ends with a line feed has no further, empty line after it.
pub open spec fn text_lines(s: Seq<char>) -> Seq<Seq<char>> {
    let parts = fields(s, '\n');
    let ended = parts.drop_last().map_values(|part: Seq<char>| without_carriage_return(part));
    if parts.last().len() == 0 {
        ended
    } else {
        ended.push(parts.last())
    }
}

/// What is left of `s` after `prefix`, if `s` begins with it.
pub open spec fn without_prefix(s: Seq<char>, prefix: Seq<char>) -> Option<Seq<char>> {
    if prefix.is_prefix_of(s) {
        Some(s.skip(prefix.len() as int))
    } else {
        None
    }
}

/// Whether `c` is one of the decimal digits `0` to `9`.
pub open spec fn is_digit(c: char) -> bool {
    '0' <= c <= '9'
}

/// The number that the decimal digit `c` stands for.
pub open spec fn digit_value(c: char) -> int {
    c as int - '0' as int
}

/// Whether `s` holds decimal digits only.
pub open spec fn all_digits(s: Seq<char>) -> bool {
    forall|i: int| 0 <= i < s.len() ==> is_digit(#[trigger] s[i])
}

/// The number that the decimal digits `s` write, most significant digit first.
pub open spec fn decimal_value(s: Seq<char>) -> int
    decreases s.len(),
{
    if s.len() == 0 {
        0
    } else {
        10 * decimal_value(s.drop_last()) + digit_value(s.last())
    }
}

/// The integer that `s` writes: an optional sign, `+` or `-`, and then one or more
/// decimal digits, with nothing before, between or after.
pub open spec fn integer_literal(s: Seq<char>) -> Option<int> {
    let signed = s.len() > 0 && (s[0] == '+' || s[0] == '-');
    let digits = if signed {
        s.drop_first()
    } else {
        s
    };
    if digits.len() > 0 && all_digits(digits) {
        if s[0] == '-' {
            Some(-decimal_value(digits))
        } else {
            Some(decimal_value(digits))
        }
    } else {
        None
    }
}

/// The 32-bit integer that `s` writes, if it writes an integer and that integer fits.
pub open spec fn i32_literal(s: Seq<char>) -> Option<i32> {
    match integer_literal(s) {
        Some(v) => if i32::MIN <= v <= i32::MAX {
            Some(v as i32)
        } else {
            None
        },
        None => None,
    }
}

/// Leading white space is exactly what stands before the first character that is
/// none.
pub proof fn lemma_trimmed_start(s: Seq<char>, lo: int)
    requires
        0 <= lo <= s.len(),
        forall|i: int| 0 <= i < lo ==> is_whitespace(#[trigger] s[i]),
        lo < s.len() ==> !is_whitespace(s[lo]),
    ensures
        trimmed_start(s) == s.skip(lo),
    decreases lo,
{
    if lo > 0 {
        let rest = s.drop_first();
        assert forall|i: int| 0 <= i < lo - 1 implies is_whitespace(#[trigger] rest[i]) by {
            assert(rest[i] == s[i + 1]);
        }
        lemma_trimmed_start(rest, lo - 1);
    }
}

/// Trailing white space is exactly what stands after the last character that is
/// none.
pub proof fn lemma_trimmed_end(s: Seq<char>, hi: int)
    requires
        0 <= hi <= s.len(),
        forall|i: int| hi <= i < s.len() ==> is_whitespace(#[trigger] s[i]),
        hi > 0 ==> !is_whitespace(s[hi - 1]),
    ensures
        trimmed_end(s) == s.take(hi),
    decreases s.len() - hi,
{
    if hi < s.len() {
        lemma_trimmed_end(s.drop_last(), hi);
    }
}

/// Trimming takes characters away and adds none.
pub proof fn lemma_trimmed_len(s: Seq<char>)
    ensures
        trimmed_start(s).len() <= s.len(),
        trimmed_end(s).len() <= s.len(),
        trimmed(s).len() <= s.len(),
    decreases s.len(),
{
    if s.len() > 0 {
        lemma_trimmed_len(s.drop_first());
        lemma_trimmed_len(s.drop_last());
    }
    lemma_trimmed_end_len(trimmed_start(s));
}

proof fn lemma_trimmed_end_len(s: Seq<char>)
    ensures
        trimmed_end(s).len() <= s.len(),
    decreases s.len(),
{
    if s.len() > 0 {
        lemma_trimmed_end_len(s.drop_last());
    }
}

/// What trimming at the start leaves is the text from some position on.
pub proof fn lemma_trimmed_start_is_suffix(s: Seq<char>) -> (lo: int)
    ensures
        0 <= lo <= s.len(),
        trimmed_start(s) == s.skip(lo),
    decreases s.len(),
{
    if s.len() > 0 && is_whitespace(s.first()) {
        lemma_trimmed_start_is_suffix(s.drop_first()) + 1
    } else {
        0
    }
}

/// What trimming at the end leaves is the text up to some position.
pub proof fn lemma_trimmed_end_is_prefix(s: Seq<char>) -> (hi: int)
    ensures
        0 <= hi <= s.len(),
        trimmed_end(s) == s.take(hi),
    decreases s.len(),
{
    if s.len() > 0 && is_whitespace(s.last()) {
        lemma_trimmed_end_is_prefix(s.drop_last())
    } else {
        s.len() as int
    }
}

/// What trimming leaves is a stretch of the text: every character of it is a
/// character of the text.
pub proof fn lemma_trimmed_is_subrange(s: Seq<char>) -> (bounds: (int, int))
    ensures
        0 <= bounds.0 <= bounds.1 <= s.len(),
        trimmed(s) == s.subrange(bounds.0, bounds.1),
{
    let lo = lemma_trimmed_start_is_suffix(s);
    let len = lemma_trimmed_end_is_prefix(s.skip(lo));
    (lo, lo + len)
}

/// A position that holds `c` with no `c` before it is the first index of `c`.
pub proof fn lemma_first_index_some(s: Seq<char>, c: char, i: int)
    requires
        is_first_at(s, c, i),
    ensures
        first_index(s, c) == Some(i),
{
    let k = choose|k: int| is_first_at(s, c, k);
    assert(!(k < i) && !(i < k));
}

/// A text that nowhere holds `c` has no first index of `c`.
pub proof fn lemma_first_index_none(s: Seq<char>, c: char)
    requires
        forall|j: int| 0 <= j < s.len() ==> s[j] != c,
    ensures
        first_index(s, c).is_none(),
{
}

/// What a first index is: a position of `c` with no `c` before it.
pub proof fn lemma_first_index_is_first(s: Seq<char>, c: char)
    ensures
        first_index(s, c) matches Some(i) ==> is_first_at(s, c, i),
        first_index(s, c).is_none() ==> forall|j: int| 0 <= j < s.len() ==> s[j] != c,
{
    if first_index(s, c).is_none() {
        assert forall|j: int| 0 <= j < s.len() implies s[j] != c by {
            if s[j] == c {
                lemma_some_first(s, c, j);
            }
        }
    }
}

/// Where `c` occurs at all, it occurs a first time.
proof fn lemma_some_first(s: Seq<char>, c: char, j: int)
    requires
        0 <= j < s.len(),
        s[j] == c,
    ensures
        exists|i: int| is_first_at(s, c, i),
    decreases j,
{
    if forall|k: int| 0 <= k < j ==> s[k] != c {
        assert(is_first_at(s, c, j));
    } else {
        let k = choose|k: int| 0 <= k < j && s[k] == c;
        lemma_some_first(s, c, k);
    }
}

/// A text always has at least one field.
pub proof fn lemma_fields_nonempty(s: Seq<char>, sep: char)
    ensures
        fields(s, sep).len() >= 1,
{
}

/// The characters of `s`, in order.
pub fn chars_of(s: &str) -> (cs: Vec<char>)
    ensures
        cs@ == s@,
{
    let mut cs: Vec<char> = Vec::new();
    for c in it: s.chars()
        invariant
            cs@ == s@.take(it.index() as int),
            it.seq() == s@,
    {
        cs.push(c);
    }
    cs
}

/// Whether `a` and `b` hold the same characters.
pub fn str_eq(a: &str, b: &str) -> (same: bool)
    ensures
        same == (a@ == b@),
{
    let x = chars_of(a);
    let y = chars_of(b);
    if x.len() != y.len() {
        return false;
    }
    let mut i: usize = 0;
    while i < x.len()
        invariant
            i <= x.len(),
            x.len() == y.len(),
            x@ == a@,
            y@ == b@,
            forall|j: int| 0 <= j < i ==> x@[j] == y@[j],
        decreases x.len() - i,
    {
        if x[i] != y[i] {
            return false;
        }
        i += 1;
    }
    assert(a@ =~= b@);
    true
}

/// `s` without its leading and trailing white space.
pub fn trim(s: &str) -> (t: &str)
    ensures
        t@ == trimmed(s@),
{
    let cs = chars_of(s);
    let n = cs.len();
    let mut lo: usize = 0;
    while lo < n && char_is_whitespace(cs[lo])
        invariant
            lo <= n,
            n == cs.len(),
            forall|i: int| 0 <= i < lo ==> is_whitespace(#[trigger] cs@[i]),
        decreases n - lo,
    {
        lo += 1;
    }
    let mut hi: usize = n;
    while hi > lo && char_is_whitespace(cs[hi - 1])
        invariant
            lo <= hi <= n,
            n == cs.len(),
            forall|i: int| hi <= i < n ==> is_whitespace(#[trigger] cs@[i]),
        decreases hi,
    {
        hi -= 1;
    }
    proof {
        lemma_trimmed_start(s@, lo as int);
        let rest = s@.skip(lo as int);
        assert forall|i: int| hi - lo <= i < rest.len() implies is_whitespace(
            #[trigger] rest[i],
        ) by {
            assert(rest[i] == cs@[i + lo]);
        }
        lemma_trimmed_end(rest, hi - lo);
    }
    s.substring_char(lo, hi)
}

/// The position of the first `c` in `s`, counted in characters.
pub fn find(s: &str, c: char) -> (found: Option<usize>)
    ensures
        match found {
            Some(i) => first_index(s@, c) == Some(i as int),
            None => first_index(s@, c).is_none(),
        },
{
    let cs = chars_of(s);
    let mut i: usize = 0;
    while i < cs.len()
        invariant
            i <= cs.len(),
            cs@ == s@,
            forall|j: int| 0 <= j < i ==> cs@[j] != c,
        decreases cs.len() - i,
    {
        if cs[i] == c {
            proof {
                lemma_first_index_some(s@, c, i as int);
            }
            return Some(i);
        }
        i += 1;
    }
    proof {
        lemma_first_index_none(s@, c);
    }
    None
}

/// The contents of each slice of `parts`.
pub open spec fn views(parts: Seq<&str>) -> Seq<Seq<char>> {
    parts.map_values(|part: &str| part@)
}

/// The fields of `s` between occurrences of `sep`.
pub fn split<'a>(s: &'a str, sep: char) -> (parts: Vec<&'a str>)
    ensures
        views(parts@) == fields(s@, sep),
{
    let cs = chars_of(s);
    let n = cs.len();
    let mut parts: Vec<&'a str> = Vec::new();
    let mut start: usize = 0;
    let mut i: usize = 0;
    proof {
        assert(s@.skip(0) =~= s@);
    }
    while i < n
        invariant
            start <= i <= n,
            n == cs.len(),
            cs@ == s@,
            forall|j: int| start <= j < i ==> cs@[j] != sep,
            fields(s@, sep) == views(parts@) + fields(s@.skip(start as int), sep),
        decreases n - i,
    {
        if cs[i] == sep {
            let part = s.substring_char(start, i);
            proof {
                let rest = s@.skip(start as int);
                assert(is_first_at(rest, sep, i - start)) by {
                    assert forall|j: int| 0 <= j < i - start implies rest[j] != sep by {
                        assert(rest[j] == cs@[j + start]);
                    }
                }
                lemma_first_index_some(rest, sep, i - start);
                assert(rest.subrange(0, i - start) =~= part@);
                assert(rest.subrange(i - start + 1, rest.len() as int) =~= s@.skip(i + 1));
            }
            parts.push(part);
            start = i + 1;
        }
        i += 1;
    }
    let last = s.substring_char(start, n);
    proof {
        let rest = s@.skip(start as int);
        assert forall|j: int| 0 <= j < rest.len() implies rest[j] != sep by {
            assert(rest[j] == cs@[j + start]);
        }
        lemma_first_index_none(rest, sep);
    }
    parts.push(last);
    parts
}

/// `line` without one trailing carriage return.
pub fn strip_carriage_return(line: &str) -> (stripped: &str)
    ensures
        stripped@ == without_carriage_return(line@),
{
    let cs = chars_of(line);
    let n = cs.len();
    if n > 0 && cs[n - 1] == '\r' {
        line.substring_char(0, n - 1)
    } else {
        line
    }
}

/// The lines of `s`, without their line endings.
pub fn lines<'a>(s: &'a str) -> (result: Vec<&'a str>)
    ensures
        views(result@) == text_lines(s@),
{
    let parts = split(s, '\n');
    proof {
        lemma_fields_nonempty(s@, '\n');
    }
    let n = parts.len();
    let ghost ended = views(parts@).drop_last().map_values(
        |part: Seq<char>| without_carriage_return(part),
    );
    let mut result: Vec<&'a str> = Vec::new();
    let mut i: usize = 0;
    while i < n - 1
        invariant
            i <= n - 1,
            n == parts.len(),
            n >= 1,
            ended == views(parts@).drop_last().map_values(
                |part: Seq<char>| without_carriage_return(part),
            ),
            views(result@) == ended.take(i as int),
        decreases n - i,
    {
        let line = strip_carriage_return(parts[i]);
        proof {
            assert(ended.take(i + 1) =~= ended.take(i as int).push(ended[i as int]));
        }
        result.push(line);
        i += 1;
    }
    let last = parts[n - 1];
    if !last.is_empty() {
        proof {
            assert(views(result@.push(last)) =~= views(result@).push(last@));
        }
        result.push(last);
    }
    result
}

/// What is left of `s` after `prefix`, if `s` begins with it.
pub fn strip_prefix<'a>(s: &'a str, prefix: &str) -> (rest: Option<&'a str>)
    ensures
        match rest {
            Some(r) => without_prefix(s@, prefix@) == Some(r@),
            None => without_prefix(s@, prefix@).is_none(),
        },
{
    let cs = chars_of(s);
    let ps = chars_of(prefix);
    if ps.len() > cs.len() {
        return None;
    }
    let mut i: usize = 0;
    while i < ps.len()
        invariant
            i <= ps.len() <= cs.len(),
            cs@ == s@,
            ps@ == prefix@,
            forall|j: int| 0 <= j < i ==> cs@[j] == ps@[j],
        decreases ps.len() - i,
    {
        if cs[i] != ps[i] {
            return None;
        }
        i += 1;
    }
    Some(s.substring_char(ps.len(), cs.len()))
}

/// The 32-bit integer that `s` writes in decimal, if it writes one.
pub fn parse_i32(s: &str) -> (value: Option<i32>)
    ensures
        value == i32_literal(s@),
{
    let cs = chars_of(s);
    let n = cs.len();
    let negative = n > 0 && cs[0] == '-';
    let first: usize = if n > 0 && (cs[0] == '+' || cs[0] == '-') {
        1
    } else {
        0
    };
    let ghost digits = if first == 1 {
        s@.drop_first()
    } else {
        s@
    };
    if first == n {
        return None;
    }
    let mut magnitude: i64 = 0;
    let mut i: usize = first;
    while i < n
        invariant
            first <= i <= n,
            n == cs.len(),
            cs@ == s@,
            digits == s@.skip(first as int),
            digits.len() == n - first,
            i32_literal(s@).is_some() ==> all_digits(digits) && decimal_value(digits)
                <= 0x8000_0000,
            all_digits(digits.take(i - first)),
            magnitude == decimal_value(digits.take(i - first)),
            0 <= magnitude <= 0x8000_0000,
        decreases n - i,
    {
        let c = cs[i];
        if c < '0' || c > '9' {
            proof {
                assert(!is_digit(digits[i - first]));
            }
            return None;
        }
        let digit = (c as u32 - '0' as u32) as i64;
        proof {
            assert(digits.take(i - first + 1).drop_last() =~= digits.take(i - first));
        }
        magnitude = magnitude * 10 + digit;
        i += 1;
        if magnitude > 0x8000_0000 {
            proof {
                lemma_decimal_value_grows(digits, i - first);
            }
            return None;
        }
    }
    proof {
        assert(digits.take(n - first) =~= digits);
    }
    if negative {
        Some((-magnitude) as i32)
    } else if magnitude <= 0x7fff_ffff {
        Some(magnitude as i32)
    } else {
        None
    }
}

/// Digits written after a number do not make it smaller.
pub proof fn lemma_decimal_value_grows(s: Seq<char>, k: int)
    requires
        0 <= k <= s.len(),
        all_digits(s.take(k)),
    ensures
        0 <= decimal_value(s.take(k)),
        all_digits(s) ==> decimal_value(s.take(k)) <= decimal_value(s),
    decreases s.len() - k,
{
    lemma_decimal_value_nonnegative(s.take(k));
    if k == s.len() {
        assert(s.take(k) =~= s);
    } else if all_digits(s) {
        let longer = s.take(k + 1);
        assert(longer.drop_last() =~= s.take(k));
        assert forall|i: int| 0 <= i < longer.len() implies is_digit(#[trigger] longer[i]) by {
            assert(longer[i] == s[i]);
        }
        lemma_decimal_value_grows(s, k + 1);
    }
}

/// Decimal digits write a number that is not negative.
pub proof fn lemma_decimal_value_nonnegative(s: Seq<char>)
    requires
        all_digits(s),
    ensures
        0 <= decimal_value(s),
    decreases s.len(),
{
    if s.len() > 0 {
        assert forall|i: int| 0 <= i < s.drop_last().len() implies is_digit(
            #[trigger] s.drop_last()[i],
        ) by {
            assert(s.drop_last()[i] == s[i]);
        }
        lemma_decimal_value_nonnegative(s.drop_last());
    }
}

} // verus!
