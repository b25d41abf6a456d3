//! Characters and lines of text, as the rest of the library reads them.

use vstd::prelude::*;
use vstd::slice::slice_subrange;

verus! {

/// `String::push` appends one character.
pub assume_specification[ String::push ](s: &mut String, c: char)
    ensures
        final(s)@ == old(s)@.push(c),
;

/// A text in quotes, as Rust writes it.
pub uninterp spec fn quoted(s: Seq<char>) -> Seq<char>;

/// `format!("{:?}")` of a `str` puts it in quotes and escapes what cannot stand between them.
#[verifier::external_body]
pub(crate) fn quote(s: &str) -> (r: String)
    ensures
        r@ == quoted(s@),
{
    format!("{s:?}")
}

// ---------------------------------------------------------------------------------------------
// What text is.

/// The characters with Unicode's `White_Space` property.
pub open spec fn white(c: char) -> bool {
    ||| '\u{9}' <= c <= '\u{d}'
    ||| c == ' '
    ||| c == '\u{85}'
    ||| c == '\u{a0}'
    ||| c == '\u{1680}'
    ||| '\u{2000}' <= c <= '\u{200a}'
    ||| c == '\u{2028}'
    ||| c == '\u{2029}'
    ||| c == '\u{202f}'
    ||| c == '\u{205f}'
    ||| c == '\u{3000}'
}

/// Control characters: C0, DEL and C1.
pub open spec fn control(c: char) -> bool {
    c <= '\u{1f}' || '\u{7f}' <= c <= '\u{9f}'
}

/// The lowercase form of an ASCII letter, and any other character itself.
pub open spec fn lower(c: char) -> char {
    if 'A' <= c <= 'Z' {
        (c as u32 + 32) as char
    } else {
        c
    }
}

/// Whether two texts are equal apart from the case of ASCII letters.
pub open spec fn same_letters(a: Seq<char>, b: Seq<char>) -> bool {
    a.len() == b.len() && forall|i: int| 0 <= i < a.len() ==> lower(#[trigger] a[i]) == lower(b[i])
}

/// Whether `s` starts with `p`.
pub open spec fn starts(s: Seq<char>, p: Seq<char>) -> bool {
    p.len() <= s.len() && s.take(p.len() as int) == p
}

/// Whether `s` ends with `p`.
pub open spec fn ends(s: Seq<char>, p: Seq<char>) -> bool {
    p.len() <= s.len() && s.skip(s.len() - p.len()) == p
}

/// Where `c` first occurs in `s`, or the length of `s`.
pub open spec fn find(s: Seq<char>, c: char) -> nat
    decreases s.len(),
{
    if s.len() == 0 || s[0] == c {
        0
    } else {
        1 + find(s.drop_first(), c)
    }
}

/// The position after the last `c` in `s`, or 0.
pub open spec fn after_last(s: Seq<char>, c: char) -> nat
    decreases s.len(),
{
    if s.len() == 0 {
        0
    } else if s.last() == c {
        s.len()
    } else {
        after_last(s.drop_last(), c)
    }
}

/// How often `c` occurs in `s`.
pub open spec fn count(s: Seq<char>, c: char) -> nat
    decreases s.len(),
{
    if s.len() == 0 {
        0
    } else {
        count(s.drop_last(), c) + if s.last() == c { 1nat } else { 0 }
    }
}

/// How many `c` the text `s` starts with.
pub open spec fn run(s: Seq<char>, c: char) -> nat
    decreases s.len(),
{
    if s.len() > 0 && s[0] == c {
        1 + run(s.drop_first(), c)
    } else {
        0
    }
}

/// Where the first word of `s` ends: at white space or `stop`.
pub open spec fn word_end(s: Seq<char>, stop: char) -> nat
    decreases s.len(),
{
    if s.len() == 0 || white(s[0]) || s[0] == stop {
        0
    } else {
        1 + word_end(s.drop_first(), stop)
    }
}

/// `s` without the white space at its start.
pub open spec fn trimmed_start(s: Seq<char>) -> Seq<char>
    decreases s.len(),
{
    if s.len() > 0 && white(s[0]) {
        trimmed_start(s.drop_first())
    } else {
        s
    }
}

/// `s` without the white space at its end.
pub open spec fn trimmed_end(s: Seq<char>) -> Seq<char>
    decreases s.len(),
{
    if s.len() > 0 && white(s.last()) {
        trimmed_end(s.drop_last())
    } else {
        s
    }
}

/// `s` without the white space around it.
pub open spec fn trimmed(s: Seq<char>) -> Seq<char> {
    trimmed_end(trimmed_start(s))
}

/// `s` without the `c` at its end.
pub open spec fn without_trailing(s: Seq<char>, c: char) -> Seq<char>
    decreases s.len(),
{
    if s.len() > 0 && s.last() == c {
        without_trailing(s.drop_last(), c)
    } else {
        s
    }
}

/// `s` without one carriage return at its end.
pub open spec fn without_return(s: Seq<char>) -> Seq<char> {
    if s.len() > 0 && s.last() == '\r' {
        s.drop_last()
    } else {
        s
    }
}

/// The lines of `s`, without their endings: a line feed, or a carriage return and a line feed.
/// The last line may have no ending.
pub open spec fn lines(s: Seq<char>) -> Seq<Seq<char>>
    decreases s.len(),
{
    let end = find(s, '\n');
    if s.len() == 0 {
        Seq::empty()
    } else if end < s.len() {
        seq![without_return(s.take(end as int))] + lines(s.skip(end as int + 1))
    } else {
        seq![s]
    }
}

/// The parts of `s` between occurrences of `c`.
pub open spec fn split(s: Seq<char>, c: char) -> Seq<Seq<char>>
    decreases s.len(),
{
    let end = find(s, c);
    if end < s.len() {
        seq![s.take(end as int)] + split(s.skip(end as int + 1), c)
    } else {
        seq![s]
    }
}

/// The decimal digits of `n`.
pub open spec fn decimal(n: nat) -> Seq<char>
    decreases n,
{
    if n < 10 {
        seq![(48 + n) as char]
    } else {
        decimal(n / 10).push((48 + n % 10) as char)
    }
}

/// The value of a digit in a radix up to 16.
pub open spec fn digit_value(c: char, radix: nat) -> Option<nat> {
    let v: int = if '0' <= c <= '9' {
        c as int - '0' as int
    } else if 'a' <= c <= 'f' {
        c as int - 'a' as int + 10
    } else if 'A' <= c <= 'F' {
        c as int - 'A' as int + 10
    } else {
        16
    };
    if v < radix {
        Some(v as nat)
    } else {
        None
    }
}

/// Whether every character of `s` is a digit.
pub open spec fn all_digits(s: Seq<char>, radix: nat) -> bool {
    forall|i: int| 0 <= i < s.len() ==> digit_value(#[trigger] s[i], radix) is Some
}

/// The number that digits stand for.
pub open spec fn value(s: Seq<char>, radix: nat) -> nat
    decreases s.len(),
{
    if s.len() == 0 {
        0
    } else {
        value(s.drop_last(), radix) * radix + digit_value(s.last(), radix).unwrap_or(0)
    }
}

/// The number written in `s`, up to `max`: digits, with an optional plus sign before them.
pub open spec fn number(s: Seq<char>, radix: nat, max: nat) -> Option<nat> {
    let digits = if s.len() > 0 && s[0] == '+' {
        s.drop_first()
    } else {
        s
    };
    if digits.len() > 0 && all_digits(digits, radix) && value(digits, radix) <= max {
        Some(value(digits, radix))
    } else {
        None
    }
}

// ---------------------------------------------------------------------------------------------
// Facts about text.

pub proof fn lemma_find(s: Seq<char>, c: char)
    ensures
        find(s, c) <= s.len(),
        find(s, c) < s.len() ==> s[find(s, c) as int] == c,
        forall|i: int| 0 <= i < find(s, c) ==> #[trigger] s[i] != c,
    decreases s.len(),
{
    if s.len() == 0 || s[0] == c {
    } else {
        lemma_find(s.drop_first(), c);
        assert forall|i: int| 0 <= i < find(s, c) implies #[trigger] s[i] != c by {
            if i > 0 {
                assert(s[i] == s.drop_first()[i - 1]);
            }
        }
    }
}

/// The first position that holds `c`, after positions that don't, is what `find` gives.
pub proof fn lemma_find_is(s: Seq<char>, c: char, at: int)
    requires
        0 <= at <= s.len(),
        at < s.len() ==> s[at] == c,
        forall|i: int| 0 <= i < at ==> #[trigger] s[i] != c,
    ensures
        find(s, c) == at,
{
    lemma_find(s, c);
    if find(s, c) < at {
        assert(s[find(s, c) as int] != c);
    } else if find(s, c) > at {
        assert(s[at] != c);
    }
}

pub proof fn lemma_run(s: Seq<char>, c: char)
    ensures
        run(s, c) <= s.len(),
        run(s, c) < s.len() ==> s[run(s, c) as int] != c,
        forall|i: int| 0 <= i < run(s, c) ==> #[trigger] s[i] == c,
    decreases s.len(),
{
    if s.len() > 0 && s[0] == c {
        lemma_run(s.drop_first(), c);
        assert forall|i: int| 0 <= i < run(s, c) implies #[trigger] s[i] == c by {
            if i > 0 {
                assert(s[i] == s.drop_first()[i - 1]);
            }
        }
    }
}

pub proof fn lemma_run_is(s: Seq<char>, c: char, at: int)
    requires
        0 <= at <= s.len(),
        at < s.len() ==> s[at] != c,
        forall|i: int| 0 <= i < at ==> #[trigger] s[i] == c,
    ensures
        run(s, c) == at,
{
    lemma_run(s, c);
    if run(s, c) < at {
        assert(s[run(s, c) as int] == c);
    } else if run(s, c) > at {
        assert(s[at] == c);
    }
}

/// Trimming removes a stretch at each end.
pub proof fn lemma_trimmed_start(s: Seq<char>)
    ensures
        trimmed_start(s).len() <= s.len(),
        trimmed_start(s) == s.skip(s.len() - trimmed_start(s).len()),
        trimmed_start(s).len() > 0 ==> !white(trimmed_start(s)[0]),
    decreases s.len(),
{
    if s.len() > 0 && white(s[0]) {
        lemma_trimmed_start(s.drop_first());
    }
    assert(trimmed_start(s) =~= s.skip(s.len() - trimmed_start(s).len()));
}

pub proof fn lemma_trimmed_end(s: Seq<char>)
    ensures
        trimmed_end(s).len() <= s.len(),
        trimmed_end(s) == s.take(trimmed_end(s).len() as int),
        trimmed_end(s).len() > 0 ==> !white(trimmed_end(s).last()),
    decreases s.len(),
{
    if s.len() > 0 && white(s.last()) {
        lemma_trimmed_end(s.drop_last());
    }
    assert(trimmed_end(s) =~= s.take(trimmed_end(s).len() as int));
}

/// A text is blank once trimmed exactly when all of it is white space.
pub proof fn lemma_blank(s: Seq<char>)
    ensures
        trimmed(s).len() == 0 <==> (forall|i: int| 0 <= i < s.len() ==> white(#[trigger] s[i])),
    decreases s.len(),
{
    let t = trimmed_start(s);
    lemma_trimmed_start(s);
    lemma_trimmed_end(t);
    if t.len() > 0 {
        assert(t[0] == s[s.len() - t.len()]);
        if trimmed_end(t).len() == 0 {
            lemma_trimmed_end_white(t, 0);
        }
    } else {
        lemma_trimmed_start_white(s);
    }
}

proof fn lemma_trimmed_end_white(s: Seq<char>, i: int)
    requires
        trimmed_end(s).len() <= i < s.len(),
    ensures
        white(s[i]),
    decreases s.len(),
{
    if i < s.len() - 1 {
        lemma_trimmed_end_white(s.drop_last(), i);
    }
}

proof fn lemma_trimmed_start_white(s: Seq<char>)
    ensures
        forall|i: int| 0 <= i < s.len() - trimmed_start(s).len() ==> white(#[trigger] s[i]),
    decreases s.len(),
{
    if s.len() > 0 && white(s[0]) {
        lemma_trimmed_start_white(s.drop_first());
        assert forall|i: int| 0 <= i < s.len() - trimmed_start(s).len() implies white(
            #[trigger] s[i],
        ) by {
            if i > 0 {
                assert(s[i] == s.drop_first()[i - 1]);
            }
        }
    }
}

/// More digits never make a number smaller.
proof fn lemma_value_grows(s: Seq<char>, radix: nat, k: int)
    requires
        0 <= k <= s.len(),
        radix >= 1,
    ensures
        value(s.take(k), radix) <= value(s, radix),
    decreases s.len() - k,
{
    if k == s.len() {
        assert(s.take(k) =~= s);
    } else {
        lemma_value_grows(s, radix, k + 1);
        assert(s.take(k + 1).drop_last() =~= s.take(k));
        let v = value(s.take(k), radix);
        assert(v <= v * radix) by (nonlinear_arith)
            requires
                radix >= 1,
                v >= 0,
        ;
    }
}

/// Counting goes piece by piece.
pub proof fn lemma_count_concat(a: Seq<char>, b: Seq<char>, c: char)
    ensures
        count(a + b, c) == count(a, c) + count(b, c),
    decreases b.len(),
{
    if b.len() == 0 {
        assert(a + b =~= a);
    } else {
        lemma_count_concat(a, b.drop_last(), c);
        assert((a + b).drop_last() =~= a + b.drop_last());
    }
}

pub proof fn lemma_count_bound(s: Seq<char>, c: char)
    ensures
        count(s, c) <= s.len(),
    decreases s.len(),
{
    if s.len() > 0 {
        lemma_count_bound(s.drop_last(), c);
    }
}

pub proof fn lemma_after_last(s: Seq<char>, c: char)
    ensures
        after_last(s, c) <= s.len(),
        after_last(s, c) > 0 ==> s[after_last(s, c) - 1] == c,
        forall|i: int| after_last(s, c) <= i < s.len() ==> #[trigger] s[i] != c,
    decreases s.len(),
{
    if s.len() > 0 && s.last() != c {
        lemma_after_last(s.drop_last(), c);
        assert forall|i: int| after_last(s, c) <= i < s.len() implies #[trigger] s[i] != c by {
            if i < s.len() - 1 {
                assert(s[i] == s.drop_last()[i]);
            }
        }
    }
}

pub proof fn lemma_after_last_is(s: Seq<char>, c: char, at: int)
    requires
        0 <= at <= s.len(),
        at > 0 ==> s[at - 1] == c,
        forall|i: int| at <= i < s.len() ==> #[trigger] s[i] != c,
    ensures
        after_last(s, c) == at,
{
    lemma_after_last(s, c);
    let p = after_last(s, c) as int;
    if p < at {
        assert(s[at - 1] != c);
    } else if p > at {
        assert(s[p - 1] != c);
    }
}

/// No text has more lines than characters.
pub proof fn lemma_lines_len(s: Seq<char>)
    ensures
        lines(s).len() <= s.len(),
    decreases s.len(),
{
    lemma_find(s, '\n');
    let end = find(s, '\n');
    if s.len() > 0 && end < s.len() {
        lemma_lines_len(s.skip(end as int + 1));
    }
}

// ---------------------------------------------------------------------------------------------
// Working on text.

/// Whether `c` is white space.
pub fn is_whitespace(c: char) -> (r: bool)
    ensures
        r == white(c),
{
    ('\u{9}' <= c && c <= '\u{d}') || c == ' ' || c == '\u{85}' || c == '\u{a0}' || c == '\u{1680}'
        || ('\u{2000}' <= c && c <= '\u{200a}') || c == '\u{2028}' || c == '\u{2029}'
        || c == '\u{202f}' || c == '\u{205f}' || c == '\u{3000}'
}

/// Whether `c` is a control character.
pub fn is_control(c: char) -> (r: bool)
    ensures
        r == control(c),
{
    c <= '\u{1f}' || ('\u{7f}' <= c && c <= '\u{9f}')
}

/// The lowercase form of an ASCII letter, and any other character itself.
pub fn to_lower(c: char) -> (r: char)
    ensures
        r == lower(c),
{
    if 'A' <= c && c <= 'Z' {
        (c as u8 + 32) as char
    } else {
        c
    }
}

/// The characters of `s`.
pub fn chars(s: &str) -> (v: Vec<char>)
    ensures
        v@ == s@,
{
    let mut v: Vec<char> = Vec::new();
    for c in it: s.chars()
        invariant
            v@ == s@.take(it.index()),
            it.seq() == s@,
    {
        v.push(c);
    }
    v
}

/// The text made of the characters `v`.
pub fn string(v: &[char]) -> (s: String)
    ensures
        s@ == v@,
{
    let mut s: String = String::new();
    for i in 0..v.len()
        invariant
            s@ == v@.take(i as int),
    {
        s.push(v[i]);
    }
    s
}

/// Appends the characters `v` to `s`.
pub fn push_chars(s: &mut String, v: &[char])
    ensures
        final(s)@ == old(s)@ + v@,
{
    let ghost before = s@;
    for i in 0..v.len()
        invariant
            s@ == before + v@.take(i as int),
    {
        s.push(v[i]);
    }
}

/// Appends `bytes` to `out`.
pub fn push_bytes(out: &mut Vec<u8>, bytes: &[u8])
    ensures
        final(out)@ == old(out)@ + bytes@,
{
    out.extend_from_slice(bytes);
    assert(out@ =~= old(out)@ + bytes@);
}

/// Appends `s` to `out` as UTF-8.
pub fn push_text(out: &mut Vec<u8>, s: &str)
    ensures
        final(out)@ == old(out)@ + vstd::utf8::encode_utf8(s@),
{
    push_bytes(out, s.as_bytes());
}

/// Whether two texts are equal.
pub fn same(a: &[char], b: &[char]) -> (r: bool)
    ensures
        r == (a@ == b@),
{
    if a.len() != b.len() {
        return false;
    }
    for i in 0..a.len()
        invariant
            a@.len() == b@.len(),
            forall|j: int| 0 <= j < i ==> #[trigger] a@[j] == b@[j],
    {
        if a[i] != b[i] {
            return false;
        }
    }
    assert(a@ =~= b@);
    true
}

/// Whether `a` is the text `s`.
pub fn is_text(a: &[char], s: &str) -> (r: bool)
    ensures
        r == (a@ == s@),
{
    let b = chars(s);
    same(a, &b)
}

/// Whether `a` and `b` are the same text.
pub fn str_eq(a: &str, b: &str) -> (r: bool)
    ensures
        r == (a@ == b@),
{
    let a = chars(a);
    is_text(&a, b)
}

/// Whether `a` starts with the text `s`.
pub fn starts_with(a: &[char], s: &str) -> (r: bool)
    ensures
        r == starts(a@, s@),
{
    let b = chars(s);
    if b.len() > a.len() {
        return false;
    }
    same(slice_subrange(a, 0, b.len()), &b)
}

/// Whether `a` is the text `s` apart from the case of ASCII letters.
pub fn is_text_ignoring_case(a: &[char], s: &str) -> (r: bool)
    ensures
        r == same_letters(a@, s@),
{
    let b = chars(s);
    if a.len() != b.len() {
        return false;
    }
    for i in 0..a.len()
        invariant
            a@.len() == b@.len(),
            b@ == s@,
            forall|j: int| 0 <= j < i ==> lower(#[trigger] a@[j]) == lower(b@[j]),
    {
        if to_lower(a[i]) != to_lower(b[i]) {
            return false;
        }
    }
    true
}

/// Where `c` first occurs in `s`, or the length of `s`.
pub fn position(s: &[char], c: char) -> (r: usize)
    ensures
        r == find(s@, c),
        r <= s@.len(),
{
    let mut i: usize = 0;
    while i < s.len() && s[i] != c
        invariant
            i <= s@.len(),
            forall|j: int| 0 <= j < i ==> #[trigger] s@[j] != c,
        decreases s@.len() - i,
    {
        i += 1;
    }
    proof {
        lemma_find_is(s@, c, i as int);
    }
    i
}

/// How many `c` the text `s` starts with.
pub fn leading(s: &[char], c: char) -> (r: usize)
    ensures
        r == run(s@, c),
        r <= s@.len(),
{
    let mut i: usize = 0;
    while i < s.len() && s[i] == c
        invariant
            i <= s@.len(),
            forall|j: int| 0 <= j < i ==> #[trigger] s@[j] == c,
        decreases s@.len() - i,
    {
        i += 1;
    }
    proof {
        lemma_run_is(s@, c, i as int);
    }
    i
}

/// `s` without the white space at its start.
pub fn trim_start(s: &[char]) -> (r: &[char])
    ensures
        r@ == trimmed_start(s@),
{
    let mut i: usize = 0;
    assert(s@.skip(0) =~= s@);
    while i < s.len() && is_whitespace(s[i])
        invariant
            i <= s@.len(),
            trimmed_start(s@) == trimmed_start(s@.skip(i as int)),
        decreases s@.len() - i,
    {
        assert(s@.skip(i as int).drop_first() =~= s@.skip(i + 1));
        i += 1;
    }
    assert(s@.subrange(i as int, s@.len() as int) =~= s@.skip(i as int));
    slice_subrange(s, i, s.len())
}

/// `s` without the white space at its end.
pub fn trim_end(s: &[char]) -> (r: &[char])
    ensures
        r@ == trimmed_end(s@),
{
    let mut i: usize = s.len();
    assert(s@.take(i as int) =~= s@);
    while i > 0 && is_whitespace(s[i - 1])
        invariant
            i <= s@.len(),
            trimmed_end(s@) == trimmed_end(s@.take(i as int)),
        decreases i,
    {
        assert(s@.take(i as int).drop_last() =~= s@.take(i - 1));
        i -= 1;
    }
    slice_subrange(s, 0, i)
}

/// `s` without the white space around it.
pub fn trim(s: &[char]) -> (r: &[char])
    ensures
        r@ == trimmed(s@),
{
    trim_end(trim_start(s))
}

/// `s` without the `c` at its end.
pub fn trim_trailing(s: &[char], c: char) -> (r: &[char])
    ensures
        r@ == without_trailing(s@, c),
{
    let mut i: usize = s.len();
    assert(s@.take(i as int) =~= s@);
    while i > 0 && s[i - 1] == c
        invariant
            i <= s@.len(),
            without_trailing(s@, c) == without_trailing(s@.take(i as int), c),
        decreases i,
    {
        assert(s@.take(i as int).drop_last() =~= s@.take(i - 1));
        i -= 1;
    }
    slice_subrange(s, 0, i)
}

/// `s` without one carriage return at its end.
pub fn strip_return(s: &[char]) -> (r: &[char])
    ensures
        r@ == without_return(s@),
{
    if s.len() > 0 && s[s.len() - 1] == '\r' {
        let r = slice_subrange(s, 0, s.len() - 1);
        assert(r@ =~= s@.drop_last());
        r
    } else {
        s
    }
}

/// Appends the decimal digits of `n` to `s`.
pub fn push_decimal(s: &mut String, n: u128)
    ensures
        final(s)@ == old(s)@ + decimal(n as nat),
    decreases n,
{
    if n >= 10 {
        push_decimal(s, n / 10);
    }
    let digit: u8 = 48 + (n % 10) as u8;
    s.push(digit as char);
    assert(s@ =~= old(s)@ + decimal(n as nat));
}

/// The digit's value in `radix`.
fn digit(c: char, radix: u32) -> (r: Option<u32>)
    requires
        radix <= 16,
    ensures
        r is Some <==> digit_value(c, radix as nat) is Some,
        r is Some ==> r.unwrap() == digit_value(c, radix as nat).unwrap(),
{
    let v: u32 = if '0' <= c && c <= '9' {
        c as u32 - '0' as u32
    } else if 'a' <= c && c <= 'f' {
        c as u32 - 'a' as u32 + 10
    } else if 'A' <= c && c <= 'F' {
        c as u32 - 'A' as u32 + 10
    } else {
        16
    };
    if v < radix {
        Some(v)
    } else {
        None
    }
}

/// The number written in `s`, up to `max`: digits, with an optional plus sign before them.
pub fn parse_number(s: &[char], radix: u32, max: u64) -> (r: Option<u64>)
    requires
        1 <= radix <= 16,
    ensures
        r is Some <==> number(s@, radix as nat, max as nat) is Some,
        r is Some ==> r.unwrap() == number(s@, radix as nat, max as nat).unwrap(),
{
    let digits = if s.len() > 0 && s[0] == '+' {
        let d = slice_subrange(s, 1, s.len());
        assert(d@ =~= s@.drop_first());
        d
    } else {
        s
    };
    if digits.len() == 0 {
        return None;
    }
    let mut total: u64 = 0;
    for i in 0..digits.len()
        invariant
            1 <= radix <= 16,
            digits@ == (if s@.len() > 0 && s@[0] == '+' {
                s@.drop_first()
            } else {
                s@
            }),
            total <= max,
            total == value(digits@.take(i as int), radix as nat),
            all_digits(digits@.take(i as int), radix as nat),
    {
        let ghost upto = digits@.take(i + 1);
        assert(upto.drop_last() =~= digits@.take(i as int));
        match digit(digits[i], radix) {
            None => {
                assert(digit_value(digits@[i as int], radix as nat) is None);
                return None;
            },
            Some(d) => {
                assert(total * radix <= u64::MAX * 16) by (nonlinear_arith)
                    requires
                        total <= u64::MAX,
                        radix <= 16,
                ;
                let next: u128 = total as u128 * radix as u128 + d as u128;
                assert(next == value(upto, radix as nat));
                if next > max as u128 {
                    proof {
                        lemma_value_grows(digits@, radix as nat, i + 1);
                    }
                    return None;
                }
                total = next as u64;
                assert forall|j: int| 0 <= j < upto.len() implies digit_value(
                    #[trigger] upto[j],
                    radix as nat,
                ) is Some by {
                    if j < i {
                        assert(upto[j] == digits@.take(i as int)[j]);
                    }
                }
            },
        }
    }
    assert(digits@.take(digits@.len() as int) =~= digits@);
    Some(total)
}

/// Where the first word of `s` ends.
pub fn first_word(s: &[char], stop: char) -> (r: usize)
    ensures
        r == word_end(s@, stop),
        r <= s@.len(),
{
    let mut end: usize = 0;
    assert(s@.skip(0) =~= s@);
    while end < s.len() && !is_whitespace(s[end]) && s[end] != stop
        invariant
            end <= s@.len(),
            word_end(s@, stop) == end + word_end(s@.skip(end as int), stop),
        decreases s@.len() - end,
    {
        assert(s@.skip(end as int).drop_first() =~= s@.skip(end + 1));
        end += 1;
    }
    end
}

/// Takes the first line off `s`.
pub fn first_line(s: &[char]) -> (r: (&[char], &[char]))
    requires
        s@.len() > 0,
    ensures
        lines(s@) == seq![r.0@] + lines(r.1@),
        r.1@.len() < s@.len(),
{
    let end: usize = position(s, '\n');
    if end < s.len() {
        let line = slice_subrange(s, 0, end);
        let rest = slice_subrange(s, end + 1, s.len());
        assert(line@ =~= s@.take(end as int));
        assert(rest@ =~= s@.skip(end + 1));
        (strip_return(line), rest)
    } else {
        let rest = slice_subrange(s, s.len(), s.len());
        assert(rest@ =~= Seq::<char>::empty());
        assert(seq![s@] + lines(rest@) =~= seq![s@]);
        (s, rest)
    }
}

/// The position after the last `c` in `s`, or 0.
pub fn position_after_last(s: &[char], c: char) -> (r: usize)
    ensures
        r == after_last(s@, c),
        r <= s@.len(),
{
    let mut i: usize = s.len();
    while i > 0 && s[i - 1] != c
        invariant
            i <= s@.len(),
            forall|j: int| i <= j < s@.len() ==> #[trigger] s@[j] != c,
        decreases i,
    {
        i -= 1;
    }
    proof {
        lemma_after_last_is(s@, c, i as int);
    }
    i
}

/// Whether `p` occurs in `s`.
pub open spec fn has(s: Seq<char>, p: Seq<char>) -> bool {
    exists|i: int| 0 <= i <= s.len() && starts(#[trigger] s.skip(i), p)
}

/// Whether `p` occurs in `s`.
pub fn contains(s: &[char], p: &str) -> (r: bool)
    ensures
        r == has(s@, p@),
{
    let mut i: usize = 0;
    loop
        invariant
            i <= s@.len(),
            forall|j: int| 0 <= j < i ==> !starts(#[trigger] s@.skip(j), p@),
        decreases s@.len() - i,
    {
        let rest = slice_subrange(s, i, s.len());
        assert(rest@ =~= s@.skip(i as int));
        if starts_with(rest, p) {
            return true;
        }
        if i == s.len() {
            return false;
        }
        i += 1;
    }
}

/// The characters of an optional text.
pub open spec fn optional(s: Option<String>) -> Option<Seq<char>> {
    match s {
        Some(s) => Some(s@),
        None => None,
    }
}

/// The characters of several texts.
pub open spec fn views(v: Seq<String>) -> Seq<Seq<char>> {
    v.map_values(|s: String| s@)
}

/// The characters of an optional borrowed text.
pub open spec fn optional_str(s: Option<&str>) -> Option<Seq<char>> {
    match s {
        Some(s) => Some(s@),
        None => None,
    }
}

/// A copy of an optional text.
pub fn clone_optional(s: &Option<String>) -> (r: Option<String>)
    ensures
        optional(r) == optional(*s),
{
    match s {
        Some(s) => Some(s.clone()),
        None => None,
    }
}

/// Where `p` first occurs in `s`.
pub open spec fn seek(s: Seq<char>, p: Seq<char>) -> Option<int>
    decreases s.len(),
{
    if starts(s, p) {
        Some(0)
    } else if s.len() == 0 {
        None
    } else {
        match seek(s.drop_first(), p) {
            Some(n) => Some(n + 1),
            None => None,
        }
    }
}

pub proof fn lemma_seek(s: Seq<char>, p: Seq<char>)
    ensures
        seek(s, p) matches Some(n) ==> 0 <= n && n + p.len() <= s.len() && starts(s.skip(n), p),
    decreases s.len(),
{
    if starts(s, p) {
        assert(s.skip(0) =~= s);
    } else if s.len() > 0 {
        lemma_seek(s.drop_first(), p);
        if let Some(n) = seek(s.drop_first(), p) {
            assert(s.drop_first().skip(n) =~= s.skip(n + 1));
        }
    }
}

/// Where `p` first occurs in `s`.
pub fn find_text(s: &[char], p: &str) -> (r: Option<usize>)
    ensures
        match r {
            Some(n) => seek(s@, p@) == Some(n as int) && n + p@.len() <= s@.len(),
            None => seek(s@, p@) is None,
        },
{
    let mut i: usize = 0;
    assert(s@.skip(0) =~= s@);
    loop
        invariant
            i <= s@.len(),
            match seek(s@.skip(i as int), p@) {
                Some(n) => seek(s@, p@) == Some(i + n),
                None => seek(s@, p@) is None,
            },
        decreases s@.len() - i,
    {
        let rest = slice_subrange(s, i, s.len());
        assert(rest@ =~= s@.skip(i as int));
        if starts_with(rest, p) {
            proof {
                lemma_seek(s@, p@);
            }
            return Some(i);
        }
        if i == s.len() {
            return None;
        }
        assert(rest@.drop_first() =~= s@.skip(i + 1));
        i += 1;
    }
}

/// The lines of `s`, without the line feeds that end them.
pub open spec fn raw_lines(s: Seq<char>) -> Seq<Seq<char>>
    decreases s.len(),
{
    let end = find(s, '\n');
    if s.len() == 0 {
        Seq::empty()
    } else if end < s.len() {
        seq![s.take(end as int)] + raw_lines(s.skip(end as int + 1))
    } else {
        seq![s]
    }
}

pub proof fn lemma_raw_lines_len(s: Seq<char>)
    ensures
        raw_lines(s).len() <= s.len(),
    decreases s.len(),
{
    lemma_find(s, '\n');
    let end = find(s, '\n');
    if s.len() > 0 && end < s.len() {
        lemma_raw_lines_len(s.skip(end as int + 1));
    }
}

/// The first `c` stays where it is when more text follows it.
pub proof fn lemma_find_prefix(a: Seq<char>, b: Seq<char>, c: char)
    requires
        find(a, c) < a.len(),
    ensures
        find(a + b, c) == find(a, c),
{
    lemma_find(a, c);
    let at = find(a, c) as int;
    assert forall|i: int| 0 <= i < at implies #[trigger] (a + b)[i] != c by {
        assert((a + b)[i] == a[i]);
    }
    lemma_find_is(a + b, c, at);
}

/// Lines that have ended are not changed by what follows them.
pub proof fn lemma_lines_concat(a: Seq<char>, b: Seq<char>)
    requires
        a.len() == 0 || a.last() == '\n',
    ensures
        lines(a + b) == lines(a) + lines(b),
        raw_lines(a + b) == raw_lines(a) + raw_lines(b),
    decreases a.len(),
{
    if a.len() == 0 {
        assert(a + b =~= b);
        assert(lines(a) + lines(b) =~= lines(b));
        assert(raw_lines(a) + raw_lines(b) =~= raw_lines(b));
    } else {
        lemma_find(a, '\n');
        let end = find(a, '\n') as int;
        if end == a.len() {
            assert(a[a.len() - 1] != '\n');
        }
        lemma_find_prefix(a, b, '\n');
        let rest = a.skip(end + 1);
        assert((a + b).take(end) =~= a.take(end));
        assert((a + b).skip(end + 1) =~= rest + b);
        if rest.len() > 0 {
            assert(rest.last() == a.last());
        }
        lemma_lines_concat(rest, b);
        let first = seq![without_return(a.take(end))];
        assert(first + (lines(rest) + lines(b)) =~= (first + lines(rest)) + lines(b));
        let raw = seq![a.take(end)];
        assert(raw + (raw_lines(rest) + raw_lines(b)) =~= (raw + raw_lines(rest)) + raw_lines(b));
    }
}

/// Takes the first line off `s`, without its line feed.
pub fn first_raw_line(s: &[char]) -> (r: (&[char], &[char]))
    requires
        s@.len() > 0,
    ensures
        raw_lines(s@) == seq![r.0@] + raw_lines(r.1@),
        r.1@.len() < s@.len(),
{
    let end: usize = position(s, '\n');
    if end < s.len() {
        let line = slice_subrange(s, 0, end);
        let rest = slice_subrange(s, end + 1, s.len());
        assert(line@ =~= s@.take(end as int));
        assert(rest@ =~= s@.skip(end + 1));
        (line, rest)
    } else {
        let rest = slice_subrange(s, s.len(), s.len());
        assert(rest@ =~= Seq::<char>::empty());
        assert(seq![s@] + raw_lines(rest@) =~= seq![s@]);
        (s, rest)
    }
}

/// How long the word at the start of `s` is.
pub open spec fn word_length(s: Seq<char>) -> nat
    decreases s.len(),
{
    if s.len() == 0 || white(s[0]) {
        0
    } else {
        1 + word_length(s.drop_first())
    }
}

/// The words of `s`, one space apart.
pub open spec fn collapsed(s: Seq<char>) -> Seq<char>
    decreases s.len(),
    via collapsed_decreases
{
    let start = trimmed_start(s);
    let end = word_length(start) as int;
    if start.len() == 0 {
        Seq::empty()
    } else {
        let rest = collapsed(start.skip(end));
        if rest.len() == 0 {
            start.take(end)
        } else {
            start.take(end) + seq![' '] + rest
        }
    }
}

#[via_fn]
proof fn collapsed_decreases(s: Seq<char>) {
    lemma_trimmed_start(s);
    lemma_word_length(trimmed_start(s));
}

proof fn lemma_word_length(s: Seq<char>)
    ensures
        word_length(s) <= s.len(),
        s.len() > 0 && !white(s[0]) ==> word_length(s) > 0,
    decreases s.len(),
{
    if s.len() > 0 && !white(s[0]) {
        lemma_word_length(s.drop_first());
    }
}

fn word(s: &[char]) -> (n: usize)
    ensures
        n == word_length(s@),
        n <= s@.len(),
{
    let mut n: usize = 0;
    assert(s@.skip(0) =~= s@);
    while n < s.len() && !is_whitespace(s[n])
        invariant
            n <= s@.len(),
            word_length(s@) == n + word_length(s@.skip(n as int)),
        decreases s@.len() - n,
    {
        assert(s@.skip(n as int).drop_first() =~= s@.skip(n + 1));
        n += 1;
    }
    n
}

/// What follows some words when more come.
spec fn joined_on(words: Seq<char>, rest: Seq<char>) -> Seq<char> {
    if words.len() == 0 {
        rest
    } else if rest.len() == 0 {
        words
    } else {
        words + seq![' '] + rest
    }
}

/// Collapses white space: the words of `s`, one space apart.
pub fn collapse(s: &str) -> (r: String)
    ensures
        r@ == collapsed(s@),
{
    let all = chars(s);
    let mut out: Vec<char> = Vec::new();
    let mut rest = all.as_slice();
    loop
        invariant
            joined_on(out@, collapsed(rest@)) == collapsed(s@),
        decreases rest@.len(),
    {
        let start = trim_start(rest);
        proof {
            lemma_trimmed_start(rest@);
            lemma_word_length(start@);
        }
        if start.len() == 0 {
            return string(out.as_slice());
        }
        let ghost before = out@;
        let n: usize = word(start);
        let head = slice_subrange(start, 0, n);
        let next = slice_subrange(start, n, start.len());
        if out.len() > 0 {
            out.push(' ');
        }
        extend(&mut out, head);
        proof {
            assert(head@ =~= start@.take(n as int));
            assert(next@ =~= start@.skip(n as int));
            assert(start@[0] == head@[0]);
            assert(joined_on(before, head@) =~= out@);
            let later = collapsed(next@);
            assert(joined_on(before, joined_on(head@, later)) =~= joined_on(out@, later));
        }
        rest = next;
    }
}

/// Appends characters.
fn extend(out: &mut Vec<char>, s: &[char])
    ensures
        final(out)@ == old(out)@ + s@,
{
    let ghost was = out@;
    let mut i: usize = 0;
    assert(out@ =~= was + s@.take(0));
    while i < s.len()
        invariant
            i <= s@.len(),
            out@ == was + s@.take(i as int),
        decreases s@.len() - i,
    {
        out.push(s[i]);
        i += 1;
        assert(out@ =~= was + s@.take(i as int));
    }
    assert(s@.take(s@.len() as int) =~= s@);
}

proof fn lemma_decimal(n: nat)
    ensures
        value(decimal(n), 10) == n,
        all_digits(decimal(n), 10),
        decimal(n).len() > 0,
    decreases n,
{
    let digits = decimal(n);
    if n < 10 {
        assert(digits.drop_last() =~= Seq::empty());
        assert(value(digits.drop_last(), 10) == 0);
    } else {
        lemma_decimal(n / 10);
        assert(digits.drop_last() =~= decimal(n / 10));
        assert forall|i: int| 0 <= i < digits.len() implies digit_value(
            #[trigger] digits[i],
            10,
        ) is Some by {
            if i < digits.len() - 1 {
                assert(digits[i] == decimal(n / 10)[i]);
            }
        }
    }
}

/// Numbers with the same digits are the same, also when something other than a digit follows
/// each of them.
pub proof fn lemma_same_number(a: nat, b: nat, c: char, x: Seq<char>, y: Seq<char>)
    requires
        decimal(a) + seq![c] + x == decimal(b) + seq![c] + y,
        digit_value(c, 10) is None,
    ensures
        a == b,
        x == y,
{
    lemma_decimal(a);
    lemma_decimal(b);
    let p = decimal(a) + seq![c] + x;
    let q = decimal(b) + seq![c] + y;
    let m = decimal(a).len();
    let n = decimal(b).len();
    assert(p[m as int] == c && q[n as int] == c);
    if m < n {
        assert(q[m as int] == decimal(b)[m as int]);
        assert(digit_value(decimal(b)[m as int], 10) is Some);
    }
    if n < m {
        assert(p[n as int] == decimal(a)[n as int]);
        assert(digit_value(decimal(a)[n as int], 10) is Some);
    }
    assert(decimal(a) =~= p.take(m as int));
    assert(decimal(b) =~= q.take(n as int));
    assert(x =~= p.skip(m as int + 1));
    assert(y =~= q.skip(n as int + 1));
}

/// The lines of a text.
pub fn all_lines(s: &str) -> (v: Vec<String>)
    ensures
        views(v@) == lines(s@),
{
    let v = some_lines(s, chars(s).len());
    proof {
        lemma_lines_len(s@);
        assert(lines(s@).take(lines(s@).len() as int) =~= lines(s@));
    }
    v
}

/// The first lines of a text, at most so many.
pub fn some_lines(s: &str, most: usize) -> (v: Vec<String>)
    ensures
        views(v@) == lines(s@).take(
            if most < lines(s@).len() {
                most as int
            } else {
                lines(s@).len() as int
            },
        ),
        v@.len() <= most,
{
    let all = chars(s);
    let mut rest = all.as_slice();
    let mut v: Vec<String> = Vec::new();
    let ghost whole = lines(s@);
    assert(views(v@) + lines(rest@) =~= whole);
    while rest.len() > 0 && v.len() < most
        invariant
            whole == lines(s@),
            v@.len() <= most,
            views(v@) + lines(rest@) == whole,
        decreases rest@.len(),
    {
        let ghost before = views(v@);
        let (line, next) = first_line(rest);
        v.push(string(line));
        proof {
            assert(views(v@) =~= before.push(line@));
            assert(views(v@) + lines(next@) =~= before + lines(rest@));
        }
        rest = next;
    }
    proof {
        lemma_lines_len(rest@);
        assert(whole.len() == v@.len() + lines(rest@).len());
        assert(views(v@) =~= whole.take(v@.len() as int));
    }
    v
}

// ---------------------------------------------------------------------------------------------
// What holds of text.

/// What is left of a text between two stretches of white space.
pub proof fn lemma_trimmed_is(s: Seq<char>, a: int, b: int)
    requires
        0 <= a <= b <= s.len(),
        forall|i: int| 0 <= i < a ==> white(#[trigger] s[i]),
        forall|i: int| b <= i < s.len() ==> white(#[trigger] s[i]),
        a < b ==> !white(s[a]) && !white(s[b - 1]),
    ensures
        trimmed(s) == s.subrange(a, b),
{
    if a == b {
        assert forall|i: int| 0 <= i < s.len() implies white(#[trigger] s[i]) by {}
        lemma_blank(s);
        assert(trimmed(s) =~= s.subrange(a, b));
    } else {
        let t = trimmed_start(s);
        lemma_trimmed_start(s);
        lemma_trimmed_start_white(s);
        let cut = s.len() - t.len();
        if cut < a {
            assert(t[0] == s[cut]);
            assert(white(s[cut]));
        }
        if cut > a {
            assert(white(s[a]));
        }
        lemma_trimmed_end(t);
        let e = trimmed_end(t);
        if e.len() > b - a {
            assert(e.last() == s[a + e.len() - 1]);
            assert(white(s[a + e.len() - 1]));
        }
        if e.len() < b - a {
            lemma_trimmed_end_white(t, b - a - 1);
            assert(t[b - a - 1] == s[b - 1]);
        }
        assert(e =~= s.subrange(a, b));
    }
}

/// Where what is left of a text starts and ends.
pub proof fn lemma_trimmed_at(s: Seq<char>) -> (r: (int, int))
    ensures
        0 <= r.0 <= r.1 <= s.len(),
        trimmed(s) == s.subrange(r.0, r.1),
        forall|i: int| 0 <= i < r.0 ==> white(#[trigger] s[i]),
        forall|i: int| r.1 <= i < s.len() ==> white(#[trigger] s[i]),
        r.0 < r.1 ==> !white(s[r.0]) && !white(s[r.1 - 1]),
{
    let t = trimmed_start(s);
    lemma_trimmed_start(s);
    lemma_trimmed_start_white(s);
    lemma_trimmed_end(t);
    let e = trimmed_end(t);
    let a = s.len() - t.len();
    let b = a + e.len();
    assert forall|i: int| b <= i < s.len() implies white(#[trigger] s[i]) by {
        lemma_trimmed_end_white(t, i - a);
        assert(t[i - a] == s[i]);
    }
    assert(trimmed(s) =~= s.subrange(a, b));
    (a, b)
}

/// Trimming takes off white space at both ends and nothing else: it stops at the first and the
/// last character that is none.
pub proof fn trimming_takes_white_space_off(s: Seq<char>)
    ensures
        exists|a: int, b: int|
            {
                &&& 0 <= a <= b <= s.len()
                &&& trimmed(s) == #[trigger] s.subrange(a, b)
                &&& forall|i: int| 0 <= i < a ==> white(#[trigger] s[i])
                &&& forall|i: int| b <= i < s.len() ==> white(#[trigger] s[i])
                &&& a < b ==> !white(s[a]) && !white(s[b - 1])
            },
{
    let (a, b) = lemma_trimmed_at(s);
    assert(trimmed(s) == s.subrange(a, b));
}

/// Trimming keeps every character that is not white space.
pub proof fn lemma_trimmed_keeps(s: Seq<char>, c: char)
    requires
        !white(c),
    ensures
        trimmed(s).contains(c) == s.contains(c),
{
    let (a, b) = lemma_trimmed_at(s);
    let t = trimmed(s);
    if s.contains(c) {
        let k = s.index_of(c);
        assert(s[k] == c);
        assert(a <= k < b);
        assert(t[k - a] == c);
    }
    if t.contains(c) {
        let k = t.index_of(c);
        assert(s[a + k] == t[k]);
    }
}

/// White space is what separates words: blanks, tabs and line ends are, and no character that
/// ASCII prints is.
pub proof fn white_space_prints_nothing(c: char)
    ensures
        white(' ') && white('\t') && white('\n') && white('\r'),
        '!' <= c <= '~' ==> !white(c),
{
}

/// A word ends where it is said to.
pub proof fn lemma_word_end_is(s: Seq<char>, stop: char, at: int)
    requires
        0 <= at <= s.len(),
        at < s.len() ==> white(s[at]) || s[at] == stop,
        forall|i: int| 0 <= i < at ==> !white(#[trigger] s[i]) && s[i] != stop,
    ensures
        word_end(s, stop) == at,
    decreases s.len(),
{
    if at > 0 {
        assert(!white(s[0]) && s[0] != stop);
        let rest = s.drop_first();
        assert forall|i: int| 0 <= i < at - 1 implies !white(#[trigger] rest[i]) && rest[i]
            != stop by {
            assert(rest[i] == s[i + 1]);
        }
        lemma_word_end_is(rest, stop, at - 1);
    }
}

/// The first word reaches to the first white space or stop, and no further.
pub proof fn first_words_end_at_white_space(s: Seq<char>, stop: char)
    ensures
        word_end(s, stop) <= s.len(),
        word_end(s, stop) < s.len() ==> white(s[word_end(s, stop) as int]) || s[word_end(
            s,
            stop,
        ) as int] == stop,
        forall|i: int|
            0 <= i < word_end(s, stop) ==> !white(#[trigger] s[i]) && s[i] != stop,
    decreases s.len(),
{
    if s.len() > 0 && !white(s[0]) && s[0] != stop {
        let rest = s.drop_first();
        first_words_end_at_white_space(rest, stop);
        assert forall|i: int| 0 <= i < word_end(s, stop) implies !white(#[trigger] s[i]) && s[i]
            != stop by {
            if i > 0 {
                assert(s[i] == rest[i - 1]);
            }
        }
    }
}

/// Lines that are ended by line feeds, one after another, are the lines of the text that they
/// make up.
pub proof fn lines_of_a_text_are_its_lines(all: Seq<Seq<char>>)
    requires
        forall|i: int|
            0 <= i < all.len() ==> !(#[trigger] all[i]).contains('\n') && (all[i].len() > 0
                ==> all[i].last() != '\r'),
    ensures
        lines(all.map_values(|line: Seq<char>| line.push('\n')).flatten()) == all,
    decreases all.len(),
{
    let ended = all.map_values(|line: Seq<char>| line.push('\n'));
    if all.len() == 0 {
        assert(ended.flatten() =~= Seq::empty());
        assert(lines(ended.flatten()) =~= all);
    } else {
        let line = all[0];
        let rest = all.drop_first();
        assert forall|i: int| 0 <= i < rest.len() implies !(#[trigger] rest[i]).contains('\n')
            && (rest[i].len() > 0 ==> rest[i].last() != '\r') by {
            assert(rest[i] == all[i + 1]);
        }
        lines_of_a_text_are_its_lines(rest);
        let later = rest.map_values(|line: Seq<char>| line.push('\n'));
        assert(ended.drop_first() =~= later);
        let first = line.push('\n');
        assert(ended[0] == first);
        assert(ended.flatten() =~= first + later.flatten());
        lemma_lines_concat(first, later.flatten());
        assert forall|i: int| 0 <= i < line.len() implies #[trigger] first[i] != '\n' by {
            assert(first[i] == line[i]);
            assert(line.contains(line[i]));
        }
        lemma_find_is(first, '\n', line.len() as int);
        assert(first.take(line.len() as int) =~= line);
        assert(first.skip(line.len() as int + 1) =~= Seq::empty());
        assert(without_return(first.take(line.len() as int)) == line);
        assert(lines(Seq::empty()) =~= Seq::empty());
        assert(lines(first) =~= seq![line]);
        assert(seq![line] + rest =~= all);
    }
}

/// A carriage return before a line feed belongs to the line's end.
pub proof fn line_ends_of_both_kinds_are_read_alike(line: Seq<char>, rest: Seq<char>)
    requires
        !line.contains('\n'),
        line.len() > 0 ==> line.last() != '\r',
    ensures
        lines(line + seq!['\r', '\n'] + rest) == seq![line] + lines(rest),
        lines(line + seq!['\n'] + rest) == seq![line] + lines(rest),
{
    let windows = line + seq!['\r', '\n'];
    let unix = line + seq!['\n'];
    lemma_lines_concat(windows, rest);
    lemma_lines_concat(unix, rest);
    let n = line.len() as int;
    assert forall|i: int| 0 <= i < n implies line[i] != '\n' by {
        assert(line.contains(line[i]));
    }
    lemma_find_is(windows, '\n', n + 1);
    lemma_find_is(unix, '\n', n);
    assert(windows.take(n + 1).drop_last() =~= line);
    assert(windows.skip(n + 2) =~= Seq::empty());
    assert(unix.take(n) =~= line);
    assert(unix.skip(n + 1) =~= Seq::empty());
    assert(without_return(windows.take(n + 1)) == line);
    assert(without_return(unix.take(n)) == line);
    assert(lines(Seq::empty()) =~= Seq::empty());
    assert(lines(windows) =~= seq![line]);
    assert(lines(unix) =~= seq![line]);
}

/// Numbers are written in decimal digits that read back as the number, without a sign or a
/// leading zero.
pub proof fn numbers_are_written_in_decimal(n: nat)
    ensures
        value(decimal(n), 10) == n,
        number(decimal(n), 10, n) == Some(n),
        forall|i: int| 0 <= i < decimal(n).len() ==> '0' <= #[trigger] decimal(n)[i] <= '9',
        n < 10 ==> decimal(n).len() == 1 && decimal(n)[0] as int == '0' as int + n,
        n >= 10 ==> decimal(n).len() > 1 && decimal(n)[0] != '0' && decimal(n).last() as int
            == '0' as int + n % 10 && decimal(n).drop_last() == decimal(n / 10),
    decreases n,
{
    lemma_decimal(n);
    let d = decimal(n);
    if n >= 10 {
        numbers_are_written_in_decimal(n / 10);
        assert(d.drop_last() =~= decimal(n / 10));
        assert(d[0] == decimal(n / 10)[0]);
    }
    assert forall|i: int| 0 <= i < d.len() implies '0' <= #[trigger] d[i] <= '9' by {
        assert(digit_value(d[i], 10) is Some);
    }
}

/// A search finds the first place, and says so where there is none.
pub proof fn searches_find_the_first_place(s: Seq<char>, p: Seq<char>)
    ensures
        seek(s, p) matches Some(n) ==> 0 <= n <= s.len() && starts(s.skip(n), p) && forall|i: int|
            0 <= i < n ==> !starts(#[trigger] s.skip(i), p),
        seek(s, p) is None ==> forall|i: int|
            0 <= i <= s.len() ==> !starts(#[trigger] s.skip(i), p),
    decreases s.len(),
{
    assert(s.skip(0) =~= s);
    if !starts(s, p) && s.len() > 0 {
        let rest = s.drop_first();
        searches_find_the_first_place(rest, p);
        assert forall|i: int| 1 <= i <= s.len() implies #[trigger] s.skip(i) == rest.skip(i - 1) by {
            assert(s.skip(i) =~= rest.skip(i - 1));
        }
    }
}

} // verus!
