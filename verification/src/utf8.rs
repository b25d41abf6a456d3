//! Decoding of bytes that may be cut off or not be UTF-8 at all.

use vstd::prelude::*;
use vstd::slice::slice_subrange;

verus! {

/// `char::from_u32` gives the character with a code, for every code but the surrogates and
/// those past `10FFFF`.
pub assume_specification[ char::from_u32 ](code: u32) -> (c: Option<char>)
    ensures
        c is Some <==> (code < 0xd800 || 0xe000 <= code <= 0x10ffff),
        c is Some ==> c.unwrap() as u32 == code,
;

/// What stands in place of bytes that are not UTF-8.
pub const REPLACEMENT: char = '\u{fffd}';

/// What some bytes start with.
pub enum Piece {
    /// A character and how many bytes it takes.
    Scalar(char, usize),
    /// So many bytes that belong to no character.
    Bad(usize),
    /// The start of a character that is cut off.
    Short,
}

/// What some bytes are as a whole.
#[derive(Clone, Copy, Debug, PartialEq, Eq, Structural)]
pub enum Check {
    /// UTF-8.
    Valid,
    /// Not UTF-8, whatever follows.
    Invalid,
    /// UTF-8 up to a character that is cut off.
    Short,
}

/// How many bytes a character takes that starts with `first`, or 0 when none does.
pub open spec fn need(first: u8) -> nat {
    if first < 0x80 {
        1
    } else if 0xc2 <= first <= 0xdf {
        2
    } else if 0xe0 <= first <= 0xef {
        3
    } else if 0xf0 <= first <= 0xf4 {
        4
    } else {
        0
    }
}

/// Whether `second` can follow `first` in a character: some leading bytes leave out overlong
/// forms, surrogates, and codes past the last character.
pub open spec fn second_fits(first: u8, second: u8) -> bool {
    if first == 0xe0 {
        0xa0 <= second <= 0xbf
    } else if first == 0xed {
        0x80 <= second <= 0x9f
    } else if first == 0xf0 {
        0x90 <= second <= 0xbf
    } else if first == 0xf4 {
        0x80 <= second <= 0x8f
    } else {
        0x80 <= second <= 0xbf
    }
}

/// How many bytes fit the character that `bytes` starts with.
pub open spec fn fitting(bytes: Seq<u8>) -> nat {
    let n = need(bytes[0]);
    if n < 2 || bytes.len() < 2 || !second_fits(bytes[0], bytes[1]) {
        1
    } else if n < 3 || bytes.len() < 3 || !(0x80 <= bytes[2] <= 0xbf) {
        2
    } else if n < 4 || bytes.len() < 4 || !(0x80 <= bytes[3] <= 0xbf) {
        3
    } else {
        4
    }
}

/// The code of the character that `bytes` starts with.
pub open spec fn code(bytes: Seq<u8>) -> int {
    let n = need(bytes[0]);
    if n == 1 {
        bytes[0] as int
    } else if n == 2 {
        (bytes[0] - 0xc0) * 0x40 + (bytes[1] - 0x80)
    } else if n == 3 {
        (bytes[0] - 0xe0) * 0x1000 + (bytes[1] - 0x80) * 0x40 + (bytes[2] - 0x80)
    } else {
        (bytes[0] - 0xf0) * 0x40000 + (bytes[1] - 0x80) * 0x1000 + (bytes[2] - 0x80) * 0x40 + (
        bytes[3] - 0x80)
    }
}

/// What `bytes` starts with.
#[verifier::opaque]
pub open spec fn first(bytes: Seq<u8>) -> Piece {
    let n = need(bytes[0]);
    let fit = fitting(bytes);
    if n == 0 {
        Piece::Bad(1)
    } else if fit == n {
        Piece::Scalar(code(bytes) as char, n as usize)
    } else if fit == bytes.len() {
        Piece::Short
    } else {
        Piece::Bad(fit as usize)
    }
}

/// What `bytes` is as a whole.
pub open spec fn checked(bytes: Seq<u8>) -> Check
    decreases bytes.len(),
{
    if bytes.len() == 0 {
        Check::Valid
    } else {
        match first(bytes) {
            Piece::Scalar(c, n) => if 0 < n <= bytes.len() {
                checked(bytes.skip(n as int))
            } else {
                Check::Invalid
            },
            Piece::Bad(n) => Check::Invalid,
            Piece::Short => Check::Short,
        }
    }
}

/// The characters of `bytes`, with one [`REPLACEMENT`] for each run of bytes that belongs to
/// no character.
pub open spec fn decoded(bytes: Seq<u8>) -> Seq<char>
    decreases bytes.len(),
{
    if bytes.len() == 0 {
        Seq::empty()
    } else {
        match first(bytes) {
            Piece::Scalar(c, n) => if 0 < n <= bytes.len() {
                seq![c] + decoded(bytes.skip(n as int))
            } else {
                Seq::empty()
            },
            Piece::Bad(n) => if 0 < n <= bytes.len() {
                seq![REPLACEMENT] + decoded(bytes.skip(n as int))
            } else {
                Seq::empty()
            },
            Piece::Short => seq![REPLACEMENT],
        }
    }
}

/// How much of `bytes` can be decoded before more arrives: all of it, unless it is UTF-8 up to
/// a character that is cut off.
pub open spec fn settled(bytes: Seq<u8>) -> nat
    decreases bytes.len(),
{
    if bytes.len() == 0 {
        0
    } else {
        match first(bytes) {
            Piece::Scalar(c, n) => if 0 < n <= bytes.len() {
                n as nat + settled(bytes.skip(n as int))
            } else {
                bytes.len()
            },
            Piece::Bad(n) => bytes.len(),
            Piece::Short => 0,
        }
    }
}

// ---------------------------------------------------------------------------------------------
// Facts about pieces.

proof fn lemma_code(bytes: Seq<u8>)
    requires
        bytes.len() > 0,
        need(bytes[0]) > 0,
        fitting(bytes) == need(bytes[0]),
    ensures
        need(bytes[0]) <= bytes.len(),
        0 <= code(bytes) <= 0x10ffff,
        code(bytes) < 0xd800 || 0xe000 <= code(bytes),
        vstd::utf8::valid_first_scalar(bytes),
        vstd::utf8::decode_first_scalar(bytes) == code(bytes),
        vstd::utf8::length_of_first_scalar(bytes) == need(bytes[0]),
{
    let a = bytes[0];
    if need(a) == 1 {
        assert((a & 0x7f) as u32 == a) by (bit_vector)
            requires
                a < 0x80,
        ;
    } else if need(a) == 2 {
        let b = bytes[1];
        assert(((a & 0x1f) as u32) << 6 | (b & 0x3f) as u32 == (a - 0xc0) * 0x40 + (b - 0x80))
            by (bit_vector)
            requires
                0xc0 <= a <= 0xdf,
                0x80 <= b <= 0xbf,
        ;
    } else if need(a) == 3 {
        let b = bytes[1];
        let c = bytes[2];
        assert(((a & 0x0f) as u32) << 12 | ((b & 0x3f) as u32) << 6 | (c & 0x3f) as u32 == (a
            - 0xe0) * 0x1000 + (b - 0x80) * 0x40 + (c - 0x80)) by (bit_vector)
            requires
                0xe0 <= a <= 0xef,
                0x80 <= b <= 0xbf,
                0x80 <= c <= 0xbf,
        ;
    } else {
        let b = bytes[1];
        let c = bytes[2];
        let d = bytes[3];
        assert(((a & 0x07) as u32) << 18 | ((b & 0x3f) as u32) << 12 | ((c & 0x3f) as u32) << 6 | (d
            & 0x3f) as u32 == (a - 0xf0) * 0x40000 + (b - 0x80) * 0x1000 + (c - 0x80) * 0x40 + (d
            - 0x80)) by (bit_vector)
            requires
                0xf0 <= a <= 0xf7,
                0x80 <= b <= 0xbf,
                0x80 <= c <= 0xbf,
                0x80 <= d <= 0xbf,
        ;
    }
}

proof fn lemma_valid_first(bytes: Seq<u8>)
    requires
        bytes.len() > 0,
        vstd::utf8::valid_first_scalar(bytes),
    ensures
        need(bytes[0]) > 0,
        fitting(bytes) == need(bytes[0]),
{
    let a = bytes[0];
    if 0xc0 <= a <= 0xdf {
        let b = bytes[1];
        assert(0x80 <= ((a & 0x1f) as u32) << 6 | (b & 0x3f) as u32 ==> a >= 0xc2) by (bit_vector)
            requires
                0xc0 <= a <= 0xdf,
                0x80 <= b <= 0xbf,
        ;
    } else if 0xe0 <= a <= 0xef {
        let b = bytes[1];
        let c = bytes[2];
        let v = ((a & 0x0f) as u32) << 12 | ((b & 0x3f) as u32) << 6 | (c & 0x3f) as u32;
        assert(v == (a - 0xe0) * 0x1000 + (b - 0x80) * 0x40 + (c - 0x80)) by (bit_vector)
            requires
                0xe0 <= a <= 0xef,
                0x80 <= b <= 0xbf,
                0x80 <= c <= 0xbf,
                v == ((a & 0x0f) as u32) << 12 | ((b & 0x3f) as u32) << 6 | (c & 0x3f) as u32,
        ;
    } else if a >= 0xf0 {
        let b = bytes[1];
        let c = bytes[2];
        let d = bytes[3];
        let v = ((a & 0x07) as u32) << 18 | ((b & 0x3f) as u32) << 12 | ((c & 0x3f) as u32) << 6
            | (d & 0x3f) as u32;
        assert(v == (a - 0xf0) * 0x40000 + (b - 0x80) * 0x1000 + (c - 0x80) * 0x40 + (d - 0x80))
            by (bit_vector)
            requires
                0xf0 <= a <= 0xf7,
                0x80 <= b <= 0xbf,
                0x80 <= c <= 0xbf,
                0x80 <= d <= 0xbf,
                v == ((a & 0x07) as u32) << 18 | ((b & 0x3f) as u32) << 12 | ((c & 0x3f) as u32)
                    << 6 | (d & 0x3f) as u32,
        ;
    }
}

/// What the pieces of some bytes can be.
pub proof fn lemma_first(bytes: Seq<u8>)
    requires
        bytes.len() > 0,
    ensures
        first(bytes) matches Piece::Scalar(c, n) ==> 0 < n <= bytes.len() && n <= 4,
        first(bytes) matches Piece::Bad(n) ==> 0 < n <= bytes.len() && n <= 3,
        first(bytes) is Short ==> bytes.len() <= 3,
{
    reveal(first);
    if need(bytes[0]) > 0 && fitting(bytes) == need(bytes[0]) {
        lemma_code(bytes);
    }
}

/// What follows a whole piece does not change it.
proof fn lemma_first_prefix(a: Seq<u8>, b: Seq<u8>)
    requires
        a.len() > 0,
        !(first(a) is Short),
    ensures
        first(a + b) == first(a),
{
    reveal(first);
    let ab = a + b;
    assert(forall|i: int| 0 <= i < a.len() ==> ab[i] == a[i]);
}

pub proof fn lemma_settled(bytes: Seq<u8>)
    ensures
        settled(bytes) <= bytes.len(),
        bytes.len() > 0 ==> bytes.len() - settled(bytes) <= 3,
    decreases bytes.len(),
{
    if bytes.len() > 0 {
        lemma_first(bytes);
        if let Piece::Scalar(c, n) = first(bytes) {
            lemma_settled(bytes.skip(n as int));
        }
    }
}

// ---------------------------------------------------------------------------------------------
// Laws.

/// On UTF-8, decoding gives the encoded characters, and nothing is left out or replaced.
pub proof fn utf8_is_decoded(bytes: Seq<u8>)
    ensures
        (checked(bytes) == Check::Valid) == vstd::utf8::valid_utf8(bytes),
        vstd::utf8::valid_utf8(bytes) ==> decoded(bytes) == vstd::utf8::decode_utf8(bytes),
    decreases bytes.len(),
{
    if bytes.len() > 0 {
        reveal(first);
        lemma_first(bytes);
        if need(bytes[0]) > 0 && fitting(bytes) == need(bytes[0]) {
            lemma_code(bytes);
            let n = need(bytes[0]) as int;
            assert(vstd::utf8::pop_first_scalar(bytes) =~= bytes.skip(n));
            utf8_is_decoded(bytes.skip(n));
        } else if vstd::utf8::valid_first_scalar(bytes) {
            lemma_valid_first(bytes);
        }
    }
}

/// Decoding in two steps, holding back a character that is cut off, gives what decoding all at
/// once gives, as long as the bytes are UTF-8 or UTF-8 up to a character that is cut off.
pub proof fn decoding_in_steps(a: Seq<u8>, b: Seq<u8>)
    requires
        checked(a + b) != Check::Invalid,
    ensures
        checked(a) != Check::Invalid,
        decoded(a + b) == decoded(a.take(settled(a) as int)) + decoded(
            a.skip(settled(a) as int) + b,
        ),
        checked(a.skip(settled(a) as int) + b) == checked(a + b),
        settled(a + b) == settled(a) + settled(a.skip(settled(a) as int) + b),
    decreases a.len(),
{
    lemma_settled(a);
    if a.len() == 0 {
        assert(a.skip(0) + b =~= a + b);
        assert(a.take(0) =~= a);
        assert(decoded(a.take(0)) + decoded(a + b) =~= decoded(a + b));
    } else {
        lemma_first(a);
        match first(a) {
            Piece::Scalar(c, n) => {
                let rest = a.skip(n as int);
                let k = settled(rest) as int;
                lemma_first_prefix(a, b);
                assert((a + b).skip(n as int) =~= rest + b);
                decoding_in_steps(rest, b);
                lemma_settled(rest);
                let head = a.take(n + k);
                assert(a.skip(n + k) =~= rest.skip(k));
                assert(head.skip(n as int) =~= rest.take(k));
                assert(a =~= head + a.skip(n + k));
                lemma_head(a, n + k);
                assert(seq![c] + (decoded(rest.take(k)) + decoded(rest.skip(k) + b)) =~= (seq![c]
                    + decoded(rest.take(k))) + decoded(rest.skip(k) + b));
            },
            Piece::Bad(n) => {
                lemma_first_prefix(a, b);
            },
            Piece::Short => {
                assert(a.skip(0) + b =~= a + b);
                assert(a.take(0) =~= Seq::<u8>::empty());
                assert(decoded(a.take(0)) + decoded(a + b) =~= decoded(a + b));
            },
        }
    }
}

/// A whole piece is the same when what follows is cut off behind it.
proof fn lemma_head(a: Seq<u8>, m: int)
    requires
        a.len() > 0,
        first(a) matches Piece::Scalar(c, n) && n <= m <= a.len(),
    ensures
        first(a.take(m)) == first(a),
{
    reveal(first);
    lemma_first(a);
    assert(forall|i: int| 0 <= i < m ==> a.take(m)[i] == a[i]);
}

/// Bytes that are UTF-8 decode the same whatever follows them.
pub proof fn lemma_valid_concat(a: Seq<u8>, b: Seq<u8>)
    requires
        checked(a) == Check::Valid,
    ensures
        decoded(a + b) == decoded(a) + decoded(b),
        checked(a + b) == checked(b),
        settled(a + b) == a.len() + settled(b),
    decreases a.len(),
{
    if a.len() == 0 {
        assert(a + b =~= b);
        assert(decoded(a) + decoded(b) =~= decoded(b));
    } else {
        lemma_first(a);
        lemma_first_prefix(a, b);
        if let Piece::Scalar(c, n) = first(a) {
            let rest = a.skip(n as int);
            assert((a + b).skip(n as int) =~= rest + b);
            lemma_valid_concat(rest, b);
            assert(seq![c] + (decoded(rest) + decoded(b)) =~= (seq![c] + decoded(rest)) + decoded(
                b,
            ));
        }
    }
}

/// What can be decoded before more arrives is UTF-8, unless something is not.
pub proof fn lemma_settled_valid(bytes: Seq<u8>)
    requires
        checked(bytes) != Check::Invalid,
    ensures
        checked(bytes.take(settled(bytes) as int)) == Check::Valid,
    decreases bytes.len(),
{
    lemma_settled(bytes);
    let k = settled(bytes) as int;
    if bytes.len() > 0 {
        lemma_first(bytes);
        if let Piece::Scalar(c, n) = first(bytes) {
            let rest = bytes.skip(n as int);
            lemma_settled(rest);
            lemma_settled_valid(rest);
            lemma_head(bytes, k);
            assert(bytes.take(k).skip(n as int) =~= rest.take(k - n));
        }
    }
}

/// A NUL is a character of its own, and ends one that is cut off.
pub proof fn lemma_nul(a: Seq<u8>, b: Seq<u8>)
    ensures
        decoded(a + seq![0u8] + b) == decoded(a) + seq!['\0'] + decoded(b),
    decreases a.len(),
{
    let all = a + seq![0u8] + b;
    if a.len() == 0 {
        assert(all[0] == 0);
        assert(first(all) == Piece::Scalar('\0', 1)) by {
            reveal(first);
        }
        assert(all.skip(1) =~= b);
        assert(decoded(a) + seq!['\0'] + decoded(b) =~= seq!['\0'] + decoded(b));
    } else {
        lemma_first(a);
        lemma_first(all);
        match first(a) {
            Piece::Scalar(c, n) => {
                let rest = a.skip(n as int);
                assert(all =~= a + (seq![0u8] + b));
                lemma_first_prefix(a, seq![0u8] + b);
                assert(all.skip(n as int) =~= rest + seq![0u8] + b);
                lemma_nul(rest, b);
                assert(seq![c] + (decoded(rest) + seq!['\0'] + decoded(b)) =~= (seq![c] + decoded(
                    rest,
                )) + seq!['\0'] + decoded(b));
            },
            Piece::Bad(n) => {
                let rest = a.skip(n as int);
                assert(all =~= a + (seq![0u8] + b));
                lemma_first_prefix(a, seq![0u8] + b);
                assert(all.skip(n as int) =~= rest + seq![0u8] + b);
                lemma_nul(rest, b);
                let r = seq![REPLACEMENT];
                assert(r + (decoded(rest) + seq!['\0'] + decoded(b)) =~= (r + decoded(rest))
                    + seq!['\0'] + decoded(b));
            },
            Piece::Short => {
                let n = a.len() as int;
                assert(first(all) == Piece::Bad(n as usize)) by {
                    reveal(first);
                    assert(forall|i: int| 0 <= i < n ==> all[i] == a[i]);
                    assert(all[n] == 0);
                }
                let none = Seq::<u8>::empty();
                assert(all.skip(n) =~= none + seq![0u8] + b);
                lemma_nul(none, b);
                let r = seq![REPLACEMENT];
                assert(r + (decoded(none) + seq!['\0'] + decoded(b)) =~= r + seq!['\0'] + decoded(
                    b,
                ));
            },
        }
    }
}

/// Only a NUL byte is a NUL character.
pub proof fn lemma_no_nul(bytes: Seq<u8>)
    requires
        forall|i: int| 0 <= i < bytes.len() ==> #[trigger] bytes[i] != 0,
    ensures
        forall|i: int| 0 <= i < decoded(bytes).len() ==> #[trigger] decoded(bytes)[i] != '\0',
    decreases bytes.len(),
{
    if bytes.len() > 0 {
        lemma_first(bytes);
        assert(bytes[0] != 0);
        match first(bytes) {
            Piece::Scalar(c, n) => {
                assert(c != '\0') by {
                    reveal(first);
                    lemma_code(bytes);
                }
                let rest = bytes.skip(n as int);
                assert forall|i: int| 0 <= i < rest.len() implies #[trigger] rest[i] != 0 by {
                    assert(bytes[i + n] != 0);
                }
                lemma_no_nul(rest);
                assert(decoded(bytes) == seq![c] + decoded(rest));
                assert forall|i: int| 0 <= i < decoded(bytes).len() implies #[trigger] decoded(
                    bytes,
                )[i] != '\0' by {
                    if i > 0 {
                        assert(decoded(bytes)[i] == decoded(rest)[i - 1]);
                    }
                }
            },
            Piece::Bad(n) => {
                let rest = bytes.skip(n as int);
                assert forall|i: int| 0 <= i < rest.len() implies #[trigger] rest[i] != 0 by {
                    assert(bytes[i + n] != 0);
                }
                lemma_no_nul(rest);
                assert(decoded(bytes) == seq![REPLACEMENT] + decoded(rest));
                assert forall|i: int| 0 <= i < decoded(bytes).len() implies #[trigger] decoded(
                    bytes,
                )[i] != '\0' by {
                    if i > 0 {
                        assert(decoded(bytes)[i] == decoded(rest)[i - 1]);
                    }
                }
            },
            Piece::Short => {},
        }
    }
}

// ---------------------------------------------------------------------------------------------
// Decoding.

/// What `bytes` starts with.
pub fn piece(bytes: &[u8]) -> (r: Piece)
    requires
        bytes@.len() > 0,
    ensures
        r == first(bytes@),
{
    reveal(first);
    let len: usize = bytes.len();
    let a = bytes[0];
    let n: usize = if a < 0x80 {
        1
    } else if 0xc2 <= a && a <= 0xdf {
        2
    } else if 0xe0 <= a && a <= 0xef {
        3
    } else if 0xf0 <= a && a <= 0xf4 {
        4
    } else {
        0
    };
    if n == 0 {
        return Piece::Bad(1);
    }
    let mut fit: usize = 1;
    let mut code: u32 = if n == 1 {
        a as u32
    } else if n == 2 {
        a as u32 - 0xc0
    } else if n == 3 {
        a as u32 - 0xe0
    } else {
        a as u32 - 0xf0
    };
    if n >= 2 && len >= 2 && fits_second(a, bytes[1]) {
        fit = 2;
        code = code * 0x40 + (bytes[1] as u32 - 0x80);
        if n >= 3 && len >= 3 && 0x80 <= bytes[2] && bytes[2] <= 0xbf {
            fit = 3;
            code = code * 0x40 + (bytes[2] as u32 - 0x80);
            if n >= 4 && len >= 4 && 0x80 <= bytes[3] && bytes[3] <= 0xbf {
                fit = 4;
                code = code * 0x40 + (bytes[3] as u32 - 0x80);
            }
        }
    }
    if fit == n {
        proof {
            lemma_code(bytes@);
            assert(code == self::code(bytes@));
        }
        match char::from_u32(code) {
            Some(c) => {
                proof {
                    vstd::utf8::char_u32_cast(c, code);
                }
                Piece::Scalar(c, n)
            },
            None => Piece::Short,
        }
    } else if fit == len {
        Piece::Short
    } else {
        Piece::Bad(fit)
    }
}

fn fits_second(first: u8, second: u8) -> (r: bool)
    ensures
        r == second_fits(first, second),
{
    if first == 0xe0 {
        0xa0 <= second && second <= 0xbf
    } else if first == 0xed {
        0x80 <= second && second <= 0x9f
    } else if first == 0xf0 {
        0x90 <= second && second <= 0xbf
    } else if first == 0xf4 {
        0x80 <= second && second <= 0x8f
    } else {
        0x80 <= second && second <= 0xbf
    }
}

/// What `bytes` is as a whole.
pub fn check(bytes: &[u8]) -> (r: Check)
    ensures
        r == checked(bytes@),
{
    let mut rest = bytes;
    while rest.len() > 0
        invariant
            checked(bytes@) == checked(rest@),
        decreases rest@.len(),
    {
        proof {
            lemma_first(rest@);
        }
        match piece(rest) {
            Piece::Scalar(_, n) => {
                let next = slice_subrange(rest, n, rest.len());
                assert(next@ =~= rest@.skip(n as int));
                rest = next;
            },
            Piece::Bad(_) => {
                return Check::Invalid;
            },
            Piece::Short => {
                return Check::Short;
            },
        }
    }
    Check::Valid
}

/// The characters of `bytes`, with [`REPLACEMENT`] for what is not UTF-8.
pub fn decode(bytes: &[u8]) -> (r: Vec<char>)
    ensures
        r@ == decoded(bytes@),
{
    let mut out: Vec<char> = Vec::new();
    let mut rest = bytes;
    assert(out@ + decoded(bytes@) =~= decoded(bytes@));
    while rest.len() > 0
        invariant
            decoded(bytes@) == out@ + decoded(rest@),
        decreases rest@.len(),
    {
        proof {
            lemma_first(rest@);
        }
        let ghost before = out@;
        let (c, n): (char, usize) = match piece(rest) {
            Piece::Scalar(c, n) => (c, n),
            Piece::Bad(n) => (REPLACEMENT, n),
            Piece::Short => (REPLACEMENT, rest.len()),
        };
        let next = slice_subrange(rest, n, rest.len());
        out.push(c);
        proof {
            assert(next@ =~= rest@.skip(n as int));
            assert(decoded(rest@) =~= seq![c] + decoded(next@));
            assert(before + (seq![c] + decoded(next@)) =~= out@ + decoded(next@));
        }
        rest = next;
    }
    assert(out@ + decoded(rest@) =~= out@);
    out
}

/// How much of `bytes` can be decoded before more arrives.
pub fn whole(bytes: &[u8]) -> (r: usize)
    ensures
        r == settled(bytes@),
        r <= bytes@.len(),
{
    let mut at: usize = 0;
    assert(bytes@.skip(0) =~= bytes@);
    while at < bytes.len()
        invariant
            at <= bytes@.len(),
            settled(bytes@) == at + settled(bytes@.skip(at as int)),
        decreases bytes@.len() - at,
    {
        let rest = slice_subrange(bytes, at, bytes.len());
        proof {
            assert(rest@ =~= bytes@.skip(at as int));
            lemma_first(rest@);
        }
        match piece(rest) {
            Piece::Scalar(_, n) => {
                assert(rest@.skip(n as int) =~= bytes@.skip(at + n));
                at += n;
            },
            Piece::Bad(_) => {
                return bytes.len();
            },
            Piece::Short => {
                return at;
            },
        }
    }
    at
}

// ---------------------------------------------------------------------------------------------
// How much room characters take.

/// How many bytes a character takes.
pub open spec fn width(c: char) -> nat {
    if (c as u32) < 0x80 {
        1
    } else if (c as u32) < 0x800 {
        2
    } else if (c as u32) < 0x10000 {
        3
    } else {
        4
    }
}

/// How many characters at the start of `text` fit in so many bytes.
pub open spec fn chars_within(text: Seq<char>, bytes: nat) -> nat
    decreases text.len(),
{
    if text.len() == 0 || width(text[0]) > bytes {
        0
    } else {
        1 + chars_within(text.drop_first(), (bytes - width(text[0])) as nat)
    }
}

/// The characters that fit in so many bytes take up no more, and the next one does not fit.
pub proof fn characters_fit_their_bytes(text: Seq<char>, bytes: nat)
    ensures
        chars_within(text, bytes) <= text.len(),
        ({
            let n = chars_within(text, bytes) as int;
            &&& vstd::utf8::encode_utf8(text.take(n)).len() <= bytes
            &&& n < text.len() ==> bytes < vstd::utf8::encode_utf8(text.take(n + 1)).len()
        }),
    decreases text.len(),
{
    let n = chars_within(text, bytes) as int;
    if text.len() > 0 {
        let rest = text.drop_first();
        assert(vstd::utf8::encode_scalar(text[0] as u32).len() == width(text[0])) by {
            vstd::utf8::char_is_scalar(text[0]);
        }
        if width(text[0]) <= bytes {
            characters_fit_their_bytes(rest, (bytes - width(text[0])) as nat);
            assert(text.take(n).drop_first() =~= rest.take(n - 1));
            if n < text.len() {
                assert(text.take(n + 1).drop_first() =~= rest.take(n));
            }
        } else {
            assert(text.take(1).drop_first() =~= Seq::<char>::empty());
        }
    }
}

/// How many characters at the start of `text` fit in so many bytes.
pub fn count_within(text: &[char], bytes: usize) -> (r: usize)
    ensures
        r == chars_within(text@, bytes as nat),
        r <= text@.len(),
{
    let mut i: usize = 0;
    let mut left: usize = bytes;
    assert(text@.skip(0) =~= text@);
    while i < text.len()
        invariant
            i <= text@.len(),
            chars_within(text@, bytes as nat) == i + chars_within(
                text@.skip(i as int),
                left as nat,
            ),
        decreases text@.len() - i,
    {
        let c = text[i];
        let n: usize = if (c as u32) < 0x80 {
            1
        } else if (c as u32) < 0x800 {
            2
        } else if (c as u32) < 0x10000 {
            3
        } else {
            4
        };
        if n > left {
            return i;
        }
        assert(text@.skip(i as int).drop_first() =~= text@.skip(i + 1));
        left -= n;
        i += 1;
    }
    i
}

} // verus!
