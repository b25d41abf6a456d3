//! The terminal: what it sends, what it understands, and how images are shown in it.

pub mod diacritics;
pub mod graphics;
pub mod input;
pub mod kitty;
pub mod probe;
pub mod reports;

use vstd::prelude::*;
use vstd::slice::slice_subrange;

use crate::text;

verus! {

/// Whether `needle` stands in `bytes` at `at`.
pub open spec fn stands_at(bytes: Seq<u8>, needle: Seq<u8>, at: int) -> bool {
    0 <= at && at + needle.len() <= bytes.len() && bytes.subrange(at, at + needle.len()) == needle
}

/// Whether `at` is where `needle` first stands in `bytes`.
pub open spec fn first_at(bytes: Seq<u8>, needle: Seq<u8>, at: int) -> bool {
    stands_at(bytes, needle, at) && forall|i: int|
        0 <= i < at ==> !#[trigger] stands_at(bytes, needle, i)
}

/// Whether `needle` stands anywhere in `bytes`.
pub open spec fn occurs(bytes: Seq<u8>, needle: Seq<u8>) -> bool {
    exists|i: int| stands_at(bytes, needle, i)
}

/// Where `needle` first stands in `bytes`, when it occurs.
pub open spec fn index_of(bytes: Seq<u8>, needle: Seq<u8>) -> int {
    choose|i: int| first_at(bytes, needle, i)
}

/// The start of a graphics sequence: `ESC _ G`.
pub open spec fn graphics_start() -> Seq<u8> {
    seq![0x1b, 0x5f, 0x47]
}

/// The end of a string sequence: `ESC \`.
pub open spec fn string_end() -> Seq<u8> {
    seq![0x1b, 0x5c]
}

/// The start of tmux's passthrough escape: `ESC P tmux;`.
pub open spec fn tmux_start() -> Seq<u8> {
    seq![0x1b, 0x50, 0x74, 0x6d, 0x75, 0x78, 0x3b]
}

/// `bytes` with every ESC doubled.
pub open spec fn doubled(bytes: Seq<u8>) -> Seq<u8>
    decreases bytes.len(),
{
    if bytes.len() == 0 {
        Seq::empty()
    } else if bytes.last() == 0x1b {
        doubled(bytes.drop_last()).push(0x1b).push(0x1b)
    } else {
        doubled(bytes.drop_last()).push(bytes.last())
    }
}

/// `bytes` with each graphics sequence in tmux's passthrough escape.
pub open spec fn wrapped(bytes: Seq<u8>) -> Seq<u8>
    decreases bytes.len(),
{
    let start = index_of(bytes, graphics_start());
    let rest = bytes.skip(start);
    let end = start + index_of(rest, string_end()) + 2;
    if !occurs(bytes, graphics_start()) || !occurs(rest, string_end()) || !(0 <= start < end
        <= bytes.len()) {
        bytes
    } else {
        bytes.take(start) + tmux_start() + doubled(bytes.subrange(start, end)) + string_end()
            + wrapped(bytes.skip(end))
    }
}

proof fn lemma_index(bytes: Seq<u8>, needle: Seq<u8>, at: int)
    requires
        first_at(bytes, needle, at),
    ensures
        occurs(bytes, needle),
        index_of(bytes, needle) == at,
{
    let i = index_of(bytes, needle);
    assert(first_at(bytes, needle, i));
    if i < at {
        assert(!stands_at(bytes, needle, i));
    } else if at < i {
        assert(!stands_at(bytes, needle, at));
    }
}

/// Where `needle` first stands in `haystack`.
fn find(haystack: &[u8], needle: &[u8]) -> (r: Option<usize>)
    requires
        needle@.len() > 0,
    ensures
        match r {
            Some(i) => first_at(haystack@, needle@, i as int) && occurs(haystack@, needle@)
                && index_of(haystack@, needle@) == i,
            None => !occurs(haystack@, needle@),
        },
{
    let mut i: usize = 0;
    while i < haystack.len() && needle.len() <= haystack.len() - i
        invariant
            i <= haystack@.len(),
            needle@.len() > 0,
            forall|j: int| 0 <= j < i ==> !#[trigger] stands_at(haystack@, needle@, j),
        decreases haystack@.len() - i,
    {
        if same(slice_subrange(haystack, i, i + needle.len()), needle) {
            proof {
                assert(stands_at(haystack@, needle@, i as int));
                lemma_index(haystack@, needle@, i as int);
            }
            return Some(i);
        }
        assert(!stands_at(haystack@, needle@, i as int));
        i += 1;
    }
    None
}

fn same(a: &[u8], b: &[u8]) -> (r: bool)
    ensures
        r == (a@ == b@),
{
    if a.len() != b.len() {
        return false;
    }
    let mut i: usize = 0;
    while i < a.len()
        invariant
            i <= a@.len(),
            a@.len() == b@.len(),
            forall|j: int| 0 <= j < i ==> a@[j] == b@[j],
        decreases a@.len() - i,
    {
        if a[i] != b[i] {
            return false;
        }
        i += 1;
    }
    assert(a@ =~= b@);
    true
}

/// Wraps each `ESC _ G … ESC \` sequence in tmux's `ESC P tmux; … ESC \`, doubling its escapes.
pub fn passthrough(bytes: &[u8]) -> (r: Vec<u8>)
    ensures
        r@ == wrapped(bytes@),
{
    let start_mark: [u8; 3] = [0x1b, 0x5f, 0x47];
    let end_mark: [u8; 2] = [0x1b, 0x5c];
    let tmux_mark: [u8; 7] = [0x1b, 0x50, 0x74, 0x6d, 0x75, 0x78, 0x3b];
    assert(start_mark@ =~= graphics_start());
    assert(end_mark@ =~= string_end());
    assert(tmux_mark@ =~= tmux_start());
    let mut out: Vec<u8> = Vec::new();
    let mut rest = bytes;
    assert(out@ + wrapped(bytes@) =~= wrapped(bytes@));
    loop
        invariant
            start_mark@ == graphics_start(),
            end_mark@ == string_end(),
            tmux_mark@ == tmux_start(),
            wrapped(bytes@) == out@ + wrapped(rest@),
        decreases rest@.len(),
    {
        let start: usize = match find(rest, &start_mark) {
            Some(start) => start,
            None => {
                text::push_bytes(&mut out, rest);
                return out;
            },
        };
        let tail = slice_subrange(rest, start, rest.len());
        assert(tail@ =~= rest@.skip(start as int));
        let length: usize = match find(tail, &end_mark) {
            Some(length) => length,
            None => {
                text::push_bytes(&mut out, rest);
                return out;
            },
        };
        let end: usize = start + length + 2;
        let ghost before = out@;
        let next = slice_subrange(rest, end, rest.len());
        text::push_bytes(&mut out, slice_subrange(rest, 0, start));
        text::push_bytes(&mut out, &tmux_mark);
        push_doubled(&mut out, slice_subrange(rest, start, end));
        text::push_bytes(&mut out, &end_mark);
        proof {
            assert(next@ =~= rest@.skip(end as int));
            assert(rest@.subrange(0, start as int) =~= rest@.take(start as int));
            assert(out@ + wrapped(next@) =~= before + wrapped(rest@));
        }
        rest = next;
    }
}

fn push_doubled(out: &mut Vec<u8>, bytes: &[u8])
    ensures
        final(out)@ == old(out)@ + doubled(bytes@),
{
    let ghost was = out@;
    let mut i: usize = 0;
    assert(out@ =~= was + doubled(bytes@.take(0)));
    while i < bytes.len()
        invariant
            i <= bytes@.len(),
            out@ == was + doubled(bytes@.take(i as int)),
        decreases bytes@.len() - i,
    {
        let byte = bytes[i];
        if byte == 0x1b {
            out.push(0x1b);
        }
        out.push(byte);
        i += 1;
        proof {
            assert(bytes@.take(i as int).drop_last() =~= bytes@.take(i - 1));
            assert(out@ =~= was + doubled(bytes@.take(i as int)));
        }
    }
    assert(bytes@.take(bytes@.len() as int) =~= bytes@);
}

/// Output as the terminal gets it.
pub open spec fn prepared(bytes: Seq<u8>, tmux: bool) -> Seq<u8> {
    if tmux {
        wrapped(bytes)
    } else {
        bytes
    }
}

/// Output prepared for the terminal: inside tmux, graphics sequences are wrapped for passthrough.
pub fn for_terminal(bytes: &[u8], tmux: bool) -> (r: Vec<u8>)
    ensures
        r@ == prepared(bytes@, tmux),
{
    if tmux {
        passthrough(bytes)
    } else {
        let mut out: Vec<u8> = Vec::new();
        text::push_bytes(&mut out, bytes);
        assert(out@ =~= bytes@);
        out
    }
}

/// Doubling loses nothing: bytes that are doubled to the same are the same.
pub proof fn doubling_can_be_undone(a: Seq<u8>, b: Seq<u8>)
    requires
        doubled(a) == doubled(b),
    ensures
        a == b,
    decreases a.len(),
{
    lemma_doubled(a);
    lemma_doubled(b);
    if a.len() > 0 && b.len() > 0 {
        let x = doubled(a);
        let y = doubled(b);
        assert(x.last() == a.last() && y.last() == b.last());
        if a.last() == 0x1b {
            assert(x.drop_last().drop_last() =~= doubled(a.drop_last()));
            assert(y.drop_last().drop_last() =~= doubled(b.drop_last()));
        } else {
            assert(x.drop_last() =~= doubled(a.drop_last()));
            assert(y.drop_last() =~= doubled(b.drop_last()));
        }
        doubling_can_be_undone(a.drop_last(), b.drop_last());
        assert(a =~= a.drop_last().push(a.last()));
        assert(b =~= b.drop_last().push(b.last()));
    }
}

proof fn lemma_doubled(a: Seq<u8>)
    ensures
        doubled(a).len() >= a.len(),
    decreases a.len(),
{
    if a.len() > 0 {
        lemma_doubled(a.drop_last());
    }
}

proof fn lemma_doubled_first(byte: u8, rest: Seq<u8>)
    ensures
        doubled(seq![byte] + rest) == (if byte == 0x1b {
            seq![byte, byte]
        } else {
            seq![byte]
        }) + doubled(rest),
    decreases rest.len(),
{
    let all = seq![byte] + rest;
    if rest.len() == 0 {
        assert(all.drop_last() =~= Seq::empty());
        assert(doubled(all.drop_last()) =~= Seq::empty());
        assert(doubled(rest) =~= Seq::empty());
    } else {
        lemma_doubled_first(byte, rest.drop_last());
        assert(all.drop_last() =~= seq![byte] + rest.drop_last());
    }
    assert(doubled(all) =~= (if byte == 0x1b {
        seq![byte, byte]
    } else {
        seq![byte]
    }) + doubled(rest));
}

/// What tmux makes of what follows the start of its passthrough escape: what the escape holds,
/// and what follows it.
pub open spec fn passed(bytes: Seq<u8>) -> Option<(Seq<u8>, Seq<u8>)>
    decreases bytes.len(),
{
    if bytes.len() == 0 {
        None
    } else if bytes[0] != 0x1b {
        match passed(bytes.skip(1)) {
            Some((held, rest)) => Some((seq![bytes[0]] + held, rest)),
            None => None,
        }
    } else if bytes.len() >= 2 && bytes[1] == 0x1b {
        match passed(bytes.skip(2)) {
            Some((held, rest)) => Some((seq![0x1bu8] + held, rest)),
            None => None,
        }
    } else if bytes.len() >= 2 && bytes[1] == 0x5c {
        Some((Seq::empty(), bytes.skip(2)))
    } else {
        None
    }
}

/// `bytes` with what each of tmux's passthrough escapes holds in its place.
pub open spec fn unwrapped(bytes: Seq<u8>) -> Seq<u8>
    decreases bytes.len(),
{
    let at = index_of(bytes, tmux_start());
    if !occurs(bytes, tmux_start()) || !(0 <= at <= bytes.len() - 7) {
        bytes
    } else {
        match passed(bytes.skip(at + 7)) {
            Some((held, rest)) if rest.len() < bytes.len() => bytes.take(at) + held + unwrapped(
                rest,
            ),
            _ => bytes,
        }
    }
}

proof fn lemma_passed(held: Seq<u8>, rest: Seq<u8>)
    ensures
        passed(doubled(held) + string_end() + rest) == Some((held, rest)),
    decreases held.len(),
{
    let all = doubled(held) + string_end() + rest;
    if held.len() == 0 {
        assert(doubled(held) =~= Seq::empty());
        assert(all[0] == 0x1b && all[1] == 0x5c);
        assert(all.skip(2) =~= rest);
        assert(held =~= Seq::empty());
    } else {
        let more = held.skip(1);
        lemma_passed(more, rest);
        lemma_doubled_first(held[0], more);
        assert(seq![held[0]] + more =~= held);
        let later = doubled(more) + string_end() + rest;
        if held[0] == 0x1b {
            assert(all =~= seq![held[0], held[0]] + later);
            assert(all.skip(2) =~= later);
        } else {
            assert(all =~= seq![held[0]] + later);
            assert(all.skip(1) =~= later);
        }
    }
}

/// What stands somewhere stands somewhere first.
proof fn lemma_first(bytes: Seq<u8>, needle: Seq<u8>, at: int)
    requires
        stands_at(bytes, needle, at),
    ensures
        first_at(bytes, needle, index_of(bytes, needle)),
        index_of(bytes, needle) <= at,
    decreases at,
{
    if exists|i: int| 0 <= i < at && stands_at(bytes, needle, i) {
        let i = choose|i: int| 0 <= i < at && stands_at(bytes, needle, i);
        lemma_first(bytes, needle, i);
    } else {
        assert(first_at(bytes, needle, at));
        lemma_index(bytes, needle, at);
    }
}

/// What does not occur in bytes does not occur in what follows some of them.
proof fn lemma_not_later(bytes: Seq<u8>, needle: Seq<u8>, from: int)
    requires
        !occurs(bytes, needle),
        0 <= from <= bytes.len(),
    ensures
        !occurs(bytes.skip(from), needle),
{
    if occurs(bytes.skip(from), needle) {
        let i = choose|i: int| stands_at(bytes.skip(from), needle, i);
        assert(bytes.subrange(from + i, from + i + needle.len()) =~= bytes.skip(from).subrange(
            i,
            i + needle.len(),
        ));
        assert(stands_at(bytes, needle, from + i));
    }
}

/// The mark has its only ESC at its start.
proof fn lemma_mark_bytes(k: int)
    requires
        1 <= k < 7,
    ensures
        tmux_start()[k] != 0x1b,
        tmux_start()[0] == 0x1b,
        tmux_start().len() == 7,
{
}

/// What stands in front of a mark and reaches into it is no mark.
proof fn lemma_no_overlap(before: Seq<u8>, mark: Seq<u8>, after: Seq<u8>, i: int)
    requires
        mark.len() == 7,
        mark[0] == 0x1b,
        forall|k: int| 1 <= k < 7 ==> #[trigger] mark[k] != 0x1b,
        0 <= i < before.len(),
        stands_at(before + mark + after, mark, i),
    ensures
        stands_at(before, mark, i),
{
    let out = before + mark + after;
    let n = before.len() as int;
    let found = out.subrange(i, i + 7);
    assert(found == mark);
    if i + 7 <= n {
        assert(before.subrange(i, i + 7) =~= found);
    } else {
        assert(found[n - i] == out[n]);
        assert(out[n] == mark[0]);
        assert(mark[n - i] != 0x1b);
    }
}

/// Where bytes without a passthrough escape are followed by one, it starts right behind them.
proof fn lemma_mark(before: Seq<u8>, mark: Seq<u8>, after: Seq<u8>)
    requires
        mark == tmux_start(),
        !occurs(before, mark),
    ensures
        occurs(before + mark + after, mark),
        index_of(before + mark + after, mark) == before.len(),
{
    let out = before + mark + after;
    let n = before.len() as int;
    assert forall|k: int| 1 <= k < 7 implies #[trigger] mark[k] != 0x1b by {
        lemma_mark_bytes(k);
    }
    lemma_mark_bytes(1);
    assert(out.subrange(n, n + 7) =~= mark);
    assert(stands_at(out, mark, n));
    assert forall|i: int| 0 <= i < n implies !#[trigger] stands_at(out, mark, i) by {
        if stands_at(out, mark, i) {
            lemma_no_overlap(before, mark, after, i);
        }
    }
    assert(first_at(out, mark, n));
    lemma_index(out, mark, n);
}

proof fn lemma_unwrapped(before: Seq<u8>, held: Seq<u8>, rest: Seq<u8>)
    requires
        !occurs(before, tmux_start()),
    ensures
        unwrapped(before + tmux_start() + (doubled(held) + string_end() + rest)) == before + held
            + unwrapped(rest),
{
    let after = doubled(held) + string_end() + rest;
    let out = before + tmux_start() + after;
    lemma_mark(before, tmux_start(), after);
    lemma_passed(held, rest);
    assert(out.skip(before.len() as int + 7) =~= after);
    assert(out.take(before.len() as int) =~= before);
}

/// The wrapping can be undone: output that holds no passthrough escape of its own comes out of
/// tmux as it went in.
pub proof fn wrapping_can_be_undone(bytes: Seq<u8>)
    requires
        !occurs(bytes, tmux_start()),
    ensures
        unwrapped(wrapped(bytes)) == bytes,
    decreases bytes.len(),
{
    let start = index_of(bytes, graphics_start());
    let rest = bytes.skip(start);
    let end = start + index_of(rest, string_end()) + 2;
    if !occurs(bytes, graphics_start()) || !occurs(rest, string_end()) || !(0 <= start < end
        <= bytes.len()) {
    } else {
        let before = bytes.take(start);
        let tail = bytes.skip(end);
        let held = bytes.subrange(start, end);
        lemma_not_later(bytes, tmux_start(), end);
        if occurs(before, tmux_start()) {
            let i = choose|i: int| stands_at(before, tmux_start(), i);
            assert(bytes.subrange(i, i + 7) =~= before.subrange(i, i + 7));
            assert(stands_at(bytes, tmux_start(), i));
        }
        wrapping_can_be_undone(tail);
        lemma_unwrapped(before, held, wrapped(tail));
        assert(wrapped(bytes) =~= before + tmux_start() + (doubled(held) + string_end() + wrapped(
            tail,
        )));
        assert(before + held + tail =~= bytes);
    }
}

/// A graphics sequence in front of output without any is wrapped on its own.
pub proof fn lemma_one_sequence(sequence: Seq<u8>, rest: Seq<u8>)
    requires
        sequence.len() >= 5,
        sequence.take(3) == graphics_start(),
        sequence.skip(sequence.len() - 2) == string_end(),
        forall|i: int| 1 <= i < sequence.len() - 2 ==> #[trigger] sequence[i] != 0x1b,
        !rest.contains(0x5f),
    ensures
        wrapped(sequence + rest) == tmux_start() + doubled(sequence) + string_end() + rest,
{
    let all = sequence + rest;
    let n = sequence.len() as int;
    assert(all.subrange(0, 3) =~= sequence.take(3));
    assert(first_at(all, graphics_start(), 0));
    lemma_index(all, graphics_start(), 0);
    assert(all.skip(0) =~= all);
    assert(all.subrange(n - 2, n) =~= sequence.skip(n - 2));
    assert forall|i: int| 0 <= i < n - 2 implies !#[trigger] stands_at(all, string_end(), i) by {
        if stands_at(all, string_end(), i) {
            let found = all.subrange(i, i + 2);
            assert(found[0] == all[i] && found[1] == all[i + 1]);
            assert(all[i] == sequence[i]);
            if i == 0 {
                assert(all[1] == sequence.take(3)[1]);
            }
        }
    }
    assert(first_at(all, string_end(), n - 2));
    lemma_index(all, string_end(), n - 2);
    assert(all.take(0) =~= Seq::empty());
    assert(all.subrange(0, n) =~= sequence);
    assert(all.skip(n) =~= rest);
    if occurs(rest, graphics_start()) {
        let i = choose|i: int| stands_at(rest, graphics_start(), i);
        assert(rest.subrange(i, i + 3)[1] == rest[i + 1]);
        assert(rest.contains(rest[i + 1]));
    }
    assert(wrapped(rest) == rest);
    assert(wrapped(all) =~= tmux_start() + doubled(sequence) + string_end() + rest);
}

/// Doubling adds no other bytes.
pub proof fn lemma_doubled_without(bytes: Seq<u8>, byte: u8)
    requires
        !bytes.contains(byte),
        byte != 0x1b,
    ensures
        !doubled(bytes).contains(byte),
    decreases bytes.len(),
{
    if bytes.len() > 0 {
        let most = bytes.drop_last();
        assert(!most.contains(byte)) by {
            if most.contains(byte) {
                let i = choose|i: int| 0 <= i < most.len() && most[i] == byte;
                assert(bytes[i] == byte);
            }
        }
        lemma_doubled_without(most, byte);
        assert(bytes.contains(bytes.last()));
        let out = doubled(bytes);
        if out.contains(byte) {
            let i = choose|i: int| 0 <= i < out.len() && out[i] == byte;
            if i < doubled(most).len() {
                assert(doubled(most)[i] == byte);
            }
        }
    }
}

/// Output without a whole graphics sequence is the same inside tmux.
pub proof fn other_output_passes_unchanged(bytes: Seq<u8>)
    requires
        forall|i: int| #[trigger]
            stands_at(bytes, graphics_start(), i) ==> !occurs(bytes.skip(i), string_end()),
    ensures
        prepared(bytes, true) == bytes,
{
    if occurs(bytes, graphics_start()) {
        let i = choose|i: int| stands_at(bytes, graphics_start(), i);
        lemma_first(bytes, graphics_start(), i);
    }
}

} // verus!
