//! A stream gives the same diagrams however it arrives.
//!
//! The diagrams found while a stream is taken in piece by piece are those of the stream as a
//! whole: what is known after some pieces is a function of the bytes so far, and when a document
//! ends, what was found of it and what is left of it are the diagrams of its text.

use vstd::prelude::*;

use super::stream;
use super::stream::IntakeModel;
use crate::input;
use crate::input::{DiagramModel, Format};
use crate::input::markdown;
use crate::input::markdown::{FenceModel, ScannerModel};
use crate::input::sniff;
use crate::text;
use crate::utf8;

verus! {

// ---------------------------------------------------------------------------------------------
// What is known of a document after its first bytes.

/// The text of a document's first bytes, without a character that is cut off.
pub open spec fn text_so_far(bytes: Seq<u8>) -> Seq<char> {
    utf8::decoded(bytes.take(utf8::settled(bytes) as int))
}

/// The whole lines of a text.
pub open spec fn whole_lines(text: Seq<char>) -> Seq<Seq<char>> {
    text::raw_lines(text.take(stream::complete(text)))
}

/// What is known of a document's first text, apart from the bytes that wait.
pub open spec fn knowledge(fixed: Option<Format>, text: Seq<char>, partial: Seq<u8>) -> IntakeModel {
    let format = stream::format_so_far(fixed, text);
    let markdown = format == Some(Format::Markdown);
    IntakeModel {
        fixed,
        format,
        partial,
        text,
        scanned: if markdown {
            stream::complete(text)
        } else {
            0
        },
        scanner: if markdown {
            markdown::scan_lines(markdown::fresh(), whole_lines(text)).0
        } else {
            markdown::fresh()
        },
    }
}

/// The diagrams that a document's first text completes.
pub open spec fn completed(fixed: Option<Format>, text: Seq<char>) -> Seq<DiagramModel> {
    if stream::format_so_far(fixed, text) == Some(Format::Markdown) {
        stream::stdin_diagrams(markdown::scan_lines(markdown::fresh(), whole_lines(text)).1)
    } else {
        Seq::empty()
    }
}

/// What is known after a document's first bytes.
pub open spec fn known(fixed: Option<Format>, bytes: Seq<u8>) -> IntakeModel {
    knowledge(fixed, text_so_far(bytes), bytes.skip(utf8::settled(bytes) as int))
}

/// The diagrams that a document's first bytes complete.
pub open spec fn emitted(fixed: Option<Format>, bytes: Seq<u8>) -> Seq<DiagramModel> {
    completed(fixed, text_so_far(bytes))
}

proof fn lemma_complete(text: Seq<char>)
    ensures
        0 <= stream::complete(text) <= text.len(),
        ({
            let lines = text.take(stream::complete(text));
            lines.len() == 0 || lines.last() == '\n'
        }),
{
    text::lemma_after_last(text, '\n');
}

/// More text leaves whole lines as they are.
proof fn lemma_more_text(a: Seq<char>, b: Seq<char>)
    ensures
        0 <= stream::complete(a) <= stream::complete(a + b) <= (a + b).len(),
        stream::complete(a) <= a.len(),
        (a + b).take(stream::complete(a)) == a.take(stream::complete(a)),
        (a + b).take(stream::complete(a + b)) == a.take(stream::complete(a)) + (a + b).subrange(
            stream::complete(a),
            stream::complete(a + b),
        ),
{
    lemma_complete(a);
    lemma_complete(a + b);
    text::lemma_after_last(a, '\n');
    text::lemma_after_last(a + b, '\n');
    let n = stream::complete(a);
    let m = stream::complete(a + b);
    if n > m {
        assert((a + b)[n - 1] == a[n - 1]);
    }
    assert((a + b).take(n) =~= a.take(n));
    assert((a + b).take(m) =~= a.take(n) + (a + b).subrange(n, m));
}

proof fn lemma_stdin_diagrams(a: Seq<FenceModel>, b: Seq<FenceModel>)
    ensures
        stream::stdin_diagrams(a + b) == stream::stdin_diagrams(a) + stream::stdin_diagrams(b),
{
    assert(stream::stdin_diagrams(a + b) =~= stream::stdin_diagrams(a) + stream::stdin_diagrams(
        b,
    ));
}

/// A format that is known stays when more text arrives.
proof fn lemma_format_stays(fixed: Option<Format>, a: Seq<char>, b: Seq<char>)
    requires
        stream::format_so_far(fixed, a) is Some,
    ensures
        stream::format_so_far(fixed, a + b) == stream::format_so_far(fixed, a),
        input::settled(a + b, fixed) == stream::format_so_far(fixed, a),
{
    if fixed is None {
        lemma_more_text(a, b);
        lemma_complete(a);
        let n = stream::complete(a);
        let head = a.take(n);
        let more = (a + b).subrange(n, stream::complete(a + b));
        text::lemma_lines_concat(head, more);
        sniff::a_decided_format_stays(text::lines(head), text::lines(more), true, false);
        let rest = (a + b).skip(n);
        assert(a + b =~= head + rest);
        text::lemma_lines_concat(head, rest);
        sniff::a_decided_format_stays(text::lines(head), text::lines(rest), true, true);
    }
}

/// Scanning after more text has arrived gives what is known of the longer text.
proof fn lemma_scan(fixed: Option<Format>, a: Seq<char>, b: Seq<char>, was: Seq<u8>, now: Seq<u8>)
    ensures
        ({
            let m = knowledge(fixed, a, was);
            let (next, found) = stream::scan_step(
                IntakeModel { text: a + b, partial: now, ..m },
            );
            &&& next == knowledge(fixed, a + b, now)
            &&& completed(fixed, a) + found == completed(fixed, a + b)
        }),
{
    let m = knowledge(fixed, a, was);
    let grown = IntakeModel { text: a + b, partial: now, ..m };
    let (next, found) = stream::scan_step(grown);
    let known = stream::format_so_far(fixed, a);
    lemma_more_text(a, b);
    lemma_complete(a);
    if known is Some {
        lemma_format_stays(fixed, a, b);
    }
    assert(stream::format_so_far(m.format, a + b) == stream::format_so_far(fixed, a + b));
    if known == Some(Format::Markdown) {
        let head = a.take(stream::complete(a));
        let more = (a + b).subrange(stream::complete(a), stream::complete(a + b));
        text::lemma_lines_concat(head, more);
        markdown::scanning_in_batches(
            markdown::fresh(),
            text::raw_lines(head),
            text::raw_lines(more),
        );
        lemma_stdin_diagrams(
            markdown::scan_lines(markdown::fresh(), text::raw_lines(head)).1,
            markdown::scan_lines(m.scanner, text::raw_lines(more)).1,
        );
    } else {
        assert((a + b).subrange(0, stream::complete(a + b)) =~= (a + b).take(
            stream::complete(a + b),
        ));
        assert(completed(fixed, a) + found =~= found);
    }
}

/// Taking in more bytes of a document gives what is known after all of them.
proof fn lemma_push(fixed: Option<Format>, a: Seq<u8>, b: Seq<u8>)
    requires
        utf8::checked(a + b) != utf8::Check::Invalid,
    ensures
        stream::push_step(known(fixed, a), b).0 == known(fixed, a + b),
        emitted(fixed, a) + stream::push_step(known(fixed, a), b).1 == emitted(fixed, a + b),
{
    if b.len() == 0 {
        assert(a + b =~= a);
        assert(emitted(fixed, a) + Seq::empty() =~= emitted(fixed, a));
    } else {
        utf8::decoding_in_steps(a, b);
        utf8::lemma_settled(a);
        utf8::lemma_settled_valid(a);
        let n = utf8::settled(a) as int;
        let waiting = a.skip(n);
        let all = waiting + b;
        utf8::lemma_settled(all);
        let k = utf8::settled(all) as int;
        let head = a.take(n);
        assert((a + b).take(n + k) =~= head + all.take(k));
        assert((a + b).skip(n + k) =~= all.skip(k));
        utf8::lemma_valid_concat(head, all.take(k));
        lemma_scan(fixed, text_so_far(a), utf8::decoded(all.take(k)), waiting, all.skip(k));
    }
}

// ---------------------------------------------------------------------------------------------
// What a document has when it ends.

/// Whether a line of a text ends in two carriage returns and a line feed.
pub open spec fn doubles_returns(text: Seq<char>) -> bool {
    exists|i: int|
        0 <= i && i + 2 < text.len() && #[trigger] text[i] == '\r' && text[i + 1] == '\r' && text[i
            + 2] == '\n'
}

/// Lines with and without their carriage returns scan alike, unless a line has two.
proof fn lemma_lines_scan(m: ScannerModel, text: Seq<char>)
    requires
        !doubles_returns(text),
    ensures
        markdown::scan_lines(m, text::lines(text)) == markdown::scan_lines(
            m,
            text::raw_lines(text),
        ),
    decreases text.len(),
{
    if text.len() > 0 {
        text::lemma_find(text, '\n');
        let end = text::find(text, '\n') as int;
        let raw = text::raw_lines(text);
        let lines = text::lines(text);
        if end < text.len() {
            let rest = text.skip(end + 1);
            let line = text.take(end);
            assert(!doubles_returns(rest)) by {
                if doubles_returns(rest) {
                    let i = choose|i: int|
                        0 <= i && i + 2 < rest.len() && #[trigger] rest[i] == '\r' && rest[i + 1]
                            == '\r' && rest[i + 2] == '\n';
                    assert(text[i + end + 1] == '\r');
                }
            }
            if line.len() > 1 && line.last() == '\r' {
                assert(text[end - 1] == '\r');
                if text[end - 2] == '\r' {
                    assert(doubles_returns(text));
                }
                assert(line.drop_last().last() == text[end - 2]);
            }
            assert(text::without_return(text::without_return(line)) == text::without_return(line));
            assert(raw.drop_first() =~= text::raw_lines(rest));
            assert(lines.drop_first() =~= text::lines(rest));
            lemma_lines_scan(markdown::scan_line(m, line).0, rest);
        } else {
            assert(raw =~= lines);
        }
    }
}

/// A text of white space has white lines.
proof fn lemma_white_lines(text: Seq<char>)
    requires
        forall|i: int| 0 <= i < text.len() ==> text::white(#[trigger] text[i]),
    ensures
        forall|k: int, i: int|
            0 <= k < text::raw_lines(text).len() && 0 <= i < text::raw_lines(text)[k].len()
                ==> text::white(#[trigger] text::raw_lines(text)[k][i]),
    decreases text.len(),
{
    if text.len() > 0 {
        text::lemma_find(text, '\n');
        let end = text::find(text, '\n') as int;
        let raw = text::raw_lines(text);
        if end < text.len() {
            let rest = text.skip(end + 1);
            assert forall|i: int| 0 <= i < rest.len() implies text::white(#[trigger] rest[i]) by {
                assert(text::white(text[i + end + 1]));
            }
            lemma_white_lines(rest);
            assert forall|k: int, i: int|
                0 <= k < raw.len() && 0 <= i < raw[k].len() implies text::white(
                #[trigger] raw[k][i],
            ) by {
                if k == 0 {
                    assert(raw[0][i] == text[i]);
                } else {
                    assert(raw[k] == text::raw_lines(rest)[k - 1]);
                }
            }
        } else {
            assert(raw =~= seq![text]);
        }
    }
}

/// White lines hold no fences.
proof fn lemma_white_scan(m: ScannerModel, lines: Seq<Seq<char>>)
    requires
        m.open is None,
        forall|k: int, i: int|
            0 <= k < lines.len() && 0 <= i < lines[k].len() ==> text::white(#[trigger] lines[k][i]),
    ensures
        markdown::scan_lines(m, lines).0.open is None,
        markdown::scan_lines(m, lines).1.len() == 0,
    decreases lines.len(),
{
    if lines.len() > 0 {
        let line = text::without_return(lines[0]);
        assert forall|i: int| 0 <= i < line.len() implies text::white(#[trigger] line[i]) by {
            assert(text::white(lines[0][i]));
        }
        let indent = text::run(line, ' ') as int;
        text::lemma_run(line, ' ');
        let rest = line.skip(indent);
        if rest.len() > 0 {
            assert(rest[0] == line[indent]);
            assert(text::white(line[indent]));
        }
        assert(markdown::opening_fence(line) is None);
        assert(markdown::title(line) is None) by {
            assert(text::run(rest, '#') == 0);
        }
        let tail = lines.drop_first();
        assert forall|k: int, i: int|
            0 <= k < tail.len() && 0 <= i < tail[k].len() implies text::white(
            #[trigger] tail[k][i],
        ) by {
            assert(text::white(lines[k + 1][i]));
        }
        lemma_white_scan(markdown::scan_line(m, lines[0]).0, tail);
    }
}

/// Whether a document's bytes are UTF-8 up to a character that is cut off and, where it is
/// Markdown, no line ends in two carriage returns.
pub open spec fn plain(fixed: Option<Format>, bytes: Seq<u8>) -> bool {
    let text = utf8::decoded(bytes);
    &&& utf8::checked(bytes) != utf8::Check::Invalid
    &&& input::settled(text, fixed) == Some(Format::Markdown) ==> !doubles_returns(text)
}

/// What was found of a document and what is left of it are its diagrams.
proof fn lemma_end(fixed: Option<Format>, bytes: Seq<u8>)
    requires
        plain(fixed, bytes),
    ensures
        emitted(fixed, bytes) + stream::remaining(known(fixed, bytes)) == input::document_diagrams(
            utf8::decoded(bytes),
            fixed,
        ),
{
    let none = Seq::<u8>::empty();
    assert(bytes + none =~= bytes);
    utf8::decoding_in_steps(bytes, none);
    utf8::lemma_settled(bytes);
    let n = utf8::settled(bytes) as int;
    assert(bytes.skip(n) + none =~= bytes.skip(n));
    let a = text_so_far(bytes);
    let b = utf8::decoded(bytes.skip(n));
    let text = utf8::decoded(bytes);
    assert(text == a + b);
    let m = known(fixed, bytes);
    let before = stream::format_so_far(fixed, a);
    lemma_more_text(a, b);
    lemma_complete(a);
    if before is Some {
        lemma_format_stays(fixed, a, b);
    }
    let format = input::settled(text, fixed);
    assert(input::settled(text, m.format) == format);
    let start = markdown::fresh();
    match format {
        Some(Format::Markdown) => {
            let head = a.take(stream::complete(a));
            let rest = text.skip(stream::complete(a));
            let all = markdown::scan_lines(start, text::raw_lines(text));
            if before is Some {
                assert(text =~= head + rest);
                text::lemma_lines_concat(head, rest);
                markdown::scanning_in_batches(start, text::raw_lines(head), text::raw_lines(rest));
                let first = markdown::scan_lines(start, text::raw_lines(head));
                let second = markdown::scan_lines(first.0, text::raw_lines(rest));
                let last = markdown::one(markdown::unclosed(second.0));
                lemma_stdin_diagrams(first.1, second.1 + last);
                assert(first.1 + (second.1 + last) =~= (first.1 + second.1) + last);
            } else {
                assert(text.skip(0) =~= text);
                assert(emitted(fixed, bytes) + stream::remaining(m) =~= stream::remaining(m));
            }
            lemma_lines_scan(start, text);
            let fences = markdown::fences_of(text::lines(text));
            assert(emitted(fixed, bytes) + stream::remaining(m) == stream::stdin_diagrams(fences));
            text::lemma_blank(text);
            if text::trimmed(text).len() == 0 {
                lemma_white_lines(text);
                lemma_white_scan(start, text::raw_lines(text));
                assert(fences =~= Seq::empty());
                assert(stream::stdin_diagrams(fences) =~= Seq::empty());
            }
        },
        _ => {
            assert(emitted(fixed, bytes) + stream::remaining(m) =~= stream::remaining(m));
        },
    }
}

// ---------------------------------------------------------------------------------------------
// Streams of documents.

/// The bytes after the last NUL.
pub open spec fn unfinished(bytes: Seq<u8>) -> Seq<u8>
    decreases bytes.len(),
{
    let at = stream::first_nul(bytes) as int;
    if at >= bytes.len() {
        bytes
    } else {
        unfinished(bytes.skip(at + 1))
    }
}

/// The diagrams of the documents that a NUL has ended.
pub open spec fn finished(fixed: Option<Format>, bytes: Seq<u8>) -> Seq<DiagramModel>
    decreases bytes.len(),
{
    let at = stream::first_nul(bytes) as int;
    if at >= bytes.len() {
        Seq::empty()
    } else {
        input::document_diagrams(utf8::decoded(bytes.take(at)), fixed) + finished(
            fixed,
            bytes.skip(at + 1),
        )
    }
}

/// Whether the documents of a stream's first bytes are plain, as far as they have arrived.
pub open spec fn plain_so_far(fixed: Option<Format>, bytes: Seq<u8>) -> bool
    decreases bytes.len(),
{
    let at = stream::first_nul(bytes) as int;
    if at >= bytes.len() {
        utf8::checked(bytes) != utf8::Check::Invalid
    } else {
        plain(fixed, bytes.take(at)) && plain_so_far(fixed, bytes.skip(at + 1))
    }
}

/// Whether all documents of a stream are plain.
pub open spec fn all_plain(fixed: Option<Format>, bytes: Seq<u8>) -> bool {
    plain_so_far(fixed, bytes) && plain(fixed, unfinished(bytes))
}

proof fn lemma_first_nul(bytes: Seq<u8>)
    ensures
        stream::first_nul(bytes) <= bytes.len(),
        stream::first_nul(bytes) < bytes.len() ==> bytes[stream::first_nul(bytes) as int] == 0,
        forall|i: int| 0 <= i < stream::first_nul(bytes) ==> #[trigger] bytes[i] != 0,
    decreases bytes.len(),
{
    if bytes.len() > 0 && bytes[0] != 0 {
        lemma_first_nul(bytes.drop_first());
        assert forall|i: int| 0 <= i < stream::first_nul(bytes) implies #[trigger] bytes[i] != 0 by {
            if i > 0 {
                assert(bytes[i] == bytes.drop_first()[i - 1]);
            }
        }
    }
}

/// Where the first NUL is when none stands in the first part.
proof fn lemma_first_nul_concat(a: Seq<u8>, b: Seq<u8>)
    requires
        forall|i: int| 0 <= i < a.len() ==> #[trigger] a[i] != 0,
    ensures
        stream::first_nul(a + b) == a.len() + stream::first_nul(b),
    decreases a.len(),
{
    if a.len() == 0 {
        assert(a + b =~= b);
    } else {
        let rest = a.drop_first();
        assert(a[0] != 0);
        assert forall|i: int| 0 <= i < rest.len() implies #[trigger] rest[i] != 0 by {
            assert(a[i + 1] != 0);
        }
        lemma_first_nul_concat(rest, b);
        assert((a + b).drop_first() =~= rest + b);
    }
}

/// Nothing has been found of a document that has not started.
proof fn lemma_not_started(fixed: Option<Format>)
    ensures
        known(fixed, Seq::empty()) == stream::fresh(fixed),
        emitted(fixed, Seq::empty()) == Seq::<DiagramModel>::empty(),
{
    let none = Seq::<u8>::empty();
    let text = text_so_far(none);
    assert(none.take(0) =~= none);
    assert(none.skip(0) =~= none);
    assert(text =~= Seq::<char>::empty());
    assert(stream::complete(text) == 0);
    assert(text.take(0) =~= text);
    assert(whole_lines(text) =~= Seq::<Seq<char>>::empty());
    assert(stream::stdin_diagrams(Seq::<FenceModel>::empty()) =~= Seq::<DiagramModel>::empty());
}

/// Taking in more of a stream, from the middle of a document on.
proof fn lemma_feed(fixed: Option<Format>, a: Seq<u8>, b: Seq<u8>)
    requires
        forall|i: int| 0 <= i < a.len() ==> #[trigger] a[i] != 0,
        plain_so_far(fixed, a + b),
    ensures
        stream::feed_step(known(fixed, a), b).0 == known(fixed, unfinished(a + b)),
        emitted(fixed, a) + stream::feed_step(known(fixed, a), b).1 == finished(fixed, a + b)
            + emitted(fixed, unfinished(a + b)),
    decreases b.len(),
{
    lemma_first_nul(b);
    lemma_first_nul_concat(a, b);
    let at = stream::first_nul(b) as int;
    if at >= b.len() {
        lemma_push(fixed, a, b);
        assert(finished(fixed, a + b) + emitted(fixed, a + b) =~= emitted(fixed, a + b));
    } else {
        let document = a + b.take(at);
        let rest = b.skip(at + 1);
        let none = Seq::<u8>::empty();
        assert((a + b).take(a.len() + at) =~= document);
        assert((a + b).skip(a.len() + at + 1) =~= rest);
        lemma_push(fixed, a, b.take(at));
        lemma_end(fixed, document);
        lemma_not_started(fixed);
        assert(none + rest =~= rest);
        lemma_feed(fixed, none, rest);
        let first = stream::push_step(known(fixed, a), b.take(at)).1;
        let second = stream::remaining(known(fixed, document));
        let third = stream::feed_step(stream::fresh(fixed), rest).1;
        let end = emitted(fixed, unfinished(rest));
        assert(none_of() + third =~= third);
        assert(emitted(fixed, a) + (first + second + third) =~= ((emitted(fixed, a) + first)
            + second) + third);
        assert((input::document_diagrams(utf8::decoded(document), fixed) + finished(fixed, rest))
            + end =~= input::document_diagrams(utf8::decoded(document), fixed) + (finished(
            fixed,
            rest,
        ) + end));
    }
}

spec fn none_of() -> Seq<DiagramModel> {
    Seq::empty()
}

/// What was unfinished goes on with what follows.
proof fn lemma_unfinished(fixed: Option<Format>, a: Seq<u8>, b: Seq<u8>)
    ensures
        unfinished(a + b) == unfinished(unfinished(a) + b),
        finished(fixed, a + b) == finished(fixed, a) + finished(fixed, unfinished(a) + b),
        forall|i: int| 0 <= i < unfinished(a).len() ==> #[trigger] unfinished(a)[i] != 0,
        plain_so_far(fixed, a + b) ==> plain_so_far(fixed, a) && plain_so_far(
            fixed,
            unfinished(a) + b,
        ),
    decreases a.len(),
{
    lemma_first_nul(a);
    let at = stream::first_nul(a) as int;
    if at >= a.len() {
        assert(finished(fixed, a) + finished(fixed, a + b) =~= finished(fixed, a + b));
        if plain_so_far(fixed, a + b) {
            lemma_first_nul_concat(a, b);
            lemma_first_nul(b);
            let n = stream::first_nul(b) as int;
            let document = if n >= b.len() {
                a + b
            } else {
                (a + b).take(a.len() + n)
            };
            let more = document.skip(a.len() as int);
            assert(document =~= a + more);
            utf8::decoding_in_steps(a, more);
        }
    } else {
        let head = a.take(at);
        let rest = a.skip(at + 1);
        assert(a =~= head + (seq![0u8] + rest));
        assert(a + b =~= head + (seq![0u8] + rest + b));
        lemma_first_nul_concat(head, seq![0u8] + rest + b);
        assert((seq![0u8] + rest + b)[0] == 0);
        assert((a + b).take(at) =~= head);
        assert((a + b).skip(at + 1) =~= rest + b);
        lemma_unfinished(fixed, rest, b);
        let first = input::document_diagrams(utf8::decoded(head), fixed);
        let later = finished(fixed, unfinished(rest) + b);
        assert(first + (finished(fixed, rest) + later) =~= (first + finished(fixed, rest))
            + later);
    }
}

/// The bytes of all pieces.
pub open spec fn joined(chunks: Seq<Seq<u8>>) -> Seq<u8>
    decreases chunks.len(),
{
    if chunks.len() == 0 {
        Seq::empty()
    } else {
        joined(chunks.drop_last()) + chunks.last()
    }
}

proof fn lemma_feeds(fixed: Option<Format>, chunks: Seq<Seq<u8>>)
    requires
        plain_so_far(fixed, joined(chunks)),
    ensures
        stream::feeds(stream::fresh(fixed), chunks).0 == known(fixed, unfinished(joined(chunks))),
        stream::feeds(stream::fresh(fixed), chunks).1 == finished(fixed, joined(chunks)) + emitted(
            fixed,
            unfinished(joined(chunks)),
        ),
    decreases chunks.len(),
{
    if chunks.len() == 0 {
        lemma_not_started(fixed);
        let none = Seq::<u8>::empty();
        assert(finished(fixed, none) + emitted(fixed, none) =~= Seq::empty());
    } else {
        let before = joined(chunks.drop_last());
        let last = chunks.last();
        lemma_unfinished(fixed, before, last);
        lemma_feeds(fixed, chunks.drop_last());
        let open = unfinished(before);
        lemma_feed(fixed, open, last);
        let found = stream::feed_step(known(fixed, open), last).1;
        let end = emitted(fixed, unfinished(open + last));
        assert((finished(fixed, before) + emitted(fixed, open)) + found =~= finished(fixed, before)
            + (emitted(fixed, open) + found));
        assert((finished(fixed, before) + finished(fixed, open + last)) + end =~= finished(
            fixed,
            before,
        ) + (finished(fixed, open + last) + end));
    }
}

/// The diagrams of a whole text are those of its finished documents and of the last one.
proof fn lemma_documents(fixed: Option<Format>, bytes: Seq<u8>)
    ensures
        input::all_diagrams(text::split(utf8::decoded(bytes), '\0'), fixed) == finished(
            fixed,
            bytes,
        ) + input::document_diagrams(utf8::decoded(unfinished(bytes)), fixed),
    decreases bytes.len(),
{
    lemma_first_nul(bytes);
    let at = stream::first_nul(bytes) as int;
    let text = utf8::decoded(bytes);
    if at >= bytes.len() {
        utf8::lemma_no_nul(bytes);
        text::lemma_find_is(text, '\0', text.len() as int);
        let parts = text::split(text, '\0');
        assert(parts =~= seq![text]);
        assert(parts.drop_first() =~= Seq::empty());
        let own = input::document_diagrams(text, fixed);
        assert(input::all_diagrams(parts.drop_first(), fixed) =~= Seq::empty());
        assert(input::all_diagrams(parts, fixed) =~= own);
        assert(finished(fixed, bytes) + own =~= own);
    } else {
        let head = bytes.take(at);
        let rest = bytes.skip(at + 1);
        assert(bytes =~= head + seq![0u8] + rest);
        utf8::lemma_nul(head, rest);
        assert forall|i: int| 0 <= i < head.len() implies #[trigger] head[i] != 0 by {
            assert(bytes[i] != 0);
        }
        utf8::lemma_no_nul(head);
        let first = utf8::decoded(head);
        let later = utf8::decoded(rest);
        assert forall|i: int| 0 <= i < first.len() implies #[trigger] text[i] != '\0' by {
            assert(text[i] == first[i]);
        }
        text::lemma_find_is(text, '\0', first.len() as int);
        assert(text.take(first.len() as int) =~= first);
        assert(text.skip(first.len() as int + 1) =~= later);
        let parts = text::split(text, '\0');
        assert(parts =~= seq![first] + text::split(later, '\0'));
        assert(parts.drop_first() =~= text::split(later, '\0'));
        lemma_documents(fixed, rest);
        let own = input::document_diagrams(first, fixed);
        let end = input::document_diagrams(utf8::decoded(unfinished(rest)), fixed);
        assert(own + (finished(fixed, rest) + end) =~= (own + finished(fixed, rest)) + end);
    }
}

/// A stream that arrives in pieces, whatever they are, gives the diagrams that the same bytes
/// give when they arrive at once. The documents are UTF-8, though each may end in the middle of
/// a character, and no line of a Markdown document ends in two carriage returns.
pub proof fn streams_end_like_one_shot_input(fixed: Option<Format>, chunks: Seq<Seq<u8>>)
    requires
        all_plain(fixed, joined(chunks)),
    ensures
        stream::received(fixed, chunks) == input::all_diagrams(
            text::split(utf8::decoded(joined(chunks)), '\0'),
            fixed,
        ),
{
    let bytes = joined(chunks);
    lemma_feeds(fixed, chunks);
    lemma_end(fixed, unfinished(bytes));
    lemma_documents(fixed, bytes);
    let open = unfinished(bytes);
    assert((finished(fixed, bytes) + emitted(fixed, open)) + stream::remaining(known(fixed, open))
        =~= finished(fixed, bytes) + (emitted(fixed, open) + stream::remaining(
        known(fixed, open),
    )));
}

} // verus!
