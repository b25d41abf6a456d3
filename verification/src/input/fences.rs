//! What holds of fenced code blocks and headings.

use vstd::prelude::*;

use super::markdown;
use super::markdown::{FenceModel, OpenModel, ScannerModel};
use crate::text;

verus! {

// ---------------------------------------------------------------------------------------------
// Which lines open and close a block.

proof fn lemma_line(line: Seq<char>, indent: int, marker: char, count: int)
    requires
        marker != ' ',
        0 <= indent,
        0 < count,
        indent + count <= line.len(),
        line.take(indent) == Seq::new(indent as nat, |i: int| ' '),
        line.subrange(indent, indent + count) == Seq::new(count as nat, |i: int| marker),
        indent + count < line.len() ==> line[indent + count] != marker,
    ensures
        text::run(line, ' ') == indent,
        text::run(line.skip(indent), marker) == count,
        line.skip(indent).skip(count) == line.skip(indent + count),
        line.skip(indent)[0] == marker,
{
    assert forall|i: int| 0 <= i < indent implies #[trigger] line[i] == ' ' by {
        assert(line[i] == line.take(indent)[i]);
    }
    let rest = line.skip(indent);
    assert forall|i: int| 0 <= i < count implies #[trigger] rest[i] == marker by {
        assert(rest[i] == line.subrange(indent, indent + count)[i]);
    }
    assert(rest[0] == marker);
    text::lemma_run_is(line, ' ', indent);
    text::lemma_run_is(rest, marker, count);
    assert(rest.skip(count) =~= line.skip(indent + count));
}

/// A line closes a block of `len` markers exactly if it is made of at most three spaces, at least
/// as many of the marker, and white space. No other line does, a blank one neither.
pub proof fn only_markers_close_a_block(line: Seq<char>, marker: char, len: nat)
    requires
        marker == '`' || marker == '~',
        len > 0,
    ensures
        markdown::closes(line, marker, len) <==> exists|a: int, b: int|
            {
                &&& 0 <= a <= 3
                &&& a + len <= b <= line.len()
                &&& line.take(a) == Seq::new(a as nat, |i: int| ' ')
                &&& #[trigger] line.subrange(a, b) == Seq::new((b - a) as nat, |i: int| marker)
                &&& forall|i: int| b <= i < line.len() ==> text::white(#[trigger] line[i])
            },
        markdown::closes(line, marker, len) ==> line.contains(marker),
{
    text::white_space_prints_nothing(marker);
    if markdown::closes(line, marker, len) {
        let a = text::run(line, ' ') as int;
        text::lemma_run(line, ' ');
        let rest = line.skip(a);
        let count = text::run(rest, marker) as int;
        text::lemma_run(rest, marker);
        let b = a + count;
        text::lemma_blank(rest.skip(count));
        assert forall|i: int| b <= i < line.len() implies text::white(#[trigger] line[i]) by {
            assert(line[i] == rest.skip(count)[i - b]);
        }
        assert(line.take(a) =~= Seq::new(a as nat, |i: int| ' '));
        assert forall|i: int| 0 <= i < count implies #[trigger] line.subrange(a, b)[i]
            == marker by {
            assert(rest[i] == marker);
        }
        assert(line.subrange(a, b) =~= Seq::new((b - a) as nat, |i: int| marker));
        assert(line[a] == rest[0]);
        assert(line.contains(line[a]));
    }
    if exists|a: int, b: int|
        {
            &&& 0 <= a <= 3
            &&& a + len <= b <= line.len()
            &&& line.take(a) == Seq::new(a as nat, |i: int| ' ')
            &&& #[trigger] line.subrange(a, b) == Seq::new((b - a) as nat, |i: int| marker)
            &&& forall|i: int| b <= i < line.len() ==> text::white(#[trigger] line[i])
        } {
        let (a, b) = choose|a: int, b: int|
            {
                &&& 0 <= a <= 3
                &&& a + len <= b <= line.len()
                &&& line.take(a) == Seq::new(a as nat, |i: int| ' ')
                &&& #[trigger] line.subrange(a, b) == Seq::new((b - a) as nat, |i: int| marker)
                &&& forall|i: int| b <= i < line.len() ==> text::white(#[trigger] line[i])
            };
        lemma_line(line, a, marker, b - a);
        let after = line.skip(b);
        assert forall|i: int| 0 <= i < after.len() implies text::white(#[trigger] after[i]) by {
            assert(after[i] == line[b + i]);
        }
        text::lemma_blank(after);
    }
}

/// A block is opened by at most three spaces and at least three backticks or tildes. What follows
/// them, trimmed, describes the block; after backticks it has no backtick.
pub proof fn three_markers_open_a_block(indent: nat, marker: char, len: nat, info: Seq<char>)
    requires
        marker == '`' || marker == '~',
        len > 0,
        info.len() > 0 ==> info[0] != marker,
    ensures
        ({
            let line = Seq::new(indent, |i: int| ' ') + Seq::new(len, |i: int| marker) + info;
            markdown::opening_fence(line) == if indent <= 3 && len >= 3 && (marker == '~'
                || !info.contains('`')) {
                Some((marker, len, indent, text::trimmed(info)))
            } else {
                None
            }
        }),
{
    let line = Seq::new(indent, |i: int| ' ') + Seq::new(len, |i: int| marker) + info;
    let a = indent as int;
    let n = len as int;
    assert(line.take(a) =~= Seq::new(indent, |i: int| ' '));
    assert(line.subrange(a, a + n) =~= Seq::new(len, |i: int| marker));
    lemma_line(line, a, marker, n);
    assert(line.skip(a + n) =~= info);
    text::white_space_prints_nothing('`');
    text::lemma_trimmed_keeps(info, '`');
}

/// A line that opens a block starts with the markers, after its spaces.
pub proof fn blocks_open_with_markers(line: Seq<char>)
    ensures
        markdown::opening_fence(line) matches Some((marker, len, indent, info)) ==> {
            &&& marker == '`' || marker == '~'
            &&& len >= 3
            &&& indent <= 3
            &&& indent + len <= line.len()
            &&& line.take(indent as int) == Seq::new(indent, |i: int| ' ')
            &&& line.subrange(indent as int, indent as int + len) == Seq::new(len, |i: int| marker)
            &&& indent + len < line.len() ==> line[indent as int + len] != marker
            &&& info == text::trimmed(line.skip(indent as int + len))
        },
{
    if let Some((marker, len, indent, info)) = markdown::opening_fence(line) {
        text::lemma_run(line, ' ');
        let rest = line.skip(indent as int);
        text::lemma_run(rest, marker);
        assert(line.take(indent as int) =~= Seq::new(indent, |i: int| ' '));
        assert forall|i: int| 0 <= i < len implies #[trigger] line.subrange(
            indent as int,
            indent as int + len,
        )[i] == marker by {
            assert(rest[i] == marker);
        }
        assert(line.subrange(indent as int, indent as int + len) =~= Seq::new(len, |i: int| marker));
        assert(rest.skip(len as int) =~= line.skip(indent as int + len));
        if indent + len < line.len() {
            assert(rest[len as int] == line[indent as int + len]);
        }
    }
}

/// A block holds Mermaid exactly if its description starts with the word `mermaid`, in letters of
/// either case, or with that word in braces. White space or a comma ends the word.
pub proof fn mermaid_blocks_say_so(open: bool, word: Seq<char>, close: bool, tail: Seq<char>)
    requires
        word.len() > 0,
        word[0] != '{',
        word.last() != '}',
        forall|i: int|
            0 <= i < word.len() ==> !text::white(#[trigger] word[i]) && word[i] != ',',
        tail.len() > 0 ==> text::white(tail[0]) || tail[0] == ',',
    ensures
        markdown::names_mermaid(
            (if open { seq!['{'] } else { Seq::empty() }) + word + (if close { seq!['}'] } else {
                Seq::empty()
            }) + tail,
        ) <==> word.len() == 7 && forall|i: int|
            0 <= i < 7 ==> #[trigger] word[i] == seq!['m', 'e', 'r', 'm', 'a', 'i', 'd'][i]
                || word[i] == seq!['M', 'E', 'R', 'M', 'A', 'I', 'D'][i],
{
    let before = if open {
        seq!['{']
    } else {
        Seq::empty()
    };
    let after = if close {
        seq!['}']
    } else {
        Seq::empty()
    };
    let first = before + word + after;
    let info = first + tail;
    let n = first.len() as int;
    assert forall|i: int| 0 <= i < n implies !text::white(#[trigger] info[i]) && info[i]
        != ',' by {
        let at = i - before.len();
        if 0 <= at < word.len() {
            assert(info[i] == word[at]);
        }
    }
    if n < info.len() {
        assert(info[n] == tail[0]);
    }
    text::lemma_word_end_is(info, ',', n);
    assert(info.take(n) =~= first);
    let opened = word + after;
    if open {
        assert(first.drop_first() =~= opened);
    } else {
        assert(first =~= opened);
        assert(first[0] == word[0]);
    }
    assert(markdown::without_first(first, '{') == opened);
    if close {
        assert(opened.drop_last() =~= word);
    } else {
        assert(opened =~= word);
    }
    assert(markdown::without_last(opened, '}') == word);
    reveal_strlit("mermaid");
    let name = "mermaid"@;
    if word.len() == 7 {
        assert forall|i: int| 0 <= i < 7 implies (text::lower(#[trigger] word[i]) == text::lower(
            name[i],
        ) <==> (word[i] == seq!['m', 'e', 'r', 'm', 'a', 'i', 'd'][i] || word[i]
            == seq!['M', 'E', 'R', 'M', 'A', 'I', 'D'][i])) by {
            let c = word[i];
            assert(name[i] == seq!['m', 'e', 'r', 'm', 'a', 'i', 'd'][i]);
            if 'A' <= c <= 'Z' {
                assert((c as u32 + 32) as char as int == c as int + 32);
            }
        }
    }
}

// ---------------------------------------------------------------------------------------------
// What a block holds.

proof fn lemma_contents(
    m: ScannerModel,
    open: OpenModel,
    content: Seq<Seq<char>>,
    inner: Seq<Seq<char>>,
)
    requires
        m.open == Some(open),
        open.mermaid,
        content.len() == inner.len(),
        forall|i: int|
            0 <= i < content.len() ==> #[trigger] content[i] == Seq::new(
                open.indent,
                |k: int| ' ',
            ) + inner[i],
        forall|i: int|
            0 <= i < content.len() ==> !markdown::closes(
                #[trigger] content[i],
                open.marker,
                open.len,
            ) && (content[i].len() > 0 ==> content[i].last() != '\r'),
    ensures
        markdown::scan_lines(m, content) == (
            ScannerModel {
                line: m.line + content.len(),
                open: Some(
                    OpenModel {
                        fence: FenceModel {
                            text: open.fence.text + inner.map_values(
                                |line: Seq<char>| line.push('\n'),
                            ).flatten(),
                            ..open.fence
                        },
                        ..open
                    },
                ),
                ..m
            },
            Seq::<FenceModel>::empty(),
        ),
    decreases content.len(),
{
    let ended = inner.map_values(|line: Seq<char>| line.push('\n'));
    if content.len() == 0 {
        assert(open.fence.text + ended.flatten() =~= open.fence.text);
    } else {
        let raw = content[0];
        let spaces = Seq::new(open.indent, |k: int| ' ');
        let (next, fence) = markdown::scan_line(m, raw);
        assert(raw == spaces + inner[0]);
        text::lemma_run(raw, ' ');
        if text::run(raw, ' ') < open.indent {
            assert(raw[text::run(raw, ' ') as int] == ' ');
        }
        assert(raw.skip(open.indent as int) =~= inner[0]);
        assert(markdown::unindented(raw, open.indent) == inner[0]);
        let then = OpenModel {
            fence: FenceModel {
                text: (open.fence.text + inner[0]).push('\n'),
                ..open.fence
            },
            ..open
        };
        assert(fence is None);
        assert(next == ScannerModel { line: m.line + 1, open: Some(then), ..m });
        let rest = content.drop_first();
        let later = inner.drop_first();
        assert forall|i: int| 0 <= i < rest.len() implies #[trigger] rest[i] == Seq::new(
            then.indent,
            |k: int| ' ',
        ) + later[i] by {
            assert(rest[i] == content[i + 1]);
        }
        assert forall|i: int| 0 <= i < rest.len() implies !markdown::closes(
            #[trigger] rest[i],
            then.marker,
            then.len,
        ) && (rest[i].len() > 0 ==> rest[i].last() != '\r') by {
            assert(rest[i] == content[i + 1]);
        }
        lemma_contents(next, then, rest, later);
        let more = later.map_values(|line: Seq<char>| line.push('\n'));
        assert(ended.drop_first() =~= more);
        assert(ended[0] == inner[0].push('\n'));
        assert(then.fence.text + more.flatten() =~= open.fence.text + ended.flatten());
        assert(markdown::one(fence) + Seq::<FenceModel>::empty() =~= Seq::<FenceModel>::empty());
    }
}

proof fn lemma_opened(
    m: ScannerModel,
    indent: nat,
    marker: char,
    len: nat,
    name: Seq<char>,
    tail: Seq<char>,
)
    requires
        m.open is None,
        indent <= 3,
        marker == '`' || marker == '~',
        len >= 3,
        name.len() > 0 && !text::white(name[0]) && !text::white(name.last()) && name[0] != marker,
        tail.len() > 0 ==> text::white(tail[0]) || tail[0] == ',',
        tail.len() > 0 ==> tail.last() != '\r',
        marker == '`' ==> !name.contains('`') && !tail.contains('`'),
    ensures
        ({
            let line = Seq::new(indent, |i: int| ' ') + Seq::new(len, |i: int| marker) + name
                + tail;
            markdown::scan_line(m, line) == (
                ScannerModel {
                    line: m.line + 1,
                    open: Some(
                        OpenModel {
                            marker,
                            len,
                            indent,
                            mermaid: markdown::names_mermaid(text::trimmed(name + tail)),
                            fence: FenceModel {
                                text: Seq::empty(),
                                first_line: m.line + 1,
                                caption: m.heading,
                            },
                        },
                    ),
                    ..m
                },
                None::<FenceModel>,
            )
        }),
{
    let line = Seq::new(indent, |i: int| ' ') + Seq::new(len, |i: int| marker) + name + tail;
    let info = name + tail;
    assert(line =~= Seq::new(indent, |i: int| ' ') + Seq::new(len, |i: int| marker) + info);
    assert(info[0] == name[0]);
    if marker == '`' && info.contains('`') {
        let k = choose|k: int| 0 <= k < info.len() && info[k] == '`';
        if k < name.len() {
            assert(name[k] == '`');
        } else {
            assert(tail[k - name.len()] == '`');
        }
    }
    three_markers_open_a_block(indent, marker, len, info);
    if tail.len() > 0 {
        assert(line.last() == tail.last());
    } else {
        assert(line.last() == name.last());
    }
    assert(text::without_return(line) == line);
}

/// Trimming a description leaves its first word and what ends it.
proof fn lemma_described(name: Seq<char>, tail: Seq<char>) -> (rest: Seq<char>)
    requires
        name.len() > 0,
        !text::white(name[0]),
        !text::white(name.last()),
        tail.len() > 0 ==> text::white(tail[0]) || tail[0] == ',',
    ensures
        text::trimmed(name + tail) == name + rest,
        rest.len() > 0 ==> text::white(rest[0]) || rest[0] == ',',
{
    let info = name + tail;
    let (x, y) = text::lemma_trimmed_at(info);
    assert(info[0] == name[0] && info[name.len() - 1] == name.last());
    if x > 0 {
        assert(text::white(info[0]));
    }
    if y < name.len() {
        assert(text::white(info[name.len() - 1]));
    }
    let rest = tail.take(y - name.len());
    assert(info.subrange(x, y) =~= name + rest);
    rest
}

proof fn lemma_mermaid(tail: Seq<char>)
    requires
        tail.len() > 0 ==> text::white(tail[0]) || tail[0] == ',',
    ensures
        markdown::names_mermaid(text::trimmed("mermaid"@ + tail)),
        "mermaid"@ == seq!['m', 'e', 'r', 'm', 'a', 'i', 'd'],
{
    reveal_strlit("mermaid");
    let name = "mermaid"@;
    assert(name =~= seq!['m', 'e', 'r', 'm', 'a', 'i', 'd']);
    assert forall|i: int| 0 <= i < name.len() implies !text::white(#[trigger] name[i]) && name[i]
        != ',' by {
        text::white_space_prints_nothing(name[i]);
    }
    let rest = lemma_described(name, tail);
    mermaid_blocks_say_so(false, name, false, rest);
    assert(Seq::<char>::empty() + name + Seq::<char>::empty() + rest =~= name + rest);
}

/// A `mermaid` block holds every line from the one that opens it to the one that closes it,
/// without the indentation of the block, blank lines among them. There is one diagram for it; it
/// starts on the line after the opening one, and its caption is the heading above.
pub proof fn blocks_hold_all_their_lines(
    m: ScannerModel,
    indent: nat,
    marker: char,
    len: nat,
    tail: Seq<char>,
    content: Seq<Seq<char>>,
    inner: Seq<Seq<char>>,
    closing: Seq<char>,
)
    requires
        m.open is None,
        indent <= 3,
        marker == '`' || marker == '~',
        len >= 3,
        tail.len() > 0 ==> text::white(tail[0]) || tail[0] == ',',
        tail.len() > 0 ==> tail.last() != '\r',
        marker == '`' ==> !tail.contains('`'),
        content.len() == inner.len(),
        forall|i: int|
            0 <= i < content.len() ==> #[trigger] content[i] == Seq::new(indent, |k: int| ' ')
                + inner[i],
        forall|i: int|
            0 <= i < content.len() ==> !markdown::closes(#[trigger] content[i], marker, len) && (
            content[i].len() > 0 ==> content[i].last() != '\r'),
        markdown::closes(closing, marker, len),
        closing.last() != '\r',
    ensures
        ({
            let opening = Seq::new(indent, |i: int| ' ') + Seq::new(len, |i: int| marker)
                + "mermaid"@ + tail;
            let text = inner.map_values(|line: Seq<char>| line.push('\n')).flatten();
            let fence = FenceModel { text, first_line: m.line + 1, caption: m.heading };
            &&& markdown::scan_lines(m, seq![opening] + content + seq![closing]) == (
                ScannerModel { line: m.line + content.len() + 2, ..m },
                seq![fence],
            )
            // A block that is never closed reaches to the end.
            &&& markdown::scan_lines(m, seq![opening] + content).1 == Seq::<FenceModel>::empty()
            &&& markdown::unclosed(markdown::scan_lines(m, seq![opening] + content).0) == Some(
                fence,
            )
        }),
{
    let opening = Seq::new(indent, |i: int| ' ') + Seq::new(len, |i: int| marker) + "mermaid"@
        + tail;
    let text = inner.map_values(|line: Seq<char>| line.push('\n')).flatten();
    let fence = FenceModel { text, first_line: m.line + 1, caption: m.heading };
    lemma_mermaid(tail);
    let name = "mermaid"@;
    text::white_space_prints_nothing('m');
    text::white_space_prints_nothing('d');
    assert(!name.contains('`'));
    lemma_opened(m, indent, marker, len, name, tail);
    let start = FenceModel { text: Seq::empty(), first_line: m.line + 1, caption: m.heading };
    let open = OpenModel { marker, len, indent, mermaid: true, fence: start };
    let opened = ScannerModel { line: m.line + 1, open: Some(open), ..m };
    assert(markdown::scan_line(m, opening) == (opened, None::<FenceModel>));
    lemma_contents(opened, open, content, inner);
    assert(start.text + text =~= text);
    let full = ScannerModel {
        line: m.line + 1 + content.len(),
        open: Some(OpenModel { fence, ..open }),
        ..m
    };
    assert(markdown::scan_lines(opened, content) == (full, Seq::<FenceModel>::empty()));
    let first = seq![opening];
    lemma_single(m, opening);
    markdown::scanning_in_batches(m, first, content);
    assert(markdown::scan_lines(m, first + content) == (full, Seq::<FenceModel>::empty()));
    lemma_single(full, closing);
    assert(text::without_return(closing) == closing);
    markdown::scanning_in_batches(m, first + content, seq![closing]);
    assert(Seq::<FenceModel>::empty() + seq![fence] =~= seq![fence]);
}

/// One line is scanned as a sequence of one.
proof fn lemma_single(m: ScannerModel, line: Seq<char>)
    ensures
        markdown::scan_lines(m, seq![line]) == (
            markdown::scan_line(m, line).0,
            markdown::one(markdown::scan_line(m, line).1),
        ),
{
    let (next, fence) = markdown::scan_line(m, line);
    assert(seq![line].drop_first() =~= Seq::empty());
    assert(markdown::scan_lines(next, seq![line].drop_first()) == (
        next,
        Seq::<FenceModel>::empty(),
    ));
    assert(markdown::one(fence) + Seq::<FenceModel>::empty() =~= markdown::one(fence));
}

proof fn lemma_skipped(m: ScannerModel, open: OpenModel, content: Seq<Seq<char>>)
    requires
        m.open == Some(open),
        !open.mermaid,
        forall|i: int|
            0 <= i < content.len() ==> !markdown::closes(
                text::without_return(#[trigger] content[i]),
                open.marker,
                open.len,
            ),
    ensures
        markdown::scan_lines(m, content) == (
            ScannerModel { line: m.line + content.len(), ..m },
            Seq::<FenceModel>::empty(),
        ),
    decreases content.len(),
{
    if content.len() > 0 {
        let (next, fence) = markdown::scan_line(m, content[0]);
        let rest = content.drop_first();
        assert forall|i: int| 0 <= i < rest.len() implies !markdown::closes(
            text::without_return(#[trigger] rest[i]),
            open.marker,
            open.len,
        ) by {
            assert(rest[i] == content[i + 1]);
        }
        lemma_skipped(next, open, rest);
        assert(markdown::one(fence) + Seq::<FenceModel>::empty() =~= Seq::<FenceModel>::empty());
    }
}

/// What stands in another block, whatever it looks like, is neither a diagram nor a heading, up
/// to the line that closes the block.
pub proof fn other_blocks_hold_no_diagrams(
    m: ScannerModel,
    opening: Seq<char>,
    content: Seq<Seq<char>>,
    closing: Seq<char>,
)
    requires
        m.open is None,
        opening.len() > 0 ==> opening.last() != '\r',
        closing.len() > 0 ==> closing.last() != '\r',
        markdown::opening_fence(opening) is Some,
        !markdown::names_mermaid(markdown::opening_fence(opening).unwrap().3),
        forall|i: int|
            0 <= i < content.len() ==> !markdown::closes(
                text::without_return(#[trigger] content[i]),
                markdown::opening_fence(opening).unwrap().0,
                markdown::opening_fence(opening).unwrap().1,
            ),
        markdown::closes(
            closing,
            markdown::opening_fence(opening).unwrap().0,
            markdown::opening_fence(opening).unwrap().1,
        ),
    ensures
        markdown::scan_lines(m, seq![opening] + content + seq![closing]) == (
            ScannerModel { line: m.line + content.len() + 2, ..m },
            Seq::<FenceModel>::empty(),
        ),
{
    let (marker, len, indent, info) = markdown::opening_fence(opening).unwrap();
    let (opened, none) = markdown::scan_line(m, opening);
    assert(text::without_return(opening) == opening);
    assert(text::without_return(closing) == closing);
    let open = opened.open.unwrap();
    lemma_skipped(opened, open, content);
    lemma_single(m, opening);
    markdown::scanning_in_batches(m, seq![opening], content);
    let full = markdown::scan_lines(m, seq![opening] + content).0;
    lemma_single(full, closing);
    markdown::scanning_in_batches(m, seq![opening] + content, seq![closing]);
}

// ---------------------------------------------------------------------------------------------
// Headings.

/// A heading is at most three spaces, one to six `#`, white space and a title. The title is what
/// stands between that white space and the end of the line, without `#` that close it.
pub proof fn headings_have_titles(
    indent: nat,
    level: nat,
    name: Seq<char>,
    closed: nat,
)
    requires
        indent <= 3,
        level > 0,
        name.len() > 0,
        !text::white(name[0]),
        !text::white(name.last()),
        name.last() != '#',
    ensures
        ({
            let start = Seq::new(indent, |i: int| ' ') + Seq::new(level, |i: int| '#');
            let end = seq![' '] + Seq::new(closed, |i: int| '#');
            let some = if level <= 6 {
                Some(name)
            } else {
                None
            };
            &&& markdown::title(start + seq![' '] + name) == some
            &&& markdown::title(start + seq!['\t'] + name) == some
            &&& closed > 0 ==> markdown::title(start + seq![' '] + name + end) == some
        }),
{
    let start = Seq::new(indent, |i: int| ' ') + Seq::new(level, |i: int| '#');
    let none = Seq::<char>::empty();
    lemma_title(indent, level, ' ', name, none);
    lemma_title(indent, level, '\t', name, none);
    assert(start + seq![' '] + name + none =~= start + seq![' '] + name);
    assert(start + seq!['\t'] + name + none =~= start + seq!['\t'] + name);
    if closed > 0 {
        lemma_title(indent, level, ' ', name, seq![' '] + Seq::new(closed, |i: int| '#'));
    }
}

proof fn lemma_title(indent: nat, level: nat, gap: char, name: Seq<char>, end: Seq<char>)
    requires
        indent <= 3,
        level > 0,
        gap == ' ' || gap == '\t',
        name.len() > 0,
        !text::white(name[0]),
        !text::white(name.last()),
        name.last() != '#',
        end.len() == 0 || (end.len() > 1 && end[0] == ' ' && forall|i: int|
            1 <= i < end.len() ==> #[trigger] end[i] == '#'),
    ensures
        markdown::title(
            Seq::new(indent, |i: int| ' ') + Seq::new(level, |i: int| '#') + seq![gap] + name + end,
        ) == if level <= 6 {
            Some(name)
        } else {
            None
        },
{
    let line = Seq::new(indent, |i: int| ' ') + Seq::new(level, |i: int| '#') + seq![gap] + name
        + end;
    let a = indent as int;
    let n = level as int;
    assert(line.take(a) =~= Seq::new(indent, |i: int| ' '));
    assert(line.subrange(a, a + n) =~= Seq::new(level, |i: int| '#'));
    assert(line[a + n] == gap);
    lemma_line(line, a, '#', n);
    let after = line.skip(a + n);
    assert(after =~= seq![gap] + name + end);
    text::white_space_prints_nothing('#');
    let whole = name + end;
    if end.len() == 0 {
        assert(after[1] == name[0] && after.last() == name.last());
    } else {
        assert(after[1] == name[0] && after.last() == end.last());
    }
    text::lemma_trimmed_is(after, 1, after.len() as int);
    assert(after.subrange(1, after.len() as int) =~= whole);
    assert(text::trimmed(after) == whole);
    if end.len() == 0 {
        assert(whole =~= name);
        assert(text::without_trailing(name, '#') == name);
        text::lemma_trimmed_end(name);
    } else {
        let open = name + seq![' '];
        lemma_without(open, '#', end.len() - 1);
        assert(open + Seq::new((end.len() - 1) as nat, |i: int| '#') =~= whole);
        assert(open.last() == ' ');
        assert(open.drop_last() =~= name);
        assert(text::trimmed_end(name) == name);
        assert(text::trimmed_end(open) == name);
    }
}

proof fn lemma_without(s: Seq<char>, c: char, n: int)
    requires
        n >= 0,
        s.len() > 0,
        s.last() != c,
    ensures
        text::without_trailing(s + Seq::new(n as nat, |i: int| c), c) == s,
    decreases n,
{
    let all = s + Seq::new(n as nat, |i: int| c);
    if n == 0 {
        assert(all =~= s);
    } else {
        assert(all.last() == c);
        assert(all.drop_last() =~= s + Seq::new((n - 1) as nat, |i: int| c));
        lemma_without(s, c, n - 1);
    }
}

/// A line without `#` at its start, after spaces, is no heading, and neither is one whose `#` are
/// followed by something other than white space.
pub proof fn other_lines_are_no_headings(indent: nat, level: nat, rest: Seq<char>)
    requires
        rest.len() > 0 ==> rest[0] != '#',
        level == 0 && rest.len() > 0 ==> rest[0] != ' ',
        indent > 3 || level == 0 || (rest.len() > 0 && rest[0] != ' ' && rest[0] != '\t'),
    ensures
        markdown::title(Seq::new(indent, |i: int| ' ') + Seq::new(level, |i: int| '#') + rest)
            is None,
{
    let line = Seq::new(indent, |i: int| ' ') + Seq::new(level, |i: int| '#') + rest;
    let a = indent as int;
    let n = level as int;
    assert forall|i: int| 0 <= i < a implies #[trigger] line[i] == ' ' by {}
    if a < line.len() {
        if level > 0 {
            assert(line[a] == '#');
        } else {
            assert(line[a] == rest[0]);
        }
    }
    text::lemma_run_is(line, ' ', a);
    let after = line.skip(a);
    if n < after.len() {
        assert(after[n] == rest[0]);
    }
    text::lemma_run_is(after, '#', n);
    assert(after.skip(n) =~= rest);
}

/// A heading becomes the caption of what follows, and other text changes nothing.
pub proof fn headings_caption_what_follows(m: ScannerModel, line: Seq<char>)
    requires
        m.open is None,
        line.len() > 0 ==> line.last() != '\r',
        markdown::opening_fence(line) is None,
    ensures
        markdown::scan_line(m, line) == (
            ScannerModel {
                line: m.line + 1,
                heading: match markdown::title(line) {
                    Some(title) => Some(title),
                    None => m.heading,
                },
                ..m
            },
            None::<FenceModel>,
        ),
{
    assert(text::without_return(line) == line);
}

/// A document of one `mermaid` block, whatever lines it holds, has one diagram, with exactly
/// those lines.
pub proof fn documents_of_one_block_have_one_diagram(content: Seq<Seq<char>>)
    requires
        forall|i: int|
            0 <= i < content.len() ==> !(#[trigger] content[i]).contains('\n')
                && !content[i].contains('`') && (content[i].len() > 0 ==> content[i].last()
                != '\r'),
    ensures
        ({
            let text = content.map_values(|line: Seq<char>| line.push('\n')).flatten();
            markdown::fences_of(
                text::lines(
                    seq!['`', '`', '`'] + "mermaid"@ + seq!['\n'] + text + seq![
                        '`',
                        '`',
                        '`',
                        '\n',
                    ],
                ),
            ) == seq![FenceModel { text, first_line: 1, caption: None }]
        }),
{
    let text = content.map_values(|line: Seq<char>| line.push('\n')).flatten();
    let ticks = seq!['`', '`', '`'];
    let opening = ticks + "mermaid"@;
    let all = seq![opening] + content + seq![ticks];
    lemma_mermaid(Seq::empty());
    assert forall|i: int| 0 <= i < all.len() implies !(#[trigger] all[i]).contains('\n') && (
    all[i].len() > 0 ==> all[i].last() != '\r') by {
        if 0 < i <= content.len() {
            assert(all[i] == content[i - 1]);
        }
    }
    text::lines_of_a_text_are_its_lines(all);
    let ended = all.map_values(|line: Seq<char>| line.push('\n'));
    let middle = content.map_values(|line: Seq<char>| line.push('\n'));
    assert(ended =~= seq![opening.push('\n')] + middle + seq![ticks.push('\n')]);
    lemma_flatten(seq![opening.push('\n')] + middle, seq![ticks.push('\n')]);
    lemma_flatten(seq![opening.push('\n')], middle);
    lemma_flatten_one(opening.push('\n'));
    lemma_flatten_one(ticks.push('\n'));
    assert(ended.flatten() =~= ticks + "mermaid"@ + seq!['\n'] + text + seq!['`', '`', '`', '\n']);
    let m = markdown::fresh();
    assert forall|i: int| 0 <= i < content.len() implies !markdown::closes(
        #[trigger] content[i],
        '`',
        3,
    ) by {
        only_markers_close_a_block(content[i], '`', 3);
    }
    assert forall|i: int| 0 <= i < content.len() implies #[trigger] content[i] == Seq::new(
        0nat,
        |k: int| ' ',
    ) + content[i] by {
        assert(content[i] =~= Seq::new(0nat, |k: int| ' ') + content[i]);
    }
    assert(ticks.take(0) =~= Seq::new(0nat, |i: int| ' '));
    assert(ticks.subrange(0, 3) =~= Seq::new(3nat, |i: int| '`'));
    only_markers_close_a_block(ticks, '`', 3);
    blocks_hold_all_their_lines(m, 0, '`', 3, Seq::empty(), content, content, ticks);
    let built = Seq::new(0nat, |i: int| ' ') + Seq::new(3nat, |i: int| '`') + "mermaid"@
        + Seq::<char>::empty();
    assert(built =~= opening);
    let fence = FenceModel { text, first_line: 1, caption: None };
    assert(markdown::scan_lines(m, all).1 == seq![fence]);
    assert(seq![fence] + Seq::<FenceModel>::empty() =~= seq![fence]);
}

proof fn lemma_flatten_one(s: Seq<char>)
    ensures
        seq![s].flatten() == s,
{
    assert(seq![s].drop_first() =~= Seq::empty());
    assert(seq![s].drop_first().flatten() =~= Seq::empty());
    assert(seq![s].flatten() =~= s);
}

proof fn lemma_flatten(a: Seq<Seq<char>>, b: Seq<Seq<char>>)
    ensures
        (a + b).flatten() == a.flatten() + b.flatten(),
    decreases a.len(),
{
    if a.len() == 0 {
        assert(a + b =~= b);
        assert((a + b).flatten() =~= a.flatten() + b.flatten());
    } else {
        lemma_flatten(a.drop_first(), b);
        assert((a + b).drop_first() =~= a.drop_first() + b);
        assert((a + b)[0] == a[0]);
        assert((a + b).flatten() =~= a.flatten() + b.flatten());
    }
}

} // verus!
