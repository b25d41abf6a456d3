//! What holds of how labels are read and measured.

use vstd::prelude::*;

use super::labels;
use super::measure;
use super::measure::Width;
use crate::fonts;
use crate::text;

verus! {

// ---------------------------------------------------------------------------------------------
// Widths.

/// Glyphs side by side are as wide as all of them together, whatever their order.
pub proof fn advances_add_up(a: Seq<i32>, b: Seq<i32>)
    ensures
        measure::total(a + b) == measure::total(a) + measure::total(b),
        measure::total(a + b) == measure::total(b + a),
    decreases a.len() + b.len(),
{
    lemma_total(a, b);
    lemma_total(b, a);
}

proof fn lemma_total(a: Seq<i32>, b: Seq<i32>)
    ensures
        measure::total(a + b) == measure::total(a) + measure::total(b),
    decreases b.len(),
{
    if b.len() == 0 {
        assert(a + b =~= a);
    } else {
        lemma_total(a, b.drop_last());
        assert((a + b).drop_last() =~= a + b.drop_last());
        assert((a + b).last() == b.last());
    }
}

/// A label is as wide as its widest line: no line is wider, and one of them is as wide, unless
/// none takes any room. A line that cannot be measured leaves the whole label unmeasured.
pub proof fn labels_are_as_wide_as_their_widest_line(font: Seq<u8>, lines: Seq<Seq<char>>, n: int)
    requires
        0 <= n <= lines.len(),
    ensures
        measure::widest_of(font, lines, n) is None <==> exists|i: int|
            0 <= i < n && (#[trigger] measure::line_width(font, lines[i])) is None,
        measure::widest_of(font, lines, n) matches Some(width) ==> {
            &&& width.advance >= 0
            &&& forall|i: int|
                0 <= i < n ==> (#[trigger] measure::line_width(font, lines[i])).unwrap().advance
                    <= width.advance
            &&& width == (Width { advance: 0, units_per_em: 1 }) || exists|i: int|
                0 <= i < n && #[trigger] measure::line_width(font, lines[i]) == Some(width)
        },
    decreases n,
{
    if n > 0 {
        labels_are_as_wide_as_their_widest_line(font, lines, n - 1);
        assert(measure::line_width(font, lines[n - 1]) == measure::line_width(
            font,
            lines[n - 1],
        ));
        if measure::widest_of(font, lines, n - 1) is None {
            let i = choose|i: int|
                0 <= i < n - 1 && (#[trigger] measure::line_width(font, lines[i])) is None;
            assert(measure::line_width(font, lines[i]) is None);
        }
    }
}

/// A line without words takes no room, and white space around words does not either.
pub proof fn white_space_takes_no_room(font: Seq<u8>, line: Seq<char>, other: Seq<char>)
    ensures
        text::collapsed(line).len() == 0 ==> measure::line_width(font, line) == Some(
            Width { advance: 0, units_per_em: 1 },
        ),
        text::collapsed(line) == text::collapsed(other) ==> measure::line_width(font, line)
            == measure::line_width(font, other),
{
}

// ---------------------------------------------------------------------------------------------
// Lines.

proof fn lemma_break_spaces(spaces: Seq<char>, after: Seq<char>)
    requires
        forall|i: int|
            0 <= i < spaces.len() ==> #[trigger] spaces[i] == ' ' || spaces[i] == '\t'
                || spaces[i] == '\r' || spaces[i] == '\n',
        after.len() > 0,
        after[0] == '>' || after[0] == '/',
    ensures
        measure::break_spaces(spaces + after) == spaces.len(),
    decreases spaces.len(),
{
    if spaces.len() == 0 {
        assert(spaces + after =~= after);
    } else {
        let rest = spaces.skip(1);
        assert forall|i: int| 0 <= i < rest.len() implies #[trigger] rest[i] == ' ' || rest[i]
            == '\t' || rest[i] == '\r' || rest[i] == '\n' by {
            assert(rest[i] == spaces[i + 1]);
        }
        lemma_break_spaces(rest, after);
        assert((spaces + after).skip(1) =~= rest + after);
    }
}

/// A break tag ends a line, in letters of either case, with white space and a slash or without.
/// Other characters stay as they are.
pub proof fn break_tags_end_lines(
    b: char,
    r: char,
    spaces: Seq<char>,
    end: Seq<char>,
    after: Seq<char>,
    c: char,
)
    requires
        b == 'b' || b == 'B',
        r == 'r' || r == 'R',
        forall|i: int|
            0 <= i < spaces.len() ==> #[trigger] spaces[i] == ' ' || spaces[i] == '\t'
                || spaces[i] == '\r' || spaces[i] == '\n',
        end == seq!['>'] || end == seq!['/', '>'],
        c != '<',
    ensures
        measure::with_breaks(seq!['<', b, r] + spaces + end + after) == seq!['\n']
            + measure::with_breaks(after),
        measure::with_breaks(seq![c] + after) == seq![c] + measure::with_breaks(after),
        measure::with_breaks(Seq::empty()) == Seq::<char>::empty(),
{
    let all = seq!['<', b, r] + spaces + end + after;
    let tail = end + after;
    let k = 3 + spaces.len() as int;
    assert(all.skip(3) =~= spaces + tail);
    assert(tail[0] == end[0]);
    lemma_break_spaces(spaces, tail);
    assert(all.skip(k) =~= tail);
    if end.len() == 1 {
        assert(tail.take(1) =~= seq!['>']);
    } else {
        assert(tail[0] == '/');
        assert(tail.take(2) =~= seq!['/', '>']);
        assert(tail.take(1)[0] == '/');
        assert(!text::starts(tail, seq!['>']));
    }
    let n = k + end.len();
    assert(measure::break_length(all) == n);
    assert(all.skip(n) =~= after);
    assert((seq![c] + after).skip(1) =~= after);
}

/// Blank lines at the end of a label take no room, as long as a line is left. Other lines stay.
pub proof fn blank_lines_at_the_end_are_dropped(lines: Seq<Seq<char>>, line: Seq<char>)
    ensures
        lines.len() > 0 && measure::blank(line) ==> measure::without_blank_end(lines.push(line))
            == measure::without_blank_end(lines),
        !measure::blank(line) ==> measure::without_blank_end(lines.push(line)) == lines.push(line),
        measure::without_blank_end(seq![line]) == seq![line],
        measure::blank(" \t\n\r"@),
        measure::blank(Seq::empty()),
        forall|i: int|
            0 <= i < line.len() && '!' <= #[trigger] line[i] <= '~' ==> !measure::blank(line),
{
    assert(lines.push(line).drop_last() =~= lines);
    reveal_strlit(" \t\n\r");
}

// ---------------------------------------------------------------------------------------------
// Fonts.

/// A font that can be read draws ASCII. What it lacks is missing in a text exactly if it is
/// missing in a part of it; characters that show nothing are never missing.
pub proof fn fonts_draw_ascii(a: Seq<char>, b: Seq<char>, font: Seq<u8>)
    ensures
        fonts::readable(font) && (forall|i: int|
            0 <= i < a.len() ==> (#[trigger] a[i]) as int <= 0x7f) ==> !fonts::lacking(a, font),
        fonts::readable(font) && (forall|i: int|
            0 <= i < a.len() ==> text::white(#[trigger] a[i]) || fonts::covers(font, a[i]))
            ==> !fonts::lacking(a, font),
        fonts::lacking(a + b, font) == (fonts::lacking(a, font) || fonts::lacking(b, font)),
{
    let all = a + b;
    if fonts::readable(font) && fonts::lacking(a, font) {
        let i = choose|i: int|
            0 <= i < a.len() && fonts::unusual(#[trigger] a[i]) && !fonts::covers(font, a[i]);
        assert(all[i] == a[i]);
    }
    if fonts::readable(font) && fonts::lacking(b, font) {
        let i = choose|i: int|
            0 <= i < b.len() && fonts::unusual(#[trigger] b[i]) && !fonts::covers(font, b[i]);
        assert(all[a.len() + i] == b[i]);
    }
    if fonts::readable(font) && fonts::lacking(all, font) {
        let i = choose|i: int|
            0 <= i < all.len() && fonts::unusual(#[trigger] all[i]) && !fonts::covers(font, all[i]);
        if i < a.len() {
            assert(all[i] == a[i]);
        } else {
            assert(all[i] == b[i - a.len()]);
        }
    }
}

/// A visible character that the font does not cover is missing, and so is every character of a
/// font that cannot be read.
pub proof fn missing_characters_are_found(
    before: Seq<char>,
    c: char,
    after: Seq<char>,
    font: Seq<u8>,
)
    ensures
        !fonts::readable(font) ==> fonts::lacking(before + seq![c] + after, font),
        c as int > 0x9f && !text::white(c) && !fonts::covers(font, c) ==> fonts::lacking(
            before + seq![c] + after,
            font,
        ),
{
    let all = before + seq![c] + after;
    assert(all[before.len() as int] == c);
}

// ---------------------------------------------------------------------------------------------
// Tags.

proof fn lemma_plain_tag(before: Seq<char>, after: Seq<char>)
    requires
        forall|i: int|
            0 <= i < before.len() ==> #[trigger] before[i] != '>' && before[i] != '"' && before[i]
                != '\'',
    ensures
        labels::tag_length(before + after, None) == match labels::tag_length(after, None) {
            Some(n) => Some(n + before.len()),
            None => None,
        },
    decreases before.len(),
{
    if before.len() == 0 {
        assert(before + after =~= after);
    } else {
        let rest = before.drop_first();
        assert forall|i: int| 0 <= i < rest.len() implies #[trigger] rest[i] != '>' && rest[i]
            != '"' && rest[i] != '\'' by {
            assert(rest[i] == before[i + 1]);
        }
        lemma_plain_tag(rest, after);
        assert((before + after).drop_first() =~= rest + after);
    }
}

proof fn lemma_value(value: Seq<char>, quote: char, after: Seq<char>)
    requires
        !value.contains(quote),
    ensures
        labels::tag_length(value + seq![quote] + after, Some(quote)) == match labels::tag_length(
            after,
            None,
        ) {
            Some(n) => Some(n + value.len() + 1),
            None => None,
        },
    decreases value.len(),
{
    let all = value + seq![quote] + after;
    if value.len() == 0 {
        assert(all[0] == quote);
        assert(all.drop_first() =~= after);
    } else {
        assert(value.contains(value[0]));
        let rest = value.drop_first();
        assert forall|i: int| 0 <= i < rest.len() implies rest[i] != quote by {
            assert(value.contains(value[i + 1]));
        }
        lemma_value(rest, quote, after);
        assert(all.drop_first() =~= rest + seq![quote] + after);
    }
}

/// A tag ends at its first `>`, but for those in quoted values, which end at the quotation mark
/// that they started with.
pub proof fn quoted_values_do_not_end_tags(
    before: Seq<char>,
    quote: char,
    value: Seq<char>,
    after: Seq<char>,
)
    requires
        forall|i: int|
            0 <= i < before.len() ==> #[trigger] before[i] != '>' && before[i] != '"' && before[i]
                != '\'',
        quote == '"' || quote == '\'',
        !value.contains(quote),
    ensures
        labels::tag_length(before + seq!['>'] + after, None) == Some(before.len() + 1int),
        labels::tag_length(before + seq![quote] + value + seq![quote] + after, None)
            == match labels::tag_length(after, None) {
            Some(n) => Some(before.len() + 1 + value.len() + 1 + n),
            None => None,
        },
        labels::tag_length(before, None) is None,
{
    let end = seq!['>'] + after;
    lemma_plain_tag(before, end);
    assert(before + end =~= before + seq!['>'] + after);
    let tail = seq![quote] + value + seq![quote] + after;
    lemma_plain_tag(before, tail);
    assert(before + tail =~= before + seq![quote] + value + seq![quote] + after);
    assert(tail[0] == quote);
    assert(tail.drop_first() =~= value + seq![quote] + after);
    lemma_value(value, quote, after);
    lemma_plain_tag(before, Seq::empty());
    assert(before + Seq::<char>::empty() =~= before);
}

proof fn lemma_first(body: Seq<char>, mark: Seq<char>, rest: Seq<char>)
    requires
        mark.len() > 0,
        forall|i: int| 0 <= i < body.len() ==> !text::starts(#[trigger] (body + mark).skip(i), mark),
    ensures
        text::seek(body + mark + rest, mark) == Some(body.len() as int),
{
    let all = body + mark + rest;
    text::searches_find_the_first_place(all, mark);
    let n = body.len() as int;
    assert(all.skip(n) =~= mark + rest);
    assert((mark + rest).take(mark.len() as int) =~= mark);
    assert(text::starts(all.skip(n), mark));
    if let Some(k) = text::seek(all, mark) {
        if k < n {
            let found = all.skip(k).take(mark.len() as int);
            assert((body + mark).skip(k).take(mark.len() as int) =~= found);
            assert(text::starts((body + mark).skip(k), mark));
        }
    }
}

/// Markup inside comments is not read: a comment goes on to the first `-->`.
pub proof fn comments_are_skipped(before: Seq<char>, body: Seq<char>, rest: Seq<char>)
    requires
        before.len() + body.len() + rest.len() + 7 <= usize::MAX,
        forall|i: int|
            0 <= i < body.len() + 4 ==> !text::starts(
                #[trigger] ("<!--"@ + body + "-->"@).skip(i),
                "-->"@,
            ),
    ensures
        labels::markup_at(before + "<!--"@ + body + "-->"@ + rest, before.len() as int) == Some(
            labels::Markup::Skip { end: (before.len() + 4 + body.len() + 3) as usize },
        ),
{
    reveal_strlit("<!--");
    reveal_strlit("-->");
    let all = before + "<!--"@ + body + "-->"@ + rest;
    let start = before.len() as int;
    let tail = "<!--"@ + body + "-->"@ + rest;
    assert(all.skip(start) =~= tail);
    assert(tail.take(4) =~= "<!--"@);
    let inner = "<!--"@ + body;
    assert(inner + "-->"@ =~= "<!--"@ + body + "-->"@);
    lemma_first(inner, "-->"@, rest);
    assert(inner + "-->"@ + rest =~= tail);
}

/// A label is a `foreignObject` element, from its start tag to the first end tag behind it. Quoted
/// values do not end the start tag, and nothing in a label is read as markup.
pub proof fn labels_are_read_whole(
    before: Seq<char>,
    attributes: Seq<char>,
    body: Seq<char>,
    rest: Seq<char>,
)
    requires
        before.len() + attributes.len() + body.len() + rest.len() + 32 <= usize::MAX,
        forall|i: int|
            0 <= i < attributes.len() ==> #[trigger] attributes[i] != '>' && attributes[i] != '"'
                && attributes[i] != '\'',
        attributes.len() > 0 ==> attributes[0] == ' ' && attributes.last() != '/',
        forall|i: int|
            0 <= i < body.len() ==> !text::starts(
                #[trigger] (body + "</foreignObject>"@).skip(i),
                "</foreignObject>"@,
            ),
    ensures
        labels::markup_at(
            before + "<foreignObject"@ + attributes + ">"@ + body + "</foreignObject>"@ + rest,
            before.len() as int,
        ) == Some(
            labels::Markup::Label {
                end: (before.len() + 14 + attributes.len() + 1 + body.len() + 16) as usize,
            },
        ),
{
    reveal_strlit("<foreignObject");
    reveal_strlit("foreignObject");
    reveal_strlit(">");
    reveal_strlit("</foreignObject>");
    reveal_strlit("<!--");
    reveal_strlit("<![CDATA[");
    reveal_strlit("<!");
    reveal_strlit("<?");
    reveal_strlit("</");
    reveal_strlit("style");
    let end = "</foreignObject>"@;
    let tag = "<foreignObject"@ + attributes;
    let all = before + "<foreignObject"@ + attributes + ">"@ + body + end + rest;
    let start = before.len() as int;
    let tail = tag + ">"@ + body + end + rest;
    assert(all.skip(start) =~= tail);
    assert(tail[1] == 'f');
    assert("<!--"@[1] == '!' && "<![CDATA["@[1] == '!' && "<!"@[1] == '!' && "<?"@[1] == '?'
        && "</"@[1] == '/');
    assert(tail.take(4)[1] == 'f');
    assert(tail.take(9)[1] == 'f');
    assert(tail.take(2)[1] == 'f');
    let after = body + end + rest;
    assert forall|i: int| 0 <= i < tag.len() implies #[trigger] tag[i] != '>' && tag[i] != '"'
        && tag[i] != '\'' by {
        if i >= 14 {
            assert(tag[i] == attributes[i - 14]);
        }
    }
    quoted_values_do_not_end_tags(tag, '"', Seq::empty(), after);
    assert(tag + seq!['>'] + after =~= tail);
    let close = start + tag.len() + 1;
    lemma_name("foreignObject"@, attributes + ">"@ + after);
    assert(tail.skip(1) =~= "foreignObject"@ + (attributes + ">"@ + after));
    assert(all.subrange(start + 1, start + 14) =~= "foreignObject"@);
    assert(all[close - 2] == tag.last());
    assert(all.skip(close) =~= after);
    lemma_first(body, end, rest);
}

proof fn lemma_name(name: Seq<char>, rest: Seq<char>)
    requires
        rest.len() > 0,
        rest[0] == ' ' || rest[0] == '>',
        forall|i: int| 0 <= i < name.len() ==> 'A' <= #[trigger] name[i] <= 'z',
    ensures
        labels::name_length(name + rest) == name.len(),
    decreases name.len(),
{
    if name.len() == 0 {
        assert(name + rest =~= rest);
    } else {
        let later = name.drop_first();
        assert forall|i: int| 0 <= i < later.len() implies 'A' <= #[trigger] later[i] <= 'z' by {
            assert(later[i] == name[i + 1]);
        }
        lemma_name(later, rest);
        assert((name + rest)[0] == name[0]);
        assert((name + rest).drop_first() =~= later + rest);
    }
}

} // verus!
