//! Label measurement with the Inter font.
//!
//! merman's deterministic measurer reproduces Mermaid's browser measurements in detail
//! (wrapping, glyph overhangs, line heights), but its widths assume Mermaid's default fonts and
//! Inter is wider. Widths are corrected by the ratio of Inter's shaped width to the deterministic
//! width of the same text. Inter's widths are measured here, in units of the font, and the
//! ratios are kept here.

use vstd::hash_map::StringHashMap;
use vstd::prelude::*;

use crate::text;

verus! {

/// A width: how far the text advances, and how many units an em has.
#[derive(Clone, Copy, Debug, PartialEq, Eq, Structural)]
pub struct Width {
    pub advance: i128,
    pub units_per_em: i32,
}

/// How far glyphs advance together.
pub open spec fn total(advances: Seq<i32>) -> int
    decreases advances.len(),
{
    if advances.len() == 0 {
        0
    } else {
        total(advances.drop_last()) + advances.last()
    }
}

/// The width of glyphs, given how many units an em has. An em has at least one.
pub open spec fn glyphs_width(advances: Seq<i32>, units: i32) -> Width {
    Width {
        advance: total(advances) as i128,
        units_per_em: if units < 1 {
            1
        } else {
            units
        },
    }
}

/// The width of nothing.
pub open spec fn no_width() -> Width {
    Width { advance: 0, units_per_em: 1 }
}

/// The wider of two widths.
pub open spec fn wider(a: Width, b: Width) -> Width {
    if b.advance > a.advance {
        b
    } else {
        a
    }
}

/// The width of shaped glyphs, given how many units an em has.
pub fn measured(advances: &[i32], units: i32) -> (width: Width)
    ensures
        width == glyphs_width(advances@, units),
        width.advance == total(advances@),
        width.units_per_em >= 1,
{
    let mut advance: i128 = 0;
    let mut i: usize = 0;
    while i < advances.len()
        invariant
            i <= advances@.len(),
            advance == total(advances@.take(i as int)),
            -0x8000_0000 * i <= advance <= 0x8000_0000 * i,
        decreases advances@.len() - i,
    {
        assert(advances@.take(i + 1).drop_last() =~= advances@.take(i as int));
        advance = advance + advances[i] as i128;
        i += 1;
    }
    assert(advances@.take(advances@.len() as int) =~= advances@);
    Width {
        advance,
        units_per_em: if units < 1 {
            1
        } else {
            units
        },
    }
}

/// What `harfrust` makes of a line: how far each glyph advances, and how many units an em of the
/// font has. Nothing where the font cannot be read.
pub uninterp spec fn shaped(font: Seq<u8>, line: Seq<char>) -> Option<(Seq<i32>, i32)>;

/// `harfrust::Shaper::shape`, which is what resvg draws text with, on a line whose direction and
/// script are guessed from it: the horizontal advance of each glyph, and the units of an em.
#[verifier::external_body]
fn shape(font: &[u8], line: &str) -> (r: Option<(Vec<i32>, i32)>)
    ensures
        match r {
            Some((advances, units)) => shaped(font@, line@) == Some((advances@, units)),
            None => shaped(font@, line@) is None,
        },
{
    let font = harfrust::FontRef::new(font).ok()?;
    let data = harfrust::ShaperData::new(&font);
    let shaper = data.shaper(&font).build();
    let mut buffer = harfrust::UnicodeBuffer::new();
    buffer.push_str(line);
    buffer.guess_segment_properties();
    let glyphs = shaper.shape(buffer, harfrust::ShapeOptions::new());
    let advances = glyphs.glyph_positions().iter().map(|position| position.x_advance).collect();
    Some((advances, shaper.units_per_em()))
}

/// The width of a line, its white space collapsed. A blank line has none.
pub open spec fn line_width(font: Seq<u8>, line: Seq<char>) -> Option<Width> {
    let words = text::collapsed(line);
    if words.len() == 0 {
        Some(no_width())
    } else {
        match shaped(font, words) {
            Some((advances, units)) => Some(glyphs_width(advances, units)),
            None => None,
        }
    }
}

/// The width of one line, or `None` where the font cannot be read.
pub fn shaped_width(font: &[u8], line: &str) -> (width: Option<Width>)
    ensures
        width == line_width(font@, line@),
{
    let words = text::collapse(line);
    if text::chars(words.as_str()).len() == 0 {
        return Some(Width { advance: 0, units_per_em: 1 });
    }
    match shape(font, words.as_str()) {
        Some((advances, units)) => Some(measured(advances.as_slice(), units)),
        None => None,
    }
}

/// How much white space a text starts with that a break tag can hold.
pub open spec fn break_spaces(s: Seq<char>) -> nat
    decreases s.len(),
{
    if s.len() > 0 && (s[0] == ' ' || s[0] == '\t' || s[0] == '\r' || s[0] == '\n') {
        1 + break_spaces(s.skip(1))
    } else {
        0
    }
}

/// How long the break tag is that a text starts with, or 0 where there is none: `<br>` in letters
/// of either case, which white space and then a slash can follow.
pub open spec fn break_length(s: Seq<char>) -> nat {
    if s.len() > 3 && s[0] == '<' && (s[1] == 'b' || s[1] == 'B') && (s[2] == 'r' || s[2] == 'R') {
        let n = 3 + break_spaces(s.skip(3));
        if text::starts(s.skip(n as int), seq!['>']) {
            n + 1
        } else if text::starts(s.skip(n as int), seq!['/', '>']) {
            n + 2
        } else {
            0
        }
    } else {
        0
    }
}

proof fn lemma_break_spaces(s: Seq<char>)
    ensures
        break_spaces(s) <= s.len(),
    decreases s.len(),
{
    if s.len() > 0 {
        lemma_break_spaces(s.skip(1));
    }
}

/// A break tag is no longer than the text that starts with it.
pub proof fn lemma_break_length(s: Seq<char>)
    ensures
        break_length(s) <= s.len(),
{
    if s.len() > 3 {
        lemma_break_spaces(s.skip(3));
    }
}

/// A text with line feeds for its break tags.
pub open spec fn with_breaks(s: Seq<char>) -> Seq<char>
    decreases s.len(),
{
    if s.len() == 0 {
        s
    } else {
        let n = break_length(s);
        proof {
            lemma_break_length(s);
        }
        if n > 0 {
            seq!['\n'] + with_breaks(s.skip(n as int))
        } else {
            seq![s[0]] + with_breaks(s.skip(1))
        }
    }
}

/// Whether a line shows nothing.
pub open spec fn blank(line: Seq<char>) -> bool {
    forall|i: int|
        0 <= i < line.len() ==> {
            ||| #[trigger] line[i] == ' '
            ||| line[i] == '\t'
            ||| line[i] == '\n'
            ||| line[i] == '\r'
            ||| line[i] == '\u{c}'
        }
}

/// Lines without the blank ones at the end. The first line stays.
pub open spec fn without_blank_end(lines: Seq<Seq<char>>) -> Seq<Seq<char>>
    decreases lines.len(),
{
    if lines.len() > 1 && blank(lines.last()) {
        without_blank_end(lines.drop_last())
    } else {
        lines
    }
}

/// The lines of a label.
pub open spec fn lines_of(label: Seq<char>) -> Seq<Seq<char>> {
    without_blank_end(text::split(with_breaks(label), '\n'))
}

/// `merman::svg::DeterministicTextMeasurer::normalized_text_lines`: the lines of a label, which
/// line feeds and HTML break tags separate, without the blank ones at the end.
#[verifier::external_body]
fn label_lines(label: &str) -> (lines: Vec<String>)
    ensures
        text::views(lines@) == lines_of(label@),
{
    merman::svg::DeterministicTextMeasurer::normalized_text_lines(label)
}

/// The widest of the first `n` lines.
pub open spec fn widest_of(font: Seq<u8>, lines: Seq<Seq<char>>, n: int) -> Option<Width>
    decreases n,
{
    if n <= 0 {
        Some(no_width())
    } else {
        match (widest_of(font, lines, n - 1), line_width(font, lines[n - 1])) {
            (Some(a), Some(b)) => Some(wider(a, b)),
            _ => None,
        }
    }
}

/// The width of the widest line, or `None` where the font cannot be read.
pub fn widest(font: &[u8], lines: &Vec<String>) -> (width: Option<Width>)
    ensures
        width == widest_of(font@, text::views(lines@), lines@.len() as int),
{
    let mut width = Width { advance: 0, units_per_em: 1 };
    let ghost all = text::views(lines@);
    let mut i: usize = 0;
    while i < lines.len()
        invariant
            i <= lines@.len(),
            all == text::views(lines@),
            widest_of(font@, all, i as int) == Some(width),
        decreases lines@.len() - i,
    {
        assert(all[i as int] == lines@[i as int]@);
        match shaped_width(font, lines[i].as_str()) {
            Some(own) => {
                if own.advance > width.advance {
                    width = own;
                }
            },
            None => {
                proof {
                    assert(widest_of(font@, all, i + 1) is None);
                    lemma_unreadable(font@, all, i + 1, lines@.len() as int);
                }
                return None;
            },
        }
        i += 1;
    }
    Some(width)
}

proof fn lemma_unreadable(font: Seq<u8>, lines: Seq<Seq<char>>, n: int, m: int)
    requires
        0 <= n <= m,
        widest_of(font, lines, n) is None,
    ensures
        widest_of(font, lines, m) is None,
    decreases m - n,
{
    if n < m {
        assert(widest_of(font, lines, n + 1) is None);
        lemma_unreadable(font, lines, n + 1, m);
    }
}

/// Inter's width of a label: that of its widest line.
pub fn label_width(font: &[u8], label: &str) -> (width: Option<Width>)
    ensures
        width == widest_of(font@, lines_of(label@), lines_of(label@).len() as int),
{
    let lines = label_lines(label);
    assert(text::views(lines@).len() == lines@.len());
    widest(font, &lines)
}

// ---------------------------------------------------------------------------------------------
// The ratios.

/// Cached ratios kept before the cache is cleared, which bounds memory in long sessions.
pub const MAX_CACHED: usize = 50_000;

/// What a ratio is kept under: the face, the bits of the font size, and the text.
pub open spec fn key_of(face: nat, size: u64, text: Seq<char>) -> Seq<char> {
    text::decimal(face) + seq![' '] + (text::decimal(size as nat) + seq![' '] + text)
}

/// Ratios of different measurements are kept apart.
pub proof fn measurements_are_told_apart(
    face: nat,
    size: u64,
    text: Seq<char>,
    other_face: nat,
    other_size: u64,
    other_text: Seq<char>,
)
    requires
        key_of(face, size, text) == key_of(other_face, other_size, other_text),
    ensures
        face == other_face,
        size == other_size,
        text == other_text,
{
    text::lemma_same_number(
        face,
        other_face,
        ' ',
        text::decimal(size as nat) + seq![' '] + text,
        text::decimal(other_size as nat) + seq![' '] + other_text,
    );
    text::lemma_same_number(size as nat, other_size as nat, ' ', text, other_text);
}

fn key(face: usize, size: u64, text: &str) -> (key: String)
    ensures
        key@ == key_of(face as nat, size, text@),
{
    let mut key = String::new();
    text::push_decimal(&mut key, face as u128);
    key.append(" ");
    text::push_decimal(&mut key, size as u128);
    key.append(" ");
    key.append(text);
    proof {
        reveal_strlit(" ");
        assert(" "@ =~= seq![' ']);
        assert(key@ =~= key_of(face as nat, size, text@));
    }
    key
}

/// The ratios measured so far. They are the bits of double-precision numbers.
pub struct Ratios {
    known: StringHashMap<u64>,
}

impl View for Ratios {
    type V = Map<Seq<char>, u64>;

    closed spec fn view(&self) -> Map<Seq<char>, u64> {
        self.known@
    }
}

impl Ratios {
    /// Whether the cache is within its bound.
    pub open spec fn bounded(&self) -> bool {
        self@.dom().finite() && self@.len() <= MAX_CACHED
    }

    pub fn new() -> (ratios: Ratios)
        ensures
            ratios@ == Map::<Seq<char>, u64>::empty(),
            ratios.bounded(),
    {
        Ratios { known: StringHashMap::new() }
    }

    /// How many ratios are kept.
    pub fn count(&self) -> (n: usize)
        ensures
            n == self@.len(),
    {
        self.known.len()
    }

    /// The ratio of a measurement that was made before.
    pub fn get(&self, face: usize, size: u64, text: &str) -> (ratio: Option<u64>)
        ensures
            ratio == if self@.contains_key(key_of(face as nat, size, text@)) {
                Some(self@[key_of(face as nat, size, text@)])
            } else {
                None
            },
    {
        match self.known.get(key(face, size, text).as_str()) {
            Some(ratio) => Some(*ratio),
            None => None,
        }
    }

    /// Keeps the ratio of a measurement. A full cache is cleared first.
    pub fn insert(&mut self, face: usize, size: u64, text: &str, ratio: u64)
        requires
            old(self).bounded(),
        ensures
            final(self)@ == (if old(self)@.len() >= MAX_CACHED {
                Map::<Seq<char>, u64>::empty()
            } else {
                old(self)@
            }).insert(key_of(face as nat, size, text@), ratio),
            final(self).bounded(),
    {
        if self.known.len() >= MAX_CACHED {
            self.known.clear();
        }
        self.known.insert(key(face, size, text), ratio);
    }
}

} // verus!
