//! The Inter font, used for both label measurement and rasterization so that layout boxes match
//! the drawn glyphs on every machine.

use vstd::prelude::*;

use crate::text;

verus! {

pub const FAMILY: &'static str = "Inter";

/// One of the font's faces.
#[derive(Clone, Copy, Debug, PartialEq, Eq, Structural)]
pub struct Face {
    pub bold: bool,
    pub italic: bool,
}

impl Face {
    /// Which of the four faces this is: regular, italic, bold or bold italic.
    pub fn index(self) -> (index: usize)
        ensures
            index == (if self.bold {
                2int
            } else {
                0
            }) + if self.italic {
                1int
            } else {
                0
            },
    {
        match (self.bold, self.italic) {
            (false, false) => 0,
            (false, true) => 1,
            (true, false) => 2,
            (true, true) => 3,
        }
    }
}

/// Whether a CSS `font-weight` is bold: by name, or from 600 on.
pub open spec fn is_bold(weight: Option<Seq<char>>) -> bool {
    match weight {
        Some(weight) => {
            let word = text::trimmed(weight);
            ||| word == "bold"@
            ||| word == "bolder"@
            ||| text::number(word, 10, u16::MAX as nat) matches Some(w) && w >= 600
        },
        None => false,
    }
}

/// Whether a CSS `font-style` is slanted.
pub open spec fn is_italic(style: Option<Seq<char>>) -> bool {
    match style {
        Some(style) => text::trimmed(style) == "italic"@ || text::trimmed(style) == "oblique"@,
        None => false,
    }
}

/// The face for a CSS `font-weight` and `font-style`.
pub fn face(weight: Option<&str>, style: Option<&str>) -> (face: Face)
    ensures
        face == (Face {
            bold: is_bold(text::optional_str(weight)),
            italic: is_italic(text::optional_str(style)),
        }),
{
    let bold = match weight {
        Some(weight) => {
            let all = text::chars(weight);
            let word = text::trim(all.as_slice());
            if text::is_text(word, "bold") || text::is_text(word, "bolder") {
                true
            } else {
                match text::parse_number(word, 10, u16::MAX as u64) {
                    Some(w) => w >= 600,
                    None => false,
                }
            }
        },
        None => false,
    };
    let italic = match style {
        Some(style) => {
            let all = text::chars(style);
            let word = text::trim(all.as_slice());
            text::is_text(word, "italic") || text::is_text(word, "oblique")
        },
        None => false,
    };
    Face { bold, italic }
}

// ---------------------------------------------------------------------------------------------
// Characters that the font lacks.

/// Whether `skrifa::FontRef::new` accepts a font.
pub uninterp spec fn readable(font: Seq<u8>) -> bool;

/// `skrifa::FontRef::new`: whether the bytes are a font that can be read.
#[verifier::external_body]
fn is_readable(font: &[u8]) -> (r: bool)
    ensures
        r == readable(font@),
{
    skrifa::FontRef::new(font).is_ok()
}

/// Whether the character map of a font has a glyph for `c`.
pub uninterp spec fn covers(font: Seq<u8>, c: char) -> bool;

/// `skrifa::charmap::Charmap::map`: whether the character map of a font, made by
/// `skrifa::charmap::Charmap::new`, has a glyph for `c`. Bytes that are no font have none.
#[verifier::external_body]
fn has_glyph(font: &[u8], c: char) -> (r: bool)
    ensures
        r == covers(font@, c),
{
    match skrifa::FontRef::new(font) {
        Ok(font) => skrifa::charmap::Charmap::new(&font).map(c).is_some(),
        Err(_) => false,
    }
}

/// Whether a character has to be looked up in the font: ASCII is there, and white space and
/// control characters are not drawn.
pub open spec fn unusual(c: char) -> bool {
    c as int >= 0x80 && !text::white(c) && !text::control(c)
}

/// Whether a character has to be looked up in the font.
pub fn is_unusual(c: char) -> (r: bool)
    ensures
        r == unusual(c),
{
    c as u32 >= 0x80 && !text::is_whitespace(c) && !text::is_control(c)
}

/// Whether a text has characters that a font cannot draw. A font that cannot be read draws
/// nothing.
pub open spec fn lacking(text: Seq<char>, font: Seq<u8>) -> bool {
    !readable(font) || exists|i: int|
        0 <= i < text.len() && unusual(#[trigger] text[i]) && !covers(font, text[i])
}

/// Whether `text` has characters that the font cannot draw, so system fonts are needed as
/// fallback.
pub fn needs_fallback(text: &str, font: &[u8]) -> (r: bool)
    ensures
        r == lacking(text@, font@),
{
    if !is_readable(font) {
        return true;
    }
    let all = text::chars(text);
    let mut i: usize = 0;
    while i < all.len()
        invariant
            i <= all@.len(),
            all@ == text@,
            forall|j: int|
                0 <= j < i && unusual(#[trigger] text@[j]) ==> covers(font@, text@[j]),
        decreases all@.len() - i,
    {
        let c = all[i];
        if is_unusual(c) && !has_glyph(font, c) {
            assert(unusual(text@[i as int]) && !covers(font@, text@[i as int]));
            return true;
        }
        i += 1;
    }
    false
}

/// Whether to load system fonts before a document is drawn: on first need.
pub fn loads_system_fonts(loaded: bool, document: &str, font: &[u8]) -> (r: bool)
    ensures
        r == (!loaded && lacking(document@, font@)),
{
    !loaded && needs_fallback(document, font)
}

} // verus!
