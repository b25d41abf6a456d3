//! Kitty graphics protocol encoding.
//!
//! Images are shown through virtual placements and Unicode placeholders: the pixels are
//! transmitted with `U=1`, then a grid of `U+10EEEE` cells marks where the image appears. The
//! grid is ordinary text to the terminal, so the image scrolls with the output, survives
//! redraws, and is replaced in place when the same image id is sent again.

use vstd::prelude::*;
use vstd::slice::slice_subrange;

use super::diacritics::{self, DIACRITICS};
use crate::text;

verus! {

pub const PLACEHOLDER: char = '\u{10EEEE}';

/// Rows and columns past this cannot be addressed with placeholder diacritics.
pub const MAX_CELLS: u16 = 297;

/// Largest payload per escape sequence allowed by the protocol.
pub const CHUNK_BYTES: usize = 4096;

/// Why an image could not be transmitted.
#[derive(Clone, Copy, Debug, PartialEq, Eq, Structural)]
pub enum Untransmitted {
    /// The pixels could not be compressed.
    Uncompressed,
    /// The compressed pixels are too many to encode.
    TooLarge,
}

// ---------------------------------------------------------------------------------------------
// Compression and base64.

/// What zlib at its fastest level makes of some bytes.
pub uninterp spec fn zlib_fast(bytes: Seq<u8>) -> Option<Seq<u8>>;

/// Writes `bytes` to a `flate2::write::ZlibEncoder` at `flate2::Compression::fast()` and
/// finishes it. The stream depends on the bytes alone; what it looks like is left to flate2.
#[verifier::external_body]
fn compress(bytes: &[u8]) -> (r: Option<Vec<u8>>)
    ensures
        match r {
            Some(v) => zlib_fast(bytes@) == Some(v@),
            None => zlib_fast(bytes@) is None,
        },
{
    let out: Vec<u8> = Vec::with_capacity(bytes.len() / 16);
    let mut zlib = flate2::write::ZlibEncoder::new(out, flate2::Compression::fast());
    std::io::Write::write_all(&mut zlib, bytes).ok()?;
    zlib.finish().ok()
}

/// A digit of base64.
pub open spec fn base64_digit(n: int) -> char {
    if n < 26 {
        (65 + n) as char
    } else if n < 52 {
        (71 + n) as char
    } else if n < 62 {
        (n - 4) as char
    } else if n == 62 {
        '+'
    } else {
        '/'
    }
}

/// Bytes in base64, with padding.
pub open spec fn base64(b: Seq<u8>) -> Seq<char>
    decreases b.len(),
{
    if b.len() == 0 {
        Seq::empty()
    } else if b.len() == 1 {
        seq![base64_digit(b[0] as int / 4), base64_digit((b[0] % 4) * 16), '=', '=']
    } else if b.len() == 2 {
        seq![
            base64_digit(b[0] as int / 4),
            base64_digit((b[0] % 4) * 16 + b[1] / 16),
            base64_digit((b[1] % 16) * 4),
            '=',
        ]
    } else {
        seq![
            base64_digit(b[0] as int / 4),
            base64_digit((b[0] % 4) * 16 + b[1] / 16),
            base64_digit((b[1] % 16) * 4 + b[2] / 64),
            base64_digit(b[2] as int % 64),
        ] + base64(b.skip(3))
    }
}

/// `encode` of `base64::engine::general_purpose::STANDARD` gives the bytes in the standard
/// alphabet with padding.
#[verifier::external_body]
fn encode_base64(bytes: &[u8]) -> (s: String)
    requires
        bytes@.len() <= isize::MAX / 2,
    ensures
        s@ == base64(bytes@),
{
    base64::Engine::encode(&base64::engine::general_purpose::STANDARD, bytes)
}

// ---------------------------------------------------------------------------------------------
// Transmission.

/// A payload in pieces of at most [`CHUNK_BYTES`].
pub open spec fn chunks(payload: Seq<u8>) -> Seq<Seq<u8>>
    decreases payload.len(),
{
    if payload.len() == 0 {
        Seq::empty()
    } else if payload.len() <= CHUNK_BYTES {
        seq![payload]
    } else {
        seq![payload.take(CHUNK_BYTES as int)] + chunks(payload.skip(CHUNK_BYTES as int))
    }
}

/// The escape sequences that carry chunks, the first of them with `control`.
pub open spec fn sequences(control: Seq<char>, chunks: Seq<Seq<u8>>, first: bool) -> Seq<u8>
    decreases chunks.len(),
{
    if chunks.len() == 0 {
        Seq::empty()
    } else {
        let more = if chunks.len() > 1 {
            "1"@
        } else {
            "0"@
        };
        let start = if first {
            "\x1b_G"@ + control + ",m="@ + more + ";"@
        } else {
            "\x1b_Gm="@ + more + ",q=2;"@
        };
        vstd::utf8::encode_utf8(start) + chunks[0] + vstd::utf8::encode_utf8("\x1b\\"@) + sequences(
            control,
            chunks.drop_first(),
            false,
        )
    }
}

/// The keys that describe an image.
pub open spec fn control_keys(
    id: u32,
    width: u32,
    height: u32,
    cols: u16,
    rows: u16,
) -> Seq<char> {
    "a=T,U=1,i="@ + text::decimal(id as nat) + ",f=32,s="@ + text::decimal(width as nat) + ",v="@
        + text::decimal(height as nat) + ",c="@ + text::decimal(cols as nat) + ",r="@
        + text::decimal(rows as nat) + ",t=d,o=z,q=2"@
}

/// The escape sequences that transmit compressed pixels.
pub open spec fn transmission(
    id: u32,
    compressed: Seq<u8>,
    pixels: (u32, u32),
    cells: (u16, u16),
) -> Seq<u8> {
    sequences(
        control_keys(id, pixels.0, pixels.1, cells.0, cells.1),
        chunks(vstd::utf8::encode_utf8(base64(compressed))),
        true,
    )
}

/// What transmitting pixels writes, or why it does not.
pub open spec fn transmitted(
    id: u32,
    compressed: Option<Seq<u8>>,
    pixels: (u32, u32),
    cells: (u16, u16),
) -> Result<Seq<u8>, Untransmitted> {
    match compressed {
        Some(compressed) => if compressed.len() <= isize::MAX / 2 {
            Ok(transmission(id, compressed, pixels, cells))
        } else {
            Err(Untransmitted::TooLarge)
        },
        None => Err(Untransmitted::Uncompressed),
    }
}

/// The pieces of a payload make up the payload, and none is empty or too long.
pub proof fn chunks_make_up_the_payload(payload: Seq<u8>)
    ensures
        chunks(payload).flatten() == payload,
        forall|i: int|
            0 <= i < chunks(payload).len() ==> 0 < (#[trigger] chunks(payload)[i]).len()
                <= CHUNK_BYTES,
    decreases payload.len(),
{
    if payload.len() == 0 {
    } else if payload.len() <= CHUNK_BYTES {
        let all = seq![payload];
        assert(all.drop_first() =~= Seq::<Seq<u8>>::empty());
        assert(all.drop_first().flatten() =~= Seq::<u8>::empty());
        assert(all.flatten() =~= payload);
    } else {
        let rest = payload.skip(CHUNK_BYTES as int);
        chunks_make_up_the_payload(rest);
        assert(chunks(payload).drop_first() =~= chunks(rest));
        assert(chunks(payload).flatten() =~= payload.take(CHUNK_BYTES as int) + rest);
        assert forall|i: int| 0 <= i < chunks(payload).len() implies 0 < (#[trigger] chunks(
            payload,
        )[i]).len() <= CHUNK_BYTES by {
            if i > 0 {
                assert(chunks(payload)[i] == chunks(rest)[i - 1]);
            }
        }
    }
}

/// Transmits straight (non-premultiplied) RGBA pixels as image `id` and creates a virtual
/// placement spanning `cols`×`rows` cells.
pub fn transmit_virtual(
    out: &mut Vec<u8>,
    id: u32,
    rgba: &[u8],
    pixels: (u32, u32),
    cells: (u16, u16),
) -> (r: Result<(), Untransmitted>)
    requires
        rgba@.len() == pixels.0 * pixels.1 * 4,
    ensures
        match transmitted(id, zlib_fast(rgba@), pixels, cells) {
            Ok(bytes) => r is Ok && final(out)@ == old(out)@ + bytes,
            Err(why) => r == Err::<(), Untransmitted>(why) && final(out)@ == old(out)@,
        },
{
    match compress(rgba) {
        Some(compressed) => {
            if compressed.len() > isize::MAX as usize / 2 {
                return Err(Untransmitted::TooLarge);
            }
            transmit_compressed(out, id, &compressed, pixels, cells);
            Ok(())
        },
        None => Err(Untransmitted::Uncompressed),
    }
}

/// Transmits pixels that zlib has compressed.
pub fn transmit_compressed(
    out: &mut Vec<u8>,
    id: u32,
    compressed: &[u8],
    pixels: (u32, u32),
    cells: (u16, u16),
)
    requires
        compressed@.len() <= isize::MAX / 2,
    ensures
        final(out)@ == old(out)@ + transmission(id, compressed@, pixels, cells),
{
    let payload = encode_base64(compressed);
    let mut control = "a=T,U=1,i=".to_string();
    text::push_decimal(&mut control, id as u128);
    control.append(",f=32,s=");
    text::push_decimal(&mut control, pixels.0 as u128);
    control.append(",v=");
    text::push_decimal(&mut control, pixels.1 as u128);
    control.append(",c=");
    text::push_decimal(&mut control, cells.0 as u128);
    control.append(",r=");
    text::push_decimal(&mut control, cells.1 as u128);
    control.append(",t=d,o=z,q=2");
    write_chunked(out, control.as_str(), payload.as_str().as_bytes());
}

/// Writes a payload in as many escape sequences as it takes.
pub fn write_chunked(out: &mut Vec<u8>, control: &str, payload: &[u8])
    ensures
        final(out)@ == old(out)@ + sequences(control@, chunks(payload@), true),
{
    let ghost was = out@;
    let mut rest = payload;
    let mut first = true;
    while rest.len() > 0
        invariant
            was + sequences(control@, chunks(payload@), true) == out@ + sequences(
                control@,
                chunks(rest@),
                first,
            ),
        decreases rest@.len(),
    {
        let ghost before = out@;
        let n: usize = if rest.len() < CHUNK_BYTES {
            rest.len()
        } else {
            CHUNK_BYTES
        };
        let chunk = slice_subrange(rest, 0, n);
        let next = slice_subrange(rest, n, rest.len());
        let more = if next.len() > 0 {
            "1"
        } else {
            "0"
        };
        proof {
            assert(chunk@ =~= rest@.take(n as int));
            assert(next@ =~= rest@.skip(n as int));
            assert(rest@.take(rest@.len() as int) =~= rest@);
            assert(chunks(rest@)[0] == chunk@);
            assert(chunks(rest@).drop_first() =~= chunks(next@));
        }
        let mut start = String::new();
        if first {
            start.append("\x1b_G");
            start.append(control);
            start.append(",m=");
            start.append(more);
            start.append(";");
            assert(start@ =~= "\x1b_G"@ + control@ + ",m="@ + more@ + ";"@);
        } else {
            start.append("\x1b_Gm=");
            start.append(more);
            start.append(",q=2;");
            assert(start@ =~= "\x1b_Gm="@ + more@ + ",q=2;"@);
        }
        text::push_text(out, start.as_str());
        text::push_bytes(out, chunk);
        text::push_text(out, "\x1b\\");
        proof {
            let later = sequences(control@, chunks(next@), false);
            assert(out@ + later =~= before + sequences(control@, chunks(rest@), first));
        }
        first = false;
        rest = next;
    }
    assert(out@ + sequences(control@, chunks(rest@), first) =~= out@);
}

/// The sequence that deletes an image.
pub open spec fn deletion(id: u32) -> Seq<u8> {
    vstd::utf8::encode_utf8("\x1b_Ga=d,d=I,i="@ + text::decimal(id as nat) + ",q=2\x1b\\"@)
}

/// Deletes image `id` and frees its data.
pub fn delete(out: &mut Vec<u8>, id: u32)
    ensures
        final(out)@ == old(out)@ + deletion(id),
{
    let mut s = "\x1b_Ga=d,d=I,i=".to_string();
    text::push_decimal(&mut s, id as u128);
    s.append(",q=2\x1b\\");
    text::push_text(out, s.as_str());
}

// ---------------------------------------------------------------------------------------------
// Placeholders.

/// The escape sequence for the foreground color that encodes an image id.
pub open spec fn id_color(id: u32) -> Seq<char> {
    if id <= 0xff {
        "\x1b[38;5;"@ + text::decimal(id as nat) + "m"@
    } else {
        "\x1b[38;2;"@ + text::decimal((id / 0x1_0000 % 0x100) as nat) + ";"@ + text::decimal(
            (id / 0x100 % 0x100) as nat,
        ) + ";"@ + text::decimal((id % 0x100) as nat) + "m"@
    }
}

/// Placeholder cells for the first `cols` columns of a row.
pub open spec fn cells(row: int, cols: int) -> Seq<char>
    decreases cols,
{
    if cols <= 0 {
        Seq::empty()
    } else {
        cells(row, cols - 1).push(PLACEHOLDER).push(DIACRITICS@[row]).push(DIACRITICS@[cols - 1])
    }
}

/// A row of placeholder cells.
pub open spec fn placeholders(id: u32, row: int, cols: int) -> Seq<char> {
    id_color(id) + cells(row, cols) + "\x1b[39m"@
}

/// Appends one row of placeholder cells for image `id`, wrapped in the foreground color that
/// encodes the id. The caller adds the line break.
pub fn placeholder_row(out: &mut String, id: u32, row: u16, cols: u16)
    requires
        row < MAX_CELLS,
        cols <= MAX_CELLS,
    ensures
        final(out)@ == old(out)@ + placeholders(id, row as int, cols as int),
{
    let ghost was = out@;
    if id <= 0xff {
        // A palette index survives multiplexers that downsample truecolor.
        out.append("\x1b[38;5;");
        text::push_decimal(out, id as u128);
        out.append("m");
    } else {
        out.append("\x1b[38;2;");
        text::push_decimal(out, (id / 0x1_0000 % 0x100) as u128);
        out.append(";");
        text::push_decimal(out, (id / 0x100 % 0x100) as u128);
        out.append(";");
        text::push_decimal(out, (id % 0x100) as u128);
        out.append("m");
    }
    assert(out@ =~= was + id_color(id));
    let marks = text::chars(DIACRITICS);
    proof {
        diacritics::lemma_count();
    }
    let row_mark = marks[row as usize];
    let ghost start = out@;
    let mut col: u16 = 0;
    assert(out@ =~= start + cells(row as int, 0));
    while col < cols
        invariant
            col <= cols <= MAX_CELLS,
            row < MAX_CELLS,
            marks@ == DIACRITICS@,
            marks@.len() == MAX_CELLS,
            row_mark == DIACRITICS@[row as int],
            out@ == start + cells(row as int, col as int),
        decreases cols - col,
    {
        out.push(PLACEHOLDER);
        out.push(row_mark);
        out.push(marks[col as usize]);
        col += 1;
        assert(out@ =~= start + cells(row as int, col as int));
    }
    out.append("\x1b[39m");
    assert(out@ =~= was + placeholders(id, row as int, cols as int));
}

/// The image id that a random number gives.
pub open spec fn image_id(random: u64, tmux: bool) -> u32 {
    let id = if tmux {
        random % 0x100
    } else {
        random % 0x100_0000
    };
    if id == 0 {
        1
    } else {
        id as u32
    }
}

/// An image id from a random number. Ids have to fit the foreground color that marks
/// placeholder cells: 24 bits normally, 8 bits inside tmux, which may turn truecolor into
/// palette colors. Randomness keeps them from colliding with images other programs have put on
/// the screen.
pub fn random_id(random: u64, tmux: bool) -> (id: u32)
    ensures
        id == image_id(random, tmux),
        1 <= id <= 0xff_ffff,
        tmux ==> id <= 0xff,
{
    let mask: u64 = if tmux {
        0xff
    } else {
        0xff_ffff
    };
    assert(random & 0xff == random % 0x100 && random & 0xff_ffff == random % 0x100_0000)
        by (bit_vector);
    let id: u32 = (random & mask) as u32;
    if id == 0 {
        1
    } else {
        id
    }
}

} // verus!
