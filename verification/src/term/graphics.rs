//! What holds of probing a terminal and of sending it images.

use vstd::prelude::*;

use super::diacritics::DIACRITICS;
use super::input::Event;
use super::kitty;
use super::probe;
use super::probe::{CapsModel, ProbeModel};
use crate::text;
use crate::theme;

verus! {

// ---------------------------------------------------------------------------------------------
// The probe.

/// Each reply tells one thing and changes nothing else that is known. Graphics are there only if
/// the reply to mer's own query says so.
pub proof fn replies_tell_one_thing(caps: CapsModel, event: Event)
    ensures
        ({
            let then = probe::applied(caps, event);
            &&& then.cols == caps.cols && then.rows == caps.rows
            &&& then.responded == (caps.responded || event is DeviceAttributes)
            &&& event matches Event::Graphics { id, ok } ==> then.kitty_graphics == if id == 31 {
                ok
            } else {
                caps.kitty_graphics
            }
            &&& !(event is Graphics) ==> then.kitty_graphics == caps.kitty_graphics
            &&& event matches Event::CellSize { width, height } ==> then.cell == Some(
                (width, height),
            )
            &&& !(event is CellSize) ==> then.cell == caps.cell
            &&& event matches Event::TextArea { width, height } ==> then.text_area == Some(
                (width, height),
            )
            &&& !(event is TextArea) ==> then.text_area == caps.text_area
            &&& event matches Event::ColorScheme { dark } ==> then.dark == Some(dark)
            &&& !(event is ColorScheme) ==> then.dark == caps.dark
            &&& event matches Event::Color { index, rgb } ==> then.palette == theme::recorded(
                caps.palette,
                index,
                rgb,
            )
            &&& !(event is Color) ==> then.palette == caps.palette
        }),
{
}

/// Outside tmux the reply about device attributes ends the probe, and no other reply does. Inside
/// tmux, which gives that reply itself, the probe ends when graphics are known to be there too,
/// or a quarter of a second later.
pub proof fn the_last_reply_ends_the_probe(p: ProbeModel, event: Event, now: u64)
    requires
        !p.done,
        now + 250 <= u64::MAX,
    ensures
        ({
            let then = probe::replied(p, event, now);
            &&& then.caps == probe::applied(p.caps, event)
            &&& !p.tmux && !p.caps.responded ==> (then.done <==> event is DeviceAttributes)
            &&& p.tmux ==> (then.done <==> then.caps.responded && then.caps.kitty_graphics)
            &&& !then.caps.responded ==> then.deadline == p.deadline
            &&& p.tmux && then.caps.responded && !then.done ==> then.deadline == if now + 250
                < p.deadline {
                (now + 250) as u64
            } else {
                p.deadline
            }
        }),
{
}

/// A cell size that the terminal reported is kept. Otherwise it is what is left of the window, or
/// else of the text area, for each cell, where that is at least a pixel.
pub proof fn cells_share_the_window(caps: CapsModel, width: u16, height: u16)
    ensures
        ({
            let then = probe::concluded(caps, (width, height));
            &&& caps.cell is Some ==> then == caps
            &&& caps.cell is None && caps.cols > 0 && caps.rows > 0 && width >= caps.cols && height
                >= caps.rows ==> then.cell == Some(
                ((width as int / caps.cols as int) as u32, (height as int / caps.rows as int) as u32),
            )
            &&& caps.cell is None && (caps.cols == 0 || caps.rows == 0) ==> then.cell is None
            &&& then.palette == caps.palette && then.kitty_graphics == caps.kitty_graphics
                && then.cols == caps.cols && then.rows == caps.rows && then.dark == caps.dark
        }),
        caps.cell is None && (width == 0 || height == 0) && caps.text_area is None
            ==> probe::concluded(caps, (width, height)).cell is None,
        caps.cell is None && (width == 0 || height == 0) && caps.cols > 0 && caps.rows > 0 && (
        caps.text_area matches Some((w, h)) && w >= caps.cols && h >= caps.rows)
            ==> probe::concluded(caps, (width, height)).cell == Some(
            (
                (caps.text_area.unwrap().0 as int / caps.cols as int) as u32,
                (caps.text_area.unwrap().1 as int / caps.rows as int) as u32,
            ),
        ),
{
    if caps.cols > 0 && width >= caps.cols {
        lemma_quotient(width as int, caps.cols as int);
    }
    if caps.rows > 0 && height >= caps.rows {
        lemma_quotient(height as int, caps.rows as int);
    }
    if let Some((w, h)) = caps.text_area {
        if caps.cols > 0 && w >= caps.cols {
            lemma_quotient(w as int, caps.cols as int);
        }
        if caps.rows > 0 && h >= caps.rows {
            lemma_quotient(h as int, caps.rows as int);
        }
    }
}

proof fn lemma_quotient(a: int, b: int)
    requires
        0 < b <= a,
    ensures
        a / b >= 1,
{
    assert(a / b >= 1) by (nonlinear_arith)
        requires
            0 < b <= a,
    ;
}

// ---------------------------------------------------------------------------------------------
// Images.

/// An image is sent with its id, its size in pixels, width first, and its size in cells, columns
/// first; it is drawn through placeholders, and the terminal is told to keep quiet.
pub proof fn images_are_described(id: u32, width: u32, height: u32, cols: u16, rows: u16)
    ensures
        kitty::control_keys(id, width, height, cols, rows) == "a=T,U=1,i="@ + text::decimal(
            id as nat,
        ) + ",f=32,s="@ + text::decimal(width as nat) + ",v="@ + text::decimal(height as nat)
            + ",c="@ + text::decimal(cols as nat) + ",r="@ + text::decimal(rows as nat)
            + ",t=d,o=z,q=2"@,
        kitty::deletion(id) == vstd::utf8::encode_utf8(
            "\x1b_Ga=d,d=I,i="@ + text::decimal(id as nat) + ",q=2\x1b\\"@,
        ),
{
}

/// Every piece of an image but the last says that more follows, and only the first describes the
/// image.
pub proof fn pieces_say_whether_more_follow(
    control: Seq<char>,
    piece: Seq<u8>,
    later: Seq<Seq<u8>>,
)
    requires
        later.len() > 0,
    ensures
        kitty::sequences(control, seq![piece], true) == vstd::utf8::encode_utf8(
            "\x1b_G"@ + control + ",m="@ + "0"@ + ";"@,
        ) + piece + vstd::utf8::encode_utf8("\x1b\\"@),
        kitty::sequences(control, seq![piece], false) == vstd::utf8::encode_utf8(
            "\x1b_Gm="@ + "0"@ + ",q=2;"@,
        ) + piece + vstd::utf8::encode_utf8("\x1b\\"@),
        kitty::sequences(control, seq![piece] + later, true) == vstd::utf8::encode_utf8(
            "\x1b_G"@ + control + ",m="@ + "1"@ + ";"@,
        ) + piece + vstd::utf8::encode_utf8("\x1b\\"@) + kitty::sequences(control, later, false),
        kitty::sequences(control, seq![piece] + later, false) == vstd::utf8::encode_utf8(
            "\x1b_Gm="@ + "1"@ + ",q=2;"@,
        ) + piece + vstd::utf8::encode_utf8("\x1b\\"@) + kitty::sequences(control, later, false),
{
    let none = Seq::<Seq<u8>>::empty();
    assert(seq![piece].drop_first() =~= none);
    assert(kitty::sequences(control, none, false) =~= Seq::<u8>::empty());
    assert((seq![piece] + later).drop_first() =~= later);
    let last = vstd::utf8::encode_utf8("\x1b_G"@ + control + ",m="@ + "0"@ + ";"@) + piece
        + vstd::utf8::encode_utf8("\x1b\\"@);
    assert(last + Seq::<u8>::empty() =~= last);
    let other = vstd::utf8::encode_utf8("\x1b_Gm="@ + "0"@ + ",q=2;"@) + piece
        + vstd::utf8::encode_utf8("\x1b\\"@);
    assert(other + Seq::<u8>::empty() =~= other);
}

/// The color of placeholders is the id of the image: small ids by number, others by the three
/// bytes that make them up.
pub proof fn colors_name_the_image(red: u8, green: u8, blue: u8)
    ensures
        red > 0 || green > 0 ==> kitty::id_color(
            (red * 65536 + green * 256 + blue) as u32,
        ) == "\x1b[38;2;"@ + text::decimal(red as nat) + ";"@ + text::decimal(green as nat) + ";"@
            + text::decimal(blue as nat) + "m"@,
        kitty::id_color(blue as u32) == "\x1b[38;5;"@ + text::decimal(blue as nat) + "m"@,
{
    let id = (red * 65536 + green * 256 + blue) as u32;
    assert(id as int == red * 65536 + green * 256 + blue);
    assert(id / 0x1_0000 % 0x100 == red);
    assert(id / 0x100 % 0x100 == green);
    assert(id % 0x100 == blue);
}

/// Every cell names its row and its column: a placeholder, the mark of the row and the mark of the
/// column.
pub proof fn cells_name_their_place(row: int, cols: int, col: int)
    requires
        0 <= col < cols,
    ensures
        kitty::cells(row, cols).len() == 3 * cols,
        kitty::cells(row, cols)[3 * col] == '\u{10EEEE}',
        kitty::cells(row, cols)[3 * col + 1] == DIACRITICS@[row],
        kitty::cells(row, cols)[3 * col + 2] == DIACRITICS@[col],
    decreases cols,
{
    lemma_cells(row, cols);
    lemma_cells(row, cols - 1);
    if col < cols - 1 {
        cells_name_their_place(row, cols - 1, col);
    }
}

proof fn lemma_cells(row: int, cols: int)
    requires
        0 <= cols,
    ensures
        kitty::cells(row, cols).len() == 3 * cols,
    decreases cols,
{
    if cols > 0 {
        lemma_cells(row, cols - 1);
    }
}

/// An id is never 0 and fits the color: three bytes, and one inside tmux. A random number that is
/// such an id is used as it is.
pub proof fn ids_fit_their_color(random: u64, tmux: bool)
    ensures
        1 <= kitty::image_id(random, tmux) < 0x100_0000,
        tmux ==> kitty::image_id(random, tmux) < 0x100,
        !tmux && 0 < random < 0x100_0000 ==> kitty::image_id(random, tmux) == random,
        tmux && 0 < random < 0x100 ==> kitty::image_id(random, tmux) == random,
{
}

/// Base64 has its 64 digits in the usual order.
pub proof fn base64_digits_are_in_order(n: int)
    requires
        0 <= n < 64,
    ensures
        kitty::base64_digit(n)
            == "ABCDEFGHIJKLMNOPQRSTUVWXYZabcdefghijklmnopqrstuvwxyz0123456789+/"@[n],
{
    reveal_strlit("ABCDEFGHIJKLMNOPQRSTUVWXYZabcdefghijklmnopqrstuvwxyz0123456789+/");
}

/// Every three bytes are four digits, which hold the same bits. One or two bytes at the end are
/// padded to four characters.
pub proof fn base64_holds_all_bits(a: u8, b: u8, c: u8, rest: Seq<u8>)
    ensures
        kitty::base64(Seq::empty()) == Seq::<char>::empty(),
        exists|p: int, q: int, r: int, s: int|
            {
                &&& 0 <= p < 64 && 0 <= q < 64 && 0 <= r < 64 && 0 <= s < 64
                &&& ((p * 64 + q) * 64 + r) * 64 + s == (a * 256 + b) * 256 + c
                &&& #[trigger] digits(p, q, r, s) + kitty::base64(rest) == kitty::base64(
                    seq![a, b, c] + rest,
                )
            },
        exists|p: int, q: int, r: int, s: int|
            {
                &&& 0 <= p < 64 && 0 <= q < 64 && 0 <= r < 64
                &&& (p * 64 + q) * 64 + r == (a * 256 + b) * 4
                &&& #[trigger] digits(p, q, r, s).update(3, '=') == kitty::base64(seq![a, b])
            },
        exists|p: int, q: int, r: int, s: int|
            {
                &&& 0 <= p < 64 && 0 <= q < 64
                &&& p * 64 + q == a * 16
                &&& #[trigger] digits(p, q, r, s).update(2, '=').update(3, '=') == kitty::base64(
                    seq![a],
                )
            },
{
    let all = seq![a, b, c] + rest;
    assert(all.skip(3) =~= rest);
    let p = a as int / 4;
    let q = (a % 4) * 16 + b / 16;
    let r = (b % 16) * 4 + c / 64;
    let s = c as int % 64;
    assert(digits(p, q, r, s) + kitty::base64(rest) =~= kitty::base64(all));
    let q1 = (a % 4) * 16;
    let r1 = (b % 16) * 4;
    assert(digits(p, q, r1, 0).update(3, '=') =~= kitty::base64(seq![a, b]));
    assert(digits(p, q1, 0, 0).update(2, '=').update(3, '=') =~= kitty::base64(seq![a]));
}

/// Four digits of base64.
pub open spec fn digits(p: int, q: int, r: int, s: int) -> Seq<char> {
    seq![
        kitty::base64_digit(p),
        kitty::base64_digit(q),
        kitty::base64_digit(r),
        kitty::base64_digit(s),
    ]
}

/// The terminal is asked for its foreground and its background, and for the six colors behind black
/// by their numbers. The query about graphics carries the id that its reply is told by.
pub proof fn colors_are_asked_for_by_number()
    ensures
        probe::color_query_text() == "\x1b]10;?\x1b\\"@ + "\x1b]11;?\x1b\\"@
            + "\x1b]4;1;?\x1b\\"@ + "\x1b]4;2;?\x1b\\"@
            + "\x1b]4;3;?\x1b\\"@ + "\x1b]4;4;?\x1b\\"@
            + "\x1b]4;5;?\x1b\\"@ + "\x1b]4;6;?\x1b\\"@,
        probe::graphics_query() == "\x1b_Gi=31,s=1,v=1,a=q,t=d,f=24;AAAA\x1b\\"@,
{
    reveal_strlit("\x1b]10;?\x1b\\\x1b]11;?\x1b\\");
    reveal_strlit("\x1b]10;?\x1b\\");
    reveal_strlit("\x1b]11;?\x1b\\");
    reveal_strlit("\x1b]4;");
    reveal_strlit(";?\x1b\\");
    reveal_strlit("\x1b]4;1;?\x1b\\");
    reveal_strlit("\x1b]4;2;?\x1b\\");
    reveal_strlit("\x1b]4;3;?\x1b\\");
    reveal_strlit("\x1b]4;4;?\x1b\\");
    reveal_strlit("\x1b]4;5;?\x1b\\");
    reveal_strlit("\x1b]4;6;?\x1b\\");
    reveal_strlit("\x1b_Gi=");
    reveal_strlit(",s=1,v=1,a=q,t=d,f=24;AAAA\x1b\\");
    reveal_strlit("\x1b_Gi=31,s=1,v=1,a=q,t=d,f=24;AAAA\x1b\\");
    reveal_with_fuel(probe::ansi_queries, 7);
    reveal_with_fuel(text::decimal, 3);
    assert("\x1b]4;"@ + text::decimal(1) + ";?\x1b\\"@ =~= "\x1b]4;1;?\x1b\\"@);
    assert("\x1b]4;"@ + text::decimal(2) + ";?\x1b\\"@ =~= "\x1b]4;2;?\x1b\\"@);
    assert("\x1b]4;"@ + text::decimal(3) + ";?\x1b\\"@ =~= "\x1b]4;3;?\x1b\\"@);
    assert("\x1b]4;"@ + text::decimal(4) + ";?\x1b\\"@ =~= "\x1b]4;4;?\x1b\\"@);
    assert("\x1b]4;"@ + text::decimal(5) + ";?\x1b\\"@ =~= "\x1b]4;5;?\x1b\\"@);
    assert("\x1b]4;"@ + text::decimal(6) + ";?\x1b\\"@ =~= "\x1b]4;6;?\x1b\\"@);
    assert("\x1b]10;?\x1b\\\x1b]11;?\x1b\\"@ =~= "\x1b]10;?\x1b\\"@ + "\x1b]11;?\x1b\\"@);
    assert(text::decimal(31) =~= seq!['3', '1']);
    assert(probe::graphics_query() =~= "\x1b_Gi=31,s=1,v=1,a=q,t=d,f=24;AAAA\x1b\\"@);
}

/// An image is sent in pieces of 4096 bytes, but for the last, which is no larger.
pub proof fn pieces_fit_the_protocol(payload: Seq<u8>, i: int)
    requires
        0 <= i < kitty::chunks(payload).len(),
    ensures
        kitty::chunks(payload)[i].len() <= 4096,
        i + 1 < kitty::chunks(payload).len() ==> kitty::chunks(payload)[i].len() == 4096,
        kitty::chunks(payload).flatten() == payload,
    decreases payload.len(),
{
    kitty::chunks_make_up_the_payload(payload);
    if i > 0 {
        let rest = payload.skip(4096);
        assert(kitty::chunks(payload)[i] == kitty::chunks(rest)[i - 1]);
        pieces_fit_the_protocol(rest, i - 1);
    }
}

/// The terminal is asked about graphics first, then for the size of a cell and of the text area,
/// for its colors and its color scheme, and last for its attributes.
pub proof fn queries_come_in_order()
    ensures
        probe::query_bytes(false) == vstd::utf8::encode_utf8(probe::graphics_query())
            + vstd::utf8::encode_utf8("\x1b[16t\x1b[14t"@) + vstd::utf8::encode_utf8(
            probe::color_query_text(),
        ) + vstd::utf8::encode_utf8("\x1b[?996n\x1b[c"@),
{
}

} // verus!
