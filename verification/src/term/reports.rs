//! What holds of what terminals send: keys, the mouse and replies.

use vstd::prelude::*;

use super::input;
use super::input::{DecoderModel, Event, Key, Kind, Mouse, MouseKind, State};
use crate::text;
use crate::theme;
use crate::theme::Rgb;

verus! {

// ---------------------------------------------------------------------------------------------
// Sequences of bytes.

/// The characters of ASCII bytes.
pub open spec fn chars_of(bytes: Seq<u8>) -> Seq<char> {
    bytes.map_values(|b: u8| b as char)
}

proof fn lemma_short(params: Seq<char>)
    requires
        vstd::utf8::is_ascii_chars(params),
    ensures
        vstd::utf8::encode_utf8(params).len() == params.len(),
{
    vstd::utf8::is_ascii_chars_encode_utf8(params);
}

/// Bytes inside a sequence are collected.
proof fn lemma_collected(m: DecoderModel, bytes: Seq<u8>)
    requires
        m.state == State::Csi || (m.state is Str),
        forall|i: int|
            0 <= i < bytes.len() ==> 0x20 <= #[trigger] bytes[i] <= 0x7e && (m.state == State::Csi
                ==> bytes[i] < 0x40),
        vstd::utf8::is_ascii_chars(m.params),
        m.params.len() + bytes.len() <= 4096,
    ensures
        input::steps(m, bytes) == (
            DecoderModel { params: m.params + chars_of(bytes), ..m },
            Seq::<Event>::empty(),
        ),
    decreases bytes.len(),
{
    if bytes.len() == 0 {
        assert(m.params + chars_of(bytes) =~= m.params);
    } else {
        let b = bytes[0];
        let rest = bytes.drop_first();
        lemma_short(m.params);
        let next = DecoderModel { params: m.params.push(b as char), ..m };
        assert(0x20 <= b <= 0x7e);
        assert(input::step(m, b) == (next, Seq::<Event>::empty()));
        assert forall|i: int| 0 <= i < rest.len() implies 0x20 <= #[trigger] rest[i] <= 0x7e && (
        next.state == State::Csi ==> rest[i] < 0x40) by {
            assert(rest[i] == bytes[i + 1]);
        }
        assert forall|i: int| 0 <= i < next.params.len() implies '\0' <= #[trigger] next.params[i]
            <= '\u{7f}' by {
            if i < m.params.len() {
                assert(next.params[i] == m.params[i]);
            }
        }
        lemma_collected(next, rest);
        assert(next.params + chars_of(rest) =~= m.params + chars_of(bytes));
        assert(Seq::<Event>::empty() + Seq::<Event>::empty() =~= Seq::<Event>::empty());
    }
}

proof fn lemma_one_step(m: DecoderModel, byte: u8)
    ensures
        input::steps(m, seq![byte]) == input::step(m, byte),
{
    let (next, events) = input::step(m, byte);
    assert(seq![byte].drop_first() =~= Seq::<u8>::empty());
    assert(input::steps(next, seq![byte].drop_first()) == (next, Seq::<Event>::empty()));
    assert(events + Seq::<Event>::empty() =~= events);
}

/// A control sequence is read as a whole: its parameters and the byte that ends it say what it
/// reports, and afterwards the decoder is where it was.
pub proof fn control_sequences_are_read_whole(m: DecoderModel, params: Seq<u8>, last: u8)
    requires
        m.state == State::Ground,
        params.len() <= 4096,
        forall|i: int| 0 <= i < params.len() ==> 0x20 <= #[trigger] params[i] < 0x40,
        0x40 <= last <= 0x7e,
    ensures
        ({
            let (then, events) = input::steps(m, seq![0x1bu8, 0x5bu8] + params + seq![last]);
            &&& then.state == State::Ground && then.utf8 == Seq::<u8>::empty()
            &&& events == match input::csi_event(chars_of(params), last) {
                Some(event) => seq![event],
                None => Seq::<Event>::empty(),
            }
        }),
{
    let start = seq![0x1bu8] + seq![0x5bu8];
    assert(start =~= seq![0x1bu8, 0x5bu8]);
    lemma_one_step(m, 0x1b);
    let escaped = DecoderModel { state: State::Escape, utf8: Seq::empty(), ..m };
    lemma_one_step(escaped, 0x5b);
    let opened = DecoderModel {
        state: State::Csi,
        params: Seq::empty(),
        utf8: Seq::empty(),
    };
    input::splitting_reads_changes_nothing(m, seq![0x1bu8], seq![0x5bu8]);
    let none = Seq::<Event>::empty();
    assert(none + none =~= none);
    assert(input::steps(m, start) == (opened, none));
    lemma_collected(opened, params);
    input::splitting_reads_changes_nothing(m, start, params);
    let full = DecoderModel { params: opened.params + chars_of(params), ..opened };
    assert(full.params =~= chars_of(params));
    lemma_one_step(full, last);
    input::splitting_reads_changes_nothing(m, start + params, seq![last]);
    let events = input::step(full, last).1;
    assert(none + events =~= events);
    assert(start + params =~= seq![0x1bu8, 0x5bu8] + params);
}

/// A string that the terminal sends is read as a whole, whichever way it ends.
pub proof fn strings_are_read_whole(m: DecoderModel, kind: Kind, body: Seq<u8>)
    requires
        m.state == State::Ground,
        kind == Kind::Osc || kind == Kind::Apc,
        body.len() <= 4096,
        forall|i: int| 0 <= i < body.len() ==> 0x20 <= #[trigger] body[i] <= 0x7e,
    ensures
        ({
            let start = seq![0x1bu8, if kind == Kind::Osc { 0x5du8 } else { 0x5fu8 }];
            let event = match input::string_event(kind, chars_of(body)) {
                Some(event) => seq![event],
                None => Seq::<Event>::empty(),
            };
            &&& input::steps(m, start + body + seq![0x07u8]).1 == event
            &&& input::steps(m, start + body + seq![0x1bu8, 0x5cu8]).1 == event
            &&& input::steps(m, start + body + seq![0x07u8]).0.state == State::Ground
            &&& input::steps(m, start + body + seq![0x1bu8, 0x5cu8]).0.state == State::Ground
        }),
{
    let second: u8 = if kind == Kind::Osc {
        0x5d
    } else {
        0x5f
    };
    let start = seq![0x1bu8] + seq![second];
    assert(start =~= seq![0x1bu8, if kind == Kind::Osc { 0x5du8 } else { 0x5fu8 }]);
    lemma_one_step(m, 0x1b);
    let escaped = DecoderModel { state: State::Escape, utf8: Seq::empty(), ..m };
    lemma_one_step(escaped, second);
    let opened = DecoderModel {
        state: State::Str(kind),
        params: Seq::empty(),
        utf8: Seq::empty(),
    };
    input::splitting_reads_changes_nothing(m, seq![0x1bu8], seq![second]);
    let none = Seq::<Event>::empty();
    assert(none + none =~= none);
    assert(input::steps(m, start) == (opened, none));
    lemma_collected(opened, body);
    input::splitting_reads_changes_nothing(m, start, body);
    let full = DecoderModel { params: opened.params + chars_of(body), ..opened };
    assert(full.params =~= chars_of(body));
    lemma_one_step(full, 0x07);
    input::splitting_reads_changes_nothing(m, start + body, seq![0x07u8]);
    let events = input::step(full, 0x07).1;
    assert(none + events =~= events);
    lemma_one_step(full, 0x1b);
    let ending = DecoderModel { state: State::StrEscape(kind), ..full };
    lemma_one_step(ending, 0x5c);
    input::splitting_reads_changes_nothing(full, seq![0x1bu8], seq![0x5cu8]);
    assert(seq![0x1bu8] + seq![0x5cu8] =~= seq![0x1bu8, 0x5cu8]);
    input::splitting_reads_changes_nothing(m, start + body, seq![0x1bu8, 0x5cu8]);
    assert(0x5cu8 as char == '\\');
    assert(input::steps(full, seq![0x1bu8, 0x5cu8]).1 =~= events);
}

// ---------------------------------------------------------------------------------------------
// Keys.

/// The arrows, Home and End are told apart by the byte that ends their sequence, with or without
/// parameters, and Page Up and Page Down by their number.
pub proof fn keys_have_their_sequences(params: Seq<char>)
    ensures
        input::csi_event(params, 0x41) == Some(Event::Key(Key::Up)),
        input::csi_event(params, 0x42) == Some(Event::Key(Key::Down)),
        input::csi_event(params, 0x43) == Some(Event::Key(Key::Right)),
        input::csi_event(params, 0x44) == Some(Event::Key(Key::Left)),
        input::csi_event(params, 0x48) == Some(Event::Key(Key::Home)),
        input::csi_event(params, 0x46) == Some(Event::Key(Key::End)),
        input::ss3_key(0x41) == Some(Key::Up),
        input::ss3_key(0x42) == Some(Key::Down),
        input::ss3_key(0x43) == Some(Key::Right),
        input::ss3_key(0x44) == Some(Key::Left),
        input::ss3_key(0x48) == Some(Key::Home),
        input::ss3_key(0x46) == Some(Key::End),
{
}

/// The numbered keys, whatever parameters follow the number.
pub proof fn numbered_keys_have_their_numbers(n: nat, more: Seq<nat>)
    requires
        n <= u32::MAX,
        forall|i: int| 0 <= i < more.len() ==> #[trigger] more[i] <= u32::MAX,
    ensures
        ({
            let event = input::csi_event(listed(seq![n] + more), 0x7e);
            &&& n == 1 || n == 7 ==> event == Some(Event::Key(Key::Home))
            &&& n == 4 || n == 8 ==> event == Some(Event::Key(Key::End))
            &&& n == 5 ==> event == Some(Event::Key(Key::PageUp))
            &&& n == 6 ==> event == Some(Event::Key(Key::PageDown))
            &&& n == 0 || n == 2 || n == 3 || n > 8 ==> event is None
        }),
{
    let all = seq![n] + more;
    assert forall|i: int| 0 <= i < all.len() implies #[trigger] all[i] <= u32::MAX by {
        if i > 0 {
            assert(all[i] == more[i - 1]);
        }
    }
    lemma_listed(all);
    assert(all[0] == n);
}

/// A character that ASCII prints is typed as itself, Ctrl and a letter as that, and Enter, Tab
/// and Backspace as the keys that they are. Escape twice is the Escape key once.
pub proof fn bytes_are_typed_as_keys(m: DecoderModel, byte: u8)
    requires
        m.state == State::Ground,
    ensures
        ({
            let events = input::steps(m, seq![byte]).1;
            &&& 0x20 <= byte <= 0x7e ==> events == seq![Event::Key(Key::Char(byte as char))]
            &&& byte == 0x0d || byte == 0x0a ==> events == seq![Event::Key(Key::Enter)]
            &&& byte == 0x09 ==> events == seq![Event::Key(Key::Tab)]
            &&& byte == 0x7f || byte == 0x08 ==> events == seq![Event::Key(Key::Backspace)]
            &&& byte == 0x03 ==> events == seq![Event::Key(Key::Ctrl('c'))]
            &&& 0x01 <= byte <= 0x1a && byte != 0x08 && byte != 0x09 && byte != 0x0a && byte != 0x0d
                ==> events == seq![Event::Key(Key::Ctrl((0x60 + byte) as char))]
            &&& byte == 0 || byte == 0x1b || 0x1c <= byte <= 0x1f ==> events == Seq::<
                Event,
            >::empty()
        }),
        input::steps(m, seq![0x1bu8, 0x1bu8]).1 == seq![Event::Key(Key::Escape)],
{
    lemma_one_step(m, byte);
    lemma_one_step(m, 0x1b);
    let escaped = DecoderModel { state: State::Escape, utf8: Seq::empty(), ..m };
    lemma_one_step(escaped, 0x1b);
    input::splitting_reads_changes_nothing(m, seq![0x1bu8], seq![0x1bu8]);
    assert(seq![0x1bu8] + seq![0x1bu8] =~= seq![0x1bu8, 0x1bu8]);
    let escape = seq![Event::Key(Key::Escape)];
    assert(Seq::<Event>::empty() + escape =~= escape);
}

// ---------------------------------------------------------------------------------------------
// Numbers.

/// Numbers with semicolons between them.
pub open spec fn listed(numbers: Seq<nat>) -> Seq<char>
    decreases numbers.len(),
{
    if numbers.len() == 0 {
        Seq::empty()
    } else if numbers.len() == 1 {
        text::decimal(numbers[0])
    } else {
        text::decimal(numbers[0]) + seq![';'] + listed(numbers.drop_first())
    }
}

proof fn lemma_number(n: nat)
    requires
        n <= u32::MAX,
    ensures
        input::number(text::decimal(n)) == Some(n as u32),
        !text::decimal(n).contains(';'),
        text::decimal(n).len() > 0,
        '0' <= text::decimal(n)[0] <= '9',
{
    text::numbers_are_written_in_decimal(n);
    let d = text::decimal(n);
    if d.contains(';') {
        let i = d.index_of(';');
        assert(d[i] == ';');
    }
    assert(d.len() > 0);
    assert('0' <= d[0] <= '9');
    assert(text::number(d, 10, n) == Some(n));
    assert(text::number(d, 10, u32::MAX as nat) == Some(n));
}

proof fn lemma_split(a: Seq<char>, rest: Seq<char>, c: char)
    requires
        !a.contains(c),
    ensures
        text::split(a, c) == seq![a],
        text::split(a + seq![c] + rest, c) == seq![a] + text::split(rest, c),
{
    assert forall|i: int| 0 <= i < a.len() implies #[trigger] a[i] != c by {
        assert(a.contains(a[i]));
    }
    let n = a.len() as int;
    text::lemma_find_is(a, c, n);
    let all = a + seq![c] + rest;
    assert(all[n] == c);
    text::lemma_find_is(all, c, n);
    assert(all.take(n) =~= a);
    assert(all.skip(n + 1) =~= rest);
}

proof fn lemma_listed(numbers: Seq<nat>)
    requires
        numbers.len() > 0,
        forall|i: int| 0 <= i < numbers.len() ==> #[trigger] numbers[i] <= u32::MAX,
    ensures
        input::numbers(listed(numbers)).len() == numbers.len(),
        forall|i: int|
            0 <= i < numbers.len() ==> #[trigger] input::numbers(listed(numbers))[i] == Some(
                numbers[i] as u32,
            ),
        listed(numbers).len() > 0,
        '0' <= listed(numbers)[0] <= '9',
    decreases numbers.len(),
{
    let first = text::decimal(numbers[0]);
    lemma_number(numbers[0]);
    if numbers.len() == 1 {
        lemma_split(first, Seq::empty(), ';');
        assert(input::numbers(listed(numbers)) =~= seq![input::number(first)]);
    } else {
        let rest = numbers.drop_first();
        assert forall|i: int| 0 <= i < rest.len() implies #[trigger] rest[i] <= u32::MAX by {
            assert(rest[i] == numbers[i + 1]);
        }
        lemma_listed(rest);
        lemma_split(first, listed(rest), ';');
        let later = input::numbers(listed(rest));
        assert(input::numbers(listed(numbers)) =~= seq![input::number(first)] + later);
        assert(listed(numbers)[0] == first[0]);
        assert forall|i: int| 0 <= i < numbers.len() implies #[trigger] input::numbers(
            listed(numbers),
        )[i] == Some(numbers[i] as u32) by {
            if i > 0 {
                assert(input::numbers(listed(numbers))[i] == later[i - 1]);
                assert(rest[i - 1] == numbers[i]);
            }
        }
    }
}

// ---------------------------------------------------------------------------------------------
// The mouse.

/// A mouse report names what happened, with the modifiers that were held, and where, counted
/// from 1: buttons are pressed and released and the pointer is moved or dragged with them; the
/// wheel is turned up or down.
pub proof fn mouse_reports_say_what_happened(
    button: u32,
    shift: bool,
    ctrl: bool,
    x: nat,
    y: nat,
)
    requires
        button < 3,
        1 <= x <= u32::MAX,
        1 <= y <= u32::MAX,
    ensures
        ({
            let held = (if shift { 4u32 } else { 0u32 }) + (if ctrl { 16u32 } else { 0u32 });
            let at = |kind: MouseKind|
                Some(
                    Event::Mouse(
                        Mouse { kind, x: (x - 1) as u32, y: (y - 1) as u32, shift, ctrl },
                    ),
                );
            let report = |code: int, last: u8|
                input::csi_event(seq!['<'] + listed(seq![code as nat, x, y]), last);
            &&& report(button + held, 0x4d) == at(MouseKind::Press(button as u8))
            &&& report(button + held, 0x6d) == at(MouseKind::Release)
            &&& report(32 + button + held, 0x4d) == at(MouseKind::Drag)
            &&& report(32 + 3 + held, 0x4d) == at(MouseKind::Move)
            &&& report(64 + held, 0x4d) == at(MouseKind::ScrollUp)
            &&& report(65 + held, 0x4d) == at(MouseKind::ScrollDown)
        }),
{
    let held: u32 = (if shift {
        4u32
    } else {
        0u32
    }) as u32;
    let more: u32 = if ctrl {
        16u32
    } else {
        0u32
    };
    let sum = (held + more) as u32;
    lemma_code(button, button, shift, ctrl);
    lemma_code((32 + button) as u32, button, shift, ctrl);
    lemma_code(35, 3, shift, ctrl);
    lemma_code(64, 0, shift, ctrl);
    lemma_code(65, 1, shift, ctrl);
    lemma_report((button + sum) as u32, x, y, 0x4d);
    lemma_report((button + sum) as u32, x, y, 0x6d);
    lemma_report((32 + button + sum) as u32, x, y, 0x4d);
    lemma_report((35 + sum) as u32, x, y, 0x4d);
    lemma_report((64 + sum) as u32, x, y, 0x4d);
    lemma_report((65 + sum) as u32, x, y, 0x4d);
}

/// The bits of a mouse code.
proof fn lemma_code(code: u32, low: u32, shift: bool, ctrl: bool)
    requires
        low <= 3,
        code == low || code == 32 + low || code == 64 + low,
    ensures
        ({
            let all = (code + (if shift { 4u32 } else { 0u32 }) + (if ctrl { 16u32 } else {
                0u32
            })) as u32;
            &&& all & 3 == low
            &&& all & 1 == low % 2
            &&& all & 64 != 0 <==> code >= 64
            &&& all & 32 != 0 <==> 32 <= code < 64
            &&& all & 4 != 0 <==> shift
            &&& all & 16 != 0 <==> ctrl
        }),
{
    let s: u32 = if shift {
        4
    } else {
        0
    };
    let c: u32 = if ctrl {
        16
    } else {
        0
    };
    let high: u32 = (code - low) as u32;
    let all = (code + s + c) as u32;
    assert(all == high + low + s + c);
    assert(all & 3 == low && all & 1 == low % 2 && (all & 64 != 0 <==> high == 64) && (all & 32 != 0
        <==> high == 32) && (all & 4 != 0 <==> s == 4) && (all & 16 != 0 <==> c == 16)) by (bit_vector)
        requires
            all == high + low + s + c,
            low <= 3,
            s == 0 || s == 4,
            c == 0 || c == 16,
            high == 0 || high == 32 || high == 64,
    ;
}

proof fn lemma_report(code: u32, x: nat, y: nat, last: u8)
    requires
        1 <= x <= u32::MAX,
        1 <= y <= u32::MAX,
        last == 0x4d || last == 0x6d,
    ensures
        input::csi_event(seq!['<'] + listed(seq![code as nat, x, y]), last) == Some(
            Event::Mouse(
                Mouse {
                    kind: input::mouse_kind(code, last),
                    x: (x - 1) as u32,
                    y: (y - 1) as u32,
                    shift: code & 4 != 0,
                    ctrl: code & 16 != 0,
                },
            ),
        ),
{
    let numbers = seq![code as nat, x, y];
    lemma_listed(numbers);
    let params = seq!['<'] + listed(numbers);
    assert(params.skip(1) =~= listed(numbers));
    let v = input::numbers(listed(numbers));
    assert(v[0] == Some(numbers[0] as u32) && v[1] == Some(numbers[1] as u32) && v[2] == Some(
        numbers[2] as u32,
    ));
}

// ---------------------------------------------------------------------------------------------
// Replies.

/// Sizes are reported with the height before the width: of a cell, of the text area, and of the
/// terminal in cells and pixels when it changes.
pub proof fn sizes_are_reported_height_first(rows: u16, cols: u16, height: u32, width: u32)
    ensures
        height > 0 && width > 0 ==> input::csi_event(
            listed(seq![6nat, height as nat, width as nat]),
            0x74,
        ) == Some(Event::CellSize { width, height }),
        height > 0 && width > 0 ==> input::csi_event(
            listed(seq![4nat, height as nat, width as nat]),
            0x74,
        ) == Some(Event::TextArea { width, height }),
        input::csi_event(
            listed(seq![48nat, rows as nat, cols as nat, height as nat, width as nat]),
            0x74,
        ) == Some(Event::Resize { cols, rows, width, height }),
{
    let cell = seq![6nat, height as nat, width as nat];
    let area = seq![4nat, height as nat, width as nat];
    let all = seq![48nat, rows as nat, cols as nat, height as nat, width as nat];
    lemma_listed(cell);
    lemma_listed(area);
    lemma_listed(all);
    let a = input::numbers(listed(cell));
    let b = input::numbers(listed(area));
    let c = input::numbers(listed(all));
    assert(a[0] == Some(6u32) && a[1] == Some(height) && a[2] == Some(width));
    assert(b[0] == Some(4u32) && b[1] == Some(height) && b[2] == Some(width));
    assert(c[0] == Some(48u32) && c[1] == Some(rows as u32) && c[2] == Some(cols as u32) && c[3]
        == Some(height) && c[4] == Some(width));
}

/// A terminal reports dark and light color schemes, and answers the query for its attributes.
pub proof fn schemes_and_attributes_are_reported(rest: Seq<char>)
    ensures
        input::csi_event("?997;1"@, 0x6e) == Some(Event::ColorScheme { dark: true }),
        input::csi_event("?997;2"@, 0x6e) == Some(Event::ColorScheme { dark: false }),
        input::csi_event(seq!['?'] + rest, 0x63) == Some(Event::DeviceAttributes),
{
    reveal_strlit("?997;1");
    reveal_strlit("?997;2");
    assert("?997;1"@[5] != "?997;2"@[5]);
    assert((seq!['?'] + rest)[0] == '?');
}

/// The reply to a color query names the color that was asked for: 10 is the foreground, 11 the
/// background, and 4 with a number one of the palette.
pub proof fn colors_are_reported_by_number(index: u16, color: Seq<char>)
    requires
        !color.contains(';'),
    ensures
        input::string_event(Kind::Osc, "10"@ + seq![';'] + color) == match theme::parsed(color) {
            Some(rgb) => Some(Event::Color { index: 10, rgb }),
            None => None,
        },
        input::string_event(Kind::Osc, "11"@ + seq![';'] + color) == match theme::parsed(color) {
            Some(rgb) => Some(Event::Color { index: 11, rgb }),
            None => None,
        },
        input::string_event(
            Kind::Osc,
            "4"@ + seq![';'] + (text::decimal(index as nat) + seq![';'] + color),
        ) == match theme::parsed(color) {
            Some(rgb) => Some(Event::Color { index, rgb }),
            None => None,
        },
{
    reveal_strlit("10");
    reveal_strlit("11");
    reveal_strlit("4");
    assert("10"@[1] != "11"@[1]);
    assert(color.skip(0) =~= color);
    lemma_first("10"@, color);
    lemma_first("11"@, color);
    let n = text::decimal(index as nat);
    lemma_number(index as nat);
    text::numbers_are_written_in_decimal(index as nat);
    lemma_first(n, color);
    lemma_first("4"@, n + seq![';'] + color);
    assert(text::number(n, 10, index as nat) == Some(index as nat));
    assert(text::number(n, 10, u16::MAX as nat) == Some(index as nat));
    assert forall|i: int| 0 <= i < color.len() implies #[trigger] color[i] != ';' by {
        assert(color.contains(color[i]));
    }
    text::lemma_find_is(color, ';', color.len() as int);
}

proof fn lemma_first(a: Seq<char>, rest: Seq<char>)
    requires
        !a.contains(';'),
    ensures
        ({
            let all = a + seq![';'] + rest;
            &&& text::find(all, ';') == a.len()
            &&& all.take(a.len() as int) == a
            &&& all.skip(a.len() as int + 1) == rest
            &&& a.len() < all.len()
        }),
{
    let all = a + seq![';'] + rest;
    let n = a.len() as int;
    assert forall|i: int| 0 <= i < n implies #[trigger] all[i] != ';' by {
        assert(a.contains(a[i]));
    }
    assert(all[n] == ';');
    text::lemma_find_is(all, ';', n);
    assert(all.take(n) =~= a);
    assert(all.skip(n + 1) =~= rest);
}

/// The reply about an image says which one it is, and whether all is well: only `OK` says so.
pub proof fn graphics_replies_name_the_image(id: u32, message: Seq<char>)
    ensures
        input::string_event(
            Kind::Apc,
            "Gi="@ + text::decimal(id as nat) + seq![';'] + message,
        ) == Some(Event::Graphics { id, ok: message == "OK"@ }),
{
    reveal_strlit("Gi=");
    reveal_strlit("i=");
    let n = text::decimal(id as nat);
    lemma_number(id as nat);
    text::numbers_are_written_in_decimal(id as nat);
    let body = "Gi="@ + n + seq![';'] + message;
    let key = "i="@ + n;
    let inner = body.skip(1);
    assert(inner =~= key + seq![';'] + message);
    assert forall|i: int| 0 <= i < key.len() implies key[i] != ';' && key[i] != ',' by {
        if i >= 2 {
            assert(key[i] == n[i - 2]);
            assert('0' <= n[i - 2] <= '9');
        }
    }
    assert(!key.contains(';'));
    assert(!key.contains(','));
    lemma_first(key, message);
    lemma_split(key, Seq::empty(), ',');
    assert(key.take(2) =~= "i="@);
    assert(key.skip(2) =~= n);
    assert(seq![key][0] == key);
}

// ---------------------------------------------------------------------------------------------
// Colors.

proof fn lemma_digit(n: u8)
    requires
        n < 16,
    ensures
        text::digit_value(theme::hex_digit(n), 16) == Some(n as nat),
        !text::white(theme::hex_digit(n)),
        theme::hex_digit(n) != '/',
{
    let c = theme::hex_digit(n);
    if n < 10 {
        assert((48 + n) as char as int == 48 + n);
    } else {
        assert((87 + n) as char as int == 87 + n);
    }
    text::white_space_prints_nothing(c);
}

/// Two digits stand for their channel.
proof fn lemma_channel(c: u8)
    ensures
        theme::scaled(seq![theme::hex_digit(c / 16), theme::hex_digit(c % 16)]) == Some(c),
{
    let a = theme::hex_digit(c / 16);
    let b = theme::hex_digit(c % 16);
    lemma_digit(c / 16);
    lemma_digit(c % 16);
    let s = seq![a, b];
    assert(s.drop_last() =~= seq![a]);
    assert(seq![a].drop_last() =~= Seq::<char>::empty());
    reveal_with_fuel(text::value, 3);
    assert(text::value(s, 16) == (c / 16) * 16 + c % 16);
    assert(text::value(s, 16) == c);
    assert((c * 255 + 127) / 255 == c) by (nonlinear_arith);
    assert forall|i: int| 0 <= i < s.len() implies text::digit_value(#[trigger] s[i], 16)
        is Some by {}
}

/// The digits of a channel.
spec fn pair(c: u8) -> Seq<char> {
    seq![theme::hex_digit(c / 16), theme::hex_digit(c % 16)]
}

/// A channel's digits are no white space and no slashes.
proof fn lemma_pair(c: u8)
    ensures
        theme::scaled(pair(c)) == Some(c),
        pair(c).len() == 2,
        !text::white(pair(c)[0]),
        !text::white(pair(c)[1]),
        !pair(c).contains('/'),
{
    lemma_channel(c);
    lemma_digit(c / 16);
    lemma_digit(c % 16);
}

proof fn lemma_hash(r: Seq<char>, g: Seq<char>, b: Seq<char>)
    requires
        r.len() == 2 && g.len() == 2 && b.len() == 2,
        !text::white(b[1]),
    ensures
        theme::parsed(seq!['#'] + r + g + b) == theme::color_of(
            theme::scaled(r),
            theme::scaled(g),
            theme::scaled(b),
        ),
{
    let hex = seq!['#'] + r + g + b;
    reveal_strlit("rgb:");
    text::white_space_prints_nothing('#');
    assert(hex[6] == b[1]);
    text::lemma_trimmed_is(hex, 0, 7);
    assert(hex.subrange(0, 7) =~= hex);
    if text::starts(hex, "rgb:"@) {
        assert(hex.take(4)[0] == hex[0]);
    }
    let digits = hex.skip(1);
    assert(digits.subrange(0, 2) =~= r);
    assert(digits.subrange(2, 4) =~= g);
    assert(digits.subrange(4, 6) =~= b);
}

proof fn lemma_slashes(r: Seq<char>, g: Seq<char>, b: Seq<char>)
    requires
        b.len() > 0,
        !text::white(b.last()),
        !r.contains('/') && !g.contains('/') && !b.contains('/'),
    ensures
        theme::parsed("rgb:"@ + r + seq!['/'] + g + seq!['/'] + b) == theme::color_of(
            theme::scaled(r),
            theme::scaled(g),
            theme::scaled(b),
        ),
{
    let report = "rgb:"@ + r + seq!['/'] + g + seq!['/'] + b;
    let inner = r + seq!['/'] + (g + seq!['/'] + b);
    assert(report =~= "rgb:"@ + inner);
    assert(inner.last() == b.last());
    lemma_prefixed(inner);
    assert(text::split(inner, '/') == seq![r, g, b]) by {
        lemma_split(r, g + seq!['/'] + b, '/');
        lemma_split(g, b, '/');
        lemma_split(b, Seq::empty(), '/');
        assert(text::split(inner, '/') =~= seq![r, g, b]);
    }
}

/// What follows the prefix of a report.
proof fn lemma_prefixed(inner: Seq<char>)
    requires
        inner.len() > 0,
        !text::white(inner.last()),
    ensures
        text::trimmed("rgb:"@ + inner) == "rgb:"@ + inner,
        text::starts("rgb:"@ + inner, "rgb:"@),
        ("rgb:"@ + inner).skip(4) == inner,
{
    let report = "rgb:"@ + inner;
    reveal_strlit("rgb:");
    text::white_space_prints_nothing('r');
    assert(report.last() == inner.last());
    text::lemma_trimmed_is(report, 0, report.len() as int);
    assert(report.subrange(0, report.len() as int) =~= report);
    assert(report.take(4) =~= "rgb:"@);
    assert(report.skip(4) =~= inner);
}

/// Colors are read as they are written, and as terminals report them.
pub proof fn colors_are_read_as_written(color: Rgb)
    ensures
        theme::parsed(theme::hex_text(color)) == Some(color),
        ({
            let hex = theme::hex_text(color);
            theme::parsed(
                "rgb:"@ + hex.subrange(1, 3) + seq!['/'] + hex.subrange(3, 5) + seq!['/']
                    + hex.subrange(5, 7),
            ) == Some(color)
        }),
{
    let hex = theme::hex_text(color);
    lemma_pair(color.0);
    lemma_pair(color.1);
    lemma_pair(color.2);
    assert(hex =~= seq!['#'] + pair(color.0) + pair(color.1) + pair(color.2));
    assert(hex.subrange(1, 3) =~= pair(color.0));
    assert(hex.subrange(3, 5) =~= pair(color.1));
    assert(hex.subrange(5, 7) =~= pair(color.2));
    lemma_hash(pair(color.0), pair(color.1), pair(color.2));
    lemma_slashes(pair(color.0), pair(color.1), pair(color.2));
}

/// A color's text is `#` and two hexadecimal digits for each of red, green and blue.
pub proof fn colors_are_written_in_hexadecimal(color: Rgb)
    ensures
        ({
            let hex = theme::hex_text(color);
            &&& hex.len() == 7 && hex[0] == '#'
            &&& text::value(hex.subrange(1, 3), 16) == color.0
            &&& text::value(hex.subrange(3, 5), 16) == color.1
            &&& text::value(hex.subrange(5, 7), 16) == color.2
        }),
{
    let hex = theme::hex_text(color);
    lemma_value(color.0);
    lemma_value(color.1);
    lemma_value(color.2);
    assert(hex.subrange(1, 3) =~= pair(color.0));
    assert(hex.subrange(3, 5) =~= pair(color.1));
    assert(hex.subrange(5, 7) =~= pair(color.2));
}

proof fn lemma_value(c: u8)
    ensures
        text::value(pair(c), 16) == c,
{
    lemma_digit(c / 16);
    lemma_digit(c % 16);
    let s = pair(c);
    assert(s.drop_last() =~= seq![s[0]]);
    assert(seq![s[0]].drop_last() =~= Seq::<char>::empty());
    reveal_with_fuel(text::value, 3);
    assert(text::value(s, 16) == (c / 16) * 16 + c % 16);
}

/// A channel of one to four digits is a part of the most that so many digits hold, and stands for
/// the same part of 255.
pub proof fn channels_are_scaled(digits: Seq<char>)
    requires
        1 <= digits.len() <= 4,
        text::all_digits(digits, 16),
    ensures
        ({
            let most = seq![15int, 255, 4095, 65535][digits.len() - 1];
            let value = text::value(digits, 16) as int;
            &&& theme::scaled(digits) matches Some(c)
            &&& value <= most
            &&& -most <= 2 * (c * most - value * 255) <= most
        }),
{
    theme::lemma_value_bound(digits);
    let most = seq![15int, 255, 4095, 65535][digits.len() - 1];
    let value = text::value(digits, 16) as int;
    assert(most == theme::channel_max(digits.len()));
    theme::lemma_scaled_bound(value, most);
    let c = (value * 255 + most / 2) / most;
    assert(c * most <= value * 255 + most / 2 < c * most + most) by (nonlinear_arith)
        requires
            c == (value * 255 + most / 2) / most,
            most > 0,
    ;
}

} // verus!
