//! What the terminal sends mer: keys, mouse events, and replies to its queries.

use vstd::prelude::*;
use vstd::slice::slice_subrange;

use crate::text;
use crate::theme;
use crate::theme::Rgb;
use crate::utf8;

verus! {

#[derive(Clone, Copy, Debug, PartialEq, Eq, Structural)]
pub enum Key {
    Char(char),
    /// Ctrl with a letter, such as `Ctrl('c')`.
    Ctrl(char),
    Enter,
    Tab,
    Backspace,
    Escape,
    Up,
    Down,
    Left,
    Right,
    Home,
    End,
    PageUp,
    PageDown,
}

#[derive(Clone, Copy, Debug, PartialEq, Eq, Structural)]
pub enum MouseKind {
    /// Button 0 (left), 1 (middle) or 2 (right) pressed.
    Press(u8),
    Release,
    Drag,
    Move,
    ScrollUp,
    ScrollDown,
}

#[derive(Clone, Copy, Debug, PartialEq, Eq, Structural)]
pub struct Mouse {
    pub kind: MouseKind,
    /// Zero-based position: pixels with SGR-pixel reporting, otherwise cells.
    pub x: u32,
    pub y: u32,
    pub shift: bool,
    pub ctrl: bool,
}

#[derive(Clone, Copy, Debug, PartialEq, Eq, Structural)]
pub enum Event {
    Key(Key),
    Mouse(Mouse),
    /// The terminal's light or dark preference, reported on request or when it switches.
    ColorScheme { dark: bool },
    /// In-band resize report (mode 2048), with the text area in pixels.
    Resize { cols: u16, rows: u16, width: u32, height: u32 },
    /// A color query reply: 10 is the foreground, 11 the background, others palette indexes.
    Color { index: u16, rgb: Rgb },
    /// The cell size in pixels, in reply to `CSI 16 t`.
    CellSize { width: u32, height: u32 },
    /// The text area size in pixels, in reply to `CSI 14 t`.
    TextArea { width: u32, height: u32 },
    /// A kitty graphics protocol reply about image `id`.
    Graphics { id: u32, ok: bool },
    /// The reply to a primary device attributes query (DA1).
    DeviceAttributes,
}

/// Where in a sequence the decoder is.
#[derive(Clone, Copy, Debug, PartialEq, Eq, Structural)]
pub enum State {
    Ground,
    Escape,
    Csi,
    Ss3,
    Str(Kind),
    /// An ESC inside a string, which ends it when `\` follows.
    StrEscape(Kind),
}

/// Strings the terminal sends.
#[derive(Clone, Copy, Debug, PartialEq, Eq, Structural)]
pub enum Kind {
    Osc,
    Apc,
    /// DCS strings carry nothing mer reads.
    Dcs,
}

/// Incremental decoder for everything the terminal sends.
#[derive(Debug)]
pub struct Decoder {
    state: State,
    params: String,
    utf8: Vec<u8>,
}

/// What a [`Decoder`] remembers of the bytes it has seen.
pub struct DecoderModel {
    pub state: State,
    /// The parameters or the string so far.
    pub params: Seq<char>,
    /// The bytes so far of a character outside ASCII.
    pub utf8: Seq<u8>,
}

impl View for Decoder {
    type V = DecoderModel;

    closed spec fn view(&self) -> DecoderModel {
        DecoderModel { state: self.state, params: self.params@, utf8: self.utf8@ }
    }
}

/// Parameters are kept up to this many bytes of UTF-8.
pub const MAX_PARAMS: usize = 4096;

// ---------------------------------------------------------------------------------------------
// What sequences report.

/// A decimal number.
pub open spec fn number(s: Seq<char>) -> Option<u32> {
    match text::number(s, 10, u32::MAX as nat) {
        Some(n) => Some(n as u32),
        None => None,
    }
}

/// The numbers between semicolons.
pub open spec fn numbers(params: Seq<char>) -> Seq<Option<u32>> {
    text::split(params, ';').map_values(|p: Seq<char>| number(p))
}

/// Whether all of some numbers are there.
pub open spec fn all_there(values: Seq<Option<u32>>) -> bool {
    forall|i: int| 0 <= i < values.len() ==> (#[trigger] values[i]) is Some
}

/// What a `CSI … ~` sequence reports.
pub open spec fn tilde_key(params: Seq<char>) -> Option<Event> {
    match numbers(params)[0] {
        Some(1) | Some(7) => Some(Event::Key(Key::Home)),
        Some(4) | Some(8) => Some(Event::Key(Key::End)),
        Some(5) => Some(Event::Key(Key::PageUp)),
        Some(6) => Some(Event::Key(Key::PageDown)),
        _ => None,
    }
}

/// What a `CSI … t` sequence reports.
pub open spec fn size_report(params: Seq<char>) -> Option<Event> {
    let v = numbers(params);
    if !all_there(v) {
        None
    } else if v.len() == 5 && v[0] == Some(48u32) {
        let (rows, cols) = (v[1].unwrap(), v[2].unwrap());
        if cols <= u16::MAX && rows <= u16::MAX {
            Some(
                Event::Resize {
                    cols: cols as u16,
                    rows: rows as u16,
                    width: v[4].unwrap(),
                    height: v[3].unwrap(),
                },
            )
        } else {
            None
        }
    } else if v.len() == 3 && v[1].unwrap() > 0 && v[2].unwrap() > 0 {
        let (height, width) = (v[1].unwrap(), v[2].unwrap());
        if v[0] == Some(6u32) {
            Some(Event::CellSize { width, height })
        } else if v[0] == Some(4u32) {
            Some(Event::TextArea { width, height })
        } else {
            None
        }
    } else {
        None
    }
}

/// What an SGR mouse code and final byte stand for.
pub open spec fn mouse_kind(code: u32, final_byte: u8) -> MouseKind {
    if code & 64 != 0 {
        if code & 1 == 0 {
            MouseKind::ScrollUp
        } else {
            MouseKind::ScrollDown
        }
    } else if code & 32 != 0 {
        if code & 3 == 3 {
            MouseKind::Move
        } else {
            MouseKind::Drag
        }
    } else if final_byte as char == 'm' {
        MouseKind::Release
    } else {
        MouseKind::Press((code & 3) as u8)
    }
}

/// A position counted from zero instead of one.
pub open spec fn zero_based(n: u32) -> u32 {
    if n == 0 {
        0
    } else {
        (n - 1) as u32
    }
}

/// What an SGR mouse sequence reports.
pub open spec fn mouse_event(params: Seq<char>, final_byte: u8) -> Option<Event> {
    let v = numbers(params);
    if v.len() < 3 {
        None
    } else {
        match (v[0], v[1], v[2]) {
            (Some(code), Some(x), Some(y)) => Some(
                Event::Mouse(
                    Mouse {
                        kind: mouse_kind(code, final_byte),
                        x: zero_based(x),
                        y: zero_based(y),
                        shift: code & 4 != 0,
                        ctrl: code & 16 != 0,
                    },
                ),
            ),
            _ => None,
        }
    }
}

/// What a CSI sequence reports.
pub open spec fn csi_event(params: Seq<char>, final_byte: u8) -> Option<Event> {
    if final_byte as char == 'A' {
        Some(Event::Key(Key::Up))
    } else if final_byte as char == 'B' {
        Some(Event::Key(Key::Down))
    } else if final_byte as char == 'C' {
        Some(Event::Key(Key::Right))
    } else if final_byte as char == 'D' {
        Some(Event::Key(Key::Left))
    } else if final_byte as char == 'H' {
        Some(Event::Key(Key::Home))
    } else if final_byte as char == 'F' {
        Some(Event::Key(Key::End))
    } else if final_byte as char == '~' {
        tilde_key(params)
    } else if (final_byte as char == 'M' || final_byte as char == 'm') && params.len() > 0 && params[0] == '<' {
        mouse_event(params.skip(1), final_byte)
    } else if final_byte as char == 'c' && params.len() > 0 && params[0] == '?' {
        Some(Event::DeviceAttributes)
    } else if final_byte as char == 'n' && params == "?997;1"@ {
        Some(Event::ColorScheme { dark: true })
    } else if final_byte as char == 'n' && params == "?997;2"@ {
        Some(Event::ColorScheme { dark: false })
    } else if final_byte as char == 't' {
        size_report(params)
    } else {
        None
    }
}

/// What an OSC string reports: a palette color, or the foreground or background.
pub open spec fn osc_event(body: Seq<char>) -> Option<Event> {
    let at = text::find(body, ';');
    let code = body.take(at as int);
    let rest = body.skip(at as int + 1);
    let second = text::find(rest, ';');
    if at == body.len() {
        None
    } else if second < rest.len() {
        match (
            text::number(rest.take(second as int), 10, u16::MAX as nat),
            theme::parsed(rest.skip(second as int + 1)),
        ) {
            (Some(index), Some(rgb)) if code == "4"@ => Some(
                Event::Color { index: index as u16, rgb },
            ),
            _ => None,
        }
    } else {
        match theme::parsed(rest) {
            Some(rgb) => if code == "10"@ {
                Some(Event::Color { index: 10, rgb })
            } else if code == "11"@ {
                Some(Event::Color { index: 11, rgb })
            } else {
                None
            },
            None => None,
        }
    }
}

/// What follows `i=` in the first key that starts with it.
pub open spec fn image_key(keys: Seq<Seq<char>>) -> Option<Seq<char>>
    decreases keys.len(),
{
    if keys.len() == 0 {
        None
    } else if text::starts(keys[0], "i="@) {
        Some(keys[0].skip(2))
    } else {
        image_key(keys.drop_first())
    }
}

/// What an APC string reports: a kitty graphics reply such as `Gi=31;OK`.
pub open spec fn apc_event(body: Seq<char>) -> Option<Event> {
    let inner = body.skip(1);
    let at = text::find(inner, ';');
    if body.len() == 0 || body[0] != 'G' || at == inner.len() {
        None
    } else {
        match image_key(text::split(inner.take(at as int), ',')) {
            Some(key) => match number(key) {
                Some(id) => Some(
                    Event::Graphics { id, ok: inner.skip(at as int + 1) == "OK"@ },
                ),
                None => None,
            },
            None => None,
        }
    }
}

/// What a string reports, if it is something mer reads.
pub open spec fn string_event(kind: Kind, body: Seq<char>) -> Option<Event> {
    match kind {
        Kind::Osc => osc_event(body),
        Kind::Apc => apc_event(body),
        Kind::Dcs => None,
    }
}

// ---------------------------------------------------------------------------------------------
// What bytes do.

/// The event of a character that was typed.
pub open spec fn typed_char(c: char) -> Event {
    Event::Key(Key::Char(c))
}

/// The events of characters that were typed.
pub open spec fn typed(chars: Seq<char>) -> Seq<Event> {
    chars.map_values(|c: char| typed_char(c))
}

/// The sequence that holds what an optional event holds.
pub open spec fn one(event: Option<Event>) -> Seq<Event> {
    match event {
        Some(event) => seq![event],
        None => Seq::empty(),
    }
}

/// The key of an ASCII byte outside any sequence.
pub open spec fn ascii_key(byte: u8) -> Option<Key> {
    if byte as char == '\r' || byte as char == '\n' {
        Some(Key::Enter)
    } else if byte as char == '\t' {
        Some(Key::Tab)
    } else if byte == 0x7f || byte == 0x08 {
        Some(Key::Backspace)
    } else if 0x01 <= byte <= 0x1a {
        Some(Key::Ctrl((96 + byte) as char))
    } else if 0x20 <= byte <= 0x7e {
        Some(Key::Char(byte as char))
    } else {
        None
    }
}

/// What a byte outside any sequence does.
pub open spec fn ground_step(m: DecoderModel, byte: u8) -> (DecoderModel, Seq<Event>) {
    if byte >= 0x80 {
        let utf8 = m.utf8.push(byte);
        match utf8::checked(utf8) {
            utf8::Check::Valid => (
                DecoderModel { utf8: Seq::empty(), ..m },
                typed(utf8::decoded(utf8)),
            ),
            utf8::Check::Invalid => (DecoderModel { utf8: Seq::empty(), ..m }, Seq::empty()),
            utf8::Check::Short => if utf8.len() >= 4 {
                (DecoderModel { utf8: Seq::empty(), ..m }, Seq::empty())
            } else {
                (DecoderModel { utf8, ..m }, Seq::empty())
            },
        }
    } else if byte == 0x1b {
        (DecoderModel { state: State::Escape, utf8: Seq::empty(), ..m }, Seq::empty())
    } else {
        (
            DecoderModel { utf8: Seq::empty(), ..m },
            match ascii_key(byte) {
                Some(key) => seq![Event::Key(key)],
                None => Seq::empty(),
            },
        )
    }
}

/// What a byte after an ESC does.
pub open spec fn escape_step(m: DecoderModel, byte: u8) -> (DecoderModel, Seq<Event>) {
    let m = DecoderModel { params: Seq::empty(), ..m };
    if byte as char == '[' {
        (DecoderModel { state: State::Csi, ..m }, Seq::empty())
    } else if byte as char == 'O' {
        (DecoderModel { state: State::Ss3, ..m }, Seq::empty())
    } else if byte as char == ']' {
        (DecoderModel { state: State::Str(Kind::Osc), ..m }, Seq::empty())
    } else if byte as char == '_' {
        (DecoderModel { state: State::Str(Kind::Apc), ..m }, Seq::empty())
    } else if byte as char == 'P' {
        (DecoderModel { state: State::Str(Kind::Dcs), ..m }, Seq::empty())
    } else if byte == 0x1b {
        (DecoderModel { state: State::Escape, ..m }, seq![Event::Key(Key::Escape)])
    } else {
        // Alt+key: the key itself.
        ground_step(DecoderModel { state: State::Ground, ..m }, byte)
    }
}

/// `params` with one more byte, unless there are too many.
pub open spec fn collected(params: Seq<char>, byte: u8) -> Seq<char> {
    if vstd::utf8::encode_utf8(params).len() < MAX_PARAMS {
        params.push(byte as char)
    } else {
        params
    }
}

/// The key of an SS3 sequence.
pub open spec fn ss3_key(byte: u8) -> Option<Key> {
    if byte as char == 'A' {
        Some(Key::Up)
    } else if byte as char == 'B' {
        Some(Key::Down)
    } else if byte as char == 'C' {
        Some(Key::Right)
    } else if byte as char == 'D' {
        Some(Key::Left)
    } else if byte as char == 'H' {
        Some(Key::Home)
    } else if byte as char == 'F' {
        Some(Key::End)
    } else {
        None
    }
}

/// What one byte does: the decoder after it, and the events it completes.
pub open spec fn step(m: DecoderModel, byte: u8) -> (DecoderModel, Seq<Event>) {
    match m.state {
        State::Ground => ground_step(m, byte),
        State::Escape => escape_step(m, byte),
        State::Csi => if 0x40 <= byte <= 0x7e {
            (DecoderModel { state: State::Ground, ..m }, one(csi_event(m.params, byte)))
        } else if byte == 0x1b {
            (DecoderModel { state: State::Escape, ..m }, Seq::empty())
        } else {
            (DecoderModel { params: collected(m.params, byte), ..m }, Seq::empty())
        },
        State::Ss3 => (
            DecoderModel { state: State::Ground, ..m },
            match ss3_key(byte) {
                Some(key) => seq![Event::Key(key)],
                None => Seq::empty(),
            },
        ),
        State::Str(kind) => if byte == 0x07 {
            (DecoderModel { state: State::Ground, ..m }, one(string_event(kind, m.params)))
        } else if byte == 0x1b {
            (DecoderModel { state: State::StrEscape(kind), ..m }, Seq::empty())
        } else {
            (DecoderModel { params: collected(m.params, byte), ..m }, Seq::empty())
        },
        State::StrEscape(kind) => if byte as char == '\\' {
            (DecoderModel { state: State::Ground, ..m }, one(string_event(kind, m.params)))
        } else {
            // The ESC was not part of the string's end: it starts a sequence of its own.
            escape_step(DecoderModel { state: State::Escape, utf8: Seq::empty(), ..m }, byte)
        },
    }
}

/// What several bytes do, one after another.
pub open spec fn steps(m: DecoderModel, bytes: Seq<u8>) -> (DecoderModel, Seq<Event>)
    decreases bytes.len(),
{
    if bytes.len() == 0 {
        (m, Seq::empty())
    } else {
        let (next, events) = step(m, bytes[0]);
        let (last, more) = steps(next, bytes.drop_first());
        (last, events + more)
    }
}

/// A decoder that has seen nothing.
pub open spec fn fresh() -> DecoderModel {
    DecoderModel { state: State::Ground, params: Seq::empty(), utf8: Seq::empty() }
}

/// However the bytes are split across reads, the same events come out.
pub proof fn splitting_reads_changes_nothing(m: DecoderModel, a: Seq<u8>, b: Seq<u8>)
    ensures
        steps(m, a + b).0 == steps(steps(m, a).0, b).0,
        steps(m, a + b).1 == steps(m, a).1 + steps(steps(m, a).0, b).1,
    decreases a.len(),
{
    if a.len() == 0 {
        assert(a + b =~= b);
    } else {
        splitting_reads_changes_nothing(step(m, a[0]).0, a.drop_first(), b);
        assert((a + b).drop_first() =~= a.drop_first() + b);
    }
    assert(steps(m, a + b).1 =~= steps(m, a).1 + steps(steps(m, a).0, b).1);
}

// ---------------------------------------------------------------------------------------------
// Decoding.

impl Default for Decoder {
    fn default() -> (decoder: Decoder)
        ensures
            decoder@ == fresh(),
    {
        let utf8: Vec<u8> = Vec::new();
        Decoder { state: State::Ground, params: String::new(), utf8 }
    }
}

impl Decoder {
    pub fn feed(&mut self, bytes: &[u8]) -> (events: Vec<Event>)
        ensures
            final(self)@ == steps(old(self)@, bytes@).0,
            events@ == steps(old(self)@, bytes@).1,
    {
        let mut events: Vec<Event> = Vec::new();
        let ghost start = self@;
        let mut i: usize = 0;
        proof {
            assert(bytes@.skip(0) =~= bytes@);
            assert(events@ + steps(self@, bytes@).1 =~= steps(self@, bytes@).1);
        }
        while i < bytes.len()
            invariant
                i <= bytes@.len(),
                steps(start, bytes@).0 == steps(self@, bytes@.skip(i as int)).0,
                steps(start, bytes@).1 == events@ + steps(self@, bytes@.skip(i as int)).1,
            decreases bytes@.len() - i,
        {
            let ghost rest = bytes@.skip(i as int);
            let ghost was = self@;
            let ghost before = events@;
            self.byte(bytes[i], &mut events);
            proof {
                assert(rest.drop_first() =~= bytes@.skip(i + 1));
                let now = step(was, bytes@[i as int]).1;
                let later = steps(self@, bytes@.skip(i + 1)).1;
                assert(before + (now + later) =~= (before + now) + later);
            }
            i += 1;
        }
        assert(events@ + Seq::<Event>::empty() =~= events@);
        events
    }

    /// Whether a lone ESC is waiting: it is the Escape key unless more bytes follow promptly.
    pub fn pending_escape(&self) -> (r: bool)
        ensures
            r == (self@.state == State::Escape),
    {
        self.state == State::Escape
    }

    /// Resolves a waiting ESC as the Escape key, once no continuation has arrived.
    pub fn flush(&mut self) -> (event: Option<Event>)
        ensures
            old(self)@.state == State::Escape ==> event == Some(Event::Key(Key::Escape))
                && final(self)@ == (DecoderModel { state: State::Ground, ..old(self)@ }),
            old(self)@.state != State::Escape ==> event is None && final(self)@ == old(self)@,
    {
        if self.pending_escape() {
            self.state = State::Ground;
            Some(Event::Key(Key::Escape))
        } else {
            None
        }
    }

    fn byte(&mut self, byte: u8, events: &mut Vec<Event>)
        ensures
            final(self)@ == step(old(self)@, byte).0,
            final(events)@ == old(events)@ + step(old(self)@, byte).1,
    {
        let ghost was = events@;
        match self.state {
            State::Ground => {
                self.ground(byte, events);
            },
            State::Escape => {
                self.escape(byte, events);
            },
            State::Csi => {
                if 0x40 <= byte && byte <= 0x7e {
                    self.state = State::Ground;
                    let params = text::chars(self.params.as_str());
                    push_event(events, csi(&params, byte));
                } else {
                    if byte == 0x1b {
                        self.state = State::Escape;
                    } else {
                        self.push(byte);
                    }
                    assert(events@ =~= was + Seq::empty());
                }
            },
            State::Ss3 => {
                self.state = State::Ground;
                let event = match ss3(byte) {
                    Some(key) => Some(Event::Key(key)),
                    None => None,
                };
                push_event(events, event);
            },
            State::Str(kind) => {
                if byte == 0x07 {
                    self.state = State::Ground;
                    let params = text::chars(self.params.as_str());
                    push_event(events, string(kind, &params));
                } else {
                    if byte == 0x1b {
                        self.state = State::StrEscape(kind);
                    } else {
                        self.push(byte);
                    }
                    assert(events@ =~= was + Seq::empty());
                }
            },
            State::StrEscape(kind) => {
                if byte as char == '\\' {
                    self.state = State::Ground;
                    let params = text::chars(self.params.as_str());
                    push_event(events, string(kind, &params));
                } else {
                    self.state = State::Escape;
                    self.utf8 = Vec::new();
                    self.escape(byte, events);
                }
            },
        }
    }

    fn escape(&mut self, byte: u8, events: &mut Vec<Event>)
        ensures
            final(self)@ == escape_step(old(self)@, byte).0,
            final(events)@ == old(events)@ + escape_step(old(self)@, byte).1,
    {
        let ghost was = events@;
        self.params = String::new();
        let c = byte as char;
        if c == '[' {
            self.state = State::Csi;
        } else if c == 'O' {
            self.state = State::Ss3;
        } else if c == ']' {
            self.state = State::Str(Kind::Osc);
        } else if c == '_' {
            self.state = State::Str(Kind::Apc);
        } else if c == 'P' {
            self.state = State::Str(Kind::Dcs);
        } else if byte == 0x1b {
            self.state = State::Escape;
            events.push(Event::Key(Key::Escape));
            assert(events@ =~= was + seq![Event::Key(Key::Escape)]);
            return ;
        } else {
            // Alt+key: report the key itself.
            self.state = State::Ground;
            self.ground(byte, events);
            return ;
        }
        assert(events@ =~= was + Seq::empty());
    }

    fn ground(&mut self, byte: u8, events: &mut Vec<Event>)
        ensures
            final(self)@ == ground_step(old(self)@, byte).0,
            final(events)@ == old(events)@ + ground_step(old(self)@, byte).1,
    {
        let ghost was = events@;
        if byte >= 0x80 {
            self.utf8.push(byte);
            match utf8::check(self.utf8.as_slice()) {
                utf8::Check::Valid => {
                    let chars = utf8::decode(self.utf8.as_slice());
                    push_typed(events, &chars);
                    self.utf8 = Vec::new();
                },
                utf8::Check::Invalid => {
                    self.utf8 = Vec::new();
                    assert(events@ =~= was + Seq::empty());
                },
                utf8::Check::Short => {
                    if self.utf8.len() >= 4 {
                        self.utf8 = Vec::new();
                    }
                    assert(events@ =~= was + Seq::empty());
                },
            }
            return ;
        }
        self.utf8 = Vec::new();
        if byte == 0x1b {
            self.state = State::Escape;
            assert(events@ =~= was + Seq::empty());
            return ;
        }
        let event = match ascii(byte) {
            Some(key) => Some(Event::Key(key)),
            None => None,
        };
        push_event(events, event);
    }

    fn push(&mut self, byte: u8)
        ensures
            final(self)@ == (DecoderModel {
                params: collected(old(self)@.params, byte),
                ..old(self)@
            }),
    {
        if self.params.as_str().as_bytes().len() < MAX_PARAMS {
            self.params.push(byte as char);
        }
    }
}

fn push_event(events: &mut Vec<Event>, event: Option<Event>)
    ensures
        final(events)@ == old(events)@ + one(event),
{
    let ghost was = events@;
    if let Some(event) = event {
        events.push(event);
    }
    assert(events@ =~= was + one(event));
}

fn char_event(c: char) -> (event: Event)
    ensures
        event == typed_char(c),
{
    Event::Key(Key::Char(c))
}

fn push_typed(events: &mut Vec<Event>, chars: &Vec<char>)
    ensures
        final(events)@ == old(events)@ + typed(chars@),
{
    let ghost was = events@;
    let mut i: usize = 0;
    assert(events@ =~= was + typed(chars@.take(0)));
    while i < chars.len()
        invariant
            i <= chars@.len(),
            events@ == was + typed(chars@.take(i as int)),
        decreases chars@.len() - i,
    {
        let event = char_event(chars[i]);
        events.push(event);
        assert(event == typed_char(chars@[i as int]));
        assert(chars@.take(i + 1)[i as int] == chars@[i as int]);
        assert(typed(chars@.take(i + 1)) =~= typed(chars@.take(i as int)).push(event));
        assert(events@ =~= was + typed(chars@.take(i + 1)));
        i += 1;
    }
    assert(chars@.take(chars@.len() as int) =~= chars@);
}

fn ascii(byte: u8) -> (key: Option<Key>)
    ensures
        key == ascii_key(byte),
{
    let c = byte as char;
    if c == '\r' || c == '\n' {
        Some(Key::Enter)
    } else if c == '\t' {
        Some(Key::Tab)
    } else if byte == 0x7f || byte == 0x08 {
        Some(Key::Backspace)
    } else if 0x01 <= byte && byte <= 0x1a {
        Some(Key::Ctrl((96 + byte) as char))
    } else if 0x20 <= byte && byte <= 0x7e {
        Some(Key::Char(c))
    } else {
        None
    }
}

fn ss3(byte: u8) -> (key: Option<Key>)
    ensures
        key == ss3_key(byte),
{
    let c = byte as char;
    if c == 'A' {
        Some(Key::Up)
    } else if c == 'B' {
        Some(Key::Down)
    } else if c == 'C' {
        Some(Key::Right)
    } else if c == 'D' {
        Some(Key::Left)
    } else if c == 'H' {
        Some(Key::Home)
    } else if c == 'F' {
        Some(Key::End)
    } else {
        None
    }
}

fn parse(s: &[char]) -> (r: Option<u32>)
    ensures
        r == number(s@),
{
    match text::parse_number(s, 10, u32::MAX as u64) {
        Some(n) => Some(n as u32),
        None => None,
    }
}

/// The numbers between semicolons.
fn parse_numbers(params: &[char]) -> (values: Vec<Option<u32>>)
    ensures
        values@ == numbers(params@),
        values@.len() > 0,
{
    let mut values: Vec<Option<u32>> = Vec::new();
    let mut rest = params;
    assert(values@ + numbers(params@) =~= numbers(params@));
    loop
        invariant
            numbers(params@) == values@ + numbers(rest@),
        decreases rest@.len(),
    {
        let end: usize = text::position(rest, ';');
        let part = slice_subrange(rest, 0, end);
        let ghost before = values@;
        values.push(parse(part));
        assert(part@ =~= rest@.take(end as int));
        if end == rest.len() {
            assert(rest@.take(end as int) =~= rest@);
            assert(numbers(rest@) =~= seq![number(rest@)]);
            assert(values@ =~= before + numbers(rest@));
            return values;
        }
        let next = slice_subrange(rest, end + 1, rest.len());
        proof {
            assert(next@ =~= rest@.skip(end + 1));
            assert(numbers(rest@) =~= seq![number(part@)] + numbers(next@));
            assert(before + (seq![number(part@)] + numbers(next@)) =~= values@ + numbers(next@));
        }
        rest = next;
    }
}

fn csi(params: &[char], final_byte: u8) -> (event: Option<Event>)
    ensures
        event == csi_event(params@, final_byte),
{
    let c = final_byte as char;
    let key = if c == 'A' {
        Key::Up
    } else if c == 'B' {
        Key::Down
    } else if c == 'C' {
        Key::Right
    } else if c == 'D' {
        Key::Left
    } else if c == 'H' {
        Key::Home
    } else if c == 'F' {
        Key::End
    } else if c == '~' {
        return tilde(params);
    } else if (c == 'M' || c == 'm') && params.len() > 0 && params[0] == '<' {
        let rest = slice_subrange(params, 1, params.len());
        assert(rest@ =~= params@.skip(1));
        return mouse(rest, final_byte);
    } else if c == 'c' && params.len() > 0 && params[0] == '?' {
        return Some(Event::DeviceAttributes);
    } else if c == 'n' && text::is_text(params, "?997;1") {
        return Some(Event::ColorScheme { dark: true });
    } else if c == 'n' && text::is_text(params, "?997;2") {
        return Some(Event::ColorScheme { dark: false });
    } else if c == 't' {
        return sizes(params);
    } else {
        return None;
    };
    Some(Event::Key(key))
}

fn tilde(params: &[char]) -> (event: Option<Event>)
    ensures
        event == tilde_key(params@),
{
    let values = parse_numbers(params);
    let key = match values[0] {
        Some(1) | Some(7) => Key::Home,
        Some(4) | Some(8) => Key::End,
        Some(5) => Key::PageUp,
        Some(6) => Key::PageDown,
        _ => return None,
    };
    Some(Event::Key(key))
}

fn sizes(params: &[char]) -> (event: Option<Event>)
    ensures
        event == size_report(params@),
{
    let values = parse_numbers(params);
    if values.len() == 5 {
        match (values[0], values[1], values[2], values[3], values[4]) {
            (Some(48), Some(rows), Some(cols), Some(height), Some(width)) => {
                if cols > u16::MAX as u32 || rows > u16::MAX as u32 {
                    None
                } else {
                    Some(Event::Resize { cols: cols as u16, rows: rows as u16, width, height })
                }
            },
            _ => None,
        }
    } else if values.len() == 3 {
        match (values[0], values[1], values[2]) {
            (Some(code), Some(height), Some(width)) => {
                if width == 0 || height == 0 {
                    None
                } else if code == 6 {
                    Some(Event::CellSize { width, height })
                } else if code == 4 {
                    Some(Event::TextArea { width, height })
                } else {
                    None
                }
            },
            _ => None,
        }
    } else {
        None
    }
}

fn mouse(params: &[char], final_byte: u8) -> (event: Option<Event>)
    ensures
        event == mouse_event(params@, final_byte),
{
    let values = parse_numbers(params);
    if values.len() < 3 {
        return None;
    }
    let (code, x, y): (u32, u32, u32) = match (values[0], values[1], values[2]) {
        (Some(code), Some(x), Some(y)) => (code, x, y),
        _ => return None,
    };
    let kind = if code & 64 != 0 {
        if code & 1 == 0 {
            MouseKind::ScrollUp
        } else {
            MouseKind::ScrollDown
        }
    } else if code & 32 != 0 {
        if code & 3 == 3 {
            MouseKind::Move
        } else {
            MouseKind::Drag
        }
    } else if final_byte as char == 'm' {
        MouseKind::Release
    } else {
        MouseKind::Press((code & 3) as u8)
    };
    Some(
        Event::Mouse(
            Mouse {
                kind,
                x: if x == 0 {
                    0
                } else {
                    x - 1
                },
                y: if y == 0 {
                    0
                } else {
                    y - 1
                },
                shift: code & 4 != 0,
                ctrl: code & 16 != 0,
            },
        ),
    )
}

fn osc(body: &[char]) -> (event: Option<Event>)
    ensures
        event == osc_event(body@),
{
    let at: usize = text::position(body, ';');
    if at == body.len() {
        return None;
    }
    let code = slice_subrange(body, 0, at);
    let rest = slice_subrange(body, at + 1, body.len());
    assert(code@ =~= body@.take(at as int));
    assert(rest@ =~= body@.skip(at + 1));
    let second: usize = text::position(rest, ';');
    if second < rest.len() {
        let index = slice_subrange(rest, 0, second);
        let spec = slice_subrange(rest, second + 1, rest.len());
        assert(index@ =~= rest@.take(second as int));
        assert(spec@ =~= rest@.skip(second + 1));
        if !text::is_text(code, "4") {
            return None;
        }
        match (
            text::parse_number(index, 10, u16::MAX as u64),
            Rgb::parse_x11(text::string(spec).as_str()),
        ) {
            (Some(index), Some(rgb)) => Some(Event::Color { index: index as u16, rgb }),
            _ => None,
        }
    } else {
        let index: u16 = if text::is_text(code, "10") {
            10
        } else if text::is_text(code, "11") {
            11
        } else {
            return None;
        };
        match Rgb::parse_x11(text::string(rest).as_str()) {
            Some(rgb) => Some(Event::Color { index, rgb }),
            None => None,
        }
    }
}

/// What follows `i=` in the first key that starts with it.
fn image_id(keys: &[char]) -> (r: Option<&[char]>)
    ensures
        r is Some <==> image_key(text::split(keys@, ',')) is Some,
        r is Some ==> r.unwrap()@ == image_key(text::split(keys@, ',')).unwrap(),
{
    let mut rest = keys;
    loop
        invariant
            image_key(text::split(keys@, ',')) == image_key(text::split(rest@, ',')),
        decreases rest@.len(),
    {
        let end: usize = text::position(rest, ',');
        let key = slice_subrange(rest, 0, end);
        let ghost parts = text::split(rest@, ',');
        proof {
            assert(key@ =~= rest@.take(end as int));
            assert(rest@.take(rest@.len() as int) =~= rest@);
            assert(parts[0] == key@);
        }
        if text::starts_with(key, "i=") {
            proof {
                reveal_strlit("i=");
            }
            let id = slice_subrange(key, 2, key.len());
            assert(id@ =~= key@.skip(2));
            return Some(id);
        }
        if end == rest.len() {
            assert(parts.drop_first().len() == 0);
            assert(image_key(parts.drop_first()) is None);
            return None;
        }
        let next = slice_subrange(rest, end + 1, rest.len());
        proof {
            assert(next@ =~= rest@.skip(end + 1));
            assert(parts.drop_first() =~= text::split(next@, ','));
        }
        rest = next;
    }
}

/// A kitty graphics reply such as `Gi=31;OK`.
fn apc(body: &[char]) -> (event: Option<Event>)
    ensures
        event == apc_event(body@),
{
    if body.len() == 0 || body[0] != 'G' {
        return None;
    }
    let inner = slice_subrange(body, 1, body.len());
    assert(inner@ =~= body@.skip(1));
    let at: usize = text::position(inner, ';');
    if at == inner.len() {
        return None;
    }
    let keys = slice_subrange(inner, 0, at);
    let message = slice_subrange(inner, at + 1, inner.len());
    assert(keys@ =~= inner@.take(at as int));
    assert(message@ =~= inner@.skip(at + 1));
    match image_id(keys) {
        Some(id) => match parse(id) {
            Some(id) => Some(Event::Graphics { id, ok: text::is_text(message, "OK") }),
            None => None,
        },
        None => None,
    }
}

/// What an OSC or APC string reports, if it is something mer reads.
fn string(kind: Kind, body: &[char]) -> (event: Option<Event>)
    ensures
        event == string_event(kind, body@),
{
    match kind {
        Kind::Osc => osc(body),
        Kind::Apc => apc(body),
        Kind::Dcs => None,
    }
}

} // verus!
