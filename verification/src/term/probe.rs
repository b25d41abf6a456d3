//! One-round-trip terminal capability probe.
//!
//! Every query is written at once, followed by a DA1 request. Terminals answer in order and
//! all of them answer DA1, so its reply marks the end: supported features have replied by then
//! and no individual query has to time out.

use vstd::prelude::*;

use super::input;
use super::input::{Decoder, Event};
use crate::text;
use crate::theme;
use crate::theme::{Palette, PaletteModel};

verus! {

#[derive(Clone, Copy, Debug, PartialEq, Eq)]
pub struct Caps {
    pub cols: u16,
    pub rows: u16,
    /// Cell size in device pixels, as (width, height).
    pub cell: Option<(u32, u32)>,
    /// Text area size in device pixels, as (width, height).
    pub text_area: Option<(u32, u32)>,
    pub kitty_graphics: bool,
    pub palette: Palette,
    /// The terminal's light/dark preference, when it reports one.
    pub dark: Option<bool>,
    /// Whether the terminal answered DA1 before the timeout.
    pub responded: bool,
}

/// What [`Caps`] hold.
pub struct CapsModel {
    pub cols: u16,
    pub rows: u16,
    pub cell: Option<(u32, u32)>,
    pub text_area: Option<(u32, u32)>,
    pub kitty_graphics: bool,
    pub palette: PaletteModel,
    pub dark: Option<bool>,
    pub responded: bool,
}

impl View for Caps {
    type V = CapsModel;

    open spec fn view(&self) -> CapsModel {
        CapsModel {
            cols: self.cols,
            rows: self.rows,
            cell: self.cell,
            text_area: self.text_area,
            kitty_graphics: self.kitty_graphics,
            palette: self.palette@,
            dark: self.dark,
            responded: self.responded,
        }
    }
}

/// What is known of a terminal of so many cells before it replies.
pub open spec fn unknown(cols: u16, rows: u16) -> CapsModel {
    CapsModel {
        cols,
        rows,
        cell: None,
        text_area: None,
        kitty_graphics: false,
        palette: theme::no_colors(),
        dark: None,
        responded: false,
    }
}

impl Default for Caps {
    fn default() -> (caps: Caps)
        ensures
            caps@ == unknown(0, 0),
    {
        Caps {
            cols: 0,
            rows: 0,
            cell: None,
            text_area: None,
            kitty_graphics: false,
            palette: Palette::default(),
            dark: None,
            responded: false,
        }
    }
}

pub const KITTY_QUERY_ID: u32 = 31;

/// How long to wait for graphics replies after tmux has answered DA1 itself, in milliseconds:
/// tmux replies at once, while passthrough replies travel from the terminal behind it.
pub const TMUX_GRACE: u64 = 250;

/// The query for graphics support.
pub open spec fn graphics_query() -> Seq<char> {
    "\x1b_Gi="@ + text::decimal(KITTY_QUERY_ID as nat) + ",s=1,v=1,a=q,t=d,f=24;AAAA\x1b\\"@
}

/// The queries for the first `n` ANSI colors.
pub open spec fn ansi_queries(n: int) -> Seq<char>
    decreases n,
{
    if n <= 0 {
        Seq::empty()
    } else {
        ansi_queries(n - 1) + "\x1b]4;"@ + text::decimal(n as nat) + ";?\x1b\\"@
    }
}

/// The queries for colors.
pub open spec fn color_query_text() -> Seq<char> {
    "\x1b]10;?\x1b\\\x1b]11;?\x1b\\"@ + ansi_queries(6)
}

/// All queries.
pub open spec fn query_bytes(tmux: bool) -> Seq<u8> {
    super::prepared(vstd::utf8::encode_utf8(graphics_query()), tmux) + vstd::utf8::encode_utf8(
        "\x1b[16t\x1b[14t"@,
    ) + vstd::utf8::encode_utf8(color_query_text()) + vstd::utf8::encode_utf8("\x1b[?996n\x1b[c"@)
}

/// Whether a text is ASCII without `c`.
spec fn avoids(s: Seq<char>, c: char) -> bool {
    vstd::utf8::is_ascii_chars(s) && !s.contains(c)
}

proof fn lemma_avoids_both(a: Seq<char>, b: Seq<char>, c: char)
    requires
        avoids(a, c),
        avoids(b, c),
    ensures
        avoids(a + b, c),
{
    let s = a + b;
    assert forall|i: int| 0 <= i < s.len() implies '\0' <= #[trigger] s[i] <= '\u{7f}' && s[i]
        != c by {
        if i < a.len() {
            assert(s[i] == a[i] && a.contains(a[i]));
        } else {
            assert(s[i] == b[i - a.len()] && b.contains(b[i - a.len()]));
        }
    }
}

proof fn lemma_avoids_number(n: nat, c: char)
    requires
        c > '9',
    ensures
        avoids(text::decimal(n), c),
    decreases n,
{
    let s = text::decimal(n);
    if n >= 10 {
        lemma_avoids_number(n / 10, c);
        let most = text::decimal(n / 10);
        assert forall|i: int| 0 <= i < s.len() implies '\0' <= #[trigger] s[i] <= '\u{7f}' && s[i]
            != c by {
            if i < most.len() {
                assert(s[i] == most[i] && most.contains(most[i]));
            }
        }
    }
}

proof fn lemma_avoided_bytes(s: Seq<char>, c: char)
    requires
        avoids(s, c),
        c <= '\u{7f}',
    ensures
        !vstd::utf8::encode_utf8(s).contains(c as u8),
{
    vstd::utf8::is_ascii_chars_encode_utf8(s);
    let bytes = vstd::utf8::encode_utf8(s);
    if bytes.contains(c as u8) {
        let i = choose|i: int| 0 <= i < bytes.len() && bytes[i] == c as u8;
        assert(s[i] as u8 == bytes[i]);
        assert(s.contains(s[i]));
    }
}

proof fn lemma_color_queries(n: int, c: char)
    requires
        c == '_' || c == 'c',
    ensures
        avoids(ansi_queries(n), c),
    decreases n,
{
    if n > 0 {
        reveal_strlit("\x1b]4;");
        reveal_strlit(";?\x1b\\");
        lemma_color_queries(n - 1, c);
        lemma_avoids_both(ansi_queries(n - 1), "\x1b]4;"@, c);
        lemma_avoids_number(n as nat, c);
        lemma_avoids_both(ansi_queries(n - 1) + "\x1b]4;"@, text::decimal(n as nat), c);
        lemma_avoids_both(
            ansi_queries(n - 1) + "\x1b]4;"@ + text::decimal(n as nat),
            ";?\x1b\\"@,
            c,
        );
    }
}

/// The query for the size of cells, and those behind it, up to the one for device attributes.
spec fn middle() -> Seq<u8> {
    vstd::utf8::encode_utf8("\x1b[16t\x1b[14t"@) + vstd::utf8::encode_utf8(color_query_text())
        + vstd::utf8::encode_utf8("\x1b[?996n"@)
}

proof fn lemma_without(a: Seq<u8>, b: Seq<u8>, byte: u8)
    requires
        !a.contains(byte),
        !b.contains(byte),
    ensures
        !(a + b).contains(byte),
{
    if (a + b).contains(byte) {
        let i = choose|i: int| 0 <= i < (a + b).len() && (a + b)[i] == byte;
        if i < a.len() {
            assert(a.contains(a[i]));
        } else {
            assert(b.contains(b[i - a.len()]));
        }
    }
}

proof fn lemma_middle(c: char)
    requires
        c == '_' || c == 'c',
    ensures
        !middle().contains(c as u8),
{
    reveal_strlit("\x1b[16t\x1b[14t");
    reveal_strlit("\x1b]10;?\x1b\\\x1b]11;?\x1b\\");
    reveal_strlit("\x1b[?996n");
    lemma_avoided_bytes("\x1b[16t\x1b[14t"@, c);
    lemma_color_queries(6, c);
    lemma_avoids_both("\x1b]10;?\x1b\\\x1b]11;?\x1b\\"@, ansi_queries(6), c);
    lemma_avoided_bytes(color_query_text(), c);
    lemma_avoided_bytes("\x1b[?996n"@, c);
    let a = vstd::utf8::encode_utf8("\x1b[16t\x1b[14t"@);
    let b = vstd::utf8::encode_utf8(color_query_text());
    lemma_without(a, b, c as u8);
    lemma_without(a + b, vstd::utf8::encode_utf8("\x1b[?996n"@), c as u8);
}

/// The query for device attributes.
pub open spec fn device_query() -> Seq<u8> {
    seq![0x1b, 0x5b, 0x63]
}

proof fn lemma_device_query()
    ensures
        vstd::utf8::encode_utf8("\x1b[?996n\x1b[c"@) == vstd::utf8::encode_utf8("\x1b[?996n"@)
            + device_query(),
{
    reveal_strlit("\x1b[?996n\x1b[c");
    reveal_strlit("\x1b[?996n");
    let all = "\x1b[?996n\x1b[c"@;
    let first = "\x1b[?996n"@;
    vstd::utf8::is_ascii_chars_encode_utf8(all);
    vstd::utf8::is_ascii_chars_encode_utf8(first);
    assert forall|i: int| 0 <= i < first.len() implies all[i] == first[i] by {}
    assert(vstd::utf8::encode_utf8(all) =~= vstd::utf8::encode_utf8(first) + device_query());
}

proof fn lemma_graphics_query()
    ensures
        ({
            let g = vstd::utf8::encode_utf8(graphics_query());
            &&& g.len() >= 7
            &&& g.take(7) == seq![0x1bu8, 0x5f, 0x47, 0x69, 0x3d, 0x33, 0x31]
            &&& g.skip(g.len() - 2) == super::string_end()
            &&& forall|i: int| 1 <= i < g.len() - 2 ==> #[trigger] g[i] != 0x1b
            &&& !g.contains(0x63)
        }),
{
    reveal_strlit("\x1b_Gi=");
    reveal_strlit(",s=1,v=1,a=q,t=d,f=24;AAAA\x1b\\");
    reveal_with_fuel(text::decimal, 3);
    let end = ",s=1,v=1,a=q,t=d,f=24;AAAA\x1b\\"@;
    let q = graphics_query();
    assert(text::decimal(31) =~= seq!['3', '1']);
    lemma_avoids_both("\x1b_Gi="@, text::decimal(31), 'c');
    lemma_avoids_both("\x1b_Gi="@ + text::decimal(31), end, 'c');
    lemma_avoided_bytes(q, 'c');
    vstd::utf8::is_ascii_chars_encode_utf8(q);
    let g = vstd::utf8::encode_utf8(q);
    assert(q[0] == '\x1b' && q[1] == '_' && q[2] == 'G' && q[3] == 'i' && q[4] == '=' && q[5]
        == '3' && q[6] == '1');
    assert(g.take(7) =~= seq![0x1bu8, 0x5f, 0x47, 0x69, 0x3d, 0x33, 0x31]);
    let n = q.len() as int;
    assert(q[n - 2] == end[end.len() - 2] && q[n - 1] == end[end.len() - 1]);
    assert(g.skip(n - 2) =~= super::string_end());
    assert forall|i: int| 1 <= i < n - 2 implies #[trigger] g[i] != 0x1b by {
        assert(q[i] as u8 == g[i]);
        if i >= 7 {
            assert(q[i] == end[i - 7]);
        }
    }
}

/// The queries inside tmux are the plain ones, wrapped. The one for graphics comes first, those
/// for colors are among them, and the one for device attributes comes last and only there, so
/// its reply comes after all others.
pub proof fn queries_end_with_the_device_query(tmux: bool)
    ensures
        query_bytes(true) == super::wrapped(query_bytes(false)),
        query_bytes(false).take(7) == seq![0x1bu8, 0x5f, 0x47, 0x69, 0x3d, 0x33, 0x31],
        super::occurs(query_bytes(tmux), vstd::utf8::encode_utf8(color_query_text())),
        forall|i: int| #[trigger]
            super::stands_at(query_bytes(tmux), device_query(), i) <==> i
                == query_bytes(tmux).len() - 3,
{
    let g = vstd::utf8::encode_utf8(graphics_query());
    let last = middle() + device_query();
    lemma_graphics_query();
    lemma_device_query();
    lemma_middle('_');
    lemma_middle('c');
    assert(query_bytes(false) =~= g + last);
    assert(query_bytes(false).take(7) =~= g.take(7));
    assert(g.take(3) =~= g.take(7).take(3));
    assert(g.take(3) =~= super::graphics_start());
    assert(!device_query().contains(0x5f));
    lemma_without(middle(), device_query(), 0x5f);
    super::lemma_one_sequence(g, last);
    assert(!Seq::<u8>::empty().contains(0x5f));
    super::lemma_one_sequence(g, Seq::empty());
    assert(g + Seq::<u8>::empty() =~= g);
    let wrapped = super::tmux_start() + super::doubled(g) + super::string_end();
    assert(super::wrapped(g) =~= wrapped);
    assert(query_bytes(true) =~= wrapped + last);
    super::lemma_doubled_without(g, 0x63);
    assert(!super::tmux_start().contains(0x63));
    assert(!super::string_end().contains(0x63));
    lemma_without(super::tmux_start(), super::doubled(g), 0x63);
    lemma_without(super::tmux_start() + super::doubled(g), super::string_end(), 0x63);
    let before = if tmux {
        wrapped
    } else {
        g
    };
    assert(query_bytes(tmux) =~= before + middle() + device_query());
    lemma_without(before, middle(), 0x63);
    lemma_last(before + middle());
    let colors = vstd::utf8::encode_utf8(color_query_text());
    let at = before.len() + vstd::utf8::encode_utf8("\x1b[16t\x1b[14t"@).len() as int;
    assert(query_bytes(tmux).subrange(at, at + colors.len()) =~= colors);
    assert(super::stands_at(query_bytes(tmux), colors, at));
}

/// A device query behind bytes without its last one stands only there.
proof fn lemma_last(before: Seq<u8>)
    requires
        !before.contains(0x63),
    ensures
        forall|i: int| #[trigger]
            super::stands_at(before + device_query(), device_query(), i) <==> i == before.len(),
{
    let all = before + device_query();
    let n = before.len() as int;
    assert(all.subrange(n, n + 3) =~= device_query());
    assert forall|i: int| super::stands_at(all, device_query(), i) implies i == n by {
        assert(all.subrange(i, i + 3)[2] == all[i + 2]);
        if i < n {
            if i + 2 < n {
                assert(before.contains(before[i + 2]));
            }
        }
    }
}

pub fn queries(tmux: bool) -> (q: Vec<u8>)
    ensures
        q@ == query_bytes(tmux),
{
    let mut kitty = "\x1b_Gi=".to_string();
    text::push_decimal(&mut kitty, KITTY_QUERY_ID as u128);
    kitty.append(",s=1,v=1,a=q,t=d,f=24;AAAA\x1b\\");
    let mut q = super::for_terminal(kitty.as_str().as_bytes(), tmux);
    text::push_text(&mut q, "\x1b[16t\x1b[14t");
    text::push_text(&mut q, color_queries().as_str());
    text::push_text(&mut q, "\x1b[?996n\x1b[c");
    q
}

/// Queries for the colors the `terminal` theme is derived from.
pub fn color_queries() -> (q: String)
    ensures
        q@ == color_query_text(),
{
    let mut q = "\x1b]10;?\x1b\\\x1b]11;?\x1b\\".to_string();
    let ghost start = q@;
    let mut index: u64 = 0;
    assert(q@ =~= start + ansi_queries(0));
    while index < 6
        invariant
            index <= 6,
            q@ == start + ansi_queries(index as int),
        decreases 6 - index,
    {
        index += 1;
        q.append("\x1b]4;");
        text::push_decimal(&mut q, index as u128);
        q.append(";?\x1b\\");
        assert(q@ =~= start + ansi_queries(index as int));
    }
    q
}

/// The cell size that a text area of so many pixels and cells gives.
pub open spec fn cell_of(pixels: Option<(u32, u32)>, cols: u16, rows: u16) -> Option<(u32, u32)> {
    match pixels {
        Some((w, h)) => if cols == 0 || rows == 0 || w / (cols as u32) == 0 || h / (rows as u32)
            == 0 {
            None
        } else {
            Some((w / (cols as u32), h / (rows as u32)))
        },
        None => None,
    }
}

pub fn cell_size(pixels: Option<(u32, u32)>, cols: u16, rows: u16) -> (cell: Option<(u32, u32)>)
    ensures
        cell == cell_of(pixels, cols, rows),
{
    match pixels {
        Some((w, h)) => {
            if cols == 0 || rows == 0 {
                return None;
            }
            let cell: (u32, u32) = (w / cols as u32, h / rows as u32);
            if cell.0 > 0 && cell.1 > 0 {
                Some(cell)
            } else {
                None
            }
        },
        None => None,
    }
}

/// What is known after a reply.
pub open spec fn applied(caps: CapsModel, event: Event) -> CapsModel {
    match event {
        Event::DeviceAttributes => CapsModel { responded: true, ..caps },
        Event::Graphics { id, ok } => if id == KITTY_QUERY_ID {
            CapsModel { kitty_graphics: ok, ..caps }
        } else {
            caps
        },
        Event::CellSize { width, height } => CapsModel { cell: Some((width, height)), ..caps },
        Event::TextArea { width, height } => CapsModel { text_area: Some((width, height)), ..caps },
        Event::Color { index, rgb } => CapsModel {
            palette: theme::recorded(caps.palette, index, rgb),
            ..caps
        },
        Event::ColorScheme { dark } => CapsModel { dark: Some(dark), ..caps },
        _ => caps,
    }
}

/// Records one reply. Returns true for the DA1 reply that ends the probe.
pub fn apply(caps: &mut Caps, event: Event) -> (done: bool)
    ensures
        final(caps)@ == applied(old(caps)@, event),
        done == (event == Event::DeviceAttributes),
{
    match event {
        Event::DeviceAttributes => {
            caps.responded = true;
            return true;
        },
        Event::Graphics { id, ok } => {
            if id == KITTY_QUERY_ID {
                caps.kitty_graphics = ok;
            }
        },
        Event::CellSize { width, height } => {
            caps.cell = Some((width, height));
        },
        Event::TextArea { width, height } => {
            caps.text_area = Some((width, height));
        },
        Event::Color { index, rgb } => {
            caps.palette.set(index, rgb);
        },
        Event::ColorScheme { dark } => {
            caps.dark = Some(dark);
        },
        _ => {},
    }
    false
}

// ---------------------------------------------------------------------------------------------
// Waiting for replies.

/// A probe that waits for replies. Times are in milliseconds on a clock of the caller's.
pub struct Probe {
    decoder: Decoder,
    caps: Caps,
    tmux: bool,
    deadline: u64,
    done: bool,
}

/// What a [`Probe`] knows and waits for.
pub struct ProbeModel {
    pub decoder: input::DecoderModel,
    pub caps: CapsModel,
    pub tmux: bool,
    pub deadline: u64,
    pub done: bool,
}

impl View for Probe {
    type V = ProbeModel;

    closed spec fn view(&self) -> ProbeModel {
        ProbeModel {
            decoder: self.decoder@,
            caps: self.caps@,
            tmux: self.tmux,
            deadline: self.deadline,
            done: self.done,
        }
    }
}

/// `ms` milliseconds after `now`.
pub open spec fn later(now: u64, ms: u64) -> u64 {
    if now + ms > u64::MAX {
        u64::MAX
    } else {
        (now + ms) as u64
    }
}

/// What one reply does. Once the terminal has answered DA1 the probe is over, but inside tmux,
/// which answers by itself, graphics replies are waited for a little longer.
pub open spec fn replied(p: ProbeModel, event: Event, now: u64) -> ProbeModel {
    let caps = applied(p.caps, event);
    if event == Event::DeviceAttributes && !p.tmux {
        ProbeModel { caps, done: true, ..p }
    } else if !caps.responded {
        ProbeModel { caps, ..p }
    } else if caps.kitty_graphics {
        ProbeModel { caps, done: true, ..p }
    } else if later(now, TMUX_GRACE) < p.deadline {
        ProbeModel { caps, deadline: later(now, TMUX_GRACE), ..p }
    } else {
        ProbeModel { caps, ..p }
    }
}

/// What several replies do; those after the end of the probe do nothing.
pub open spec fn replies(p: ProbeModel, events: Seq<Event>, now: u64) -> ProbeModel
    decreases events.len(),
{
    if events.len() == 0 || p.done {
        p
    } else {
        replies(replied(p, events[0], now), events.drop_first(), now)
    }
}

/// What reading some bytes does; reading none is the end of the input.
pub open spec fn absorbed(p: ProbeModel, bytes: Seq<u8>, now: u64) -> ProbeModel {
    if bytes.len() == 0 {
        ProbeModel { done: true, ..p }
    } else {
        let (decoder, events) = input::steps(p.decoder, bytes);
        ProbeModel { decoder, ..replies(p, events, now) }
    }
}

/// What is known at the end of a probe. A cell size that was not reported comes from the pixel
/// size of the window or the text area.
pub open spec fn concluded(caps: CapsModel, window: (u16, u16)) -> CapsModel {
    match caps.cell {
        Some(_) => caps,
        None => CapsModel {
            cell: cell_of(
                if window.0 == 0 || window.1 == 0 {
                    caps.text_area
                } else {
                    Some((window.0 as u32, window.1 as u32))
                },
                caps.cols,
                caps.rows,
            ),
            ..caps
        },
    }
}

impl Probe {
    /// Starts to wait for replies, `timeout` at most.
    pub fn new(cols: u16, rows: u16, tmux: bool, now: u64, timeout: u64) -> (probe: Probe)
        ensures
            probe@ == (ProbeModel {
                decoder: input::fresh(),
                caps: unknown(cols, rows),
                tmux,
                deadline: later(now, timeout),
                done: false,
            }),
    {
        let mut caps = Caps::default();
        caps.cols = cols;
        caps.rows = rows;
        Probe {
            decoder: Decoder::default(),
            caps,
            tmux,
            deadline: add_time(now, timeout),
            done: false,
        }
    }

    /// How long to wait for more replies, or `None` when the probe is over.
    pub fn left(&self, now: u64) -> (left: Option<u64>)
        ensures
            left == if self@.done || now > self@.deadline {
                None
            } else {
                Some((self@.deadline - now) as u64)
            },
    {
        if self.done || now > self.deadline {
            None
        } else {
            Some(self.deadline - now)
        }
    }

    /// Takes in what was read at `now`.
    pub fn absorb(&mut self, bytes: &[u8], now: u64)
        requires
            !old(self)@.done,
        ensures
            final(self)@ == absorbed(old(self)@, bytes@, now),
    {
        if bytes.len() == 0 {
            self.done = true;
            return ;
        }
        let events = self.decoder.feed(bytes);
        let ghost start = ProbeModel { decoder: self@.decoder, ..old(self)@ };
        let mut i: usize = 0;
        proof {
            assert(events@.skip(0) =~= events@);
            lemma_replies_decoder(old(self)@, self@.decoder, events@, now);
        }
        while i < events.len() && !self.done
            invariant
                i <= events@.len(),
                replies(start, events@, now) == replies(self@, events@.skip(i as int), now),
            decreases events@.len() - i,
        {
            proof {
                assert(events@.skip(i as int).drop_first() =~= events@.skip(i + 1));
            }
            self.reply(events[i], now);
            i += 1;
        }
        proof {
            assert(replies(self@, events@.skip(i as int), now) == self@);
        }
    }

    fn reply(&mut self, event: Event, now: u64)
        ensures
            final(self)@ == replied(old(self)@, event, now),
    {
        let ends = apply(&mut self.caps, event);
        if ends && !self.tmux {
            self.done = true;
        } else if self.caps.responded {
            if self.caps.kitty_graphics {
                self.done = true;
            } else {
                let grace: u64 = add_time(now, TMUX_GRACE);
                if grace < self.deadline {
                    self.deadline = grace;
                }
            }
        }
    }

    /// What the terminal can do, given the pixel size of its window.
    pub fn finish(self, window: (u16, u16)) -> (caps: Caps)
        ensures
            caps@ == concluded(self@.caps, window),
    {
        let mut caps = self.caps;
        if caps.cell.is_none() {
            let pixels = if window.0 == 0 || window.1 == 0 {
                caps.text_area
            } else {
                Some((window.0 as u32, window.1 as u32))
            };
            caps.cell = cell_size(pixels, caps.cols, caps.rows);
        }
        caps
    }
}

/// Replies do nothing to the decoder.
proof fn lemma_replies_decoder(
    p: ProbeModel,
    decoder: input::DecoderModel,
    events: Seq<Event>,
    now: u64,
)
    ensures
        replies(ProbeModel { decoder, ..p }, events, now) == (ProbeModel {
            decoder,
            ..replies(p, events, now)
        }),
    decreases events.len(),
{
    if events.len() > 0 && !p.done {
        lemma_replies_decoder(replied(p, events[0], now), decoder, events.drop_first(), now);
    }
}

/// `ms` milliseconds after `now`.
pub fn add_time(now: u64, ms: u64) -> (r: u64)
    ensures
        r == later(now, ms),
{
    if ms > u64::MAX - now {
        u64::MAX
    } else {
        now + ms
    }
}

} // verus!
