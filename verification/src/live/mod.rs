//! Live modes: output that keeps updating while the input changes.
//!
//! What happens is decided here, one message at a time; reading, rendering and writing are left
//! to the caller, and so is the clock, whose times are in milliseconds.

pub mod flow;
pub mod modes;
pub mod screen;
pub mod pieces;
pub mod stream;
pub mod viewer;
pub mod watch;

use vstd::prelude::*;
use vstd::slice::slice_subrange;

use crate::display::{Setup, SetupModel};
use crate::display;
use crate::engine::Failure;
use crate::json::{Model, Value};
use crate::render;
use crate::render::Frame;
use crate::settings;
use crate::size::{Fit, Grid};
use crate::term;
use crate::term::input::{Event, Key};
use crate::term::kitty;
use crate::term::probe;
use crate::term::probe::CapsModel;
use crate::text;
use crate::theme;
use crate::theme::{Palette, PaletteModel};

verus! {

/// After a light/dark switch, color replies are collected this long before re-rendering.
pub const RECOLOR_DELAY: u64 = 150;

/// A signal that live modes handle.
#[derive(Clone, Copy, Debug, PartialEq, Eq)]
pub enum Signal {
    /// The window changed: its columns, rows, width and height, where they are known.
    Window(Option<(u16, u16, u16, u16)>),
    /// The process is asked to end.
    Stop,
}

/// What arrives at a live mode.
pub enum Msg {
    Input(Event),
    Signal(Signal),
    Stdin(Vec<u8>),
    StdinEnd,
    Changed,
    Rendered(Result<Frame, Failure>),
    Viewed(Box<viewer::Viewed>),
}

/// What a live mode asks its caller to do.
#[derive(Debug)]
pub enum Action {
    /// Write to standard output.
    Write(Vec<u8>),
    /// Print on standard error.
    Report(String),
    /// Ask the terminal for its colors.
    AskColors,
    /// Read the input files again.
    Read,
    /// Move the camera.
    Move(viewer::Motion),
}

/// What an [`Action`] asks for.
pub enum ActionModel {
    Write(Seq<u8>),
    Report(Seq<char>),
    AskColors,
    Read,
    Move(viewer::Motion),
}

impl View for Action {
    type V = ActionModel;

    open spec fn view(&self) -> ActionModel {
        match self {
            Action::Write(bytes) => ActionModel::Write(bytes@),
            Action::Report(text) => ActionModel::Report(text@),
            Action::AskColors => ActionModel::AskColors,
            Action::Read => ActionModel::Read,
            Action::Move(motion) => ActionModel::Move(*motion),
        }
    }
}

/// What several actions ask for.
pub open spec fn asked(actions: Seq<Action>) -> Seq<ActionModel> {
    actions.map_values(|a: Action| a@)
}

/// The request to ask for colors, where there is one.
pub open spec fn asked_colors(ask: bool) -> Seq<ActionModel> {
    if ask {
        seq![ActionModel::AskColors]
    } else {
        Seq::empty()
    }
}

/// Adds an action.
pub fn request(actions: &mut Vec<Action>, action: Action)
    ensures
        asked(final(actions)@) == asked(old(actions)@).push(action@),
{
    let ghost was = actions@;
    actions.push(action);
    assert(asked(actions@) =~= asked(was).push(action@));
}

/// How long to wait for a message, in milliseconds: until the deadline, if there is one.
pub fn wait(deadline: Option<u64>, now: u64) -> (r: Option<u64>)
    ensures
        r == match deadline {
            Some(at) => Some(
                if at > now {
                    (at - now) as u64
                } else {
                    0
                },
            ),
            None => None,
        },
{
    match deadline {
        Some(at) => if at > now {
            Some(at - now)
        } else {
            Some(0)
        },
        None => None,
    }
}

/// The earlier of two times.
pub open spec fn earlier(a: Option<u64>, b: Option<u64>) -> Option<u64> {
    match (a, b) {
        (Some(x), Some(y)) => Some(
            if x <= y {
                x
            } else {
                y
            },
        ),
        (Some(x), None) => Some(x),
        (None, b) => b,
    }
}

/// What the main loop should do after an event.
#[derive(Clone, Copy, Debug, PartialEq, Eq, Structural)]
pub enum Outcome {
    Continue,
    /// The grid or the colors changed: render again.
    Redraw,
    Quit(u8),
}

impl Outcome {
    pub fn or(self, other: Outcome) -> (r: Outcome)
        ensures
            r == either(self, other),
    {
        match (self, other) {
            (Outcome::Quit(code), _) => Outcome::Quit(code),
            (_, Outcome::Quit(code)) => Outcome::Quit(code),
            (Outcome::Redraw, _) => Outcome::Redraw,
            (_, Outcome::Redraw) => Outcome::Redraw,
            _ => Outcome::Continue,
        }
    }
}

/// What two outcomes together ask for: quitting wins over redrawing, and the first to quit over
/// the second.
pub open spec fn either(a: Outcome, b: Outcome) -> Outcome {
    if a is Quit {
        a
    } else if b is Quit {
        b
    } else if a is Redraw || b is Redraw {
        Outcome::Redraw
    } else {
        Outcome::Continue
    }
}

// ---------------------------------------------------------------------------------------------
// Lines that never wrap.

/// A text in dim letters.
pub open spec fn dimmed(s: Seq<char>) -> Seq<char> {
    "\x1b[2m"@ + s + "\x1b[22m"@
}

pub fn dim(text: &str) -> (s: String)
    ensures
        s@ == dimmed(text@),
{
    let mut s = "\x1b[2m".to_string();
    s.append(text);
    s.append("\x1b[22m");
    s
}

/// Whether an escape sequence ends with `c`.
pub open spec fn ends_escape(c: char) -> bool {
    'a' <= c <= 'z' || 'A' <= c <= 'Z' || c == '~'
}

/// How long the escape sequence is whose ESC stands before `s`.
pub open spec fn escape_length(s: Seq<char>) -> int
    decreases s.len(),
{
    if s.len() == 0 {
        0
    } else if ends_escape(s[0]) {
        1
    } else {
        1 + escape_length(s.drop_first())
    }
}

/// How many characters of `s` are visible: those outside escape sequences.
pub open spec fn visible(s: Seq<char>) -> int
    decreases s.len(),
{
    if s.len() == 0 {
        0
    } else if s[0] == '\x1b' {
        let n = 1 + escape_length(s.drop_first());
        if 0 < n <= s.len() {
            visible(s.skip(n))
        } else {
            0
        }
    } else {
        1 + visible(s.drop_first())
    }
}

/// `s` cut to `max` visible characters, of which `shown` have been shown. Escape sequences do not
/// count, so those behind the last visible character leave it in place.
pub open spec fn cut(s: Seq<char>, shown: int, max: int) -> Seq<char>
    decreases s.len(),
{
    if s.len() == 0 {
        Seq::empty()
    } else if s[0] == '\x1b' {
        let n = 1 + escape_length(s.drop_first());
        if 0 < n <= s.len() {
            s.take(n) + cut(s.skip(n), shown, max)
        } else {
            s
        }
    } else if shown + 1 == max && visible(s.drop_first()) > 0 {
        "…\x1b[0m"@
    } else {
        seq![s[0]] + cut(s.drop_first(), shown + 1, max)
    }
}

/// How many visible characters fit a line.
pub open spec fn line_room(width: u16) -> int {
    if width <= 2 {
        1
    } else {
        width - 1
    }
}

/// A line cut to fewer than `width` columns.
pub open spec fn fitted(line: Seq<char>, width: u16) -> Seq<char> {
    cut(line, 0, line_room(width))
}

proof fn lemma_escape_length(s: Seq<char>)
    ensures
        0 <= escape_length(s) <= s.len(),
    decreases s.len(),
{
    if s.len() > 0 && !ends_escape(s[0]) {
        lemma_escape_length(s.drop_first());
    }
}

/// An escape sequence is as long when something else follows it, unless it never ended.
proof fn lemma_escape_prefix(s: Seq<char>, more: Seq<char>)
    requires
        escape_length(s) == s.len(),
    ensures
        s.len() > 0 && ends_escape(s.last()) ==> escape_length(s + more) == s.len(),
        more.len() == 0 ==> escape_length(s + more) == s.len(),
    decreases s.len(),
{
    if s.len() > 0 {
        let rest = s.drop_first();
        assert((s + more).drop_first() =~= rest + more);
        if !ends_escape(s[0]) {
            lemma_escape_prefix(rest, more);
            if s.len() > 1 {
                assert(rest.last() == s.last());
            }
        }
    } else {
        assert(s + more =~= more);
    }
}

/// The escape sequence at the start of `s`, as far as it goes.
proof fn lemma_escape_taken(s: Seq<char>)
    ensures
        escape_length(s.take(escape_length(s))) == escape_length(s),
        escape_length(s) < s.len() ==> escape_length(s) > 0 && ends_escape(
            s[escape_length(s) - 1],
        ),
    decreases s.len(),
{
    lemma_escape_length(s);
    let n = escape_length(s);
    if s.len() > 0 {
        let rest = s.drop_first();
        lemma_escape_length(rest);
        assert(s.take(n)[0] == s[0]);
        if ends_escape(s[0]) {
        } else {
            lemma_escape_taken(rest);
            lemma_escape_length(rest);
            assert(s.take(n).drop_first() =~= rest.take(n - 1));
            if n < s.len() {
                assert(s[n - 1] == rest[n - 2]);
            }
        }
    } else {
        assert(s.take(n) =~= s);
    }
}

proof fn lemma_cut_visible(s: Seq<char>, shown: int, max: int)
    requires
        0 <= shown < max,
    ensures
        shown + visible(cut(s, shown, max)) <= max,
    decreases s.len(),
{
    if s.len() == 0 {
    } else if s[0] == '\x1b' {
        let rest = s.drop_first();
        let n = 1 + escape_length(rest);
        lemma_escape_length(rest);
        lemma_escape_taken(rest);
        let head = s.take(n);
        let tail = cut(s.skip(n), shown, max);
        lemma_cut_visible(s.skip(n), shown, max);
        let out = head + tail;
        assert(head.drop_first() =~= rest.take(n - 1));
        assert(out.drop_first() =~= rest.take(n - 1) + tail);
        lemma_escape_prefix(rest.take(n - 1), tail);
        if n - 1 < rest.len() {
            assert(rest.take(n - 1).last() == rest[n - 2]);
        } else {
            assert(s.skip(n) =~= Seq::<char>::empty());
        }
        assert(out.skip(n) =~= tail);
    } else {
        let rest = s.drop_first();
        if shown + 1 == max {
            if visible(rest) > 0 {
                reveal_strlit("…\x1b[0m");
                let end = "…\x1b[0m"@;
                reveal_with_fuel(escape_length, 4);
                reveal_with_fuel(visible, 3);
                assert(end.drop_first()[0] == '\x1b');
                assert(end.drop_first().drop_first() =~= seq!['[', '0', 'm']);
                assert(escape_length(seq!['[', '0', 'm']) == 3) by {
                    assert(seq!['[', '0', 'm'].drop_first() =~= seq!['0', 'm']);
                    assert(seq!['0', 'm'].drop_first() =~= seq!['m']);
                }
                assert(end.drop_first().skip(4) =~= Seq::<char>::empty());
                assert(visible(end) == 1);
            } else {
                lemma_visible(rest);
                lemma_cut_short(rest, shown + 1, max);
                let out = seq![s[0]] + cut(rest, shown + 1, max);
                assert(out.drop_first() =~= cut(rest, shown + 1, max));
            }
        } else {
            lemma_cut_visible(rest, shown + 1, max);
            let out = seq![s[0]] + cut(rest, shown + 1, max);
            assert(out.drop_first() =~= cut(rest, shown + 1, max));
        }
    }
}

proof fn lemma_visible(s: Seq<char>)
    ensures
        visible(s) >= 0,
    decreases s.len(),
{
    if s.len() > 0 {
        if s[0] == '\x1b' {
            lemma_escape_length(s.drop_first());
            lemma_visible(s.skip(1 + escape_length(s.drop_first())));
        } else {
            lemma_visible(s.drop_first());
        }
    }
}

/// What is short enough is not cut.
proof fn lemma_cut_short(s: Seq<char>, shown: int, max: int)
    requires
        shown + visible(s) <= max,
    ensures
        cut(s, shown, max) == s,
    decreases s.len(),
{
    if s.len() == 0 {
        assert(cut(s, shown, max) =~= s);
    } else if s[0] == '\x1b' {
        let n = 1 + escape_length(s.drop_first());
        lemma_escape_length(s.drop_first());
        lemma_cut_short(s.skip(n), shown, max);
        assert(s.take(n) + s.skip(n) =~= s);
    } else {
        lemma_visible(s.drop_first());
        lemma_cut_short(s.drop_first(), shown + 1, max);
        assert(seq![s[0]] + s.drop_first() =~= s);
    }
}

/// A line that is narrower than the terminal, its escape sequences aside, stays as it is.
pub proof fn narrow_lines_stay_whole(line: Seq<char>, width: u16)
    requires
        visible(line) < width,
    ensures
        fitted(line, width) == line,
{
    lemma_visible(line);
    lemma_cut_short(line, 0, line_room(width));
}

/// A line cut to a width shows fewer characters than that, so it never wraps: at least one
/// column stays free in any terminal of two columns or more.
pub proof fn cut_lines_never_wrap(line: Seq<char>, width: u16)
    requires
        width >= 2,
    ensures
        visible(fitted(line, width)) < width,
{
    lemma_cut_visible(line, 0, line_room(width));
}

/// Cuts a line to fewer than `width` columns, ignoring escape sequences, so it never wraps.
pub fn fit_line(line: &str, width: u16) -> (out: String)
    ensures
        out@ == fitted(line@, width),
{
    let max: u32 = if width <= 2 {
        1
    } else {
        width as u32 - 1
    };
    let all = text::chars(line);
    let mut out = String::new();
    let mut rest = all.as_slice();
    let mut shown: u32 = 0;
    assert(out@ + cut(line@, 0, max as int) =~= cut(line@, 0, max as int));
    while rest.len() > 0
        invariant
            max == line_room(width),
            shown <= max,
            fitted(line@, width) == out@ + cut(rest@, shown as int, max as int),
            shown == max ==> visible(rest@) == 0,
        decreases rest@.len(),
    {
        let ghost before = out@;
        let c = rest[0];
        let after = slice_subrange(rest, 1, rest.len());
        assert(after@ =~= rest@.drop_first());
        if c == '\x1b' {
            let n: usize = 1 + read_escape(after);
            let head = slice_subrange(rest, 0, n);
            let next = slice_subrange(rest, n, rest.len());
            text::push_chars(&mut out, head);
            proof {
                assert(head@ =~= rest@.take(n as int));
                assert(next@ =~= rest@.skip(n as int));
                let later = cut(next@, shown as int, max as int);
                assert(before + (head@ + later) =~= out@ + later);
            }
            rest = next;
        } else {
            proof {
                lemma_visible(after@);
            }
            if shown + 1 == max && shows_something(after) {
                out.append("…\x1b[0m");
                return out;
            }
            out.push(c);
            proof {
                let later = cut(after@, shown + 1, max as int);
                assert(before + (seq![c] + later) =~= out@ + later);
            }
            shown += 1;
            rest = after;
        }
    }
    assert(out@ + cut(rest@, shown as int, max as int) =~= out@);
    out
}

fn read_escape(s: &[char]) -> (n: usize)
    ensures
        n == escape_length(s@),
        n <= s@.len(),
{
    let mut i: usize = 0;
    assert(s@.skip(0) =~= s@);
    while i < s.len()
        invariant
            i <= s@.len(),
            escape_length(s@) == i + escape_length(s@.skip(i as int)),
        decreases s@.len() - i,
    {
        let c = s[i];
        assert(s@.skip(i as int).drop_first() =~= s@.skip(i + 1));
        if ('a' <= c && c <= 'z') || ('A' <= c && c <= 'Z') || c == '~' {
            return i + 1;
        }
        i += 1;
    }
    i
}

fn shows_something(s: &[char]) -> (r: bool)
    ensures
        r == (visible(s@) > 0),
{
    let mut rest = s;
    while rest.len() > 0
        invariant
            visible(s@) == visible(rest@),
        decreases rest@.len(),
    {
        let after = slice_subrange(rest, 1, rest.len());
        assert(after@ =~= rest@.drop_first());
        if rest[0] != '\x1b' {
            proof {
                lemma_visible(after@);
            }
            return true;
        }
        let n: usize = 1 + read_escape(after);
        let next = slice_subrange(rest, n, rest.len());
        assert(next@ =~= rest@.skip(n as int));
        rest = next;
    }
    false
}

// ---------------------------------------------------------------------------------------------
// The region.

/// What to show in the region.
pub enum Picture<'a> {
    /// Show a new frame, as an image with this id.
    New(&'a Frame, u32),
    /// Keep showing the current frame.
    Keep,
    /// Show no frame.
    Nothing,
}

/// An image that is shown.
#[derive(Clone, Copy, Debug, PartialEq, Eq, Structural)]
pub struct Shown {
    pub id: u32,
    pub cols: u16,
    pub rows: u16,
}

/// Lines at the bottom of the output that are redrawn in place. The cursor rests at the start
/// of the line below them.
#[derive(Clone, Copy, Debug, PartialEq, Eq, Structural)]
pub struct Region {
    pub lines: u16,
    pub image: Option<Shown>,
}

impl Default for Region {
    fn default() -> (region: Region)
        ensures
            region == (Region { lines: 0, image: None }),
    {
        Region { lines: 0, image: None }
    }
}

/// Whether a picture can be shown: its cells can be addressed.
pub open spec fn showable(picture: Picture<'_>) -> bool {
    match picture {
        Picture::New(frame, id) => frame.well_formed(),
        _ => true,
    }
}

/// The image that is shown after a picture was drawn.
pub open spec fn image_after(image: Option<Shown>, picture: Picture<'_>) -> Option<Shown> {
    match picture {
        Picture::New(frame, id) => Some(Shown { id, cols: frame.cols, rows: frame.rows }),
        Picture::Keep => image,
        Picture::Nothing => None,
    }
}

/// What drawing a picture writes. A frame that cannot be transmitted writes nothing.
pub open spec fn picture_bytes(image: Option<Shown>, picture: Picture<'_>) -> Seq<u8> {
    match picture {
        Picture::New(frame, id) => match render::inline(
            frame.transmitted(id),
            id,
            frame.cols,
            frame.rows,
        ) {
            Ok(bytes) => bytes,
            Err(_) => Seq::empty(),
        },
        Picture::Keep => match image {
            Some(shown) => render::cell_bytes(shown.id, shown.cols, shown.rows),
            None => Seq::empty(),
        },
        Picture::Nothing => Seq::empty(),
    }
}

/// A line cut to a width, with its ending.
pub open spec fn line_bytes(line: Seq<char>, width: u16) -> Seq<u8> {
    vstd::utf8::encode_utf8(fitted(line, width)).push(10)
}

/// The first `n` of several lines.
pub open spec fn note_bytes(notes: Seq<Seq<char>>, n: int, width: u16) -> Seq<u8>
    decreases n,
{
    if n <= 0 {
        Seq::empty()
    } else {
        note_bytes(notes, n - 1, width) + line_bytes(notes[n - 1], width)
    }
}

/// A status line, where there is one.
pub open spec fn status_bytes(status: Option<Seq<char>>, width: u16) -> Seq<u8> {
    match status {
        Some(status) => line_bytes(status, width),
        None => Seq::empty(),
    }
}

/// How many rows an image takes.
pub open spec fn image_rows(image: Option<Shown>) -> int {
    match image {
        Some(shown) => shown.rows as int,
        None => 0,
    }
}

/// How many lines the region takes after it was drawn.
pub open spec fn lines_after(
    image: Option<Shown>,
    notes: Seq<Seq<char>>,
    status: Option<Seq<char>>,
) -> int {
    image_rows(image) + notes.len() + if status is Some {
        1int
    } else {
        0
    }
}

/// The sequence that moves to the start of a region and clears it.
pub open spec fn erasure(lines: u16) -> Seq<u8> {
    let up = if lines > 0 {
        vstd::utf8::encode_utf8("\x1b["@ + text::decimal(lines as nat) + "F"@)
    } else {
        Seq::empty()
    };
    vstd::utf8::encode_utf8("\x1b[?2026h"@) + up + vstd::utf8::encode_utf8("\x1b[J"@)
}

/// The sequence that frees an image that is no longer shown.
pub open spec fn cleanup(before: Option<Shown>, after: Option<Shown>) -> Seq<u8> {
    match before {
        Some(old) => if after matches Some(new) && new.id == old.id {
            Seq::empty()
        } else {
            kitty::deletion(old.id)
        },
        None => Seq::empty(),
    }
}

/// What drawing the region writes.
pub open spec fn drawn(
    region: Region,
    above: Seq<u8>,
    picture: Picture<'_>,
    notes: Seq<Seq<char>>,
    status: Option<Seq<char>>,
    width: u16,
) -> Seq<u8> {
    erasure(region.lines) + above + picture_bytes(region.image, picture) + note_bytes(
        notes,
        notes.len() as int,
        width,
    ) + status_bytes(status, width) + cleanup(
        region.image,
        image_after(region.image, picture),
    ) + vstd::utf8::encode_utf8("\x1b[?2026l"@)
}

/// The region after it was drawn.
pub open spec fn redrawn(
    region: Region,
    picture: Picture<'_>,
    notes: Seq<Seq<char>>,
    status: Option<Seq<char>>,
) -> Region {
    let image = image_after(region.image, picture);
    Region { lines: lines_after(image, notes, status) as u16, image }
}

/// Each draw erases exactly the lines that the one before it drew: their picture, notes and
/// status, and never what was printed above them.
pub proof fn draws_erase_what_was_drawn(
    region: Region,
    picture: Picture<'_>,
    notes: Seq<Seq<char>>,
    status: Option<Seq<char>>,
    above: Seq<u8>,
    next_picture: Picture<'_>,
    next_notes: Seq<Seq<char>>,
    next_status: Option<Seq<char>>,
    width: u16,
)
    requires
        lines_after(image_after(region.image, picture), notes, status) <= u16::MAX,
    ensures
        ({
            let before = redrawn(region, picture, notes, status);
            let out = drawn(before, above, next_picture, next_notes, next_status, width);
            let n = image_rows(before.image) + notes.len() + if status is Some {
                1int
            } else {
                0
            };
            let up = if n > 0 {
                vstd::utf8::encode_utf8("\x1b["@ + text::decimal(n as nat) + "F"@)
            } else {
                Seq::empty()
            };
            &&& (vstd::utf8::encode_utf8("\x1b[?2026h"@) + up + vstd::utf8::encode_utf8(
                "\x1b[J"@,
            ) + above).is_prefix_of(out)
            &&& vstd::utf8::encode_utf8("\x1b[?2026l"@).is_suffix_of(out)
        }),
{
    let before = redrawn(region, picture, notes, status);
    let start = erasure(before.lines) + above;
    let out = drawn(before, above, next_picture, next_notes, next_status, width);
    assert(out.subrange(0, start.len() as int) =~= start);
    let end = vstd::utf8::encode_utf8("\x1b[?2026l"@);
    assert(out.subrange(out.len() - end.len(), out.len() as int) =~= end);
}

/// What is forgotten stays as ordinary output: the next draw does not move up, and neither shows
/// nor deletes an image.
pub proof fn forgotten_content_stays(
    notes: Seq<Seq<char>>,
    status: Option<Seq<char>>,
    width: u16,
)
    ensures
        drawn(forgotten(), Seq::empty(), Picture::Keep, notes, status, width)
            == vstd::utf8::encode_utf8("\x1b[?2026h"@) + vstd::utf8::encode_utf8("\x1b[J"@)
            + note_bytes(notes, notes.len() as int, width) + status_bytes(status, width)
            + vstd::utf8::encode_utf8("\x1b[?2026l"@),
        redrawn(forgotten(), Picture::Keep, notes, status).image is None,
        image_rows(forgotten().image) == 0,
{
    assert(drawn(forgotten(), Seq::empty(), Picture::Keep, notes, status, width)
        =~= vstd::utf8::encode_utf8("\x1b[?2026h"@) + vstd::utf8::encode_utf8("\x1b[J"@)
        + note_bytes(notes, notes.len() as int, width) + status_bytes(status, width)
        + vstd::utf8::encode_utf8("\x1b[?2026l"@));
}

/// A region of which nothing is kept.
pub open spec fn forgotten() -> Region {
    Region { lines: 0, image: None }
}

fn push_line(out: &mut Vec<u8>, line: &str, width: u16)
    ensures
        final(out)@ == old(out)@ + line_bytes(line@, width),
{
    let ghost was = out@;
    text::push_text(out, fit_line(line, width).as_str());
    out.push(10);
    assert(out@ =~= was + line_bytes(line@, width));
}

impl Region {
    /// Whether the image that is shown can be addressed.
    pub open spec fn well_formed(&self) -> bool {
        self.image matches Some(shown) ==> shown.cols <= kitty::MAX_CELLS && shown.rows
            <= kitty::MAX_CELLS
    }

    /// Erases the region, prints `above` as ordinary output that scrolls into the history, and
    /// draws the picture, `notes` and `status` as the new region. Lines are cut to `width` so
    /// none of them wraps.
    pub fn draw(
        &mut self,
        above: &[u8],
        picture: Picture<'_>,
        notes: &Vec<String>,
        status: Option<&str>,
        width: u16,
    ) -> (out: Vec<u8>)
        requires
            old(self).well_formed(),
            showable(picture),
            lines_after(
                image_after(old(self).image, picture),
                text::views(notes@),
                text::optional_str(status),
            ) <= u16::MAX,
        ensures
            out@ == drawn(
                *old(self),
                above@,
                picture,
                text::views(notes@),
                text::optional_str(status),
                width,
            ),
            *final(self) == redrawn(
                *old(self),
                picture,
                text::views(notes@),
                text::optional_str(status),
            ),
            final(self).well_formed(),
            final(self).lines == lines_after(
                final(self).image,
                text::views(notes@),
                text::optional_str(status),
            ),
    {
        let mut out: Vec<u8> = Vec::new();
        text::push_text(&mut out, "\x1b[?2026h");
        if self.lines > 0 {
            let mut up = "\x1b[".to_string();
            text::push_decimal(&mut up, self.lines as u128);
            up.append("F");
            text::push_text(&mut out, up.as_str());
        }
        text::push_text(&mut out, "\x1b[J");
        assert(out@ =~= erasure(self.lines));
        text::push_bytes(&mut out, above);

        let previous = self.image;
        match picture {
            Picture::New(frame, id) => {
                let ghost before = out@;
                let _ = render::write_inline(&mut out, frame, id);
                self.image = Some(Shown { id, cols: frame.cols, rows: frame.rows });
                assert(out@ =~= before + picture_bytes(previous, picture));
            },
            Picture::Keep => {
                let ghost before = out@;
                if let Some(shown) = self.image {
                    render::write_cells(&mut out, shown.id, shown.cols, shown.rows);
                }
                assert(out@ =~= before + picture_bytes(previous, picture));
            },
            Picture::Nothing => {
                self.image = None;
                assert(out@ =~= out@ + picture_bytes(previous, picture));
            },
        }
        let rows: u16 = self.lines_for_image();
        let mut lines: u16 = rows;
        let ghost head = out@;
        let ghost all = text::views(notes@);
        let mut i: usize = 0;
        assert(out@ =~= head + note_bytes(all, 0, width));
        while i < notes.len()
            invariant
                i <= notes@.len(),
                all == text::views(notes@),
                rows + notes@.len() <= u16::MAX,
                lines == rows + i,
                out@ == head + note_bytes(all, i as int, width),
            decreases notes@.len() - i,
        {
            push_line(&mut out, notes[i].as_str(), width);
            lines += 1;
            i += 1;
            assert(out@ =~= head + note_bytes(all, i as int, width));
        }
        let ghost noted = out@;
        if let Some(status) = status {
            push_line(&mut out, status, width);
            lines += 1;
        }
        assert(out@ =~= noted + status_bytes(text::optional_str(status), width));
        let ghost told = out@;
        if let Some(old) = previous {
            let kept = match self.image {
                Some(new) => new.id == old.id,
                None => false,
            };
            if !kept {
                kitty::delete(&mut out, old.id);
            }
        }
        assert(out@ =~= told + cleanup(previous, self.image));
        self.lines = lines;
        text::push_text(&mut out, "\x1b[?2026l");
        out
    }

    /// Leaves the current content as ordinary output; the next draw starts below it.
    pub fn forget(&mut self)
        ensures
            *final(self) == forgotten(),
    {
        self.lines = 0;
        self.image = None;
    }

    pub fn has_image(&self) -> (r: bool)
        ensures
            r == (self.image is Some),
    {
        self.image.is_some()
    }

    /// Rows taken by the frame currently shown.
    pub fn lines_for_image(&self) -> (rows: u16)
        ensures
            rows == image_rows(self.image),
    {
        match self.image {
            Some(shown) => shown.rows,
            None => 0,
        }
    }
}

// ---------------------------------------------------------------------------------------------
// The session.

/// What a live mode writes when it starts: the cursor is hidden, and the terminal reports
/// light/dark switches and its size.
pub const OPENING: &'static str = "\x1b[?25l\x1b[?2031h\x1b[?2048h";

/// What a live mode writes when it ends.
pub const CLOSING: &'static str = "\x1b[?2048l\x1b[?2031l\x1b[?25h";

/// A render for the stream and watch modes.
#[derive(Debug)]
pub struct Job {
    pub source: String,
    pub grid: Grid,
    pub fit: Fit,
    /// A new Mermaid configuration to switch to first, after a theme change.
    pub config: Option<Value>,
}

/// What a [`Job`] asks for.
pub struct JobModel {
    pub source: Seq<char>,
    pub grid: Grid,
    pub fit: Fit,
    pub config: Option<Model>,
}

impl View for Job {
    type V = JobModel;

    open spec fn view(&self) -> JobModel {
        JobModel {
            source: self.source@,
            grid: self.grid,
            fit: self.fit,
            config: settings::model_of(self.config),
        }
    }
}

/// The terminal state shared by live modes: the region, the grid and the colors.
#[derive(Debug)]
pub struct Session {
    pub region: Region,
    pub grid: Grid,
    setup: Setup,
    palette: Palette,
    recolor_at: Option<u64>,
    config: Option<Value>,
    tmux: bool,
}

/// What a [`Session`] holds.
pub struct SessionModel {
    pub region: Region,
    pub grid: Grid,
    pub setup: SetupModel,
    pub palette: PaletteModel,
    /// When to switch to new colors.
    pub recolor_at: Option<u64>,
    /// A configuration to switch to.
    pub config: Option<Model>,
    pub tmux: bool,
}

impl View for Session {
    type V = SessionModel;

    closed spec fn view(&self) -> SessionModel {
        SessionModel {
            region: self.region,
            grid: self.grid,
            setup: self.setup@,
            palette: self.palette@,
            recolor_at: self.recolor_at,
            config: settings::model_of(self.config),
            tmux: self.tmux,
        }
    }
}

/// A session that has just started.
pub open spec fn started(setup: SetupModel, tmux: bool) -> SessionModel {
    SessionModel {
        region: Region { lines: 0, image: None },
        grid: setup.grid,
        setup,
        palette: setup.caps.palette,
        recolor_at: None,
        config: None,
        tmux,
    }
}

/// A grid of so many cells, with cell sizes from the pixels of the text area when it says.
pub open spec fn resized(grid: Grid, cols: u16, rows: u16, width: u32, height: u32) -> Grid {
    if width / (cols as u32) > 0 && height / (rows as u32) > 0 {
        Grid { cols, rows, cell_w: width / (cols as u32), cell_h: height / (rows as u32) }
    } else {
        Grid { cols, rows, ..grid }
    }
}

/// What a new size does. A size without cells is ignored.
pub open spec fn resize_step(
    s: SessionModel,
    cols: u16,
    rows: u16,
    width: u32,
    height: u32,
) -> (SessionModel, Outcome) {
    let grid = resized(s.grid, cols, rows, width, height);
    if cols == 0 || rows == 0 || grid == s.grid {
        (s, Outcome::Continue)
    } else {
        (SessionModel { grid, ..s }, Outcome::Redraw)
    }
}

/// What an event does in every live mode: the session after it, what it asks for, and whether
/// to ask the terminal for its colors.
pub open spec fn handle_step(s: SessionModel, event: Event, now: u64) -> (
    SessionModel,
    Outcome,
    bool,
) {
    match event {
        Event::Key(Key::Ctrl('c')) => (s, Outcome::Quit(130), false),
        Event::Key(Key::Char('q')) => (s, Outcome::Quit(0), false),
        Event::Key(Key::Escape) => (s, Outcome::Quit(0), false),
        Event::Resize { cols, rows, width, height } => {
            let (next, outcome) = resize_step(s, cols, rows, width, height);
            (next, outcome, false)
        },
        Event::ColorScheme { dark } => if s.setup.theme == "terminal"@ {
            (
                SessionModel { recolor_at: Some(probe::later(now, RECOLOR_DELAY)), ..s },
                Outcome::Continue,
                true,
            )
        } else {
            (s, Outcome::Continue, false)
        },
        Event::Color { index, rgb } => (
            SessionModel {
                palette: theme::recorded(s.palette, index, rgb),
                recolor_at: match s.recolor_at {
                    Some(_) => Some(probe::later(now, RECOLOR_DELAY)),
                    None => None,
                },
                ..s
            },
            Outcome::Continue,
            false,
        ),
        _ => (s, Outcome::Continue, false),
    }
}

/// What a signal does.
pub open spec fn signal_step(s: SessionModel, signal: Signal) -> (SessionModel, Outcome) {
    match signal {
        Signal::Stop => (s, Outcome::Quit(130)),
        Signal::Window(Some((cols, rows, width, height))) => resize_step(
            s,
            cols,
            rows,
            width as u32,
            height as u32,
        ),
        Signal::Window(None) => (s, Outcome::Continue),
    }
}

/// The configuration for the colors that the terminal reported.
pub open spec fn recolored(s: SessionModel) -> Model {
    display::site(
        s.setup.theme,
        Some(CapsModel { palette: s.palette, ..s.setup.caps }),
        s.setup.user_config,
    )
}

/// What the passing of time does: new colors are switched to once their replies have settled.
pub open spec fn tick_step(s: SessionModel, now: u64) -> (SessionModel, Outcome) {
    match s.recolor_at {
        Some(at) if now >= at => (
            SessionModel { recolor_at: None, config: Some(recolored(s)), ..s },
            Outcome::Redraw,
        ),
        _ => (s, Outcome::Continue),
    }
}

/// The session after its region was drawn.
pub open spec fn drawn_step(
    s: SessionModel,
    picture: Picture<'_>,
    notes: Seq<Seq<char>>,
    status: Option<Seq<char>>,
) -> SessionModel {
    let image = image_after(s.region.image, picture);
    SessionModel {
        region: Region { lines: lines_after(image, notes, status) as u16, image },
        ..s
    }
}

/// What drawing the session's region writes.
pub open spec fn session_bytes(
    s: SessionModel,
    above: Seq<u8>,
    picture: Picture<'_>,
    notes: Seq<Seq<char>>,
    status: Option<Seq<char>>,
) -> Seq<u8> {
    term::prepared(drawn(s.region, above, picture, notes, status, s.grid.cols), s.tmux)
}

impl Session {
    pub fn start(setup: Setup, tmux: bool) -> (session: Session)
        ensures
            session@ == started(setup@, tmux),
    {
        Session {
            region: Region::default(),
            grid: setup.grid,
            palette: setup.caps.palette,
            setup,
            recolor_at: None,
            config: None,
            tmux,
        }
    }

    /// The setup that the session started with.
    pub fn setup(&self) -> (setup: &Setup)
        ensures
            setup@ == self@.setup,
    {
        &self.setup
    }

    /// Output as the terminal has to be sent it.
    pub fn prepare(&self, bytes: &[u8]) -> (out: Vec<u8>)
        ensures
            out@ == term::prepared(bytes@, self@.tmux),
    {
        term::for_terminal(bytes, self.tmux)
    }

    /// Whether the terminal is reached through tmux.
    pub fn inside_tmux(&self) -> (r: bool)
        ensures
            r == self@.tmux,
    {
        self.tmux
    }

    /// The grid of the terminal.
    pub fn grid(&self) -> (grid: Grid)
        ensures
            grid == self@.grid,
    {
        self.grid
    }

    /// Whether the region shows an image.
    pub fn shows_image(&self) -> (r: bool)
        ensures
            r == (self@.region.image is Some),
    {
        self.region.has_image()
    }

    /// Rows taken by the image that the region shows.
    pub fn image_rows(&self) -> (rows: u16)
        ensures
            rows == image_rows(self@.region.image),
    {
        self.region.lines_for_image()
    }

    /// Draws the region. What comes back is to be written to the terminal.
    pub fn draw(
        &mut self,
        above: &[u8],
        picture: Picture<'_>,
        notes: &Vec<String>,
        status: Option<&str>,
    ) -> (out: Vec<u8>)
        requires
            old(self)@.region.well_formed(),
            showable(picture),
            lines_after(
                image_after(old(self)@.region.image, picture),
                text::views(notes@),
                text::optional_str(status),
            ) <= u16::MAX,
        ensures
            out@ == session_bytes(
                old(self)@,
                above@,
                picture,
                text::views(notes@),
                text::optional_str(status),
            ),
            final(self)@ == drawn_step(
                old(self)@,
                picture,
                text::views(notes@),
                text::optional_str(status),
            ),
            final(self)@.region.well_formed(),
    {
        let cols: u16 = self.grid.cols;
        let mut region = self.region;
        let out = region.draw(above, picture, notes, status, cols);
        self.region = region;
        term::for_terminal(&out, self.tmux)
    }

    /// Keeps what the region shows as ordinary output, without the status line.
    pub fn release(&mut self, notes: &Vec<String>) -> (out: Vec<u8>)
        requires
            old(self)@.region.well_formed(),
            lines_after(old(self)@.region.image, text::views(notes@), None) <= u16::MAX,
        ensures
            out@ == session_bytes(
                old(self)@,
                Seq::empty(),
                Picture::Keep,
                text::views(notes@),
                None,
            ),
            final(self)@ == (SessionModel {
                region: Region { lines: 0, image: None },
                ..old(self)@
            }),
    {
        let nothing: [u8; 0] = [];
        assert(nothing@ =~= Seq::<u8>::empty());
        let out = self.draw(&nothing, Picture::Keep, notes, None);
        self.region.forget();
        out
    }

    /// A render job, carrying the new configuration after a theme change.
    pub fn job(&mut self, source: String, grid: Grid, fit: Fit) -> (job: Job)
        ensures
            job@ == (JobModel { source: source@, grid, fit, config: old(self)@.config }),
            final(self)@ == (SessionModel { config: None, ..old(self)@ }),
    {
        Job { source, grid, fit, config: self.take_config() }
    }

    /// The configuration to switch to after a theme change, handed out once.
    pub fn take_config(&mut self) -> (config: Option<Value>)
        ensures
            settings::model_of(config) == old(self)@.config,
            final(self)@ == (SessionModel { config: None, ..old(self)@ }),
    {
        self.config.take()
    }

    /// Handles the input every live mode shares: quitting, resizing and color changes. The
    /// second part says to ask the terminal for its colors.
    pub fn handle(&mut self, event: &Event, now: u64) -> (r: (Outcome, bool))
        ensures
            (final(self)@, r.0, r.1) == handle_step(old(self)@, *event, now),
    {
        match *event {
            Event::Key(Key::Ctrl('c')) => (Outcome::Quit(130), false),
            Event::Key(Key::Char('q')) => (Outcome::Quit(0), false),
            Event::Key(Key::Escape) => (Outcome::Quit(0), false),
            Event::Resize { cols, rows, width, height } => {
                (self.resize(cols, rows, width, height), false)
            },
            Event::ColorScheme { dark: _ } => {
                if text::str_eq(self.setup.theme.as_str(), "terminal") {
                    self.recolor_at = Some(probe::add_time(now, RECOLOR_DELAY));
                    (Outcome::Continue, true)
                } else {
                    (Outcome::Continue, false)
                }
            },
            Event::Color { index, rgb } => {
                self.palette.set(index, rgb);
                if self.recolor_at.is_some() {
                    self.recolor_at = Some(probe::add_time(now, RECOLOR_DELAY));
                }
                (Outcome::Continue, false)
            },
            _ => (Outcome::Continue, false),
        }
    }

    /// Handles a signal: a change of the window resizes, as far as its new size is known, and
    /// the others quit.
    pub fn signal(&mut self, signal: Signal) -> (r: Outcome)
        ensures
            (final(self)@, r) == signal_step(old(self)@, signal),
    {
        match signal {
            Signal::Stop => Outcome::Quit(130),
            Signal::Window(Some((cols, rows, width, height))) => {
                self.resize(cols, rows, width as u32, height as u32)
            },
            Signal::Window(None) => Outcome::Continue,
        }
    }

    /// Switches to the terminal's new colors once their replies have settled. Call on every
    /// pass of the main loop.
    pub fn tick(&mut self, now: u64) -> (r: Outcome)
        ensures
            (final(self)@, r) == tick_step(old(self)@, now),
    {
        match self.recolor_at {
            Some(at) => {
                if now < at {
                    return Outcome::Continue;
                }
                self.recolor_at = None;
                self.config = Some(self.setup.config_for(&self.palette));
                Outcome::Redraw
            },
            None => Outcome::Continue,
        }
    }

    /// When `tick` next has something to do.
    pub fn deadline(&self) -> (at: Option<u64>)
        ensures
            at == self@.recolor_at,
    {
        self.recolor_at
    }

    fn resize(&mut self, cols: u16, rows: u16, width: u32, height: u32) -> (r: Outcome)
        ensures
            (final(self)@, r) == resize_step(old(self)@, cols, rows, width, height),
    {
        if cols == 0 || rows == 0 {
            return Outcome::Continue;
        }
        let mut grid = Grid { cols, rows, cell_w: self.grid.cell_w, cell_h: self.grid.cell_h };
        if width / cols as u32 > 0 && height / rows as u32 > 0 {
            grid.cell_w = width / cols as u32;
            grid.cell_h = height / rows as u32;
        }
        if grid == self.grid {
            return Outcome::Continue;
        }
        self.grid = grid;
        Outcome::Redraw
    }
}

} // verus!
