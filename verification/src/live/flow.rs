//! What holds of streams and of sessions: when something is drawn, and what new sizes and colors
//! do.

use vstd::prelude::*;

use super::stream;
use super::stream::{BusyModel, IntakeModel, LiveModel};
use super::{ActionModel, Msg, Outcome, SessionModel, Signal};
use crate::engine;
use crate::engine::Failure;
use crate::display;
use crate::input::{DiagramModel, Format};
use crate::size::Fit;
use crate::term::input::{Event, Key};
use crate::term::kitty::Untransmitted;
use crate::term::probe::CapsModel;
use crate::text;
use crate::theme;
use crate::theme::Rgb;

verus! {

// ---------------------------------------------------------------------------------------------
// Streams.

/// A finished diagram is drawn as soon as the worker is free: the first that waits, with the whole
/// grid, fitted as asked. The others wait for it.
pub proof fn finished_diagrams_are_drawn_first(m: LiveModel, now: u64)
    ensures
        m.busy is Some ==> stream::pump_step(m, now).1 is None && stream::pump_step(m, now).0 == m,
        m.busy is None && m.queue.len() > 0 ==> {
            let (then, job) = stream::pump_step(m, now);
            &&& job matches Some(job)
            &&& job.source == m.queue[0].text
            &&& job.grid == m.session.grid
            &&& job.fit == m.session.setup.fit
            &&& then.busy == Some(BusyModel::Final(m.queue[0]))
            &&& then.queue == m.queue.drop_first()
        },
{
}

/// A Mermaid document that still arrives is previewed once its input pauses: its whole lines so
/// far, contained in the grid with two rows left. Markdown is not, and neither is what says
/// nothing yet.
pub proof fn pauses_are_used_for_previews(m: LiveModel, now: u64)
    requires
        m.busy is None,
        m.queue.len() == 0,
    ensures
        m.intake.format != Some(Format::Mermaid) || !m.dirty || now < m.quiet_at
            ==> stream::pump_step(m, now).1 is None,
        m.intake.format == Some(Format::Mermaid) && m.dirty && now >= m.quiet_at ==> (exists|n: int|
            {
                let lines = m.intake.text.take(n);
                let (then, job) = stream::pump_step(m, now);
                &&& 0 <= n <= m.intake.text.len()
                &&& n > 0 ==> m.intake.text[n - 1] == '\n'
                &&& !(#[trigger] m.intake.text.skip(n)).contains('\n')
                &&& !then.dirty
                &&& text::trimmed(lines).len() == 0 ==> job is None
                &&& text::trimmed(lines).len() > 0 ==> {
                    &&& job matches Some(job)
                    &&& job.source == lines
                    &&& job.fit == Fit::Contain
                    &&& job.grid.cols == m.session.grid.cols
                    &&& m.session.grid.rows > 3 ==> job.grid.rows == m.session.grid.rows - 2
                    &&& then.busy == Some(BusyModel::Preview)
                }
            }),
{
    let all = m.intake.text;
    let n = stream::complete(all);
    text::lemma_after_last(all, '\n');
    let rest = all.skip(n);
    if rest.contains('\n') {
        let i = rest.index_of('\n');
        assert(rest[i] == '\n');
        assert(all[n + i] == '\n');
    }
    assert(!all.skip(n).contains('\n'));
}

/// Diagrams are drawn in the order in which they are found: new ones wait behind those that wait
/// already.
pub proof fn diagrams_wait_in_line(m: LiveModel, bytes: Seq<u8>, now: u64)
    ensures
        ({
            let then = stream::fed(m, bytes, now);
            let found = stream::feed_step(m.intake, bytes).1;
            &&& then.queue == m.queue + found
            &&& then.found == (m.found || found.len() > 0)
            &&& then.busy == m.busy && then.session == m.session && then.failed == m.failed
        }),
        ({
            let then = stream::ended(m);
            let found = stream::end_step(m.intake).1;
            &&& then.queue == m.queue + found
            &&& then.found == (m.found || found.len() > 0)
            &&& then.ended && !then.dirty
        }),
{
}

/// A pause is 80 milliseconds without data, and output goes live with the first pause or after
/// 400 milliseconds.
pub proof fn pauses_are_short(m: LiveModel, bytes: Seq<u8>, now: u64, last: u64, i: int)
    requires
        now + 400 <= u64::MAX,
        last + 80 <= u64::MAX,
        0 <= i < bytes.len(),
        bytes[i] != 0,
    ensures
        stream::fed(m, bytes, now).quiet_at == now + 80,
        stream::live_time(now, None) == now + 400,
        stream::live_time(now, Some(last)) == if last + 80 < now + 400 {
            last + 80
        } else {
            now + 400
        },
{
    assert(stream::has_data(bytes));
}

proof fn lemma_nul(first: Seq<u8>, rest: Seq<u8>)
    requires
        !first.contains(0u8),
    ensures
        stream::first_nul(first) == first.len(),
        stream::first_nul(first + seq![0u8] + rest) == first.len(),
    decreases first.len(),
{
    let all = first + seq![0u8] + rest;
    if first.len() > 0 {
        assert(first.contains(first[0]));
        let later = first.drop_first();
        assert forall|i: int| 0 <= i < later.len() implies later[i] != 0 by {
            assert(first.contains(first[i + 1]));
        }
        lemma_nul(later, rest);
        assert(all.drop_first() =~= later + seq![0u8] + rest);
        assert(all[0] == first[0]);
    } else {
        assert(all[0] == 0);
    }
}

/// A NUL ends a document: what is left of it is found, and the next one starts afresh, in a
/// format of its own unless one was asked for.
pub proof fn documents_end_with_a_nul(m: IntakeModel, first: Seq<u8>, rest: Seq<u8>)
    requires
        !first.contains(0u8),
    ensures
        ({
            let (before, found) = stream::push_step(m, first);
            let (then, all) = stream::feed_step(m, first + seq![0u8] + rest);
            let (last, later) = stream::feed_step(stream::fresh(m.fixed), rest);
            &&& then == last
            &&& all == found + stream::remaining(before) + later
            &&& stream::fresh(m.fixed).format == m.fixed
            &&& stream::fresh(m.fixed).text.len() == 0
        }),
        stream::feed_step(m, first) == stream::push_step(m, first),
{
    lemma_nul(first, rest);
    let all = first + seq![0u8] + rest;
    let n = first.len() as int;
    assert(all.take(n) =~= first);
    assert(all.skip(n + 1) =~= rest);
    assert(first.take(n) =~= first);
    assert(stream::push_step(m, first).0.fixed == m.fixed);
}

/// A stream succeeds if it had a diagram and none failed. One that was stopped ends with the code
/// that it was stopped with.
pub proof fn streams_end_with_a_code(m: LiveModel, code: u8)
    ensures
        stream::ending_code(m, Some(code)) == code,
        m.found && !m.failed ==> stream::ending_code(m, None) == 0,
        !m.found || m.failed ==> stream::ending_code(m, None) == 1,
{
}

/// `q` and Escape end a stream with success, and Ctrl-C and the signals that ask a program to stop
/// end it with 130. No other key does.
pub proof fn keys_and_signals_end_streams(m: LiveModel, key: Key, now: u64, id: u32)
    ensures
        stream::message_step(m, Some(Msg::Input(Event::Key(key))), now, id).2 == Ok::<
            Option<u8>,
            Untransmitted,
        >(
            if key == Key::Char('q') || key == Key::Escape {
                Some(0u8)
            } else if key == Key::Ctrl('c') {
                Some(130u8)
            } else {
                None
            },
        ),
        stream::message_step(m, Some(Msg::Signal(Signal::Stop)), now, id).2 == Ok::<
            Option<u8>,
            Untransmitted,
        >(Some(130u8)),
{
}

/// A diagram that fails is reported and makes the stream fail, and those that wait are still
/// drawn. A preview that fails is not reported: more input may mend it.
pub proof fn failures_are_reported_once_final(
    m: LiveModel,
    diagram: DiagramModel,
    failure: Failure,
    id: u32,
)
    ensures
        m.busy == Some(BusyModel::Final(diagram)) ==> {
            let (then, actions, done) = stream::rendered_step(m, Err(failure), id);
            &&& then.failed && then.busy is None && then.queue == m.queue
            &&& done is Ok
            &&& engine::told(failure@) matches Some(told) ==> actions.len() == 3 && actions[1]
                == ActionModel::Report(
                crate::diag::formatted(told, diagram, m.session.setup.color),
            )
        },
        m.busy == Some(BusyModel::Preview) ==> {
            let (then, actions, done) = stream::rendered_step(m, Err(failure), id);
            &&& then.failed == m.failed && then.busy is None && then.queue == m.queue
            &&& then.session.region.image == m.session.region.image
            &&& forall|i: int| 0 <= i < actions.len() ==> !(#[trigger] actions[i] is Report)
        },
{
}

// ---------------------------------------------------------------------------------------------
// Sessions.

/// A new size is taken over and everything is drawn again. The size of cells follows from the
/// pixels where there are enough of them, and stays otherwise. A terminal without cells, or of
/// the same size, changes nothing.
pub proof fn new_sizes_are_drawn(
    s: SessionModel,
    cols: u16,
    rows: u16,
    width: u32,
    height: u32,
    now: u64,
)
    requires
        cols > 0 && rows > 0,
    ensures
        ({
            let event = Event::Resize { cols, rows, width, height };
            let (then, outcome, ask) = super::handle_step(s, event, now);
            let known = width >= cols && height >= rows;
            &&& then.grid.cols == cols && then.grid.rows == rows
            &&& known ==> then.grid.cell_w == width as int / cols as int && then.grid.cell_h
                == height as int / rows as int
            &&& !known ==> then.grid.cell_w == s.grid.cell_w && then.grid.cell_h == s.grid.cell_h
            &&& outcome == if then.grid == s.grid {
                Outcome::Continue
            } else {
                Outcome::Redraw
            }
            &&& !ask
            &&& then.region == s.region && then.palette == s.palette && then.recolor_at
                == s.recolor_at
        }),
        super::handle_step(
            s,
            Event::Resize { cols: 0, rows, width, height },
            now,
        ) == (s, Outcome::Continue, false),
        super::handle_step(
            s,
            Event::Resize { cols, rows: 0, width, height },
            now,
        ) == (s, Outcome::Continue, false),
{
    lemma_share(width as int, cols as int);
    lemma_share(height as int, rows as int);
}

proof fn lemma_share(a: int, b: int)
    requires
        a >= 0,
        b > 0,
    ensures
        a / b > 0 <==> a >= b,
{
    if a >= b {
        assert(a / b >= 1) by (nonlinear_arith)
            requires
                0 < b <= a,
        ;
    } else {
        assert(a / b == 0) by (nonlinear_arith)
            requires
                0 <= a < b,
        ;
    }
}

/// When the terminal turns dark or light, the `terminal` theme asks for its colors again; other
/// themes stay as they are.
pub proof fn switches_are_followed(s: SessionModel, dark: bool, now: u64)
    requires
        now + 150 <= u64::MAX,
    ensures
        ({
            let (then, outcome, ask) = super::handle_step(s, Event::ColorScheme { dark }, now);
            &&& outcome == Outcome::Continue
            &&& ask == (s.setup.theme == "terminal"@)
            &&& s.setup.theme == "terminal"@ ==> then.recolor_at == Some((now + 150) as u64)
            &&& s.setup.theme != "terminal"@ ==> then == s
            &&& then.palette == s.palette && then.config == s.config
        }),
{
}

/// Colors are recorded as they are reported. New ones are used once no more have come for 150
/// milliseconds: then the theme is made of them, and everything is drawn again.
pub proof fn new_colors_are_used_when_settled(s: SessionModel, index: u16, rgb: Rgb, now: u64)
    requires
        now + 150 <= u64::MAX,
    ensures
        ({
            let (then, outcome, ask) = super::handle_step(s, Event::Color { index, rgb }, now);
            &&& then.palette == theme::recorded(s.palette, index, rgb)
            &&& s.recolor_at is Some ==> then.recolor_at == Some((now + 150) as u64)
            &&& s.recolor_at is None ==> then.recolor_at is None
            &&& outcome == Outcome::Continue && !ask
        }),
        s.recolor_at is None || now < s.recolor_at.unwrap() ==> super::tick_step(s, now) == (
            s,
            Outcome::Continue,
        ),
        s.recolor_at is Some && now >= s.recolor_at.unwrap() ==> {
            let (then, outcome) = super::tick_step(s, now);
            &&& outcome == Outcome::Redraw
            &&& then.recolor_at is None
            &&& then.config == Some(
                display::site(
                    s.setup.theme,
                    Some(CapsModel { palette: s.palette, ..s.setup.caps }),
                    s.setup.user_config,
                ),
            )
        },
{
}

} // verus!
