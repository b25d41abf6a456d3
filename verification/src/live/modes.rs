//! What holds of the viewer and the watch: what their keys do, and what reading files again
//! changes.

use vstd::prelude::*;

use super::viewer;
use super::viewer::{Drag, Motion, Point, Viewed, ViewerModel};
use super::watch;
use super::watch::WatchModel;
use super::{ActionModel, Msg, Outcome, Signal};
use crate::engine::Failure;
use crate::input::DiagramModel;
use crate::render::Frame;
use crate::term::input::{Event, Key, Mouse, MouseKind};
use crate::text;

verus! {

// ---------------------------------------------------------------------------------------------
// The viewer.

/// What a key asks for in the viewer.
#[verifier::opaque]
pub open spec fn pressed(m: ViewerModel, key: Key, now: u64, id: u32, zoom: u64) -> Seq<
    ActionModel,
> {
    viewer::message_step(m, Some(Msg::Input(Event::Key(key))), now, id, zoom).1
}

/// The viewer after a key.
#[verifier::opaque]
pub open spec fn after_key(m: ViewerModel, key: Key, now: u64, id: u32, zoom: u64) -> ViewerModel {
    viewer::message_step(m, Some(Msg::Input(Event::Key(key))), now, id, zoom).0
}

/// A key that ends nothing is taken as the viewer takes it.
proof fn lemma_pressed(m: ViewerModel, key: Key, now: u64, id: u32, zoom: u64)
    requires
        key != Key::Char('q') && key != Key::Escape && key != Key::Ctrl('c'),
    ensures
        ({
            let own = ViewerModel { session: super::tick_step(m.session, now).0, ..m };
            &&& pressed(m, key, now, id, zoom) == viewer::key_step(own, key).1
            &&& after_key(m, key, now, id, zoom) == (ViewerModel {
                stale: viewer::key_step(own, key).0.stale || super::tick_step(m.session, now).1
                    is Redraw,
                ..viewer::key_step(own, key).0
            })
        }),
{
    reveal(pressed);
    reveal(after_key);
    let own = ViewerModel { session: super::tick_step(m.session, now).0, ..m };
    assert(super::handle_step(own.session, Event::Key(key), now) == (
        own.session,
        Outcome::Continue,
        false,
    ));
    let actions = viewer::key_step(own, key).1;
    assert(super::asked_colors(false) + actions =~= actions);
}

/// A key that selects nothing asks for its move.
proof fn lemma_moved(m: ViewerModel, key: Key, now: u64, id: u32, zoom: u64)
    requires
        key != Key::Char('q') && key != Key::Escape && key != Key::Ctrl('c'),
        !viewer::goes_on(key) && !viewer::goes_back(key) && key != Key::Home && key != Key::End,
        key != Key::Char('r') && key != Key::Char('0'),
    ensures
        pressed(m, key, now, id, zoom) == viewer::movable(m, viewer::motion_of(key)),
{
    lemma_pressed(m, key, now, id, zoom);
}

/// With a diagram shown, the arrows and `h` `j` `k` `l` pan their own way, capital letters pan
/// five times as far, `+` and `=` zoom in, `-` and `_` zoom out by as much, `1` goes to the actual
/// size and `w` fits the width.
pub proof fn viewer_keys_move_the_camera(m: ViewerModel, now: u64, id: u32, zoom: u64)
    requires
        m.camera is Some,
        m.size is Some,
    ensures
        pressed(m, Key::Char('h'), now, id, zoom) == seq![ActionModel::Move(Motion::Left(1))],
        pressed(m, Key::Left, now, id, zoom) == seq![ActionModel::Move(Motion::Left(1))],
        pressed(m, Key::Char('l'), now, id, zoom) == seq![ActionModel::Move(Motion::Right(1))],
        pressed(m, Key::Right, now, id, zoom) == seq![ActionModel::Move(Motion::Right(1))],
        pressed(m, Key::Char('k'), now, id, zoom) == seq![ActionModel::Move(Motion::Up(1))],
        pressed(m, Key::Up, now, id, zoom) == seq![ActionModel::Move(Motion::Up(1))],
        pressed(m, Key::Char('j'), now, id, zoom) == seq![ActionModel::Move(Motion::Down(1))],
        pressed(m, Key::Down, now, id, zoom) == seq![ActionModel::Move(Motion::Down(1))],
        pressed(m, Key::Char('H'), now, id, zoom) == seq![ActionModel::Move(Motion::Left(5))],
        pressed(m, Key::Char('L'), now, id, zoom) == seq![ActionModel::Move(Motion::Right(5))],
        pressed(m, Key::Char('K'), now, id, zoom) == seq![ActionModel::Move(Motion::Up(5))],
        pressed(m, Key::Char('J'), now, id, zoom) == seq![ActionModel::Move(Motion::Down(5))],
        pressed(m, Key::Char('+'), now, id, zoom) == seq![
            ActionModel::Move(Motion::ZoomIn(125, None)),
        ],
        pressed(m, Key::Char('='), now, id, zoom) == seq![
            ActionModel::Move(Motion::ZoomIn(125, None)),
        ],
        pressed(m, Key::Char('-'), now, id, zoom) == seq![
            ActionModel::Move(Motion::ZoomOut(125, None)),
        ],
        pressed(m, Key::Char('_'), now, id, zoom) == seq![
            ActionModel::Move(Motion::ZoomOut(125, None)),
        ],
        pressed(m, Key::Char('1'), now, id, zoom) == seq![ActionModel::Move(Motion::ActualSize)],
        pressed(m, Key::Char('w'), now, id, zoom) == seq![ActionModel::Move(Motion::FitWidth)],
{
    lemma_moved(m, Key::Char('h'), now, id, zoom);
    lemma_moved(m, Key::Left, now, id, zoom);
    lemma_moved(m, Key::Char('l'), now, id, zoom);
    lemma_moved(m, Key::Right, now, id, zoom);
    lemma_moved(m, Key::Char('k'), now, id, zoom);
    lemma_moved(m, Key::Up, now, id, zoom);
    lemma_moved(m, Key::Char('j'), now, id, zoom);
    lemma_moved(m, Key::Down, now, id, zoom);
    lemma_moved(m, Key::Char('H'), now, id, zoom);
    lemma_moved(m, Key::Char('L'), now, id, zoom);
    lemma_moved(m, Key::Char('K'), now, id, zoom);
    lemma_moved(m, Key::Char('J'), now, id, zoom);
    lemma_moved(m, Key::Char('+'), now, id, zoom);
    lemma_moved(m, Key::Char('='), now, id, zoom);
    lemma_moved(m, Key::Char('-'), now, id, zoom);
    lemma_moved(m, Key::Char('_'), now, id, zoom);
    lemma_moved(m, Key::Char('1'), now, id, zoom);
    lemma_moved(m, Key::Char('w'), now, id, zoom);
}

/// A key that ends the viewer moves nothing.
proof fn lemma_left(m: ViewerModel, key: Key, now: u64, id: u32, zoom: u64)
    requires
        key == Key::Char('q') || key == Key::Escape || key == Key::Ctrl('c'),
    ensures
        pressed(m, key, now, id, zoom) == Seq::<ActionModel>::empty(),
        after_key(m, key, now, id, zoom).index == m.index,
        after_key(m, key, now, id, zoom).diagrams == m.diagrams,
{
    reveal(pressed);
    reveal(after_key);
    let own = ViewerModel { session: super::tick_step(m.session, now).0, ..m };
    assert(viewer::key_step(own, key).1 == Seq::<ActionModel>::empty());
    assert(super::asked_colors(false) + Seq::<ActionModel>::empty() =~= Seq::empty());
}

/// Keys that are not listed move nothing, and neither does any key while there is nothing to
/// look at.
pub proof fn other_keys_move_nothing(m: ViewerModel, key: Key, now: u64, id: u32, zoom: u64)
    requires
        m.camera is None || m.size is None || match key {
            Key::Char(c) => !seq![
                'h',
                'l',
                'k',
                'j',
                'H',
                'L',
                'K',
                'J',
                '+',
                '=',
                '-',
                '_',
                '1',
                'w',
            ].contains(c),
            Key::Left | Key::Right | Key::Up | Key::Down => false,
            _ => true,
        },
    ensures
        forall|i: int|
            0 <= i < pressed(m, key, now, id, zoom).len() ==> !(#[trigger] pressed(
                m,
                key,
                now,
                id,
                zoom,
            )[i] is Move),
{
    let all = seq!['h', 'l', 'k', 'j', 'H', 'L', 'K', 'J', '+', '=', '-', '_', '1', 'w'];
    assert(all[0] == 'h' && all[1] == 'l' && all[2] == 'k' && all[3] == 'j' && all[4] == 'H'
        && all[5] == 'L' && all[6] == 'K' && all[7] == 'J' && all[8] == '+' && all[9] == '='
        && all[10] == '-' && all[11] == '_' && all[12] == '1' && all[13] == 'w');
    if key != Key::Char('q') && key != Key::Escape && key != Key::Ctrl('c') {
        lemma_pressed(m, key, now, id, zoom);
        if let Key::Char(c) = key {
            if viewer::motion_of(key) is Some {
                assert(all.contains(c));
            }
        }
    } else {
        lemma_left(m, key, now, id, zoom);
    }
}

/// With several diagrams, `n`, Page Down and Tab go to the next one, `p` and Page Up to the
/// previous one, Home to the first and End to the last. The new diagram is fitted and drawn.
pub proof fn viewer_keys_change_diagrams(m: ViewerModel, key: Key, now: u64, id: u32, zoom: u64)
    requires
        m.diagrams.len() > 1,
        0 <= m.index < m.diagrams.len(),
    ensures
        ({
            let count = m.diagrams.len() as int;
            let then = after_key(m, key, now, id, zoom);
            let on = key == Key::Char('n') || key == Key::PageDown || key == Key::Tab;
            let back = key == Key::Char('p') || key == Key::PageUp;
            &&& on ==> then.index == (m.index + 1) % count
            &&& back ==> then.index == (m.index + count - 1) % count
            &&& key == Key::Home ==> then.index == 0
            &&& key == Key::End ==> then.index == count - 1
            &&& !on && !back && key != Key::Home && key != Key::End ==> then.index == m.index
            &&& on || back || key == Key::Home || key == Key::End ==> {
                &&& then.camera is None
                &&& then.stale
                &&& pressed(m, key, now, id, zoom) == Seq::<ActionModel>::empty()
                &&& !m.busy ==> {
                    &&& viewer::pump_step(then, zoom).1 matches Some(job)
                    &&& job.index == then.index
                    &&& job.source == m.diagrams[then.index].text
                    &&& job.camera is None
                }
            }
            &&& then.diagrams == m.diagrams
        }),
{
    if key != Key::Char('q') && key != Key::Escape && key != Key::Ctrl('c') {
        lemma_pressed(m, key, now, id, zoom);
    } else {
        lemma_left(m, key, now, id, zoom);
    }
    let count = m.diagrams.len() as int;
    let i = m.index;
    if i + 1 < count {
        vstd::arithmetic::div_mod::lemma_small_mod((i + 1) as nat, count as nat);
    } else {
        vstd::arithmetic::div_mod::lemma_mod_self_0(count);
    }
    if i > 0 {
        vstd::arithmetic::div_mod::lemma_mod_add_multiples_vanish(i - 1, count);
        vstd::arithmetic::div_mod::lemma_small_mod((i - 1) as nat, count as nat);
    } else {
        vstd::arithmetic::div_mod::lemma_small_mod((count - 1) as nat, count as nat);
    }
    assert(Seq::<ActionModel>::empty() + Seq::<ActionModel>::empty() =~= Seq::empty());
}

/// `0` fits the diagram again, `r` reads files again where there are any, and so does a change of
/// one.
pub proof fn viewer_fits_and_reads_again(m: ViewerModel, now: u64, id: u32, zoom: u64)
    ensures
        after_key(m, Key::Char('0'), now, id, zoom).camera is None,
        after_key(m, Key::Char('0'), now, id, zoom).stale,
        after_key(m, Key::Char('0'), now, id, zoom).index == m.index,
        pressed(m, Key::Char('0'), now, id, zoom) == Seq::<ActionModel>::empty(),
        m.files ==> pressed(m, Key::Char('r'), now, id, zoom) == seq![ActionModel::Read],
        !m.files ==> pressed(m, Key::Char('r'), now, id, zoom) == Seq::<ActionModel>::empty(),
        m.files ==> viewer::message_step(m, Some(Msg::Changed), now, id, zoom).1 == seq![
            ActionModel::Read,
        ],
{
    lemma_pressed(m, Key::Char('0'), now, id, zoom);
    lemma_pressed(m, Key::Char('r'), now, id, zoom);
}

/// Reading the files again keeps the selected diagram and the view of it; only where there are
/// fewer diagrams now, the last one is selected. What the files hold is drawn, and layouts that
/// were kept are dropped. Files that cannot be read change nothing.
pub proof fn the_viewer_stays_at_its_diagram(
    m: ViewerModel,
    diagrams: Seq<DiagramModel>,
    zoom: u64,
)
    requires
        viewer::in_step(m),
    ensures
        viewer::reload_step(m, None) == m,
        ({
            let then = viewer::reload_step(m, Some(diagrams));
            &&& m.index < diagrams.len() ==> then.index == m.index
            &&& 0 < diagrams.len() <= m.index ==> then.index == diagrams.len() - 1
            &&& diagrams.len() == 0 ==> then.index == 0
            &&& then.diagrams == diagrams
            &&& then.camera == m.camera
            &&& m.index < diagrams.len() && !m.busy ==> {
                &&& viewer::pump_step(then, zoom).1 matches Some(job)
                &&& job.index == m.index
                &&& job.source == diagrams[m.index].text
                &&& job.camera == m.camera
                &&& job.reload
            }
        }),
{
}

/// What the mouse asks for in the viewer.
pub open spec fn pointed_at(m: ViewerModel, mouse: Mouse, now: u64, id: u32, zoom: u64) -> (
    ViewerModel,
    Seq<ActionModel>,
) {
    let (next, actions, _) = viewer::message_step(
        m,
        Some(Msg::Input(Event::Mouse(mouse))),
        now,
        id,
        zoom,
    );
    (next, actions)
}

/// With a diagram shown, the wheel zooms around the pointer, up to zoom in and down to zoom out.
/// The left button starts a drag from where the pointer is; while it lasts, the view follows the
/// pointer, until the button is released. Other buttons do nothing. Inside tmux the pointer is in
/// the middle of the cell that it is reported in, and otherwise at the pixel.
#[verifier::spinoff_prover]
#[verifier::rlimit(60)]
pub proof fn the_mouse_drags_and_zooms(
    m: ViewerModel,
    mouse: Mouse,
    now: u64,
    id: u32,
    zoom: u64,
)
    requires
        m.camera is Some,
        m.size is Some,
    ensures
        ({
            let (then, actions) = pointed_at(m, mouse, now, id, zoom);
            let grid = m.session.grid;
            let at = if m.session.tmux {
                Point {
                    x: ((2 * mouse.x + 1) * grid.cell_w) as u128,
                    y: ((2 * mouse.y + 1) * grid.cell_h) as u128,
                }
            } else {
                Point { x: (2 * mouse.x) as u128, y: (2 * mouse.y) as u128 }
            };
            &&& mouse.kind == MouseKind::ScrollUp ==> actions == seq![
                ActionModel::Move(Motion::ZoomIn(115, Some(at))),
            ]
            &&& mouse.kind == MouseKind::ScrollDown ==> actions == seq![
                ActionModel::Move(Motion::ZoomOut(115, Some(at))),
            ]
            &&& mouse.kind == MouseKind::Press(0) ==> then.drag == Some(
                Drag { from: at, center: m.camera.unwrap().center },
            ) && actions.len() == 1 && actions[0] is Write
            &&& mouse.kind == MouseKind::Drag && m.drag is Some ==> actions == seq![
                ActionModel::Move(Motion::Follow(m.drag.unwrap(), at)),
            ]
            &&& mouse.kind == MouseKind::Drag && m.drag is None ==> actions.len() == 0
            &&& mouse.kind == MouseKind::Release ==> then.drag is None && forall|i: int|
                0 <= i < actions.len() ==> !(#[trigger] actions[i] is Move)
            &&& mouse.kind == MouseKind::Move || mouse.kind == MouseKind::Press(1) || mouse.kind
                == MouseKind::Press(2) ==> actions.len() == 0 && then.drag == m.drag
            &&& mouse.kind != MouseKind::Press(0) && mouse.kind != MouseKind::Release
                ==> then.drag == m.drag
            &&& then.index == m.index && then.camera == m.camera
        }),
{
    assert forall|s: Seq<ActionModel>| #[trigger] (Seq::<ActionModel>::empty() + s) == s by {
        assert(Seq::<ActionModel>::empty() + s =~= s);
    }
}

/// A drawing of a diagram that is no longer selected is dropped, and the selected one is drawn
/// instead.
pub proof fn late_drawings_are_dropped(
    m: ViewerModel,
    viewed: Viewed,
    now: u64,
    id: u32,
    zoom: u64,
)
    requires
        0 <= m.index < m.diagrams.len(),
        viewed.index != m.index,
    ensures
        ({
            let (then, actions, quit) = viewer::message_step(
                m,
                Some(Msg::Viewed(Box::new(viewed))),
                now,
                id,
                zoom,
            );
            &&& actions == Seq::<ActionModel>::empty()
            &&& then.camera == m.camera && then.image == m.image && then.notes == m.notes
            &&& quit == Ok::<Option<u8>, crate::term::kitty::Untransmitted>(None)
            &&& viewer::pump_step(then, zoom).1 matches Some(job) && job.source
                == m.diagrams[m.index].text
        }),
{
}

/// Nothing is asked of the worker while it is busy or while the screen is right.
pub proof fn one_drawing_at_a_time(m: ViewerModel, w: WatchModel, zoom: u64)
    ensures
        m.busy || !m.stale ==> viewer::pump_step(m, zoom) == (
            m,
            None::<viewer::JobModel>,
            Seq::<ActionModel>::empty(),
        ),
        viewer::pump_step(m, zoom).1 is Some ==> viewer::pump_step(m, zoom).0.busy
            && !viewer::pump_step(m, zoom).0.stale,
        w.busy || !w.stale ==> watch::pump_step(w) == (
            w,
            None::<super::JobModel>,
            Seq::<ActionModel>::empty(),
        ),
        watch::pump_step(w).1 is Some ==> watch::pump_step(w).0.busy && !watch::pump_step(
            w,
        ).0.stale,
{
}

// ---------------------------------------------------------------------------------------------
// The watch.

/// The watch after a key, and what the key asks for.
#[verifier::opaque]
pub open spec fn watched(m: WatchModel, key: Key, now: u64, id: u32) -> (
    WatchModel,
    Seq<ActionModel>,
) {
    let (next, actions, _) = watch::message_step(
        m,
        Some(Msg::Input(Event::Key(key))),
        now,
        id,
    );
    (next, actions)
}

/// A key is taken as the watch takes it.
proof fn lemma_watched(m: WatchModel, key: Key, now: u64, id: u32)
    ensures
        ({
            let own = WatchModel { session: super::tick_step(m.session, now).0, ..m };
            let (next, read) = watch::key_step(own, Event::Key(key));
            let (then, actions) = watched(m, key, now, id);
            &&& actions == watch::asked_reading(read)
            &&& then == next || then == (WatchModel { stale: true, ..next })
        }),
{
    reveal(watched);
    let own = WatchModel { session: super::tick_step(m.session, now).0, ..m };
    assert(super::handle_step(own.session, Event::Key(key), now).0 == own.session);
    assert(!super::handle_step(own.session, Event::Key(key), now).2);
    let actions = watch::asked_reading(watch::key_step(own, Event::Key(key)).1);
    assert(super::asked_colors(false) + actions =~= actions);
}

/// With several diagrams, `n`, `j`, Right, Down and Page Down go to the next one and `p`, `k`,
/// Left, Up and Page Up to the previous one, round and round, and it is drawn. `r` reads the files
/// again. Other keys select nothing.
pub proof fn watch_keys_change_diagrams(m: WatchModel, key: Key, now: u64, id: u32)
    requires
        0 <= m.index < m.diagrams.len(),
    ensures
        ({
            let count = m.diagrams.len() as int;
            let (then, actions) = watched(m, key, now, id);
            let on = key == Key::Char('n') || key == Key::Char('j') || key == Key::Right || key
                == Key::Down || key == Key::PageDown;
            let back = key == Key::Char('p') || key == Key::Char('k') || key == Key::Left || key
                == Key::Up || key == Key::PageUp;
            &&& on ==> then.index == (m.index + 1) % count
            &&& back ==> then.index == (m.index + count - 1) % count
            &&& !on && !back ==> then.index == m.index
            &&& count > 1 && (on || back) ==> then.stale
            &&& count > 1 && (on || back) && !m.busy ==> {
                &&& watch::pump_step(then).1 matches Some(job)
                &&& job.source == m.diagrams[then.index].text
            }
            &&& key == Key::Char('r') ==> actions == seq![ActionModel::Read]
            &&& key != Key::Char('r') ==> actions == Seq::<ActionModel>::empty()
            &&& then.diagrams == m.diagrams && then.notes == m.notes
        }),
{
    lemma_watched(m, key, now, id);
    let count = m.diagrams.len() as int;
    let i = m.index;
    if i + 1 < count {
        vstd::arithmetic::div_mod::lemma_small_mod((i + 1) as nat, count as nat);
    } else {
        vstd::arithmetic::div_mod::lemma_mod_self_0(count);
    }
    if i > 0 {
        vstd::arithmetic::div_mod::lemma_mod_add_multiples_vanish(i - 1, count);
        vstd::arithmetic::div_mod::lemma_small_mod((i - 1) as nat, count as nat);
    } else {
        vstd::arithmetic::div_mod::lemma_small_mod((count - 1) as nat, count as nat);
    }
}

/// A change of a file is answered by reading the files again.
pub proof fn changes_are_read(m: WatchModel, now: u64, id: u32)
    ensures
        watch::message_step(m, Some(Msg::Changed), now, id).1 == seq![ActionModel::Read],
        watch::message_step(m, Some(Msg::Changed), now, id).0.index == m.index,
        watch::message_step(m, Some(Msg::Changed), now, id).0.diagrams == m.diagrams,
{
}

/// Reading the files again keeps the selected diagram, which is drawn anew; only where there are
/// fewer diagrams now, the last one is selected. Files that cannot be read leave the diagrams and
/// the selection as they were, and say why.
pub proof fn the_watch_stays_at_its_diagram(
    m: WatchModel,
    diagrams: Seq<DiagramModel>,
    problem: Seq<char>,
)
    requires
        watch::in_step(m),
    ensures
        ({
            let then = watch::reload_step(m, Ok(diagrams));
            &&& m.index < diagrams.len() ==> then.index == m.index
            &&& 0 < diagrams.len() <= m.index ==> then.index == diagrams.len() - 1
            &&& diagrams.len() == 0 ==> then.index == 0
            &&& then.diagrams == diagrams
            &&& then.problem is None
            &&& then.session == m.session && then.notes == m.notes && then.busy == m.busy
            &&& m.index < diagrams.len() && !m.busy ==> {
                &&& watch::pump_step(then).1 matches Some(job)
                &&& job.source == diagrams[m.index].text
            }
        }),
        ({
            let then = watch::reload_step(m, Err(problem));
            &&& then.index == m.index
            &&& then.diagrams == m.diagrams
            &&& then.problem == Some(problem)
            &&& then.session == m.session
            &&& m.index < m.diagrams.len() && !m.busy ==> {
                &&& watch::pump_step(then).1 matches Some(job)
                &&& job.source == m.diagrams[m.index].text
            }
        }),
{
}

/// A new picture replaces the last one, and with it the error that stood below, unless the files
/// cannot be read: that is still said. The status names the diagram, its number among several and
/// the time that it took.
pub proof fn pictures_replace_errors(m: WatchModel, frame: Frame, id: u32)
    requires
        0 <= m.index < m.diagrams.len(),
    ensures
        ({
            let then = watch::rendered_step(m, Ok(frame), id).0;
            &&& then.session.region.image == Some(
                super::Shown { id, cols: frame.cols, rows: frame.rows },
            )
            &&& m.problem is None ==> then.notes.len() == 0
            &&& m.problem is Some ==> then.notes == seq![m.problem.unwrap()]
            &&& m.diagrams.len() == 1 ==> then.status == m.diagrams[0].origin + " · "@
                + text::decimal(frame.elapsed as nat) + " ms"@
            &&& m.diagrams.len() > 1 ==> then.status == m.diagrams[m.index].origin + " ["@
                + text::decimal((m.index + 1) as nat) + "/"@ + text::decimal(m.diagrams.len())
                + "]"@ + " · "@ + text::decimal(frame.elapsed as nat) + " ms"@
            &&& !then.busy
        }),
{
}

/// A render that was cancelled has nothing to say: what is shown stays.
pub proof fn cancelled_renders_say_nothing(m: WatchModel, id: u32)
    ensures
        watch::rendered_step(m, Err(Failure::Cancelled), id) == (
            WatchModel { busy: false, ..m },
            Seq::<ActionModel>::empty(),
        ),
{
}

// ---------------------------------------------------------------------------------------------
// Leaving.

/// `q` and Escape end the viewer and the watch with success, and Ctrl-C and the signals that ask
/// a program to stop end them with 130. No other key does.
pub proof fn keys_and_signals_end_live_modes(
    v: ViewerModel,
    w: WatchModel,
    key: Key,
    now: u64,
    id: u32,
    zoom: u64,
)
    ensures
        ({
            let code = if key == Key::Char('q') || key == Key::Escape {
                Some(0u8)
            } else if key == Key::Ctrl('c') {
                Some(130u8)
            } else {
                None
            };
            let input = Some(Msg::Input(Event::Key(key)));
            &&& viewer::message_step(v, input, now, id, zoom).2 == Ok::<
                Option<u8>,
                crate::term::kitty::Untransmitted,
            >(code)
            &&& watch::message_step(w, input, now, id).2 == code
        }),
        watch::message_step(w, Some(Msg::Signal(Signal::Stop)), now, id).2 == Some(130u8),
        viewer::message_step(v, Some(Msg::Signal(Signal::Stop)), now, id, zoom).2 == Ok::<
            Option<u8>,
            crate::term::kitty::Untransmitted,
        >(Some(130u8)),
{
}

} // verus!
