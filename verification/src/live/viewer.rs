//! `mer -i`: a full-screen viewer for panning and zooming around diagrams.
//!
//! Each diagram is laid out once; every change of view draws only the visible viewport at the
//! current zoom, so the picture stays sharp at any size. Where the camera goes is computed by
//! the caller, in floating point; which way it goes is decided here.

use vstd::prelude::*;

use super::{Action, ActionModel, Msg, Outcome, Session, SessionModel};
use super::watch;
use crate::diag;
use crate::diag::NO_DIAGRAM;
use crate::engine;
use crate::engine::{Failure, FailureModel};
use crate::input;
use crate::input::{Diagram, DiagramModel};
use crate::json::{Model, Value};
use crate::settings;
use crate::size::Grid;
use crate::term;
use crate::term::input::{Event, Key, Mouse, MouseKind};
use crate::term::kitty;
use crate::text;

verus! {

/// Zoom for one key press, in percent.
pub const ZOOM_STEP: u32 = 125;

/// Zoom for one scroll wheel step, in percent.
pub const SCROLL_STEP: u32 = 115;

/// What the viewer writes when it starts: the alternate screen, with mouse reports in pixels.
pub const OPENING: &'static str = "\x1b[?1049h\x1b[?1002h\x1b[?1006h\x1b[?1016h";

/// What the viewer shows: device pixels per SVG unit, and the SVG point at the viewport center.
/// The numbers are the bits of single-precision floats.
#[derive(Clone, Copy, Debug, PartialEq, Eq)]
pub struct Camera {
    pub scale: u32,
    pub center: (u32, u32),
}

/// The visible part of a diagram, drawn.
pub struct Shot {
    /// Straight RGBA pixels.
    pub rgba: Vec<u8>,
    pub pixels: (u32, u32),
    pub cells: (u16, u16),
    /// The diagram's size in SVG units, as the bits of single-precision floats.
    pub size: (u32, u32),
    pub camera: Camera,
    /// How long drawing took, in milliseconds.
    pub elapsed: u64,
}

impl Shot {
    /// Whether the shot has all its pixels and covers cells that can be addressed.
    pub open spec fn well_formed(&self) -> bool {
        &&& self.rgba@.len() == self.pixels.0 * self.pixels.1 * 4
        &&& self.cells.0 <= kitty::MAX_CELLS
        &&& self.cells.1 <= kitty::MAX_CELLS
    }

    /// What transmitting the shot as image `id` writes, or why it does not.
    pub open spec fn transmitted(&self, id: u32) -> Result<Seq<u8>, kitty::Untransmitted> {
        kitty::transmitted(id, kitty::zlib_fast(self.rgba@), self.pixels, self.cells)
    }
}

/// A finished render sent back by the worker.
pub struct Viewed {
    pub index: usize,
    pub result: Result<Shot, Failure>,
}

/// A render of the viewer.
#[derive(Debug)]
pub struct Job {
    pub index: usize,
    pub source: String,
    /// `None` fits the whole diagram.
    pub camera: Option<Camera>,
    pub grid: Grid,
    pub config: Option<Value>,
    /// The inputs were read again, so cached layouts are stale.
    pub reload: bool,
}

/// What a [`Job`] asks for.
pub struct JobModel {
    pub index: int,
    pub source: Seq<char>,
    pub camera: Option<Camera>,
    pub grid: Grid,
    pub config: Option<Model>,
    pub reload: bool,
}

impl View for Job {
    type V = JobModel;

    open spec fn view(&self) -> JobModel {
        JobModel {
            index: self.index as int,
            source: self.source@,
            camera: self.camera,
            grid: self.grid,
            config: settings::model_of(self.config),
            reload: self.reload,
        }
    }
}

impl Job {
    /// Whether layouts that were kept no longer hold: the configuration or the inputs are new.
    pub fn drops_layouts(&self) -> (r: bool)
        ensures
            r == (self.config is Some || self.reload),
    {
        self.config.is_some() || self.reload
    }
}

// ---------------------------------------------------------------------------------------------
// Where the camera goes.

/// A point of the viewport, in half pixels.
#[derive(Clone, Copy, Debug, PartialEq, Eq, Structural)]
pub struct Point {
    pub x: u128,
    pub y: u128,
}

/// The pointer went down at a point while the camera was centered somewhere.
#[derive(Clone, Copy, Debug, PartialEq, Eq)]
pub struct Drag {
    pub from: Point,
    pub center: (u32, u32),
}

/// A move of the camera.
#[derive(Clone, Copy, Debug, PartialEq, Eq)]
pub enum Motion {
    /// By so many tenths of the viewport's shorter side.
    Left(u8),
    Right(u8),
    Up(u8),
    Down(u8),
    /// Closer, by so many percent, around a point or the middle.
    ZoomIn(u32, Option<Point>),
    /// Away, by so many percent, around a point or the middle.
    ZoomOut(u32, Option<Point>),
    /// To the size at which labels match the terminal's text.
    ActualSize,
    /// To the width of the diagram.
    FitWidth,
    /// With the pointer, which is now at a point.
    Follow(Drag, Point),
}

/// The move that a key stands for.
pub open spec fn motion_of(key: Key) -> Option<Motion> {
    match key {
        Key::Char('h') | Key::Left => Some(Motion::Left(1)),
        Key::Char('l') | Key::Right => Some(Motion::Right(1)),
        Key::Char('k') | Key::Up => Some(Motion::Up(1)),
        Key::Char('j') | Key::Down => Some(Motion::Down(1)),
        Key::Char('H') => Some(Motion::Left(5)),
        Key::Char('L') => Some(Motion::Right(5)),
        Key::Char('K') => Some(Motion::Up(5)),
        Key::Char('J') => Some(Motion::Down(5)),
        Key::Char('+') | Key::Char('=') => Some(Motion::ZoomIn(ZOOM_STEP, None)),
        Key::Char('-') | Key::Char('_') => Some(Motion::ZoomOut(ZOOM_STEP, None)),
        Key::Char('1') => Some(Motion::ActualSize),
        Key::Char('w') => Some(Motion::FitWidth),
        _ => None,
    }
}

fn motion(key: Key) -> (r: Option<Motion>)
    ensures
        r == motion_of(key),
{
    match key {
        Key::Char('h') | Key::Left => Some(Motion::Left(1)),
        Key::Char('l') | Key::Right => Some(Motion::Right(1)),
        Key::Char('k') | Key::Up => Some(Motion::Up(1)),
        Key::Char('j') | Key::Down => Some(Motion::Down(1)),
        Key::Char('H') => Some(Motion::Left(5)),
        Key::Char('L') => Some(Motion::Right(5)),
        Key::Char('K') => Some(Motion::Up(5)),
        Key::Char('J') => Some(Motion::Down(5)),
        Key::Char('+') | Key::Char('=') => Some(Motion::ZoomIn(ZOOM_STEP, None)),
        Key::Char('-') | Key::Char('_') => Some(Motion::ZoomOut(ZOOM_STEP, None)),
        Key::Char('1') => Some(Motion::ActualSize),
        Key::Char('w') => Some(Motion::FitWidth),
        _ => None,
    }
}

/// The pointer in half pixels of the viewport. Inside tmux, which reports cells, the cell's
/// center stands in for it.
pub open spec fn pointed(mouse: Mouse, grid: Grid, tmux: bool) -> Point {
    if tmux {
        Point {
            x: ((2 * mouse.x + 1) * grid.cell_w) as u128,
            y: ((2 * mouse.y + 1) * grid.cell_h) as u128,
        }
    } else {
        Point { x: (2 * mouse.x) as u128, y: (2 * mouse.y) as u128 }
    }
}

/// The pointer in half pixels of the viewport.
pub fn pointer(mouse: &Mouse, grid: &Grid, tmux: bool) -> (point: Point)
    ensures
        point == pointed(*mouse, *grid, tmux),
{
    if tmux {
        let x: u128 = 2 * mouse.x as u128 + 1;
        let y: u128 = 2 * mouse.y as u128 + 1;
        proof {
            let w = grid.cell_w as int;
            let h = grid.cell_h as int;
            assert(0 <= x * w <= 0x2_0000_0000 * 0x1_0000_0000) by (nonlinear_arith)
                requires
                    0 <= x <= 0x2_0000_0000,
                    0 <= w <= 0x1_0000_0000,
            ;
            assert(0 <= y * h <= 0x2_0000_0000 * 0x1_0000_0000) by (nonlinear_arith)
                requires
                    0 <= y <= 0x2_0000_0000,
                    0 <= h <= 0x1_0000_0000,
            ;
        }
        Point { x: x * grid.cell_w as u128, y: y * grid.cell_h as u128 }
    } else {
        Point { x: 2 * mouse.x as u128, y: 2 * mouse.y as u128 }
    }
}

// ---------------------------------------------------------------------------------------------
// The viewer.

/// Diagrams that are looked at, one at a time.
#[derive(Debug)]
pub struct Viewer {
    session: Session,
    /// Whether the diagrams come from files, which can be read again.
    files: bool,
    diagrams: Vec<Diagram>,
    index: usize,
    camera: Option<Camera>,
    /// The size of the diagram that is shown.
    size: Option<(u32, u32)>,
    busy: bool,
    /// The screen no longer matches the view, grid or colors.
    stale: bool,
    reload: bool,
    drag: Option<Drag>,
    image: Option<u32>,
    elapsed: u64,
    /// Error lines shown instead of a diagram.
    notes: Vec<String>,
}

/// What a [`Viewer`] holds.
pub struct ViewerModel {
    pub session: SessionModel,
    pub files: bool,
    pub diagrams: Seq<DiagramModel>,
    pub index: int,
    pub camera: Option<Camera>,
    pub size: Option<(u32, u32)>,
    pub busy: bool,
    pub stale: bool,
    pub reload: bool,
    pub drag: Option<Drag>,
    pub image: Option<u32>,
    pub elapsed: u64,
    pub notes: Seq<Seq<char>>,
}

impl View for Viewer {
    type V = ViewerModel;

    closed spec fn view(&self) -> ViewerModel {
        ViewerModel {
            session: self.session@,
            files: self.files,
            diagrams: input::models(self.diagrams@),
            index: self.index as int,
            camera: self.camera,
            size: self.size,
            busy: self.busy,
            stale: self.stale,
            reload: self.reload,
            drag: self.drag,
            image: self.image,
            elapsed: self.elapsed,
            notes: text::views(self.notes@),
        }
    }
}

/// Whether one of the viewer's diagrams is selected, if it has any.
pub open spec fn in_step(m: ViewerModel) -> bool {
    watch::selects(m.index, m.diagrams.len() as int)
}

/// A viewer that has shown nothing.
pub open spec fn opened(session: SessionModel, diagrams: Seq<DiagramModel>, files: bool)
    -> ViewerModel {
    ViewerModel {
        session,
        files,
        diagrams,
        index: 0,
        camera: None,
        size: None,
        busy: false,
        stale: true,
        reload: false,
        drag: None,
        image: None,
        elapsed: 0,
        notes: Seq::empty(),
    }
}

/// The image area: the whole terminal but the status line.
pub open spec fn viewport_of(grid: Grid) -> Grid {
    Grid {
        rows: if grid.rows > 2 {
            (grid.rows - 1) as u16
        } else {
            1
        },
        ..grid
    }
}

/// The viewer after another diagram was selected: it is to be fitted.
pub open spec fn select_step(m: ViewerModel, index: int) -> ViewerModel {
    ViewerModel { index, camera: None, size: None, stale: true, ..m }
}

/// What reading the files again does. Diagrams that could not be read stay as they were.
pub open spec fn reload_step(m: ViewerModel, read: Option<Seq<DiagramModel>>) -> ViewerModel {
    match read {
        Some(diagrams) => ViewerModel {
            diagrams,
            index: watch::still(m.index, diagrams.len() as int),
            reload: true,
            stale: true,
            ..m
        },
        None => m,
    }
}

/// A move of the camera, where there is something to move around.
pub open spec fn movable(m: ViewerModel, motion: Option<Motion>) -> Seq<ActionModel> {
    match motion {
        Some(motion) => if m.camera is Some && m.size is Some {
            seq![ActionModel::Move(motion)]
        } else {
            Seq::empty()
        },
        None => Seq::empty(),
    }
}

/// Whether a key goes to the next diagram.
pub open spec fn goes_on(key: Key) -> bool {
    key == Key::Char('n') || key == Key::PageDown || key == Key::Tab
}

/// With several diagrams, `n` goes to the next and `p` to the previous one, round and round, and
/// Home and End to the first and the last. Each of them fits the new diagram and marks the screen
/// stale.
pub proof fn keys_select_diagrams(m: ViewerModel)
    requires
        m.diagrams.len() > 1,
        0 <= m.index < m.diagrams.len(),
    ensures
        ({
            let count = m.diagrams.len() as int;
            let next = key_step(m, Key::Char('n')).0;
            let previous = key_step(m, Key::Char('p')).0;
            let home = key_step(m, Key::Home).0;
            let end = key_step(m, Key::End).0;
            &&& next == select_step(m, (m.index + 1) % count)
            &&& previous == select_step(m, (m.index + count - 1) % count)
            &&& home == select_step(m, 0)
            &&& end == select_step(m, count - 1)
            &&& forall|key: Key|
                #![trigger key_step(m, key)]
                goes_on(key) || goes_back(key) || key == Key::Home || key == Key::End ==> {
                    let then = key_step(m, key).0;
                    &&& 0 <= then.index < count
                    &&& then.stale
                    &&& then.camera is None
                    &&& then.size is None
                    &&& then.diagrams == m.diagrams
                }
        }),
{
    let count = m.diagrams.len() as int;
    let i = m.index;
    if i + 1 < count {
        vstd::arithmetic::div_mod::lemma_small_mod((i + 1) as nat, count as nat);
    } else {
        vstd::arithmetic::div_mod::lemma_mod_self_0(count);
    }
    if i > 0 {
        vstd::arithmetic::div_mod::lemma_mod_add_multiples_vanish(i - 1, count);
        vstd::arithmetic::div_mod::lemma_small_mod((i - 1) as nat, count as nat);
    } else {
        vstd::arithmetic::div_mod::lemma_small_mod((count - 1) as nat, count as nat);
    }
}

/// Going on to the next diagram and back again, or the other way round, ends where it started.
pub proof fn going_back_undoes_going_on(m: ViewerModel, on: Key, back: Key)
    requires
        in_step(m),
        m.index < m.diagrams.len(),
        goes_on(on),
        goes_back(back),
    ensures
        key_step(key_step(m, on).0, back).0.index == m.index,
        key_step(key_step(m, back).0, on).0.index == m.index,
{
    if m.diagrams.len() > 1 {
        watch::next_and_previous_undo_each_other(m.index, m.diagrams.len() as int);
    }
}

/// Whether a key goes to the previous diagram.
pub open spec fn goes_back(key: Key) -> bool {
    key == Key::Char('p') || key == Key::PageUp
}

/// What a key does: the viewer after it, and what it asks for.
pub open spec fn key_step(m: ViewerModel, key: Key) -> (ViewerModel, Seq<ActionModel>) {
    let count = m.diagrams.len() as int;
    if count > 1 && goes_on(key) {
        (select_step(m, watch::following(m.index, count)), Seq::empty())
    } else if count > 1 && goes_back(key) {
        (select_step(m, watch::preceding(m.index, count)), Seq::empty())
    } else if count > 1 && key == Key::Home {
        (select_step(m, 0), Seq::empty())
    } else if count > 1 && key == Key::End {
        (select_step(m, count - 1), Seq::empty())
    } else if key == Key::Char('r') {
        (m, watch::asked_reading(m.files))
    } else if key == Key::Char('0') {
        // The worker fits the diagram again.
        (ViewerModel { camera: None, stale: true, ..m }, Seq::empty())
    } else {
        (m, movable(m, motion_of(key)))
    }
}

/// What changes the shape of the pointer.
pub open spec fn pointer_shape(shape: Seq<char>, tmux: bool) -> ActionModel {
    ActionModel::Write(
        term::prepared(vstd::utf8::encode_utf8("\x1b]22;"@ + shape + "\x1b\\"@), tmux),
    )
}

/// What the mouse does: the viewer after it, and what it asks for. There has to be something to
/// look at.
pub open spec fn mouse_step(m: ViewerModel, mouse: Mouse) -> (ViewerModel, Seq<ActionModel>) {
    let point = pointed(mouse, m.session.grid, m.session.tmux);
    match (m.camera, m.size) {
        (Some(camera), Some(_)) => match mouse.kind {
            MouseKind::Press(0) => (
                ViewerModel { drag: Some(Drag { from: point, center: camera.center }), ..m },
                seq![pointer_shape("grabbing"@, m.session.tmux)],
            ),
            MouseKind::Drag => match m.drag {
                Some(drag) => (m, seq![ActionModel::Move(Motion::Follow(drag, point))]),
                None => (m, Seq::empty()),
            },
            MouseKind::Release => if m.drag is Some {
                (
                    ViewerModel { drag: None, ..m },
                    seq![pointer_shape("default"@, m.session.tmux)],
                )
            } else {
                (m, Seq::empty())
            },
            MouseKind::ScrollUp => (
                m,
                seq![ActionModel::Move(Motion::ZoomIn(SCROLL_STEP, Some(point)))],
            ),
            MouseKind::ScrollDown => (
                m,
                seq![ActionModel::Move(Motion::ZoomOut(SCROLL_STEP, Some(point)))],
            ),
            _ => (m, Seq::empty()),
        },
        _ => (m, Seq::empty()),
    }
}

/// What an event does to the camera or the selection.
pub open spec fn input_step(m: ViewerModel, event: Event) -> (ViewerModel, Seq<ActionModel>) {
    match event {
        Event::Key(key) => key_step(m, key),
        Event::Mouse(mouse) => mouse_step(m, mouse),
        _ => (m, Seq::empty()),
    }
}

// ---------------------------------------------------------------------------------------------
// What the screen shows.

/// What stands before the zoom in the status line: where the diagram is from, what it is about,
/// and which of several it is.
pub open spec fn heading(m: ViewerModel) -> Seq<char> {
    let diagram = m.diagrams[m.index];
    let named = match diagram.caption {
        Some(caption) => diagram.origin + " › "@ + caption,
        None => diagram.origin,
    };
    if m.diagrams.len() > 1 {
        named + " · "@ + text::decimal((m.index + 1) as nat) + "/"@ + text::decimal(
            m.diagrams.len(),
        )
    } else {
        named
    }
}

/// The status line, given the zoom in percent of the actual size.
pub open spec fn status_of(m: ViewerModel, zoom: u64) -> Seq<char> {
    if m.index < m.diagrams.len() {
        let zoomed = if m.camera is Some {
            heading(m) + " · "@ + text::decimal(zoom as nat) + "%"@
        } else {
            heading(m)
        };
        let told = zoomed + " · "@ + text::decimal(m.elapsed as nat)
            + " ms · arrows pan · +/- zoom · 0 fit · 1 actual size"@;
        let all = if m.diagrams.len() > 1 {
            told + " · n/p diagram"@
        } else {
            told
        };
        super::dimmed(all + " · q quit"@)
    } else {
        super::dimmed("q to quit"@)
    }
}

/// What writing the status line writes.
pub open spec fn status_bytes(m: ViewerModel, zoom: u64) -> Seq<u8> {
    let grid = m.session.grid;
    vstd::utf8::encode_utf8(
        "\x1b["@ + text::decimal(grid.rows as nat) + ";1H\x1b[2K"@ + super::fitted(
            status_of(m, zoom),
            grid.cols,
        ),
    )
}

/// The sequence that starts a new screen.
pub open spec fn cleared() -> Seq<u8> {
    vstd::utf8::encode_utf8("\x1b[?2026h\x1b[H\x1b[2J"@)
}

/// The sequence that frees an image, where there is one.
pub open spec fn freed(image: Option<u32>) -> Seq<u8> {
    match image {
        Some(id) => kitty::deletion(id),
        None => Seq::empty(),
    }
}

/// The first `rows` lines of a full-screen placeholder grid.
pub open spec fn screen_lines(id: u32, cols: int, rows: int) -> Seq<char>
    decreases rows,
{
    if rows <= 0 {
        Seq::empty()
    } else {
        screen_lines(id, cols, rows - 1) + kitty::placeholders(id, rows - 1, cols) + "\r\n"@
    }
}

/// What drawing a shot writes, given what transmitting it writes.
pub open spec fn shot_bytes(
    m: ViewerModel,
    transmitted: Seq<u8>,
    cells: (u16, u16),
    id: u32,
    zoom: u64,
) -> Seq<u8> {
    cleared() + transmitted + vstd::utf8::encode_utf8(
        screen_lines(id, cells.0 as int, cells.1 as int),
    ) + status_bytes(m, zoom) + freed(m.image) + vstd::utf8::encode_utf8("\x1b[?2026l"@)
}

/// What drawing a shot does.
pub open spec fn draw_step(m: ViewerModel, shot: Shot, id: u32, zoom: u64) -> (
    ViewerModel,
    Seq<ActionModel>,
    Result<(), kitty::Untransmitted>,
) {
    match shot.transmitted(id) {
        Ok(bytes) => (
            ViewerModel { image: Some(id), ..m },
            seq![
                ActionModel::Write(
                    term::prepared(
                        shot_bytes(m, bytes, shot.cells, id, zoom),
                        m.session.tmux,
                    ),
                ),
            ],
            Ok(()),
        ),
        Err(why) => (m, Seq::empty(), Err(why)),
    }
}

/// The first `n` notes, one line each.
pub open spec fn note_lines(notes: Seq<Seq<char>>, n: int, width: u16) -> Seq<u8>
    decreases n,
{
    if n <= 0 {
        Seq::empty()
    } else {
        note_lines(notes, n - 1, width) + vstd::utf8::encode_utf8(
            super::fitted(notes[n - 1], width) + "\r\n"@,
        )
    }
}

/// How many notes fit the screen.
pub open spec fn notes_shown(notes: int, rows: u16) -> int {
    if notes < rows {
        notes
    } else if rows > 0 {
        rows - 1
    } else {
        0
    }
}

/// What drawing notes writes.
pub open spec fn note_screen(m: ViewerModel, zoom: u64) -> Seq<u8> {
    cleared() + note_lines(
        m.notes,
        notes_shown(m.notes.len() as int, m.session.grid.rows),
        m.session.grid.cols,
    ) + status_bytes(m, zoom) + freed(m.image) + vstd::utf8::encode_utf8("\x1b[?2026l"@)
}

/// What drawing notes does.
pub open spec fn notes_step(m: ViewerModel, zoom: u64) -> (ViewerModel, ActionModel) {
    (
        ViewerModel { image: None, ..m },
        ActionModel::Write(term::prepared(note_screen(m, zoom), m.session.tmux)),
    )
}

/// What is due: a render when the screen is stale, or a note when there is no diagram.
pub open spec fn pump_step(m: ViewerModel, zoom: u64) -> (
    ViewerModel,
    Option<JobModel>,
    Seq<ActionModel>,
) {
    if m.busy || !m.stale {
        (m, None, Seq::empty())
    } else if m.index < m.diagrams.len() {
        (
            ViewerModel {
                stale: false,
                busy: true,
                reload: false,
                session: SessionModel { config: None, ..m.session },
                ..m
            },
            Some(
                JobModel {
                    index: m.index,
                    source: m.diagrams[m.index].text,
                    camera: m.camera,
                    grid: viewport_of(m.session.grid),
                    config: m.session.config,
                    reload: m.reload,
                },
            ),
            Seq::empty(),
        )
    } else {
        let (next, write) = notes_step(
            ViewerModel { stale: false, notes: seq![NO_DIAGRAM@], ..m },
            zoom,
        );
        (next, None, seq![write])
    }
}

/// What the shot of the selected diagram does: it is drawn, and drawn again when the viewport
/// has changed meanwhile.
pub open spec fn shot_step(m: ViewerModel, shot: Shot, id: u32, zoom: u64) -> (
    ViewerModel,
    Seq<ActionModel>,
    Result<(), kitty::Untransmitted>,
) {
    let viewport = viewport_of(m.session.grid);
    draw_step(
        ViewerModel {
            camera: match m.camera {
                Some(camera) => Some(camera),
                None => Some(shot.camera),
            },
            size: Some(shot.size),
            elapsed: shot.elapsed,
            notes: Seq::empty(),
            stale: m.stale || shot.cells.0 != viewport.cols || shot.cells.1 != viewport.rows,
            ..m
        },
        shot,
        id,
        zoom,
    )
}

/// What a failed render of the selected diagram does: the error is shown. Where the diagram is
/// gone the screen is stale.
pub open spec fn failed_step(m: ViewerModel, failure: FailureModel, zoom: u64) -> (
    ViewerModel,
    Seq<ActionModel>,
) {
    match engine::told(failure) {
        Some(diagnostic) => if m.index < m.diagrams.len() {
            let lines = text::lines(diag::formatted(diagnostic, m.diagrams[m.index], true));
            let (next, write) = notes_step(ViewerModel { notes: lines, ..m }, zoom);
            (next, seq![write])
        } else {
            (ViewerModel { stale: true, ..m }, Seq::empty())
        },
        None => (m, Seq::empty()),
    }
}

/// What a finished render does. One of a diagram that is no longer selected is dropped.
pub open spec fn viewed_step(m: ViewerModel, viewed: Viewed, id: u32, zoom: u64) -> (
    ViewerModel,
    Seq<ActionModel>,
    Result<(), kitty::Untransmitted>,
) {
    let idle = ViewerModel { busy: false, ..m };
    if viewed.index != m.index {
        (ViewerModel { stale: true, ..idle }, Seq::empty(), Ok(()))
    } else {
        match viewed.result {
            Ok(shot) => shot_step(idle, shot, id, zoom),
            Err(failure) => {
                let (next, actions) = failed_step(idle, failure@, zoom);
                (next, actions, Ok(()))
            },
        }
    }
}

/// What a message does, before what it asks for is done.
pub open spec fn heard(m: ViewerModel, message: Option<Msg>, now: u64, id: u32, zoom: u64) -> (
    ViewerModel,
    Seq<ActionModel>,
    Result<Outcome, kitty::Untransmitted>,
) {
    match message {
        Some(Msg::Input(event)) => {
            let (session, outcome, ask) = super::handle_step(m.session, event, now);
            let (next, actions) = input_step(ViewerModel { session, ..m }, event);
            (next, super::asked_colors(ask) + actions, Ok(outcome))
        },
        Some(Msg::Signal(signal)) => {
            let (session, outcome) = super::signal_step(m.session, signal);
            (ViewerModel { session, ..m }, Seq::empty(), Ok(outcome))
        },
        Some(Msg::Viewed(viewed)) => {
            let (next, actions, done) = viewed_step(m, *viewed, id, zoom);
            match done {
                Ok(()) => (next, actions, Ok(Outcome::Continue)),
                Err(why) => (next, actions, Err(why)),
            }
        },
        Some(Msg::Changed) => (m, watch::asked_reading(m.files), Ok(Outcome::Continue)),
        Some(Msg::Stdin(_)) | Some(Msg::StdinEnd) | Some(Msg::Rendered(_)) | None => (
            m,
            Seq::empty(),
            Ok(Outcome::Continue),
        ),
    }
}

/// What one pass of the main loop does. Says with which code to stop.
pub open spec fn message_step(m: ViewerModel, message: Option<Msg>, now: u64, id: u32, zoom: u64)
    -> (ViewerModel, Seq<ActionModel>, Result<Option<u8>, kitty::Untransmitted>) {
    let (session, ticked) = super::tick_step(m.session, now);
    let (next, actions, outcome) = heard(ViewerModel { session, ..m }, message, now, id, zoom);
    match outcome {
        Err(why) => (next, actions, Err(why)),
        Ok(outcome) => match super::either(ticked, outcome) {
            Outcome::Quit(code) => (next, actions, Ok(Some(code))),
            Outcome::Redraw => (ViewerModel { stale: true, ..next }, actions, Ok(None)),
            Outcome::Continue => (next, actions, Ok(None)),
        },
    }
}

/// Whether a message can be taken: a shot it brings can be shown.
pub open spec fn acceptable(message: Option<Msg>) -> bool {
    match message {
        Some(Msg::Viewed(viewed)) => viewed.result matches Ok(shot) ==> shot.well_formed(),
        _ => true,
    }
}

/// What is written when the viewer ends: the image is freed and the screen restored.
pub open spec fn closing(image: Option<u32>, tmux: bool) -> Seq<u8> {
    term::prepared(
        freed(image) + vstd::utf8::encode_utf8(
            "\x1b]22;default\x1b\\\x1b[?1016l\x1b[?1006l\x1b[?1002l\x1b[?1049l"@,
        ),
        tmux,
    )
}

/// Appends the placeholder grid of a full screen.
fn push_cells(out: &mut Vec<u8>, id: u32, cells: (u16, u16))
    requires
        cells.0 <= kitty::MAX_CELLS,
        cells.1 <= kitty::MAX_CELLS,
    ensures
        final(out)@ == old(out)@ + vstd::utf8::encode_utf8(
            screen_lines(id, cells.0 as int, cells.1 as int),
        ),
{
    let mut lines = String::new();
    let mut row: u16 = 0;
    assert(lines@ =~= screen_lines(id, cells.0 as int, 0));
    while row < cells.1
        invariant
            row <= cells.1 <= kitty::MAX_CELLS,
            cells.0 <= kitty::MAX_CELLS,
            lines@ == screen_lines(id, cells.0 as int, row as int),
        decreases cells.1 - row,
    {
        kitty::placeholder_row(&mut lines, id, row, cells.0);
        lines.append("\r\n");
        row += 1;
    }
    text::push_text(out, lines.as_str());
}

impl Viewer {
    /// A viewer of diagrams. Those from files can be read again.
    pub fn new(session: Session, diagrams: Vec<Diagram>, files: bool) -> (viewer: Viewer)
        ensures
            viewer@ == opened(session@, input::models(diagrams@), files),
            in_step(viewer@),
    {
        let viewer = Viewer {
            session,
            files,
            diagrams,
            index: 0,
            camera: None,
            size: None,
            busy: false,
            stale: true,
            reload: false,
            drag: None,
            image: None,
            elapsed: 0,
            notes: Vec::new(),
        };
        assert(text::views(viewer.notes@) =~= Seq::empty());
        viewer
    }

    /// Where the camera is, once a diagram was shown.
    pub fn camera(&self) -> (camera: Option<Camera>)
        ensures
            camera == self@.camera,
    {
        self.camera
    }

    /// The size of the diagram that is shown.
    pub fn size(&self) -> (size: Option<(u32, u32)>)
        ensures
            size == self@.size,
    {
        self.size
    }

    /// The grid of the terminal.
    pub fn grid(&self) -> (grid: Grid)
        ensures
            grid == self@.session.grid,
    {
        self.session.grid()
    }

    /// The image area: the whole terminal but the status line.
    pub fn viewport(&self) -> (grid: Grid)
        ensures
            grid == viewport_of(self@.session.grid),
    {
        let mut grid = self.session.grid();
        grid.rows = if grid.rows > 2 {
            grid.rows - 1
        } else {
            1
        };
        grid
    }

    /// Puts the camera where a motion takes it.
    pub fn moved(&mut self, camera: Camera)
        ensures
            final(self)@ == (ViewerModel { camera: Some(camera), stale: true, ..old(self)@ }),
    {
        self.camera = Some(camera);
        self.stale = true;
    }

    fn select(&mut self, index: usize)
        ensures
            final(self)@ == select_step(old(self)@, index as int),
    {
        self.index = index;
        self.camera = None;
        self.size = None;
        self.stale = true;
    }

    /// Takes in the diagrams that the files hold, unless one of them could not be read.
    pub fn reload(&mut self, read: Option<Vec<Diagram>>)
        requires
            in_step(old(self)@),
        ensures
            final(self)@ == reload_step(
                old(self)@,
                match read {
                    Some(diagrams) => Some(input::models(diagrams@)),
                    None => None,
                },
            ),
            in_step(final(self)@),
            read matches Some(diagrams) ==> final(self)@.index == if old(self)@.index
                < diagrams@.len() {
                old(self)@.index
            } else if diagrams@.len() > 0 {
                diagrams@.len() - 1
            } else {
                0
            },
            read is None ==> final(self)@ == old(self)@,
    {
        if let Some(diagrams) = read {
            if self.index >= diagrams.len() {
                self.index = if diagrams.len() > 0 {
                    diagrams.len() - 1
                } else {
                    0
                };
            }
            self.diagrams = diagrams;
            self.reload = true;
            self.stale = true;
        }
    }

    /// Does what a key does. With several diagrams, `n` and `p` go round them, Home goes to the
    /// first and End to the last, and the new diagram is fitted.
    #[verifier::rlimit(40)]
    pub fn key(&mut self, key: Key, actions: &mut Vec<Action>)
        requires
            in_step(old(self)@),
        ensures
            final(self)@ == key_step(old(self)@, key).0,
            super::asked(final(actions)@) == super::asked(old(actions)@) + key_step(
                old(self)@,
                key,
            ).1,
            in_step(final(self)@),
            old(self)@.diagrams.len() > 1 ==> {
                let count = old(self)@.diagrams.len() as int;
                let was = old(self)@.index;
                &&& key == Key::Char('n') ==> final(self)@.index == (was + 1) % count
                &&& key == Key::Char('p') ==> final(self)@.index == (was + count - 1) % count
                &&& key == Key::Home ==> final(self)@.index == 0
                &&& key == Key::End ==> final(self)@.index == count - 1
                &&& goes_on(key) || goes_back(key) || key == Key::Home || key == Key::End
                    ==> final(self)@.index < count && final(self)@.stale
                    && final(self)@.camera is None
            },
    {
        proof {
            if self@.diagrams.len() > 1 {
                keys_select_diagrams(self@);
            }
        }
        let ghost was = super::asked(actions@);
        assert(was + Seq::empty() =~= was);
        let count: usize = self.diagrams.len();
        if count > 1 {
            match key {
                Key::Char('n') | Key::PageDown | Key::Tab => {
                    let next: usize = if self.index + 1 < count {
                        self.index + 1
                    } else {
                        0
                    };
                    return self.select(next);
                },
                Key::Char('p') | Key::PageUp => {
                    let previous: usize = if self.index > 0 {
                        self.index - 1
                    } else {
                        count - 1
                    };
                    return self.select(previous);
                },
                Key::Home => return self.select(0),
                Key::End => return self.select(count - 1),
                _ => {},
            }
        }
        if let Key::Char('r') = key {
            if self.files {
                super::request(actions, Action::Read);
                assert(was + seq![ActionModel::Read] =~= was.push(ActionModel::Read));
            }
            return ;
        }
        if let Key::Char('0') = key {
            self.camera = None;
            self.stale = true;
            return ;
        }
        if self.camera.is_some() && self.size.is_some() {
            if let Some(motion) = motion(key) {
                super::request(actions, Action::Move(motion));
                assert(was + seq![ActionModel::Move(motion)] =~= was.push(
                    ActionModel::Move(motion),
                ));
            }
        }
    }

    fn shape_pointer(&self, shape: &str, actions: &mut Vec<Action>)
        ensures
            super::asked(final(actions)@) == super::asked(old(actions)@) + seq![
                pointer_shape(shape@, self@.session.tmux),
            ],
    {
        let ghost was = super::asked(actions@);
        let mut s = "\x1b]22;".to_string();
        s.append(shape);
        s.append("\x1b\\");
        let mut bytes: Vec<u8> = Vec::new();
        text::push_text(&mut bytes, s.as_str());
        assert(bytes@ =~= vstd::utf8::encode_utf8("\x1b]22;"@ + shape@ + "\x1b\\"@));
        let out = self.session.prepare(bytes.as_slice());
        super::request(actions, Action::Write(out));
        assert(super::asked(actions@) =~= was + seq![
            pointer_shape(shape@, self@.session.tmux),
        ]);
    }

    fn go(&self, motion: Motion, actions: &mut Vec<Action>)
        ensures
            super::asked(final(actions)@) == super::asked(old(actions)@) + seq![
                ActionModel::Move(motion),
            ],
    {
        let ghost was = super::asked(actions@);
        super::request(actions, Action::Move(motion));
        assert(super::asked(actions@) =~= was + seq![ActionModel::Move(motion)]);
    }

    fn mouse(&mut self, mouse: &Mouse, actions: &mut Vec<Action>)
        ensures
            final(self)@ == mouse_step(old(self)@, *mouse).0,
            super::asked(final(actions)@) == super::asked(old(actions)@) + mouse_step(
                old(self)@,
                *mouse,
            ).1,
    {
        let ghost was = super::asked(actions@);
        assert(was + Seq::empty() =~= was);
        let grid = self.session.grid();
        let point = pointer(mouse, &grid, self.session.inside_tmux());
        if self.size.is_none() {
            return ;
        }
        if let Some(camera) = self.camera {
            match mouse.kind {
                MouseKind::Press(0) => {
                    self.drag = Some(Drag { from: point, center: camera.center });
                    self.shape_pointer("grabbing", actions);
                },
                MouseKind::Drag => {
                    if let Some(drag) = self.drag {
                        self.go(Motion::Follow(drag, point), actions);
                    }
                },
                MouseKind::Release => {
                    if self.drag.is_some() {
                        self.drag = None;
                        self.shape_pointer("default", actions);
                    }
                },
                MouseKind::ScrollUp => {
                    self.go(Motion::ZoomIn(SCROLL_STEP, Some(point)), actions);
                },
                MouseKind::ScrollDown => {
                    self.go(Motion::ZoomOut(SCROLL_STEP, Some(point)), actions);
                },
                _ => {},
            }
        }
    }

    fn input(&mut self, event: &Event, actions: &mut Vec<Action>)
        requires
            in_step(old(self)@),
        ensures
            final(self)@ == input_step(old(self)@, *event).0,
            super::asked(final(actions)@) == super::asked(old(actions)@) + input_step(
                old(self)@,
                *event,
            ).1,
            in_step(final(self)@),
    {
        match *event {
            Event::Key(key) => self.key(key, actions),
            Event::Mouse(mouse) => self.mouse(&mouse, actions),
            _ => {
                assert(super::asked(actions@) + Seq::empty() =~= super::asked(actions@));
            },
        }
    }

    fn heading(&self) -> (s: String)
        requires
            0 <= self@.index < self@.diagrams.len(),
        ensures
            s@ == heading(self@),
    {
        let diagram = &self.diagrams[self.index];
        assert(diagram@ == self@.diagrams[self@.index]);
        let mut s = diagram.origin.clone();
        if let Some(caption) = &diagram.caption {
            s.append(" › ");
            s.append(caption.as_str());
        }
        if self.diagrams.len() > 1 {
            s.append(" · ");
            text::push_decimal(&mut s, self.index as u128 + 1);
            s.append("/");
            text::push_decimal(&mut s, self.diagrams.len() as u128);
        }
        s
    }

    /// The status line. `zoom` is where the camera is, in percent of the actual size.
    pub fn status(&self, zoom: u64) -> (s: String)
        requires
            in_step(self@),
        ensures
            s@ == status_of(self@, zoom),
    {
        if self.index >= self.diagrams.len() {
            return super::dim("q to quit");
        }
        let mut s = self.heading();
        if self.camera.is_some() {
            s.append(" · ");
            text::push_decimal(&mut s, zoom as u128);
            s.append("%");
        }
        s.append(" · ");
        text::push_decimal(&mut s, self.elapsed as u128);
        s.append(" ms · arrows pan · +/- zoom · 0 fit · 1 actual size");
        if self.diagrams.len() > 1 {
            s.append(" · n/p diagram");
        }
        s.append(" · q quit");
        super::dim(s.as_str())
    }

    fn push_status(&self, out: &mut Vec<u8>, zoom: u64)
        requires
            in_step(self@),
        ensures
            final(out)@ == old(out)@ + status_bytes(self@, zoom),
    {
        let grid = self.session.grid();
        let mut s = "\x1b[".to_string();
        text::push_decimal(&mut s, grid.rows as u128);
        s.append(";1H\x1b[2K");
        s.append(super::fit_line(self.status(zoom).as_str(), grid.cols).as_str());
        text::push_text(out, s.as_str());
    }

    fn draw(&mut self, shot: &Shot, id: u32, zoom: u64, actions: &mut Vec<Action>) -> (r: Result<
        (),
        kitty::Untransmitted,
    >)
        requires
            in_step(old(self)@),
            shot.well_formed(),
        ensures
            final(self)@ == draw_step(old(self)@, *shot, id, zoom).0,
            super::asked(final(actions)@) == super::asked(old(actions)@) + draw_step(
                old(self)@,
                *shot,
                id,
                zoom,
            ).1,
            r == draw_step(old(self)@, *shot, id, zoom).2,
    {
        let ghost was = super::asked(actions@);
        let ghost step = draw_step(self@, *shot, id, zoom);
        let mut out: Vec<u8> = Vec::new();
        text::push_text(&mut out, "\x1b[?2026h\x1b[H\x1b[2J");
        assert(out@ =~= cleared());
        match kitty::transmit_virtual(&mut out, id, &shot.rgba, shot.pixels, shot.cells) {
            Ok(()) => {},
            Err(why) => {
                assert(was + Seq::empty() =~= was);
                return Err(why);
            },
        }
        push_cells(&mut out, id, shot.cells);
        self.push_status(&mut out, zoom);
        self.free(&mut out);
        text::push_text(&mut out, "\x1b[?2026l");
        self.image = Some(id);
        let prepared = self.session.prepare(out.as_slice());
        super::request(actions, Action::Write(prepared));
        assert(super::asked(actions@) =~= was + step.1);
        Ok(())
    }

    /// Frees the image that is shown, if any.
    fn free(&self, out: &mut Vec<u8>)
        ensures
            final(out)@ == old(out)@ + freed(self@.image),
    {
        let ghost was = out@;
        match self.image {
            Some(id) => kitty::delete(out, id),
            None => {
                assert(was + Seq::empty() =~= was);
            },
        }
    }

    fn draw_notes(&mut self, zoom: u64, actions: &mut Vec<Action>)
        requires
            in_step(old(self)@),
        ensures
            final(self)@ == notes_step(old(self)@, zoom).0,
            super::asked(final(actions)@) == super::asked(old(actions)@).push(
                notes_step(old(self)@, zoom).1,
            ),
    {
        let grid = self.session.grid();
        let mut out: Vec<u8> = Vec::new();
        text::push_text(&mut out, "\x1b[?2026h\x1b[H\x1b[2J");
        assert(out@ =~= cleared());
        let shown: usize = if self.notes.len() < grid.rows as usize {
            self.notes.len()
        } else if grid.rows > 0 {
            grid.rows as usize - 1
        } else {
            0
        };
        let ghost notes = text::views(self.notes@);
        let mut i: usize = 0;
        assert(out@ =~= cleared() + note_lines(notes, 0, grid.cols));
        while i < shown
            invariant
                i <= shown <= self.notes@.len(),
                notes == text::views(self.notes@),
                out@ == cleared() + note_lines(notes, i as int, grid.cols),
            decreases shown - i,
        {
            let mut line = super::fit_line(self.notes[i].as_str(), grid.cols);
            line.append("\r\n");
            text::push_text(&mut out, line.as_str());
            i += 1;
            assert(notes[i - 1] == self.notes@[i - 1]@);
            assert(out@ =~= cleared() + note_lines(notes, i as int, grid.cols));
        }
        self.push_status(&mut out, zoom);
        self.free(&mut out);
        text::push_text(&mut out, "\x1b[?2026l");
        self.image = None;
        let prepared = self.session.prepare(out.as_slice());
        super::request(actions, Action::Write(prepared));
    }

    /// Starts a render when the screen is stale and the worker is free. `zoom` is where the
    /// camera is, in percent of the actual size.
    pub fn pump(&mut self, zoom: u64, actions: &mut Vec<Action>) -> (job: Option<Job>)
        requires
            in_step(old(self)@),
        ensures
            final(self)@ == pump_step(old(self)@, zoom).0,
            match job {
                Some(job) => pump_step(old(self)@, zoom).1 == Some(job@),
                None => pump_step(old(self)@, zoom).1 is None,
            },
            super::asked(final(actions)@) == super::asked(old(actions)@) + pump_step(
                old(self)@,
                zoom,
            ).2,
            in_step(final(self)@),
    {
        let ghost was = super::asked(actions@);
        assert(was + Seq::empty() =~= was);
        if self.busy || !self.stale {
            return None;
        }
        self.stale = false;
        if self.index >= self.diagrams.len() {
            let mut notes: Vec<String> = Vec::new();
            notes.push(NO_DIAGRAM.to_string());
            assert(text::views(notes@) =~= seq![NO_DIAGRAM@]);
            self.notes = notes;
            let ghost write = notes_step(self@, zoom).1;
            self.draw_notes(zoom, actions);
            assert(was + seq![write] =~= was.push(write));
            return None;
        }
        let source = self.diagrams[self.index].text.clone();
        assert(source@ == self@.diagrams[self@.index].text);
        let job = Job {
            index: self.index,
            source,
            camera: self.camera,
            grid: self.viewport(),
            config: self.session.take_config(),
            reload: self.reload,
        };
        self.reload = false;
        self.busy = true;
        Some(job)
    }

    /// When `message` next has something to do without a message.
    pub fn deadline(&self) -> (at: Option<u64>)
        ensures
            at == self@.session.recolor_at,
    {
        self.session.deadline()
    }

    /// Handles a finished render. `id` is for the image that may be shown, and `zoom` is where
    /// the camera is then, in percent of the actual size.
    pub fn viewed(&mut self, viewed: Viewed, id: u32, zoom: u64, actions: &mut Vec<Action>) -> (r:
        Result<(), kitty::Untransmitted>)
        requires
            in_step(old(self)@),
            viewed.result matches Ok(shot) ==> shot.well_formed(),
        ensures
            final(self)@ == viewed_step(old(self)@, viewed, id, zoom).0,
            super::asked(final(actions)@) == super::asked(old(actions)@) + viewed_step(
                old(self)@,
                viewed,
                id,
                zoom,
            ).1,
            r == viewed_step(old(self)@, viewed, id, zoom).2,
            in_step(final(self)@),
    {
        let ghost was = super::asked(actions@);
        assert(was + Seq::empty() =~= was);
        self.busy = false;
        if viewed.index != self.index {
            self.stale = true;
            return Ok(());
        }
        match viewed.result {
            Ok(shot) => {
                if self.camera.is_none() {
                    self.camera = Some(shot.camera);
                }
                self.size = Some(shot.size);
                self.elapsed = shot.elapsed;
                let none: Vec<String> = Vec::new();
                assert(text::views(none@) =~= Seq::empty());
                self.notes = none;
                let viewport = self.viewport();
                if shot.cells.0 != viewport.cols || shot.cells.1 != viewport.rows {
                    self.stale = true;
                }
                self.draw(&shot, id, zoom, actions)
            },
            Err(failure) => {
                self.fail(&failure, zoom, actions);
                Ok(())
            },
        }
    }

    fn fail(&mut self, failure: &Failure, zoom: u64, actions: &mut Vec<Action>)
        requires
            in_step(old(self)@),
        ensures
            final(self)@ == failed_step(old(self)@, failure@, zoom).0,
            super::asked(final(actions)@) == super::asked(old(actions)@) + failed_step(
                old(self)@,
                failure@,
                zoom,
            ).1,
            in_step(final(self)@),
    {
        let ghost was = super::asked(actions@);
        assert(was + Seq::empty() =~= was);
        if let Some(diagnostic) = failure.diagnostic() {
            if self.index >= self.diagrams.len() {
                self.stale = true;
                return ;
            }
            let diagram = &self.diagrams[self.index];
            assert(diagram@ == self@.diagrams[self@.index]);
            let error = diag::format(&diagnostic, diagram, true);
            let notes = text::all_lines(error.as_str());
            self.notes = notes;
            let ghost write = notes_step(self@, zoom).1;
            self.draw_notes(zoom, actions);
            assert(was + seq![write] =~= was.push(write));
        }
    }

    /// Handles one message, or the passing of a deadline. `id` is for an image that may be
    /// shown, and `zoom` is where the camera is then, in percent of the actual size. Says with
    /// which code to stop, if at all.
    pub fn message(
        &mut self,
        message: Option<Msg>,
        now: u64,
        id: u32,
        zoom: u64,
        actions: &mut Vec<Action>,
    ) -> (r: Result<Option<u8>, kitty::Untransmitted>)
        requires
            in_step(old(self)@),
            acceptable(message),
        ensures
            final(self)@ == message_step(old(self)@, message, now, id, zoom).0,
            super::asked(final(actions)@) == super::asked(old(actions)@) + message_step(
                old(self)@,
                message,
                now,
                id,
                zoom,
            ).1,
            r == message_step(old(self)@, message, now, id, zoom).2,
            in_step(final(self)@),
    {
        let ticked = self.session.tick(now);
        let outcome = match self.hear(message, now, id, zoom, actions) {
            Ok(outcome) => ticked.or(outcome),
            Err(why) => return Err(why),
        };
        match outcome {
            Outcome::Quit(code) => Ok(Some(code)),
            Outcome::Redraw => {
                self.stale = true;
                Ok(None)
            },
            Outcome::Continue => Ok(None),
        }
    }

    #[verifier::rlimit(40)]
    fn hear(
        &mut self,
        message: Option<Msg>,
        now: u64,
        id: u32,
        zoom: u64,
        actions: &mut Vec<Action>,
    ) -> (r: Result<Outcome, kitty::Untransmitted>)
        requires
            in_step(old(self)@),
            acceptable(message),
        ensures
            final(self)@ == heard(old(self)@, message, now, id, zoom).0,
            super::asked(final(actions)@) == super::asked(old(actions)@) + heard(
                old(self)@,
                message,
                now,
                id,
                zoom,
            ).1,
            r == heard(old(self)@, message, now, id, zoom).2,
            in_step(final(self)@),
    {
        let ghost was = super::asked(actions@);
        proof {
            assert(was + Seq::empty() =~= was);
            assert(was + seq![ActionModel::Read] =~= was.push(ActionModel::Read));
        }
        match message {
            Some(Msg::Input(event)) => {
                let (outcome, ask) = self.session.handle(&event, now);
                if ask {
                    super::request(actions, Action::AskColors);
                }
                assert(super::asked(actions@) =~= was + super::asked_colors(ask));
                let ghost more = input_step(self@, event).1;
                self.input(&event, actions);
                assert(super::asked(actions@) =~= was + (super::asked_colors(ask) + more));
                Ok(outcome)
            },
            Some(Msg::Signal(signal)) => Ok(self.session.signal(signal)),
            Some(Msg::Viewed(viewed)) => match self.viewed(*viewed, id, zoom, actions) {
                Ok(()) => Ok(Outcome::Continue),
                Err(why) => Err(why),
            },
            Some(Msg::Changed) => {
                if self.files {
                    super::request(actions, Action::Read);
                }
                Ok(Outcome::Continue)
            },
            Some(Msg::Stdin(_)) | Some(Msg::StdinEnd) | Some(Msg::Rendered(_)) | None => {
                Ok(Outcome::Continue)
            },
        }
    }

    /// Ends the viewer: the image is freed and the screen restored. What comes back is to be
    /// written.
    pub fn finish(&mut self) -> (out: Vec<u8>)
        ensures
            out@ == closing(old(self)@.image, old(self)@.session.tmux),
            final(self)@ == (ViewerModel { image: None, ..old(self)@ }),
    {
        let mut out: Vec<u8> = Vec::new();
        let ghost none = out@;
        self.free(&mut out);
        self.image = None;
        assert(none + freed(old(self)@.image) =~= freed(old(self)@.image));
        text::push_text(
            &mut out,
            "\x1b]22;default\x1b\\\x1b[?1016l\x1b[?1006l\x1b[?1002l\x1b[?1049l",
        );
        self.session.prepare(out.as_slice())
    }
}

} // verus!
