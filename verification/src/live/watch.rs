//! `mer -w FILE…`: the diagram is drawn again whenever a file changes.

use vstd::prelude::*;

use super::{Action, ActionModel, Job, JobModel, Msg, Outcome, Picture, Session, SessionModel};
use super::stream;
use crate::diag;
use crate::diag::NO_DIAGRAM;
use crate::engine;
use crate::engine::{Failure, FailureModel};
use crate::input;
use crate::input::{Diagram, DiagramModel};
use crate::render::Frame;
use crate::size::{Fit, Grid};
use crate::term::input::{Event, Key};
use crate::text;

verus! {

/// Files whose diagrams are shown, one at a time.
#[derive(Debug)]
pub struct Watch {
    session: Session,
    /// The first file, named when there is no diagram.
    file: String,
    diagrams: Vec<Diagram>,
    index: usize,
    busy: bool,
    /// The shown diagram no longer matches the input, grid or colors.
    stale: bool,
    /// Lines under the diagram: the latest error.
    notes: Vec<String>,
    status: String,
    /// Why the files could not be read.
    problem: Option<String>,
}

/// What a [`Watch`] holds.
pub struct WatchModel {
    pub session: SessionModel,
    pub file: Seq<char>,
    pub diagrams: Seq<DiagramModel>,
    pub index: int,
    pub busy: bool,
    pub stale: bool,
    pub notes: Seq<Seq<char>>,
    pub status: Seq<char>,
    pub problem: Option<Seq<char>>,
}

impl View for Watch {
    type V = WatchModel;

    closed spec fn view(&self) -> WatchModel {
        WatchModel {
            session: self.session@,
            file: self.file@,
            diagrams: input::models(self.diagrams@),
            index: self.index as int,
            busy: self.busy,
            stale: self.stale,
            notes: text::views(self.notes@),
            status: self.status@,
            problem: text::optional(self.problem),
        }
    }
}

/// Whether `index` is one of `count` diagrams, or 0 where there is none.
pub open spec fn selects(index: int, count: int) -> bool {
    0 <= index && (index < count || index == 0)
}

/// Whether the parts of a watch fit together: a diagram is selected if there is one, and the
/// lines that are shown can be counted.
pub open spec fn in_step(m: WatchModel) -> bool {
    &&& m.session.region.well_formed()
    &&& selects(m.index, m.diagrams.len() as int)
    &&& super::image_rows(m.session.region.image) + m.notes.len() < u16::MAX
}

/// A watch of files that have not been read.
pub open spec fn unread(session: SessionModel, file: Seq<char>) -> WatchModel {
    WatchModel {
        session,
        file,
        diagrams: Seq::empty(),
        index: 0,
        busy: false,
        stale: true,
        notes: Seq::empty(),
        status: Seq::empty(),
        problem: None,
    }
}

/// `index`, or the last of `count` diagrams when there are fewer.
pub open spec fn still(index: int, count: int) -> int {
    if index < count {
        index
    } else if count > 0 {
        count - 1
    } else {
        0
    }
}

/// What reading the files again does. What was read before stays when they cannot be read, which
/// is often a save in progress; the next change reloads.
pub open spec fn reload_step(m: WatchModel, read: Result<Seq<DiagramModel>, Seq<char>>)
    -> WatchModel {
    match read {
        Ok(diagrams) => WatchModel {
            problem: None,
            diagrams,
            index: still(m.index, diagrams.len() as int),
            stale: true,
            ..m
        },
        Err(problem) => WatchModel { problem: Some(problem), stale: true, ..m },
    }
}

/// The diagrams that were read, or why none could be.
pub open spec fn read_of(read: Result<Vec<Diagram>, String>) -> Result<
    Seq<DiagramModel>,
    Seq<char>,
> {
    match read {
        Ok(diagrams) => Ok(input::models(diagrams@)),
        Err(problem) => Err(problem@),
    }
}

/// The diagram after `index`; the first follows the last.
pub open spec fn following(index: int, count: int) -> int {
    if index + 1 < count {
        index + 1
    } else {
        0
    }
}

/// The diagram before `index`; the last precedes the first.
pub open spec fn preceding(index: int, count: int) -> int {
    if index > 0 {
        index - 1
    } else {
        count - 1
    }
}

/// Going to the next diagram and back, or the other way round, ends where it began.
pub proof fn next_and_previous_undo_each_other(index: int, count: int)
    requires
        0 <= index < count,
    ensures
        preceding(following(index, count), count) == index,
        following(preceding(index, count), count) == index,
{
}

/// Whether a key goes to the next diagram.
pub open spec fn goes_on(key: Key) -> bool {
    key == Key::Char('n') || key == Key::Char('j') || key == Key::Right || key == Key::Down || key
        == Key::PageDown
}

/// Whether a key goes to the previous diagram.
pub open spec fn goes_back(key: Key) -> bool {
    key == Key::Char('p') || key == Key::Char('k') || key == Key::Left || key == Key::Up || key
        == Key::PageUp
}

/// What a key does: the watch after it, and whether to read the files again.
pub open spec fn key_step(m: WatchModel, event: Event) -> (WatchModel, bool) {
    let count = m.diagrams.len() as int;
    match event {
        Event::Key(key) => if key == Key::Char('r') {
            (m, true)
        } else if goes_on(key) && count > 1 {
            (WatchModel { index: following(m.index, count), stale: true, ..m }, false)
        } else if goes_back(key) && count > 1 {
            (WatchModel { index: preceding(m.index, count), stale: true, ..m }, false)
        } else {
            (m, false)
        },
        _ => (m, false),
    }
}

/// The grid that a diagram has to fit: the notes, the status and one more row stand below it.
pub open spec fn room(grid: Grid, notes: int) -> Grid {
    Grid {
        rows: if grid.rows > notes + 3 {
            (grid.rows - notes - 2) as u16
        } else {
            1
        },
        ..grid
    }
}

/// The status line.
pub open spec fn status_line(status: Seq<char>) -> Seq<char> {
    super::dimmed(status + " · watching · q to quit"@)
}

/// What drawing does: the watch after it, and what is written.
pub open spec fn show_step(m: WatchModel, picture: Picture<'_>) -> (WatchModel, ActionModel) {
    let status = Some(status_line(m.status));
    (
        WatchModel { session: super::drawn_step(m.session, picture, m.notes, status), ..m },
        ActionModel::Write(
            super::session_bytes(m.session, Seq::empty(), picture, m.notes, status),
        ),
    )
}

/// What is due: a render of the selected diagram when what is shown is stale, or a note when
/// there is none.
pub open spec fn pump_step(m: WatchModel) -> (WatchModel, Option<JobModel>, Seq<ActionModel>) {
    if m.busy || !m.stale {
        (m, None, Seq::empty())
    } else if m.index < m.diagrams.len() {
        let (session, job) = stream::job_of(
            m.session,
            m.diagrams[m.index].text,
            room(m.session.grid, m.notes.len() as int),
            Fit::Contain,
        );
        (WatchModel { session, stale: false, busy: true, ..m }, Some(job), Seq::empty())
    } else {
        let note = match m.problem {
            Some(problem) => problem,
            None => NO_DIAGRAM@,
        };
        let (next, write) = show_step(
            WatchModel { stale: false, notes: seq![note], status: m.file, ..m },
            Picture::Nothing,
        );
        (next, None, seq![write])
    }
}

/// Where the shown diagram is from, and which of several it is.
pub open spec fn position(m: WatchModel) -> Seq<char> {
    let origin = m.diagrams[m.index].origin;
    if m.diagrams.len() > 1 {
        origin + " ["@ + text::decimal((m.index + 1) as nat) + "/"@ + text::decimal(
            m.diagrams.len(),
        ) + "]"@
    } else {
        origin
    }
}

/// The note about the files, where they could not be read.
pub open spec fn problem_notes(problem: Option<Seq<char>>) -> Seq<Seq<char>> {
    match problem {
        Some(problem) => seq![problem],
        None => Seq::empty(),
    }
}

/// How many lines of an error fit below what is shown.
pub open spec fn error_room(session: SessionModel) -> int {
    let shown = super::image_rows(session.region.image);
    if session.grid.rows > shown + 3 {
        session.grid.rows - shown - 2
    } else {
        1
    }
}

/// The first `n` elements of a sequence, or all where there are fewer.
pub open spec fn at_most(lines: Seq<Seq<char>>, n: int) -> Seq<Seq<char>> {
    if n < lines.len() {
        lines.take(n)
    } else {
        lines
    }
}

/// What a rendered frame does: it is shown.
pub open spec fn shown_step(m: WatchModel, frame: Frame, id: u32) -> (WatchModel, ActionModel) {
    show_step(
        WatchModel {
            notes: problem_notes(m.problem),
            status: position(m) + " · "@ + text::decimal(frame.elapsed as nat) + " ms"@,
            ..m
        },
        Picture::New(&frame, id),
    )
}

/// What a failed render does: the error is shown below the last frame.
pub open spec fn failed_step(m: WatchModel, failure: FailureModel) -> (
    WatchModel,
    Seq<ActionModel>,
) {
    match engine::told(failure) {
        Some(diagnostic) => {
            let lines = text::lines(diag::formatted(diagnostic, m.diagrams[m.index], true));
            let (next, write) = show_step(
                WatchModel {
                    notes: at_most(lines, error_room(m.session)),
                    status: position(m) + " · error"@,
                    ..m
                },
                Picture::Keep,
            );
            (next, seq![write])
        },
        None => (m, Seq::empty()),
    }
}

/// An error appears under the last good picture, which stays.
pub proof fn errors_keep_the_last_picture(m: WatchModel, failure: Failure, id: u32)
    ensures
        rendered_step(m, Err(failure), id).0.session.region.image == m.session.region.image,
{
}

/// What a finished render does.
pub open spec fn rendered_step(m: WatchModel, result: Result<Frame, Failure>, id: u32) -> (
    WatchModel,
    Seq<ActionModel>,
) {
    let idle = WatchModel { busy: false, ..m };
    if m.index >= m.diagrams.len() {
        (idle, Seq::empty())
    } else {
        match result {
            Ok(frame) => {
                let (next, write) = shown_step(idle, frame, id);
                (next, seq![write])
            },
            Err(failure) => failed_step(idle, failure@),
        }
    }
}

/// A request to read the files again, where there is one.
pub open spec fn asked_reading(read: bool) -> Seq<ActionModel> {
    if read {
        seq![ActionModel::Read]
    } else {
        Seq::empty()
    }
}

/// What a message does, before what it asks for is done.
pub open spec fn heard(m: WatchModel, message: Option<Msg>, now: u64, id: u32) -> (
    WatchModel,
    Seq<ActionModel>,
    Outcome,
) {
    match message {
        Some(Msg::Changed) => (m, seq![ActionModel::Read], Outcome::Continue),
        Some(Msg::Input(event)) => {
            let (session, outcome, ask) = super::handle_step(m.session, event, now);
            let (next, read) = key_step(WatchModel { session, ..m }, event);
            (next, super::asked_colors(ask) + asked_reading(read), outcome)
        },
        Some(Msg::Signal(signal)) => {
            let (session, outcome) = super::signal_step(m.session, signal);
            (WatchModel { session, ..m }, Seq::empty(), outcome)
        },
        Some(Msg::Rendered(result)) => {
            let (next, actions) = rendered_step(m, result, id);
            (next, actions, Outcome::Continue)
        },
        Some(Msg::Stdin(_)) | Some(Msg::StdinEnd) | Some(Msg::Viewed(_)) | None => (
            m,
            Seq::empty(),
            Outcome::Continue,
        ),
    }
}

/// What one pass of the main loop does. Says with which code to stop.
pub open spec fn message_step(m: WatchModel, message: Option<Msg>, now: u64, id: u32) -> (
    WatchModel,
    Seq<ActionModel>,
    Option<u8>,
) {
    let (session, ticked) = super::tick_step(m.session, now);
    let (next, actions, outcome) = heard(WatchModel { session, ..m }, message, now, id);
    match super::either(ticked, outcome) {
        Outcome::Quit(code) => (next, actions, Some(code)),
        Outcome::Redraw => (WatchModel { stale: true, ..next }, actions, None),
        Outcome::Continue => (next, actions, None),
    }
}

impl Watch {
    /// A watch of files, the first of which is `file`. They are still to be read.
    pub fn new(session: Session, file: String) -> (watch: Watch)
        ensures
            watch@ == unread(session@, file@),
            session@.region == (super::Region { lines: 0, image: None }) ==> in_step(watch@),
    {
        let watch = Watch {
            session,
            file,
            diagrams: Vec::new(),
            index: 0,
            busy: false,
            stale: true,
            notes: Vec::new(),
            status: String::new(),
            problem: None,
        };
        proof {
            assert(input::models(watch.diagrams@) =~= Seq::empty());
            assert(text::views(watch.notes@) =~= Seq::empty());
            assert(watch.status@ =~= Seq::empty());
        }
        watch
    }

    /// Takes in the diagrams that the files hold, or why they could not be read.
    pub fn reload(&mut self, read: Result<Vec<Diagram>, String>)
        requires
            in_step(old(self)@),
        ensures
            final(self)@ == reload_step(old(self)@, read_of(read)),
            in_step(final(self)@),
            read matches Ok(diagrams) ==> final(self)@.index == if old(self)@.index
                < diagrams@.len() {
                old(self)@.index
            } else if diagrams@.len() > 0 {
                diagrams@.len() - 1
            } else {
                0
            },
            read is Err ==> final(self)@.index == old(self)@.index && final(self)@.diagrams == old(
                self,
            )@.diagrams,
    {
        match read {
            Ok(diagrams) => {
                self.problem = None;
                if self.index >= diagrams.len() {
                    self.index = if diagrams.len() > 0 {
                        diagrams.len() - 1
                    } else {
                        0
                    };
                }
                self.diagrams = diagrams;
            },
            Err(problem) => {
                self.problem = Some(problem);
            },
        }
        self.stale = true;
    }

    /// Handles a key. Says whether to read the files again.
    fn key(&mut self, event: &Event) -> (read: bool)
        requires
            in_step(old(self)@),
        ensures
            (final(self)@, read) == key_step(old(self)@, *event),
            in_step(final(self)@),
    {
        let count: usize = self.diagrams.len();
        let key = match event {
            Event::Key(key) => *key,
            _ => return false,
        };
        match key {
            Key::Char('r') => {
                return true;
            },
            Key::Char('n') | Key::Char('j') | Key::Right | Key::Down | Key::PageDown => {
                if count > 1 {
                    self.index = if self.index + 1 < count {
                        self.index + 1
                    } else {
                        0
                    };
                    self.stale = true;
                }
            },
            Key::Char('p') | Key::Char('k') | Key::Left | Key::Up | Key::PageUp => {
                if count > 1 {
                    self.index = if self.index > 0 {
                        self.index - 1
                    } else {
                        count - 1
                    };
                    self.stale = true;
                }
            },
            _ => {},
        }
        false
    }

    /// Starts a render of the selected diagram when what is shown is stale and the worker is
    /// free.
    pub fn pump(&mut self, actions: &mut Vec<Action>) -> (job: Option<Job>)
        requires
            in_step(old(self)@),
        ensures
            final(self)@ == pump_step(old(self)@).0,
            match job {
                Some(job) => pump_step(old(self)@).1 == Some(job@),
                None => pump_step(old(self)@).1 is None,
            },
            super::asked(final(actions)@) == super::asked(old(actions)@) + pump_step(
                old(self)@,
            ).2,
            in_step(final(self)@),
    {
        let ghost was = super::asked(actions@);
        assert(was + Seq::empty() =~= was);
        if self.busy || !self.stale {
            return None;
        }
        self.stale = false;
        if self.index >= self.diagrams.len() {
            let note = match &self.problem {
                Some(problem) => problem.clone(),
                None => NO_DIAGRAM.to_string(),
            };
            let ghost told = note@;
            let mut notes: Vec<String> = Vec::new();
            notes.push(note);
            assert(text::views(notes@) =~= seq![told]);
            self.notes = notes;
            self.status = self.file.clone();
            let ghost write = show_step(self@, Picture::Nothing).1;
            self.draw(Picture::Nothing, actions);
            assert(was + seq![write] =~= was.push(write));
            return None;
        }
        let mut grid = self.session.grid();
        let below: usize = self.notes.len() + 2;
        grid.rows = if (grid.rows as usize) > below + 1 {
            (grid.rows as usize - below) as u16
        } else {
            1
        };
        let source = self.diagrams[self.index].text.clone();
        assert(source@ == self@.diagrams[self@.index].text);
        let job = self.session.job(source, grid, Fit::Contain);
        self.busy = true;
        Some(job)
    }

    /// When `message` next has something to do without a message.
    pub fn deadline(&self) -> (at: Option<u64>)
        ensures
            at == self@.session.recolor_at,
    {
        self.session.deadline()
    }

    /// Handles a finished render. `id` is for the image that may be shown.
    pub fn rendered(
        &mut self,
        result: Result<Frame, Failure>,
        id: u32,
        actions: &mut Vec<Action>,
    )
        requires
            in_step(old(self)@),
            result matches Ok(frame) ==> frame.well_formed(),
        ensures
            final(self)@ == rendered_step(old(self)@, result, id).0,
            super::asked(final(actions)@) == super::asked(old(actions)@) + rendered_step(
                old(self)@,
                result,
                id,
            ).1,
            in_step(final(self)@),
    {
        let ghost was = super::asked(actions@);
        let ghost step = rendered_step(self@, result, id);
        self.busy = false;
        if self.index >= self.diagrams.len() {
            assert(was + Seq::empty() =~= was);
            return ;
        }
        match result {
            Ok(frame) => {
                self.succeed(&frame, id, actions);
                assert(super::asked(actions@) =~= was + step.1);
            },
            Err(failure) => self.fail(&failure, actions),
        }
    }

    fn position(&self) -> (s: String)
        requires
            0 <= self@.index < self@.diagrams.len(),
        ensures
            s@ == position(self@),
    {
        let mut s = self.diagrams[self.index].origin.clone();
        assert(s@ == self@.diagrams[self@.index].origin);
        if self.diagrams.len() > 1 {
            s.append(" [");
            text::push_decimal(&mut s, self.index as u128 + 1);
            s.append("/");
            text::push_decimal(&mut s, self.diagrams.len() as u128);
            s.append("]");
        }
        s
    }

    fn succeed(&mut self, frame: &Frame, id: u32, actions: &mut Vec<Action>)
        requires
            in_step(old(self)@),
            old(self)@.index < old(self)@.diagrams.len(),
            frame.well_formed(),
        ensures
            final(self)@ == shown_step(old(self)@, *frame, id).0,
            super::asked(final(actions)@) == super::asked(old(actions)@).push(
                shown_step(old(self)@, *frame, id).1,
            ),
            in_step(final(self)@),
    {
        let mut status = self.position();
        status.append(" · ");
        text::push_decimal(&mut status, frame.elapsed as u128);
        status.append(" ms");
        let mut notes: Vec<String> = Vec::new();
        if let Some(problem) = &self.problem {
            notes.push(problem.clone());
        }
        assert(text::views(notes@) =~= problem_notes(self@.problem));
        self.notes = notes;
        self.status = status;
        self.draw(Picture::New(frame, id), actions);
    }

    fn fail(&mut self, failure: &Failure, actions: &mut Vec<Action>)
        requires
            in_step(old(self)@),
            old(self)@.index < old(self)@.diagrams.len(),
        ensures
            final(self)@ == failed_step(old(self)@, failure@).0,
            super::asked(final(actions)@) == super::asked(old(actions)@) + failed_step(
                old(self)@,
                failure@,
            ).1,
            in_step(final(self)@),
    {
        let ghost was = super::asked(actions@);
        let diagnostic = match failure.diagnostic() {
            Some(diagnostic) => diagnostic,
            None => {
                assert(was + Seq::empty() =~= was);
                return ;
            },
        };
        // Room for the error below whatever is still shown.
        let below: u32 = self.session.image_rows() as u32 + 2;
        let rows: u32 = self.session.grid().rows as u32;
        let room: u32 = if rows > below + 1 {
            rows - below
        } else {
            1
        };
        let diagram = &self.diagrams[self.index];
        assert(diagram@ == self@.diagrams[self@.index]);
        let error = diag::format(&diagnostic, diagram, true);
        let notes = text::some_lines(error.as_str(), room as usize);
        proof {
            let lines = text::lines(error@);
            assert(lines.take(lines.len() as int) =~= lines);
            assert(text::views(notes@) == at_most(lines, room as int));
        }
        let mut status = self.position();
        status.append(" · error");
        self.notes = notes;
        self.status = status;
        let ghost write = show_step(self@, Picture::Keep).1;
        self.draw(Picture::Keep, actions);
        assert(was + seq![write] =~= was.push(write));
    }

    fn draw(&mut self, picture: Picture<'_>, actions: &mut Vec<Action>)
        requires
            old(self)@.session.region.well_formed(),
            selects(old(self)@.index, old(self)@.diagrams.len() as int),
            super::showable(picture),
            super::image_rows(super::image_after(old(self)@.session.region.image, picture)) + old(
                self,
            )@.notes.len() < u16::MAX,
        ensures
            final(self)@ == show_step(old(self)@, picture).0,
            super::asked(final(actions)@) == super::asked(old(actions)@).push(
                show_step(old(self)@, picture).1,
            ),
            in_step(final(self)@),
    {
        let mut line = self.status.clone();
        line.append(" · watching · q to quit");
        let status = super::dim(line.as_str());
        let nothing: [u8; 0] = [];
        assert(nothing@ =~= Seq::<u8>::empty());
        let out = self.session.draw(&nothing, picture, &self.notes, Some(status.as_str()));
        super::request(actions, Action::Write(out));
    }

    /// Handles one message, or the passing of a deadline. `id` is for an image that may be
    /// shown. Says with which code to stop, if at all.
    pub fn message(&mut self, message: Option<Msg>, now: u64, id: u32, actions: &mut Vec<Action>)
        -> (quit: Option<u8>)
        requires
            in_step(old(self)@),
            stream::acceptable(message),
        ensures
            final(self)@ == message_step(old(self)@, message, now, id).0,
            super::asked(final(actions)@) == super::asked(old(actions)@) + message_step(
                old(self)@,
                message,
                now,
                id,
            ).1,
            quit == message_step(old(self)@, message, now, id).2,
            in_step(final(self)@),
    {
        let ticked = self.session.tick(now);
        match ticked.or(self.hear(message, now, id, actions)) {
            Outcome::Quit(code) => Some(code),
            Outcome::Redraw => {
                self.stale = true;
                None
            },
            Outcome::Continue => None,
        }
    }

    #[verifier::rlimit(40)]
    fn hear(&mut self, message: Option<Msg>, now: u64, id: u32, actions: &mut Vec<Action>) -> (r:
        Outcome)
        requires
            in_step(old(self)@),
            stream::acceptable(message),
        ensures
            final(self)@ == heard(old(self)@, message, now, id).0,
            super::asked(final(actions)@) == super::asked(old(actions)@) + heard(
                old(self)@,
                message,
                now,
                id,
            ).1,
            r == heard(old(self)@, message, now, id).2,
            in_step(final(self)@),
    {
        let ghost was = super::asked(actions@);
        proof {
            assert(was + Seq::empty() =~= was);
            assert(was + seq![ActionModel::Read] =~= was.push(ActionModel::Read));
        }
        match message {
            Some(Msg::Changed) => {
                super::request(actions, Action::Read);
                Outcome::Continue
            },
            Some(Msg::Input(event)) => {
                let (outcome, ask) = self.session.handle(&event, now);
                if ask {
                    super::request(actions, Action::AskColors);
                }
                let read = self.key(&event);
                if read {
                    super::request(actions, Action::Read);
                }
                assert(super::asked(actions@) =~= was + (super::asked_colors(ask)
                    + asked_reading(read)));
                outcome
            },
            Some(Msg::Signal(signal)) => self.session.signal(signal),
            Some(Msg::Rendered(result)) => {
                self.rendered(result, id, actions);
                Outcome::Continue
            },
            Some(Msg::Stdin(_)) | Some(Msg::StdinEnd) | Some(Msg::Viewed(_)) | None => {
                Outcome::Continue
            },
        }
    }

    /// Ends the watch. What is shown stays; what comes back is to be written.
    pub fn finish(&mut self) -> (out: Vec<u8>)
        requires
            in_step(old(self)@),
        ensures
            out@ == super::session_bytes(
                old(self)@.session,
                Seq::empty(),
                Picture::Keep,
                old(self)@.notes,
                None,
            ),
            final(self)@ == (WatchModel {
                session: SessionModel {
                    region: super::Region { lines: 0, image: None },
                    ..old(self)@.session
                },
                ..old(self)@
            }),
    {
        self.session.release(&self.notes)
    }
}

} // verus!
