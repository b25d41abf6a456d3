//! What holds of what the live modes show.

use vstd::prelude::*;

use super::stream;
use super::stream::{BusyModel, LiveModel};
use super::viewer;
use super::viewer::{Shot, ViewerModel};
use super::watch;
use super::watch::WatchModel;
use super::{ActionModel, Picture, Region, SessionModel, Shown};
use crate::diag;
use crate::engine::{Failure, FailureModel};
use crate::input::{DiagramModel, Format};
use crate::render;
use crate::render::Frame;
use crate::size::Grid;
use crate::term::kitty;
use crate::text;

verus! {

// ---------------------------------------------------------------------------------------------
// Lines.

proof fn lemma_plain(s: Seq<char>)
    requires
        !s.contains('\x1b'),
    ensures
        super::visible(s) == s.len(),
    decreases s.len(),
{
    if s.len() > 0 {
        assert(s.contains(s[0]));
        let rest = s.drop_first();
        assert forall|i: int| 0 <= i < rest.len() implies rest[i] != '\x1b' by {
            assert(s.contains(s[i + 1]));
        }
        lemma_plain(rest);
    }
}

proof fn lemma_cut(s: Seq<char>, shown: int, max: int)
    requires
        !s.contains('\x1b'),
        0 <= shown < max,
        shown + s.len() > max,
    ensures
        super::cut(s, shown, max) == s.take(max - shown - 1) + "…\x1b[0m"@,
    decreases s.len(),
{
    assert(s.contains(s[0]));
    let rest = s.drop_first();
    assert forall|i: int| 0 <= i < rest.len() implies rest[i] != '\x1b' by {
        assert(s.contains(s[i + 1]));
    }
    lemma_plain(rest);
    if shown + 1 == max {
        assert(s.take(0) + "…\x1b[0m"@ =~= "…\x1b[0m"@);
    } else {
        lemma_cut(rest, shown + 1, max);
        assert(seq![s[0]] + (rest.take(max - shown - 2) + "…\x1b[0m"@) =~= s.take(max - shown - 1)
            + "…\x1b[0m"@);
    }
}

/// A plain line that does not fit is cut, so that with the ellipsis behind it one column stays
/// free. Its start is kept.
pub proof fn long_lines_end_in_an_ellipsis(line: Seq<char>, width: u16)
    requires
        !line.contains('\x1b'),
        width >= 3,
        line.len() >= width,
    ensures
        super::fitted(line, width) == line.take(width - 2) + "…\x1b[0m"@,
{
    lemma_cut(line, 0, width - 1);
}

proof fn lemma_escape(body: Seq<char>, end: char, s: Seq<char>)
    requires
        forall|i: int|
            0 <= i < body.len() ==> '0' <= #[trigger] body[i] <= '?' || body[i] == '[',
        'a' <= end <= 'z' || 'A' <= end <= 'Z' || end == '~',
    ensures
        super::escape_length(body + seq![end] + s) == body.len() + 1,
    decreases body.len(),
{
    let all = body + seq![end] + s;
    if body.len() == 0 {
        assert(all[0] == end);
    } else {
        assert(all[0] == body[0]);
        let rest = body.drop_first();
        assert forall|i: int| 0 <= i < rest.len() implies '0' <= #[trigger] rest[i] <= '?'
            || rest[i] == '[' by {
            assert(rest[i] == body[i + 1]);
        }
        lemma_escape(rest, end, s);
        assert(all.drop_first() =~= rest + seq![end] + s);
    }
}

/// An escape sequence ends with a letter or a tilde and takes no room in a line; every other
/// character takes one column.
pub proof fn escapes_take_no_room(body: Seq<char>, end: char, c: char, s: Seq<char>)
    requires
        forall|i: int|
            0 <= i < body.len() ==> '0' <= #[trigger] body[i] <= '?' || body[i] == '[',
        'a' <= end <= 'z' || 'A' <= end <= 'Z' || end == '~',
        c != '\x1b',
    ensures
        super::visible(seq!['\x1b'] + body + seq![end] + s) == super::visible(s),
        super::visible(seq![c] + s) == super::visible(s) + 1,
        super::visible(Seq::empty()) == 0,
{
    let all = seq!['\x1b'] + body + seq![end] + s;
    lemma_escape(body, end, s);
    assert(all.drop_first() =~= body + seq![end] + s);
    assert(all.skip(2 + body.len() as int) =~= s);
    assert((seq![c] + s).drop_first() =~= s);
}

// ---------------------------------------------------------------------------------------------
// The region.

/// What is drawn stands in order: what is printed above, the picture, the notes and the status,
/// each note on a line of its own.
pub proof fn regions_are_drawn_in_order(
    region: Region,
    above: Seq<u8>,
    picture: Picture<'_>,
    notes: Seq<Seq<char>>,
    status: Seq<char>,
    width: u16,
)
    ensures
        super::drawn(region, above, picture, notes, Some(status), width) == super::erasure(
            region.lines,
        ) + above + super::picture_bytes(region.image, picture) + notes.map_values(
            |note: Seq<char>|
                vstd::utf8::encode_utf8(super::fitted(note, width)).push(10),
        ).flatten() + vstd::utf8::encode_utf8(super::fitted(status, width)).push(10)
            + super::cleanup(region.image, super::image_after(region.image, picture))
            + vstd::utf8::encode_utf8("\x1b[?2026l"@),
{
    lemma_notes(notes, notes.len() as int, width);
    assert(notes.take(notes.len() as int) =~= notes);
}

proof fn lemma_notes(notes: Seq<Seq<char>>, n: int, width: u16)
    requires
        0 <= n <= notes.len(),
    ensures
        super::note_bytes(notes, n, width) == notes.take(n).map_values(
            |note: Seq<char>|
                vstd::utf8::encode_utf8(super::fitted(note, width)).push(10),
        ).flatten(),
    decreases n,
{
    let all = notes.take(n).map_values(
        |note: Seq<char>|
            vstd::utf8::encode_utf8(super::fitted(note, width)).push(10),
    );
    if n == 0 {
        assert(all =~= Seq::<Seq<u8>>::empty());
        assert(super::note_bytes(notes, n, width) =~= all.flatten());
    } else {
        lemma_notes(notes, n - 1, width);
        let before = notes.take(n - 1).map_values(
            |note: Seq<char>|
                vstd::utf8::encode_utf8(super::fitted(note, width)).push(10),
        );
        assert(all.drop_last() =~= before);
        assert(all.last() == super::line_bytes(notes[n - 1], width));
        all.lemma_flatten_and_flatten_alt_are_equivalent();
        before.lemma_flatten_and_flatten_alt_are_equivalent();
        assert(all.flatten_alt() == all.drop_last().flatten_alt() + all.last());
    }
}

/// A picture that is kept is written again from its cells, without being sent again. A new one
/// takes its place, and none leaves nothing. An image that is no longer shown is freed, and one
/// that is shown is not.
pub proof fn images_are_shown_until_replaced(shown: Shown, frame: Frame, id: u32)
    ensures
        super::image_after(Some(shown), Picture::Keep) == Some(shown),
        super::picture_bytes(Some(shown), Picture::Keep) == render::cell_bytes(
            shown.id,
            shown.cols,
            shown.rows,
        ),
        super::cleanup(Some(shown), Some(shown)) == Seq::<u8>::empty(),
        super::image_after(Some(shown), Picture::New(&frame, id)) == Some(
            Shown { id, cols: frame.cols, rows: frame.rows },
        ),
        id != shown.id ==> super::cleanup(
            Some(shown),
            super::image_after(Some(shown), Picture::New(&frame, id)),
        ) == kitty::deletion(shown.id),
        super::image_after(Some(shown), Picture::Nothing) is None,
        super::picture_bytes(Some(shown), Picture::Nothing) == Seq::<u8>::empty(),
        super::cleanup(Some(shown), None) == kitty::deletion(shown.id),
        super::cleanup(None, Some(shown)) == Seq::<u8>::empty(),
        super::image_rows(Some(shown)) == shown.rows && super::image_rows(None) == 0,
{
}

/// A new image is sent before its cells are written. One that cannot be sent leaves nothing behind.
pub proof fn images_are_sent_before_their_cells(
    sent: Seq<u8>,
    why: kitty::Untransmitted,
    id: u32,
    cols: u16,
    rows: u16,
)
    ensures
        render::inline(Ok(sent), id, cols, rows) == Ok::<Seq<u8>, kitty::Untransmitted>(
            sent + render::cell_bytes(id, cols, rows),
        ),
        render::inline(Err(why), id, cols, rows) == Err::<Seq<u8>, kitty::Untransmitted>(why),
{
}

/// The cells of an image stand in rows, from the first to the last, each on a line of its own.
pub proof fn images_have_all_their_rows(id: u32, cols: int, rows: int)
    requires
        rows > 0,
    ensures
        render::grid_lines(id, cols, rows) == render::grid_lines(id, cols, rows - 1)
            + kitty::id_color(id) + kitty::cells(rows - 1, cols) + "\x1b[39m"@ + seq!['\n'],
        render::grid_lines(id, cols, 0) == Seq::<char>::empty(),
        viewer::screen_lines(id, cols, rows) == viewer::screen_lines(id, cols, rows - 1)
            + kitty::id_color(id) + kitty::cells(rows - 1, cols) + "\x1b[39m"@ + "\r\n"@,
        viewer::screen_lines(id, cols, 0) == Seq::<char>::empty(),
{
    assert(render::grid_lines(id, cols, rows) =~= render::grid_lines(id, cols, rows - 1)
        + kitty::id_color(id) + kitty::cells(rows - 1, cols) + "\x1b[39m"@ + seq!['\n']);
    assert(viewer::screen_lines(id, cols, rows) =~= viewer::screen_lines(id, cols, rows - 1)
        + kitty::id_color(id) + kitty::cells(rows - 1, cols) + "\x1b[39m"@ + "\r\n"@);
}

// ---------------------------------------------------------------------------------------------
// Room.

/// A watched diagram leaves room for the notes below it, the status and one more line; the viewer
/// leaves its last line for the status. There is always room for something.
pub proof fn pictures_leave_room(grid: Grid, notes: int)
    requires
        0 <= notes,
    ensures
        grid.rows > notes + 3 ==> watch::room(grid, notes).rows + notes + 2 == grid.rows,
        grid.rows <= notes + 3 ==> watch::room(grid, notes).rows == 1,
        watch::room(grid, notes).cols == grid.cols,
        grid.rows > 2 ==> viewer::viewport_of(grid).rows + 1 == grid.rows,
        grid.rows <= 2 ==> viewer::viewport_of(grid).rows == 1,
        viewer::viewport_of(grid).cols == grid.cols,
{
}

/// An error is shown below the last picture, in the lines that are left there, from its first line
/// on. The status names the diagram.
pub proof fn errors_are_cut_to_the_room_left(m: WatchModel, told: diag::DiagnosticModel)
    requires
        0 <= m.index < m.diagrams.len(),
    ensures
        ({
            let then = watch::failed_step(m, FailureModel::Diagnostic(told)).0;
            let lines = text::lines(diag::formatted(told, m.diagrams[m.index], true));
            let shown = match m.session.region.image {
                Some(image) => image.rows as int,
                None => 0,
            };
            let left = if m.session.grid.rows > shown + 3 {
                m.session.grid.rows - shown - 2
            } else {
                1
            };
            &&& lines.len() <= left ==> then.notes == lines
            &&& lines.len() > left ==> then.notes == lines.take(left)
            &&& then.session.region.image == m.session.region.image
            &&& m.diagrams.len() == 1 ==> then.status == m.diagrams[0].origin + " · error"@
            &&& m.diagrams.len() > 1 ==> then.status == m.diagrams[m.index].origin + " ["@
                + text::decimal((m.index + 1) as nat) + "/"@ + text::decimal(m.diagrams.len())
                + "]"@ + " · error"@
        }),
{
}

/// Without a diagram the watch says why, or that there is none, in place of a picture.
pub proof fn missing_diagrams_are_told(m: WatchModel)
    requires
        m.index >= m.diagrams.len(),
        m.stale && !m.busy,
    ensures
        ({
            let (then, job, actions) = watch::pump_step(m);
            &&& job is None
            &&& m.problem is Some ==> then.notes == seq![m.problem.unwrap()]
            &&& m.problem is None ==> then.notes == seq!["no Mermaid diagram found"@]
            &&& then.session.region.image is None
            &&& then.status == m.file
            &&& actions.len() == 1
        }),
{
}

// ---------------------------------------------------------------------------------------------
// The viewer's screen.

/// The first drawing of a diagram settles the view that fits it; later ones keep the view that was
/// chosen. A drawing for another size of the screen is drawn again.
pub proof fn views_are_settled_by_the_first_drawing(
    m: ViewerModel,
    shot: Shot,
    id: u32,
    zoom: u64,
)
    requires
        shot.transmitted(id) is Ok,
    ensures
        ({
            let then = viewer::shot_step(m, shot, id, zoom).0;
            let viewport = viewer::viewport_of(m.session.grid);
            &&& m.camera is None ==> then.camera == Some(shot.camera)
            &&& m.camera is Some ==> then.camera == m.camera
            &&& then.size == Some(shot.size)
            &&& then.elapsed == shot.elapsed
            &&& then.notes.len() == 0
            &&& then.image == Some(id)
            &&& then.stale == (m.stale || shot.cells.0 != viewport.cols || shot.cells.1
                != viewport.rows)
            &&& then.index == m.index && then.diagrams == m.diagrams
        }),
{
}

/// A diagram that cannot be drawn is replaced by its error.
pub proof fn viewers_show_errors(m: ViewerModel, told: diag::DiagnosticModel, zoom: u64)
    requires
        0 <= m.index < m.diagrams.len(),
    ensures
        ({
            let (then, actions) = viewer::failed_step(m, FailureModel::Diagnostic(told), zoom);
            &&& then.notes == text::lines(diag::formatted(told, m.diagrams[m.index], true))
            &&& then.image is None
            &&& actions.len() == 1
            &&& then.index == m.index && then.camera == m.camera
        }),
        viewer::failed_step(m, FailureModel::Cancelled, zoom).0 == m,
        viewer::failed_step(m, FailureModel::Cancelled, zoom).1.len() == 0,
{
}

/// The status of the viewer tells where the diagram is from and what it is about, which of several
/// it is, the zoom once there is a view, and how long drawing took. It stands dim on the last
/// line of the screen.
pub proof fn the_status_tells_what_is_shown(m: ViewerModel, zoom: u64)
    requires
        0 <= m.index < m.diagrams.len(),
    ensures
        ({
            let diagram = m.diagrams[m.index];
            let about = match diagram.caption {
                Some(caption) => " › "@ + caption,
                None => Seq::empty(),
            };
            let which = if m.diagrams.len() > 1 {
                " · "@ + text::decimal((m.index + 1) as nat) + "/"@ + text::decimal(
                    m.diagrams.len(),
                )
            } else {
                Seq::empty()
            };
            let zoomed = if m.camera is Some {
                " · "@ + text::decimal(zoom as nat) + "%"@
            } else {
                Seq::empty()
            };
            let switch = if m.diagrams.len() > 1 {
                " · n/p diagram"@
            } else {
                Seq::empty()
            };
            let took = " · "@ + text::decimal(m.elapsed as nat)
                + " ms · arrows pan · +/- zoom · 0 fit · 1 actual size"@;
            &&& viewer::status_of(m, zoom) == "\x1b[2m"@ + (diagram.origin + about + which + zoomed
                + took + switch + " · q quit"@) + "\x1b[22m"@
            &&& viewer::status_bytes(m, zoom) == vstd::utf8::encode_utf8(
                "\x1b["@ + text::decimal(m.session.grid.rows as nat) + ";1H\x1b[2K"@ + super::fitted(
                    viewer::status_of(m, zoom),
                    m.session.grid.cols,
                ),
            )
        }),
{
    let origin = m.diagrams[m.index].origin;
    let none = Seq::<char>::empty();
    let heading = viewer::heading(m);
    let place = text::decimal((m.index + 1) as nat);
    let count = text::decimal(m.diagrams.len());
    let named = match m.diagrams[m.index].caption {
        Some(caption) => origin + (" › "@ + caption),
        None => origin + none,
    };
    match m.diagrams[m.index].caption {
        Some(caption) => lemma_joined(origin, " › "@, caption, none, none),
        None => lemma_joined(origin, none, none, none, none),
    }
    lemma_joined(named, " · "@, place, "/"@, count);
    lemma_joined(named, none, none, none, none);
    lemma_joined(heading, " · "@, text::decimal(zoom as nat), "%"@, none);
    lemma_joined(heading, none, none, none, none);
    let zoomed = if m.camera is Some {
        heading + (" · "@ + text::decimal(zoom as nat) + "%"@)
    } else {
        heading + none
    };
    lemma_joined(
        zoomed,
        " · "@,
        text::decimal(m.elapsed as nat),
        " ms · arrows pan · +/- zoom · 0 fit · 1 actual size"@,
        none,
    );
    let told = zoomed + (" · "@ + text::decimal(m.elapsed as nat)
        + " ms · arrows pan · +/- zoom · 0 fit · 1 actual size"@);
    lemma_joined(told, none, none, none, none);
}

/// What is joined from pieces can be joined one piece at a time.
proof fn lemma_joined(s: Seq<char>, a: Seq<char>, b: Seq<char>, c: Seq<char>, d: Seq<char>)
    ensures
        s + (a + b) == s + a + b,
        s + (a + b + c) == s + a + b + c,
        s + (a + b + c + d) == s + a + b + c + d,
        s + Seq::<char>::empty() == s,
{
    assert(s + (a + b) =~= s + a + b);
    assert(s + (a + b + c) =~= s + (a + b) + c);
    assert(s + (a + b + c + d) =~= s + (a + b + c) + d);
    assert(s + Seq::<char>::empty() =~= s);
}

/// Whatever terminal mode the viewer turns on when it starts, it turns off when it ends, the last
/// one first, and the pointer has its usual shape again. An image that is shown is freed.
pub proof fn viewers_leave_the_terminal_as_it_was(id: u32)
    ensures
        viewer::OPENING@ == "\x1b[?1049h"@ + "\x1b[?1002h"@ + "\x1b[?1006h"@ + "\x1b[?1016h"@,
        viewer::closing(None, false) == vstd::utf8::encode_utf8(
            "\x1b]22;default\x1b\\"@ + "\x1b[?1016l"@ + "\x1b[?1006l"@ + "\x1b[?1002l"@
                + "\x1b[?1049l"@,
        ),
        viewer::closing(Some(id), false) == kitty::deletion(id) + viewer::closing(None, false),
        kitty::deletion(id) == vstd::utf8::encode_utf8(
            "\x1b_G"@ + "a=d,d=I,i="@ + text::decimal(id as nat) + ",q=2"@ + "\x1b\\"@,
        ),
{
    reveal_strlit("\x1b[?1049h\x1b[?1002h\x1b[?1006h\x1b[?1016h");
    reveal_strlit("\x1b[?1049h");
    reveal_strlit("\x1b[?1002h");
    reveal_strlit("\x1b[?1006h");
    reveal_strlit("\x1b[?1016h");
    reveal_strlit("\x1b]22;default\x1b\\\x1b[?1016l\x1b[?1006l\x1b[?1002l\x1b[?1049l");
    reveal_strlit("\x1b]22;default\x1b\\");
    reveal_strlit("\x1b[?1016l");
    reveal_strlit("\x1b[?1006l");
    reveal_strlit("\x1b[?1002l");
    reveal_strlit("\x1b[?1049l");
    assert("\x1b]22;default\x1b\\\x1b[?1016l\x1b[?1006l\x1b[?1002l\x1b[?1049l"@
        =~= "\x1b]22;default\x1b\\"@ + "\x1b[?1016l"@ + "\x1b[?1006l"@ + "\x1b[?1002l"@
        + "\x1b[?1049l"@);
    let end = vstd::utf8::encode_utf8(
        "\x1b]22;default\x1b\\\x1b[?1016l\x1b[?1006l\x1b[?1002l\x1b[?1049l"@,
    );
    assert(Seq::<u8>::empty() + end =~= end);
    reveal_strlit("\x1b_Ga=d,d=I,i=");
    reveal_strlit("\x1b_G");
    reveal_strlit("a=d,d=I,i=");
    reveal_strlit(",q=2\x1b\\");
    reveal_strlit(",q=2");
    reveal_strlit("\x1b\\");
    assert("\x1b_Ga=d,d=I,i="@ + text::decimal(id as nat) + ",q=2\x1b\\"@ =~= "\x1b_G"@
        + "a=d,d=I,i="@ + text::decimal(id as nat) + ",q=2"@ + "\x1b\\"@);
}

/// Notes that do not fit the screen of the viewer leave room for the status, and the first of them
/// are shown.
pub proof fn notes_leave_room_for_the_status(notes: int, rows: u16)
    requires
        0 <= notes,
        rows > 0,
    ensures
        notes < rows ==> viewer::notes_shown(notes, rows) == notes,
        viewer::notes_shown(notes, rows) + 1 <= rows,
        notes >= rows ==> viewer::notes_shown(notes, rows) + 1 == rows,
{
}

/// Whatever terminal mode a live mode turns on when it starts, it turns off when it ends, the last
/// one first: it hides the cursor and shows it again.
pub proof fn live_modes_leave_the_terminal_as_it_was()
    ensures
        super::OPENING@ == "\x1b[?25l"@ + "\x1b[?2031h"@ + "\x1b[?2048h"@,
        super::CLOSING@ == "\x1b[?2048l"@ + "\x1b[?2031l"@ + "\x1b[?25h"@,
{
    reveal_strlit("\x1b[?25l\x1b[?2031h\x1b[?2048h");
    reveal_strlit("\x1b[?2048l\x1b[?2031l\x1b[?25h");
    reveal_strlit("\x1b[?25l");
    reveal_strlit("\x1b[?2031h");
    reveal_strlit("\x1b[?2048h");
    reveal_strlit("\x1b[?2048l");
    reveal_strlit("\x1b[?2031l");
    reveal_strlit("\x1b[?25h");
}

// ---------------------------------------------------------------------------------------------
// What the watch and streams show.

/// A diagram that was drawn is shown with its place among several and how long drawing took, and
/// with what is known of a file that can no longer be read.
pub proof fn the_watch_tells_what_is_shown(m: WatchModel, frame: Frame, id: u32)
    requires
        0 <= m.index < m.diagrams.len(),
    ensures
        ({
            let (then, actions) = watch::rendered_step(m, Ok(frame), id);
            let origin = m.diagrams[m.index].origin;
            let took = " · "@ + text::decimal(frame.elapsed as nat) + " ms"@;
            &&& !then.busy
            &&& m.problem is None ==> then.notes.len() == 0
            &&& m.problem is Some ==> then.notes == seq![m.problem.unwrap()]
            &&& m.diagrams.len() == 1 ==> then.status == origin + took
            &&& m.diagrams.len() > 1 ==> then.status == origin + (" ["@ + text::decimal(
                (m.index + 1) as nat,
            ) + "/"@ + text::decimal(m.diagrams.len()) + "]"@) + took
            &&& then.session.region.image == Some(
                Shown { id, cols: frame.cols, rows: frame.rows },
            )
            &&& watch::status_line(then.status) == "\x1b[2m"@ + (then.status
                + " · watching · q to quit"@) + "\x1b[22m"@
        }),
{
    let origin = m.diagrams[m.index].origin;
    let position = watch::position(m);
    lemma_joined(position, " · "@, text::decimal(frame.elapsed as nat), " ms"@, Seq::empty());
    let place = " ["@ + text::decimal((m.index + 1) as nat) + "/"@ + text::decimal(
        m.diagrams.len(),
    );
    lemma_joined(
        origin,
        " ["@,
        text::decimal((m.index + 1) as nat),
        "/"@,
        text::decimal(m.diagrams.len()),
    );
    lemma_joined(origin, place, "]"@, Seq::empty(), Seq::empty());
}

/// A stream says that it waits for input, which format arrives, and how long its preview took; a
/// preview that cannot be drawn yet keeps the one that is shown. Two lines stay free below it.
pub proof fn streams_tell_what_they_wait_for(
    m: LiveModel,
    session: SessionModel,
    fixed: Option<Format>,
    grid: Grid,
    frame: Frame,
    failure: Failure,
    now: u64,
    id: u32,
)
    requires
        m.busy == Some(BusyModel::Preview),
    ensures
        stream::waiting(session, fixed, now).status == "waiting for input…"@,
        stream::receiving(Format::Mermaid) == "receiving a diagram…"@,
        stream::receiving(Format::Markdown) == "receiving Markdown…"@,
        stream::rendered_step(m, Ok(frame), id).0.status == "<stdin> · "@ + text::decimal(
            frame.elapsed as nat,
        ) + " ms · receiving…"@,
        stream::rendered_step(m, Ok(frame), id).0.session.region.image == Some(
            Shown { id, cols: frame.cols, rows: frame.rows },
        ),
        stream::rendered_step(m, Err(failure), id).0.status == "waiting for more input…"@,
        stream::rendered_step(m, Err(failure), id).0.session.region.image
            == m.session.region.image,
        !stream::rendered_step(m, Err(failure), id).0.failed || m.failed,
        stream::status_line(m.status) == "\x1b[2m"@ + (m.status + " · q to stop"@) + "\x1b[22m"@,
        grid.rows > 3 ==> stream::preview_grid(grid).rows + 2 == grid.rows,
        grid.rows <= 3 ==> stream::preview_grid(grid).rows == 1,
        stream::preview_grid(grid).cols == grid.cols,
{
}

/// A finished diagram is printed above the status, under its caption, and takes the place of its
/// preview.
pub proof fn finished_diagrams_are_printed_above(
    m: LiveModel,
    diagram: DiagramModel,
    frame: Frame,
    id: u32,
)
    requires
        m.busy == Some(BusyModel::Final(diagram)),
    ensures
        ({
            let (then, actions, result) = stream::rendered_step(m, Ok(frame), id);
            let caption = match diagram.caption {
                Some(caption) => "\x1b[2m"@ + caption + "\x1b[22m\n"@,
                None => Seq::empty(),
            };
            &&& frame.transmitted(id) matches Ok(sent) ==> {
                &&& actions == seq![
                    ActionModel::Write(
                        super::session_bytes(
                            m.session,
                            vstd::utf8::encode_utf8(caption) + (sent + render::cell_bytes(
                                id,
                                frame.cols,
                                frame.rows,
                            )),
                            Picture::Nothing,
                            Seq::empty(),
                            Some(stream::status_line(m.status)),
                        ),
                    ),
                ]
                &&& then.session.region.image is None
                &&& then.busy is None
                &&& then.failed == m.failed
            }
            &&& frame.transmitted(id) is Err ==> result is Err && actions.len() == 0
        }),
{
}

} // verus!
