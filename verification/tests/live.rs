//! Output that keeps updating.

use mer::cli::{Cli, FitArg, Protocol, StdinFormat};
use mer::diag::Diagnostic;
use mer::display::{caption, inline_output, report, text_output, Found, Setup};
use mer::engine::Failure;
use mer::input::{documents, Diagram, Format};
use mer::live::stream::{at_once, live_at, Intake, Live};
use mer::live::viewer::{pointer, Camera, Drag, Motion, Point, Shot, Viewed, Viewer};
use mer::live::watch::Watch;
use mer::live::{dim, fit_line, wait, Action, Msg, Outcome, Picture, Region, Session, Signal};
use mer::render::Frame;
use mer::settings::{File, Settings};
use mer::size::{Fit, Grid};
use mer::term::input::{Event, Key, Mouse, MouseKind};
use mer::term::probe::Caps;
use mer::theme::Rgb;

fn frame(cols: u16, rows: u16) -> Frame {
    Frame {
        rgba: vec![0; usize::from(cols) * usize::from(rows) * 4],
        pixels: (u32::from(cols), u32::from(rows)),
        cols,
        rows,
        elapsed: 0,
    }
}

fn text(bytes: &[u8]) -> String {
    String::from_utf8_lossy(bytes).into_owned()
}

fn setup() -> Setup {
    let cli = Cli {
        inputs: Vec::new(),
        watch: false,
        interactive: false,
        check: false,
        diagram: None,
        stdin_format: StdinFormat::Auto,
        theme: None,
        background: None,
        config: None,
        scale: None,
        fit: Some(FitArg::Width),
        output: None,
        format: None,
        protocol: Some(Protocol::Kitty),
        doctor: false,
    };
    let file = File {
        theme: None,
        background: None,
        scale: None,
        fit: None,
        protocol: None,
        mermaid: None,
    };
    let caps = Caps {
        cols: 80,
        rows: 24,
        cell: Some((10, 20)),
        kitty_graphics: true,
        ..Caps::default()
    };
    let settings = Settings::resolve(&cli, file, None).unwrap();
    Setup::new(&settings, Found::Probed(caps), false).unwrap()
}

fn session() -> Session {
    Session::start(setup(), false)
}

/// Everything that is to be written.
fn written(actions: &[Action]) -> String {
    let mut out = Vec::new();
    for action in actions {
        if let Action::Write(bytes) = action {
            out.extend_from_slice(bytes);
        }
    }
    text(&out)
}

fn reports(actions: &[Action]) -> Vec<String> {
    actions
        .iter()
        .filter_map(|action| match action {
            Action::Report(report) => Some(report.clone()),
            _ => None,
        })
        .collect()
}

fn motions(actions: &[Action]) -> Vec<Motion> {
    actions
        .iter()
        .filter_map(|action| match action {
            Action::Move(motion) => Some(*motion),
            _ => None,
        })
        .collect()
}

fn key(key: Key) -> Option<Msg> {
    Some(Msg::Input(Event::Key(key)))
}

fn diagram(source: &str) -> Diagram {
    Diagram {
        text: source.to_string(),
        origin: "doc.md".to_string(),
        first_line: 0,
        caption: None,
    }
}

fn failure(message: &str) -> Failure {
    Failure::Diagnostic(Diagnostic {
        message: message.to_string(),
        span: None,
    })
}

#[test]
fn regions_redraw_in_place() {
    let mut region = Region::default();
    let none: Vec<String> = Vec::new();
    let first = text(&region.draw(b"", Picture::New(&frame(3, 2), 77), &none, Some("status"), 80));
    assert!(first.starts_with("\x1b[?2026h\x1b[J\x1b_G"));
    assert!(first.ends_with("status\n\x1b[?2026l"));
    let shown = region.image.unwrap();

    let kept = text(&region.draw(b"", Picture::Keep, &vec!["note".to_string()], Some("s2"), 80));
    assert!(kept.starts_with("\x1b[?2026h\x1b[3F\x1b[J"));
    assert!(!kept.contains("\x1b_G"), "the kept frame is not sent again");
    assert_eq!(region.image, Some(shown));
    assert_eq!(region.lines, 4);

    let replaced = text(&region.draw(b"", Picture::New(&frame(1, 1), 78), &none, None, 80));
    assert!(replaced.starts_with("\x1b[?2026h\x1b[4F\x1b[J"));
    assert!(replaced.contains(&format!("\x1b_Ga=d,d=I,i={},q=2", shown.id)));
    assert_eq!(region.lines, 1);
}

#[test]
fn content_above_becomes_history() {
    let mut region = Region::default();
    let none: Vec<String> = Vec::new();
    region.draw(b"", Picture::Nothing, &none, Some("waiting"), 80);
    let out = text(&region.draw(b"done\n", Picture::Nothing, &none, Some("waiting"), 80));
    assert!(out.starts_with("\x1b[?2026h\x1b[1F\x1b[Jdone\nwaiting\n"));
    region.forget();
    let next = text(&region.draw(b"", Picture::Nothing, &none, Some("x"), 80));
    assert!(next.starts_with("\x1b[?2026h\x1b[J"));
}

#[test]
fn long_lines_are_cut_without_counting_escapes() {
    assert_eq!(fit_line("short", 80), "short");
    assert_eq!(fit_line("abcdefghij", 6), "abcd…\x1b[0m");
    assert_eq!(fit_line("\x1b[2mabcdef\x1b[22m", 6), "\x1b[2mabcd…\x1b[0m");
    assert_eq!(fit_line("\x1b[2mabcd\x1b[22m", 6), "\x1b[2mabcd\x1b[22m");
}

#[test]
fn cut_lines_are_narrower_than_the_terminal() {
    for width in 2..12 {
        let cut = fit_line("\x1b[1mabc\x1b[0mdef ghi jkl", width);
        let mut visible = 0;
        let mut chars = cut.chars();
        while let Some(c) = chars.next() {
            if c == '\x1b' {
                chars.by_ref().find(|c| c.is_ascii_alphabetic());
            } else {
                visible += 1;
            }
        }
        assert!(visible < width, "{width}: {cut:?}");
    }
}

#[test]
fn quitting_wins_over_redrawing() {
    assert_eq!(Outcome::Redraw.or(Outcome::Quit(0)), Outcome::Quit(0));
    assert_eq!(Outcome::Continue.or(Outcome::Redraw), Outcome::Redraw);
    assert_eq!(Outcome::Continue.or(Outcome::Continue), Outcome::Continue);
}

#[test]
fn waiting_ends_at_the_deadline() {
    assert_eq!(wait(None, 5), None);
    assert_eq!(wait(Some(9), 5), Some(4));
    assert_eq!(wait(Some(3), 5), Some(0));
}

#[test]
fn sessions_quit_and_resize() {
    let mut session = session();
    assert_eq!(session.handle(&Event::Key(Key::Ctrl('c')), 0), (Outcome::Quit(130), false));
    assert_eq!(session.handle(&Event::Key(Key::Char('q')), 0), (Outcome::Quit(0), false));
    assert_eq!(session.handle(&Event::Key(Key::Escape), 0), (Outcome::Quit(0), false));
    assert_eq!(session.signal(Signal::Stop), Outcome::Quit(130));
    let resize = Event::Resize {
        cols: 100,
        rows: 30,
        width: 1700,
        height: 1020,
    };
    assert_eq!(session.handle(&resize, 0), (Outcome::Redraw, false));
    assert_eq!(
        session.grid(),
        Grid {
            cols: 100,
            rows: 30,
            cell_w: 17,
            cell_h: 34
        }
    );
    assert_eq!(session.handle(&resize, 0), (Outcome::Continue, false));
    assert_eq!(session.signal(Signal::Window(None)), Outcome::Continue);
    assert_eq!(session.signal(Signal::Window(Some((0, 30, 0, 0)))), Outcome::Continue);
    assert_eq!(session.signal(Signal::Window(Some((50, 20, 0, 0)))), Outcome::Redraw);
    assert_eq!(session.grid().cell_w, 17);
}

#[test]
fn new_colors_are_used_once_their_replies_have_settled() {
    let mut session = session();
    assert_eq!(session.deadline(), None);
    let switched = session.handle(&Event::ColorScheme { dark: false }, 1000);
    assert_eq!(switched, (Outcome::Continue, true));
    assert_eq!(session.deadline(), Some(1150));
    let color = Event::Color {
        index: 11,
        rgb: Rgb(255, 255, 255),
    };
    session.handle(&color, 1100);
    session.handle(&Event::Color { index: 10, rgb: Rgb(0, 0, 0) }, 1100);
    assert_eq!(session.deadline(), Some(1250));
    assert_eq!(session.tick(1249), Outcome::Continue);
    assert_eq!(session.tick(1250), Outcome::Redraw);
    assert_eq!(session.deadline(), None);
    assert!(session.take_config().is_some());
    assert!(session.take_config().is_none(), "it is handed out once");
}

#[test]
fn output_goes_live_when_the_input_pauses() {
    assert_eq!(live_at(1000, None), 1400);
    assert_eq!(live_at(1000, Some(1010)), 1090);
    assert_eq!(live_at(1000, Some(1390)), 1400);
}

/// The diagrams of a stream that arrives in pieces.
fn received(pieces: &[&[u8]], format: Option<Format>) -> Vec<Diagram> {
    let mut intake = Intake::new(format);
    let mut found = Vec::new();
    for piece in pieces {
        intake.feed(piece, &mut found);
    }
    intake.end_document(&mut found);
    found
}

#[test]
fn streams_end_like_one_shot_input() {
    let streams = [
        "flowchart LR\n  A[é] --> B[図]\n",
        "# Título\n\n```mermaid\npie\n```\n\n## Next\r\n~~~mermaid\ngraph TD\n🦀\n~~~\n",
        "\n%% wait\npie\n\0\0# Doc\n```mermaid\nunclosed",
        "---\ntitle: x\n---\nprose\n```mermaid\na\n```\n\0graph TD\n A-->B",
        "\0\n  \0",
    ];
    for stream in streams {
        let bytes = stream.as_bytes();
        for format in [None, Some(Format::Mermaid), Some(Format::Markdown)] {
            let whole = documents(stream, format);
            assert_eq!(at_once(bytes, format), whole);
            for first in 0..=bytes.len() {
                for second in [first, (first + 3).min(bytes.len()), bytes.len()] {
                    let pieces = [&bytes[..first], &bytes[first..second], &bytes[second..]];
                    assert_eq!(received(&pieces, format), whole, "{stream:?} at {first}, {second}");
                }
            }
            let single: Vec<&[u8]> = bytes.chunks(1).collect();
            assert_eq!(received(&single, format), whole);
        }
    }
}

#[test]
fn cut_off_characters_become_replacements_at_the_end() {
    let found = received(&[b"pie\n\xe2", b"\x82"], None);
    assert_eq!(found[0].text, "pie\n\u{fffd}");
    assert_eq!(found, at_once(b"pie\n\xe2\x82", None));
}

#[test]
fn live_streams_preview_then_print() {
    let mut live = Live::new(session(), None, 0);
    let mut actions = Vec::new();
    live.draw_status(&mut actions);
    assert!(written(&actions).contains("waiting for input… · q to stop"));

    live.feed(b"flowchart LR\n  A --> B\n  B -", 100);
    assert!(live.pump(150).is_none(), "the input has not paused");
    assert_eq!(live.deadline(), Some(180));
    let job = live.pump(180).expect("a preview");
    assert_eq!(job.source, "flowchart LR\n  A --> B\n");
    assert_eq!((job.fit, job.grid.rows), (Fit::Contain, 22));
    assert!(live.pump(500).is_none(), "one render at a time");

    let mut actions = Vec::new();
    let mut preview = frame(4, 2);
    preview.elapsed = 12;
    let quit = live.message(Some(Msg::Rendered(Ok(preview))), 200, 5, &mut actions).unwrap();
    assert_eq!(quit, None);
    let out = written(&actions);
    assert!(out.contains("i=5,") && out.contains("<stdin> · 12 ms · receiving… · q to stop"));

    let mut actions = Vec::new();
    live.message(Some(Msg::Stdin(b"-> C\n".to_vec())), 300, 0, &mut actions).unwrap();
    live.message(Some(Msg::StdinEnd), 310, 0, &mut actions).unwrap();
    assert!(actions.is_empty() && !live.done());
    let job = live.pump(311).expect("the finished diagram");
    assert_eq!(job.source, "flowchart LR\n  A --> B\n  B --> C\n");
    assert_eq!((job.fit, job.grid.rows), (Fit::Width, 24));
    live.message(Some(Msg::Rendered(Ok(frame(4, 3)))), 320, 6, &mut actions).unwrap();
    let out = written(&actions);
    assert!(out.contains("i=6,") && out.contains("\x1b_Ga=d,d=I,i=5,q=2"), "the preview is replaced");
    assert!(live.done());
    let ending = live.finish(None);
    assert_eq!((ending.code, ending.report), (0, None));
}

#[test]
fn live_streams_print_fences_in_order_with_their_headings() {
    let mut live = Live::new(session(), None, 0);
    live.feed(b"# One\n```mermaid\na\n```\n# Two\n```mermaid\nb\n```\n", 0);
    let mut actions = Vec::new();
    assert_eq!(live.pump(0).unwrap().source, "a\n");
    live.rendered(Ok(frame(1, 1)), 1, &mut actions).unwrap();
    assert_eq!(live.pump(0).unwrap().source, "b\n");
    live.rendered(Ok(frame(1, 1)), 2, &mut actions).unwrap();
    let out = written(&actions);
    let (one, two) = (out.find("One").unwrap(), out.find("Two").unwrap());
    assert!(one < two && out.contains("receiving Markdown…"));
    assert!(live.pump(1000).is_none(), "Markdown has no preview");
}

#[test]
fn live_errors_are_reported_and_counted() {
    let mut live = Live::new(session(), Some(Format::Mermaid), 0);
    live.feed(b"pie\n", 0);
    let mut actions = Vec::new();
    assert!(live.pump(80).is_some());
    live.rendered(Err(failure("too early")), 1, &mut actions).unwrap();
    assert!(reports(&actions).is_empty(), "previews may fail");
    assert!(written(&actions).contains("waiting for more input…"));
    live.message(Some(Msg::StdinEnd), 90, 1, &mut actions).unwrap();
    assert!(live.pump(90).is_some());
    live.rendered(Err(failure("bad pie")), 1, &mut actions).unwrap();
    assert_eq!(reports(&actions), ["error: bad pie\n --> <stdin>\n"]);
    assert_eq!(live.finish(None).code, 1);
}

#[test]
fn live_streams_without_diagrams_say_so() {
    let mut live = Live::new(session(), None, 0);
    live.message(Some(Msg::StdinEnd), 0, 0, &mut Vec::new()).unwrap();
    assert!(live.done());
    let ending = live.finish(None);
    assert_eq!(ending.report.as_deref(), Some("mer: no Mermaid diagram found"));
    assert_eq!(ending.code, 1);
}

#[test]
fn live_streams_can_be_stopped() {
    let mut live = Live::new(session(), None, 0);
    let mut actions = Vec::new();
    assert_eq!(live.message(key(Key::Char('q')), 0, 0, &mut actions), Ok(Some(0)));
    let ending = live.finish(Some(0));
    assert_eq!((ending.code, ending.report), (0, None));
    let stop = Some(Msg::Signal(Signal::Stop));
    assert_eq!(live.message(stop, 0, 0, &mut actions), Ok(Some(130)));
}

#[test]
fn previews_are_rendered_again_after_a_resize() {
    let mut live = Live::new(session(), None, 0);
    live.feed(b"pie\n", 0);
    live.pump(80).unwrap();
    let mut actions = Vec::new();
    live.rendered(Ok(frame(2, 2)), 9, &mut actions).unwrap();
    assert!(live.pump(500).is_none());
    let resize = Event::Resize {
        cols: 40,
        rows: 10,
        width: 400,
        height: 200,
    };
    live.message(Some(Msg::Input(resize)), 500, 0, &mut actions).unwrap();
    let job = live.pump(500).expect("another preview");
    assert_eq!((job.grid.cols, job.grid.rows), (40, 8));
}

fn watch() -> Watch {
    let mut watch = Watch::new(session(), "doc.md".to_string());
    watch.reload(Ok(vec![diagram("one"), diagram("two"), diagram("three")]));
    watch
}

#[test]
fn watched_diagrams_are_drawn_when_they_change() {
    let mut watch = watch();
    let mut actions = Vec::new();
    let job = watch.pump(&mut actions).unwrap();
    assert_eq!((job.source.as_str(), job.fit, job.grid.rows), ("one", Fit::Contain, 22));
    assert!(watch.pump(&mut actions).is_none());
    let mut first = frame(2, 2);
    first.elapsed = 7;
    watch.message(Some(Msg::Rendered(Ok(first))), 0, 3, &mut actions);
    assert!(written(&actions).contains("doc.md [1/3] · 7 ms · watching · q to quit"));
    assert!(watch.pump(&mut actions).is_none());

    let mut actions = Vec::new();
    watch.message(Some(Msg::Changed), 0, 0, &mut actions);
    assert!(matches!(actions[..], [Action::Read]));
    watch.reload(Ok(vec![diagram("new")]));
    assert_eq!(watch.pump(&mut actions).unwrap().source, "new");
}

#[test]
fn watched_errors_stand_below_the_last_frame() {
    let mut watch = watch();
    let mut actions = Vec::new();
    watch.pump(&mut actions);
    watch.rendered(Ok(frame(2, 2)), 3, &mut actions);
    watch.reload(Ok(vec![diagram("broken")]));
    watch.pump(&mut actions);
    let mut actions = Vec::new();
    watch.rendered(Err(failure("bad")), 4, &mut actions);
    let out = written(&actions);
    assert!(out.contains("bad") && out.contains("doc.md · error · watching"));
    assert!(!out.contains("\x1b_G"), "the frame stays");
    watch.rendered(Err(Failure::Cancelled), 5, &mut Vec::new());
    assert!(text(&watch.finish()).contains("bad"));
}

#[test]
fn keys_move_between_watched_diagrams() {
    let mut watch = watch();
    let mut actions = Vec::new();
    watch.pump(&mut actions);
    for (pressed, source) in [
        (Key::Char('n'), "two"),
        (Key::Right, "three"),
        (Key::PageDown, "one"),
        (Key::Char('p'), "three"),
        (Key::Up, "two"),
    ] {
        watch.message(key(pressed), 0, 0, &mut actions);
        watch.rendered(Err(Failure::Cancelled), 0, &mut actions);
        assert_eq!(watch.pump(&mut actions).unwrap().source, source);
    }
    let mut actions = Vec::new();
    watch.message(key(Key::Char('r')), 0, 0, &mut actions);
    assert!(matches!(actions[..], [Action::Read]));
    assert_eq!(watch.message(key(Key::Char('q')), 0, 0, &mut actions), Some(0));
}

#[test]
fn watched_files_that_cannot_be_read_are_noted() {
    let mut watch = Watch::new(session(), "doc.md".to_string());
    let mut actions = Vec::new();
    watch.reload(Err("cannot read doc.md".to_string()));
    assert!(watch.pump(&mut actions).is_none());
    assert!(written(&actions).contains("cannot read doc.md\n"));
    watch.reload(Ok(Vec::new()));
    let mut actions = Vec::new();
    assert!(watch.pump(&mut actions).is_none());
    assert!(written(&actions).contains("no Mermaid diagram found\n"));
}

fn shot(cells: (u16, u16)) -> Shot {
    Shot {
        rgba: vec![0; usize::from(cells.0) * usize::from(cells.1) * 4],
        pixels: (u32::from(cells.0), u32::from(cells.1)),
        cells,
        size: (100.0_f32.to_bits(), 50.0_f32.to_bits()),
        camera: Camera {
            scale: 1.5_f32.to_bits(),
            center: (50.0_f32.to_bits(), 25.0_f32.to_bits()),
        },
        elapsed: 8,
    }
}

fn viewed(index: usize, cells: (u16, u16)) -> Option<Msg> {
    Some(Msg::Viewed(Box::new(Viewed {
        index,
        result: Ok(shot(cells)),
    })))
}

/// A viewer that shows the first of two diagrams.
fn viewer() -> Viewer {
    let mut second = diagram("two");
    second.caption = Some("Second".to_string());
    let mut viewer = Viewer::new(session(), vec![diagram("one"), second], true);
    let mut actions = Vec::new();
    let job = viewer.pump(0, &mut actions).unwrap();
    assert_eq!((job.index, job.camera, job.grid.rows, job.reload), (0, None, 23, false));
    viewer.message(viewed(0, (80, 23)), 0, 11, 150, &mut actions).unwrap();
    let out = written(&actions);
    assert!(out.contains("i=11,") && out.contains("\x1b[24;1H\x1b[2K"));
    assert!(out.contains("doc.md · 1/2 · 150% · 8 ms · arrows pan"), "{out}");
    viewer
}

#[test]
fn viewers_keep_the_camera_that_was_fitted() {
    let mut viewer = viewer();
    assert_eq!(viewer.camera(), Some(shot((80, 23)).camera));
    let mut actions = Vec::new();
    assert!(viewer.pump(0, &mut actions).is_none());
    let moved = Camera {
        scale: 3.0_f32.to_bits(),
        ..shot((1, 1)).camera
    };
    viewer.moved(moved);
    assert_eq!(viewer.pump(0, &mut actions).unwrap().camera, Some(moved));
    viewer.message(viewed(0, (80, 23)), 0, 12, 300, &mut actions).unwrap();
    assert_eq!(viewer.camera(), Some(moved));
    assert!(written(&actions).contains("\x1b_Ga=d,d=I,i=11,q=2"));
    viewer.message(key(Key::Char('0')), 0, 0, 0, &mut actions).unwrap();
    assert_eq!(viewer.pump(0, &mut actions).unwrap().camera, None);
}

#[test]
fn keys_go_round_the_diagrams() {
    let mut viewer = viewer();
    for (pressed, index) in [
        (Key::Char('n'), 1),
        (Key::Char('n'), 0),
        (Key::Char('p'), 1),
        (Key::Char('p'), 0),
        (Key::End, 1),
        (Key::Home, 0),
    ] {
        let mut actions = Vec::new();
        viewer.key(pressed, &mut actions);
        assert!(actions.is_empty() && viewer.camera().is_none());
        let job = viewer.pump(0, &mut actions).unwrap();
        assert_eq!((job.index, job.camera), (index, None));
        viewer.message(viewed(index, (80, 23)), 0, 12, 100, &mut actions).unwrap();
        assert!(viewer.camera().is_some());
    }
}

#[test]
fn keys_move_the_camera() {
    let mut viewer = viewer();
    for (pressed, motion) in [
        (Key::Char('h'), Motion::Left(1)),
        (Key::Right, Motion::Right(1)),
        (Key::Char('K'), Motion::Up(5)),
        (Key::Down, Motion::Down(1)),
        (Key::Char('+'), Motion::ZoomIn(125, None)),
        (Key::Char('_'), Motion::ZoomOut(125, None)),
        (Key::Char('1'), Motion::ActualSize),
        (Key::Char('w'), Motion::FitWidth),
    ] {
        let mut actions = Vec::new();
        viewer.message(key(pressed), 0, 0, 0, &mut actions).unwrap();
        assert_eq!(motions(&actions), [motion]);
    }
}

#[test]
fn the_mouse_drags_and_zooms() {
    let mut viewer = viewer();
    let mouse = |kind: MouseKind, x: u32, y: u32| {
        Some(Msg::Input(Event::Mouse(Mouse {
            kind,
            x,
            y,
            shift: false,
            ctrl: false,
        })))
    };
    let mut actions = Vec::new();
    viewer.message(mouse(MouseKind::Drag, 1, 1), 0, 0, 0, &mut actions).unwrap();
    assert!(actions.is_empty(), "nothing is dragged yet");
    viewer.message(mouse(MouseKind::Press(0), 10, 20), 0, 0, 0, &mut actions).unwrap();
    assert_eq!(written(&actions), "\x1b]22;grabbing\x1b\\");
    viewer.message(mouse(MouseKind::Drag, 30, 25), 0, 0, 0, &mut actions).unwrap();
    let from = Point { x: 20, y: 40 };
    let center = shot((1, 1)).camera.center;
    assert_eq!(
        motions(&actions),
        [Motion::Follow(Drag { from, center }, Point { x: 60, y: 50 })]
    );
    let mut actions = Vec::new();
    viewer.message(mouse(MouseKind::Release, 30, 25), 0, 0, 0, &mut actions).unwrap();
    assert_eq!(written(&actions), "\x1b]22;default\x1b\\");
    viewer.message(mouse(MouseKind::ScrollUp, 1, 2), 0, 0, 0, &mut actions).unwrap();
    assert_eq!(motions(&actions), [Motion::ZoomIn(115, Some(Point { x: 2, y: 4 }))]);
}

#[test]
fn inside_tmux_the_pointer_is_the_middle_of_its_cell() {
    let mouse = Mouse {
        kind: MouseKind::Move,
        x: 3,
        y: 0,
        shift: false,
        ctrl: false,
    };
    let grid = setup().grid;
    assert_eq!(pointer(&mouse, &grid, true), Point { x: 70, y: 20 });
    assert_eq!(pointer(&mouse, &grid, false), Point { x: 6, y: 0 });
}

#[test]
fn viewers_move_between_diagrams() {
    let mut viewer = viewer();
    let mut actions = Vec::new();
    viewer.message(key(Key::Char('n')), 0, 0, 0, &mut actions).unwrap();
    assert_eq!(viewer.camera(), None);
    let job = viewer.pump(0, &mut actions).unwrap();
    assert_eq!((job.index, job.source.as_str()), (1, "two"));
    viewer.message(viewed(0, (80, 23)), 0, 13, 0, &mut actions).unwrap();
    assert!(actions.is_empty(), "the first diagram is no longer wanted");
    assert_eq!(viewer.pump(0, &mut actions).unwrap().index, 1);
    viewer.message(viewed(1, (80, 23)), 0, 14, 99, &mut actions).unwrap();
    assert!(written(&actions).contains("doc.md › Second · 2/2 · 99% · "));
    viewer.message(key(Key::Tab), 0, 0, 0, &mut actions).unwrap();
    assert_eq!(viewer.pump(0, &mut actions).unwrap().index, 0);
    viewer.message(viewed(0, (80, 23)), 0, 15, 0, &mut actions).unwrap();
    viewer.message(key(Key::End), 0, 0, 0, &mut actions).unwrap();
    assert_eq!(viewer.pump(0, &mut actions).unwrap().index, 1);
}

#[test]
fn viewers_draw_again_when_the_terminal_changed_meanwhile() {
    let mut viewer = viewer();
    let mut actions = Vec::new();
    viewer.moved(shot((1, 1)).camera);
    viewer.pump(0, &mut actions).unwrap();
    viewer.message(viewed(0, (70, 20)), 0, 16, 100, &mut actions).unwrap();
    assert_eq!(viewer.pump(0, &mut actions).unwrap().grid, viewer.viewport());
}

#[test]
fn viewers_show_errors_and_recover() {
    let mut viewer = viewer();
    let mut actions = Vec::new();
    viewer.message(Some(Msg::Changed), 0, 0, 0, &mut actions).unwrap();
    assert!(matches!(actions[..], [Action::Read]));
    viewer.reload(None);
    assert!(viewer.pump(0, &mut actions).is_none());
    viewer.reload(Some(vec![diagram("broken")]));
    assert!(viewer.pump(0, &mut actions).unwrap().reload);
    let mut actions = Vec::new();
    let failed = Viewed {
        index: 0,
        result: Err(failure("bad")),
    };
    viewer.viewed(failed, 0, 0, &mut actions).unwrap();
    let out = written(&actions);
    assert!(out.contains("bad") && out.contains("\x1b_Ga=d,d=I,i=11,q=2"));
    viewer.reload(Some(Vec::new()));
    let mut actions = Vec::new();
    assert!(viewer.pump(0, &mut actions).is_none());
    let out = written(&actions);
    assert!(out.contains("no Mermaid diagram found\r\n") && out.contains("q to quit"));
    let late = Viewed {
        index: 0,
        result: Err(failure("late")),
    };
    let mut actions = Vec::new();
    viewer.viewed(late, 0, 0, &mut actions).unwrap();
    assert!(actions.is_empty(), "there is nothing to show it for");
}

#[test]
fn viewers_leave_the_screen_as_it_was() {
    let mut viewer = viewer();
    assert_eq!(viewer.message(key(Key::Char('q')), 0, 0, 0, &mut Vec::new()), Ok(Some(0)));
    let out = text(&viewer.finish());
    assert!(out.starts_with("\x1b_Ga=d,d=I,i=11,q=2\x1b\\"));
    assert!(out.ends_with("\x1b[?1049l"));
}

#[test]
fn captions_stand_above_their_diagrams() {
    let mut own = diagram("pie\n");
    own.caption = Some("Pets".to_string());
    assert_eq!(caption(&own), "\x1b[2mPets\x1b[22m\n");
    assert_eq!(dim("Pets"), "\x1b[2mPets\x1b[22m");
    let out = text(&inline_output(&own, &frame(2, 1), 4, false).unwrap());
    assert!(out.starts_with("\x1b[?2026h\x1b[2mPets\x1b[22m\n\x1b_G"));
    assert!(out.ends_with("\n\x1b[?2026l"));
    assert!(text_output(&own, "[art]", true).contains("Pets"));
    assert!(!text_output(&own, "[art]", false).contains('\x1b'));
}

#[test]
fn cancelled_renders_are_not_reported() {
    assert_eq!(report(&Failure::Cancelled, &diagram(""), false), None);
    assert_eq!(
        report(&Failure::Empty, &diagram(""), false).unwrap(),
        "error: no Mermaid diagram found\n --> doc.md\n"
    );
}

#[test]
fn stdin_is_read_like_a_file() {
    let source = "# Flow\n\n```mermaid\nflowchart LR\n  A --> B\n```\n\n```mermaid\npie\n```\n";
    for format in [None, Some(Format::Markdown), Some(Format::Mermaid)] {
        let found = at_once(source.as_bytes(), format);
        assert_eq!(found, mer::input::diagrams(source, "<stdin>", format));
    }
}

#[test]
fn narrow_lines_stay_whole() {
    assert_eq!(fit_line("abcde", 6), "abcde");
    assert_eq!(fit_line("\x1b[2mabcde\x1b[22m", 6), "\x1b[2mabcde\x1b[22m");
    assert_eq!(fit_line("\x1b[2mabcde\x1b[22mf", 6), "\x1b[2mabcd…\x1b[0m");
    assert_eq!(fit_line(&dim("12345"), 6), dim("12345"));
}

#[test]
fn forgotten_content_stays() {
    let mut region = Region::default();
    let none: Vec<String> = Vec::new();
    region.draw(b"", Picture::New(&frame(3, 2), 77), &none, Some("status"), 80);
    region.forget();
    assert!(!region.has_image());
    assert_eq!(region.lines_for_image(), 0);
    let next = text(&region.draw(b"", Picture::Keep, &none, Some("x"), 80));
    assert_eq!(next, "\x1b[?2026h\x1b[Jx\n\x1b[?2026l");
}

#[test]
fn layouts_are_dropped_when_the_inputs_are_new() {
    let mut viewer = viewer();
    let mut actions = Vec::new();
    viewer.message(key(Key::Char('n')), 0, 0, 0, &mut actions).unwrap();
    let job = viewer.pump(0, &mut actions).unwrap();
    assert!(!job.drops_layouts());
    viewer.message(viewed(1, (80, 23)), 0, 13, 0, &mut actions).unwrap();
    viewer.reload(Some(vec![diagram("three")]));
    let job = viewer.pump(0, &mut actions).unwrap();
    assert!(job.drops_layouts());
    assert_eq!(job.source, "three");
}
