//! What mer and the terminal say to each other.

use std::io::Read;

use base64::Engine as _;
use flate2::read::ZlibDecoder;

use mer::render::{write_cells, write_inline, Frame};
use mer::term::diacritics::DIACRITICS;
use mer::term::input::{Decoder, Event, Key, MouseKind};
use mer::term::kitty::{
    delete, placeholder_row, random_id, transmit_virtual, write_chunked, CHUNK_BYTES, MAX_CELLS,
    PLACEHOLDER,
};
use mer::term::probe::{apply, cell_size, color_queries, queries, Caps, Probe};
use mer::term::{for_terminal, passthrough};
use mer::theme::Rgb;

fn keys(bytes: &[u8]) -> Vec<Event> {
    Decoder::default().feed(bytes)
}

#[test]
fn plain_and_control_keys() {
    assert_eq!(
        keys(b"q\x03\r\x7f\t"),
        [
            Event::Key(Key::Char('q')),
            Event::Key(Key::Ctrl('c')),
            Event::Key(Key::Enter),
            Event::Key(Key::Backspace),
            Event::Key(Key::Tab),
        ]
    );
    assert_eq!(keys("é".as_bytes()), [Event::Key(Key::Char('é'))]);
}

#[test]
fn utf8_split_across_reads() {
    let mut decoder = Decoder::default();
    let bytes = "→".as_bytes();
    assert!(decoder.feed(&bytes[..1]).is_empty());
    assert_eq!(decoder.feed(&bytes[1..]), [Event::Key(Key::Char('→'))]);
}

#[test]
fn navigation_keys() {
    assert_eq!(
        keys(b"\x1b[A\x1bOB\x1b[1;2C\x1b[D\x1b[5~\x1b[6~\x1b[H\x1b[4~"),
        [
            Event::Key(Key::Up),
            Event::Key(Key::Down),
            Event::Key(Key::Right),
            Event::Key(Key::Left),
            Event::Key(Key::PageUp),
            Event::Key(Key::PageDown),
            Event::Key(Key::Home),
            Event::Key(Key::End),
        ]
    );
}

#[test]
fn escape_waits_for_a_continuation() {
    let mut decoder = Decoder::default();
    assert!(decoder.feed(b"\x1b").is_empty());
    assert!(decoder.pending_escape());
    assert_eq!(decoder.flush(), Some(Event::Key(Key::Escape)));
    assert_eq!(decoder.flush(), None);
    assert!(decoder.feed(b"\x1b").is_empty());
    assert_eq!(decoder.feed(b"[B"), [Event::Key(Key::Down)]);
}

#[test]
fn sgr_mouse_events() {
    let events = keys(b"\x1b[<0;101;51M\x1b[<32;120;60M\x1b[<0;120;60m\x1b[<64;5;5M\x1b[<81;5;5M");
    let kinds: Vec<_> = events
        .iter()
        .map(|e| match e {
            Event::Mouse(m) => m.kind,
            other => panic!("unexpected {other:?}"),
        })
        .collect();
    assert_eq!(
        kinds,
        [
            MouseKind::Press(0),
            MouseKind::Drag,
            MouseKind::Release,
            MouseKind::ScrollUp,
            MouseKind::ScrollDown,
        ]
    );
    let Event::Mouse(first) = events[0] else { unreachable!() };
    assert_eq!((first.x, first.y), (100, 50));
    let Event::Mouse(last) = events[4] else { unreachable!() };
    assert!(last.ctrl && !last.shift);
}

#[test]
fn terminal_reports() {
    assert_eq!(
        keys(b"\x1b[?997;2n\x1b[48;40;120;1360;2040t\x1b]11;rgb:ffff/ffff/ffff\x1b\\\x1b]4;4;rgb:00/00/ff\x07"),
        [
            Event::ColorScheme { dark: false },
            Event::Resize {
                cols: 120,
                rows: 40,
                width: 2040,
                height: 1360
            },
            Event::Color {
                index: 11,
                rgb: Rgb(255, 255, 255)
            },
            Event::Color {
                index: 4,
                rgb: Rgb(0, 0, 255)
            },
        ]
    );
}

#[test]
fn probe_replies() {
    assert_eq!(
        keys(b"\x1b_Gi=31;OK\x1b\\\x1b_Gi=31;ENOTSUPPORTED:no\x07\x1b[6;34;17t\x1b[4;1360;2890t\x1b[?62;22c"),
        [
            Event::Graphics { id: 31, ok: true },
            Event::Graphics { id: 31, ok: false },
            Event::CellSize {
                width: 17,
                height: 34
            },
            Event::TextArea {
                width: 2890,
                height: 1360
            },
            Event::DeviceAttributes,
        ]
    );
}

#[test]
fn unknown_sequences_are_skipped() {
    assert_eq!(
        keys(b"\x1b_Xnot graphics\x1b\\\x1bP1$r0m\x1b\\\x1b[>1;10;0c\x1b[5nx"),
        [Event::Key(Key::Char('x'))]
    );
}

#[test]
fn splitting_reads_changes_no_event() {
    let bytes = "é\x1b[<64;5;5M\x1b]11;rgb:ffff/ffff/ffff\x1b\\\x1b_Gi=31;OK\x1b\\\x1b[A図x"
        .as_bytes();
    let whole = keys(bytes);
    assert_eq!(whole.len(), 7);
    for cut in 0..=bytes.len() {
        let mut decoder = Decoder::default();
        let mut events = decoder.feed(&bytes[..cut]);
        events.extend(decoder.feed(&bytes[cut..]));
        assert_eq!(events, whole, "cut at {cut}");
    }
}

/// Splits output into (control, payload) pairs, one per graphics escape sequence.
fn sequences(bytes: &[u8]) -> Vec<(String, String)> {
    std::str::from_utf8(bytes)
        .unwrap()
        .split_terminator("\x1b\\")
        .map(|seq| {
            let body = seq.strip_prefix("\x1b_G").expect("graphics escape");
            let (control, payload) = body.split_once(';').unwrap();
            (control.to_string(), payload.to_string())
        })
        .collect()
}

fn decode(seqs: &[(String, String)]) -> Vec<u8> {
    let joined: String = seqs.iter().map(|(_, payload)| payload.as_str()).collect();
    let compressed = base64::engine::general_purpose::STANDARD.decode(joined).unwrap();
    let mut rgba = Vec::new();
    ZlibDecoder::new(&compressed[..]).read_to_end(&mut rgba).unwrap();
    rgba
}

#[test]
fn large_images_are_chunked_and_round_trip() {
    // Noise does not compress, so the payload needs several chunks.
    let mut state: u32 = 0x1234_5678;
    let rgba: Vec<u8> = (0..64 * 64 * 4)
        .map(|_| {
            state ^= state << 13;
            state ^= state >> 17;
            state ^= state << 5;
            state as u8
        })
        .collect();
    let mut out = Vec::new();
    transmit_virtual(&mut out, 0xabcdef, &rgba, (64, 64), (4, 2)).unwrap();

    let seqs = sequences(&out);
    assert!(seqs.len() > 2);
    assert_eq!(
        seqs[0].0,
        "a=T,U=1,i=11259375,f=32,s=64,v=64,c=4,r=2,t=d,o=z,q=2,m=1"
    );
    for (control, _) in &seqs[1..seqs.len() - 1] {
        assert_eq!(control, "m=1,q=2");
    }
    assert_eq!(seqs.last().unwrap().0, "m=0,q=2");
    assert!(seqs.iter().all(|(_, payload)| payload.len() <= CHUNK_BYTES));
    assert_eq!(decode(&seqs), rgba);
}

#[test]
fn small_images_fit_one_sequence() {
    let rgba = [0u8; 2 * 2 * 4];
    let mut out = Vec::new();
    transmit_virtual(&mut out, 7, &rgba, (2, 2), (1, 1)).unwrap();
    let seqs = sequences(&out);
    assert_eq!(seqs.len(), 1);
    assert!(seqs[0].0.ends_with(",m=0"));
    assert_eq!(decode(&seqs), rgba);
}

#[test]
fn chunks_make_up_the_payload() {
    for len in [0, 1, 4095, 4096, 4097, 8192, 10_000] {
        let payload: Vec<u8> = (0..len).map(|i| b'A' + (i % 26) as u8).collect();
        let mut out = b"before".to_vec();
        write_chunked(&mut out, "a=T", &payload);
        let seqs = sequences(out.strip_prefix(b"before").unwrap());
        let joined: String = seqs.iter().map(|(_, part)| part.as_str()).collect();
        assert_eq!(joined.as_bytes(), payload);
        assert!(seqs.iter().all(|(_, part)| part.len() <= CHUNK_BYTES));
    }
}

#[test]
fn placeholder_cells_encode_id_row_and_column() {
    let mut row = String::new();
    placeholder_row(&mut row, 0x123456, 1, 3);
    let p = PLACEHOLDER;
    let expected = format!(
        "\x1b[38;2;18;52;86m{p}\u{30D}\u{305}{p}\u{30D}\u{30D}{p}\u{30D}\u{30E}\x1b[39m"
    );
    assert_eq!(row, expected);
}

#[test]
fn small_ids_use_palette_colors() {
    let mut row = String::new();
    placeholder_row(&mut row, 200, 0, 1);
    assert!(row.starts_with("\x1b[38;5;200m"));
}

#[test]
fn row_and_column_marks_are_all_different() {
    let marks: Vec<char> = DIACRITICS.chars().collect();
    assert_eq!(marks.len(), usize::from(MAX_CELLS));
    for (i, a) in marks.iter().enumerate() {
        for b in &marks[i + 1..] {
            assert_ne!(a, b);
        }
    }
    let mut row = String::new();
    placeholder_row(&mut row, 1, MAX_CELLS - 1, MAX_CELLS);
    assert_eq!(row.matches(PLACEHOLDER).count(), usize::from(MAX_CELLS));
}

#[test]
fn delete_frees_image_data() {
    let mut out = Vec::new();
    delete(&mut out, 42);
    assert_eq!(out, b"\x1b_Ga=d,d=I,i=42,q=2\x1b\\");
}

#[test]
fn ids_fit_in_24_bits() {
    let mut state: u64 = 88172645463325252;
    for _ in 0..100 {
        state ^= state << 13;
        state ^= state >> 7;
        state ^= state << 17;
        let id = random_id(state, false);
        assert!((1..=0xff_ffff).contains(&id));
    }
}

#[test]
fn ids_are_never_zero_and_fit_a_byte_inside_tmux() {
    assert_eq!(random_id(0x1234_5678_9abc, false), 0x789abc);
    assert_eq!(random_id(0x1234_5678_9abc, true), 0xbc);
    assert_eq!(random_id(0x100_0000, false), 1);
    assert_eq!(random_id(0x100, true), 1);
}

#[test]
fn frames_are_sent_once_and_placed_by_their_cells() {
    let frame = Frame {
        rgba: vec![9; 3 * 2 * 4],
        pixels: (3, 2),
        cols: 3,
        rows: 2,
        elapsed: 0,
    };
    let mut out = Vec::new();
    write_inline(&mut out, &frame, 300).unwrap();
    let mut cells = Vec::new();
    write_cells(&mut cells, 300, 3, 2);
    assert!(out.ends_with(&cells));
    let sent = &out[..out.len() - cells.len()];
    assert_eq!(decode(&sequences(sent)), frame.rgba);
    assert_eq!(cells.iter().filter(|&&byte| byte == b'\n').count(), 2);
}

#[test]
fn graphics_sequences_are_wrapped_for_tmux() {
    let output = b"text\x1b_Ga=T,i=1;QUFB\x1b\\\x1b[38;5;1m\x1b_Gm=0;\x1b\\done";
    assert_eq!(
        passthrough(output),
        b"text\x1bPtmux;\x1b\x1b_Ga=T,i=1;QUFB\x1b\x1b\\\x1b\\\x1b[38;5;1m\
\x1bPtmux;\x1b\x1b_Gm=0;\x1b\x1b\\\x1b\\done"
            .to_vec()
    );
}

#[test]
fn other_output_passes_unchanged() {
    let output = b"\x1b[?2026h plain \x1b]11;?\x1b\\ text";
    assert_eq!(passthrough(output), output.to_vec());
}

#[test]
fn output_is_wrapped_only_inside_tmux() {
    let output = b"a\x1b_Gi=1;\x1b\\b";
    assert_eq!(for_terminal(output, false), output.to_vec());
    assert_eq!(for_terminal(output, true), passthrough(output));
    let unfinished = b"a\x1b_Gi=1;";
    assert_eq!(passthrough(unfinished), unfinished.to_vec());
}

const GHOSTTY_REPLIES: &[u8] = b"\x1b_Gi=31;OK\x1b\\\x1b[6;34;17t\x1b[4;1360;2890t\
\x1b]10;rgb:d8d8/dada/dede\x1b\\\x1b]11;rgb:1e1e/1e1e/2e2e\x1b\\\
\x1b]4;3;rgb:f9f9/e2e2/afaf\x1b\\\x1b]4;4;rgb:8989/b4b4/fafa\x1b\\\
\x1b]4;5;rgb:cbcb/a6a6/f7f7\x1b\\\x1b[?997;1n\x1b[?62;22c";

fn run(chunks: &[&[u8]]) -> (Caps, bool) {
    let mut caps = Caps::default();
    let mut decoder = Decoder::default();
    let mut done = false;
    for chunk in chunks {
        for event in decoder.feed(chunk) {
            done |= apply(&mut caps, event);
        }
    }
    (caps, done)
}

#[test]
fn parses_a_full_ghostty_reply() {
    let (caps, done) = run(&[GHOSTTY_REPLIES]);
    assert!(done && caps.responded);
    assert!(caps.kitty_graphics);
    assert_eq!(caps.cell, Some((17, 34)));
    assert_eq!(caps.text_area, Some((2890, 1360)));
    assert_eq!(caps.palette.fg, Some(Rgb(0xd8, 0xda, 0xde)));
    assert_eq!(caps.palette.bg, Some(Rgb(0x1e, 0x1e, 0x2e)));
    assert_eq!(caps.palette.ansi[3], Some(Rgb(0x89, 0xb4, 0xfa)));
    assert_eq!(caps.dark, Some(true));
}

#[test]
fn replies_split_across_reads() {
    let (a, b) = GHOSTTY_REPLIES.split_at(37);
    let (b, c) = b.split_at(5);
    assert_eq!(run(&[a, b, c]), run(&[GHOSTTY_REPLIES]));
}

#[test]
fn terminal_without_graphics() {
    let (caps, done) = run(&[b"\x1b_Gi=31;ENOTSUPPORTED:no\x1b\\\x1b[?1;2c"]);
    assert!(done);
    assert!(!caps.kitty_graphics);
    let (caps, done) = run(&[b"typed ahead\x1b[?64;4c"]);
    assert!(done && !caps.kitty_graphics && caps.cell.is_none());
}

#[test]
fn inside_tmux_the_graphics_query_is_wrapped() {
    let wrapped = queries(true);
    assert!(wrapped.starts_with(b"\x1bPtmux;\x1b\x1b_Gi=31"));
    assert!(wrapped.ends_with(b"\x1b[c"));
    assert!(queries(false).starts_with(b"\x1b_Gi=31"));
}

#[test]
fn queries_ask_for_the_colors() {
    let queries = queries(false);
    let asked = color_queries();
    assert!(queries.windows(asked.len()).any(|window| window == asked.as_bytes()));
    assert!(asked.contains("\x1b]11;?"));
}

#[test]
fn osc_terminated_by_bel() {
    let (caps, _) = run(&[b"\x1b]11;rgb:ffff/ffff/ffff\x07"]);
    assert_eq!(caps.palette.bg, Some(Rgb(255, 255, 255)));
}

#[test]
fn cell_size_from_pixels() {
    assert_eq!(cell_size(Some((1700, 1020)), 100, 30), Some((17, 34)));
    assert_eq!(cell_size(None, 100, 30), None);
    assert_eq!(cell_size(Some((50, 50)), 100, 30), None);
}

#[test]
fn probes_end_with_the_last_reply() {
    let mut probe = Probe::new(120, 40, false, 1000, 500);
    assert_eq!(probe.left(1000), Some(500));
    probe.absorb(&GHOSTTY_REPLIES[..40], 1100);
    assert_eq!(probe.left(1100), Some(400));
    probe.absorb(&GHOSTTY_REPLIES[40..], 1200);
    assert_eq!(probe.left(1200), None);
    let caps = probe.finish((0, 0));
    assert!(caps.responded && caps.kitty_graphics);
    assert_eq!((caps.cols, caps.rows), (120, 40));
    assert_eq!(caps.cell, Some((17, 34)));
}

#[test]
fn probes_that_get_no_reply_time_out() {
    let mut probe = Probe::new(100, 30, false, 0, 500);
    probe.absorb(b"x", 100);
    assert!(probe.left(499).is_some());
    assert_eq!(probe.left(501), None);
    let caps = probe.finish((1700, 1020));
    assert!(!caps.responded);
    assert_eq!(caps.cell, Some((17, 34)));
}

#[test]
fn probes_end_when_the_terminal_is_gone() {
    let mut probe = Probe::new(100, 30, false, 0, 500);
    probe.absorb(b"", 100);
    assert_eq!(probe.left(100), None);
}

#[test]
fn inside_tmux_graphics_replies_are_waited_for() {
    let mut probe = Probe::new(100, 30, true, 0, 5000);
    probe.absorb(b"\x1b[?62;22c", 10);
    let left = probe.left(10).expect("still waiting");
    assert!(left <= 250);
    probe.absorb(b"\x1b_Gi=31;OK\x1b\\", 20);
    assert_eq!(probe.left(20), None);
    assert!(probe.finish((0, 0)).kitty_graphics);
}

#[test]
fn queries_inside_tmux_are_the_wrapped_plain_ones() {
    assert_eq!(queries(true), passthrough(&queries(false)));
    for tmux in [false, true] {
        let queries = queries(tmux);
        let device = queries.windows(3).filter(|window| window == b"\x1b[c").count();
        assert_eq!(device, 1);
        assert!(queries.ends_with(b"\x1b[c"));
    }
}

#[test]
fn wrapping_can_be_undone() {
    let output = b"a\x1b_Gi=1;\x1b\x1b;QQ\x1b\\b\x1b_Gm=0;\x1b\\\x1b_Gunfinished";
    let wrapped = passthrough(output);
    let mut bytes = Vec::new();
    let mut rest = &wrapped[..];
    while let Some(at) = rest.windows(7).position(|window| window == b"\x1bPtmux;") {
        bytes.extend_from_slice(&rest[..at]);
        rest = &rest[at + 7..];
        while rest[..2] != *b"\x1b\\" {
            bytes.push(rest[0]);
            rest = &rest[if rest[0] == 0x1b { 2 } else { 1 }..];
        }
        rest = &rest[2..];
    }
    bytes.extend_from_slice(rest);
    assert_eq!(bytes, output.to_vec());
}
