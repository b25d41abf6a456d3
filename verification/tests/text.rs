//! Text and bytes.

use mer::text;
use mer::utf8;

fn chars(s: &str) -> Vec<char> {
    s.chars().collect()
}

fn lossy(bytes: &[u8]) -> String {
    utf8::decode(bytes).into_iter().collect()
}

#[test]
fn white_space_and_control_characters_are_those_of_unicode() {
    for n in 0..=0x10_ffff_u32 {
        if let Some(c) = char::from_u32(n) {
            assert_eq!(text::is_whitespace(c), c.is_whitespace(), "{n:x}");
            assert_eq!(text::is_control(c), c.is_control(), "{n:x}");
            assert_eq!(text::to_lower(c), c.to_ascii_lowercase(), "{n:x}");
        }
    }
}

#[test]
fn lossy_decoding_replaces_what_is_not_utf8() {
    let samples: [&[u8]; 12] = [
        b"plain",
        "é → 図 🦀".as_bytes(),
        b"\xff",
        b"a\x80b",
        b"\xe2\x82",
        b"\xe2\x82x",
        b"\xf0\x9f\xa6",
        b"\xf0\x9f\xa6\xf0\x9f\xa6\x80",
        b"\xc0\xaf\xed\xa0\x80",
        b"\xf4\x90\x80\x80",
        b"\xe0\x80\x80",
        b"",
    ];
    for bytes in samples {
        assert_eq!(lossy(bytes), String::from_utf8_lossy(bytes), "{bytes:?}");
        let whole = match std::str::from_utf8(bytes) {
            Err(err) if err.error_len().is_none() => err.valid_up_to(),
            _ => bytes.len(),
        };
        assert_eq!(utf8::whole(bytes), whole, "{bytes:?}");
    }
}

#[test]
fn every_two_byte_input_decodes_as_the_standard_library_does() {
    for a in 0..=255_u8 {
        for b in 0..=255_u8 {
            let bytes = [a, b];
            assert_eq!(lossy(&bytes), String::from_utf8_lossy(&bytes));
            let more = [0xe2, a, b, 0x41];
            assert_eq!(lossy(&more), String::from_utf8_lossy(&more));
            let four = [0xf0, a, b, 0x80];
            assert_eq!(lossy(&four), String::from_utf8_lossy(&four));
        }
    }
}

#[test]
fn decoding_in_steps_loses_nothing() {
    let bytes = "é → 図 🦀 end".as_bytes();
    for cut in 0..=bytes.len() {
        let whole = utf8::whole(&bytes[..cut]);
        let mut all = lossy(&bytes[..whole]);
        all.push_str(&lossy(&bytes[whole..]));
        assert_eq!(all, "é → 図 🦀 end");
    }
}

#[test]
fn characters_are_counted_by_their_bytes() {
    let text = chars("aé🦀");
    assert_eq!(utf8::count_within(&text, 0), 0);
    assert_eq!(utf8::count_within(&text, 1), 1);
    assert_eq!(utf8::count_within(&text, 2), 1);
    assert_eq!(utf8::count_within(&text, 3), 2);
    assert_eq!(utf8::count_within(&text, 6), 2);
    assert_eq!(utf8::count_within(&text, 99), 3);
}

#[test]
fn lines_and_words() {
    assert_eq!(text::all_lines("a\r\nb\n\nc"), ["a", "b", "", "c"]);
    assert_eq!(text::some_lines("a\nb\nc\n", 2), ["a", "b"]);
    assert_eq!(text::collapse("  a \t b\n c "), "a b c");
    assert_eq!(text::collapse(" \n"), "");
    assert_eq!(text::trim(&chars("\u{a0} x \u{3000}")), chars("x").as_slice());
}

#[test]
fn numbers_are_read_as_the_standard_library_reads_them() {
    for s in ["", "+", "0", "+7", "007", "-1", "255", "256", "12a", "99999999999999999999"] {
        assert_eq!(
            text::parse_number(&chars(s), 10, 255),
            s.parse::<u8>().ok().map(u64::from),
            "{s:?}"
        );
    }
    let mut s = String::from("n=");
    text::push_decimal(&mut s, 340282366920938463463374607431768211455);
    assert_eq!(s, "n=340282366920938463463374607431768211455");
}
