//! Measuring and drawing with fonts.

use mer::engine::measure::{label_width, measured, shaped_width, widest, Ratios, Width, MAX_CACHED};
use mer::fonts::{is_unusual, loads_system_fonts, needs_fallback};
use mer::raster::straight_rgba;
use resvg::tiny_skia;

fn put16(out: &mut Vec<u8>, values: &[u16]) {
    for value in values {
        out.extend_from_slice(&value.to_be_bytes());
    }
}

fn put32(out: &mut Vec<u8>, values: &[u32]) {
    for value in values {
        out.extend_from_slice(&value.to_be_bytes());
    }
}

/// A font with 1000 units to the em and glyphs for a space (250), A (600), B (700) and é (550).
fn font() -> Vec<u8> {
    let mut head = Vec::new();
    put32(&mut head, &[0x0001_0000, 0x0001_0000, 0, 0x5f0f_3cf5]);
    put16(&mut head, &[0, 1000]);
    put32(&mut head, &[0, 0, 0, 0]);
    put16(&mut head, &[0, 0, 1000, 1000, 0, 8, 2, 0, 0]);

    let mut hhea = Vec::new();
    put32(&mut hhea, &[0x0001_0000]);
    put16(&mut hhea, &[800, 65336, 0, 700, 0, 0, 700, 1, 0, 0, 0, 0, 0, 0, 0, 5]);

    let mut maxp = Vec::new();
    put32(&mut maxp, &[0x0000_5000]);
    put16(&mut maxp, &[5]);

    let mut hmtx = Vec::new();
    put16(&mut hmtx, &[500, 0, 250, 0, 600, 0, 700, 0, 550, 0]);

    let mut cmap = Vec::new();
    put16(&mut cmap, &[0, 1, 3, 10]);
    put32(&mut cmap, &[12]);
    put16(&mut cmap, &[12, 0]);
    put32(&mut cmap, &[16 + 3 * 12, 0, 3]);
    put32(&mut cmap, &[0x20, 0x20, 1]);
    put32(&mut cmap, &[0x41, 0x42, 2]);
    put32(&mut cmap, &[0xe9, 0xe9, 4]);

    let tables: [(&[u8; 4], Vec<u8>); 5] = [
        (b"cmap", cmap),
        (b"head", head),
        (b"hhea", hhea),
        (b"hmtx", hmtx),
        (b"maxp", maxp),
    ];
    let mut out = Vec::new();
    put32(&mut out, &[0x0001_0000]);
    put16(&mut out, &[5, 64, 2, 16]);
    let mut offset = 12 + 16 * 5;
    for (tag, data) in &tables {
        out.extend_from_slice(*tag);
        put32(&mut out, &[0, offset, data.len() as u32]);
        offset += (data.len() as u32).div_ceil(4) * 4;
    }
    for (_, data) in &tables {
        out.extend_from_slice(data);
        while out.len() % 4 != 0 {
            out.push(0);
        }
    }
    out
}

fn width(advance: i128) -> Option<Width> {
    Some(Width {
        advance,
        units_per_em: 1000,
    })
}

#[test]
fn lines_are_as_wide_as_their_glyphs() {
    let font = font();
    assert_eq!(shaped_width(&font, "A"), width(600));
    assert_eq!(shaped_width(&font, "  A \t B\n"), width(600 + 250 + 700));
    assert_eq!(shaped_width(&font, "é"), width(550));
    assert_eq!(
        shaped_width(&font, "  "),
        Some(Width {
            advance: 0,
            units_per_em: 1
        })
    );
    assert_eq!(shaped_width(b"no font", "A"), None);
}

#[test]
fn labels_are_as_wide_as_their_widest_line() {
    let font = font();
    assert_eq!(label_width(&font, "A<br>AB"), width(1300));
    assert_eq!(label_width(&font, "ABA\nA"), width(1900));
    assert_eq!(label_width(&font, "AB<bR \t\n/>A"), width(1300));
    assert_eq!(label_width(&font, "A<br/>A<BR>A<br >"), width(600));
    assert_eq!(label_width(&font, "AB<br />\n \t\u{c}\r\n"), width(1300));
    assert!(label_width(&font, "A<br//>A").unwrap().advance > 1200);
    assert_eq!(label_width(b"no font", "A"), None);
    let lines = vec!["".to_string(), "B".to_string(), "A".to_string()];
    assert_eq!(widest(&font, &lines), width(700));
}

#[test]
fn advances_add_up() {
    let all = measured(&[i32::MAX, i32::MAX, -5], 2048);
    assert_eq!(all.advance, 2 * i128::from(i32::MAX) - 5);
    assert_eq!(all.units_per_em, 2048);
    assert_eq!(measured(&[], 0).units_per_em, 1);
}

#[test]
fn system_fonts_are_needed_for_what_the_font_lacks() {
    let font = font();
    assert!(!needs_fallback("plain ASCII, though the font lacks most of it", &font));
    assert!(!needs_fallback("é\u{a0}\u{85}", &font));
    assert!(needs_fallback("図", &font));
    assert!(needs_fallback("A 🦀", &font));
    assert!(needs_fallback("A", b"no font"));
    assert!(loads_system_fonts(false, "図", &font));
    assert!(!loads_system_fonts(true, "図", &font));
    assert!(!loads_system_fonts(false, "é", &font));
}

#[test]
fn only_visible_characters_beyond_ascii_are_looked_up() {
    assert!(is_unusual('é') && is_unusual('\u{200b}'));
    assert!(!is_unusual('z') && !is_unusual('\u{7f}'));
    assert!(!is_unusual('\u{3000}') && !is_unusual('\u{9f}'));
}

#[test]
fn ratios_are_kept_apart_and_bounded() {
    let mut ratios = Ratios::new();
    let size = 16.0_f64.to_bits();
    ratios.insert(0, size, "cached", 1);
    ratios.insert(0, size, "cached", 2);
    assert_eq!(ratios.count(), 1);
    assert_eq!(ratios.get(0, size, "cached"), Some(2));
    assert_eq!(ratios.get(1, size, "cached"), None);
    assert_eq!(ratios.get(0, size + 1, "cached"), None);
    assert_eq!(ratios.get(0, size, "other"), None);
    for n in 1..MAX_CACHED {
        ratios.insert(3, size, &format!("label {n}"), n as u64);
    }
    assert_eq!(ratios.count(), MAX_CACHED);
    ratios.insert(3, size, "one more", 7);
    assert_eq!(ratios.count(), 1);
    assert_eq!(ratios.get(3, size, "one more"), Some(7));
}

#[test]
fn pixels_are_demultiplied() {
    let mut pixmap = tiny_skia::Pixmap::new(4, 2).unwrap();
    pixmap.fill(tiny_skia::Color::from_rgba8(200, 100, 50, 128));
    let rgba = straight_rgba(pixmap.data());
    assert_eq!(rgba.len(), 4 * 2 * 4);
    for (pixel, straight) in pixmap.pixels().iter().zip(rgba.chunks(4)) {
        let color = pixel.demultiply();
        assert_eq!(straight, [color.red(), color.green(), color.blue(), color.alpha()]);
        assert_eq!(straight[3], 128);
        assert!((199..=201).contains(&straight[0]));
    }
    assert_eq!(straight_rgba(&[1, 2, 3, 255, 0, 0, 0, 0]), [1, 2, 3, 255, 0, 0, 0, 0]);
    assert_eq!(straight_rgba(&[2, 3, 5, 40]), [13, 19, 32, 40]);
}
