//! Colors and themes.

use mer::display::{background, merge, site_config, BadBackground};
use mer::fonts;
use mer::json::Value;
use mer::term::probe::Caps;
use mer::theme::{terminal_theme, Palette, Rgb, Share, ONE};

fn value(text: &str) -> Value {
    read(&serde_json::from_str(text).unwrap())
}

fn read(json: &serde_json::Value) -> Value {
    match json {
        serde_json::Value::Null => Value::Null,
        serde_json::Value::Bool(b) => Value::Bool(*b),
        serde_json::Value::Number(n) => Value::Number(n.to_string()),
        serde_json::Value::String(s) => Value::Text(s.clone()),
        serde_json::Value::Array(items) => Value::Array(items.iter().map(read).collect()),
        serde_json::Value::Object(entries) => {
            Value::Object(entries.iter().map(|(key, v)| (key.clone(), read(v))).collect())
        }
    }
}

fn json(value: &Value) -> serde_json::Value {
    match value {
        Value::Null => serde_json::Value::Null,
        Value::Bool(b) => serde_json::Value::Bool(*b),
        Value::Number(n) => serde_json::from_str(n).unwrap(),
        Value::Text(s) => serde_json::Value::String(s.clone()),
        Value::Array(items) => serde_json::Value::Array(items.iter().map(json).collect()),
        Value::Object(entries) => {
            let mut map = serde_json::Map::new();
            for (key, v) in entries {
                map.entry(key.clone()).or_insert(json(v));
            }
            serde_json::Value::Object(map)
        }
    }
}

fn parsed(text: &str) -> serde_json::Value {
    serde_json::from_str(text).unwrap()
}

/// An amount in units of `ONE`.
fn amount(share: f32) -> u32 {
    (f64::from(share) * f64::from(ONE)) as u32
}

#[test]
fn parses_terminal_color_reports() {
    assert_eq!(Rgb::parse_x11("rgb:1e1e/1e1e/2e2e"), Some(Rgb(0x1e, 0x1e, 0x2e)));
    assert_eq!(Rgb::parse_x11("rgb:ff/80/00"), Some(Rgb(255, 128, 0)));
    assert_eq!(Rgb::parse_x11("rgb:f/0/f"), Some(Rgb(255, 0, 255)));
    assert_eq!(Rgb::parse_x11("#0a0b0c"), Some(Rgb(10, 11, 12)));
    assert_eq!(Rgb::parse_x11("#fff"), Some(Rgb(255, 255, 255)));
    assert_eq!(Rgb::parse_x11("rgb:1/2"), None);
    assert_eq!(Rgb::parse_x11("rgb:1/2/3/4"), None);
    assert_eq!(Rgb::parse_x11("cornflowerblue"), None);
}

#[test]
fn mixing_and_luminance() {
    let black = Rgb(0, 0, 0);
    let white = Rgb(255, 255, 255);
    assert_eq!(black.mix(white, amount(0.5)), Rgb(128, 128, 128));
    assert_eq!(black.mix(white, amount(0.0)), black);
    assert_eq!(black.mix(white, amount(1.0)), white);
    assert!(black.is_dark() && !white.is_dark());
    assert!(Rgb(0x1e, 0x1e, 0x2e).is_dark());
    assert!(!Rgb(0xef, 0xf1, 0xf5).is_dark());
    assert_eq!(Rgb(1, 171, 255).hex(), "#01abff");
}

/// One channel, mixed in single precision.
fn mixed_in_floats(a: u8, b: u8, amount: f32) -> u8 {
    (f32::from(a) + (f32::from(b) - f32::from(a)) * amount).round() as u8
}

#[test]
fn mixing_agrees_with_single_precision() {
    let shares: [(Share, f32); 21] = [
        (Share::P04, 0.04),
        (Share::P05, 0.05),
        (Share::P06, 0.06),
        (Share::P08, 0.08),
        (Share::P10, 0.10),
        (Share::P14, 0.14),
        (Share::P15, 0.15),
        (Share::P18, 0.18),
        (Share::P20, 0.20),
        (Share::P25, 0.25),
        (Share::P30, 0.30),
        (Share::P35, 0.35),
        (Share::P45, 0.45),
        (Share::P60, 0.60),
        (Share::P65, 0.65),
        (Share::P70, 0.70),
        (Share::P75, 0.75),
        (Share::P80, 0.80),
        (Share::P35Weak, 0.35 * 0.60),
        (Share::P75Weak, 0.75 * 0.60),
        (Share::Whole, 1.0),
    ];
    for (share, float) in shares {
        assert_eq!(share.amount(), amount(float), "{share:?}");
        for a in 0..=255_u8 {
            for b in 0..=255_u8 {
                assert_eq!(
                    Rgb(a, 0, 0).mix(Rgb(b, 0, 0), share.amount()).0,
                    mixed_in_floats(a, b, float),
                    "{a} {b} {float}"
                );
            }
        }
    }
}

fn linear_in_floats(c: u8) -> f32 {
    let c = f32::from(c) / 255.0;
    if c <= 0.04045 {
        c / 12.92
    } else {
        ((c + 0.055) / 1.055).powf(2.4)
    }
}

#[test]
fn darkness_agrees_with_single_precision() {
    let linear: Vec<f32> = (0..=255).map(linear_in_floats).collect();
    for r in 0..=255_u8 {
        for g in 0..=255_u8 {
            for b in 0..=255_u8 {
                let luminance = 0.2126 * linear[usize::from(r)]
                    + 0.7152 * linear[usize::from(g)]
                    + 0.0722 * linear[usize::from(b)];
                if Rgb(r, g, b).is_dark() != (luminance < 0.2) {
                    panic!("{r} {g} {b}");
                }
            }
        }
    }
}

#[test]
fn palette_records_replies_by_index() {
    let mut palette = Palette::default();
    palette.set(10, Rgb(1, 1, 1));
    palette.set(11, Rgb(2, 2, 2));
    palette.set(4, Rgb(3, 3, 3));
    palette.set(7, Rgb(4, 4, 4));
    assert_eq!(palette.fg, Some(Rgb(1, 1, 1)));
    assert_eq!(palette.bg, Some(Rgb(2, 2, 2)));
    assert_eq!(palette.ansi, [None, None, None, Some(Rgb(3, 3, 3)), None, None]);
}

#[test]
fn terminal_theme_needs_fg_and_bg() {
    let palette = Palette {
        bg: Some(Rgb(0, 0, 0)),
        ..Palette::default()
    };
    assert!(terminal_theme(&palette).is_none());
}

#[test]
fn terminal_theme_follows_the_terminal() {
    let mut dark = Palette {
        fg: Some(Rgb(0xcd, 0xd6, 0xf4)),
        bg: Some(Rgb(0x1e, 0x1e, 0x2e)),
        ..Palette::default()
    };
    dark.set(4, Rgb(0x89, 0xb4, 0xfa));
    let config = json(&terminal_theme(&dark).unwrap());
    let vars = &config["themeVariables"];
    assert_eq!(config["theme"], "base");
    assert_eq!(vars["darkMode"], true);
    assert_eq!(vars["primaryTextColor"], "#cdd6f4");
    assert_eq!(vars["edgeLabelBackground"], "#1e1e2e");
    let node = Rgb(0x1e, 0x1e, 0x2e).mix(Rgb(0x89, 0xb4, 0xfa), amount(0.2)).hex();
    assert_eq!(vars["primaryColor"], node);
    assert_eq!(vars["mainBkg"], node);
    assert_eq!(vars["stateBkg"], node);
    assert!(vars["cScale11"].is_string() && vars["pie12"].is_string());
    assert!(vars["git7"].is_string() && vars["fillType7"].is_string());
    assert!(vars["xyChart"]["plotColorPalette"].as_str().unwrap().starts_with("#89b4fa"));

    let light = Palette {
        fg: Some(Rgb(0x4c, 0x4f, 0x69)),
        bg: Some(Rgb(0xef, 0xf1, 0xf5)),
        ..Palette::default()
    };
    assert_eq!(json(&terminal_theme(&light).unwrap())["themeVariables"]["darkMode"], false);
}

#[test]
fn every_color_is_a_hex_string() {
    let palette = Palette {
        fg: Some(Rgb(0xcd, 0xd6, 0xf4)),
        bg: Some(Rgb(0x1e, 0x1e, 0x2e)),
        ..Palette::default()
    };
    let config = json(&terminal_theme(&palette).unwrap());
    for (name, value) in config["themeVariables"].as_object().unwrap() {
        match value {
            serde_json::Value::String(s) if name != "fontFamily" => {
                assert!(s.starts_with('#') && s.len() == 7, "{name} = {s}");
            }
            serde_json::Value::String(_)
            | serde_json::Value::Bool(_)
            | serde_json::Value::Object(_) => {}
            other => panic!("{name} = {other}"),
        }
    }
}

#[test]
fn display_merge_overlays_nested_objects() {
    let mut base = value(r#"{ "theme": "base", "themeVariables": { "a": 1, "b": 2 } }"#);
    merge(
        &mut base,
        value(r#"{ "themeVariables": { "b": 3 }, "flowchart": { "curve": "basis" } }"#),
    );
    assert_eq!(
        json(&base),
        parsed(
            r#"{ "theme": "base", "themeVariables": { "a": 1, "b": 3 }, "flowchart": { "curve": "basis" } }"#
        )
    );
}

#[test]
fn main_merge_overlays_nested_objects() {
    let mut base = value(r#"{ "theme": "base", "themeVariables": { "a": 1, "b": 2 } }"#);
    mer::json::merge(
        &mut base,
        &value(r#"{ "themeVariables": { "b": 3 }, "flowchart": { "curve": "basis" } }"#),
    );
    assert_eq!(
        json(&base),
        parsed(
            r#"{ "theme": "base", "themeVariables": { "a": 1, "b": 3 }, "flowchart": { "curve": "basis" } }"#
        )
    );
}

#[test]
fn other_values_are_replaced_when_merging() {
    let mut base = value(r#"{ "a": [1, 2], "b": { "c": null }, "d": true }"#);
    merge(&mut base, value(r#"{ "a": [3], "b": 5, "e": {} }"#));
    assert_eq!(json(&base), parsed(r#"{ "a": [3], "b": 5, "d": true, "e": {} }"#));
}

#[test]
fn user_configuration_wins_over_the_theme() {
    let config = json(&site_config("dark", None, Some(&value(r#"{ "theme": "forest" }"#))));
    assert_eq!(config["theme"], "forest");
    assert_eq!(config["fontFamily"], fonts::FAMILY);
}

#[test]
fn terminal_theme_falls_back_to_the_reported_scheme() {
    let caps = Caps {
        dark: Some(true),
        ..Caps::default()
    };
    assert_eq!(json(&site_config("terminal", Some(&caps), None))["theme"], "dark");
    assert_eq!(json(&site_config("terminal", None, None))["theme"], "default");
}

#[test]
fn backgrounds() {
    assert_eq!(background(None, "terminal", None).unwrap(), None);
    assert_eq!(background(None, "default", None).unwrap(), Some(Rgb(255, 255, 255)));
    assert_eq!(background(None, "neo-dark", None).unwrap(), Some(Rgb(0x33, 0x33, 0x33)));
    assert_eq!(background(Some("#010203"), "default", None).unwrap(), Some(Rgb(1, 2, 3)));
    assert!(background(Some("terminal"), "default", None).is_err());
    assert!(background(Some("mauve"), "default", None).is_err());
}

#[test]
fn backgrounds_of_the_terminal() {
    let palette = Palette {
        bg: Some(Rgb(9, 8, 7)),
        ..Palette::default()
    };
    assert_eq!(background(Some("terminal"), "default", Some(&palette)).unwrap(), Some(Rgb(9, 8, 7)));
    assert_eq!(background(Some("transparent"), "default", None).unwrap(), None);
    let mauve = background(Some("mauve"), "default", None).unwrap_err();
    assert!(mauve.message().contains("\"mauve\""), "{}", mauve.message());
    let unknown = background(Some("terminal"), "default", None).unwrap_err();
    assert!(!matches!(unknown, BadBackground::Unknown(_)));
}

#[test]
fn faces_follow_css_weight_and_style() {
    assert!(!fonts::face(None, None).bold);
    assert!(fonts::face(Some("bold"), None).bold);
    assert!(fonts::face(Some("600"), None).bold);
    assert!(!fonts::face(Some("500"), None).bold);
    assert!(fonts::face(Some("normal"), Some("italic")).italic);
}

#[test]
fn faces_are_numbered() {
    assert_eq!(fonts::face(None, None).index(), 0);
    assert_eq!(fonts::face(None, Some(" oblique ")).index(), 1);
    assert_eq!(fonts::face(Some(" bolder"), None).index(), 2);
    assert_eq!(fonts::face(Some("+700"), Some("italic")).index(), 3);
    assert_eq!(fonts::face(Some("70000"), None).index(), 0);
}

#[test]
fn channels_are_digits_alone() {
    assert_eq!(Rgb::parse_x11("rgb:+f/0/0"), None);
    assert_eq!(Rgb::parse_x11("#+f0"), None);
    assert_eq!(Rgb::parse_x11("rgb:/0/0"), None);
    assert_eq!(Rgb::parse_x11("rgb:12345/0/0"), None);
    assert_eq!(Rgb::parse_x11("rgb:fff/7ff/0"), Some(Rgb(255, 127, 0)));
}
