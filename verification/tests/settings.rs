//! What the command line and the configuration file ask for.

use mer::cli::{
    check_result, draws_once, exit_code, export_format, mode, numbered, select, Cli, FitArg, Misuse, Mode,
    OutputFormat, Protocol, StdinFormat,
};
use mer::display::{
    background, doctor, drawn_background, export_theme, need, no_diagrams, notice, probe_timeout,
    text_width, Checkup, Found, Need, Setup, Unusable,
};
use mer::input::{Diagram, Format};
use mer::json::Value;
use mer::settings::{config_path, file_action, BadScale, File, FileAction, Settings};
use mer::size::{limits, Fit, Grid, Plan};
use mer::term::probe::Caps;
use mer::theme::Rgb;

fn cli() -> Cli {
    Cli {
        inputs: Vec::new(),
        watch: false,
        interactive: false,
        check: false,
        diagram: None,
        stdin_format: StdinFormat::Auto,
        theme: None,
        background: None,
        config: None,
        scale: None,
        fit: None,
        output: None,
        format: None,
        protocol: None,
        doctor: false,
    }
}

fn inputs(names: &[&str]) -> Vec<String> {
    names.iter().map(|name| name.to_string()).collect()
}

fn file() -> File {
    File {
        theme: None,
        background: None,
        scale: None,
        fit: None,
        protocol: None,
        mermaid: None,
    }
}

fn value(text: &str) -> Value {
    read(&serde_json::from_str(text).unwrap())
}

fn read(json: &serde_json::Value) -> Value {
    match json {
        serde_json::Value::Null => Value::Null,
        serde_json::Value::Bool(b) => Value::Bool(*b),
        serde_json::Value::Number(n) => Value::Number(n.to_string()),
        serde_json::Value::String(s) => Value::Text(s.clone()),
        serde_json::Value::Array(items) => Value::Array(items.iter().map(read).collect()),
        serde_json::Value::Object(entries) => {
            Value::Object(entries.iter().map(|(key, v)| (key.clone(), read(v))).collect())
        }
    }
}

fn json(value: &Value) -> serde_json::Value {
    match value {
        Value::Null => serde_json::Value::Null,
        Value::Bool(b) => serde_json::Value::Bool(*b),
        Value::Number(n) => serde_json::from_str(n).unwrap(),
        Value::Text(s) => serde_json::Value::String(s.clone()),
        Value::Array(items) => serde_json::Value::Array(items.iter().map(json).collect()),
        Value::Object(entries) => {
            let mut map = serde_json::Map::new();
            for (key, v) in entries {
                map.entry(key.clone()).or_insert(json(v));
            }
            serde_json::Value::Object(map)
        }
    }
}

#[test]
fn defaults_without_flags_or_file() {
    let settings = Settings::resolve(&cli(), file(), None).unwrap();
    assert_eq!(f32::from_bits(settings.scale), 1.0);
    assert_eq!(settings.fit, FitArg::Width);
    assert_eq!(settings.protocol, Protocol::Auto);
    assert_eq!(settings.theme, None);
    assert!(settings.mermaid.is_none());
}

#[test]
fn flags_override_the_file() {
    let config = File {
        theme: Some("dark".to_string()),
        scale: Some(1.5_f32.to_bits()),
        fit: Some(FitArg::Contain),
        protocol: Some(Protocol::Text),
        ..file()
    };
    let from_file = Settings::resolve(&cli(), config, None).unwrap();
    assert_eq!(from_file.theme.as_deref(), Some("dark"));
    assert_eq!(f32::from_bits(from_file.scale), 1.5);
    assert_eq!(from_file.fit, FitArg::Contain);
    assert_eq!(from_file.protocol, Protocol::Text);

    let config = File {
        theme: Some("dark".to_string()),
        scale: Some(1.5_f32.to_bits()),
        ..file()
    };
    let flags = Cli {
        theme: Some("forest".to_string()),
        scale: Some(2.0_f32.to_bits()),
        ..cli()
    };
    let flags = Settings::resolve(&flags, config, None).unwrap();
    assert_eq!(flags.theme.as_deref(), Some("forest"));
    assert_eq!(f32::from_bits(flags.scale), 2.0);
}

#[test]
fn mermaid_configuration_merges_file_then_flag() {
    let config = File {
        mermaid: Some(value(r#"{ "theme": "base", "flowchart": { "curve": "basis" } }"#)),
        ..file()
    };
    let flag = value(r#"{ "flowchart": { "curve": "linear" }, "fontSize": 18 }"#);
    let settings = Settings::resolve(&cli(), config, Some(flag)).unwrap();
    assert_eq!(
        settings.mermaid.as_ref().map(json),
        Some(
            serde_json::from_str(
                r#"{ "theme": "base", "flowchart": { "curve": "linear" }, "fontSize": 18 }"#
            )
            .unwrap()
        )
    );
}

#[test]
fn scales_have_to_be_positive_numbers() {
    for scale in [-1.0, 0.0, -0.0, f32::INFINITY, f32::NAN, f32::NEG_INFINITY] {
        let config = File {
            scale: Some(scale.to_bits()),
            ..file()
        };
        assert_eq!(
            Settings::resolve(&cli(), config, None).unwrap_err(),
            BadScale(scale.to_bits()),
            "{scale}"
        );
    }
    for scale in [f32::MIN_POSITIVE, f32::from_bits(1), 0.5, f32::MAX] {
        let flags = Cli {
            scale: Some(scale.to_bits()),
            ..cli()
        };
        assert!(Settings::resolve(&flags, file(), None).is_ok(), "{scale}");
    }
}

#[test]
fn the_configuration_file_is_looked_up_in_order() {
    let path = |path: &str, explicit: bool| Some((path.to_string(), explicit));
    assert_eq!(config_path(Some("x.toml"), Some("/xdg"), Some("/home/u")), path("x.toml", true));
    assert_eq!(config_path(None, Some("/xdg"), Some("/home/u")), path("/xdg/mer/config.toml", false));
    assert_eq!(
        config_path(None, Some("relative"), Some("/home/u")),
        path("/home/u/.config/mer/config.toml", false)
    );
    assert_eq!(config_path(None, None, None), None);
}

#[test]
fn only_an_explicit_configuration_file_has_to_exist() {
    assert_eq!(file_action(Some(true), true), FileAction::Read);
    assert_eq!(file_action(Some(true), false), FileAction::Missing);
    assert_eq!(file_action(Some(false), false), FileAction::Defaults);
    assert_eq!(file_action(None, false), FileAction::Defaults);
}

#[test]
fn numbered_outputs() {
    assert_eq!(numbered("out.png", 0, 1), "out.png");
    assert_eq!(numbered("dir/out.png", 1, 3), "dir/out-2.png");
    assert_eq!(numbered("out", 0, 2), "out-1");
    assert_eq!(numbered("out.svg", 5, 2), "out-6.svg");
    assert_eq!(numbered("out.svg", usize::MAX, 0), "out-18446744073709551616.svg");
}

#[test]
fn modes_follow_the_flags() {
    assert_eq!(mode(&cli(), true), Ok(Mode::Help));
    assert_eq!(mode(&cli(), false), Ok(Mode::Stream));
    let given = Cli {
        inputs: inputs(&["a.mmd", "b.md"]),
        ..cli()
    };
    assert_eq!(mode(&given, true), Ok(Mode::Show));
    assert_eq!(mode(&Cli { inputs: inputs(&["-"]), ..cli() }, false), Ok(Mode::Stream));
    assert_eq!(mode(&Cli { watch: true, inputs: inputs(&["a.mmd"]), ..cli() }, true), Ok(Mode::Watch));
    assert_eq!(mode(&Cli { interactive: true, inputs: inputs(&["-"]), ..cli() }, false), Ok(Mode::View));
    let output = Some("x.png".to_string());
    assert_eq!(mode(&Cli { output, inputs: inputs(&["a.mmd"]), ..cli() }, true), Ok(Mode::Export));
    assert_eq!(mode(&Cli { check: true, inputs: inputs(&["a.mmd"]), ..cli() }, true), Ok(Mode::Check));
    assert_eq!(mode(&Cli { doctor: true, ..cli() }, true), Ok(Mode::Doctor));
    assert_eq!(mode(&Cli { inputs: inputs(&["-", "-"]), ..cli() }, false), Err(Misuse::StdinTwice));
}

#[test]
fn watch_rejects_stdin() {
    let flags = Cli {
        watch: true,
        inputs: inputs(&["-"]),
        ..cli()
    };
    let misuse = mode(&flags, true).unwrap_err();
    assert!(misuse.message().contains("--watch needs files"), "{}", misuse.message());
}

#[test]
fn stdout_must_be_a_terminal() {
    let settings = Settings::resolve(&cli(), file(), None).unwrap();
    let refused = need(settings.protocol, false).unwrap_err();
    assert!(refused.message().contains("not a terminal"), "{}", refused.message());
}

#[test]
fn protocols_decide_what_to_find_out() {
    assert_eq!(need(Protocol::Auto, true).unwrap(), Need::Probe);
    assert_eq!(need(Protocol::Kitty, false).unwrap(), Need::Probe);
    assert_eq!(need(Protocol::Text, false).unwrap(), Need::Width);
}

#[test]
fn terminals_that_cannot_be_opened_are_an_error() {
    let settings = Settings::resolve(&cli(), file(), None).unwrap();
    let refused = Setup::new(&settings, Found::Unopened, false).unwrap_err();
    assert!(matches!(refused, Unusable::CannotOpen));
    assert!(refused.message().contains("/dev/tty"));
}

#[test]
fn setups_follow_the_terminal() {
    let settings = Settings::resolve(&cli(), file(), None).unwrap();
    let caps = Caps {
        cols: 120,
        rows: 40,
        cell: Some((17, 34)),
        kitty_graphics: true,
        ..Caps::default()
    };
    let setup = Setup::new(&settings, Found::Probed(caps), true).unwrap();
    assert_eq!(
        setup.grid,
        Grid {
            cols: 120,
            rows: 40,
            cell_w: 17,
            cell_h: 34
        }
    );
    assert_eq!(setup.fit, Fit::Width);
    assert_eq!(setup.theme, "terminal");
    assert_eq!(setup.background, None);
    assert!(!setup.text && setup.color);

    let unknown = Setup::new(&settings, Found::Probed(Caps::default()), false).unwrap();
    assert!(unknown.text);
    assert_eq!((unknown.grid.cols, unknown.grid.rows), (80, 24));
    assert_eq!((unknown.grid.cell_w, unknown.grid.cell_h), (10, 20));
}

#[test]
fn new_colors_change_the_theme() {
    let settings = Settings::resolve(&cli(), file(), None).unwrap();
    let setup = Setup::new(&settings, Found::Probed(Caps::default()), false).unwrap();
    let mut palette = setup.caps.palette;
    palette.set(10, Rgb(0, 0, 0));
    palette.set(11, Rgb(255, 255, 255));
    let config = json(&setup.config_for(&palette));
    assert_eq!(config["themeVariables"]["darkMode"], false);
    assert_eq!(config["themeVariables"]["background"], "#ffffff");
}

#[test]
fn unknown_backgrounds_are_an_error() {
    let flags = Cli {
        background: Some("mauve".to_string()),
        ..cli()
    };
    let settings = Settings::resolve(&flags, file(), None).unwrap();
    let refused = Setup::new(&settings, Found::Probed(Caps::default()), false).unwrap_err();
    assert!(refused.message().contains("mauve"), "{}", refused.message());
}

#[test]
fn text_instead_of_images_is_announced() {
    let said = notice(Protocol::Auto, true, false).unwrap();
    assert!(said.contains("drawn as text") && !said.contains("tmux"));
    assert!(notice(Protocol::Auto, true, true).unwrap().contains("allow-passthrough"));
    assert_eq!(notice(Protocol::Text, true, false), None);
    assert_eq!(notice(Protocol::Auto, false, false), None);
    assert_eq!(no_diagrams(), "mer: no Mermaid diagram found");
}

#[test]
fn text_is_as_wide_as_the_terminal() {
    assert_eq!(text_width(true, 120), Some(120));
    assert_eq!(text_width(true, 0), None);
    assert_eq!(text_width(false, 120), None);
}

#[test]
fn the_probe_timeout_can_be_set() {
    assert_eq!(probe_timeout(None), 500);
    assert_eq!(probe_timeout(Some("2000")), 2000);
    assert_eq!(probe_timeout(Some("soon")), 500);
}

#[test]
fn formats_and_fits() {
    assert_eq!(StdinFormat::Auto.format(), None);
    assert_eq!(StdinFormat::Mermaid.format(), Some(Format::Mermaid));
    assert_eq!(StdinFormat::Markdown.format(), Some(Format::Markdown));
    assert_eq!(FitArg::Natural.fit(), Fit::Natural);
    assert_eq!(FitArg::Contain.fit(), Fit::Contain);
}

#[test]
fn image_formats_follow_the_extension() {
    assert_eq!(export_format(None, "a.PNG", 3), Ok(OutputFormat::Png));
    assert_eq!(export_format(None, "a.svg", 1), Ok(OutputFormat::Svg));
    assert_eq!(export_format(Some(OutputFormat::Svg), "-", 1), Ok(OutputFormat::Svg));
    let unknown = export_format(None, "a.jpg", 1).unwrap_err();
    assert_eq!(unknown, "cannot tell the image format of a.jpg; use --format");
    let several = export_format(Some(OutputFormat::Png), "-", 2).unwrap_err();
    assert!(several.contains("-n"), "{several}");
}

fn diagram(text: &str) -> Diagram {
    Diagram {
        text: text.to_string(),
        origin: "doc.md".to_string(),
        first_line: 0,
        caption: None,
    }
}

#[test]
fn one_diagram_can_be_picked() {
    let all = || vec![diagram("a"), diagram("b"), diagram("c")];
    assert_eq!(select(all(), None, "doc.md").unwrap().len(), 3);
    assert_eq!(select(all(), Some(2), "doc.md").unwrap(), [diagram("b")]);
    assert_eq!(
        select(all(), Some(4), "doc.md").unwrap_err(),
        "doc.md has 3 diagram(s), so there is no diagram 4"
    );
}

#[test]
fn checks_count_failures() {
    assert_eq!(check_result(0, 4), (0, None));
    assert_eq!(check_result(2, 4), (1, Some("2 of 4 diagram(s) failed".to_string())));
    assert_eq!((exit_code(false), exit_code(true)), (0, 1));
}

#[test]
fn diagrams_cover_no_more_than_they_may() {
    let grid = Grid {
        cols: 400,
        rows: 40,
        cell_w: 17,
        cell_h: 34,
    };
    assert_eq!(limits(&grid, Fit::Width), Plan { cols: 297, rows: 297 });
    assert_eq!(limits(&grid, Fit::Contain), Plan { cols: 297, rows: 40 });
    let none = Grid {
        cols: 0,
        rows: 0,
        cell_w: 0,
        cell_h: 0,
    };
    assert_eq!(limits(&none, Fit::Contain), Plan { cols: 1, rows: 1 });
    let plan = Plan { cols: 500, rows: 5 }.within(limits(&grid, Fit::Natural));
    assert_eq!(plan, Plan { cols: 297, rows: 5 });
    assert_eq!(plan.pixels(&grid), (5049, 170));
}

#[test]
fn the_doctor_reports_what_was_found() {
    let report = doctor(&Checkup {
        program: "ghostty".to_string(),
        version: "1.2".to_string(),
        tmux: false,
        caps: Caps {
            cols: 120,
            rows: 40,
            cell: Some((17, 34)),
            kitty_graphics: true,
            responded: true,
            ..Caps::default()
        },
        scale: "1.63".to_string(),
        config: None,
    });
    assert!(report.contains("ghostty") && report.contains("17 × 34 px"), "{report}");
}

#[test]
fn streams_and_viewers_need_graphics() {
    assert!(draws_once(Mode::Show, false, None));
    assert!(!draws_once(Mode::View, false, Some(1)) && draws_once(Mode::View, true, None));
    assert!(!draws_once(Mode::Watch, false, Some(1)) && draws_once(Mode::Watch, true, None));
    assert!(!draws_once(Mode::Stream, false, None) && draws_once(Mode::Stream, true, None));
    assert!(draws_once(Mode::Stream, false, Some(1)));
}

#[test]
fn svg_documents_hold_their_background() {
    let color = Some(Rgb(0x33, 0, 0xff));
    assert_eq!(drawn_background(OutputFormat::Svg, color), Some("#3300ff".to_string()));
    assert_eq!(drawn_background(OutputFormat::Png, color), None);
    assert_eq!(drawn_background(OutputFormat::Svg, None), None);
}

#[test]
fn exports_are_drawn_on_white() {
    let settings = Settings::resolve(&cli(), file(), None).unwrap();
    assert_eq!(export_theme(&settings), "default");
    let theme = export_theme(&settings);
    let found = background(settings.background.as_deref(), &theme, None).unwrap();
    assert_eq!(found, Some(Rgb(255, 255, 255)));
    let flags = Cli {
        theme: Some("dark".to_string()),
        ..cli()
    };
    let settings = Settings::resolve(&flags, file(), None).unwrap();
    let theme = export_theme(&settings);
    assert_eq!(theme, "dark");
    assert_eq!(background(None, &theme, None).unwrap(), Some(Rgb(0x33, 0x33, 0x33)));
}
