//! Drawing diagrams in the terminal: capability checks, theme, and one-shot inline output.

use vstd::prelude::*;

use crate::cli::{FitArg, OutputFormat, Protocol};
use crate::diag;
use crate::diag::NO_DIAGRAM;
use crate::engine;
use crate::engine::{Failure, FailureModel};
use crate::fonts;
use crate::input::{Diagram, DiagramModel};
use crate::json;
use crate::json::{Model, Value};
use crate::render;
use crate::render::Frame;
use crate::settings;
use crate::settings::{Settings, SettingsModel};
use crate::size::{Fit, Grid};
use crate::term;
use crate::term::kitty;
use crate::term::probe;
use crate::term::probe::{Caps, CapsModel};
use crate::text;
use crate::theme;
use crate::theme::{Palette, PaletteModel, Rgb};

verus! {

// ---------------------------------------------------------------------------------------------
// Configuration.

/// Merges `overlay` into `base`, recursing into objects that both have.
pub fn merge(base: &mut Value, overlay: Value)
    ensures
        final(base)@ == json::merged(old(base)@, overlay@),
{
    json::merge(base, &overlay);
}

/// A configuration that only names a theme.
pub open spec fn named_theme(name: Seq<char>) -> Map<Seq<char>, Model> {
    Map::empty().insert("theme"@, Model::Text(name))
}

/// The configuration of a theme.
pub open spec fn theme_entries(theme: Seq<char>, caps: Option<CapsModel>) -> Map<
    Seq<char>,
    Model,
> {
    if theme == "terminal"@ {
        match caps {
            Some(caps) => match theme::palette_theme(caps.palette) {
                Some(Model::Object(entries)) => entries,
                _ => named_theme(
                    if caps.dark == Some(true) {
                        "dark"@
                    } else {
                        "default"@
                    },
                ),
            },
            None => named_theme("default"@),
        }
    } else {
        named_theme(theme)
    }
}

/// Mermaid site configuration.
pub open spec fn site(theme: Seq<char>, caps: Option<CapsModel>, user: Option<Model>) -> Model {
    let config = Model::Object(
        theme_entries(theme, caps).insert("fontFamily"@, Model::Text(fonts::FAMILY@)),
    );
    match user {
        Some(user) => json::merged(config, user),
        None => config,
    }
}

/// What optional capabilities hold.
pub open spec fn caps_of(caps: Option<&Caps>) -> Option<CapsModel> {
    match caps {
        Some(caps) => Some(caps@),
        None => None,
    }
}

/// What an optional borrowed configuration stands for.
pub open spec fn borrowed_model(value: Option<&Value>) -> Option<Model> {
    match value {
        Some(value) => Some(value@),
        None => None,
    }
}

fn plain_theme(name: &str) -> (entries: Vec<(String, Value)>)
    ensures
        json::map_of(entries@) == named_theme(name@),
{
    let mut entries = json::no_entries();
    json::put(&mut entries, "theme", name);
    entries
}

fn entries_for(theme: &str, caps: Option<&Caps>) -> (entries: Vec<(String, Value)>)
    ensures
        json::map_of(entries@) == theme_entries(theme@, caps_of(caps)),
{
    if !text::str_eq(theme, "terminal") {
        return plain_theme(theme);
    }
    match caps {
        Some(caps) => {
            match theme::terminal_theme(&caps.palette) {
                Some(Value::Object(entries)) => entries,
                _ => {
                    if caps.dark == Some(true) {
                        plain_theme("dark")
                    } else {
                        plain_theme("default")
                    }
                },
            }
        },
        None => plain_theme("default"),
    }
}

/// Mermaid site configuration: the theme, the embedded font, then the user's configuration.
pub fn site_config(theme: &str, caps: Option<&Caps>, user: Option<&Value>) -> (config: Value)
    ensures
        config@ == site(theme@, caps_of(caps), borrowed_model(user)),
{
    let mut entries = entries_for(theme, caps);
    json::put(&mut entries, "fontFamily", fonts::FAMILY);
    let mut config = json::object_value(entries);
    if let Some(user) = user {
        json::merge(&mut config, user);
    }
    config
}

/// What the user's configuration says is in effect, whatever the theme says.
pub proof fn user_configuration_wins(
    theme: Seq<char>,
    caps: Option<CapsModel>,
    user: Map<Seq<char>, Model>,
    key: Seq<char>,
)
    requires
        user.contains_key(key),
        !(user[key] is Object),
    ensures
        json::lookup(site(theme, caps, Some(Model::Object(user))), key) == Some(user[key]),
{
    reveal_with_fuel(json::merged, 2);
}

// ---------------------------------------------------------------------------------------------
// Background.

/// Why a background cannot be used.
#[derive(Debug)]
pub enum BadBackground {
    /// The terminal's own was asked for, and it did not report one.
    NotReported,
    /// It is not a color.
    Unknown(String),
}

/// The background to use without one being asked for: the `terminal` theme draws over the
/// terminal's own, and Mermaid themes get the one they were designed for.
pub open spec fn default_background(theme: Seq<char>) -> Seq<char> {
    if theme == "terminal"@ {
        "transparent"@
    } else if text::has(theme, "dark"@) {
        "#333333"@
    } else {
        "white"@
    }
}

/// The color that a background names, `Ok(None)` for none, or an error.
pub open spec fn background_color(spec: Seq<char>, palette: Option<PaletteModel>) -> Result<
    Option<Rgb>,
    bool,
> {
    if spec == "transparent"@ || spec == "none"@ {
        Ok(None)
    } else if spec == "terminal"@ {
        match palette {
            Some(palette) => match palette.bg {
                Some(bg) => Ok(Some(bg)),
                None => Err(false),
            },
            None => Err(false),
        }
    } else if spec == "white"@ {
        Ok(Some(Rgb(255, 255, 255)))
    } else if spec == "black"@ {
        Ok(Some(Rgb(0, 0, 0)))
    } else {
        match theme::parsed(spec) {
            Some(color) => Ok(Some(color)),
            None => Err(true),
        }
    }
}

/// The background that is asked for, or the default.
pub open spec fn background_spec(spec: Option<Seq<char>>, theme: Seq<char>) -> Seq<char> {
    match spec {
        Some(spec) => spec,
        None => default_background(theme),
    }
}

/// What an optional palette holds.
pub open spec fn palette_of(palette: Option<&Palette>) -> Option<PaletteModel> {
    match palette {
        Some(palette) => Some(palette@),
        None => None,
    }
}

/// The theme of exports, which do not follow the terminal.
pub open spec fn export_theme_of(settings: SettingsModel) -> Seq<char> {
    settings::otherwise(settings.theme, "default"@)
}

/// The theme of exports and checks, which do not follow the terminal: Mermaid's `default`,
/// unless `-t` says otherwise.
pub fn export_theme(settings: &Settings) -> (theme: String)
    ensures
        theme@ == export_theme_of(settings@),
        theme@ == settings::otherwise(text::optional(settings.theme), "default"@),
{
    match &settings.theme {
        Some(theme) => theme.clone(),
        None => "default".to_string(),
    }
}

/// Exports use Mermaid's `default` theme on white unless `-t` or `-b` say otherwise.
pub proof fn exports_are_drawn_on_white(
    settings: SettingsModel,
    r: Result<Option<Rgb>, BadBackground>,
)
    requires
        settings.theme is None,
        settings.background is None,
        is_background(r, settings.background, export_theme_of(settings), None),
    ensures
        export_theme_of(settings) == "default"@,
        r == Ok::<Option<Rgb>, BadBackground>(Some(Rgb(255, 255, 255))),
{
    reveal_strlit("default");
    reveal_strlit("terminal");
    reveal_strlit("dark");
    reveal_strlit("white");
    reveal_strlit("transparent");
    reveal_strlit("none");
    let name = "default"@;
    assert(name != "terminal"@) by {
        assert(name.len() != "terminal"@.len());
    }
    assert(!text::has(name, "dark"@)) by {
        assert forall|i: int| 0 <= i <= name.len() implies !text::starts(
            #[trigger] name.skip(i),
            "dark"@,
        ) by {
            if text::starts(name.skip(i), "dark"@) {
                assert(name.skip(i).take(4) =~= "dark"@);
                assert(name[i] == name.skip(i).take(4)[0] && name[i + 1] == name.skip(i).take(4)[1]);
                assert(name[i] == 'd' && name[i + 1] == 'a');
            }
        }
    }
    assert("white"@ != "terminal"@ && "white"@ != "transparent"@ && "white"@ != "none"@) by {
        assert("white"@[0] == 'w');
    }
}

/// Whether `r` is the frame background for these settings.
pub open spec fn is_background(
    r: Result<Option<Rgb>, BadBackground>,
    spec: Option<Seq<char>>,
    theme: Seq<char>,
    palette: Option<PaletteModel>,
) -> bool {
    match background_color(background_spec(spec, theme), palette) {
        Ok(color) => r == Ok::<Option<Rgb>, BadBackground>(color),
        Err(false) => r matches Err(BadBackground::NotReported),
        Err(true) => r matches Err(BadBackground::Unknown(s)) && s@ == background_spec(
            spec,
            theme,
        ),
    }
}

/// The frame background. The `terminal` theme draws over the terminal's own background;
/// Mermaid themes get the background they were designed for, unless `-b` says otherwise.
pub fn background(spec: Option<&str>, theme: &str, palette: Option<&Palette>) -> (r: Result<
    Option<Rgb>,
    BadBackground,
>)
    ensures
        is_background(r, text::optional_str(spec), theme@, palette_of(palette)),
{
    let spec = match spec {
        Some(spec) => spec,
        None => {
            let name = text::chars(theme);
            if text::str_eq(theme, "terminal") {
                "transparent"
            } else if text::contains(&name, "dark") {
                "#333333"
            } else {
                "white"
            }
        },
    };
    if text::str_eq(spec, "transparent") || text::str_eq(spec, "none") {
        Ok(None)
    } else if text::str_eq(spec, "terminal") {
        match palette {
            Some(palette) => match palette.bg {
                Some(bg) => Ok(Some(bg)),
                None => Err(BadBackground::NotReported),
            },
            None => Err(BadBackground::NotReported),
        }
    } else if text::str_eq(spec, "white") {
        Ok(Some(Rgb(255, 255, 255)))
    } else if text::str_eq(spec, "black") {
        Ok(Some(Rgb(0, 0, 0)))
    } else {
        match Rgb::parse_x11(spec) {
            Some(color) => Ok(Some(color)),
            None => Err(BadBackground::Unknown(spec.to_string())),
        }
    }
}

/// The background that an exported drawing itself has. SVG documents hold theirs; PNG images get
/// it when they are drawn.
pub fn drawn_background(format: OutputFormat, background: Option<Rgb>) -> (r: Option<String>)
    ensures
        text::optional(r) == match (format, background) {
            (OutputFormat::Svg, Some(color)) => Some(theme::hex_text(color)),
            _ => None,
        },
{
    match (format, background) {
        (OutputFormat::Svg, Some(color)) => Some(color.hex()),
        _ => None,
    }
}

/// What mer says about a background it cannot use.
pub open spec fn background_message(why: BadBackground) -> Seq<char> {
    match why {
        BadBackground::NotReported => "the terminal did not report its background color"@,
        BadBackground::Unknown(spec) => "unknown background "@ + text::quoted(spec@)
            + "; use transparent, terminal, or a #rrggbb color"@,
    }
}

impl BadBackground {
    /// What mer says about it.
    pub fn message(&self) -> (s: String)
        ensures
            s@ == background_message(*self),
    {
        match self {
            BadBackground::NotReported => {
                "the terminal did not report its background color".to_string()
            },
            BadBackground::Unknown(spec) => {
                let mut s = "unknown background ".to_string();
                s.append(text::quote(spec.as_str()).as_str());
                s.append("; use transparent, terminal, or a #rrggbb color");
                s
            },
        }
    }
}

// ---------------------------------------------------------------------------------------------
// Setting up.

/// Everything needed to draw diagrams in this terminal.
#[derive(Debug)]
pub struct Setup {
    pub caps: Caps,
    pub grid: Grid,
    pub fit: Fit,
    /// The bits of a single-precision number.
    pub scale: u32,
    pub theme: String,
    pub user_config: Option<Value>,
    pub config: Value,
    pub background: Option<Rgb>,
    /// Diagrams are drawn with box-drawing characters instead of images.
    pub text: bool,
    /// Whether diagnostics on stderr are colored.
    pub color: bool,
}

/// What [`Setup`] says.
pub struct SetupModel {
    pub caps: CapsModel,
    pub grid: Grid,
    pub fit: Fit,
    pub scale: u32,
    pub theme: Seq<char>,
    pub user_config: Option<Model>,
    pub config: Model,
    pub background: Option<Rgb>,
    pub text: bool,
    pub color: bool,
}

impl View for Setup {
    type V = SetupModel;

    open spec fn view(&self) -> SetupModel {
        SetupModel {
            caps: self.caps@,
            grid: self.grid,
            fit: self.fit,
            scale: self.scale,
            theme: self.theme@,
            user_config: settings::model_of(self.user_config),
            config: self.config@,
            background: self.background,
            text: self.text,
            color: self.color,
        }
    }
}

/// What has to be found out about the terminal.
#[derive(Clone, Copy, Debug, PartialEq, Eq, Structural)]
pub enum Need {
    /// How wide it is, where there is one.
    Width,
    /// What it can do.
    Probe,
}

/// What was found out about the terminal.
#[derive(Clone, Copy, Debug)]
pub enum Found {
    /// How wide it is; 0 where that is not known.
    Width(u16),
    /// What it can do.
    Probed(Caps),
    /// It could not be opened.
    Unopened,
}

/// Why diagrams cannot be drawn.
#[derive(Debug)]
pub enum Unusable {
    /// Output does not go to a terminal.
    NotATerminal,
    /// The terminal cannot be opened.
    CannotOpen,
    Background(BadBackground),
}

/// What has to be found out, or why there is no use: images are drawn only in a terminal,
/// unless they are forced.
pub open spec fn needed(protocol: Protocol, stdout_terminal: bool) -> Result<Need, Unusable> {
    match protocol {
        Protocol::Text => Ok(Need::Width),
        Protocol::Kitty => Ok(Need::Probe),
        Protocol::Auto => if stdout_terminal {
            Ok(Need::Probe)
        } else {
            Err(Unusable::NotATerminal)
        },
    }
}

/// Decides what has to be found out about the terminal.
pub fn need(protocol: Protocol, stdout_terminal: bool) -> (r: Result<Need, Unusable>)
    ensures
        r == needed(protocol, stdout_terminal),
{
    match protocol {
        Protocol::Text => Ok(Need::Width),
        Protocol::Kitty => Ok(Need::Probe),
        Protocol::Auto => if stdout_terminal {
            Ok(Need::Probe)
        } else {
            Err(Unusable::NotATerminal)
        },
    }
}

/// What the terminal can do, and whether diagrams are drawn as text: when that was asked for,
/// or when the terminal does not support graphics and they are not forced.
pub open spec fn terminal_caps(protocol: Protocol, found: Found) -> Result<
    (CapsModel, bool),
    Unusable,
> {
    match (protocol, found) {
        (Protocol::Text, Found::Width(cols)) => Ok((probe::unknown(cols, 0), true)),
        (Protocol::Text, _) => Ok((probe::unknown(0, 0), true)),
        (Protocol::Kitty, Found::Probed(caps)) => Ok((caps@, false)),
        (Protocol::Kitty, _) => Ok((probe::unknown(0, 0), false)),
        (Protocol::Auto, Found::Probed(caps)) => Ok((caps@, !caps.kitty_graphics)),
        (Protocol::Auto, _) => Err(Unusable::CannotOpen),
    }
}

/// The grid to draw on; 80 by 24 cells of 10 by 20 pixels where the terminal does not say.
pub open spec fn grid_of(caps: CapsModel) -> Grid {
    let (cell_w, cell_h) = match caps.cell {
        Some(cell) => cell,
        None => (10, 20),
    };
    Grid {
        cols: if caps.cols == 0 {
            80
        } else {
            caps.cols
        },
        rows: if caps.rows == 0 {
            24
        } else {
            caps.rows
        },
        cell_w,
        cell_h,
    }
}

/// The theme to use.
pub open spec fn theme_or_default(theme: Option<Seq<char>>) -> Seq<char> {
    match theme {
        Some(theme) => theme,
        None => "terminal"@,
    }
}

/// How a fit that was asked for is meant.
pub open spec fn fit_of(fit: FitArg) -> Fit {
    match fit {
        FitArg::Width => Fit::Width,
        FitArg::Contain => Fit::Contain,
        FitArg::Natural => Fit::Natural,
    }
}

/// The setup that settings and a terminal give, apart from the background.
pub open spec fn set_up(
    settings: SettingsModel,
    caps: CapsModel,
    text: bool,
    color: bool,
    background: Option<Rgb>,
) -> SetupModel {
    let theme = theme_or_default(settings.theme);
    SetupModel {
        caps,
        grid: grid_of(caps),
        fit: fit_of(settings.fit),
        scale: settings.scale,
        theme,
        user_config: settings.mermaid,
        config: site(theme, Some(caps), settings.mermaid),
        background,
        text,
        color,
    }
}

/// Whether `r` is what settings and a terminal give.
pub open spec fn is_setup(
    r: Result<Setup, Unusable>,
    settings: SettingsModel,
    found: Found,
    color: bool,
) -> bool {
    match terminal_caps(settings.protocol, found) {
        Err(why) => r == Err::<Setup, Unusable>(why),
        Ok((caps, text)) => match background_color(
            background_spec(settings.background, theme_or_default(settings.theme)),
            Some(caps.palette),
        ) {
            Ok(background) => r matches Ok(setup) && setup@ == set_up(
                settings,
                caps,
                text,
                color,
                background,
            ),
            Err(unknown) => r matches Err(Unusable::Background(why)) && if unknown {
                why matches BadBackground::Unknown(s) && s@ == background_spec(
                    settings.background,
                    theme_or_default(settings.theme),
                )
            } else {
                why is NotReported
            },
        },
    }
}

fn known(protocol: Protocol, found: Found) -> (r: Result<(Caps, bool), Unusable>)
    ensures
        match terminal_caps(protocol, found) {
            Ok((caps, text)) => r matches Ok(found) && found.0@ == caps && found.1 == text,
            Err(why) => r == Err::<(Caps, bool), Unusable>(why),
        },
{
    match (protocol, found) {
        (Protocol::Text, Found::Width(cols)) => {
            let mut caps = Caps::default();
            caps.cols = cols;
            Ok((caps, true))
        },
        (Protocol::Text, _) => Ok((Caps::default(), true)),
        (Protocol::Kitty, Found::Probed(caps)) => Ok((caps, false)),
        (Protocol::Kitty, _) => Ok((Caps::default(), false)),
        (Protocol::Auto, Found::Probed(caps)) => Ok((caps, !caps.kitty_graphics)),
        (Protocol::Auto, _) => Err(Unusable::CannotOpen),
    }
}

fn grid_for(caps: &Caps) -> (grid: Grid)
    ensures
        grid == grid_of(caps@),
{
    let (cell_w, cell_h): (u32, u32) = match caps.cell {
        Some(cell) => cell,
        None => (10, 20),
    };
    Grid {
        cols: if caps.cols == 0 {
            80
        } else {
            caps.cols
        },
        rows: if caps.rows == 0 {
            24
        } else {
            caps.rows
        },
        cell_w,
        cell_h,
    }
}

impl Setup {
    /// Settles size, theme and background for what was found out about the terminal.
    pub fn new(settings: &Settings, found: Found, color: bool) -> (r: Result<Setup, Unusable>)
        ensures
            is_setup(r, settings@, found, color),
    {
        let (caps, text) = match known(settings.protocol, found) {
            Ok(known) => known,
            Err(why) => return Err(why),
        };
        let theme = match &settings.theme {
            Some(theme) => theme.clone(),
            None => "terminal".to_string(),
        };
        let user_config = match &settings.mermaid {
            Some(value) => Some(value.copy()),
            None => None,
        };
        let config = site_config(
            theme.as_str(),
            Some(&caps),
            match &user_config {
                Some(value) => Some(value),
                None => None,
            },
        );
        let spec = match &settings.background {
            Some(spec) => Some(spec.as_str()),
            None => None,
        };
        let background = match background(spec, theme.as_str(), Some(&caps.palette)) {
            Ok(background) => background,
            Err(why) => return Err(Unusable::Background(why)),
        };
        Ok(
            Setup {
                caps,
                grid: grid_for(&caps),
                fit: settings.fit.fit(),
                scale: settings.scale,
                theme,
                user_config,
                config,
                background,
                text,
                color,
            },
        )
    }

    /// The configuration after the terminal reported new colors.
    pub fn config_for(&self, palette: &Palette) -> (config: Value)
        ensures
            config@ == site(
                self@.theme,
                Some(CapsModel { palette: palette@, ..self@.caps }),
                self@.user_config,
            ),
    {
        let mut caps = self.caps;
        caps.palette = *palette;
        site_config(
            self.theme.as_str(),
            Some(&caps),
            match &self.user_config {
                Some(value) => Some(value),
                None => None,
            },
        )
    }
}

/// What mer says when diagrams are drawn as text though that was not asked for.
pub open spec fn text_notice(tmux: bool) -> Seq<char> {
    "mer: this terminal doesn't support the kitty graphics protocol"@ + (if tmux {
        " (inside tmux, add `set -g allow-passthrough on` to tmux.conf)"@
    } else {
        ""@
    }) + ", so diagrams are drawn as text"@
}

/// What to say when diagrams are drawn as text though that was not asked for.
pub fn notice(protocol: Protocol, text: bool, tmux: bool) -> (s: Option<String>)
    ensures
        text::optional(s) == if text && protocol != Protocol::Text {
            Some(text_notice(tmux))
        } else {
            None
        },
{
    if !text || protocol == Protocol::Text {
        return None;
    }
    let mut s = "mer: this terminal doesn't support the kitty graphics protocol".to_string();
    let hint = if tmux {
        " (inside tmux, add `set -g allow-passthrough on` to tmux.conf)"
    } else {
        ""
    };
    s.append(hint);
    s.append(", so diagrams are drawn as text");
    Some(s)
}

/// What mer says when diagrams cannot be drawn.
pub open spec fn unusable_message(why: Unusable) -> Seq<char> {
    match why {
        Unusable::NotATerminal =>
            "stdout is not a terminal; write an image with -o FILE, draw text with --protocol text, or force graphics with --protocol kitty"@,
        Unusable::CannotOpen => "cannot open the terminal (/dev/tty)"@,
        Unusable::Background(why) => background_message(why),
    }
}

impl Unusable {
    /// What mer says about it.
    pub fn message(&self) -> (s: String)
        ensures
            s@ == unusable_message(*self),
    {
        match self {
            Unusable::NotATerminal => {
                "stdout is not a terminal; write an image with -o FILE, draw text with --protocol text, or force graphics with --protocol kitty".to_string()
            },
            Unusable::CannotOpen => "cannot open the terminal (/dev/tty)".to_string(),
            Unusable::Background(why) => why.message(),
        }
    }
}

/// How long to wait for a probe, in milliseconds: what the environment says, or 500.
pub fn probe_timeout(value: Option<&str>) -> (millis: u64)
    ensures
        millis == match text::optional_str(value) {
            Some(value) => match text::number(value, 10, u64::MAX as nat) {
                Some(millis) => millis,
                None => 500,
            },
            None => 500,
        },
{
    match value {
        Some(value) => {
            let value = text::chars(value);
            match text::parse_number(&value, 10, u64::MAX) {
                Some(millis) => millis,
                None => 500,
            }
        },
        None => 500,
    }
}

// ---------------------------------------------------------------------------------------------
// Output.

/// A caption in dim letters, on a line of its own.
pub open spec fn caption_line(caption: Option<Seq<char>>) -> Seq<char> {
    match caption {
        Some(caption) => "\x1b[2m"@ + caption + "\x1b[22m\n"@,
        None => Seq::empty(),
    }
}

/// The line above a diagram: its caption, if it has one.
pub fn caption(diagram: &Diagram) -> (line: String)
    ensures
        line@ == caption_line(diagram@.caption),
{
    match &diagram.caption {
        Some(caption) => {
            let mut line = "\x1b[2m".to_string();
            line.append(caption.as_str());
            line.append("\x1b[22m\n");
            line
        },
        None => {
            let line = String::new();
            assert(line@ =~= Seq::<char>::empty());
            line
        },
    }
}

/// What drawing a diagram inline writes, given what its image writes.
pub open spec fn inline_bytes(
    diagram: DiagramModel,
    image: Result<Seq<u8>, kitty::Untransmitted>,
    tmux: bool,
) -> Result<Seq<u8>, kitty::Untransmitted> {
    match image {
        Ok(image) => Ok(
            term::prepared(
                vstd::utf8::encode_utf8("\x1b[?2026h"@) + vstd::utf8::encode_utf8(
                    caption_line(diagram.caption),
                ) + image + vstd::utf8::encode_utf8("\x1b[?2026l"@),
                tmux,
            ),
        ),
        Err(why) => Err(why),
    }
}

/// A diagram drawn inline: its caption and its image, put on the screen at once.
pub fn inline_output(diagram: &Diagram, frame: &Frame, id: u32, tmux: bool) -> (r: Result<
    Vec<u8>,
    kitty::Untransmitted,
>)
    requires
        frame.well_formed(),
    ensures
        match inline_bytes(
            diagram@,
            render::inline(frame.transmitted(id), id, frame.cols, frame.rows),
            tmux,
        ) {
            Ok(bytes) => r matches Ok(out) && out@ == bytes,
            Err(why) => r matches Err(e) && e == why,
        },
{
    let mut out: Vec<u8> = Vec::new();
    text::push_text(&mut out, "\x1b[?2026h");
    assert(out@ =~= vstd::utf8::encode_utf8("\x1b[?2026h"@));
    text::push_text(&mut out, caption(diagram).as_str());
    match render::write_inline(&mut out, frame, id) {
        Ok(()) => {},
        Err(why) => return Err(why),
    }
    text::push_text(&mut out, "\x1b[?2026l");
    Ok(term::for_terminal(&out, tmux))
}

/// A diagram drawn as text, with its caption above it, dim in a terminal.
pub open spec fn text_lines(
    caption: Option<Seq<char>>,
    drawing: Seq<char>,
    terminal: bool,
) -> Seq<char> {
    let above = match caption {
        Some(caption) => if terminal {
            caption_line(Some(caption))
        } else {
            caption + "\n"@
        },
        None => Seq::empty(),
    };
    above + drawing + if drawing.len() > 0 && drawing.last() == '\n' {
        Seq::empty()
    } else {
        "\n"@
    }
}

/// A diagram drawn as text.
pub fn text_output(diagram: &Diagram, drawing: &str, terminal: bool) -> (out: String)
    ensures
        out@ == text_lines(diagram@.caption, drawing@, terminal),
{
    let mut out = String::new();
    if let Some(caption) = &diagram.caption {
        if terminal {
            out.append("\x1b[2m");
            out.append(caption.as_str());
            out.append("\x1b[22m\n");
            assert(out@ =~= caption_line(diagram@.caption));
        } else {
            out.append(caption.as_str());
            out.append("\n");
            assert(out@ =~= caption@ + "\n"@);
        }
    }
    out.append(drawing);
    let all = text::chars(drawing);
    if all.len() == 0 || all[all.len() - 1] != '\n' {
        out.append("\n");
    }
    assert(out@ =~= text_lines(diagram@.caption, drawing@, terminal));
    out
}

/// How wide a drawing in text may be.
pub open spec fn width_limit(terminal: bool, cols: u16) -> Option<usize> {
    if terminal && cols > 0 {
        Some(cols as usize)
    } else {
        None
    }
}

/// How wide a drawing in text may be. A terminal wraps lines wider than itself, garbling the
/// drawing; pipes and files don't.
pub fn text_width(terminal: bool, cols: u16) -> (width: Option<usize>)
    ensures
        width == width_limit(terminal, cols),
{
    if terminal && cols > 0 {
        Some(cols as usize)
    } else {
        None
    }
}

/// What is printed about a failure.
pub open spec fn report_text(
    failure: FailureModel,
    diagram: DiagramModel,
    color: bool,
) -> Option<Seq<char>> {
    match engine::told(failure) {
        Some(diagnostic) => Some(diag::formatted(diagnostic, diagram, color)),
        None => None,
    }
}

/// What to print about a failure.
pub fn report(failure: &Failure, diagram: &Diagram, color: bool) -> (s: Option<String>)
    ensures
        text::optional(s) == report_text(failure@, diagram@, color),
{
    match failure.diagnostic() {
        Some(diagnostic) => Some(diag::format(&diagnostic, diagram, color)),
        None => None,
    }
}

/// What to say about input that holds no diagram.
pub fn no_diagrams() -> (s: String)
    ensures
        s@ == "mer: "@ + NO_DIAGRAM@,
{
    let mut s = "mer: ".to_string();
    s.append(NO_DIAGRAM);
    s
}

// ---------------------------------------------------------------------------------------------
// The doctor.

/// What a report on the terminal is made of.
pub struct Checkup {
    /// The terminal's name and version.
    pub program: String,
    pub version: String,
    pub tmux: bool,
    pub caps: Caps,
    /// The text-matched scale of the cells, as printed.
    pub scale: String,
    /// The configuration file's path, and whether it exists.
    pub config: Option<(String, bool)>,
}

/// `yes` or `no`.
pub open spec fn yes_or_no(value: bool) -> Seq<char> {
    if value {
        "yes"@
    } else {
        "no"@
    }
}

/// A color, when it was reported.
pub open spec fn color_or_not(color: Option<Rgb>) -> Seq<char> {
    match color {
        Some(color) => theme::hex_text(color),
        None => "not reported"@,
    }
}

/// The cell size, when it is known.
pub open spec fn cell_text(cell: Option<(u32, u32)>, scale: Seq<char>) -> Seq<char> {
    match cell {
        Some((w, h)) => text::decimal(w as nat) + " × "@ + text::decimal(h as nat)
            + " px (text-matched scale "@ + scale + ")"@,
        None => "not reported"@,
    }
}

/// The color scheme, when it was reported.
pub open spec fn scheme_text(dark: Option<bool>) -> Seq<char> {
    match dark {
        Some(true) => "dark"@,
        Some(false) => "light"@,
        None => "not reported"@,
    }
}

/// The configuration file, and whether it was found.
pub open spec fn config_text(config: Option<(String, bool)>) -> Seq<char> {
    match config {
        Some((path, true)) => path@,
        Some((path, false)) => path@ + " (not found)"@,
        None => "none"@,
    }
}

/// A report on the terminal.
pub open spec fn checkup_text(c: Checkup) -> Seq<char> {
    "terminal          "@ + c.program@ + " "@ + c.version@ + "\ninside tmux       "@ + yes_or_no(
        c.tmux,
    ) + "\nresponded         "@ + yes_or_no(c.caps.responded) + "\nkitty graphics    "@ + yes_or_no(
        c.caps.kitty_graphics,
    ) + "\ngrid              "@ + text::decimal(c.caps.cols as nat) + " × "@ + text::decimal(
        c.caps.rows as nat,
    ) + " cells\ncell size         "@ + cell_text(c.caps.cell, c.scale@) + "\nforeground        "@
        + color_or_not(c.caps.palette.fg) + "\nbackground        "@ + color_or_not(
        c.caps.palette.bg,
    ) + "\ncolor scheme      "@ + scheme_text(c.caps.dark) + "\nconfig file       "@ + config_text(
        c.config,
    ) + "\n"@
}

fn push_color(s: &mut String, color: Option<Rgb>)
    ensures
        final(s)@ == old(s)@ + color_or_not(color),
{
    match color {
        Some(color) => {
            s.append(color.hex().as_str());
        },
        None => {
            s.append("not reported");
        },
    }
}

fn push_yes(s: &mut String, value: bool)
    ensures
        final(s)@ == old(s)@ + yes_or_no(value),
{
    if value {
        s.append("yes");
    } else {
        s.append("no");
    }
}

fn push_cell(s: &mut String, cell: Option<(u32, u32)>, scale: &str)
    ensures
        final(s)@ == old(s)@ + cell_text(cell, scale@),
{
    let ghost was = s@;
    match cell {
        Some((w, h)) => {
            text::push_decimal(s, w as u128);
            s.append(" × ");
            text::push_decimal(s, h as u128);
            s.append(" px (text-matched scale ");
            s.append(scale);
            s.append(")");
            assert(s@ =~= was + cell_text(cell, scale@));
        },
        None => {
            s.append("not reported");
        },
    }
}

/// A report on the terminal.
pub fn doctor(c: &Checkup) -> (s: String)
    ensures
        s@ == checkup_text(*c),
{
    let mut s = "terminal          ".to_string();
    s.append(c.program.as_str());
    s.append(" ");
    s.append(c.version.as_str());
    s.append("\ninside tmux       ");
    push_yes(&mut s, c.tmux);
    s.append("\nresponded         ");
    push_yes(&mut s, c.caps.responded);
    s.append("\nkitty graphics    ");
    push_yes(&mut s, c.caps.kitty_graphics);
    s.append("\ngrid              ");
    text::push_decimal(&mut s, c.caps.cols as u128);
    s.append(" × ");
    text::push_decimal(&mut s, c.caps.rows as u128);
    s.append(" cells\ncell size         ");
    push_cell(&mut s, c.caps.cell, c.scale.as_str());
    s.append("\nforeground        ");
    push_color(&mut s, c.caps.palette.fg);
    s.append("\nbackground        ");
    push_color(&mut s, c.caps.palette.bg);
    s.append("\ncolor scheme      ");
    match c.caps.dark {
        Some(true) => {
            s.append("dark");
        },
        Some(false) => {
            s.append("light");
        },
        None => {
            s.append("not reported");
        },
    }
    s.append("\nconfig file       ");
    let mut config = String::new();
    match &c.config {
        Some((path, true)) => {
            config.append(path.as_str());
        },
        Some((path, false)) => {
            config.append(path.as_str());
            config.append(" (not found)");
        },
        None => {
            config.append("none");
        },
    }
    assert(config@ =~= config_text(c.config));
    s.append(config.as_str());
    s.append("\n");
    s
}

} // verus!
