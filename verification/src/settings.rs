//! Settings from the command line and the configuration file.

use vstd::prelude::*;

use crate::cli::{Cli, FitArg, Protocol};
use crate::json;
use crate::json::{Model, Value};
use crate::path;
use crate::text;

verus! {

/// Settings in effect: flags override the configuration file, which overrides the defaults.
#[derive(Debug)]
pub struct Settings {
    pub theme: Option<String>,
    pub background: Option<String>,
    /// The bits of a single-precision number.
    pub scale: u32,
    pub fit: FitArg,
    pub protocol: Protocol,
    /// Mermaid configuration: the file's `[mermaid]` table with `-c` merged over it.
    pub mermaid: Option<Value>,
}

/// The configuration file.
#[derive(Debug)]
pub struct File {
    pub theme: Option<String>,
    pub background: Option<String>,
    /// The bits of a single-precision number.
    pub scale: Option<u32>,
    pub fit: Option<FitArg>,
    pub protocol: Option<Protocol>,
    pub mermaid: Option<Value>,
}

/// A scale that is not a positive number.
#[derive(Clone, Copy, Debug, PartialEq, Eq, Structural)]
pub struct BadScale(pub u32);

/// What [`Settings`] say.
pub struct SettingsModel {
    pub theme: Option<Seq<char>>,
    pub background: Option<Seq<char>>,
    pub scale: u32,
    pub fit: FitArg,
    pub protocol: Protocol,
    pub mermaid: Option<Model>,
}

/// What an optional configuration stands for.
pub open spec fn model_of(value: Option<Value>) -> Option<Model> {
    match value {
        Some(value) => Some(value@),
        None => None,
    }
}

impl View for Settings {
    type V = SettingsModel;

    open spec fn view(&self) -> SettingsModel {
        SettingsModel {
            theme: text::optional(self.theme),
            background: text::optional(self.background),
            scale: self.scale,
            fit: self.fit,
            protocol: self.protocol,
            mermaid: model_of(self.mermaid),
        }
    }
}

/// The first of two optional values that is there.
pub open spec fn either<T>(first: Option<T>, second: Option<T>) -> Option<T> {
    match first {
        Some(value) => Some(value),
        None => second,
    }
}

/// An optional value, or what stands in for it.
pub open spec fn otherwise<T>(value: Option<T>, default: T) -> T {
    match value {
        Some(value) => value,
        None => default,
    }
}

/// The bits of 1.0 in single precision.
pub const SCALE_ONE: u32 = 0x3f80_0000;

/// The bits of infinity in single precision. Those of positive finite numbers are smaller.
pub const INFINITY: u32 = 0x7f80_0000;

/// Whether bits are those of a positive, finite number.
pub open spec fn is_scale(bits: u32) -> bool {
    0 < bits < INFINITY
}

/// The settings that flags, the file and `-c` give.
pub open spec fn resolved(cli: Cli, file: File, json: Option<Value>) -> Result<
    SettingsModel,
    BadScale,
> {
    let scale = otherwise(either(cli.scale, file.scale), SCALE_ONE);
    if is_scale(scale) {
        Ok(
            SettingsModel {
                theme: either(text::optional(cli.theme), text::optional(file.theme)),
                background: either(text::optional(cli.background), text::optional(file.background)),
                scale,
                fit: otherwise(either(cli.fit, file.fit), FitArg::Width),
                protocol: otherwise(either(cli.protocol, file.protocol), Protocol::Auto),
                mermaid: match (file.mermaid, json) {
                    (Some(base), Some(json)) => Some(json::merged(base@, json@)),
                    (Some(base), None) => Some(base@),
                    (None, Some(json)) => Some(json@),
                    (None, None) => None,
                },
            },
        )
    } else {
        Err(BadScale(scale))
    }
}

fn first_text(a: &Option<String>, b: Option<String>) -> (r: Option<String>)
    ensures
        text::optional(r) == either(text::optional(*a), text::optional(b)),
{
    match a {
        Some(a) => Some(a.clone()),
        None => b,
    }
}

impl Settings {
    pub fn resolve(cli: &Cli, file: File, json: Option<Value>) -> (r: Result<Settings, BadScale>)
        ensures
            match resolved(*cli, file, json) {
                Ok(settings) => r is Ok && r.unwrap()@ == settings,
                Err(why) => r == Err::<Settings, BadScale>(why),
            },
    {
        let scale: u32 = match cli.scale {
            Some(scale) => scale,
            None => match file.scale {
                Some(scale) => scale,
                None => SCALE_ONE,
            },
        };
        if !(0 < scale && scale < INFINITY) {
            return Err(BadScale(scale));
        }
        let mermaid = match (file.mermaid, json) {
            (Some(base), Some(json)) => {
                let mut base = base;
                json::merge(&mut base, &json);
                Some(base)
            },
            (Some(base), None) => Some(base),
            (None, json) => json,
        };
        Ok(
            Settings {
                theme: first_text(&cli.theme, file.theme),
                background: first_text(&cli.background, file.background),
                scale,
                fit: match cli.fit {
                    Some(fit) => fit,
                    None => match file.fit {
                        Some(fit) => fit,
                        None => FitArg::Width,
                    },
                },
                protocol: match cli.protocol {
                    Some(protocol) => protocol,
                    None => match file.protocol {
                        Some(protocol) => protocol,
                        None => Protocol::Auto,
                    },
                },
                mermaid,
            },
        )
    }
}

/// A flag is in effect whatever the configuration file says.
pub proof fn flags_override_the_file(cli: Cli, file: File, json: Option<Value>)
    ensures
        resolved(cli, file, json) matches Ok(settings) ==> {
            &&& cli.theme is Some ==> settings.theme == text::optional(cli.theme)
            &&& cli.background is Some ==> settings.background == text::optional(cli.background)
            &&& cli.scale is Some ==> Some(settings.scale) == cli.scale
            &&& cli.fit is Some ==> Some(settings.fit) == cli.fit
            &&& cli.protocol is Some ==> Some(settings.protocol) == cli.protocol
        },
{
}

// ---------------------------------------------------------------------------------------------
// The configuration file.

/// The configuration file's path in a directory for configuration.
pub open spec fn path_in(base: Seq<char>) -> Seq<char> {
    path::joined(path::joined(base, "mer"@), "config.toml"@)
}

/// The configuration file's path, and whether it was given explicitly.
pub open spec fn config_file(
    mer_config: Option<Seq<char>>,
    xdg_config_home: Option<Seq<char>>,
    home: Option<Seq<char>>,
) -> Option<(Seq<char>, bool)> {
    match (mer_config, xdg_config_home, home) {
        (Some(path), _, _) => Some((path, true)),
        (None, Some(xdg), _) if xdg.len() > 0 && xdg[0] == '/' => Some((path_in(xdg), false)),
        (None, _, Some(home)) => Some((path_in(path::joined(home, ".config"@)), false)),
        _ => None,
    }
}

fn file_in(base: &str) -> (r: String)
    ensures
        r@ == path_in(base@),
{
    let base = text::chars(base);
    let inner = text::chars(path::join(&base, "mer").as_str());
    path::join(&inner, "config.toml")
}

/// The configuration file's path, and whether it was given explicitly with `MER_CONFIG`.
/// Otherwise it is `$XDG_CONFIG_HOME/mer/config.toml` or `~/.config/mer/config.toml`.
pub fn config_path(
    mer_config: Option<&str>,
    xdg_config_home: Option<&str>,
    home: Option<&str>,
) -> (r: Option<(String, bool)>)
    ensures
        match config_file(
            text::optional_str(mer_config),
            text::optional_str(xdg_config_home),
            text::optional_str(home),
        ) {
            Some((path, explicit)) => r is Some && r.unwrap().0@ == path && r.unwrap().1
                == explicit,
            None => r is None,
        },
{
    if let Some(path) = mer_config {
        return Some((path.to_string(), true));
    }
    if let Some(xdg) = xdg_config_home {
        let all = text::chars(xdg);
        if all.len() > 0 && all[0] == '/' {
            return Some((file_in(xdg), false));
        }
    }
    match home {
        Some(home) => {
            let home = text::chars(home);
            Some((file_in(path::join(&home, ".config").as_str()), false))
        },
        None => None,
    }
}

/// What to do about the configuration file.
#[derive(Clone, Copy, Debug, PartialEq, Eq, Structural)]
pub enum FileAction {
    Read,
    /// It was asked for and is not there.
    Missing,
    /// There is none.
    Defaults,
}

/// Decides what to do about a configuration file, given whether it was asked for explicitly
/// and whether it exists.
pub fn file_action(path: Option<bool>, exists: bool) -> (action: FileAction)
    ensures
        action == match path {
            Some(explicit) => if exists {
                FileAction::Read
            } else if explicit {
                FileAction::Missing
            } else {
                FileAction::Defaults
            },
            None => FileAction::Defaults,
        },
{
    match path {
        Some(explicit) => if exists {
            FileAction::Read
        } else if explicit {
            FileAction::Missing
        } else {
            FileAction::Defaults
        },
        None => FileAction::Defaults,
    }
}

} // verus!
