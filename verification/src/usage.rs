//! What holds of the command line, the settings and what they make of a terminal.

use vstd::prelude::*;

use crate::cli;
use crate::cli::{Cli, FitArg, Misuse, Mode, OutputFormat, Protocol};
use crate::display;
use crate::display::{Found, Need, Unusable};
use crate::input;
use crate::input::Format;
use crate::json;
use crate::json::{Model, Value};
use crate::path;
use crate::settings;
use crate::settings::File;
use crate::size;
use crate::size::{Fit, Grid};
use crate::term::probe::CapsModel;
use crate::text;
use crate::theme;
use crate::theme::{PaletteModel, Rgb};

verus! {

// ---------------------------------------------------------------------------------------------
// The command line.

proof fn lemma_stdin(inputs: Seq<String>)
    ensures
        cli::stdin_count(inputs) > 0 <==> exists|i: int|
            0 <= i < inputs.len() && (#[trigger] inputs[i])@ == "-"@,
        cli::stdin_count(inputs) > 1 <==> exists|i: int, j: int|
            0 <= i < j < inputs.len() && (#[trigger] inputs[i])@ == "-"@ && (
            #[trigger] inputs[j])@ == "-"@,
    decreases inputs.len(),
{
    if inputs.len() > 0 {
        let before = inputs.drop_last();
        let n = inputs.len() - 1;
        lemma_stdin(before);
        if cli::stdin_count(before) > 0 {
            let i = choose|i: int| 0 <= i < before.len() && (#[trigger] before[i])@ == "-"@;
            assert(inputs[i]@ == "-"@);
            if inputs[n]@ == "-"@ {
                assert(inputs[i]@ == "-"@ && inputs[n]@ == "-"@);
            }
        }
        if cli::stdin_count(before) > 1 {
            let (i, j) = choose|i: int, j: int|
                0 <= i < j < before.len() && (#[trigger] before[i])@ == "-"@ && (
                #[trigger] before[j])@ == "-"@;
            assert(inputs[i]@ == "-"@ && inputs[j]@ == "-"@);
        }
        if exists|i: int| 0 <= i < inputs.len() && (#[trigger] inputs[i])@ == "-"@ {
            let i = choose|i: int| 0 <= i < inputs.len() && (#[trigger] inputs[i])@ == "-"@;
            if i < n {
                assert(before[i]@ == "-"@);
            }
        }
        if exists|i: int, j: int|
            0 <= i < j < inputs.len() && (#[trigger] inputs[i])@ == "-"@ && (
            #[trigger] inputs[j])@ == "-"@ {
            let (i, j) = choose|i: int, j: int|
                0 <= i < j < inputs.len() && (#[trigger] inputs[i])@ == "-"@ && (
                #[trigger] inputs[j])@ == "-"@;
            assert(before[i]@ == "-"@);
            if j < n {
                assert(before[j]@ == "-"@);
            }
        }
    }
}

/// `--doctor` comes before everything, and without inputs in a terminal there is only help. Stdin
/// is read once at most and cannot be watched. Then checks come before exports, exports before
/// the viewer, and the viewer before the watch. What is left is drawn: a stream as it arrives,
/// and files at once.
pub proof fn modes_follow_the_flags(c: Cli, stdin_terminal: bool)
    ensures
        ({
            let mode = cli::chosen(c, stdin_terminal);
            let inputs = c.inputs@;
            let asked = exists|i: int| 0 <= i < inputs.len() && (#[trigger] inputs[i])@ == "-"@;
            let twice = exists|i: int, j: int|
                0 <= i < j < inputs.len() && (#[trigger] inputs[i])@ == "-"@ && (
                #[trigger] inputs[j])@ == "-"@;
            let stdin = inputs.len() == 0 || asked;
            let helped = inputs.len() == 0 && stdin_terminal;
            let sound = !c.doctor && !helped && !twice && !(c.watch && stdin);
            &&& c.doctor ==> mode == Ok::<Mode, Misuse>(Mode::Doctor)
            &&& !c.doctor && helped ==> mode == Ok::<Mode, Misuse>(Mode::Help)
            &&& !c.doctor && twice ==> mode == Err::<Mode, Misuse>(Misuse::StdinTwice)
            &&& !c.doctor && !helped && !twice && c.watch && stdin ==> mode == Err::<Mode, Misuse>(
                Misuse::WatchNeedsFiles,
            )
            &&& sound && c.check ==> mode == Ok::<Mode, Misuse>(Mode::Check)
            &&& sound && !c.check && c.output is Some ==> mode == Ok::<Mode, Misuse>(Mode::Export)
            &&& sound && !c.check && c.output is None && c.interactive ==> mode == Ok::<
                Mode,
                Misuse,
            >(Mode::View)
            &&& sound && !c.check && c.output is None && !c.interactive ==> {
                &&& c.watch ==> mode == Ok::<Mode, Misuse>(Mode::Watch)
                &&& !c.watch && stdin && inputs.len() <= 1 ==> mode == Ok::<Mode, Misuse>(
                    Mode::Stream,
                )
                &&& !c.watch && (!stdin || inputs.len() > 1) ==> mode == Ok::<Mode, Misuse>(
                    Mode::Show,
                )
            }
        }),
{
    lemma_stdin(c.inputs@);
}

/// `-n` counts from 1: it picks that diagram of an input, and no other, where there are so many.
pub proof fn diagrams_are_counted_from_one(count: nat, n: nat)
    ensures
        1 <= n <= count ==> cli::picked(count, n) == Some(n - 1),
        n > count ==> cli::picked(count, n) is None,
        cli::picked(count, 0) == cli::picked(count, 1),
{
}

// ---------------------------------------------------------------------------------------------
// Files.

/// A file in a directory, with an extension.
proof fn lemma_file(dir: Seq<char>, stem: Seq<char>, ext: Seq<char>)
    requires
        dir.len() == 0 || dir.last() == '/',
        stem.len() > 0,
        ext.len() > 0,
        !stem.contains('/'),
        !ext.contains('/'),
        !ext.contains('.'),
    ensures
        ({
            let name = stem + seq!['.'] + ext;
            &&& path::shortened(dir + name) == dir + name
            &&& path::name_start(dir + name) == dir.len()
            &&& path::file_name(dir + name) == Some(name)
            &&& path::extension(name) == Some(ext)
            &&& path::stem(name) == stem
        }),
{
    let name = stem + seq!['.'] + ext;
    let all = dir + name;
    let n = stem.len() as int;
    let d = dir.len() as int;
    assert forall|i: int| 0 <= i < name.len() implies #[trigger] name[i] != '/' by {
        if i < n {
            assert(stem.contains(stem[i]));
        } else if i > n {
            assert(ext.contains(ext[i - n - 1]));
        }
    }
    assert forall|i: int| d <= i < all.len() implies #[trigger] all[i] != '/' by {
        assert(all[i] == name[i - d]);
    }
    if d > 0 {
        assert(all[d - 1] == dir.last());
    }
    text::lemma_after_last_is(all, '/', d);
    assert(all.skip(d) =~= name);
    reveal_strlit(".");
    reveal_strlit("..");
    assert(name.len() >= 3);
    assert(all.last() == name.last());
    assert(path::shortened(all) == all);
    assert forall|i: int| n + 1 <= i < name.len() implies #[trigger] name[i] != '.' by {
        assert(name[i] == ext[i - n - 1]);
        assert(ext.contains(ext[i - n - 1]));
    }
    assert(name[n] == '.');
    text::lemma_after_last_is(name, '.', n + 1);
    assert(name.skip(n + 1) =~= ext);
    assert(name.take(n) =~= stem);
}

/// A file's extension is what follows its last dot, whatever directory it is in. `.mmd` and
/// `.mermaid` files hold Mermaid, and `.md`, `.markdown` and `.mdx` files Markdown, in letters of
/// either case; other names say nothing. Exports are PNG or SVG by their extension.
pub proof fn extensions_name_formats(dir: Seq<char>, stem: Seq<char>, ext: Seq<char>)
    requires
        dir.len() == 0 || dir.last() == '/',
        stem.len() > 0,
        ext.len() > 0,
        !stem.contains('/'),
        !ext.contains('/'),
        !ext.contains('.'),
    ensures
        ({
            let file = dir + (stem + seq!['.'] + ext);
            &&& path::path_extension(file) == Some(ext)
            &&& text::same_letters(ext, "mmd"@) || text::same_letters(ext, "mermaid"@)
                ==> input::path_format(file) == Some(Format::Mermaid)
            &&& text::same_letters(ext, "md"@) || text::same_letters(ext, "markdown"@)
                || text::same_letters(ext, "mdx"@) ==> input::path_format(file) == Some(
                Format::Markdown,
            )
            &&& input::path_format(file) is Some ==> text::same_letters(ext, "mmd"@)
                || text::same_letters(ext, "mermaid"@) || text::same_letters(ext, "md"@)
                || text::same_letters(ext, "markdown"@) || text::same_letters(ext, "mdx"@)
            &&& text::same_letters(ext, "png"@) ==> cli::export_plan(None, file, 1) == Ok::<
                OutputFormat,
                Seq<char>,
            >(OutputFormat::Png)
            &&& text::same_letters(ext, "svg"@) ==> cli::export_plan(None, file, 1) == Ok::<
                OutputFormat,
                Seq<char>,
            >(OutputFormat::Svg)
            &&& !text::same_letters(ext, "png"@) && !text::same_letters(ext, "svg"@)
                ==> cli::export_plan(None, file, 1) is Err
        }),
{
    lemma_file(dir, stem, ext);
    reveal_strlit("mmd");
    reveal_strlit("md");
    reveal_strlit("mermaid");
    reveal_strlit("markdown");
    reveal_strlit("mdx");
    reveal_strlit("png");
    reveal_strlit("svg");
    if text::same_letters(ext, "mmd"@) {
        assert(text::lower(ext[1]) == text::lower("mmd"@[1]));
        assert(text::lower(ext[2]) == text::lower("mmd"@[2]));
    }
    if text::same_letters(ext, "mdx"@) {
        assert(text::lower(ext[1]) == text::lower("mdx"@[1]));
        assert(text::lower(ext[2]) == text::lower("mdx"@[2]));
    }
    if text::same_letters(ext, "png"@) {
        assert(text::lower(ext[0]) == text::lower("png"@[0]));
    }
    if text::same_letters(ext, "svg"@) {
        assert(text::lower(ext[0]) == text::lower("svg"@[0]));
    }
    reveal_strlit("-");
    let file = dir + (stem + seq!['.'] + ext);
    assert(file.len() >= 3);
}

/// Letters are the same in either case, and only then.
pub proof fn letters_have_two_cases(a: char, b: char)
    ensures
        text::same_letters(seq![a], seq![b]) <==> a == b || (('a' <= a <= 'z' || 'A' <= a <= 'Z') && (
        'a' <= b <= 'z' || 'A' <= b <= 'Z') && (a as int - b as int == 32 || b as int - a as int
            == 32)),
{
    if 'A' <= a <= 'Z' {
        assert((a as u32 + 32) as char as int == a as int + 32);
    }
    if 'A' <= b <= 'Z' {
        assert((b as u32 + 32) as char as int == b as int + 32);
    }
    assert(text::same_letters(seq![a], seq![b]) <==> text::lower(a) == text::lower(b)) by {
        assert(seq![a][0] == a && seq![b][0] == b);
    }
}

/// A format that is asked for is used whatever the file is called, and only one diagram goes to
/// standard output.
pub proof fn formats_can_be_asked_for(format: OutputFormat, output: Seq<char>, count: nat)
    ensures
        output != "-"@ || count <= 1 ==> cli::export_plan(Some(format), output, count) == Ok::<
            OutputFormat,
            Seq<char>,
        >(format),
        output == "-"@ && count > 1 ==> cli::export_plan(Some(format), output, count) is Err,
{
}

/// One diagram is written to the file that was asked for. Of several, each gets its number,
/// counted from 1, before the extension, in the same directory.
pub proof fn exports_are_numbered(
    base: Seq<char>,
    stem: Seq<char>,
    ext: Seq<char>,
    index: nat,
    count: nat,
)
    requires
        base.len() > 0,
        base.last() != '/' && base.last() != '.',
        stem.len() > 0,
        ext.len() > 0,
        !stem.contains('/'),
        !ext.contains('/'),
        !ext.contains('.'),
    ensures
        ({
            let name = stem + seq!['.'] + ext;
            let new = stem + seq!['-'] + text::decimal(index + 1) + seq!['.'] + ext;
            &&& cli::numbered_path(name, index, count) == if count == 1 {
                name
            } else {
                new
            }
            &&& cli::numbered_path(base + seq!['/'] + name, index, count) == base + seq!['/'] + if count
                == 1 {
                name
            } else {
                new
            }
        }),
{
    lemma_numbered(stem, ext, index, count);
    lemma_numbered_in(base, stem, ext, index, count);
}

#[verifier::spinoff_prover]
proof fn lemma_numbered(stem: Seq<char>, ext: Seq<char>, index: nat, count: nat)
    requires
        stem.len() > 0,
        ext.len() > 0,
        !stem.contains('/'),
        !ext.contains('/'),
        !ext.contains('.'),
    ensures
        cli::numbered_path(stem + seq!['.'] + ext, index, count) == if count == 1 {
            stem + seq!['.'] + ext
        } else {
            stem + seq!['-'] + text::decimal(index + 1) + seq!['.'] + ext
        },
{
    let name = stem + seq!['.'] + ext;
    let new = stem + seq!['-'] + text::decimal(index + 1) + seq!['.'] + ext;
    reveal_strlit("-");
    reveal_strlit(".");
    reveal_strlit("/");
    let none = Seq::<char>::empty();
    lemma_file(none, stem, ext);
    assert(none + name =~= name);
    assert(name.take(0) =~= none);
    assert(path::shortened(none) == none) by {
        assert(text::after_last(none, '/') == 0);
    }
    assert(stem + "-"@ + text::decimal(index + 1) + "."@ + ext =~= new);
    assert(path::joined(none, new) =~= new);
}

#[verifier::spinoff_prover]
#[verifier::rlimit(40)]
proof fn lemma_numbered_in(
    base: Seq<char>,
    stem: Seq<char>,
    ext: Seq<char>,
    index: nat,
    count: nat,
)
    requires
        base.len() > 0,
        base.last() != '/' && base.last() != '.',
        stem.len() > 0,
        ext.len() > 0,
        !stem.contains('/'),
        !ext.contains('/'),
        !ext.contains('.'),
    ensures
        cli::numbered_path(base + seq!['/'] + (stem + seq!['.'] + ext), index, count) == base
            + seq!['/'] + if count == 1 {
            stem + seq!['.'] + ext
        } else {
            stem + seq!['-'] + text::decimal(index + 1) + seq!['.'] + ext
        },
{
    let name = stem + seq!['.'] + ext;
    let new = stem + seq!['-'] + text::decimal(index + 1) + seq!['.'] + ext;
    reveal_strlit("-");
    reveal_strlit(".");
    reveal_strlit("/");
    assert(stem + "-"@ + text::decimal(index + 1) + "."@ + ext =~= new);
    let dir = base + seq!['/'];
    assert(dir.last() == '/');
    lemma_file(dir, stem, ext);
    let all = dir + name;
    assert(all =~= base + seq!['/'] + name);
    assert(all.take(dir.len() as int) =~= dir);
    assert(path::shortened(base) == base) by {
        let at = text::after_last(base, '/') as int;
        text::lemma_after_last(base, '/');
        if 0 < at < base.len() && base.skip(at) == "."@ {
            assert(base.skip(at).last() == base.last());
        }
    }
    assert(dir.drop_last() =~= base);
    assert(path::shortened(dir) == base);
    assert(path::joined(base, new) =~= base + seq!['/'] + new);
}

// ---------------------------------------------------------------------------------------------
// Settings.

/// Without a flag the file's setting is in effect, and without either the default: the natural
/// size at scale 1, fitted to the width, in whichever way the terminal can.
pub proof fn settings_fall_back(c: Cli, file: File, given: Option<Value>)
    ensures
        settings::resolved(c, file, given) matches Ok(s) ==> {
            &&& c.theme is None ==> s.theme == text::optional(file.theme)
            &&& c.background is None ==> s.background == text::optional(file.background)
            &&& c.scale is None && file.scale is Some ==> Some(s.scale) == file.scale
            &&& c.scale is None && file.scale is None ==> s.scale == 0x3f80_0000
            &&& c.fit is None && file.fit is Some ==> Some(s.fit) == file.fit
            &&& c.fit is None && file.fit is None ==> s.fit == FitArg::Width
            &&& c.protocol is None && file.protocol is Some ==> Some(s.protocol) == file.protocol
            &&& c.protocol is None && file.protocol is None ==> s.protocol == Protocol::Auto
            &&& given is None && file.mermaid is None ==> s.mermaid is None
            &&& given is None && file.mermaid is Some ==> s.mermaid == Some(
                file.mermaid.unwrap()@,
            )
            &&& given is Some && file.mermaid is None ==> s.mermaid == Some(given.unwrap()@)
        },
{
}

/// Settings are refused exactly for a scale that is no positive, finite number.
pub proof fn only_bad_scales_are_refused(c: Cli, file: File, given: Option<Value>)
    ensures
        ({
            let scale = if c.scale is Some {
                c.scale.unwrap()
            } else if file.scale is Some {
                file.scale.unwrap()
            } else {
                0x3f80_0000
            };
            settings::resolved(c, file, given) is Err <==> scale == 0 || scale >= 0x7f80_0000
        }),
{
}

/// What is laid over a configuration wins, key by key: what only one of the two has stays, and
/// what both have is the overlay's, or both merged where both are objects.
pub proof fn overlays_win_key_by_key(
    base: Map<Seq<char>, Model>,
    overlay: Map<Seq<char>, Model>,
    key: Seq<char>,
)
    ensures
        ({
            let both = json::merged(Model::Object(base), Model::Object(overlay));
            let found = json::lookup(both, key);
            &&& both is Object
            &&& !base.contains_key(key) && !overlay.contains_key(key) ==> found is None
            &&& base.contains_key(key) && !overlay.contains_key(key) ==> found == Some(base[key])
            &&& overlay.contains_key(key) && !(overlay[key] is Object) ==> found == Some(
                overlay[key],
            )
            &&& overlay.contains_key(key) && base.contains_key(key) && !(base[key] is Object)
                ==> found == Some(overlay[key])
            &&& overlay.contains_key(key) && base.contains_key(key) && base[key] is Object
                && overlay[key] is Object ==> found == Some(
                json::merged(base[key], overlay[key]),
            )
            &&& overlay.contains_key(key) && !base.contains_key(key) ==> found == Some(
                overlay[key],
            )
        }),
{
    reveal_with_fuel(json::merged, 2);
}

/// `MER_CONFIG` names the configuration file. Otherwise it is `mer/config.toml` in an absolute
/// `XDG_CONFIG_HOME`, or in `.config` at home, and need not be there.
pub proof fn the_configuration_file_is_found(
    own: Option<Seq<char>>,
    xdg: Option<Seq<char>>,
    home: Option<Seq<char>>,
)
    requires
        xdg is Some && xdg.unwrap().len() > 0 ==> xdg.unwrap().last() != '/',
        home is Some ==> home.unwrap().len() > 0 && home.unwrap().last() != '/',
    ensures
        ({
            let found = settings::config_file(own, xdg, home);
            let usable = xdg is Some && xdg.unwrap().len() > 0 && xdg.unwrap()[0] == '/';
            &&& own is Some ==> found == Some((own.unwrap(), true))
            &&& own is None && usable ==> found == Some(
                (xdg.unwrap() + "/mer/config.toml"@, false),
            )
            &&& own is None && !usable && home is Some ==> found == Some(
                (home.unwrap() + "/.config/mer/config.toml"@, false),
            )
            &&& own is None && !usable && home is None ==> found is None
        }),
{
    reveal_strlit("/");
    reveal_strlit("mer");
    reveal_strlit("config.toml");
    reveal_strlit(".config");
    reveal_strlit("/mer/config.toml");
    reveal_strlit("/.config/mer/config.toml");
    if let Some(base) = xdg {
        if base.len() > 0 {
            let inner = base + "/"@ + "mer"@;
            assert(path::joined(base, "mer"@) =~= inner);
            assert(inner.last() == 'r');
            assert(inner + "/"@ + "config.toml"@ =~= base + "/mer/config.toml"@);
        }
    }
    if let Some(base) = home {
        let hidden = base + "/"@ + ".config"@;
        assert(path::joined(base, ".config"@) =~= hidden);
        assert(hidden.last() == 'g');
        let inner = hidden + "/"@ + "mer"@;
        assert(path::joined(hidden, "mer"@) =~= inner);
        assert(inner.last() == 'r');
        assert(inner + "/"@ + "config.toml"@ =~= base + "/.config/mer/config.toml"@);
    }
}

// ---------------------------------------------------------------------------------------------
// What they make of a terminal.

/// Text needs only the width of the terminal, and graphics have to be asked about. Without a
/// terminal there are no graphics unless they are forced.
pub proof fn graphics_need_a_terminal(stdout_terminal: bool)
    ensures
        display::needed(Protocol::Text, stdout_terminal) == Ok::<Need, Unusable>(Need::Width),
        display::needed(Protocol::Kitty, stdout_terminal) == Ok::<Need, Unusable>(Need::Probe),
        display::needed(Protocol::Auto, true) == Ok::<Need, Unusable>(Need::Probe),
        display::needed(Protocol::Auto, false) == Err::<Need, Unusable>(Unusable::NotATerminal),
{
}

/// Diagrams are drawn as text where that was asked for and where the terminal has no graphics,
/// unless graphics are forced.
pub proof fn text_stands_in_for_graphics(protocol: Protocol, found: Found)
    ensures
        protocol == Protocol::Text ==> (display::terminal_caps(protocol, found) matches Ok((_, text))
            && text),
        protocol == Protocol::Kitty ==> (display::terminal_caps(protocol, found) matches Ok((_, text))
            && !text),
        protocol == Protocol::Auto ==> match found {
            Found::Probed(caps) => display::terminal_caps(protocol, found) == Ok::<
                (CapsModel, bool),
                Unusable,
            >((caps@, !caps.kitty_graphics)),
            _ => display::terminal_caps(protocol, found) == Err::<(CapsModel, bool), Unusable>(
                Unusable::CannotOpen,
            ),
        },
{
}

/// The grid is the terminal's where it is known, and 80 by 24 cells of 10 by 20 pixels where not.
pub proof fn grids_are_as_reported(caps: CapsModel)
    ensures
        caps.cols > 0 ==> display::grid_of(caps).cols == caps.cols,
        caps.cols == 0 ==> display::grid_of(caps).cols == 80,
        caps.rows > 0 ==> display::grid_of(caps).rows == caps.rows,
        caps.rows == 0 ==> display::grid_of(caps).rows == 24,
        caps.cell matches Some((w, h)) ==> display::grid_of(caps).cell_w == w && display::grid_of(
            caps,
        ).cell_h == h,
        caps.cell is None ==> display::grid_of(caps).cell_w == 10 && display::grid_of(caps).cell_h
            == 20,
{
}

/// Text is as wide as the terminal at most, and as wide as it likes elsewhere.
pub proof fn only_terminals_limit_text(cols: u16)
    ensures
        cols > 0 ==> display::width_limit(true, cols) == Some(cols as usize),
        display::width_limit(true, 0) is None,
        display::width_limit(false, cols) is None,
{
}

/// A diagram never covers more than 297 cells either way. Fitted to the width it is no wider than
/// the terminal, and contained in the terminal it is no higher either.
pub proof fn diagrams_fit_the_grid(grid: Grid, fit: Fit)
    ensures
        ({
            let most = size::most_cells(grid, fit);
            &&& 1 <= most.cols <= 297 && 1 <= most.rows <= 297
            &&& fit != Fit::Natural && 1 <= grid.cols <= 297 ==> most.cols == grid.cols
            &&& fit != Fit::Natural && grid.cols > 297 ==> most.cols == 297
            &&& fit == Fit::Natural ==> most.cols == 297
            &&& fit == Fit::Contain && 1 <= grid.rows <= 297 ==> most.rows == grid.rows
            &&& fit == Fit::Contain && grid.rows > 297 ==> most.rows == 297
            &&& fit != Fit::Contain ==> most.rows == 297
            &&& fit != Fit::Natural && grid.cols == 0 ==> most.cols == 1
            &&& fit == Fit::Contain && grid.rows == 0 ==> most.rows == 1
        }),
        display::fit_of(FitArg::Width) == Fit::Width,
        display::fit_of(FitArg::Contain) == Fit::Contain,
        display::fit_of(FitArg::Natural) == Fit::Natural,
{
}

/// The `terminal` theme leaves the background alone, dark themes are drawn on dark gray and
/// others on white, unless a background was asked for.
pub proof fn themes_have_their_backgrounds(
    theme: Seq<char>,
    asked: Seq<char>,
    palette: PaletteModel,
)
    ensures
        display::background_spec(Some(asked), theme) == asked,
        theme == "terminal"@ ==> display::background_spec(None, theme) == "transparent"@,
        theme != "terminal"@ && text::has(theme, "dark"@) ==> display::background_spec(None, theme)
            == "#333333"@,
        theme != "terminal"@ && !text::has(theme, "dark"@) ==> display::background_spec(None, theme)
            == "white"@,
        display::background_color("transparent"@, Some(palette)) == Ok::<Option<Rgb>, bool>(None),
        display::background_color("none"@, Some(palette)) == Ok::<Option<Rgb>, bool>(None),
        display::background_color("white"@, Some(palette)) == Ok::<Option<Rgb>, bool>(
            Some(Rgb(255, 255, 255)),
        ),
        display::background_color("black"@, Some(palette)) == Ok::<Option<Rgb>, bool>(
            Some(Rgb(0, 0, 0)),
        ),
        palette.bg is Some ==> display::background_color("terminal"@, Some(palette)) == Ok::<
            Option<Rgb>,
            bool,
        >(palette.bg),
        palette.bg is None ==> display::background_color("terminal"@, Some(palette)) is Err,
        display::background_color("terminal"@, None) is Err,
{
    reveal_strlit("transparent");
    reveal_strlit("none");
    reveal_strlit("terminal");
    reveal_strlit("white");
    reveal_strlit("black");
    assert("black"@[0] != "white"@[0]);
}

/// A theme is asked for by its name. The `terminal` theme is made of the terminal's colors where
/// it reported them; otherwise it is Mermaid's dark or default one, as the terminal says.
pub proof fn themes_are_asked_for_by_name(theme: Seq<char>, caps: CapsModel)
    ensures
        theme != "terminal"@ ==> json::lookup(
            display::site(theme, Some(caps), None),
            "theme"@,
        ) == Some(Model::Text(theme)),
        theme == "terminal"@ && (caps.palette.fg is None || caps.palette.bg is None)
            ==> json::lookup(display::site(theme, Some(caps), None), "theme"@) == Some(
            Model::Text(
                if caps.dark == Some(true) {
                    "dark"@
                } else {
                    "default"@
                },
            ),
        ),
        theme == "terminal"@ ==> json::lookup(display::site(theme, None, None), "theme"@) == Some(
            Model::Text("default"@),
        ),
{
    reveal_strlit("theme");
    reveal_strlit("fontFamily");
    assert("theme"@.len() != "fontFamily"@.len());
}

// ---------------------------------------------------------------------------------------------
// Reports on the terminal.

proof fn lemma_row(s: Seq<char>, label: Seq<char>, value: Seq<char>)
    ensures
        text::has(s + label + value, label + value),
{
    let x = label + value;
    let all = s + label + value;
    assert(all.skip(s.len() as int) =~= x);
    assert(x.take(x.len() as int) =~= x);
}

proof fn lemma_kept(s: Seq<char>, label: Seq<char>, value: Seq<char>, x: Seq<char>)
    requires
        text::has(s, x),
    ensures
        text::has(s + label + value, x),
{
    let i = choose|i: int| 0 <= i <= s.len() && text::starts(#[trigger] s.skip(i), x);
    let all = s + label + value;
    assert(all.skip(i).take(x.len() as int) =~= s.skip(i).take(x.len() as int));
    assert(text::starts(all.skip(i), x));
}

/// A report on the terminal tells each thing behind its name: yes or no, sizes, and colors as they
/// are written in hexadecimal, or that they were not reported.
pub proof fn checkups_tell_what_is_known(c: display::Checkup)
    ensures
        ({
            let t = display::checkup_text(c);
            let color = |color: Option<Rgb>|
                match color {
                    Some(color) => theme::hex_text(color),
                    None => "not reported"@,
                };
            let yes = |known: bool|
                if known {
                    "yes"@
                } else {
                    "no"@
                };
            &&& text::has(t, "\ninside tmux       "@ + yes(c.tmux))
            &&& text::has(t, "\nresponded         "@ + yes(c.caps.responded))
            &&& text::has(t, "\nkitty graphics    "@ + yes(c.caps.kitty_graphics))
            &&& text::has(
                t,
                "\ngrid              "@ + text::decimal(c.caps.cols as nat) + " × "@ + text::decimal(
                    c.caps.rows as nat,
                ),
            )
            &&& text::has(
                t,
                " cells\ncell size         "@ + match c.caps.cell {
                    Some((w, h)) => text::decimal(w as nat) + " × "@ + text::decimal(h as nat)
                        + " px (text-matched scale "@ + c.scale@ + ")"@,
                    None => "not reported"@,
                },
            )
            &&& text::has(t, "\nforeground        "@ + color(c.caps.palette.fg))
            &&& text::has(t, "\nbackground        "@ + color(c.caps.palette.bg))
            &&& text::has(
                t,
                "\ncolor scheme      "@ + match c.caps.dark {
                    Some(dark) => if dark {
                        "dark"@
                    } else {
                        "light"@
                    },
                    None => "not reported"@,
                },
            )
            &&& c.config matches Some((path, found)) ==> text::has(
                t,
                "\nconfig file       "@ + if found {
                    path@
                } else {
                    path@ + " (not found)"@
                },
            )
        }),
{
    let s0 = "terminal          "@ + c.program@ + " "@ + c.version@;
    let l0 = "\ninside tmux       "@;
    let v0 = display::yes_or_no(c.tmux);
    let s1 = s0 + l0 + v0;
    let l1 = "\nresponded         "@;
    let v1 = display::yes_or_no(c.caps.responded);
    let s2 = s1 + l1 + v1;
    let l2 = "\nkitty graphics    "@;
    let v2 = display::yes_or_no(c.caps.kitty_graphics);
    let s3 = s2 + l2 + v2;
    let l3 = "\ngrid              "@;
    let v3 = text::decimal(c.caps.cols as nat);
    let s4 = s3 + l3 + v3;
    let l4 = " × "@;
    let v4 = text::decimal(c.caps.rows as nat);
    let s5 = s4 + l4 + v4;
    let l5 = " cells\ncell size         "@;
    let v5 = display::cell_text(c.caps.cell, c.scale@);
    let s6 = s5 + l5 + v5;
    let l6 = "\nforeground        "@;
    let v6 = display::color_or_not(c.caps.palette.fg);
    let s7 = s6 + l6 + v6;
    let l7 = "\nbackground        "@;
    let v7 = display::color_or_not(c.caps.palette.bg);
    let s8 = s7 + l7 + v7;
    let l8 = "\ncolor scheme      "@;
    let v8 = display::scheme_text(c.caps.dark);
    let s9 = s8 + l8 + v8;
    let l9 = "\nconfig file       "@;
    let v9 = display::config_text(c.config);
    let s10 = s9 + l9 + v9;
    lemma_row(s0, l0, v0);
    lemma_kept(s1, l1, v1, l0 + v0);
    lemma_kept(s2, l2, v2, l0 + v0);
    lemma_kept(s3, l3, v3, l0 + v0);
    lemma_kept(s4, l4, v4, l0 + v0);
    lemma_kept(s5, l5, v5, l0 + v0);
    lemma_kept(s6, l6, v6, l0 + v0);
    lemma_kept(s7, l7, v7, l0 + v0);
    lemma_kept(s8, l8, v8, l0 + v0);
    lemma_kept(s9, l9, v9, l0 + v0);
    lemma_kept(s10, "\n"@, Seq::empty(), l0 + v0);
    lemma_row(s1, l1, v1);
    lemma_kept(s2, l2, v2, l1 + v1);
    lemma_kept(s3, l3, v3, l1 + v1);
    lemma_kept(s4, l4, v4, l1 + v1);
    lemma_kept(s5, l5, v5, l1 + v1);
    lemma_kept(s6, l6, v6, l1 + v1);
    lemma_kept(s7, l7, v7, l1 + v1);
    lemma_kept(s8, l8, v8, l1 + v1);
    lemma_kept(s9, l9, v9, l1 + v1);
    lemma_kept(s10, "\n"@, Seq::empty(), l1 + v1);
    lemma_row(s2, l2, v2);
    lemma_kept(s3, l3, v3, l2 + v2);
    lemma_kept(s4, l4, v4, l2 + v2);
    lemma_kept(s5, l5, v5, l2 + v2);
    lemma_kept(s6, l6, v6, l2 + v2);
    lemma_kept(s7, l7, v7, l2 + v2);
    lemma_kept(s8, l8, v8, l2 + v2);
    lemma_kept(s9, l9, v9, l2 + v2);
    lemma_kept(s10, "\n"@, Seq::empty(), l2 + v2);
    let x = l3 + v3 + l4 + v4;
    assert(s5.skip(s3.len() as int) =~= x);
    assert(x.take(x.len() as int) =~= x);
    assert(text::starts(s5.skip(s3.len() as int), x));
    lemma_kept(s5, l5, v5, x);
    lemma_kept(s6, l6, v6, x);
    lemma_kept(s7, l7, v7, x);
    lemma_kept(s8, l8, v8, x);
    lemma_kept(s9, l9, v9, x);
    lemma_kept(s10, "\n"@, Seq::empty(), x);
    lemma_row(s5, l5, v5);
    lemma_kept(s6, l6, v6, l5 + v5);
    lemma_kept(s7, l7, v7, l5 + v5);
    lemma_kept(s8, l8, v8, l5 + v5);
    lemma_kept(s9, l9, v9, l5 + v5);
    lemma_kept(s10, "\n"@, Seq::empty(), l5 + v5);
    lemma_row(s6, l6, v6);
    lemma_kept(s7, l7, v7, l6 + v6);
    lemma_kept(s8, l8, v8, l6 + v6);
    lemma_kept(s9, l9, v9, l6 + v6);
    lemma_kept(s10, "\n"@, Seq::empty(), l6 + v6);
    lemma_row(s7, l7, v7);
    lemma_kept(s8, l8, v8, l7 + v7);
    lemma_kept(s9, l9, v9, l7 + v7);
    lemma_kept(s10, "\n"@, Seq::empty(), l7 + v7);
    lemma_row(s8, l8, v8);
    lemma_kept(s9, l9, v9, l8 + v8);
    lemma_kept(s10, "\n"@, Seq::empty(), l8 + v8);
    lemma_row(s9, l9, v9);
    lemma_kept(s10, "\n"@, Seq::empty(), l9 + v9);
    assert(s10 + "\n"@ + Seq::<char>::empty() =~= s10 + "\n"@);
}

} // verus!
