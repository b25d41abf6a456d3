//! What the command line asks for.

use vstd::prelude::*;
use vstd::slice::slice_subrange;

use crate::input;
use crate::input::{Diagram, Format};
use crate::path;
use crate::size::Fit;
use crate::text;

verus! {

#[derive(Clone, Copy, Debug, PartialEq, Eq, Structural)]
pub enum StdinFormat {
    Auto,
    Mermaid,
    Markdown,
}

#[derive(Clone, Copy, Debug, PartialEq, Eq, Structural)]
pub enum FitArg {
    Width,
    Contain,
    /// Spelled `none` on the command line.
    Natural,
}

#[derive(Clone, Copy, Debug, PartialEq, Eq, Structural)]
pub enum OutputFormat {
    Png,
    Svg,
}

#[derive(Clone, Copy, Debug, PartialEq, Eq, Structural)]
pub enum Protocol {
    Auto,
    Kitty,
    Text,
}

/// The flags and inputs that were given.
#[derive(Debug)]
pub struct Cli {
    /// Mermaid or Markdown files; "-" reads stdin.
    pub inputs: Vec<String>,
    /// Redraw whenever a file changes.
    pub watch: bool,
    /// Open the full-screen viewer.
    pub interactive: bool,
    /// Parse and lay out every diagram without displaying.
    pub check: bool,
    /// Only the Nth diagram of each input, counting from 1.
    pub diagram: Option<usize>,
    /// How to interpret stdin.
    pub stdin_format: StdinFormat,
    pub theme: Option<String>,
    pub background: Option<String>,
    /// Mermaid configuration file.
    pub config: Option<String>,
    /// Size relative to the terminal's text size: the bits of a single-precision number.
    pub scale: Option<u32>,
    pub fit: Option<FitArg>,
    /// Write images instead of displaying; "-" for stdout.
    pub output: Option<String>,
    pub format: Option<OutputFormat>,
    pub protocol: Option<Protocol>,
    /// Print the detected terminal capabilities.
    pub doctor: bool,
}

impl FitArg {
    /// How diagrams are fitted.
    pub fn fit(self) -> (fit: Fit)
        ensures
            fit == match self {
                FitArg::Width => Fit::Width,
                FitArg::Contain => Fit::Contain,
                FitArg::Natural => Fit::Natural,
            },
    {
        match self {
            FitArg::Width => Fit::Width,
            FitArg::Contain => Fit::Contain,
            FitArg::Natural => Fit::Natural,
        }
    }
}

impl StdinFormat {
    /// The format of stdin, or `None` to detect it.
    pub fn format(self) -> (format: Option<Format>)
        ensures
            format == match self {
                StdinFormat::Auto => None,
                StdinFormat::Mermaid => Some(Format::Mermaid),
                StdinFormat::Markdown => Some(Format::Markdown),
            },
    {
        match self {
            StdinFormat::Auto => None,
            StdinFormat::Mermaid => Some(Format::Mermaid),
            StdinFormat::Markdown => Some(Format::Markdown),
        }
    }
}

// ---------------------------------------------------------------------------------------------
// What to do.

/// What a run of mer does.
#[derive(Clone, Copy, Debug, PartialEq, Eq, Structural)]
pub enum Mode {
    /// Print the terminal's capabilities.
    Doctor,
    /// Print how mer is used.
    Help,
    /// Report errors without displaying.
    Check,
    /// Write images.
    Export,
    /// Open the viewer.
    View,
    /// Redraw as files change.
    Watch,
    /// Draw what arrives on stdin.
    Stream,
    /// Draw files.
    Show,
}

/// Why the command line asks for something that cannot be done.
#[derive(Clone, Copy, Debug, PartialEq, Eq, Structural)]
pub enum Misuse {
    WatchNeedsFiles,
    StdinTwice,
}

/// Whether an input is stdin.
pub open spec fn is_stdin(input: Seq<char>) -> bool {
    input == "-"@
}

/// How many inputs are stdin.
pub open spec fn stdin_count(inputs: Seq<String>) -> nat
    decreases inputs.len(),
{
    if inputs.len() == 0 {
        0
    } else {
        stdin_count(inputs.drop_last()) + if is_stdin(inputs.last()@) {
            1nat
        } else {
            0
        }
    }
}

/// What a run does.
pub open spec fn chosen(cli: Cli, stdin_terminal: bool) -> Result<Mode, Misuse> {
    let stdin = cli.inputs@.len() == 0 || stdin_count(cli.inputs@) > 0;
    if cli.doctor {
        Ok(Mode::Doctor)
    } else if cli.inputs@.len() == 0 && stdin_terminal {
        Ok(Mode::Help)
    } else if stdin_count(cli.inputs@) > 1 {
        Err(Misuse::StdinTwice)
    } else if cli.watch && stdin {
        Err(Misuse::WatchNeedsFiles)
    } else if cli.check {
        Ok(Mode::Check)
    } else if cli.output is Some {
        Ok(Mode::Export)
    } else if cli.interactive {
        Ok(Mode::View)
    } else if cli.watch {
        Ok(Mode::Watch)
    } else if stdin && cli.inputs@.len() <= 1 {
        Ok(Mode::Stream)
    } else {
        Ok(Mode::Show)
    }
}

impl Misuse {
    /// What mer says about it.
    pub fn message(self) -> (s: &'static str)
        ensures
            s@ == match self {
                Misuse::WatchNeedsFiles => "--watch needs files; stdin cannot be watched"@,
                Misuse::StdinTwice => "stdin can only be read once"@,
            },
    {
        match self {
            Misuse::WatchNeedsFiles => "--watch needs files; stdin cannot be watched",
            Misuse::StdinTwice => "stdin can only be read once",
        }
    }
}

fn count_stdin(inputs: &Vec<String>) -> (n: usize)
    ensures
        n == stdin_count(inputs@),
        n <= inputs@.len(),
{
    let mut i: usize = 0;
    let mut n: usize = 0;
    while i < inputs.len()
        invariant
            n <= i <= inputs@.len(),
            n == stdin_count(inputs@.take(i as int)),
        decreases inputs@.len() - i,
    {
        assert(inputs@.take(i + 1).drop_last() =~= inputs@.take(i as int));
        if text::str_eq(inputs[i].as_str(), "-") {
            n += 1;
        }
        i += 1;
    }
    assert(inputs@.take(inputs@.len() as int) =~= inputs@);
    n
}

/// Decides what a run does. `stdin_terminal` says that stdin is a terminal rather than a pipe.
pub fn mode(cli: &Cli, stdin_terminal: bool) -> (mode: Result<Mode, Misuse>)
    ensures
        mode == chosen(*cli, stdin_terminal),
{
    let count: usize = count_stdin(&cli.inputs);
    let stdin = cli.inputs.len() == 0 || count > 0;
    if cli.doctor {
        Ok(Mode::Doctor)
    } else if cli.inputs.len() == 0 && stdin_terminal {
        Ok(Mode::Help)
    } else if count > 1 {
        Err(Misuse::StdinTwice)
    } else if cli.watch && stdin {
        Err(Misuse::WatchNeedsFiles)
    } else if cli.check {
        Ok(Mode::Check)
    } else if cli.output.is_some() {
        Ok(Mode::Export)
    } else if cli.interactive {
        Ok(Mode::View)
    } else if cli.watch {
        Ok(Mode::Watch)
    } else if stdin && cli.inputs.len() <= 1 {
        Ok(Mode::Stream)
    } else {
        Ok(Mode::Show)
    }
}

// ---------------------------------------------------------------------------------------------
// Picking diagrams.

/// What mer says when an input has no such diagram.
pub open spec fn no_such_diagram(origin: Seq<char>, count: nat, n: nat) -> Seq<char> {
    origin + " has "@ + text::decimal(count) + " diagram(s), so there is no diagram "@
        + text::decimal(n)
}

/// Which of so many diagrams the `n`th is, when there is one. Counting starts from 1, and 0
/// means the first as well.
pub open spec fn picked(count: nat, n: nat) -> Option<int> {
    let at = if n == 0 {
        0int
    } else {
        n - 1
    };
    if at < count {
        Some(at)
    } else {
        None
    }
}

/// The diagrams of an input to use: all of them, or the one that was asked for.
pub fn select(found: Vec<Diagram>, n: Option<usize>, origin: &str) -> (r: Result<
    Vec<Diagram>,
    String,
>)
    ensures
        match n {
            None => r is Ok && r.unwrap()@ == found@,
            Some(n) => match picked(found@.len(), n as nat) {
                Some(at) => r is Ok && r.unwrap()@ == seq![found@[at]],
                None => r is Err && r->Err_0@ == no_such_diagram(
                    origin@,
                    found@.len(),
                    n as nat,
                ),
            },
        },
{
    let n: usize = match n {
        None => return Ok(found),
        Some(n) => n,
    };
    let at: usize = if n == 0 {
        0
    } else {
        n - 1
    };
    let count: usize = found.len();
    if at < count {
        let mut found = found;
        let chosen = found.swap_remove(at);
        let mut one: Vec<Diagram> = Vec::new();
        one.push(chosen);
        return Ok(one);
    }
    let mut message = origin.to_string();
    message.append(" has ");
    text::push_decimal(&mut message, count as u128);
    message.append(" diagram(s), so there is no diagram ");
    text::push_decimal(&mut message, n as u128);
    Err(message)
}

// ---------------------------------------------------------------------------------------------
// Exports and checks.

/// The image format that a file extension stands for.
pub open spec fn image_format(ext: Option<Seq<char>>) -> Option<OutputFormat> {
    match ext {
        Some(ext) => if text::same_letters(ext, "png"@) {
            Some(OutputFormat::Png)
        } else if text::same_letters(ext, "svg"@) {
            Some(OutputFormat::Svg)
        } else {
            None
        },
        None => None,
    }
}

/// What an export to `output` of so many diagrams writes, or why it cannot.
pub open spec fn export_plan(
    format: Option<OutputFormat>,
    output: Seq<char>,
    count: nat,
) -> Result<OutputFormat, Seq<char>> {
    let known = match format {
        Some(format) => Some(format),
        None => image_format(path::path_extension(output)),
    };
    match known {
        None => Err("cannot tell the image format of "@ + output + "; use --format"@),
        Some(format) => if is_stdin(output) && count > 1 {
            Err(text::decimal(count) + " diagrams found; pick one with -n to write to stdout"@)
        } else {
            Ok(format)
        },
    }
}

/// Decides in which format to write so many diagrams to `output`.
pub fn export_format(format: Option<OutputFormat>, output: &str, count: usize) -> (r: Result<
    OutputFormat,
    String,
>)
    ensures
        match export_plan(format, output@, count as nat) {
            Ok(format) => r == Ok::<OutputFormat, String>(format),
            Err(why) => r is Err && r->Err_0@ == why,
        },
{
    let format = match format {
        Some(format) => format,
        None => {
            let all = text::chars(output);
            let known = match path::find_path_extension(&all) {
                Some(ext) => if text::is_text_ignoring_case(ext, "png") {
                    Some(OutputFormat::Png)
                } else if text::is_text_ignoring_case(ext, "svg") {
                    Some(OutputFormat::Svg)
                } else {
                    None
                },
                None => None,
            };
            match known {
                Some(format) => format,
                None => {
                    let mut why = "cannot tell the image format of ".to_string();
                    why.append(output);
                    why.append("; use --format");
                    return Err(why);
                },
            }
        },
    };
    if text::str_eq(output, "-") && count > 1 {
        let mut why = String::new();
        text::push_decimal(&mut why, count as u128);
        why.append(" diagrams found; pick one with -n to write to stdout");
        assert(why@ =~= text::decimal(count as nat)
            + " diagrams found; pick one with -n to write to stdout"@);
        return Err(why);
    }
    Ok(format)
}

/// `out.png` for a single diagram; `out-1.png`, `out-2.png`, … for several.
pub open spec fn numbered_path(output: Seq<char>, index: nat, count: nat) -> Seq<char> {
    let name = match path::file_name(output) {
        Some(name) => name,
        None => Seq::empty(),
    };
    let start = path::stem(name) + "-"@ + text::decimal(index + 1);
    if count == 1 {
        output
    } else {
        path::with_file_name(
            output,
            match path::extension(name) {
                Some(ext) => start + "."@ + ext,
                None => start,
            },
        )
    }
}

/// No two diagrams of an export are written to the same file.
pub proof fn exports_are_kept_apart(output: Seq<char>, i: nat, j: nat, count: nat)
    requires
        i < count,
        j < count,
        i != j,
    ensures
        numbered_path(output, i, count) != numbered_path(output, j, count),
{
    let name = match path::file_name(output) {
        Some(name) => name,
        None => Seq::empty(),
    };
    let base = match path::file_name(output) {
        Some(_) => path::parent(output),
        None => output,
    };
    let before = path::joined(base, path::stem(name) + "-"@);
    let n = before.len() as int;
    let a = numbered_path(output, i, count);
    let b = numbered_path(output, j, count);
    let end = match path::extension(name) {
        Some(ext) => "."@ + ext,
        None => Seq::empty(),
    };
    assert(a =~= before + text::decimal(i + 1) + end);
    assert(b =~= before + text::decimal(j + 1) + end);
    if a == b {
        assert(a.skip(n) =~= text::decimal(i + 1) + end);
        assert(b.skip(n) =~= text::decimal(j + 1) + end);
        let x = a.skip(n) + seq!['.'];
        match path::extension(name) {
            Some(ext) => {
                reveal_strlit(".");
                assert(x =~= text::decimal(i + 1) + seq!['.'] + (ext + seq!['.']));
                assert(x =~= text::decimal(j + 1) + seq!['.'] + (ext + seq!['.']));
                text::lemma_same_number(i + 1, j + 1, '.', ext + seq!['.'], ext + seq!['.']);
            },
            None => {
                assert(x =~= text::decimal(i + 1) + seq!['.'] + Seq::empty());
                assert(x =~= text::decimal(j + 1) + seq!['.'] + Seq::empty());
                text::lemma_same_number(i + 1, j + 1, '.', Seq::empty(), Seq::empty());
            },
        }
    }
}

/// `out.png` for a single diagram; `out-1.png`, `out-2.png`, … for several.
pub fn numbered(output: &str, index: usize, count: usize) -> (r: String)
    ensures
        r@ == numbered_path(output@, index as nat, count as nat),
{
    if count == 1 {
        return output.to_string();
    }
    let all = text::chars(output);
    let mut new = String::new();
    let mut ext: Option<&[char]> = None;
    let found = path::find_name(&all);
    if let Some(name) = found {
        let at: usize = path::find_extension(name);
        if at > 0 {
            let stem = slice_subrange(name, 0, at - 1);
            let own = slice_subrange(name, at, name.len());
            assert(stem@ =~= name@.take(at - 1));
            assert(own@ =~= name@.skip(at as int));
            text::push_chars(&mut new, stem);
            ext = Some(own);
            assert(new@ =~= path::stem(name@));
        } else {
            text::push_chars(&mut new, name);
            assert(new@ =~= path::stem(name@));
        }
    }
    assert(found is None ==> path::stem(Seq::<char>::empty()) =~= new@);
    new.append("-");
    text::push_decimal(&mut new, index as u128 + 1);
    if let Some(ext) = ext {
        new.append(".");
        text::push_chars(&mut new, ext);
    }
    path::replace_name(&all, new.as_str())
}

/// What is said at the end of a check that found errors.
pub open spec fn check_text(failures: nat, total: nat) -> Seq<char> {
    text::decimal(failures) + " of "@ + text::decimal(total) + " diagram(s) failed"@
}

/// The exit code of a check, and what to say when diagrams failed.
pub fn check_result(failures: usize, total: usize) -> (r: (u8, Option<String>))
    ensures
        failures == 0 ==> r.0 == 0 && r.1 is None,
        failures > 0 ==> r.0 == 1 && r.1 is Some && r.1.unwrap()@ == check_text(
            failures as nat,
            total as nat,
        ),
{
    if failures == 0 {
        return (0, None);
    }
    let mut s = String::new();
    text::push_decimal(&mut s, failures as u128);
    s.append(" of ");
    text::push_decimal(&mut s, total as u128);
    s.append(" diagram(s) failed");
    assert(s@ =~= check_text(failures as nat, total as nat));
    (1, Some(s))
}

/// Whether a run draws its diagrams once, in order, and ends: with files to show, where `text`
/// says that there are no graphics, and for one diagram of a stream.
pub fn draws_once(mode: Mode, text: bool, diagram: Option<usize>) -> (r: bool)
    ensures
        r == (mode == Mode::Show || text || (mode == Mode::Stream && diagram is Some)),
{
    mode == Mode::Show || text || (mode == Mode::Stream && diagram.is_some())
}

/// The exit code of a run: 1 when a diagram failed.
pub fn exit_code(failed: bool) -> (code: u8)
    ensures
        code == if failed {
            1u8
        } else {
            0u8
        },
{
    if failed {
        1
    } else {
        0
    }
}

} // verus!
