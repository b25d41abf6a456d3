//! The Mermaid engine. merman lays diagrams out; this is what mer asks of it and makes of its
//! replies.

pub mod labels;
pub mod measure;
pub mod rescan;
pub mod widths;

use vstd::prelude::*;
use vstd::slice::slice_subrange;

use merman::ascii::AsciiError::WidthOverflow;
use merman::ascii::{AsciiRenderOptions, AsciiResourcePolicy, AsciiViewportPolicy, OverflowPolicy};
use merman::{RenderError, RenderOutput, RenderRequest};

use crate::diag::{Diagnostic, DiagnosticModel, NO_DIAGRAM};
use crate::text;

pub use merman::OperationControl as Control;

verus! {

#[derive(Clone, Debug)]
pub enum Failure {
    /// The input holds no diagram.
    Empty,
    Diagnostic(Diagnostic),
    Cancelled,
}

/// What a [`Failure`] says.
pub enum FailureModel {
    Empty,
    Diagnostic(DiagnosticModel),
    Cancelled,
}

impl View for Failure {
    type V = FailureModel;

    open spec fn view(&self) -> FailureModel {
        match self {
            Failure::Empty => FailureModel::Empty,
            Failure::Diagnostic(diagnostic) => FailureModel::Diagnostic(diagnostic@),
            Failure::Cancelled => FailureModel::Cancelled,
        }
    }
}

/// A diagnostic without a place.
pub open spec fn message_only(message: Seq<char>) -> DiagnosticModel {
    DiagnosticModel { message, span: None }
}

/// What to tell the user about a failure.
pub open spec fn told(failure: FailureModel) -> Option<DiagnosticModel> {
    match failure {
        FailureModel::Empty => Some(message_only(NO_DIAGRAM@)),
        FailureModel::Diagnostic(diagnostic) => Some(diagnostic),
        FailureModel::Cancelled => None,
    }
}

impl Failure {
    /// What to tell the user. A cancelled render isn't an error and has nothing to say.
    pub fn diagnostic(&self) -> (r: Option<Diagnostic>)
        ensures
            match told(self@) {
                Some(diagnostic) => r is Some && r.unwrap()@ == diagnostic,
                None => r is None,
            },
    {
        match self {
            Failure::Empty => Some(
                Diagnostic { message: NO_DIAGRAM.to_string(), span: None },
            ),
            Failure::Diagnostic(diagnostic) => Some(
                Diagnostic { message: diagnostic.message.clone(), span: diagnostic.span },
            ),
            Failure::Cancelled => None,
        }
    }
}

// ---------------------------------------------------------------------------------------------
// What merman says.

/// The kind of a problem.
#[derive(Clone, Copy, Debug, PartialEq, Eq)]
pub enum Cause {
    NoDiagram,
    Cancelled,
    /// The source cannot be parsed, around this place.
    Parse(Option<(usize, usize)>),
    /// A drawing in text may have so many columns and would have so many.
    TooWide(usize, usize),
    /// Any other problem with drawing in text.
    Text,
    Other,
}

/// Why merman did not render a diagram, and how it says so.
#[derive(Debug)]
pub struct Problem {
    pub shown: String,
    pub cause: Cause,
}

/// What a [`Problem`] says.
pub struct ProblemModel {
    pub shown: Seq<char>,
    pub cause: Cause,
}

impl View for Problem {
    type V = ProblemModel;

    open spec fn view(&self) -> ProblemModel {
        ProblemModel { shown: self.shown@, cause: self.cause }
    }
}

/// A parse error without merman's prefix: what follows the first `): ` after it.
pub open spec fn unprefixed(message: Seq<char>) -> Seq<char> {
    let prefix = "Diagram parse error ("@;
    let rest = message.skip(prefix.len() as int);
    match text::seek(rest, "): "@) {
        Some(n) if text::starts(message, prefix) => rest.skip(n + 3),
        _ => message,
    }
}

/// The failure that a problem is.
pub open spec fn failure_of(problem: ProblemModel) -> FailureModel {
    match problem.cause {
        Cause::NoDiagram => FailureModel::Empty,
        Cause::Cancelled => FailureModel::Cancelled,
        Cause::Parse(span) => FailureModel::Diagnostic(
            DiagnosticModel { message: unprefixed(problem.shown), span },
        ),
        Cause::TooWide(_, _) | Cause::Text | Cause::Other => FailureModel::Diagnostic(
            message_only(problem.shown),
        ),
    }
}

/// What mer says about a drawing that is too wide.
pub open spec fn too_wide(max_width: nat, actual_width: nat) -> Seq<char> {
    "the diagram is "@ + text::decimal(actual_width) + " columns wide but the terminal has "@
        + text::decimal(max_width)
        + "; widen the terminal or write an image with -o FILE"@
}

/// The failure that a problem with drawing in text is.
pub open spec fn text_failure_of(problem: ProblemModel) -> FailureModel {
    match problem.cause {
        Cause::TooWide(max_width, actual_width) => FailureModel::Diagnostic(
            message_only(too_wide(max_width as nat, actual_width as nat)),
        ),
        Cause::Text => FailureModel::Diagnostic(
            message_only(problem.shown + "; write an image with -o FILE instead"@),
        ),
        _ => failure_of(problem),
    }
}

/// What merman replies: a drawing, nothing, or a problem.
pub enum ReplyModel {
    Drawn(Seq<char>),
    Nothing,
    Refused(ProblemModel),
}

/// What a reply of merman's is.
pub open spec fn reply_of(reply: Result<Option<String>, Problem>) -> ReplyModel {
    match reply {
        Ok(Some(drawing)) => ReplyModel::Drawn(drawing@),
        Ok(None) => ReplyModel::Nothing,
        Err(problem) => ReplyModel::Refused(problem@),
    }
}

/// What mer makes of a reply to a request for SVG, or for text.
pub open spec fn outcome_of(reply: ReplyModel, in_text: bool) -> Result<Seq<char>, FailureModel> {
    match reply {
        ReplyModel::Drawn(drawing) => Ok(drawing),
        ReplyModel::Nothing => Err(FailureModel::Empty),
        ReplyModel::Refused(problem) => Err(
            if in_text {
                text_failure_of(problem)
            } else {
                failure_of(problem)
            },
        ),
    }
}

/// What a render gave.
pub open spec fn result_of(r: Result<String, Failure>) -> Result<Seq<char>, FailureModel> {
    match r {
        Ok(drawing) => Ok(drawing@),
        Err(failure) => Err(failure@),
    }
}

/// Whether `r` is what mer makes of a reply.
pub open spec fn made_of(
    r: Result<String, Failure>,
    reply: ReplyModel,
    in_text: bool,
) -> bool {
    result_of(r) == outcome_of(reply, in_text)
}

/// Drops merman's `Diagram parse error (flowchart-v2): ` prefix; the code frame shows where.
pub fn without_prefix(message: &str) -> (r: String)
    ensures
        r@ == unprefixed(message@),
{
    proof {
        reveal_strlit("): ");
    }
    let all = text::chars(message);
    if text::starts_with(&all, "Diagram parse error (") {
        let n: usize = text::chars("Diagram parse error (").len();
        let rest = slice_subrange(all.as_slice(), n, all.len());
        assert(rest@ =~= all@.skip(n as int));
        if let Some(at) = text::find_text(rest, "): ") {
            let own = slice_subrange(rest, at + 3, rest.len());
            assert(own@ =~= rest@.skip(at + 3));
            return text::string(own);
        }
    }
    message.to_string()
}

fn only(message: String) -> (failure: Failure)
    ensures
        failure@ == FailureModel::Diagnostic(message_only(message@)),
{
    Failure::Diagnostic(Diagnostic { message, span: None })
}

/// The failure that a problem is.
pub fn failure(problem: Problem) -> (failure: Failure)
    ensures
        failure@ == failure_of(problem@),
{
    match problem.cause {
        Cause::NoDiagram => Failure::Empty,
        Cause::Cancelled => Failure::Cancelled,
        Cause::Parse(span) => Failure::Diagnostic(
            Diagnostic { message: without_prefix(problem.shown.as_str()), span },
        ),
        Cause::TooWide(_, _) | Cause::Text | Cause::Other => only(problem.shown),
    }
}

/// The failure that a problem with drawing in text is.
pub fn text_failure(problem: Problem) -> (failure: Failure)
    ensures
        failure@ == text_failure_of(problem@),
{
    match problem.cause {
        Cause::TooWide(max_width, actual_width) => {
            let mut message = "the diagram is ".to_string();
            text::push_decimal(&mut message, actual_width as u128);
            message.append(" columns wide but the terminal has ");
            text::push_decimal(&mut message, max_width as u128);
            message.append("; widen the terminal or write an image with -o FILE");
            only(message)
        },
        Cause::Text => {
            let mut message = problem.shown;
            message.append("; write an image with -o FILE instead");
            only(message)
        },
        _ => failure(problem),
    }
}

/// What mer makes of merman's reply to a request for SVG.
pub fn svg_result(reply: Result<Option<String>, Problem>) -> (r: Result<String, Failure>)
    ensures
        made_of(r, reply_of(reply), false),
{
    match reply {
        Ok(Some(svg)) => Ok(svg),
        Ok(None) => Err(Failure::Empty),
        Err(problem) => Err(failure(problem)),
    }
}

/// What mer makes of merman's reply to a request for text.
pub fn text_result(reply: Result<Option<String>, Problem>) -> (r: Result<String, Failure>)
    ensures
        made_of(r, reply_of(reply), true),
{
    match reply {
        Ok(Some(drawing)) => Ok(drawing),
        Ok(None) => Err(Failure::Empty),
        Err(problem) => Err(text_failure(problem)),
    }
}

// ---------------------------------------------------------------------------------------------
// Asking merman.

/// `merman::Renderer`, carried through.
#[verifier::external_type_specification]
#[verifier::external_body]
pub struct ExRenderer(merman::Renderer);

/// `merman::SvgRequest`, carried through.
#[verifier::external_type_specification]
#[verifier::external_body]
pub struct ExSvgRequest(merman::SvgRequest);

/// `merman::OperationControl`, carried through.
#[verifier::external_type_specification]
#[verifier::external_body]
pub struct ExControl(merman::OperationControl);

/// `merman::OperationControl::new`: a control that nobody has cancelled. Controls are carried
/// through, so nothing is said of it.
pub assume_specification[ merman::OperationControl::new ]() -> merman::OperationControl;

/// `merman::AsciiRequest`, carried through.
#[verifier::external_type_specification]
#[verifier::external_body]
pub struct ExAsciiRequest(merman::AsciiRequest);

/// A renderer, and what to ask of it for images.
pub struct Engine {
    pub renderer: merman::Renderer,
    pub request: merman::SvgRequest,
}

/// Whether an engine's renderer can give this reply to a request for `source` as SVG, under this
/// control. It may have several replies: renders can be cancelled meanwhile, and Gantt charts
/// follow the clock.
pub uninterp spec fn svg_of(
    engine: Engine,
    source: Seq<char>,
    control: Control,
    reply: ReplyModel,
) -> bool;

/// Asks `merman::Renderer::render` for SVG, and tells the variants of `merman::RenderError`
/// apart. What comes back, drawing or not, is a reply of that renderer to that request for
/// `source`, under `control`. Which one depends on the clock and on whether the control is
/// cancelled meanwhile, so nothing is said of that. A parse error is shown as its
/// `terminal_safe_message`.
#[verifier::external_body]
fn draw_svg(engine: &Engine, source: &str, control: Control) -> (reply: Result<
    Option<String>,
    Problem,
>)
    ensures
        svg_of(*engine, source@, control, reply_of(reply)),
{
    match engine.renderer.render(RenderRequest::svg(source, control, engine.request.clone())) {
        Ok(RenderOutput::Svg(drawn)) => Ok(drawn.map(|output| output.into_parts().0)),
        Ok(_) => Ok(None),
        Err(error) => Err(Problem {
            shown: error.to_string(),
            cause: match error {
                RenderError::NoDiagram => Cause::NoDiagram,
                RenderError::Cancelled(_) => Cause::Cancelled,
                RenderError::Parse(d) => Cause::Parse(
                    d.terminal_diagnostic_details().span.map(|s| (s.start, s.end)),
                ),
                _ => Cause::Other,
            },
        }),
    }
}

/// The characters that a drawing is made of.
#[derive(Clone, Copy, Debug, PartialEq, Eq, Structural)]
pub enum Characters {
    Ascii,
    Unicode,
}

/// How much work a drawing may take.
#[derive(Clone, Copy, Debug, PartialEq, Eq, Structural)]
pub enum Budgets {
    /// merman's own limits.
    Usual,
    Unbounded,
}

/// What becomes of a drawing that is wider than asked.
#[derive(Clone, Copy, Debug, PartialEq, Eq, Structural)]
pub enum Overflow {
    Allow,
    Error,
}

/// What to ask of merman for a drawing in characters.
#[derive(Clone, Copy, Debug, PartialEq, Eq, Structural)]
pub struct TextRequest {
    pub characters: Characters,
    pub budgets: Budgets,
    pub max_width: Option<usize>,
    pub overflow: Overflow,
}

/// What mer asks for: Unicode characters and all the work that it takes. A limit on the width is
/// strict.
pub open spec fn text_asked(max_width: Option<usize>) -> TextRequest {
    TextRequest {
        characters: Characters::Unicode,
        budgets: Budgets::Unbounded,
        max_width,
        overflow: if max_width is Some {
            Overflow::Error
        } else {
            Overflow::Allow
        },
    }
}

/// What mer asks of merman for a drawing in characters.
pub fn text_request(max_width: Option<usize>) -> (request: TextRequest)
    ensures
        request == text_asked(max_width),
{
    TextRequest {
        characters: Characters::Unicode,
        budgets: Budgets::Unbounded,
        max_width,
        overflow: match max_width {
            Some(_) => Overflow::Error,
            None => Overflow::Allow,
        },
    }
}

/// The `merman::AsciiRequest` with these choices and otherwise merman's.
pub uninterp spec fn ascii_of(request: TextRequest) -> merman::AsciiRequest;

/// A `merman::AsciiRequest` with these choices: `AsciiRenderOptions::ascii` or `unicode`, the
/// default `AsciiResourcePolicy` or `unbounded`, and an unrestricted `AsciiViewportPolicy` with
/// that width and policy on overflow. Requests are opaque, so it is said only that the choices
/// make the request.
#[verifier::external_body]
fn ascii_request(request: TextRequest) -> (r: merman::AsciiRequest)
    ensures
        r == ascii_of(request),
{
    let options = match request.characters {
        Characters::Ascii => AsciiRenderOptions::ascii(),
        Characters::Unicode => AsciiRenderOptions::unicode(),
    };
    let resources = match request.budgets {
        Budgets::Usual => AsciiResourcePolicy::default(),
        Budgets::Unbounded => AsciiResourcePolicy::unbounded(),
    };
    let mut viewport = AsciiViewportPolicy::unrestricted().overflow(match request.overflow {
        Overflow::Allow => OverflowPolicy::Allow,
        Overflow::Error => OverflowPolicy::Error,
    });
    viewport.max_width = request.max_width;
    merman::AsciiRequest { options, resources, viewport }
}

/// Whether an engine's renderer can give this reply to a request for `source` in characters,
/// under this control. It may have several replies: Gantt charts follow the clock.
pub uninterp spec fn text_of(
    engine: Engine,
    source: Seq<char>,
    request: merman::AsciiRequest,
    control: Control,
    reply: ReplyModel,
) -> bool;

/// Asks `merman::Renderer::render` for a drawing in characters, and tells the variants of
/// `merman::RenderError` and `merman::ascii::AsciiError` apart. What comes back, drawing or not,
/// is a reply of that renderer to that request for `source`, under `control`. Which one depends
/// on the clock, and columns are as merman counts them, so nothing is said of either.
#[verifier::external_body]
fn draw_text(
    engine: &Engine,
    source: &str,
    request: merman::AsciiRequest,
    control: Control,
) -> (reply: Result<Option<String>, Problem>)
    ensures
        text_of(*engine, source@, request, control, reply_of(reply)),
{
    match engine.renderer.render(RenderRequest::ascii(source, control, request)) {
        Ok(RenderOutput::Ascii(drawn)) => Ok(drawn.map(|output| output.text)),
        Ok(_) => Ok(None),
        Err(error) => Err(Problem { shown: error.to_string(), cause: match error {
            RenderError::NoDiagram => Cause::NoDiagram,
            RenderError::Cancelled(_) => Cause::Cancelled,
            RenderError::Parse(d) => Cause::Parse(
                d.terminal_diagnostic_details().span.map(|s| (s.start, s.end))),
            RenderError::Ascii(WidthOverflow { max_width, actual_width, .. }) =>
                Cause::TooWide(max_width, actual_width),
            RenderError::Ascii(_) => Cause::Text,
            _ => Cause::Other,
        } }),
    }
}

/// Whether an engine can give this reply to a request for `source` as SVG, under some control.
pub open spec fn svg_reply(engine: Engine, source: Seq<char>, reply: ReplyModel) -> bool {
    exists|control: Control| #[trigger] svg_of(engine, source, control, reply)
}

/// Whether an engine can give this reply when mer asks for `source` in characters, no wider than
/// `max_width` columns.
pub open spec fn text_reply(
    engine: Engine,
    source: Seq<char>,
    max_width: Option<usize>,
    reply: ReplyModel,
) -> bool {
    exists|control: Control| #[trigger]
        text_of(engine, source, ascii_of(text_asked(max_width)), control, reply)
}

impl Engine {
    /// Renders one diagram to SVG that resvg can draw completely.
    pub fn render_svg(&self, source: &str, control: Control) -> (r: Result<String, Failure>)
        ensures
            exists|reply: ReplyModel|
                #[trigger] svg_of(*self, source@, control, reply) && made_of(r, reply, false),
    {
        let reply = draw_svg(self, source, control);
        let ghost what = reply_of(reply);
        let r = svg_result(reply);
        assert(svg_of(*self, source@, control, what) && made_of(r, what, false));
        r
    }

    /// Draws one diagram with Unicode box-drawing characters. A drawing wider than `max_width`
    /// columns is an error, because merman's fallback for drawings that don't fit lists its
    /// internal model instead.
    pub fn render_text(&self, source: &str, max_width: Option<usize>) -> (r: Result<
        String,
        Failure,
    >)
        ensures
            exists|reply: ReplyModel|
                #[trigger] text_reply(*self, source@, max_width, reply) && made_of(r, reply, true),
    {
        let request = ascii_request(text_request(max_width));
        let control = Control::new();
        let ghost under = control;
        let reply = draw_text(self, source, request, control);
        let ghost what = reply_of(reply);
        let r = text_result(reply);
        proof {
            assert(text_of(*self, source@, ascii_of(text_asked(max_width)), under, what));
            assert(text_reply(*self, source@, max_width, what) && made_of(r, what, true));
        }
        r
    }
}

} // verus!
