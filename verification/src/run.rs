//! Whole runs: several diagrams, checked or drawn one after another.

use vstd::prelude::*;

use crate::cli;
use crate::diag::NO_DIAGRAM;
use crate::display;
use crate::engine;
use crate::engine::{Control, Engine, Failure, FailureModel, ReplyModel};
use crate::input;
use crate::input::{Diagram, DiagramModel};
use crate::live;
use crate::live::{Action, ActionModel};
use crate::live::stream;
use crate::render;
use crate::render::Frame;
use crate::term::kitty;
use crate::text;

verus! {

/// The actions that printing one diagram takes: its drawing, or a report.
pub open spec fn text_step(
    diagram: DiagramModel,
    result: Result<Seq<char>, FailureModel>,
    terminal: bool,
    color: bool,
) -> Seq<ActionModel> {
    match result {
        Ok(drawing) => seq![
            ActionModel::Write(
                vstd::utf8::encode_utf8(
                    display::text_lines(diagram.caption, drawing, terminal),
                ),
            ),
        ],
        Err(failure) => stream::reported(display::report_text(failure, diagram, color)),
    }
}

/// Prints one diagram as text, or reports why it cannot be.
pub fn print_text(
    diagram: &Diagram,
    result: &Result<String, Failure>,
    terminal: bool,
    color: bool,
    actions: &mut Vec<Action>,
)
    ensures
        live::asked(final(actions)@) == live::asked(old(actions)@) + text_step(
            diagram@,
            engine::result_of(*result),
            terminal,
            color,
        ),
{
    let ghost was = live::asked(actions@);
    let ghost step = text_step(diagram@, engine::result_of(*result), terminal, color);
    match result {
        Ok(drawing) => {
            let mut out: Vec<u8> = Vec::new();
            text::push_text(
                &mut out,
                display::text_output(diagram, drawing.as_str(), terminal).as_str(),
            );
            assert(out@ =~= vstd::utf8::encode_utf8(
                display::text_lines(diagram@.caption, drawing@, terminal),
            ));
            live::request(actions, Action::Write(out));
        },
        Err(failure) => {
            if let Some(report) = display::report(failure, diagram, color) {
                live::request(actions, Action::Report(report));
            }
        },
    }
    assert(live::asked(actions@) =~= was + step);
}

/// The actions that printing one diagram's frame takes, or why it cannot be sent.
pub open spec fn frame_step(
    diagram: DiagramModel,
    result: Result<Frame, Failure>,
    id: u32,
    tmux: bool,
    color: bool,
) -> Result<Seq<ActionModel>, kitty::Untransmitted> {
    match result {
        Ok(frame) => match display::inline_bytes(
            diagram,
            render::inline(frame.transmitted(id), id, frame.cols, frame.rows),
            tmux,
        ) {
            Ok(bytes) => Ok(seq![ActionModel::Write(bytes)]),
            Err(why) => Err(why),
        },
        Err(failure) => Ok(stream::reported(display::report_text(failure@, diagram, color))),
    }
}

/// Prints one diagram's frame, or reports why there is none.
pub fn print_frame(
    diagram: &Diagram,
    result: &Result<Frame, Failure>,
    id: u32,
    tmux: bool,
    color: bool,
    actions: &mut Vec<Action>,
) -> (r: Result<(), kitty::Untransmitted>)
    requires
        result matches Ok(frame) ==> frame.well_formed(),
    ensures
        match frame_step(diagram@, *result, id, tmux, color) {
            Ok(step) => r is Ok && live::asked(final(actions)@) == live::asked(old(actions)@)
                + step,
            Err(why) => r == Err::<(), kitty::Untransmitted>(why) && live::asked(final(actions)@)
                == live::asked(old(actions)@),
        },
{
    let ghost was = live::asked(actions@);
    match result {
        Ok(frame) => match display::inline_output(diagram, frame, id, tmux) {
            Ok(out) => {
                let ghost wrote = ActionModel::Write(out@);
                live::request(actions, Action::Write(out));
                assert(live::asked(actions@) =~= was + seq![wrote]);
                Ok(())
            },
            Err(why) => Err(why),
        },
        Err(failure) => {
            if let Some(report) = display::report(failure, diagram, color) {
                live::request(actions, Action::Report(report));
            }
            assert(live::asked(actions@) =~= was + stream::reported(
                display::report_text(failure@, diagram@, color),
            ));
            Ok(())
        },
    }
}

/// Diagrams that are printed as frames, one after another. A diagram that fails does not keep
/// the others from being printed.
pub struct Showing {
    tmux: bool,
    color: bool,
    failed: bool,
}

impl Showing {
    /// Whether frames are printed inside tmux.
    pub closed spec fn tmux(&self) -> bool {
        self.tmux
    }

    /// Whether reports are colored.
    pub closed spec fn color(&self) -> bool {
        self.color
    }

    /// Whether a diagram failed so far.
    pub closed spec fn failed(&self) -> bool {
        self.failed
    }

    pub fn new(tmux: bool, color: bool) -> (showing: Showing)
        ensures
            showing.tmux() == tmux,
            showing.color() == color,
            !showing.failed(),
    {
        Showing { tmux, color, failed: false }
    }

    /// Prints the next diagram's frame, or reports why there is none.
    pub fn print(
        &mut self,
        diagram: &Diagram,
        result: &Result<Frame, Failure>,
        id: u32,
        actions: &mut Vec<Action>,
    ) -> (r: Result<(), kitty::Untransmitted>)
        requires
            result matches Ok(frame) ==> frame.well_formed(),
        ensures
            final(self).tmux() == old(self).tmux(),
            final(self).color() == old(self).color(),
            final(self).failed() == (old(self).failed() || result is Err),
            match frame_step(diagram@, *result, id, old(self).tmux(), old(self).color()) {
                Ok(step) => r is Ok && live::asked(final(actions)@) == live::asked(old(actions)@)
                    + step,
                Err(why) => r == Err::<(), kitty::Untransmitted>(why) && live::asked(
                    final(actions)@,
                ) == live::asked(old(actions)@),
            },
    {
        if result.is_err() {
            self.failed = true;
        }
        print_frame(diagram, result, id, self.tmux, self.color, actions)
    }

    /// The code to end with: 1 if a diagram failed.
    pub fn code(&self) -> (code: u8)
        ensures
            code == if self.failed() {
                1u8
            } else {
                0u8
            },
    {
        cli::exit_code(self.failed)
    }
}

// ---------------------------------------------------------------------------------------------
// Drawing in text.

/// The actions that printing the first `n` diagrams takes, given merman's replies.
pub open spec fn text_steps(
    diagrams: Seq<DiagramModel>,
    replies: Seq<ReplyModel>,
    n: int,
    terminal: bool,
    color: bool,
) -> Seq<ActionModel>
    decreases n,
{
    if n <= 0 {
        Seq::empty()
    } else {
        text_steps(diagrams, replies, n - 1, terminal, color) + text_step(
            diagrams[n - 1],
            engine::outcome_of(replies[n - 1], true),
            terminal,
            color,
        )
    }
}

/// How many of the first `n` replies are failures.
pub open spec fn failures(replies: Seq<ReplyModel>, n: int, in_text: bool) -> nat
    decreases n,
{
    if n <= 0 {
        0
    } else {
        failures(replies, n - 1, in_text) + if engine::outcome_of(replies[n - 1], in_text) is Err {
            1nat
        } else {
            0
        }
    }
}

/// What is said about input without diagrams.
pub open spec fn nothing_found() -> Seq<ActionModel> {
    seq![ActionModel::Report("mer: "@ + NO_DIAGRAM@ + "\n"@)]
}

/// Whether printing diagrams as text takes these actions and ends with this code, given merman's
/// replies.
pub open spec fn printed_as(
    engine: Engine,
    diagrams: Seq<DiagramModel>,
    replies: Seq<ReplyModel>,
    terminal: bool,
    cols: u16,
    color: bool,
    actions: Seq<ActionModel>,
    code: u8,
) -> bool {
    &&& replies.len() == diagrams.len()
    &&& forall|i: int|
        0 <= i < diagrams.len() ==> engine::text_reply(
            engine,
            diagrams[i].text,
            display::width_limit(terminal, cols),
            #[trigger] replies[i],
        )
    &&& if diagrams.len() == 0 {
        actions == nothing_found() && code == 1
    } else {
        &&& actions == text_steps(diagrams, replies, diagrams.len() as int, terminal, color)
        &&& code == if failures(replies, replies.len() as int, true) > 0 {
            1u8
        } else {
            0u8
        }
    }
}

fn say_nothing_found(actions: &mut Vec<Action>)
    ensures
        live::asked(final(actions)@) == live::asked(old(actions)@) + nothing_found(),
{
    let ghost was = live::asked(actions@);
    let mut said = display::no_diagrams();
    said.append("\n");
    live::request(actions, Action::Report(said));
    assert(live::asked(actions@) =~= was + nothing_found());
}

/// The failures so far grow with each reply, and earlier replies keep theirs.
proof fn lemma_failures(replies: Seq<ReplyModel>, more: ReplyModel, n: int, in_text: bool)
    requires
        0 <= n <= replies.len(),
    ensures
        failures(replies.push(more), n, in_text) == failures(replies, n, in_text),
    decreases n,
{
    if n > 0 {
        lemma_failures(replies, more, n - 1, in_text);
    }
}

proof fn lemma_text_steps(
    diagrams: Seq<DiagramModel>,
    replies: Seq<ReplyModel>,
    more: ReplyModel,
    n: int,
    terminal: bool,
    color: bool,
)
    requires
        0 <= n <= replies.len(),
    ensures
        text_steps(diagrams, replies.push(more), n, terminal, color) == text_steps(
            diagrams,
            replies,
            n,
            terminal,
            color,
        ),
    decreases n,
{
    if n > 0 {
        lemma_text_steps(diagrams, replies, more, n - 1, terminal, color);
    }
}

/// Draws diagrams as text, in order. In a terminal of `cols` columns, those that are wider are
/// reported. Says with which code to end.
pub fn show_text(
    engine: &Engine,
    diagrams: &Vec<Diagram>,
    terminal: bool,
    cols: u16,
    color: bool,
) -> (r: (Vec<Action>, u8))
    ensures
        exists|replies: Seq<ReplyModel>|
            printed_as(
                *engine,
                input::models(diagrams@),
                replies,
                terminal,
                cols,
                color,
                live::asked(r.0@),
                r.1,
            ),
{
    let mut actions: Vec<Action> = Vec::new();
    let ghost none = live::asked(actions@);
    let ghost all = input::models(diagrams@);
    assert(none =~= Seq::empty());
    if diagrams.len() == 0 {
        say_nothing_found(&mut actions);
        let r: (Vec<Action>, u8) = (actions, 1);
        proof {
            assert(none + nothing_found() =~= nothing_found());
            assert(printed_as(
                *engine,
                all,
                Seq::empty(),
                terminal,
                cols,
                color,
                live::asked(r.0@),
                r.1,
            ));
        }
        return r;
    }
    let width = display::text_width(terminal, cols);
    let mut failed = false;
    let ghost mut replies: Seq<ReplyModel> = Seq::empty();
    let mut i: usize = 0;
    while i < diagrams.len()
        invariant
            i <= diagrams@.len(),
            all == input::models(diagrams@),
            replies.len() == i,
            width == display::width_limit(terminal, cols),
            forall|k: int|
                0 <= k < i ==> engine::text_reply(
                    *engine,
                    all[k].text,
                    width,
                    #[trigger] replies[k],
                ),
            live::asked(actions@) == text_steps(all, replies, i as int, terminal, color),
            failed == (failures(replies, i as int, true) > 0),
        decreases diagrams@.len() - i,
    {
        let diagram = &diagrams[i];
        let result = engine.render_text(diagram.text.as_str(), width);
        let ghost reply = choose|reply: ReplyModel|
            #[trigger] engine::made_of(result, reply, true) && engine::text_reply(
                *engine,
                diagram@.text,
                width,
                reply,
            );
        print_text(diagram, &result, terminal, color, &mut actions);
        if result.is_err() {
            failed = true;
        }
        proof {
            lemma_failures(replies, reply, i as int, true);
            lemma_text_steps(all, replies, reply, i as int, terminal, color);
            replies = replies.push(reply);
            assert(all[i as int] == diagram@);
        }
        i += 1;
    }
    let r: (Vec<Action>, u8) = (actions, cli::exit_code(failed));
    assert(printed_as(*engine, all, replies, terminal, cols, color, live::asked(r.0@), r.1));
    r
}

// ---------------------------------------------------------------------------------------------
// Checking.

/// The reports on the first `n` diagrams, given merman's replies.
pub open spec fn check_steps(
    diagrams: Seq<DiagramModel>,
    replies: Seq<ReplyModel>,
    n: int,
    color: bool,
) -> Seq<ActionModel>
    decreases n,
{
    if n <= 0 {
        Seq::empty()
    } else {
        check_steps(diagrams, replies, n - 1, color) + match engine::outcome_of(
            replies[n - 1],
            false,
        ) {
            Ok(_) => Seq::empty(),
            Err(failure) => stream::reported(
                display::report_text(failure, diagrams[n - 1], color),
            ),
        }
    }
}

/// What is said at the end of a check.
pub open spec fn check_summary(failures: nat, total: nat) -> Seq<ActionModel> {
    if failures == 0 {
        Seq::empty()
    } else {
        seq![ActionModel::Report(cli::check_text(failures, total) + "\n"@)]
    }
}

/// Whether checking diagrams takes these actions and ends with this code, given merman's
/// replies.
pub open spec fn checked_as(
    engine: Engine,
    diagrams: Seq<DiagramModel>,
    replies: Seq<ReplyModel>,
    color: bool,
    actions: Seq<ActionModel>,
    code: u8,
) -> bool {
    let failed = failures(replies, replies.len() as int, false);
    &&& replies.len() == diagrams.len()
    &&& forall|i: int|
        0 <= i < diagrams.len() ==> engine::svg_reply(
            engine,
            diagrams[i].text,
            #[trigger] replies[i],
        )
    &&& if diagrams.len() == 0 {
        actions == nothing_found() && code == 1
    } else {
        &&& actions == check_steps(diagrams, replies, diagrams.len() as int, color)
            + check_summary(failed, diagrams.len())
        &&& code == if failed > 0 {
            1u8
        } else {
            0u8
        }
    }
}

proof fn lemma_check_steps(
    diagrams: Seq<DiagramModel>,
    replies: Seq<ReplyModel>,
    more: ReplyModel,
    n: int,
    color: bool,
)
    requires
        0 <= n <= replies.len(),
    ensures
        check_steps(diagrams, replies.push(more), n, color) == check_steps(
            diagrams,
            replies,
            n,
            color,
        ),
    decreases n,
{
    if n > 0 {
        lemma_check_steps(diagrams, replies, more, n - 1, color);
    }
}

/// Lays out diagrams without displaying them, and reports those that fail. Says with which code
/// to end.
pub fn check(engine: &Engine, diagrams: &Vec<Diagram>, color: bool) -> (r: (Vec<Action>, u8))
    ensures
        exists|replies: Seq<ReplyModel>|
            checked_as(
                *engine,
                input::models(diagrams@),
                replies,
                color,
                live::asked(r.0@),
                r.1,
            ),
{
    let mut actions: Vec<Action> = Vec::new();
    let ghost none = live::asked(actions@);
    let ghost all = input::models(diagrams@);
    assert(none =~= Seq::empty());
    if diagrams.len() == 0 {
        say_nothing_found(&mut actions);
        let r: (Vec<Action>, u8) = (actions, 1);
        proof {
            assert(none + nothing_found() =~= nothing_found());
            assert(checked_as(*engine, all, Seq::empty(), color, live::asked(r.0@), r.1));
        }
        return r;
    }
    let mut failed: usize = 0;
    let ghost mut replies: Seq<ReplyModel> = Seq::empty();
    let mut i: usize = 0;
    while i < diagrams.len()
        invariant
            failed <= i <= diagrams@.len(),
            all == input::models(diagrams@),
            replies.len() == i,
            forall|k: int|
                0 <= k < i ==> engine::svg_reply(*engine, all[k].text, #[trigger] replies[k]),
            live::asked(actions@) == check_steps(all, replies, i as int, color),
            failed == failures(replies, i as int, false),
        decreases diagrams@.len() - i,
    {
        let diagram = &diagrams[i];
        let result = engine.render_svg(diagram.text.as_str(), Control::new());
        let ghost reply = choose|reply: ReplyModel|
            #[trigger] engine::made_of(result, reply, false) && engine::svg_reply(
                *engine,
                diagram@.text,
                reply,
            );
        if let Err(failure) = &result {
            failed += 1;
            if let Some(report) = display::report(failure, diagram, color) {
                live::request(&mut actions, Action::Report(report));
            }
        }
        proof {
            lemma_failures(replies, reply, i as int, false);
            lemma_check_steps(all, replies, reply, i as int, color);
            replies = replies.push(reply);
            assert(all[i as int] == diagram@);
            assert(live::asked(actions@) =~= check_steps(all, replies, i + 1, color));
        }
        i += 1;
    }
    let ghost before = live::asked(actions@);
    let (code, summary) = cli::check_result(failed, diagrams.len());
    if let Some(summary) = summary {
        let mut said = summary;
        said.append("\n");
        live::request(&mut actions, Action::Report(said));
    }
    assert(live::asked(actions@) =~= before + check_summary(failed as nat, all.len()));
    let r: (Vec<Action>, u8) = (actions, code);
    assert(checked_as(*engine, all, replies, color, live::asked(r.0@), r.1));
    r
}

// ---------------------------------------------------------------------------------------------
// Exporting.

/// A diagram to write: its drawing, and the file that gets it. Without a file it goes to stdout.
#[derive(Debug)]
pub struct Export {
    pub svg: String,
    pub path: Option<String>,
}

/// The file that gets a diagram of an export.
pub open spec fn export_path(output: Seq<char>, index: nat, count: nat) -> Option<Seq<char>> {
    if cli::is_stdin(output) {
        None
    } else {
        Some(cli::numbered_path(output, index, count))
    }
}

/// Whether exporting a diagram gives `r`, given merman's reply: what to write, or what to
/// report.
pub open spec fn exported_as(
    diagrams: Seq<DiagramModel>,
    index: int,
    output: Seq<char>,
    color: bool,
    reply: ReplyModel,
    r: Result<Export, Option<String>>,
) -> bool {
    match engine::outcome_of(reply, false) {
        Ok(svg) => r matches Ok(export) && export.svg@ == svg && text::optional(export.path)
            == export_path(output, index as nat, diagrams.len()),
        Err(failure) => r matches Err(report) && text::optional(report) == display::report_text(
            failure,
            diagrams[index],
            color,
        ),
    }
}

/// Draws one of several diagrams that are exported to `output`, or gives what to report.
pub fn export(
    engine: &Engine,
    diagrams: &Vec<Diagram>,
    index: usize,
    output: &str,
    color: bool,
) -> (r: Result<Export, Option<String>>)
    requires
        index < diagrams@.len(),
    ensures
        exists|reply: ReplyModel|
            #[trigger] exported_as(
                input::models(diagrams@),
                index as int,
                output@,
                color,
                reply,
                r,
            ) && engine::svg_reply(*engine, diagrams@[index as int]@.text, reply),
{
    let diagram = &diagrams[index];
    let ghost all = input::models(diagrams@);
    let result = engine.render_svg(diagram.text.as_str(), Control::new());
    let ghost reply = choose|reply: ReplyModel|
        #[trigger] engine::made_of(result, reply, false) && engine::svg_reply(
            *engine,
            diagram@.text,
            reply,
        );
    let r = match result {
        Ok(svg) => {
            let path = if text::str_eq(output, "-") {
                None
            } else {
                Some(cli::numbered(output, index, diagrams.len()))
            };
            Ok(Export { svg, path })
        },
        Err(failure) => Err(display::report(&failure, diagram, color)),
    };
    assert(exported_as(all, index as int, output@, color, reply, r));
    r
}

/// Whether exporting diagrams to `output` gives these results and ends with this code, given
/// merman's replies: each diagram has its own, whatever became of the others.
pub open spec fn all_exported_as(
    engine: Engine,
    diagrams: Seq<DiagramModel>,
    output: Seq<char>,
    color: bool,
    replies: Seq<ReplyModel>,
    results: Seq<Result<Export, Option<String>>>,
    code: u8,
) -> bool {
    &&& replies.len() == diagrams.len()
    &&& results.len() == diagrams.len()
    &&& forall|i: int|
        0 <= i < diagrams.len() ==> #[trigger] exported_as(
            diagrams,
            i,
            output,
            color,
            replies[i],
            results[i],
        ) && engine::svg_reply(engine, diagrams[i].text, replies[i])
    &&& code == if failures(replies, replies.len() as int, false) > 0 {
        1u8
    } else {
        0u8
    }
}

/// Draws diagrams that are exported to `output`, each to its own file, or gives what to report
/// about them. Says with which code to end: 1 exactly if one of them failed.
pub fn export_all(engine: &Engine, diagrams: &Vec<Diagram>, output: &str, color: bool) -> (r: (
    Vec<Result<Export, Option<String>>>,
    u8,
))
    ensures
        exists|replies: Seq<ReplyModel>|
            all_exported_as(
                *engine,
                input::models(diagrams@),
                output@,
                color,
                replies,
                r.0@,
                r.1,
            ),
{
    let ghost all = input::models(diagrams@);
    let mut results: Vec<Result<Export, Option<String>>> = Vec::new();
    let mut failed = false;
    let ghost mut replies: Seq<ReplyModel> = Seq::empty();
    let mut i: usize = 0;
    while i < diagrams.len()
        invariant
            i <= diagrams@.len(),
            all == input::models(diagrams@),
            replies.len() == i,
            results@.len() == i,
            forall|k: int|
                0 <= k < i ==> #[trigger] exported_as(
                    all,
                    k,
                    output@,
                    color,
                    replies[k],
                    results@[k],
                ) && engine::svg_reply(*engine, all[k].text, replies[k]),
            failed == (failures(replies, i as int, false) > 0),
        decreases diagrams@.len() - i,
    {
        let result = export(engine, diagrams, i, output, color);
        let ghost reply = choose|reply: ReplyModel|
            #[trigger] exported_as(all, i as int, output@, color, reply, result)
                && engine::svg_reply(*engine, diagrams@[i as int]@.text, reply);
        if result.is_err() {
            failed = true;
        }
        let ghost was = replies;
        let ghost had = results@;
        results.push(result);
        i += 1;
        proof {
            lemma_failures(replies, reply, i - 1, false);
            replies = replies.push(reply);
            assert(all[i - 1] == diagrams@[i - 1]@);
            assert forall|k: int| 0 <= k < i implies #[trigger] exported_as(
                all,
                k,
                output@,
                color,
                replies[k],
                results@[k],
            ) && engine::svg_reply(*engine, all[k].text, replies[k]) by {
                if k < i - 1 {
                    assert(exported_as(all, k, output@, color, was[k], had[k]));
                }
            }
        }
    }
    let r = (results, cli::exit_code(failed));
    assert(all_exported_as(*engine, all, output@, color, replies, r.0@, r.1));
    r
}

} // verus!
