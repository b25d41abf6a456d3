//! What holds of runs: what is printed, what is reported and with which code they end.

use vstd::prelude::*;

use crate::cli;
use crate::display;
use crate::engine;
use crate::engine::labels;
use crate::engine::labels::{BatchesModel, Next};
use crate::engine::{Engine, ReplyModel};
use crate::fonts;
use crate::input;
use crate::input::{DiagramModel, Format};
use crate::live::ActionModel;
use crate::run;
use crate::text;

verus! {

// ---------------------------------------------------------------------------------------------
// Runs.

/// There are failures exactly if a reply is no drawing.
proof fn lemma_failures(replies: Seq<ReplyModel>, n: int, in_text: bool)
    requires
        0 <= n <= replies.len(),
    ensures
        run::failures(replies, n, in_text) > 0 <==> exists|i: int|
            0 <= i < n && !(#[trigger] replies[i] is Drawn),
        run::failures(replies, n, in_text) <= n,
    decreases n,
{
    if n > 0 {
        lemma_failures(replies, n - 1, in_text);
        if run::failures(replies, n - 1, in_text) > 0 {
            let i = choose|i: int| 0 <= i < n - 1 && !(#[trigger] replies[i] is Drawn);
            assert(!(replies[i] is Drawn));
        }
        if !(replies[n - 1] is Drawn) {
            assert(!(replies[n - 1] is Drawn));
        }
    }
}

/// A check, an export and a run in text end with 1 exactly if a diagram failed, and otherwise with
/// 0. Without diagrams they say so and end with 1.
pub proof fn runs_fail_if_a_diagram_does(
    engine: Engine,
    diagrams: Seq<DiagramModel>,
    replies: Seq<ReplyModel>,
    terminal: bool,
    cols: u16,
    color: bool,
    actions: Seq<ActionModel>,
    code: u8,
)
    ensures
        diagrams.len() > 0 && run::checked_as(engine, diagrams, replies, color, actions, code)
            ==> code == (if exists|i: int|
            0 <= i < replies.len() && !(#[trigger] replies[i] is Drawn) {
            1u8
        } else {
            0u8
        }),
        diagrams.len() > 0 && run::printed_as(
            engine,
            diagrams,
            replies,
            terminal,
            cols,
            color,
            actions,
            code,
        ) ==> code == (if exists|i: int|
            0 <= i < replies.len() && !(#[trigger] replies[i] is Drawn) {
            1u8
        } else {
            0u8
        }),
        diagrams.len() == 0 && run::checked_as(engine, diagrams, replies, color, actions, code)
            ==> code == 1 && actions == seq![
            ActionModel::Report("mer: "@ + "no Mermaid diagram found"@ + "\n"@),
        ],
{
    lemma_failures(replies, replies.len() as int, true);
    lemma_failures(replies, replies.len() as int, false);
}

/// Exports end with 1 exactly if a diagram failed. Each diagram is written as it was drawn, to
/// its own file, or to standard output for `-`.
pub proof fn exports_are_written_as_drawn(
    engine: Engine,
    diagrams: Seq<DiagramModel>,
    output: Seq<char>,
    color: bool,
    replies: Seq<ReplyModel>,
    results: Seq<Result<run::Export, Option<String>>>,
    code: u8,
    i: int,
)
    requires
        run::all_exported_as(engine, diagrams, output, color, replies, results, code),
        0 <= i < diagrams.len(),
    ensures
        code == (if exists|k: int|
            0 <= k < replies.len() && !(#[trigger] replies[k] is Drawn) {
            1u8
        } else {
            0u8
        }),
        replies[i] matches ReplyModel::Drawn(svg) ==> {
            &&& results[i] matches Ok(export)
            &&& export.svg@ == svg
            &&& output == "-"@ ==> export.path is None
            &&& output != "-"@ ==> text::optional(export.path) == Some(
                cli::numbered_path(output, i as nat, diagrams.len()),
            )
        },
        !(replies[i] is Drawn) ==> results[i] is Err,
{
    lemma_failures(replies, replies.len() as int, false);
    assert(run::exported_as(diagrams, i, output, color, replies[i], results[i]));
}

/// Nothing is said about diagrams that pass a check. Those that fail are reported in order, and
/// counted at the end.
pub proof fn checks_report_failures(
    diagrams: Seq<DiagramModel>,
    replies: Seq<ReplyModel>,
    n: int,
    failed: nat,
    color: bool,
)
    requires
        0 < n <= replies.len(),
        0 < failed <= n,
    ensures
        replies[n - 1] is Drawn ==> run::check_steps(diagrams, replies, n, color)
            == run::check_steps(diagrams, replies, n - 1, color),
        engine::outcome_of(replies[n - 1], false) matches Err(failure) ==> (engine::told(
            failure,
        ) matches Some(told) ==> run::check_steps(diagrams, replies, n, color) == run::check_steps(
            diagrams,
            replies,
            n - 1,
            color,
        ).push(ActionModel::Report(crate::diag::formatted(told, diagrams[n - 1], color)))),
        run::check_summary(0, n as nat) == Seq::<ActionModel>::empty(),
        run::check_summary(failed, n as nat) == seq![
            ActionModel::Report(
                text::decimal(failed) + " of "@ + text::decimal(n as nat)
                    + " diagram(s) failed"@ + "\n"@,
            ),
        ],
{
    assert(run::check_steps(diagrams, replies, n - 1, color) + Seq::<ActionModel>::empty()
        =~= run::check_steps(diagrams, replies, n - 1, color));
    if let Err(failure) = engine::outcome_of(replies[n - 1], false) {
        if let Some(told) = engine::told(failure) {
            let report = ActionModel::Report(
                crate::diag::formatted(told, diagrams[n - 1], color),
            );
            let before = run::check_steps(diagrams, replies, n - 1, color);
            assert(before + seq![report] =~= before.push(report));
        }
    }
}

/// A drawing in text is printed whole, on lines of its own, with its caption on the line above.
pub proof fn drawings_are_printed_whole(caption: Seq<char>, drawing: Seq<char>)
    requires
        drawing.len() > 0,
    ensures
        drawing.last() == '\n' ==> display::text_lines(None, drawing, true) == drawing,
        drawing.last() != '\n' ==> display::text_lines(None, drawing, true) == drawing + "\n"@,
        display::text_lines(Some(caption), drawing, false) == caption + "\n"@
            + display::text_lines(None, drawing, false),
        display::text_lines(Some(caption), drawing, true) == "\x1b[2m"@ + caption + "\x1b[22m\n"@
            + display::text_lines(None, drawing, true),
        display::text_lines(None, drawing, true) == display::text_lines(None, drawing, false),
{
    let none = Seq::<char>::empty();
    assert(none + drawing + none =~= drawing);
    assert(none + drawing + "\n"@ =~= drawing + "\n"@);
    assert(display::text_lines(Some(caption), drawing, false) =~= caption + "\n"@
        + display::text_lines(None, drawing, false));
    assert(display::text_lines(Some(caption), drawing, true) =~= "\x1b[2m"@ + caption
        + "\x1b[22m\n"@ + display::text_lines(None, drawing, true));
}

/// A caption stands dim on a line of its own above an image.
pub proof fn captions_stand_above_images(
    diagram: DiagramModel,
    image: Seq<u8>,
)
    ensures
        diagram.caption matches Some(caption) ==> display::inline_bytes(
            diagram,
            Ok(image),
            false,
        ) == Ok::<Seq<u8>, crate::term::kitty::Untransmitted>(
            vstd::utf8::encode_utf8("\x1b[?2026h"@) + vstd::utf8::encode_utf8(
                "\x1b[2m"@ + caption + "\x1b[22m\n"@,
            ) + image + vstd::utf8::encode_utf8("\x1b[?2026l"@),
        ),
        diagram.caption is None ==> display::inline_bytes(diagram, Ok(image), false) == Ok::<
            Seq<u8>,
            crate::term::kitty::Untransmitted,
        >(
            vstd::utf8::encode_utf8("\x1b[?2026h"@) + image + vstd::utf8::encode_utf8(
                "\x1b[?2026l"@,
            ),
        ),
{
    let none = Seq::<char>::empty();
    assert(vstd::utf8::encode_utf8(none) =~= Seq::<u8>::empty());
    let start = vstd::utf8::encode_utf8("\x1b[?2026h"@);
    assert(start + Seq::<u8>::empty() =~= start);
}

// ---------------------------------------------------------------------------------------------
// Input.

/// A Mermaid document is one diagram, as it is, from its first line on.
pub proof fn mermaid_documents_are_one_diagram(text: Seq<char>, origin: Seq<char>)
    ensures
        input::diagrams_of(text, origin, Some(Format::Mermaid)) == seq![
            DiagramModel { text, origin, first_line: 0, caption: None },
        ],
{
}

/// NUL bytes separate documents, whose diagrams follow one another; blank documents have none.
pub proof fn documents_follow_one_another(
    first: Seq<char>,
    rest: Seq<char>,
    format: Option<Format>,
)
    requires
        !first.contains('\0'),
    ensures
        input::all_diagrams(text::split(first + seq!['\0'] + rest, '\0'), format) == (
        if text::trimmed(first).len() == 0 {
            Seq::<DiagramModel>::empty()
        } else {
            input::diagrams_of(first, "<stdin>"@, format)
        }) + input::all_diagrams(text::split(rest, '\0'), format),
{
    let all = first + seq!['\0'] + rest;
    let n = first.len() as int;
    assert forall|i: int| 0 <= i < n implies #[trigger] all[i] != '\0' by {
        assert(first.contains(first[i]));
    }
    assert(all[n] == '\0');
    text::lemma_find_is(all, '\0', n);
    assert(all.take(n) =~= first);
    assert(all.skip(n + 1) =~= rest);
    let parts = text::split(all, '\0');
    assert(parts[0] == first);
    assert(parts.drop_first() =~= text::split(rest, '\0'));
}

// ---------------------------------------------------------------------------------------------
// Labels and fonts.

/// What a conversion added is what it put before the end of the document, and nothing is taken
/// from a conversion that changed anything else.
pub proof fn additions_stand_at_the_end(body: Seq<char>, added: Seq<char>, other: Seq<char>)
    requires
        !text::starts(other, body),
    ensures
        labels::addition(body + "</svg>"@, body + added + "</svg>"@) == Some(added),
        labels::addition(body + "</svg>"@, other) is None,
{
    reveal_strlit("</svg>");
    let end = "</svg>"@;
    let batch = body + end;
    let n = body.len() as int;
    assert(batch.take(n) =~= body);
    assert(batch.skip(n) =~= end);
    let out = body + added + end;
    assert(out.take(n) =~= body);
    assert(out.skip(n) =~= added + end);
    assert((added + end).skip(added.len() as int) =~= end);
    assert(out.subrange(n, out.len() - 6) =~= added);
}

/// A batch that takes too much matching is tried again with half as many labels, as long as there
/// are several. Any other refusal ends the conversion.
pub proof fn costly_batches_are_halved(b: BatchesModel, limit: Option<Seq<char>>)
    requires
        labels::underway(b),
    ensures
        ({
            let left = b.document.labels.len() - b.start;
            let count = if b.size < left {
                b.size
            } else {
                left
            };
            let (then, next) = labels::refused_step(b, limit);
            &&& limit == Some("svg_fallback_selector_index"@) && count > 1 ==> next == Next::Go
                && then.size == count / 2 && then.start == b.start && then.text == b.text
            &&& limit != Some("svg_fallback_selector_index"@) || count <= 1 ==> next == Next::Fail
        }),
{
}

/// Words are one space apart: white space between them is collapsed, and around them dropped.
pub proof fn words_are_one_space_apart(gap: Seq<char>, word: Seq<char>, rest: Seq<char>)
    requires
        forall|i: int| 0 <= i < gap.len() ==> text::white(#[trigger] gap[i]),
        word.len() > 0,
        forall|i: int| 0 <= i < word.len() ==> !text::white(#[trigger] word[i]),
        rest.len() > 0 ==> text::white(rest[0]),
    ensures
        text::collapsed(gap) == Seq::<char>::empty(),
        text::collapsed(gap + word + rest) == if text::collapsed(rest).len() == 0 {
            word
        } else {
            word + seq![' '] + text::collapsed(rest)
        },
{
    let all = gap + word + rest;
    lemma_start(gap, word + rest);
    assert(gap + (word + rest) =~= all);
    let start = text::trimmed_start(all);
    assert(start == word + rest);
    lemma_word(word, rest);
    assert(start.take(word.len() as int) =~= word);
    assert(start.skip(word.len() as int) =~= rest);
    lemma_start(gap, Seq::empty());
    assert(gap + Seq::<char>::empty() =~= gap);
}

proof fn lemma_start(gap: Seq<char>, s: Seq<char>)
    requires
        forall|i: int| 0 <= i < gap.len() ==> text::white(#[trigger] gap[i]),
        s.len() > 0 ==> !text::white(s[0]),
    ensures
        text::trimmed_start(gap + s) == s,
    decreases gap.len(),
{
    if gap.len() == 0 {
        assert(gap + s =~= s);
    } else {
        let rest = gap.drop_first();
        assert forall|i: int| 0 <= i < rest.len() implies text::white(#[trigger] rest[i]) by {
            assert(rest[i] == gap[i + 1]);
        }
        lemma_start(rest, s);
        assert((gap + s).drop_first() =~= rest + s);
    }
}

proof fn lemma_word(word: Seq<char>, rest: Seq<char>)
    requires
        forall|i: int| 0 <= i < word.len() ==> !text::white(#[trigger] word[i]),
        rest.len() > 0 ==> text::white(rest[0]),
    ensures
        text::word_length(word + rest) == word.len(),
    decreases word.len(),
{
    if word.len() == 0 {
        assert(word + rest =~= rest);
    } else {
        let later = word.drop_first();
        assert forall|i: int| 0 <= i < later.len() implies !text::white(#[trigger] later[i]) by {
            assert(later[i] == word[i + 1]);
        }
        lemma_word(later, rest);
        assert((word + rest).drop_first() =~= later + rest);
    }
}

/// A font is bold by name or from a weight of 600 on, and slanted by name.
pub proof fn weights_and_styles_are_named(weight: nat)
    requires
        weight <= u16::MAX,
    ensures
        fonts::is_bold(Some(text::decimal(weight))) == (weight >= 600),
        fonts::is_bold(Some("bold"@)) && fonts::is_bold(Some("bolder"@)) && !fonts::is_bold(None),
        fonts::is_italic(Some("italic"@)) && fonts::is_italic(Some("oblique"@))
            && !fonts::is_italic(None) && !fonts::is_italic(Some("normal"@)),
{
    reveal_strlit("bold");
    reveal_strlit("bolder");
    reveal_strlit("italic");
    reveal_strlit("oblique");
    reveal_strlit("normal");
    lemma_own("bold"@);
    lemma_own("bolder"@);
    lemma_own("italic"@);
    lemma_own("oblique"@);
    lemma_own("normal"@);
    assert("normal"@[0] != "italic"@[0]);
    let d = text::decimal(weight);
    text::numbers_are_written_in_decimal(weight);
    assert forall|i: int| 0 <= i < d.len() implies '!' <= #[trigger] d[i] <= '~' by {
        assert('0' <= d[i] <= '9');
    }
    lemma_own(d);
    assert('0' <= d[0] <= '9');
    assert(text::number(d, 10, weight) == Some(weight));
    assert(text::number(d, 10, u16::MAX as nat) == Some(weight));
}

/// A word without white space is its own trimmed form.
proof fn lemma_own(s: Seq<char>)
    requires
        s.len() > 0,
        forall|i: int| 0 <= i < s.len() ==> '!' <= #[trigger] s[i] <= '~',
    ensures
        text::trimmed(s) == s,
{
    text::white_space_prints_nothing(s[0]);
    text::white_space_prints_nothing(s.last());
    text::lemma_trimmed_is(s, 0, s.len() as int);
    assert(s.subrange(0, s.len() as int) =~= s);
}

} // verus!
