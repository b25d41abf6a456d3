//! What holds of failures and of how they are told.

use vstd::prelude::*;

use crate::diag;
use crate::diag::DiagnosticModel;
use crate::engine;
use crate::engine::{Cause, FailureModel, ProblemModel, ReplyModel};
use crate::input::DiagramModel;
use crate::text;
use crate::utf8;

verus! {

// ---------------------------------------------------------------------------------------------
// Where an error is.

proof fn lemma_within(a: Seq<char>, b: Seq<char>)
    ensures
        utf8::chars_within(a + b, vstd::utf8::encode_utf8(a).len()) == a.len(),
    decreases a.len(),
{
    let all = a + b;
    if a.len() == 0 {
        assert(all =~= b);
        assert(vstd::utf8::encode_utf8(a).len() == 0);
        if b.len() > 0 {
            assert(utf8::width(b[0]) > 0);
        }
    } else {
        let rest = a.drop_first();
        lemma_within(rest, b);
        assert(all.drop_first() =~= rest + b);
        assert(all[0] == a[0]);
        assert(vstd::utf8::encode_scalar(a[0] as u32).len() == utf8::width(a[0])) by {
            vstd::utf8::char_is_scalar(a[0]);
        }
        assert(vstd::utf8::encode_utf8(a) == vstd::utf8::encode_scalar(a[0] as u32)
            + vstd::utf8::encode_utf8(rest));
    }
}

proof fn lemma_feeds(above: Seq<Seq<char>>)
    requires
        forall|i: int| 0 <= i < above.len() ==> !(#[trigger] above[i]).contains('\n'),
    ensures
        ({
            let all = above.map_values(|line: Seq<char>| line.push('\n')).flatten();
            &&& text::count(all, '\n') == above.len()
            &&& all.len() > 0 ==> all.last() == '\n'
        }),
    decreases above.len(),
{
    let ended = above.map_values(|line: Seq<char>| line.push('\n'));
    if above.len() == 0 {
        assert(ended.flatten() =~= Seq::<char>::empty());
    } else {
        let rest = above.drop_first();
        assert forall|i: int| 0 <= i < rest.len() implies !(#[trigger] rest[i]).contains('\n') by {
            assert(rest[i] == above[i + 1]);
        }
        lemma_feeds(rest);
        let later = rest.map_values(|line: Seq<char>| line.push('\n'));
        assert(ended.drop_first() =~= later);
        let first = above[0].push('\n');
        assert(ended[0] == first);
        assert(ended.flatten() =~= first + later.flatten());
        text::lemma_count_concat(first, later.flatten(), '\n');
        lemma_no_feeds(above[0]);
        assert(first.drop_last() =~= above[0]);
        if later.flatten().len() > 0 {
            assert((first + later.flatten()).last() == later.flatten().last());
        } else {
            assert(first + later.flatten() =~= first);
        }
    }
}

proof fn lemma_no_feeds(s: Seq<char>)
    requires
        !s.contains('\n'),
    ensures
        text::count(s, '\n') == 0,
    decreases s.len(),
{
    if s.len() > 0 {
        assert(s.contains(s.last()));
        let rest = s.drop_last();
        assert forall|i: int| 0 <= i < rest.len() implies rest[i] != '\n' by {
            assert(s.contains(s[i]));
        }
        lemma_no_feeds(rest);
    }
}

/// An error at a byte of a diagram is placed on the line that holds it: the number counts the
/// lines of the document above it, the column the characters before it, both from 1, and the line
/// is shown as it is.
pub proof fn errors_are_placed_on_their_line(
    diagram: DiagramModel,
    above: Seq<Seq<char>>,
    line: Seq<char>,
    column: int,
    below: Seq<char>,
)
    requires
        forall|i: int| 0 <= i < above.len() ==> !(#[trigger] above[i]).contains('\n'),
        !line.contains('\n'),
        line.len() > 0 ==> line.last() != '\r',
        0 <= column <= line.len(),
        below.len() > 0 ==> below[0] == '\n',
        diagram.text == above.map_values(|line: Seq<char>| line.push('\n')).flatten() + line
            + below,
    ensures
        ({
            let before = above.map_values(|line: Seq<char>| line.push('\n')).flatten();
            let start = vstd::utf8::encode_utf8(before + line.take(column)).len();
            let place = diag::place(diagram, start);
            &&& place.number == diagram.first_line + above.len() + 1
            &&& place.column == column + 1
            &&& place.source == line
        }),
{
    let before = above.map_values(|line: Seq<char>| line.push('\n')).flatten();
    let head = before + line.take(column);
    let tail = line.skip(column) + below;
    assert(diagram.text =~= head + tail);
    lemma_within(head, tail);
    let at = head.len() as int;
    assert(diagram.text.take(at) =~= head);
    lemma_feeds(above);
    assert forall|i: int| 0 <= i < column implies line[i] != '\n' by {
        assert(line.contains(line[i]));
    }
    assert(!line.take(column).contains('\n'));
    lemma_no_feeds(line.take(column));
    text::lemma_count_concat(before, line.take(column), '\n');
    let n = before.len() as int;
    if n > 0 {
        assert(head[n - 1] == before.last());
    }
    assert forall|i: int| n <= i < head.len() implies #[trigger] head[i] != '\n' by {
        assert(head[i] == line[i - n]);
        assert(line.contains(line[i - n]));
    }
    text::lemma_after_last_is(head, '\n', n);
    let rest = diagram.text.skip(at);
    assert(rest =~= tail);
    let left = line.len() - column;
    assert forall|i: int| 0 <= i < left implies #[trigger] rest[i] != '\n' by {
        assert(rest[i] == line[column + i]);
        assert(line.contains(line[column + i]));
    }
    if left < rest.len() {
        assert(rest[left] == below[0]);
    }
    text::lemma_find_is(rest, '\n', left);
    assert(diagram.text.subrange(n, at + left) =~= line);
    assert(text::without_trailing(line, '\r') == line);
}

/// The caret stands below its column: what is before it is as wide, tab for tab.
pub proof fn carets_stand_below_their_column(source: Seq<char>, columns: nat)
    requires
        columns <= source.len(),
    ensures
        diag::indentation(source, columns).len() == columns,
        forall|i: int|
            0 <= i < columns ==> #[trigger] diag::indentation(source, columns)[i] == if source[i]
                == '\t' {
                '\t'
            } else {
                ' '
            },
{
}

/// An error is told by its message, by the file, line and column that it is at, and by that line
/// with a caret below the column. Without a place it is told by its message and the file.
pub proof fn errors_are_told_with_their_place(
    message: Seq<char>,
    start: usize,
    end: usize,
    diagram: DiagramModel,
)
    ensures
        ({
            let place = diag::place(diagram, start as nat);
            let number = text::decimal(place.number);
            let pad = Seq::new(number.len(), |i: int| ' ');
            diag::formatted(
                DiagnosticModel { message, span: Some((start, end)) },
                diagram,
                false,
            ) == "error"@ + ": "@ + message + "\n"@ + pad + "-->"@ + " "@ + diagram.origin + ":"@
                + number + ":"@ + text::decimal(place.column) + "\n"@ + pad + " "@ + "|"@ + "\n"@
                + number + " |"@ + " "@ + place.source + "\n"@ + pad + " "@ + "|"@ + " "@
                + diag::indentation(place.source, (place.column - 1) as nat) + "^"@ + "\n"@
        }),
        diag::formatted(DiagnosticModel { message, span: None }, diagram, false) == "error"@
            + ": "@ + message + "\n"@ + " "@ + "-->"@ + " "@ + diagram.origin + "\n"@,
{
    reveal_strlit("");
    let c = diag::colors(false);
    let none = Seq::<char>::empty();
    assert(c.red =~= none && c.blue =~= none && c.bold =~= none && c.reset =~= none);
    assert forall|s: Seq<char>| #[trigger] (s + none) == s by {
        assert(s + none =~= s);
    }
    assert forall|s: Seq<char>| #[trigger] (none + s) == s by {
        assert(none + s =~= s);
    }
    let place = diag::place(diagram, start as nat);
    let number = text::decimal(place.number);
    assert(diag::spaces(number.len()) =~= Seq::new(number.len(), |i: int| ' '));
}

// ---------------------------------------------------------------------------------------------
// What became of a diagram.

/// A drawing is kept as it is, and nothing but a drawing is one.
pub proof fn drawings_are_kept(reply: ReplyModel, in_text: bool)
    ensures
        engine::outcome_of(reply, in_text) is Ok <==> reply is Drawn,
        reply matches ReplyModel::Drawn(drawing) ==> engine::outcome_of(reply, in_text) == Ok::<
            Seq<char>,
            FailureModel,
        >(drawing),
        reply is Nothing ==> engine::outcome_of(reply, in_text) == Err::<Seq<char>, FailureModel>(
            FailureModel::Empty,
        ),
{
}

/// A parse error keeps its place, and its message loses the prefix that names the parser. A
/// cancelled render is no error to tell. Other problems are told as they are.
pub proof fn problems_are_told(
    shown: Seq<char>,
    kind: Seq<char>,
    span: Option<(usize, usize)>,
    in_text: bool,
)
    requires
        !kind.contains(')'),
    ensures
        engine::outcome_of(
            ReplyModel::Refused(
                ProblemModel {
                    shown: "Diagram parse error ("@ + kind + "): "@ + shown,
                    cause: Cause::Parse(span),
                },
            ),
            in_text,
        ) == Err::<Seq<char>, FailureModel>(
            FailureModel::Diagnostic(DiagnosticModel { message: shown, span }),
        ),
        !text::starts(shown, "Diagram parse error ("@) ==> engine::outcome_of(
            ReplyModel::Refused(ProblemModel { shown, cause: Cause::Parse(span) }),
            in_text,
        ) == Err::<Seq<char>, FailureModel>(
            FailureModel::Diagnostic(DiagnosticModel { message: shown, span }),
        ),
        engine::outcome_of(
            ReplyModel::Refused(ProblemModel { shown, cause: Cause::Cancelled }),
            in_text,
        ) == Err::<Seq<char>, FailureModel>(FailureModel::Cancelled),
        engine::told(FailureModel::Cancelled) is None,
        engine::outcome_of(
            ReplyModel::Refused(ProblemModel { shown, cause: Cause::NoDiagram }),
            in_text,
        ) == Err::<Seq<char>, FailureModel>(FailureModel::Empty),
        engine::told(FailureModel::Empty) == Some(
            DiagnosticModel { message: "no Mermaid diagram found"@, span: None },
        ),
        engine::outcome_of(
            ReplyModel::Refused(ProblemModel { shown, cause: Cause::Other }),
            in_text,
        ) == Err::<Seq<char>, FailureModel>(
            FailureModel::Diagnostic(DiagnosticModel { message: shown, span: None }),
        ),
{
    let prefix = "Diagram parse error ("@;
    reveal_strlit("Diagram parse error (");
    reveal_strlit("): ");
    let whole = prefix + kind + "): "@ + shown;
    let rest = kind + "): "@ + shown;
    assert(whole.take(prefix.len() as int) =~= prefix);
    assert(whole.skip(prefix.len() as int) =~= rest);
    lemma_closed(kind, shown);
    assert(rest.skip(kind.len() as int + 3) =~= shown);
}

proof fn lemma_closed(kind: Seq<char>, shown: Seq<char>)
    requires
        !kind.contains(')'),
    ensures
        text::seek(kind + "): "@ + shown, "): "@) == Some(kind.len() as int),
    decreases kind.len(),
{
    reveal_strlit("): ");
    let all = kind + "): "@ + shown;
    if kind.len() == 0 {
        assert(all.take(3) =~= "): "@);
    } else {
        assert(kind.contains(kind[0]));
        if text::starts(all, "): "@) {
            assert(all.take(3)[0] == kind[0]);
        }
        let rest = kind.drop_first();
        assert forall|i: int| 0 <= i < rest.len() implies rest[i] != ')' by {
            assert(kind.contains(kind[i + 1]));
        }
        lemma_closed(rest, shown);
        assert(all.drop_first() =~= rest + "): "@ + shown);
    }
}

/// A drawing in text that does not fit says how wide it is and how wide the terminal is, and what
/// cannot be drawn in text can still be written to a file.
pub proof fn text_problems_offer_a_file(shown: Seq<char>, most: usize, actual: usize)
    ensures
        engine::outcome_of(
            ReplyModel::Refused(ProblemModel { shown, cause: Cause::TooWide(most, actual) }),
            true,
        ) == Err::<Seq<char>, FailureModel>(
            FailureModel::Diagnostic(
                DiagnosticModel {
                    message: "the diagram is "@ + text::decimal(actual as nat)
                        + " columns wide but the terminal has "@ + text::decimal(most as nat)
                        + "; widen the terminal or write an image with -o FILE"@,
                    span: None,
                },
            ),
        ),
        engine::outcome_of(
            ReplyModel::Refused(ProblemModel { shown, cause: Cause::Text }),
            true,
        ) == Err::<Seq<char>, FailureModel>(
            FailureModel::Diagnostic(
                DiagnosticModel {
                    message: shown + "; write an image with -o FILE instead"@,
                    span: None,
                },
            ),
        ),
{
}

} // verus!
