//! Decides whether input is Mermaid source or Markdown.

use vstd::prelude::*;
use vstd::slice::slice_subrange;

use super::Format;
use crate::text;

verus! {

/// Headers distinctive enough to recognize by prefix, the way Mermaid does.
pub const DISTINCTIVE: [&'static str; 29] = [
    "sequenceDiagram",
    "classDiagram",
    "stateDiagram",
    "erDiagram",
    "requirementDiagram",
    "quadrantChart",
    "gitGraph",
    "C4Context",
    "C4Container",
    "C4Component",
    "C4Dynamic",
    "C4Deployment",
    "flowchart-elk",
    "xychart",
    "sankey",
    "zenuml",
    "eventmodeling",
    "architecture-beta",
    "block-beta",
    "packet-beta",
    "radar-beta",
    "treemap-beta",
    "treeView-beta",
    "venn-beta",
    "swimlane-beta",
    "ishikawa-beta",
    "railroad-",
    "wardley-beta",
    "cynefin-beta",
];

/// Headers that are ordinary words and take no options.
pub const STANDALONE: [&'static str; 11] = [
    "gantt",
    "journey",
    "timeline",
    "mindmap",
    "kanban",
    "info",
    "block",
    "packet",
    "architecture",
    "treemap",
    "ishikawa",
];

/// The directions a flowchart takes.
pub const DIRECTIONS: [&'static str; 5] = ["TB", "TD", "BT", "RL", "LR"];

/// Whether a line opens a Mermaid diagram. Headers that are ordinary words must stand alone,
/// apart from the options they take.
pub open spec fn mermaid_header(line: Seq<char>) -> bool {
    let end = text::word_end(line, ';');
    let word = line.take(end as int);
    let rest = if end < line.len() {
        text::trimmed(line.skip(end as int + 1))
    } else {
        Seq::empty()
    };
    let option = rest.take(text::word_end(rest, ';') as int);
    ||| exists|i: int| 0 <= i < 29 && text::starts(line, #[trigger] DISTINCTIVE@[i]@)
    ||| (word == "graph"@ || word == "flowchart"@) && (rest.len() == 0 || exists|i: int|
        0 <= i < 5 && option == #[trigger] DIRECTIONS@[i]@)
    ||| word == "pie"@ && (rest.len() == 0 || text::starts(rest, "showData"@) || text::starts(
        rest,
        "title "@,
    ))
    ||| rest.len() == 0 && exists|i: int| 0 <= i < 11 && word == #[trigger] STANDALONE@[i]@
}

/// Whether a trimmed line says nothing about the format: blank lines and `%%` comments.
pub open spec fn meaningless(line: Seq<char>) -> bool {
    line.len() == 0 || (text::starts(line, "%%"@) && !text::starts(line, "%%{"@))
}

/// The first of some lines that is `---`, or how many there are.
pub open spec fn rule_at(lines: Seq<Seq<char>>) -> nat
    decreases lines.len(),
{
    if lines.len() == 0 || text::trimmed(lines[0]) == "---"@ {
        0
    } else {
        1 + rule_at(lines.drop_first())
    }
}

/// The format that the first meaningful line shows. A leading `---` block is skipped.
pub open spec fn sniffed(lines: Seq<Seq<char>>, at_start: bool, complete: bool) -> Option<Format>
    decreases lines.len(),
{
    if lines.len() == 0 {
        None
    } else {
        let line = text::trimmed(lines[0]);
        let rest = lines.drop_first();
        if meaningless(line) {
            sniffed(rest, at_start, complete)
        } else if line == "---"@ && at_start {
            if rule_at(rest) < rest.len() {
                sniffed(rest.skip(rule_at(rest) as int + 1), false, complete)
            } else if complete {
                Some(Format::Markdown)
            } else {
                None
            }
        } else if text::starts(line, "%%{"@) || mermaid_header(line) {
            Some(Format::Mermaid)
        } else {
            Some(Format::Markdown)
        }
    }
}

pub proof fn lemma_rule_at(lines: Seq<Seq<char>>)
    ensures
        rule_at(lines) <= lines.len(),
    decreases lines.len(),
{
    if lines.len() > 0 && text::trimmed(lines[0]) != "---"@ {
        lemma_rule_at(lines.drop_first());
    }
}

proof fn lemma_rule_at_prefix(a: Seq<Seq<char>>, b: Seq<Seq<char>>)
    requires
        rule_at(a) < a.len(),
    ensures
        rule_at(a + b) == rule_at(a),
    decreases a.len(),
{
    if text::trimmed(a[0]) != "---"@ {
        lemma_rule_at_prefix(a.drop_first(), b);
        assert((a + b).drop_first() =~= a.drop_first() + b);
    }
}

/// What the first lines of a document decide, the whole document decides too: a stream's
/// format, once known, is the format of the complete text.
pub proof fn a_decided_format_stays(
    first: Seq<Seq<char>>,
    later: Seq<Seq<char>>,
    at_start: bool,
    complete: bool,
)
    requires
        sniffed(first, at_start, false) is Some,
    ensures
        sniffed(first + later, at_start, complete) == sniffed(first, at_start, false),
    decreases first.len(),
{
    let line = text::trimmed(first[0]);
    let rest = first.drop_first();
    assert((first + later).drop_first() =~= rest + later);
    if meaningless(line) {
        a_decided_format_stays(rest, later, at_start, complete);
    } else if line == "---"@ && at_start {
        let at = rule_at(rest);
        lemma_rule_at_prefix(rest, later);
        assert((rest + later).skip(at as int + 1) =~= rest.skip(at as int + 1) + later);
        a_decided_format_stays(rest.skip(at as int + 1), later, false, complete);
    }
}

/// Looks at the first meaningful line, skipping blank lines, `%%` comments and a leading `---`
/// frontmatter block (Markdown documents often start with frontmatter too). Returns `None`
/// until that line has arrived; `complete` says that no more input will follow.
pub fn sniff(text: &str, complete: bool) -> (format: Option<Format>)
    ensures
        format == sniffed(text::lines(text@), true, complete),
{
    let text = text::chars(text);
    sniff_chars(&text, complete)
}

/// [`sniff`] on characters.
pub fn sniff_chars(all: &[char], complete: bool) -> (format: Option<Format>)
    ensures
        format == sniffed(text::lines(all@), true, complete),
{
    let mut rest = all;
    let mut at_start = true;
    while rest.len() > 0
        invariant
            sniffed(text::lines(all@), true, complete) == sniffed(
                text::lines(rest@),
                at_start,
                complete,
            ),
        decreases rest@.len(),
    {
        let (raw, next) = text::first_line(rest);
        assert((seq![raw@] + text::lines(next@)).drop_first() =~= text::lines(next@));
        let line = text::trim(raw);
        if line.len() == 0 || (text::starts_with(line, "%%") && !text::starts_with(line, "%%{")) {
            rest = next;
        } else if at_start && text::is_text(line, "---") {
            at_start = false;
            match after_rule(next) {
                Some(after) => {
                    rest = after;
                },
                None => {
                    // An unclosed `---` at the end of the input is a Markdown thematic break.
                    return if complete {
                        Some(Format::Markdown)
                    } else {
                        None
                    };
                },
            }
        } else {
            return Some(
                if text::starts_with(line, "%%{") || is_mermaid_header(line) {
                    Format::Mermaid
                } else {
                    Format::Markdown
                },
            );
        }
    }
    None
}

/// What follows the first `---` line.
fn after_rule(all: &[char]) -> (r: Option<&[char]>)
    ensures
        r is Some <==> rule_at(text::lines(all@)) < text::lines(all@).len(),
        r is Some ==> text::lines(r.unwrap()@) == text::lines(all@).skip(
            rule_at(text::lines(all@)) as int + 1,
        ),
        r is Some ==> r.unwrap()@.len() < all@.len(),
{
    let mut rest = all;
    let ghost mut seen: int = 0;
    assert(text::lines(all@).skip(0) =~= text::lines(all@));
    while rest.len() > 0
        invariant
            0 <= seen <= text::lines(all@).len(),
            rest@.len() <= all@.len(),
            text::lines(rest@) == text::lines(all@).skip(seen),
            rule_at(text::lines(all@)) == seen + rule_at(text::lines(rest@)),
        decreases rest@.len(),
    {
        let (raw, next) = text::first_line(rest);
        proof {
            assert((seq![raw@] + text::lines(next@)).drop_first() =~= text::lines(next@));
            assert(text::lines(next@) =~= text::lines(all@).skip(seen + 1));
            assert(text::lines(rest@).len() == text::lines(all@).len() - seen);
        }
        if text::is_text(text::trim(raw), "---") {
            return Some(next);
        }
        proof {
            seen = seen + 1;
        }
        rest = next;
    }
    None
}

fn any_prefix(line: &[char]) -> (r: bool)
    ensures
        r == exists|i: int| 0 <= i < 29 && text::starts(line@, #[trigger] DISTINCTIVE@[i]@),
{
    let mut i: usize = 0;
    while i < 29
        invariant
            i <= 29,
            forall|j: int| 0 <= j < i ==> !text::starts(line@, #[trigger] DISTINCTIVE@[j]@),
        decreases 29 - i,
    {
        if text::starts_with(line, DISTINCTIVE[i]) {
            return true;
        }
        i += 1;
    }
    false
}

fn is_direction(word: &[char]) -> (r: bool)
    ensures
        r == exists|i: int| 0 <= i < 5 && word@ == #[trigger] DIRECTIONS@[i]@,
{
    let mut i: usize = 0;
    while i < 5
        invariant
            i <= 5,
            forall|j: int| 0 <= j < i ==> word@ != #[trigger] DIRECTIONS@[j]@,
        decreases 5 - i,
    {
        if text::is_text(word, DIRECTIONS[i]) {
            return true;
        }
        i += 1;
    }
    false
}

fn is_standalone(word: &[char]) -> (r: bool)
    ensures
        r == exists|i: int| 0 <= i < 11 && word@ == #[trigger] STANDALONE@[i]@,
{
    let mut i: usize = 0;
    while i < 11
        invariant
            i <= 11,
            forall|j: int| 0 <= j < i ==> word@ != #[trigger] STANDALONE@[j]@,
        decreases 11 - i,
    {
        if text::is_text(word, STANDALONE[i]) {
            return true;
        }
        i += 1;
    }
    false
}

/// Whether a line opens a Mermaid diagram. Headers that are ordinary words must stand alone
/// (apart from the options they take), so prose such as "pie charts are…" is not a diagram.
pub fn is_mermaid_header(line: &[char]) -> (r: bool)
    ensures
        r == mermaid_header(line@),
{
    if any_prefix(line) {
        return true;
    }
    let end: usize = text::first_word(line, ';');
    let word = slice_subrange(line, 0, end);
    assert(word@ =~= line@.take(end as int));
    let rest = if end < line.len() {
        let after = slice_subrange(line, end + 1, line.len());
        assert(after@ =~= line@.skip(end + 1));
        text::trim(after)
    } else {
        let none = slice_subrange(line, line.len(), line.len());
        assert(none@ =~= Seq::<char>::empty());
        none
    };
    let option_end: usize = text::first_word(rest, ';');
    let option = slice_subrange(rest, 0, option_end);
    assert(option@ =~= rest@.take(option_end as int));
    ((text::is_text(word, "graph") || text::is_text(word, "flowchart")) && (rest.len() == 0
        || is_direction(option))) || (text::is_text(word, "pie") && (rest.len() == 0
        || text::starts_with(rest, "showData") || text::starts_with(rest, "title "))) || (
    rest.len() == 0 && is_standalone(word))
}

} // verus!
