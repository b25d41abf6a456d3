//! What holds of headers and formats.

use vstd::prelude::*;

use super::sniff;
use super::Format;
use crate::text;

verus! {

/// The start of a line that only a diagram has.
spec fn distinctive(s: Seq<char>) -> bool {
    ||| s == "sequenceDiagram"@
    ||| s == "classDiagram"@
    ||| s == "stateDiagram"@
    ||| s == "erDiagram"@
    ||| s == "requirementDiagram"@
    ||| s == "quadrantChart"@
    ||| s == "gitGraph"@
    ||| s == "C4Context"@
    ||| s == "C4Container"@
    ||| s == "C4Component"@
    ||| s == "C4Dynamic"@
    ||| s == "C4Deployment"@
    ||| s == "flowchart-elk"@
    ||| s == "xychart"@
    ||| s == "sankey"@
    ||| s == "zenuml"@
    ||| s == "eventmodeling"@
    ||| s == "architecture-beta"@
    ||| s == "block-beta"@
    ||| s == "packet-beta"@
    ||| s == "radar-beta"@
    ||| s == "treemap-beta"@
    ||| s == "treeView-beta"@
    ||| s == "venn-beta"@
    ||| s == "swimlane-beta"@
    ||| s == "ishikawa-beta"@
    ||| s == "railroad-"@
    ||| s == "wardley-beta"@
    ||| s == "cynefin-beta"@
}

/// A word that stands alone on a diagram's first line.
spec fn standalone(s: Seq<char>) -> bool {
    ||| s == "gantt"@
    ||| s == "journey"@
    ||| s == "timeline"@
    ||| s == "mindmap"@
    ||| s == "kanban"@
    ||| s == "info"@
    ||| s == "block"@
    ||| s == "packet"@
    ||| s == "architecture"@
    ||| s == "treemap"@
    ||| s == "ishikawa"@
}

/// A direction of a flowchart.
spec fn direction(s: Seq<char>) -> bool {
    ||| s == "TB"@
    ||| s == "TD"@
    ||| s == "BT"@
    ||| s == "RL"@
    ||| s == "LR"@
}

/// The lists hold the names, each once, and no others.
proof fn lemma_lists(s: Seq<char>)
    ensures
        distinctive(s) <==> exists|i: int| 0 <= i < 29 && s == #[trigger] sniff::DISTINCTIVE@[i]@,
        standalone(s) <==> exists|i: int| 0 <= i < 11 && s == #[trigger] sniff::STANDALONE@[i]@,
        direction(s) <==> exists|i: int| 0 <= i < 5 && s == #[trigger] sniff::DIRECTIONS@[i]@,
{
    assert(sniff::DISTINCTIVE@[0]@ == "sequenceDiagram"@);
    assert(sniff::DISTINCTIVE@[1]@ == "classDiagram"@);
    assert(sniff::DISTINCTIVE@[2]@ == "stateDiagram"@);
    assert(sniff::DISTINCTIVE@[3]@ == "erDiagram"@);
    assert(sniff::DISTINCTIVE@[4]@ == "requirementDiagram"@);
    assert(sniff::DISTINCTIVE@[5]@ == "quadrantChart"@);
    assert(sniff::DISTINCTIVE@[6]@ == "gitGraph"@);
    assert(sniff::DISTINCTIVE@[7]@ == "C4Context"@);
    assert(sniff::DISTINCTIVE@[8]@ == "C4Container"@);
    assert(sniff::DISTINCTIVE@[9]@ == "C4Component"@);
    assert(sniff::DISTINCTIVE@[10]@ == "C4Dynamic"@);
    assert(sniff::DISTINCTIVE@[11]@ == "C4Deployment"@);
    assert(sniff::DISTINCTIVE@[12]@ == "flowchart-elk"@);
    assert(sniff::DISTINCTIVE@[13]@ == "xychart"@);
    assert(sniff::DISTINCTIVE@[14]@ == "sankey"@);
    assert(sniff::DISTINCTIVE@[15]@ == "zenuml"@);
    assert(sniff::DISTINCTIVE@[16]@ == "eventmodeling"@);
    assert(sniff::DISTINCTIVE@[17]@ == "architecture-beta"@);
    assert(sniff::DISTINCTIVE@[18]@ == "block-beta"@);
    assert(sniff::DISTINCTIVE@[19]@ == "packet-beta"@);
    assert(sniff::DISTINCTIVE@[20]@ == "radar-beta"@);
    assert(sniff::DISTINCTIVE@[21]@ == "treemap-beta"@);
    assert(sniff::DISTINCTIVE@[22]@ == "treeView-beta"@);
    assert(sniff::DISTINCTIVE@[23]@ == "venn-beta"@);
    assert(sniff::DISTINCTIVE@[24]@ == "swimlane-beta"@);
    assert(sniff::DISTINCTIVE@[25]@ == "ishikawa-beta"@);
    assert(sniff::DISTINCTIVE@[26]@ == "railroad-"@);
    assert(sniff::DISTINCTIVE@[27]@ == "wardley-beta"@);
    assert(sniff::DISTINCTIVE@[28]@ == "cynefin-beta"@);
    assert(sniff::STANDALONE@[0]@ == "gantt"@);
    assert(sniff::STANDALONE@[1]@ == "journey"@);
    assert(sniff::STANDALONE@[2]@ == "timeline"@);
    assert(sniff::STANDALONE@[3]@ == "mindmap"@);
    assert(sniff::STANDALONE@[4]@ == "kanban"@);
    assert(sniff::STANDALONE@[5]@ == "info"@);
    assert(sniff::STANDALONE@[6]@ == "block"@);
    assert(sniff::STANDALONE@[7]@ == "packet"@);
    assert(sniff::STANDALONE@[8]@ == "architecture"@);
    assert(sniff::STANDALONE@[9]@ == "treemap"@);
    assert(sniff::STANDALONE@[10]@ == "ishikawa"@);
    assert(sniff::DIRECTIONS@[0]@ == "TB"@);
    assert(sniff::DIRECTIONS@[1]@ == "TD"@);
    assert(sniff::DIRECTIONS@[2]@ == "BT"@);
    assert(sniff::DIRECTIONS@[3]@ == "RL"@);
    assert(sniff::DIRECTIONS@[4]@ == "LR"@);
}

/// The names of diagrams that are ordinary words are words.
proof fn lemma_words(s: Seq<char>)
    requires
        standalone(s) || direction(s) || s == "graph"@ || s == "flowchart"@ || s == "pie"@,
    ensures
        s.len() > 0,
        forall|i: int| 0 <= i < s.len() ==> 'A' <= #[trigger] s[i] <= 'z',
{
    reveal_strlit("gantt");
    reveal_strlit("journey");
    reveal_strlit("timeline");
    reveal_strlit("mindmap");
    reveal_strlit("kanban");
    reveal_strlit("info");
    reveal_strlit("block");
    reveal_strlit("packet");
    reveal_strlit("architecture");
    reveal_strlit("treemap");
    reveal_strlit("ishikawa");
    reveal_strlit("TB");
    reveal_strlit("TD");
    reveal_strlit("BT");
    reveal_strlit("RL");
    reveal_strlit("LR");
    reveal_strlit("graph");
    reveal_strlit("flowchart");
    reveal_strlit("pie");
}

/// Where the first word of a line ends, and what follows it.
proof fn lemma_line(word: Seq<char>, tail: Seq<char>)
    requires
        forall|i: int|
            0 <= i < word.len() ==> !text::white(#[trigger] word[i]) && word[i] != ';',
        tail.len() > 0 ==> text::white(tail[0]) || tail[0] == ';',
    ensures
        text::word_end(word + tail, ';') == word.len(),
        (word + tail).take(word.len() as int) == word,
        tail.len() > 0 ==> (word + tail).skip(word.len() as int + 1) == tail.skip(1),
{
    let line = word + tail;
    let n = word.len() as int;
    assert forall|i: int| 0 <= i < n implies !text::white(#[trigger] line[i]) && line[i]
        != ';' by {
        assert(line[i] == word[i]);
    }
    if n < line.len() {
        assert(line[n] == tail[0]);
    }
    text::lemma_word_end_is(line, ';', n);
    assert(line.take(n) =~= word);
    if tail.len() > 0 {
        assert(line.skip(n + 1) =~= tail.skip(1));
    }
}

proof fn lemma_word(word: Seq<char>)
    requires
        standalone(word) || direction(word) || word == "graph"@ || word == "flowchart"@ || word
            == "pie"@,
    ensures
        word.len() > 0,
        forall|i: int|
            0 <= i < word.len() ==> !text::white(#[trigger] word[i]) && word[i] != ';',
{
    lemma_words(word);
    assert forall|i: int| 0 <= i < word.len() implies !text::white(#[trigger] word[i]) && word[i]
        != ';' by {
        text::white_space_prints_nothing(word[i]);
    }
}

/// A line that starts with a name that nothing else has opens a diagram, whatever follows.
pub proof fn distinctive_names_open_diagrams(name: Seq<char>, tail: Seq<char>)
    requires
        name == "sequenceDiagram"@ || name == "classDiagram"@ || name == "stateDiagram"@
            || name == "erDiagram"@ || name == "requirementDiagram"@ || name == "quadrantChart"@
            || name == "gitGraph"@ || name == "C4Context"@ || name == "C4Container"@
            || name == "C4Component"@ || name == "C4Dynamic"@ || name == "C4Deployment"@
            || name == "flowchart-elk"@ || name == "xychart"@ || name == "sankey"@
            || name == "zenuml"@ || name == "eventmodeling"@ || name == "architecture-beta"@
            || name == "block-beta"@ || name == "packet-beta"@ || name == "radar-beta"@
            || name == "treemap-beta"@ || name == "treeView-beta"@ || name == "venn-beta"@
            || name == "swimlane-beta"@ || name == "ishikawa-beta"@ || name == "railroad-"@
            || name == "wardley-beta"@ || name == "cynefin-beta"@,
    ensures
        sniff::mermaid_header(name + tail),
{
    lemma_lists(name);
    assert((name + tail).take(name.len() as int) =~= name);
}

/// No ordinary word with something that ends it starts like one of the distinctive names.
proof fn lemma_not_distinctive(word: Seq<char>, tail: Seq<char>)
    requires
        standalone(word) || word == "graph"@ || word == "flowchart"@ || word == "pie"@,
        tail.len() > 0 ==> text::white(tail[0]) || tail[0] == ';',
    ensures
        !exists|i: int|
            0 <= i < 29 && text::starts(word + tail, #[trigger] sniff::DISTINCTIVE@[i]@),
{
    let line = word + tail;
    reveal_strlit("gantt");
    reveal_strlit("journey");
    reveal_strlit("timeline");
    reveal_strlit("mindmap");
    reveal_strlit("kanban");
    reveal_strlit("info");
    reveal_strlit("block");
    reveal_strlit("packet");
    reveal_strlit("architecture");
    reveal_strlit("treemap");
    reveal_strlit("ishikawa");
    reveal_strlit("graph");
    reveal_strlit("flowchart");
    reveal_strlit("pie");
    reveal_strlit("sequenceDiagram");
    reveal_strlit("classDiagram");
    reveal_strlit("stateDiagram");
    reveal_strlit("erDiagram");
    reveal_strlit("requirementDiagram");
    reveal_strlit("quadrantChart");
    reveal_strlit("gitGraph");
    reveal_strlit("C4Context");
    reveal_strlit("C4Container");
    reveal_strlit("C4Component");
    reveal_strlit("C4Dynamic");
    reveal_strlit("C4Deployment");
    reveal_strlit("flowchart-elk");
    reveal_strlit("xychart");
    reveal_strlit("sankey");
    reveal_strlit("zenuml");
    reveal_strlit("eventmodeling");
    reveal_strlit("architecture-beta");
    reveal_strlit("block-beta");
    reveal_strlit("packet-beta");
    reveal_strlit("radar-beta");
    reveal_strlit("treemap-beta");
    reveal_strlit("treeView-beta");
    reveal_strlit("venn-beta");
    reveal_strlit("swimlane-beta");
    reveal_strlit("ishikawa-beta");
    reveal_strlit("railroad-");
    reveal_strlit("wardley-beta");
    reveal_strlit("cynefin-beta");
    if tail.len() > 0 {
        assert(line[word.len() as int] == tail[0]);
    }
    assert forall|i: int| 0 <= i < 29 implies !text::starts(
        line,
        #[trigger] sniff::DISTINCTIVE@[i]@,
    ) by {
        let name = sniff::DISTINCTIVE@[i]@;
        lemma_lists(name);
        if text::starts(line, name) {
            assert forall|k: int| 0 <= k < name.len() implies #[trigger] line[k] == name[k] by {
                assert(line.take(name.len() as int)[k] == line[k]);
            }
            assert forall|k: int| 0 <= k < word.len() implies #[trigger] line[k] == word[k] by {}
            lemma_names_differ(word, name, line);
        }
    }
}

/// A line that starts with a distinctive name has another first word, or none that ends there.
proof fn lemma_names_differ(word: Seq<char>, name: Seq<char>, line: Seq<char>)
    requires
        standalone(word) || word == "graph"@ || word == "flowchart"@ || word == "pie"@,
        distinctive(name),
        word.len() <= line.len(),
        name.len() <= line.len(),
        forall|k: int| 0 <= k < word.len() ==> #[trigger] line[k] == word[k],
        word.len() < line.len() ==> text::white(line[word.len() as int]) || line[word.len() as int]
            == ';',
    ensures
        exists|k: int| 0 <= k < name.len() && #[trigger] line[k] != name[k],
{
    reveal_strlit("gantt");
    reveal_strlit("journey");
    reveal_strlit("timeline");
    reveal_strlit("mindmap");
    reveal_strlit("kanban");
    reveal_strlit("info");
    reveal_strlit("block");
    reveal_strlit("packet");
    reveal_strlit("architecture");
    reveal_strlit("treemap");
    reveal_strlit("ishikawa");
    reveal_strlit("graph");
    reveal_strlit("flowchart");
    reveal_strlit("pie");
    reveal_strlit("sequenceDiagram");
    reveal_strlit("classDiagram");
    reveal_strlit("stateDiagram");
    reveal_strlit("erDiagram");
    reveal_strlit("requirementDiagram");
    reveal_strlit("quadrantChart");
    reveal_strlit("gitGraph");
    reveal_strlit("C4Context");
    reveal_strlit("C4Container");
    reveal_strlit("C4Component");
    reveal_strlit("C4Dynamic");
    reveal_strlit("C4Deployment");
    reveal_strlit("flowchart-elk");
    reveal_strlit("xychart");
    reveal_strlit("sankey");
    reveal_strlit("zenuml");
    reveal_strlit("eventmodeling");
    reveal_strlit("architecture-beta");
    reveal_strlit("block-beta");
    reveal_strlit("packet-beta");
    reveal_strlit("radar-beta");
    reveal_strlit("treemap-beta");
    reveal_strlit("treeView-beta");
    reveal_strlit("venn-beta");
    reveal_strlit("swimlane-beta");
    reveal_strlit("ishikawa-beta");
    reveal_strlit("railroad-");
    reveal_strlit("wardley-beta");
    reveal_strlit("cynefin-beta");
    text::white_space_prints_nothing('-');
    let n = word.len() as int;
    if forall|k: int| 0 <= k < name.len() ==> #[trigger] line[k] == name[k] {
        assert(line[0] == word[0] && line[0] == name[0]);
        assert(line[1] == word[1] && line[1] == name[1]);
        assert(line[2] == word[2] && line[2] == name[2]);
        if n > 3 {
            assert(line[3] == word[3] && line[3] == name[3]);
        }
        if n > 4 {
            assert(line[4] == word[4] && line[4] == name[4]);
        }
        if n < name.len() {
            assert(line[n] == name[n]);
        }
    }
}

/// A name that is an ordinary word opens a diagram where it stands alone, and only there: prose
/// that starts with the word does not. A document with such a first line is Mermaid.
pub proof fn ordinary_words_stand_alone(
    word: Seq<char>,
    tail: Seq<char>,
    later: Seq<Seq<char>>,
    at_start: bool,
    complete: bool,
)
    requires
        word == "gantt"@ || word == "journey"@ || word == "timeline"@ || word == "mindmap"@
            || word == "kanban"@ || word == "info"@ || word == "block"@ || word == "packet"@
            || word == "architecture"@ || word == "treemap"@ || word == "ishikawa"@,
        tail.len() > 0 ==> text::white(tail[0]) || tail[0] == ';',
    ensures
        sniff::mermaid_header(word + tail) <==> forall|i: int|
            1 <= i < tail.len() ==> text::white(#[trigger] tail[i]),
        sniff::sniffed(seq![word] + later, at_start, complete) == Some(Format::Mermaid),
{
    lemma_word(word);
    lemma_line(word, tail);
    lemma_not_distinctive(word, tail);
    lemma_lists(word);
    lemma_other_names(word);
    lemma_rest(tail);
    lemma_alone(word, later, at_start, complete);
}

/// What follows the first word and its end.
proof fn lemma_rest(tail: Seq<char>)
    ensures
        tail.len() > 0 ==> (text::trimmed(tail.skip(1)).len() == 0 <==> forall|i: int|
            1 <= i < tail.len() ==> text::white(#[trigger] tail[i])),
{
    if tail.len() > 0 {
        let rest = tail.skip(1);
        text::lemma_blank(rest);
        if text::trimmed(rest).len() == 0 {
            assert forall|i: int| 1 <= i < tail.len() implies text::white(#[trigger] tail[i]) by {
                assert(tail[i] == rest[i - 1]);
            }
        } else if forall|i: int| 1 <= i < tail.len() ==> text::white(#[trigger] tail[i]) {
            assert forall|i: int| 0 <= i < rest.len() implies text::white(#[trigger] rest[i]) by {
                assert(rest[i] == tail[i + 1]);
            }
        }
    }
}

/// The ordinary words are no names with options.
proof fn lemma_other_names(word: Seq<char>)
    requires
        standalone(word),
    ensures
        word != "graph"@ && word != "flowchart"@ && word != "pie"@,
{
    reveal_strlit("gantt");
    reveal_strlit("journey");
    reveal_strlit("timeline");
    reveal_strlit("mindmap");
    reveal_strlit("kanban");
    reveal_strlit("info");
    reveal_strlit("block");
    reveal_strlit("packet");
    reveal_strlit("architecture");
    reveal_strlit("treemap");
    reveal_strlit("ishikawa");
    reveal_strlit("graph");
    reveal_strlit("flowchart");
    reveal_strlit("pie");
    assert(word.len() == "flowchart"@.len() ==> false || word[0] != 'f');
    assert(word.len() == "graph"@.len() ==> word[0] != 'g' || word[1] != 'r');
    assert(word.len() != "pie"@.len());
}

/// A document whose first line is a diagram's name and nothing else.
proof fn lemma_alone(
    word: Seq<char>,
    later: Seq<Seq<char>>,
    at_start: bool,
    complete: bool,
)
    requires
        standalone(word) || word == "graph"@ || word == "flowchart"@ || word == "pie"@,
    ensures
        sniff::mermaid_header(word),
        sniff::sniffed(seq![word] + later, at_start, complete) == Some(Format::Mermaid),
{
    lemma_word(word);
    lemma_words(word);
    lemma_lists(word);
    lemma_line(word, Seq::empty());
    assert(word + Seq::<char>::empty() =~= word);
    assert(sniff::mermaid_header(word));
    text::lemma_trimmed_is(word, 0, word.len() as int);
    assert(word.subrange(0, word.len() as int) =~= word);
    let lines = seq![word] + later;
    assert(lines[0] == word);
    reveal_strlit("%%");
    reveal_strlit("%%{");
    reveal_strlit("---");
    if text::starts(word, "%%"@) {
        assert(word.take(2)[0] == word[0]);
    }
    if text::starts(word, "%%{"@) {
        assert(word.take(3)[0] == word[0]);
    }
}

/// The first option after a diagram's name.
proof fn lemma_option(option: Seq<char>, tail: Seq<char>)
    requires
        option.len() > 0,
        forall|i: int|
            0 <= i < option.len() ==> !text::white(#[trigger] option[i]) && option[i] != ';',
        tail.len() > 0 ==> text::white(tail[0]) || tail[0] == ';',
    ensures
        text::trimmed(option + tail).len() > 0,
        text::word_end(text::trimmed(option + tail), ';') == option.len(),
        text::trimmed(option + tail).take(option.len() as int) == option,
{
    let rest = text::trimmed(option + tail);
    let (a, b) = text::lemma_trimmed_at(option + tail);
    let n = option.len() as int;
    assert((option + tail)[0] == option[0]);
    assert((option + tail)[n - 1] == option[n - 1]);
    if a > 0 {
        assert(text::white((option + tail)[0]));
    }
    if b < n {
        assert(text::white((option + tail)[n - 1]));
    }
    assert(rest.len() > 0);
    assert forall|i: int| 0 <= i < n implies !text::white(#[trigger] rest[i]) && rest[i]
        != ';' by {
        assert(rest[i] == (option + tail)[i]);
        assert((option + tail)[i] == option[i]);
    }
    if n < rest.len() {
        assert(rest[n] == (option + tail)[n]);
        assert((option + tail)[n] == tail[0]);
    }
    text::lemma_word_end_is(rest, ';', n);
    assert(rest.take(n) =~= option);
}

/// A flowchart is opened by its name, alone or with a direction after it.
pub proof fn flowcharts_take_directions(
    word: Seq<char>,
    gap: char,
    option: Seq<char>,
    tail: Seq<char>,
    later: Seq<Seq<char>>,
    at_start: bool,
    complete: bool,
)
    requires
        word == "graph"@ || word == "flowchart"@,
        text::white(gap) || gap == ';',
        option.len() > 0,
        forall|i: int|
            0 <= i < option.len() ==> !text::white(#[trigger] option[i]) && option[i] != ';',
        tail.len() > 0 ==> text::white(tail[0]) || tail[0] == ';',
    ensures
        sniff::mermaid_header(word),
        sniff::sniffed(seq![word] + later, at_start, complete) == Some(Format::Mermaid),
        sniff::mermaid_header(word + (seq![gap] + option + tail)) <==> (option == "TB"@ || option == "TD"@ || option == "BT"@ || option == "RL"@ || option == "LR"@),
{
    lemma_alone(word, later, at_start, complete);
    lemma_word(word);
    let more = seq![gap] + option + tail;
    lemma_line(word, more);
    lemma_not_distinctive(word, more);
    lemma_lists(option);
    lemma_lists(word);
    assert(more.skip(1) =~= option + tail);
    lemma_option(option, tail);
    if standalone(word) {
        lemma_other_names(word);
    }
    reveal_strlit("graph");
    reveal_strlit("flowchart");
    reveal_strlit("pie");
}

/// A pie chart is opened by its name, alone, or with `showData` or a title after it.
pub proof fn pie_charts_take_options(
    gap: char,
    rest: Seq<char>,
    later: Seq<Seq<char>>,
    at_start: bool,
    complete: bool,
)
    requires
        text::white(gap) || gap == ';',
        rest.len() > 0,
        !text::white(rest[0]),
        !text::white(rest.last()),
    ensures
        sniff::mermaid_header("pie"@),
        sniff::sniffed(seq!["pie"@] + later, at_start, complete) == Some(Format::Mermaid),
        sniff::mermaid_header("pie"@ + (seq![gap] + rest)) <==> text::starts(rest, "showData"@)
            || text::starts(rest, "title "@),
{
    let word = "pie"@;
    lemma_alone(word, later, at_start, complete);
    lemma_word(word);
    let more = seq![gap] + rest;
    lemma_line(word, more);
    lemma_not_distinctive(word, more);
    lemma_lists(word);
    assert(more.skip(1) =~= rest);
    text::lemma_trimmed_is(rest, 0, rest.len() as int);
    assert(rest.subrange(0, rest.len() as int) =~= rest);
    if standalone(word) {
        lemma_other_names(word);
    }
    reveal_strlit("graph");
    reveal_strlit("flowchart");
    reveal_strlit("pie");
}

/// A line that starts with another word opens no diagram: it is prose.
pub proof fn other_words_open_nothing(word: Seq<char>, tail: Seq<char>)
    requires
        word.len() > 0,
        forall|i: int|
            0 <= i < word.len() ==> !text::white(#[trigger] word[i]) && word[i] != ';',
        tail.len() > 0 ==> text::white(tail[0]) || tail[0] == ';',
        !text::starts(word + tail, "sequenceDiagram"@),
        !text::starts(word + tail, "classDiagram"@),
        !text::starts(word + tail, "stateDiagram"@),
        !text::starts(word + tail, "erDiagram"@),
        !text::starts(word + tail, "requirementDiagram"@),
        !text::starts(word + tail, "quadrantChart"@),
        !text::starts(word + tail, "gitGraph"@),
        !text::starts(word + tail, "C4Context"@),
        !text::starts(word + tail, "C4Container"@),
        !text::starts(word + tail, "C4Component"@),
        !text::starts(word + tail, "C4Dynamic"@),
        !text::starts(word + tail, "C4Deployment"@),
        !text::starts(word + tail, "flowchart-elk"@),
        !text::starts(word + tail, "xychart"@),
        !text::starts(word + tail, "sankey"@),
        !text::starts(word + tail, "zenuml"@),
        !text::starts(word + tail, "eventmodeling"@),
        !text::starts(word + tail, "architecture-beta"@),
        !text::starts(word + tail, "block-beta"@),
        !text::starts(word + tail, "packet-beta"@),
        !text::starts(word + tail, "radar-beta"@),
        !text::starts(word + tail, "treemap-beta"@),
        !text::starts(word + tail, "treeView-beta"@),
        !text::starts(word + tail, "venn-beta"@),
        !text::starts(word + tail, "swimlane-beta"@),
        !text::starts(word + tail, "ishikawa-beta"@),
        !text::starts(word + tail, "railroad-"@),
        !text::starts(word + tail, "wardley-beta"@),
        !text::starts(word + tail, "cynefin-beta"@),
        word != "graph"@ && word != "flowchart"@ && word != "pie"@,
        word != "gantt"@,
        word != "journey"@,
        word != "timeline"@,
        word != "mindmap"@,
        word != "kanban"@,
        word != "info"@,
        word != "block"@,
        word != "packet"@,
        word != "architecture"@,
        word != "treemap"@,
        word != "ishikawa"@,
    ensures
        !sniff::mermaid_header(word + tail),
{
    lemma_line(word, tail);
    lemma_lists(word);
    assert forall|i: int| 0 <= i < 29 implies !text::starts(
        word + tail,
        #[trigger] sniff::DISTINCTIVE@[i]@,
    ) by {
        lemma_lists(sniff::DISTINCTIVE@[i]@);
    }
}

// ---------------------------------------------------------------------------------------------
// Formats.

/// The first line that says something decides: a header or a directive makes the document
/// Mermaid, and anything else makes it Markdown. What follows does not matter.
pub proof fn the_first_telling_line_decides(
    line: Seq<char>,
    later: Seq<Seq<char>>,
    at_start: bool,
    complete: bool,
)
    requires
        text::trimmed(line).len() > 0,
        text::starts(text::trimmed(line), "%%"@) ==> text::starts(text::trimmed(line), "%%{"@),
        at_start ==> text::trimmed(line) != "---"@,
    ensures
        sniff::sniffed(seq![line] + later, at_start, complete) == Some(
            if text::starts(text::trimmed(line), "%%{"@) || sniff::mermaid_header(
                text::trimmed(line),
            ) {
                Format::Mermaid
            } else {
                Format::Markdown
            },
        ),
{
    assert((seq![line] + later)[0] == line);
}

/// Blank lines and comments decide nothing.
pub proof fn blank_lines_and_comments_are_skipped(
    line: Seq<char>,
    later: Seq<Seq<char>>,
    at_start: bool,
    complete: bool,
)
    requires
        text::trimmed(line).len() == 0 || (text::starts(text::trimmed(line), "%%"@)
            && !text::starts(text::trimmed(line), "%%{"@)),
    ensures
        sniff::sniffed(seq![line] + later, at_start, complete) == sniff::sniffed(
            later,
            at_start,
            complete,
        ),
        sniff::sniffed(Seq::empty(), at_start, complete) is None,
{
    assert((seq![line] + later)[0] == line);
    assert((seq![line] + later).drop_first() =~= later);
}

/// A block between rules at the start is skipped, whatever it holds. Without its end it decides
/// nothing until the input is complete; then the rule is one of Markdown.
pub proof fn frontmatter_is_skipped(
    rule: Seq<char>,
    block: Seq<Seq<char>>,
    end: Seq<char>,
    later: Seq<Seq<char>>,
    complete: bool,
)
    requires
        text::trimmed(rule) == "---"@,
        text::trimmed(end) == "---"@,
        forall|i: int| 0 <= i < block.len() ==> text::trimmed(#[trigger] block[i]) != "---"@,
    ensures
        sniff::sniffed(seq![rule] + block + seq![end] + later, true, complete) == sniff::sniffed(
            later,
            false,
            complete,
        ),
        sniff::sniffed(seq![rule] + block, true, complete) == if complete {
            Some(Format::Markdown)
        } else {
            None
        },
{
    reveal_strlit("---");
    reveal_strlit("%%");
    reveal_strlit("%%{");
    let line = text::trimmed(rule);
    assert(line.len() == 3);
    if text::starts(line, "%%"@) {
        assert(line.take(2)[0] == line[0]);
    }
    let all = seq![rule] + block + seq![end] + later;
    let rest = block + seq![end] + later;
    assert(all[0] == rule);
    assert(all.drop_first() =~= rest);
    lemma_rule(block, seq![end] + later);
    assert(block + (seq![end] + later) =~= rest);
    let n = block.len() as int;
    assert((seq![end] + later)[0] == end);
    assert(sniff::rule_at(seq![end] + later) == 0);
    assert(rest.skip(n + 1) =~= later);
    let open = seq![rule] + block;
    assert(open[0] == rule);
    assert(open.drop_first() =~= block);
    lemma_rule(block, Seq::empty());
    assert(block + Seq::<Seq<char>>::empty() =~= block);
}

proof fn lemma_rule(block: Seq<Seq<char>>, rest: Seq<Seq<char>>)
    requires
        forall|i: int| 0 <= i < block.len() ==> text::trimmed(#[trigger] block[i]) != "---"@,
    ensures
        sniff::rule_at(block + rest) == block.len() + sniff::rule_at(rest),
    decreases block.len(),
{
    if block.len() == 0 {
        assert(block + rest =~= rest);
    } else {
        let later = block.drop_first();
        assert((block + rest)[0] == block[0]);
        assert((block + rest).drop_first() =~= later + rest);
        assert forall|i: int| 0 <= i < later.len() implies text::trimmed(#[trigger] later[i])
            != "---"@ by {
            assert(later[i] == block[i + 1]);
        }
        lemma_rule(later, rest);
    }
}

} // verus!
