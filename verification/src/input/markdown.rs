//! Extraction of `mermaid` fenced code blocks from Markdown.
//!
//! A line-based scanner rather than a full CommonMark parser, so the same code serves complete
//! files and streams that are still arriving.

use vstd::prelude::*;
use vstd::slice::slice_subrange;

use crate::text;

verus! {

#[derive(Clone, Debug, PartialEq, Eq)]
pub struct Fence {
    pub text: String,
    /// Zero-based line on which the fence content starts.
    pub first_line: usize,
    /// The nearest heading above the fence.
    pub caption: Option<String>,
}

/// What a [`Fence`] holds.
pub struct FenceModel {
    pub text: Seq<char>,
    pub first_line: nat,
    pub caption: Option<Seq<char>>,
}

impl View for Fence {
    type V = FenceModel;

    open spec fn view(&self) -> FenceModel {
        FenceModel {
            text: self.text@,
            first_line: self.first_line as nat,
            caption: text::optional(self.caption),
        }
    }
}

/// A fence that has been opened and not closed yet.
pub struct OpenModel {
    pub marker: char,
    pub len: nat,
    pub indent: nat,
    pub mermaid: bool,
    pub fence: FenceModel,
}

/// What a [`Scanner`] remembers of the lines it has seen.
pub struct ScannerModel {
    /// How many lines it has seen.
    pub line: nat,
    /// The nearest heading.
    pub heading: Option<Seq<char>>,
    pub open: Option<OpenModel>,
}

#[derive(Debug)]
pub struct Scanner {
    line: usize,
    heading: Option<String>,
    open: Option<Open>,
}

#[derive(Debug)]
struct Open {
    marker: char,
    len: usize,
    indent: usize,
    mermaid: bool,
    fence: Fence,
}

impl Open {
    spec fn model(self) -> OpenModel {
        OpenModel {
            marker: self.marker,
            len: self.len as nat,
            indent: self.indent as nat,
            mermaid: self.mermaid,
            fence: self.fence@,
        }
    }
}

impl View for Scanner {
    type V = ScannerModel;

    closed spec fn view(&self) -> ScannerModel {
        ScannerModel {
            line: self.line as nat,
            heading: text::optional(self.heading),
            open: match self.open {
                Some(open) => Some(open.model()),
                None => None,
            },
        }
    }
}

// ---------------------------------------------------------------------------------------------
// Fences and headings.

/// An opening fence: its marker, length, indentation and info string.
pub open spec fn opening_fence(line: Seq<char>) -> Option<(char, nat, nat, Seq<char>)> {
    let indent = text::run(line, ' ');
    let rest = line.skip(indent as int);
    if indent > 3 || rest.len() == 0 || (rest[0] != '`' && rest[0] != '~') {
        None
    } else {
        let len = text::run(rest, rest[0]);
        let info = text::trimmed(rest.skip(len as int));
        if len < 3 || (rest[0] == '`' && info.contains('`')) {
            None
        } else {
            Some((rest[0], len, indent, info))
        }
    }
}

/// Whether `line` closes a fence of `len` markers.
pub open spec fn closes(line: Seq<char>, marker: char, len: nat) -> bool {
    let indent = text::run(line, ' ');
    let rest = line.skip(indent as int);
    let markers = text::run(rest, marker);
    indent <= 3 && markers >= len && text::trimmed(rest.skip(markers as int)).len() == 0
}

/// `s` without `c` at its start.
pub open spec fn without_first(s: Seq<char>, c: char) -> Seq<char> {
    if s.len() > 0 && s[0] == c {
        s.drop_first()
    } else {
        s
    }
}

/// `s` without `c` at its end.
pub open spec fn without_last(s: Seq<char>, c: char) -> Seq<char> {
    if s.len() > 0 && s.last() == c {
        s.drop_last()
    } else {
        s
    }
}

/// Whether an info string names Mermaid: `mermaid` is its first word, also as `{mermaid}`.
pub open spec fn names_mermaid(info: Seq<char>) -> bool {
    text::same_letters(
        without_last(without_first(info.take(text::word_end(info, ',') as int), '{'), '}'),
        "mermaid"@,
    )
}

/// `line` without up to `indent` spaces at its start.
pub open spec fn unindented(line: Seq<char>, indent: nat) -> Seq<char> {
    if text::run(line, ' ') < indent {
        line.skip(text::run(line, ' ') as int)
    } else {
        line.skip(indent as int)
    }
}

/// Whether `s` is empty or continues with a space or tab.
pub open spec fn breaks_off(s: Seq<char>) -> bool {
    s.len() == 0 || s[0] == ' ' || s[0] == '\t'
}

/// The title of a heading: one to six `#`, then the title with closing `#` taken off.
pub open spec fn title(line: Seq<char>) -> Option<Seq<char>> {
    let indent = text::run(line, ' ');
    let rest = line.skip(indent as int);
    let level = text::run(rest, '#');
    let after = rest.skip(level as int);
    let whole = text::trimmed(after);
    let open = text::without_trailing(whole, '#');
    let title = if open.len() == 0 || open.last() == ' ' || open.last() == '\t' {
        text::trimmed_end(open)
    } else {
        whole
    };
    if indent <= 3 && 1 <= level <= 6 && breaks_off(after) && title.len() > 0 {
        Some(title)
    } else {
        None
    }
}

// ---------------------------------------------------------------------------------------------
// Scanning.

/// A scanner that has seen nothing.
pub open spec fn fresh() -> ScannerModel {
    ScannerModel { line: 0, heading: None, open: None }
}

/// What one line does: the scanner after it, and the `mermaid` fence it closed.
pub open spec fn scan_line(m: ScannerModel, raw: Seq<char>) -> (ScannerModel, Option<FenceModel>) {
    let line = text::without_return(raw);
    match m.open {
        Some(open) => if closes(line, open.marker, open.len) {
            (
                ScannerModel { line: m.line + 1, open: None, ..m },
                if open.mermaid {
                    Some(open.fence)
                } else {
                    None
                },
            )
        } else if open.mermaid {
            let fence = FenceModel {
                text: (open.fence.text + unindented(line, open.indent)).push('\n'),
                ..open.fence
            };
            (
                ScannerModel { line: m.line + 1, open: Some(OpenModel { fence, ..open }), ..m },
                None,
            )
        } else {
            (ScannerModel { line: m.line + 1, ..m }, None)
        },
        None => match opening_fence(line) {
            Some((marker, len, indent, info)) => {
                let fence = FenceModel {
                    text: Seq::empty(),
                    first_line: m.line + 1,
                    caption: m.heading,
                };
                let open = OpenModel { marker, len, indent, mermaid: names_mermaid(info), fence };
                (ScannerModel { line: m.line + 1, open: Some(open), ..m }, None)
            },
            None => match title(line) {
                Some(title) => (
                    ScannerModel { line: m.line + 1, heading: Some(title), ..m },
                    None,
                ),
                None => (ScannerModel { line: m.line + 1, ..m }, None),
            },
        },
    }
}

/// The sequence that holds what an optional value holds.
pub open spec fn one<T>(value: Option<T>) -> Seq<T> {
    match value {
        Some(value) => seq![value],
        None => Seq::empty(),
    }
}

/// What several lines do, one after another.
pub open spec fn scan_lines(m: ScannerModel, lines: Seq<Seq<char>>) -> (
    ScannerModel,
    Seq<FenceModel>,
)
    decreases lines.len(),
{
    if lines.len() == 0 {
        (m, Seq::empty())
    } else {
        let (next, fence) = scan_line(m, lines[0]);
        let (last, fences) = scan_lines(next, lines.drop_first());
        (last, one(fence) + fences)
    }
}

/// The fence that the end of the input closes.
pub open spec fn unclosed(m: ScannerModel) -> Option<FenceModel> {
    match m.open {
        Some(open) => if open.mermaid {
            Some(open.fence)
        } else {
            None
        },
        None => None,
    }
}

/// The `mermaid` fences of lines that make up a whole document.
pub open spec fn fences_of(lines: Seq<Seq<char>>) -> Seq<FenceModel> {
    let (m, fences) = scan_lines(fresh(), lines);
    fences + one(unclosed(m))
}

/// Lines can be scanned in batches: a stream and a file give the same fences.
pub proof fn scanning_in_batches(m: ScannerModel, a: Seq<Seq<char>>, b: Seq<Seq<char>>)
    ensures
        scan_lines(m, a + b).0 == scan_lines(scan_lines(m, a).0, b).0,
        scan_lines(m, a + b).1 == scan_lines(m, a).1 + scan_lines(scan_lines(m, a).0, b).1,
    decreases a.len(),
{
    if a.len() == 0 {
        assert(a + b =~= b);
        assert(scan_lines(m, a + b).1 =~= scan_lines(m, a).1 + scan_lines(
            scan_lines(m, a).0,
            b,
        ).1);
    } else {
        let next = scan_line(m, a[0]).0;
        scanning_in_batches(next, a.drop_first(), b);
        assert((a + b).drop_first() =~= a.drop_first() + b);
        assert(scan_lines(m, a + b).1 =~= scan_lines(m, a).1 + scan_lines(
            scan_lines(m, a).0,
            b,
        ).1);
    }
}

/// The scanner's line number counts the lines it was given.
pub proof fn lines_are_counted(m: ScannerModel, lines: Seq<Seq<char>>)
    ensures
        scan_lines(m, lines).0.line == m.line + lines.len(),
    decreases lines.len(),
{
    if lines.len() > 0 {
        lines_are_counted(scan_line(m, lines[0]).0, lines.drop_first());
    }
}

impl Scanner {
    pub fn new() -> (scanner: Scanner)
        ensures
            scanner@ == fresh(),
    {
        Scanner { line: 0, heading: None, open: None }
    }

    /// Feeds one line without its line ending. Returns the `mermaid` fence this line closed.
    pub fn push_line(&mut self, line: &str) -> (fence: Option<Fence>)
        requires
            old(self)@.line < usize::MAX,
        ensures
            final(self)@ == scan_line(old(self)@, line@).0,
            fence is Some <==> scan_line(old(self)@, line@).1 is Some,
            fence is Some ==> fence.unwrap()@ == scan_line(old(self)@, line@).1.unwrap(),
    {
        let line = text::chars(line);
        self.push(&line)
    }

    /// [`Scanner::push_line`] on characters.
    pub fn push(&mut self, raw: &[char]) -> (fence: Option<Fence>)
        requires
            old(self)@.line < usize::MAX,
        ensures
            final(self)@ == scan_line(old(self)@, raw@).0,
            fence is Some <==> scan_line(old(self)@, raw@).1 is Some,
            fence is Some ==> fence.unwrap()@ == scan_line(old(self)@, raw@).1.unwrap(),
    {
        let line = text::strip_return(raw);
        let number: usize = self.line;
        self.line = number + 1;
        match self.open.take() {
            Some(mut open) => {
                if closing(line, open.marker, open.len) {
                    if open.mermaid {
                        Some(open.fence)
                    } else {
                        None
                    }
                } else {
                    if open.mermaid {
                        text::push_chars(&mut open.fence.text, strip_indent(line, open.indent));
                        open.fence.text.push('\n');
                    }
                    self.open = Some(open);
                    None
                }
            },
            None => {
                match fence_opening(line) {
                    Some((marker, len, indent, info)) => {
                        let fence = Fence {
                            text: String::new(),
                            first_line: number + 1,
                            caption: text::clone_optional(&self.heading),
                        };
                        self.open = Some(
                            Open { marker, len, indent, mermaid: info_names_mermaid(info), fence },
                        );
                    },
                    None => {
                        if let Some(title) = heading(line) {
                            self.heading = Some(title);
                        }
                    },
                }
                None
            },
        }
    }

    /// Ends the input. A `mermaid` fence that is still open runs to the end of the document.
    pub fn finish(self) -> (fence: Option<Fence>)
        ensures
            fence is Some <==> unclosed(self@) is Some,
            fence is Some ==> fence.unwrap()@ == unclosed(self@).unwrap(),
    {
        match self.open {
            Some(open) => if open.mermaid {
                Some(open.fence)
            } else {
                None
            },
            None => None,
        }
    }
}

/// The models of several fences.
pub open spec fn models(fences: Seq<Fence>) -> Seq<FenceModel> {
    fences.map_values(|f: Fence| f@)
}

/// The `mermaid` fences of a document.
pub fn extract(text: &str) -> (fences: Vec<Fence>)
    ensures
        models(fences@) == fences_of(text::lines(text@)),
{
    let all = text::chars(text);
    extract_chars(&all)
}

/// [`extract`] on characters.
pub fn extract_chars(all: &[char]) -> (fences: Vec<Fence>)
    ensures
        models(fences@) == fences_of(text::lines(all@)),
{
    let mut scanner = Scanner::new();
    let mut fences: Vec<Fence> = Vec::new();
    let mut rest = all;
    let total: usize = all.len();
    proof {
        assert(all@.len() == total);
        text::lemma_lines_len(all@);
        assert(models(fences@) + scan_lines(fresh(), text::lines(all@)).1 =~= scan_lines(
            fresh(),
            text::lines(all@),
        ).1);
    }
    while rest.len() > 0
        invariant
            scanner@.line + text::lines(rest@).len() <= usize::MAX,
            scan_lines(fresh(), text::lines(all@)).0 == scan_lines(scanner@, text::lines(rest@)).0,
            scan_lines(fresh(), text::lines(all@)).1 == models(fences@) + scan_lines(
                scanner@,
                text::lines(rest@),
            ).1,
        decreases rest@.len(),
    {
        let (line, next) = text::first_line(rest);
        let ghost before = models(fences@);
        let ghost was = scanner@;
        proof {
            assert((seq![line@] + text::lines(next@)).drop_first() =~= text::lines(next@));
        }
        let closed = scanner.push(line);
        if let Some(fence) = closed {
            fences.push(fence);
        }
        proof {
            let one_more = one(scan_line(was, line@).1);
            let later = scan_lines(scanner@, text::lines(next@)).1;
            assert(models(fences@) =~= before + one_more);
            assert(before + (one_more + later) =~= (before + one_more) + later);
        }
        rest = next;
    }
    proof {
        assert(models(fences@) + Seq::<FenceModel>::empty() =~= models(fences@));
    }
    let ghost found = models(fences@);
    let ghost last = scanner@;
    let rest = scanner.finish();
    if let Some(fence) = rest {
        fences.push(fence);
    }
    assert(models(fences@) =~= found + one(unclosed(last)));
    fences
}

/// Recognizes an opening fence, returning its marker, length, indentation and info string.
pub fn opening(line: &str) -> (r: Option<(char, usize, usize, String)>)
    ensures
        r is Some <==> opening_fence(line@) is Some,
        r is Some ==> ({
            let (marker, len, indent, info) = r.unwrap();
            opening_fence(line@).unwrap() == (marker, len as nat, indent as nat, info@)
        }),
{
    let line = text::chars(line);
    match fence_opening(&line) {
        Some((marker, len, indent, info)) => Some((marker, len, indent, text::string(info))),
        None => None,
    }
}

fn fence_opening(line: &[char]) -> (r: Option<(char, usize, usize, &[char])>)
    ensures
        r is Some <==> opening_fence(line@) is Some,
        r is Some ==> ({
            let (marker, len, indent, info) = r.unwrap();
            opening_fence(line@).unwrap() == (marker, len as nat, indent as nat, info@)
        }),
{
    let indent: usize = text::leading(line, ' ');
    if indent > 3 {
        return None;
    }
    let rest = slice_subrange(line, indent, line.len());
    assert(rest@ =~= line@.skip(indent as int));
    if rest.len() == 0 {
        return None;
    }
    let marker = rest[0];
    if marker != '`' && marker != '~' {
        return None;
    }
    let len: usize = text::leading(rest, marker);
    let after = slice_subrange(rest, len, rest.len());
    assert(after@ =~= rest@.skip(len as int));
    let info = text::trim(after);
    if len < 3 {
        return None;
    }
    if marker == '`' {
        let at: usize = text::position(info, '`');
        proof {
            text::lemma_find(info@, '`');
        }
        if at < info.len() {
            assert(info@.contains('`'));
            return None;
        }
        assert(!info@.contains('`'));
    }
    Some((marker, len, indent, info))
}

/// Whether `line` closes a fence of `len` markers.
pub fn is_closing(line: &str, marker: char, len: usize) -> (r: bool)
    ensures
        r == closes(line@, marker, len as nat),
{
    let line = text::chars(line);
    closing(&line, marker, len)
}

fn closing(line: &[char], marker: char, len: usize) -> (r: bool)
    ensures
        r == closes(line@, marker, len as nat),
{
    let indent: usize = text::leading(line, ' ');
    if indent > 3 {
        return false;
    }
    let rest = slice_subrange(line, indent, line.len());
    assert(rest@ =~= line@.skip(indent as int));
    let count: usize = text::leading(rest, marker);
    let after = slice_subrange(rest, count, rest.len());
    assert(after@ =~= rest@.skip(count as int));
    count >= len && text::trim(after).len() == 0
}

/// Accepts `mermaid` as the info string's first word, also in the `{mermaid}` form.
pub fn is_mermaid_info(info: &str) -> (r: bool)
    ensures
        r == names_mermaid(info@),
{
    let info = text::chars(info);
    info_names_mermaid(&info)
}

fn info_names_mermaid(info: &[char]) -> (r: bool)
    ensures
        r == names_mermaid(info@),
{
    let end: usize = text::first_word(info, ',');
    let word = slice_subrange(info, 0, end);
    assert(word@ =~= info@.take(end as int));
    let word = if word.len() > 0 && word[0] == '{' {
        let inner = slice_subrange(word, 1, word.len());
        assert(inner@ =~= word@.drop_first());
        inner
    } else {
        word
    };
    let word = if word.len() > 0 && word[word.len() - 1] == '}' {
        let inner = slice_subrange(word, 0, word.len() - 1);
        assert(inner@ =~= word@.drop_last());
        inner
    } else {
        word
    };
    text::is_text_ignoring_case(word, "mermaid")
}

/// `line` without up to `indent` spaces at its start.
pub fn strip_indent(line: &[char], indent: usize) -> (r: &[char])
    ensures
        r@ == unindented(line@, indent as nat),
{
    let own: usize = text::leading(line, ' ');
    let cut: usize = if own < indent {
        own
    } else {
        indent
    };
    let r = slice_subrange(line, cut, line.len());
    assert(r@ =~= line@.skip(cut as int));
    r
}

/// The title, when `line` is a heading.
pub fn heading(line: &[char]) -> (r: Option<String>)
    ensures
        text::optional(r) == title(line@),
{
    let indent: usize = text::leading(line, ' ');
    if indent > 3 {
        return None;
    }
    let rest = slice_subrange(line, indent, line.len());
    assert(rest@ =~= line@.skip(indent as int));
    let level: usize = text::leading(rest, '#');
    let after = slice_subrange(rest, level, rest.len());
    assert(after@ =~= rest@.skip(level as int));
    if level == 0 || level > 6 || !(after.len() == 0 || after[0] == ' ' || after[0] == '\t') {
        return None;
    }
    let whole = text::trim(after);
    let open = text::trim_trailing(whole, '#');
    let title = if open.len() == 0 || open[open.len() - 1] == ' ' || open[open.len() - 1] == '\t' {
        text::trim_end(open)
    } else {
        whole
    };
    if title.len() == 0 {
        return None;
    }
    Some(text::string(title))
}

} // verus!
