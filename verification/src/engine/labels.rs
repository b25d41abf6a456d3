//! Converting Mermaid's HTML labels to SVG text in batches.
//!
//! Most diagram types put their labels in HTML inside `<foreignObject>`, which resvg can't draw,
//! and merman's resvg-safe pipeline converts them to SVG text. The conversion matches CSS for
//! every label within a fixed work budget that about a thousand labels use up, so an ER diagram
//! of 30 tables fails. Here merman's converter gets a batch of labels at a time, in a document
//! holding only those labels, their ancestors and the stylesheets, which is everything the
//! conversion reads. The text comes back in document order, the labels are removed, and merman's
//! own pass finds nothing left to convert.

use vstd::prelude::*;
use vstd::slice::slice_subrange;

use merman::svg::{RenderError, SvgPostprocessContext};

use crate::text;

verus! {

/// Labels per batch, well within the conversion's budget for typical labels.
pub const BATCH: usize = 256;

/// merman's name for the conversion's CSS matching budget.
pub const MATCH_BUDGET: &'static str = "svg_fallback_selector_index";

/// A part of a document, in characters from its start.
#[derive(Clone, Copy, Debug, PartialEq, Eq, Structural)]
pub struct Span {
    pub start: usize,
    pub end: usize,
}

/// A start tag.
#[derive(Clone, Copy, Debug, PartialEq, Eq, Structural)]
pub struct Element {
    pub tag: Span,
    pub name: Span,
}

#[derive(Debug)]
pub struct Label {
    pub span: Span,
    /// Ancestors below the root, outermost first, as indexes into `Document::elements`.
    pub ancestors: Vec<usize>,
}

/// Where a document's labels, their ancestors and its stylesheets are.
#[derive(Debug)]
pub struct Document {
    /// Start tags of the root and of every element with content, in document order.
    pub elements: Vec<Element>,
    pub styles: Vec<Span>,
    pub labels: Vec<Label>,
    /// Where the root element's end tag starts.
    pub end: usize,
}

/// What a [`Label`] holds.
pub struct LabelModel {
    pub span: Span,
    pub ancestors: Seq<usize>,
}

/// What a [`Document`] holds.
pub struct DocumentModel {
    pub elements: Seq<Element>,
    pub styles: Seq<Span>,
    pub labels: Seq<LabelModel>,
    pub end: usize,
}

impl View for Label {
    type V = LabelModel;

    open spec fn view(&self) -> LabelModel {
        LabelModel { span: self.span, ancestors: self.ancestors@ }
    }
}

/// The models of several labels.
pub open spec fn label_models(labels: Seq<Label>) -> Seq<LabelModel> {
    labels.map_values(|l: Label| l@)
}

impl View for Document {
    type V = DocumentModel;

    open spec fn view(&self) -> DocumentModel {
        DocumentModel {
            elements: self.elements@,
            styles: self.styles@,
            labels: label_models(self.labels@),
            end: self.end,
        }
    }
}

/// The characters of a part of a document.
pub open spec fn part(svg: Seq<char>, span: Span) -> Seq<char> {
    svg.subrange(span.start as int, span.end as int)
}

/// The part from `start` to `end`.
pub open spec fn span(start: int, end: int) -> Span {
    Span { start: start as usize, end: end as usize }
}

// ---------------------------------------------------------------------------------------------
// Pieces of markup.

/// A piece of markup: what starts at a `<`, and where it ends.
pub enum Markup {
    /// A comment, a declaration or an instruction.
    Skip { end: usize },
    EndTag { name: Span, end: usize },
    /// A whole `<foreignObject>` element.
    Label { end: usize },
    /// A whole `<style>` element.
    Style { end: usize },
    /// Any other start tag, `empty` when it ends the element too.
    StartTag { name: Span, empty: bool, end: usize },
}

/// How long a tag is, up to the `>` that ends it outside quoted values.
pub open spec fn tag_length(s: Seq<char>, quote: Option<char>) -> Option<int>
    decreases s.len(),
{
    if s.len() == 0 {
        None
    } else if quote is None && s[0] == '>' {
        Some(1)
    } else {
        let next = match quote {
            Some(open) => if s[0] == open {
                None
            } else {
                quote
            },
            None => if s[0] == '"' || s[0] == '\'' {
                Some(s[0])
            } else {
                None
            },
        };
        match tag_length(s.drop_first(), next) {
            Some(n) => Some(n + 1),
            None => None,
        }
    }
}

/// Whether a tag's name ends at `c`.
pub open spec fn ends_name(c: char) -> bool {
    c == ' ' || c == '\t' || c == '\n' || c == '\u{c}' || c == '\r' || c == '/' || c == '>'
}

/// How long the name at the start of `s` is.
pub open spec fn name_length(s: Seq<char>) -> int
    decreases s.len(),
{
    if s.len() == 0 || ends_name(s[0]) {
        0
    } else {
        1 + name_length(s.drop_first())
    }
}

/// Where the element ends whose start tag ends at `close`: after the first `end_tag`.
pub open spec fn element_end(svg: Seq<char>, close: int, end_tag: Seq<char>) -> Option<int> {
    match text::seek(svg.skip(close), end_tag) {
        Some(n) => Some(close + n + end_tag.len()),
        None => None,
    }
}

/// The start tag at `start`, or the whole label or stylesheet that it starts.
pub open spec fn start_markup(svg: Seq<char>, start: int) -> Option<Markup> {
    let rest = svg.skip(start);
    match tag_length(rest, None) {
        None => None,
        Some(length) => {
            let close = start + length;
            let name = span(start + 1, start + 1 + name_length(rest.skip(1)));
            let own = part(svg, name);
            let empty = svg[close - 2] == '/';
            if (text::same_letters(own, "foreignObject"@) && own != "foreignObject"@)
                || (text::same_letters(own, "style"@) && own != "style"@) {
                None
            } else if own == "foreignObject"@ {
                match element_end(svg, close, "</foreignObject>"@) {
                    Some(end) if !empty => Some(Markup::Label { end: end as usize }),
                    _ => None,
                }
            } else if own == "style"@ && !empty {
                match element_end(svg, close, "</style>"@) {
                    Some(end) => Some(Markup::Style { end: end as usize }),
                    None => None,
                }
            } else {
                Some(Markup::StartTag { name, empty, end: close as usize })
            }
        },
    }
}

/// A piece of markup that ends with the first `mark`.
pub open spec fn skipped(svg: Seq<char>, start: int, mark: Seq<char>) -> Option<Markup> {
    match element_end(svg, start, mark) {
        Some(end) => Some(Markup::Skip { end: end as usize }),
        None => None,
    }
}

/// The piece of markup that starts at the `<` at `start`.
pub open spec fn markup_at(svg: Seq<char>, start: int) -> Option<Markup> {
    let rest = svg.skip(start);
    let close = text::find(rest, '>');
    if text::starts(rest, "<!--"@) {
        skipped(svg, start, "-->"@)
    } else if text::starts(rest, "<![CDATA["@) {
        skipped(svg, start, "]]>"@)
    } else if text::starts(rest, "<!"@) || text::starts(rest, "<?"@) {
        skipped(svg, start, ">"@)
    } else if text::starts(rest, "</"@) {
        if close < rest.len() {
            let name = text::trimmed_end(rest.subrange(2, close as int));
            Some(
                Markup::EndTag {
                    name: span(start + 2, start + 2 + name.len()),
                    end: (start + close + 1) as usize,
                },
            )
        } else {
            None
        }
    } else {
        start_markup(svg, start)
    }
}

/// Where a piece of markup ends.
pub open spec fn markup_end(m: Markup) -> int {
    match m {
        Markup::Skip { end } => end as int,
        Markup::EndTag { name, end } => end as int,
        Markup::Label { end } => end as int,
        Markup::Style { end } => end as int,
        Markup::StartTag { name, empty, end } => end as int,
    }
}

pub proof fn lemma_tag_length(s: Seq<char>, quote: Option<char>)
    ensures
        tag_length(s, quote) matches Some(n) ==> 0 < n <= s.len() && s[n - 1] == '>',
    decreases s.len(),
{
    if s.len() > 0 && !(quote is None && s[0] == '>') {
        let next = match quote {
            Some(open) => if s[0] == open {
                None
            } else {
                quote
            },
            None => if s[0] == '"' || s[0] == '\'' {
                Some(s[0])
            } else {
                None
            },
        };
        lemma_tag_length(s.drop_first(), next);
    }
}

pub proof fn lemma_name_length(s: Seq<char>)
    ensures
        0 <= name_length(s) <= s.len(),
    decreases s.len(),
{
    if s.len() > 0 && !ends_name(s[0]) {
        lemma_name_length(s.drop_first());
    }
}

/// A piece of markup lies within its document.
pub proof fn lemma_markup(svg: Seq<char>, start: int)
    requires
        0 <= start < svg.len() <= usize::MAX,
        svg[start] == '<',
    ensures
        markup_at(svg, start) matches Some(m) ==> {
            &&& start < markup_end(m) <= svg.len()
            &&& m matches Markup::EndTag { name, end } ==> name.start <= name.end <= svg.len()
            &&& m matches Markup::StartTag { name, empty, end } ==> name.start <= name.end
                <= svg.len()
        },
{
    reveal_strlit("-->");
    reveal_strlit("]]>");
    reveal_strlit(">");
    reveal_strlit("</");
    reveal_strlit("</style>");
    reveal_strlit("</foreignObject>");
    let rest = svg.skip(start);
    text::lemma_seek(rest, "-->"@);
    text::lemma_seek(rest, "]]>"@);
    text::lemma_seek(rest, ">"@);
    text::lemma_find(rest, '>');
    if text::starts(rest, "</"@) {
        assert(rest.take(2)[1] == rest[1]);
        let close = text::find(rest, '>') as int;
        if close < rest.len() {
            assert(close >= 2);
            text::lemma_trimmed_end(rest.subrange(2, close));
        }
    }
    lemma_tag_length(rest, None);
    lemma_name_length(rest.skip(1));
    if let Some(length) = tag_length(rest, None) {
        text::lemma_seek(svg.skip(start + length), "</style>"@);
        text::lemma_seek(svg.skip(start + length), "</foreignObject>"@);
    }
}

// ---------------------------------------------------------------------------------------------
// The structure of a document.

/// What is known of a document's first pieces of markup.
pub struct Reading {
    pub elements: Seq<Element>,
    /// The elements that are open, outermost first.
    pub open: Seq<usize>,
    pub styles: Seq<Span>,
    pub labels: Seq<LabelModel>,
    pub end: Option<usize>,
}

/// What is known at the start.
pub open spec fn unread() -> Reading {
    Reading {
        elements: Seq::empty(),
        open: Seq::empty(),
        styles: Seq::empty(),
        labels: Seq::empty(),
        end: None,
    }
}

/// What one more piece of markup tells, or `None` where it does not fit: the root is one `svg`
/// element with content, and end tags match.
pub open spec fn read_piece(r: Reading, svg: Seq<char>, start: int, m: Markup) -> Option<Reading> {
    match m {
        Markup::Skip { end } => Some(r),
        Markup::EndTag { name, end } => if r.open.len() == 0 || part(
            svg,
            r.elements[r.open.last() as int].name,
        ) != part(svg, name) {
            None
        } else {
            Some(
                Reading {
                    open: r.open.drop_last(),
                    end: if r.open.len() == 1 {
                        Some(start as usize)
                    } else {
                        r.end
                    },
                    ..r
                },
            )
        },
        Markup::Label { end } => if r.open.len() == 0 {
            None
        } else {
            Some(
                Reading {
                    labels: r.labels.push(
                        LabelModel { span: span(start, end as int), ancestors: r.open.skip(1) },
                    ),
                    ..r
                },
            )
        },
        Markup::Style { end } => if r.open.len() == 0 {
            None
        } else {
            Some(Reading { styles: r.styles.push(span(start, end as int)), ..r })
        },
        Markup::StartTag { name, empty, end } => if r.open.len() == 0 && (r.end is Some || part(
            svg,
            name,
        ) != "svg"@ || empty) {
            None
        } else if empty {
            Some(r)
        } else {
            Some(
                Reading {
                    open: r.open.push(r.elements.len() as usize),
                    elements: r.elements.push(Element { tag: span(start, end as int), name }),
                    ..r
                },
            )
        },
    }
}

/// The document that is known when everything has been read: all elements are closed.
pub open spec fn whole(r: Reading) -> Option<DocumentModel> {
    match r.end {
        Some(end) if r.open.len() == 0 => Some(
            DocumentModel { elements: r.elements, styles: r.styles, labels: r.labels, end },
        ),
        _ => None,
    }
}

/// The document that the markup from `at` on completes.
pub open spec fn read_from(r: Reading, svg: Seq<char>, at: int) -> Option<DocumentModel>
    decreases svg.len() - at,
{
    let start = at + text::find(svg.skip(at), '<');
    if start >= svg.len() {
        whole(r)
    } else {
        match markup_at(svg, start) {
            None => None,
            Some(m) => match read_piece(r, svg, start, m) {
                None => None,
                Some(next) => if at < markup_end(m) <= svg.len() {
                    read_from(next, svg, markup_end(m))
                } else {
                    None
                },
            },
        }
    }
}

/// Whether a part lies within the first `n` characters.
pub open spec fn within(span: Span, n: int) -> bool {
    span.start <= span.end <= n
}

/// Whether labels lie in order within the first `n` characters, and name elements there are.
pub open spec fn in_order(labels: Seq<LabelModel>, elements: int, n: int) -> bool {
    &&& forall|i: int| 0 <= i < labels.len() ==> within((#[trigger] labels[i]).span, n)
    &&& forall|i: int, j: int|
        0 <= i < j < labels.len() ==> (#[trigger] labels[i]).span.end <= (
        #[trigger] labels[j]).span.start
    &&& forall|i: int, k: int|
        0 <= i < labels.len() && 0 <= k < labels[i].ancestors.len()
            ==> #[trigger] labels[i].ancestors[k] < elements
}

/// Whether what is known lies within the first `at` of `n` characters.
pub open spec fn sound(r: Reading, n: int, at: int) -> bool {
    &&& forall|i: int| 0 <= i < r.elements.len() ==> within((#[trigger] r.elements[i]).tag, n)
    &&& forall|i: int| 0 <= i < r.elements.len() ==> within((#[trigger] r.elements[i]).name, n)
    &&& forall|i: int| 0 <= i < r.styles.len() ==> within(#[trigger] r.styles[i], n)
    &&& forall|i: int| 0 <= i < r.open.len() ==> (#[trigger] r.open[i]) < r.elements.len()
    &&& in_order(r.labels, r.elements.len() as int, at)
    &&& r.open.len() > 0 ==> r.elements.len() > 0
    &&& r.end matches Some(end) ==> end <= n && r.elements.len() > 0 && (r.open.len() == 0)
        && in_order(r.labels, r.elements.len() as int, end as int)
}

/// Whether a document's parts lie within `n` characters, in order.
pub open spec fn fits(d: DocumentModel, n: int) -> bool {
    &&& d.elements.len() > 0
    &&& forall|i: int| 0 <= i < d.elements.len() ==> within((#[trigger] d.elements[i]).tag, n)
    &&& forall|i: int| 0 <= i < d.elements.len() ==> within((#[trigger] d.elements[i]).name, n)
    &&& forall|i: int| 0 <= i < d.styles.len() ==> within(#[trigger] d.styles[i], n)
    &&& in_order(d.labels, d.elements.len() as int, d.end as int)
    &&& d.end <= n
}

pub proof fn lemma_read_piece(r: Reading, svg: Seq<char>, at: int, start: int, m: Markup)
    requires
        sound(r, svg.len() as int, at),
        0 <= at <= start < svg.len() <= usize::MAX,
        r.elements.len() <= at,
        start < markup_end(m) <= svg.len(),
        m matches Markup::EndTag { name, end } ==> within(name, svg.len() as int),
        m matches Markup::StartTag { name, empty, end } ==> within(name, svg.len() as int),
    ensures
        read_piece(r, svg, start, m) matches Some(next) ==> sound(
            next,
            svg.len() as int,
            markup_end(m),
        ) && next.elements.len() <= markup_end(m),
{
    if let Some(next) = read_piece(r, svg, start, m) {
        let n = svg.len() as int;
        let end = markup_end(m);
        match m {
            Markup::Skip { .. } => {},
            Markup::EndTag { .. } => {},
            Markup::Label { .. } => {
                assert forall|i: int, k: int|
                    0 <= i < next.labels.len() && 0 <= k
                        < next.labels[i].ancestors.len() implies #[trigger] next.labels[i].ancestors[k]
                    < next.elements.len() by {
                    if i == r.labels.len() {
                        assert(next.labels[i].ancestors[k] == r.open[k + 1]);
                    } else {
                        assert(next.labels[i] == r.labels[i]);
                        assert(r.labels[i].ancestors[k] < r.elements.len());
                    }
                }
                assert(in_order(next.labels, next.elements.len() as int, end));
            },
            Markup::Style { .. } => {},
            Markup::StartTag { .. } => {},
        }
    }
}

// ---------------------------------------------------------------------------------------------
// Reading a document.

/// How long the tag at the start of `s` is, up to the `>` outside quoted values.
pub fn tag_end(s: &[char]) -> (r: Option<usize>)
    ensures
        match r {
            Some(n) => tag_length(s@, None) == Some(n as int) && 0 < n <= s@.len(),
            None => tag_length(s@, None) is None,
        },
{
    let mut quote: Option<char> = None;
    let mut i: usize = 0;
    assert(s@.skip(0) =~= s@);
    while i < s.len()
        invariant
            i <= s@.len(),
            match tag_length(s@.skip(i as int), quote) {
                Some(n) => tag_length(s@, None) == Some(i + n),
                None => tag_length(s@, None) is None,
            },
        decreases s@.len() - i,
    {
        let c = s[i];
        assert(s@.skip(i as int).drop_first() =~= s@.skip(i + 1));
        assert(s@.skip(i as int)[0] == c);
        match quote {
            Some(open) => {
                if c == open {
                    quote = None;
                }
            },
            None => {
                if c == '>' {
                    return Some(i + 1);
                }
                if c == '"' || c == '\'' {
                    quote = Some(c);
                }
            },
        }
        i += 1;
    }
    None
}

fn read_name(s: &[char]) -> (n: usize)
    ensures
        n == name_length(s@),
        n <= s@.len(),
{
    let mut i: usize = 0;
    assert(s@.skip(0) =~= s@);
    while i < s.len() && !(s[i] == ' ' || s[i] == '\t' || s[i] == '\n' || s[i] == '\u{c}' || s[i]
        == '\r' || s[i] == '/' || s[i] == '>')
        invariant
            i <= s@.len(),
            name_length(s@) == i + name_length(s@.skip(i as int)),
        decreases s@.len() - i,
    {
        assert(s@.skip(i as int).drop_first() =~= s@.skip(i + 1));
        i += 1;
    }
    i
}

/// Where the element ends whose start tag ends at `close`.
fn find_end(svg: &[char], close: usize, end_tag: &str) -> (r: Option<usize>)
    requires
        close <= svg@.len(),
    ensures
        match r {
            Some(end) => element_end(svg@, close as int, end_tag@) == Some(end as int) && close
                <= end <= svg@.len(),
            None => element_end(svg@, close as int, end_tag@) is None,
        },
{
    let rest = slice_subrange(svg, close, svg.len());
    assert(rest@ =~= svg@.skip(close as int));
    match text::find_text(rest, end_tag) {
        Some(n) => Some(close + n + text::chars(end_tag).len()),
        None => None,
    }
}

fn skip_to(svg: &[char], start: usize, mark: &str) -> (r: Option<Markup>)
    requires
        start <= svg@.len(),
    ensures
        r == skipped(svg@, start as int, mark@),
{
    match find_end(svg, start, mark) {
        Some(end) => Some(Markup::Skip { end }),
        None => None,
    }
}

fn read_start(svg: &[char], start: usize) -> (r: Option<Markup>)
    requires
        start < svg@.len(),
        svg@[start as int] == '<',
    ensures
        r == start_markup(svg@, start as int),
{
    let rest = slice_subrange(svg, start, svg.len());
    assert(rest@ =~= svg@.skip(start as int));
    let length: usize = match tag_end(rest) {
        Some(length) => length,
        None => return None,
    };
    proof {
        lemma_tag_length(rest@, None);
        assert(rest@[0] == '<');
        assert(length >= 2);
    }
    let close: usize = start + length;
    let after = slice_subrange(rest, 1, rest.len());
    assert(after@ =~= rest@.skip(1));
    let name = Span { start: start + 1, end: start + 1 + read_name(after) };
    let own = slice_subrange(svg, name.start, name.end);
    let empty = svg[close - 2] == '/';
    if (text::is_text_ignoring_case(own, "foreignObject") && !text::is_text(own, "foreignObject"))
        || (text::is_text_ignoring_case(own, "style") && !text::is_text(own, "style")) {
        return None;
    }
    if text::is_text(own, "foreignObject") {
        if empty {
            return None;
        }
        match find_end(svg, close, "</foreignObject>") {
            Some(end) => Some(Markup::Label { end }),
            None => None,
        }
    } else if !empty && text::is_text(own, "style") {
        match find_end(svg, close, "</style>") {
            Some(end) => Some(Markup::Style { end }),
            None => None,
        }
    } else {
        Some(Markup::StartTag { name, empty, end: close })
    }
}

fn read_markup(svg: &[char], start: usize) -> (r: Option<Markup>)
    requires
        start < svg@.len(),
        svg@[start as int] == '<',
    ensures
        r == markup_at(svg@, start as int),
{
    let rest = slice_subrange(svg, start, svg.len());
    assert(rest@ =~= svg@.skip(start as int));
    if text::starts_with(rest, "<!--") {
        skip_to(svg, start, "-->")
    } else if text::starts_with(rest, "<![CDATA[") {
        skip_to(svg, start, "]]>")
    } else if text::starts_with(rest, "<!") || text::starts_with(rest, "<?") {
        skip_to(svg, start, ">")
    } else if text::starts_with(rest, "</") {
        let close: usize = text::position(rest, '>');
        if close == rest.len() {
            return None;
        }
        proof {
            reveal_strlit("</");
            text::lemma_find(rest@, '>');
            assert(rest@.take(2)[0] == rest@[0] && rest@.take(2)[1] == rest@[1]);
        }
        let inner = slice_subrange(rest, 2, close);
        let name = text::trim_end(inner);
        proof {
            text::lemma_trimmed_end(inner@);
        }
        Some(
            Markup::EndTag {
                name: Span { start: start + 2, end: start + 2 + name.len() },
                end: start + close + 1,
            },
        )
    } else {
        read_start(svg, start)
    }
}

/// What is known of a document while it is read.
struct Reader {
    elements: Vec<Element>,
    open: Vec<usize>,
    styles: Vec<Span>,
    labels: Vec<Label>,
    end: Option<usize>,
}

impl Reader {
    spec fn model(&self) -> Reading {
        Reading {
            elements: self.elements@,
            open: self.open@,
            styles: self.styles@,
            labels: label_models(self.labels@),
            end: self.end,
        }
    }

    /// Takes in one piece of markup. Returns false where it does not fit.
    fn read(&mut self, svg: &[char], start: usize, m: Markup) -> (ok: bool)
        requires
            start < svg@.len(),
            start < markup_end(m) <= svg@.len(),
            m matches Markup::EndTag { name, end } ==> within(name, svg@.len() as int),
            m matches Markup::StartTag { name, empty, end } ==> within(name, svg@.len() as int),
            sound(old(self).model(), svg@.len() as int, start as int),
            old(self).elements@.len() <= start,
        ensures
            match read_piece(old(self).model(), svg@, start as int, m) {
                Some(next) => ok && final(self).model() == next,
                None => !ok,
            },
    {
        match m {
            Markup::Skip { end } => true,
            Markup::EndTag { name, end } => {
                if self.open.len() == 0 {
                    return false;
                }
                let last: usize = self.open[self.open.len() - 1];
                assert(self.model().open[self.model().open.len() - 1] < self.model().elements.len());
                let element = self.elements[last];
                assert(within(self.model().elements[last as int].name, svg@.len() as int));
                if !text::same(
                    slice_subrange(svg, element.name.start, element.name.end),
                    slice_subrange(svg, name.start, name.end),
                ) {
                    return false;
                }
                let ghost was = self.open@;
                self.open.pop();
                assert(self.open@ =~= was.drop_last());
                if self.open.len() == 0 {
                    self.end = Some(start);
                }
                true
            },
            Markup::Label { end } => {
                if self.open.len() == 0 {
                    return false;
                }
                let ghost before = self.labels@;
                let label = Label { span: Span { start, end }, ancestors: all_but_first(&self.open) };
                self.labels.push(label);
                assert(label_models(self.labels@) =~= label_models(before).push(label@));
                true
            },
            Markup::Style { end } => {
                if self.open.len() == 0 {
                    return false;
                }
                self.styles.push(Span { start, end });
                true
            },
            Markup::StartTag { name, empty, end } => {
                let own = slice_subrange(svg, name.start, name.end);
                if self.open.len() == 0 && (self.end.is_some() || !text::is_text(own, "svg")
                    || empty) {
                    return false;
                }
                if !empty {
                    self.open.push(self.elements.len());
                    self.elements.push(Element { tag: Span { start, end }, name });
                }
                true
            },
        }
    }
}

fn all_but_first(v: &Vec<usize>) -> (r: Vec<usize>)
    requires
        v@.len() > 0,
    ensures
        r@ == v@.skip(1),
{
    let mut r: Vec<usize> = Vec::new();
    let mut i: usize = 1;
    while i < v.len()
        invariant
            1 <= i <= v@.len(),
            r@ == v@.subrange(1, i as int),
        decreases v@.len() - i,
    {
        r.push(v[i]);
        i += 1;
        assert(r@ =~= v@.subrange(1, i as int));
    }
    assert(r@ =~= v@.skip(1));
    r
}

impl Document {
    /// Reads SVG that merman has already validated as well-formed. `None` means the document has
    /// something this simple reader doesn't follow, and it is best left to merman.
    pub fn scan(svg: &str) -> (r: Option<Document>)
        ensures
            match read_from(unread(), svg@, 0) {
                Some(document) => r is Some && r.unwrap()@ == document,
                None => r is None,
            },
            r is Some ==> fits(r.unwrap()@, svg@.len() as int),
    {
        let svg = text::chars(svg);
        Document::scan_chars(&svg)
    }

    /// [`Document::scan`] on characters.
    pub fn scan_chars(svg: &[char]) -> (r: Option<Document>)
        ensures
            match read_from(unread(), svg@, 0) {
                Some(document) => r is Some && r.unwrap()@ == document,
                None => r is None,
            },
            r is Some ==> fits(r.unwrap()@, svg@.len() as int),
    {
        let mut reader = Reader {
            elements: Vec::new(),
            open: Vec::new(),
            styles: Vec::new(),
            labels: Vec::new(),
            end: None,
        };
        let mut at: usize = 0;
        let total: usize = svg.len();
        proof {
            assert(label_models(reader.labels@) =~= Seq::empty());
            assert(reader.model() == unread());
        }
        loop
            invariant
                total == svg@.len(),
                at <= svg@.len(),
                reader.elements@.len() <= at,
                sound(reader.model(), svg@.len() as int, at as int),
                read_from(unread(), svg@, 0) == read_from(reader.model(), svg@, at as int),
            decreases svg@.len() - at,
        {
            let rest = slice_subrange(svg, at, svg.len());
            assert(rest@ =~= svg@.skip(at as int));
            let found: usize = text::position(rest, '<');
            let start: usize = at + found;
            if start == total {
                if reader.open.len() > 0 {
                    return None;
                }
                return match reader.end {
                    Some(end) => Some(
                        Document {
                            elements: reader.elements,
                            styles: reader.styles,
                            labels: reader.labels,
                            end,
                        },
                    ),
                    None => None,
                };
            }
            proof {
                text::lemma_find(rest@, '<');
                assert(svg@[start as int] == rest@[found as int]);
                lemma_markup(svg@, start as int);
                lemma_later(reader.model(), svg@.len() as int, at as int, start as int);
            }
            let m = match read_markup(svg, start) {
                Some(m) => m,
                None => return None,
            };
            let next: usize = match m {
                Markup::Skip { end } => end,
                Markup::EndTag { name: _, end } => end,
                Markup::Label { end } => end,
                Markup::Style { end } => end,
                Markup::StartTag { name: _, empty: _, end } => end,
            };
            proof {
                lemma_read_piece(reader.model(), svg@, start as int, start as int, m);
            }
            if !reader.read(svg, start, m) {
                return None;
            }
            at = next;
        }
    }
}

/// What lies within the first characters lies within more of them.
pub proof fn lemma_later(r: Reading, n: int, at: int, start: int)
    requires
        sound(r, n, at),
        at <= start,
    ensures
        sound(r, n, start),
{
}

// ---------------------------------------------------------------------------------------------
// Batches.

/// The end tags of open elements, innermost first.
pub open spec fn end_tags(d: DocumentModel, svg: Seq<char>, elements: Seq<usize>) -> Seq<char>
    decreases elements.len(),
{
    if elements.len() == 0 {
        Seq::empty()
    } else {
        "</"@ + part(svg, d.elements[elements.last() as int].name) + ">"@ + end_tags(
            d,
            svg,
            elements.drop_last(),
        )
    }
}

/// The start tags of elements, outermost first.
pub open spec fn start_tags(d: DocumentModel, svg: Seq<char>, elements: Seq<usize>) -> Seq<char>
    decreases elements.len(),
{
    if elements.len() == 0 {
        Seq::empty()
    } else {
        start_tags(d, svg, elements.drop_last()) + part(
            svg,
            d.elements[elements.last() as int].tag,
        )
    }
}

/// How many elements `a` and `b` have in common, from the outermost.
pub open spec fn shared(a: Seq<usize>, b: Seq<usize>) -> int
    decreases a.len(),
{
    if a.len() == 0 || b.len() == 0 || a[0] != b[0] {
        0
    } else {
        1 + shared(a.drop_first(), b.drop_first())
    }
}

/// Labels inside their ancestors, where `open` are the ancestors that are open already.
pub open spec fn nested(
    d: DocumentModel,
    svg: Seq<char>,
    labels: Seq<LabelModel>,
    open: Seq<usize>,
) -> Seq<char>
    decreases labels.len(),
{
    if labels.len() == 0 {
        end_tags(d, svg, open)
    } else {
        let label = labels[0];
        let common = shared(open, label.ancestors);
        end_tags(d, svg, open.skip(common)) + start_tags(d, svg, label.ancestors.skip(common))
            + part(svg, label.span) + nested(d, svg, labels.drop_first(), label.ancestors)
    }
}

/// The first `n` stylesheets of a document.
pub open spec fn style_text(d: DocumentModel, svg: Seq<char>, n: int) -> Seq<char>
    decreases n,
{
    if n <= 0 {
        Seq::empty()
    } else {
        style_text(d, svg, n - 1) + part(svg, d.styles[n - 1])
    }
}

/// A document with some of the labels, their ancestors and every stylesheet.
pub open spec fn batch_text(d: DocumentModel, svg: Seq<char>, from: int, to: int) -> Seq<char> {
    part(svg, d.elements[0].tag) + style_text(d, svg, d.styles.len() as int) + nested(
        d,
        svg,
        d.labels.subrange(from, to),
        Seq::empty(),
    ) + "</svg>"@
}

/// Where the text after the first `n` labels starts.
pub open spec fn after_labels(d: DocumentModel, n: int) -> int {
    if n <= 0 {
        0
    } else {
        d.labels[n - 1].span.end as int
    }
}

/// A document up to its `n`th label, without labels.
pub open spec fn unlabeled(d: DocumentModel, svg: Seq<char>, n: int) -> Seq<char>
    decreases n,
{
    if n <= 0 {
        Seq::empty()
    } else {
        unlabeled(d, svg, n - 1) + svg.subrange(
            after_labels(d, n - 1),
            d.labels[n - 1].span.start as int,
        )
    }
}

/// A document without its labels, and with `added` at the end of the root element.
pub open spec fn replaced(d: DocumentModel, svg: Seq<char>, added: Seq<char>) -> Seq<char> {
    let n = d.labels.len() as int;
    unlabeled(d, svg, n) + svg.subrange(after_labels(d, n), d.end as int) + added + svg.skip(
        d.end as int,
    )
}

pub proof fn lemma_shared(a: Seq<usize>, b: Seq<usize>)
    ensures
        0 <= shared(a, b) <= a.len(),
        shared(a, b) <= b.len(),
    decreases a.len(),
{
    if a.len() > 0 && b.len() > 0 && a[0] == b[0] {
        lemma_shared(a.drop_first(), b.drop_first());
    }
}

fn count_shared(a: &[usize], b: &[usize]) -> (n: usize)
    ensures
        n == shared(a@, b@),
        n <= a@.len(),
        n <= b@.len(),
{
    let mut n: usize = 0;
    assert(a@.skip(0) =~= a@);
    assert(b@.skip(0) =~= b@);
    while n < a.len() && n < b.len() && a[n] == b[n]
        invariant
            n <= a@.len(),
            n <= b@.len(),
            shared(a@, b@) == n + shared(a@.skip(n as int), b@.skip(n as int)),
        decreases a@.len() - n,
    {
        assert(a@.skip(n as int).drop_first() =~= a@.skip(n + 1));
        assert(b@.skip(n as int).drop_first() =~= b@.skip(n + 1));
        n += 1;
    }
    n
}

fn push_part(out: &mut String, svg: &[char], span: Span)
    requires
        within(span, svg@.len() as int),
    ensures
        final(out)@ == old(out)@ + part(svg@, span),
{
    text::push_chars(out, slice_subrange(svg, span.start, span.end));
}

impl Document {
    /// A document with the labels from `from` to `to`, their ancestors and every stylesheet.
    pub fn batch(&self, svg: &str, from: usize, to: usize) -> (out: String)
        requires
            fits(self@, svg@.len() as int),
            from <= to <= self.labels@.len(),
        ensures
            out@ == batch_text(self@, svg@, from as int, to as int),
    {
        let svg = text::chars(svg);
        self.batch_chars(&svg, from, to)
    }

    /// [`Document::batch`] on characters.
    pub fn batch_chars(&self, svg: &[char], from: usize, to: usize) -> (out: String)
        requires
            fits(self@, svg@.len() as int),
            from <= to <= self.labels@.len(),
        ensures
            out@ == batch_text(self@, svg@, from as int, to as int),
    {
        let ghost d = self@;
        let mut out = String::new();
        assert(within(d.elements[0].tag, svg@.len() as int));
        push_part(&mut out, svg, self.elements[0].tag);
        let ghost head = part(svg@, d.elements[0].tag);
        let mut i: usize = 0;
        assert(out@ =~= head + style_text(d, svg@, 0));
        while i < self.styles.len()
            invariant
                d == self@,
                fits(d, svg@.len() as int),
                i <= self.styles@.len(),
                out@ == head + style_text(d, svg@, i as int),
            decreases self.styles@.len() - i,
        {
            assert(within(d.styles[i as int], svg@.len() as int));
            push_part(&mut out, svg, self.styles[i]);
            i += 1;
            assert(out@ =~= head + style_text(d, svg@, i as int));
        }
        let ghost start = out@;
        let ghost all = d.labels.subrange(from as int, to as int);
        let none: [usize; 0] = [];
        let mut open: &[usize] = &none;
        let mut at: usize = from;
        proof {
            assert(open@ =~= Seq::<usize>::empty());
            assert(all.skip(0) =~= all);
        }
        while at < to
            invariant
                d == self@,
                fits(d, svg@.len() as int),
                from <= at <= to <= self.labels@.len(),
                all == d.labels.subrange(from as int, to as int),
                forall|k: int| 0 <= k < open@.len() ==> (#[trigger] open@[k]) < d.elements.len(),
                start + nested(d, svg@, all, Seq::empty()) == out@ + nested(
                    d,
                    svg@,
                    all.skip(at - from),
                    open@,
                ),
            decreases to - at,
        {
            let label = &self.labels[at];
            let ghost before = out@;
            let ghost rest = all.skip(at - from);
            proof {
                assert(d.labels[at as int] == label@);
                assert(rest[0] == label@);
                assert(rest.drop_first() =~= all.skip(at + 1 - from));
                assert forall|k: int| 0 <= k < label.ancestors@.len() implies (
                #[trigger] label.ancestors@[k]) < d.elements.len() by {
                    assert(d.labels[at as int].ancestors[k] < d.elements.len());
                }
                lemma_shared(open@, label.ancestors@);
            }
            let ancestors = label.ancestors.as_slice();
            let common: usize = count_shared(open, ancestors);
            let closing = slice_subrange(open, common, open.len());
            let opening = slice_subrange(ancestors, common, ancestors.len());
            assert(closing@ =~= open@.skip(common as int));
            assert(opening@ =~= ancestors@.skip(common as int));
            self.close(&mut out, svg, closing);
            self.reopen(&mut out, svg, opening);
            assert(within(d.labels[at as int].span, svg@.len() as int));
            push_part(&mut out, svg, label.span);
            proof {
                assert(out@ + nested(d, svg@, rest.drop_first(), label.ancestors@) =~= before
                    + nested(d, svg@, rest, open@));
            }
            open = ancestors;
            at += 1;
        }
        assert(all.skip(to - from).len() == 0);
        self.close(&mut out, svg, open);
        out.append("</svg>");
        assert(out@ =~= start + nested(d, svg@, all, Seq::empty()) + "</svg>"@);
        out
    }

    fn close(&self, out: &mut String, svg: &[char], elements: &[usize])
        requires
            fits(self@, svg@.len() as int),
            forall|k: int|
                0 <= k < elements@.len() ==> (#[trigger] elements@[k]) < self@.elements.len(),
        ensures
            final(out)@ == old(out)@ + end_tags(self@, svg@, elements@),
    {
        let ghost was = out@;
        let mut n: usize = elements.len();
        assert(elements@.take(n as int) =~= elements@);
        while n > 0
            invariant
                fits(self@, svg@.len() as int),
                n <= elements@.len(),
                forall|k: int|
                    0 <= k < elements@.len() ==> (#[trigger] elements@[k]) < self@.elements.len(),
                was + end_tags(self@, svg@, elements@) == out@ + end_tags(
                    self@,
                    svg@,
                    elements@.take(n as int),
                ),
            decreases n,
        {
            let ghost before = out@;
            let ghost shown = elements@.take(n as int);
            n -= 1;
            assert(elements@[n as int] < self@.elements.len());
            let name = self.elements[elements[n]].name;
            assert(within(self@.elements[elements@[n as int] as int].name, svg@.len() as int));
            out.append("</");
            push_part(out, svg, name);
            out.append(">");
            proof {
                assert(shown.drop_last() =~= elements@.take(n as int));
                assert(shown.last() == elements@[n as int]);
                assert(out@ + end_tags(self@, svg@, elements@.take(n as int)) =~= before
                    + end_tags(self@, svg@, shown));
            }
        }
        assert(out@ + end_tags(self@, svg@, elements@.take(0)) =~= out@);
    }

    fn reopen(&self, out: &mut String, svg: &[char], elements: &[usize])
        requires
            fits(self@, svg@.len() as int),
            forall|k: int|
                0 <= k < elements@.len() ==> (#[trigger] elements@[k]) < self@.elements.len(),
        ensures
            final(out)@ == old(out)@ + start_tags(self@, svg@, elements@),
    {
        let ghost was = out@;
        let mut n: usize = 0;
        assert(out@ =~= was + start_tags(self@, svg@, elements@.take(0)));
        while n < elements.len()
            invariant
                fits(self@, svg@.len() as int),
                n <= elements@.len(),
                forall|k: int|
                    0 <= k < elements@.len() ==> (#[trigger] elements@[k]) < self@.elements.len(),
                out@ == was + start_tags(self@, svg@, elements@.take(n as int)),
            decreases elements@.len() - n,
        {
            assert(elements@[n as int] < self@.elements.len());
            let tag = self.elements[elements[n]].tag;
            assert(within(self@.elements[elements@[n as int] as int].tag, svg@.len() as int));
            push_part(out, svg, tag);
            n += 1;
            proof {
                assert(elements@.take(n as int).drop_last() =~= elements@.take(n - 1));
                assert(out@ =~= was + start_tags(self@, svg@, elements@.take(n as int)));
            }
        }
        assert(elements@.take(elements@.len() as int) =~= elements@);
    }

    /// `svg` without its labels, and with `added` at the end of the root element.
    pub fn without_labels(&self, svg: &str, added: &str) -> (out: String)
        requires
            fits(self@, svg@.len() as int),
        ensures
            out@ == replaced(self@, svg@, added@),
    {
        let svg = text::chars(svg);
        self.without_labels_chars(&svg, added)
    }

    /// [`Document::without_labels`] on characters.
    pub fn without_labels_chars(&self, svg: &[char], added: &str) -> (out: String)
        requires
            fits(self@, svg@.len() as int),
        ensures
            out@ == replaced(self@, svg@, added@),
    {
        let ghost d = self@;
        let mut out = String::new();
        let mut at: usize = 0;
        let mut i: usize = 0;
        while i < self.labels.len()
            invariant
                d == self@,
                fits(d, svg@.len() as int),
                i <= self.labels@.len(),
                at == after_labels(d, i as int),
                at <= d.end,
                out@ == unlabeled(d, svg@, i as int),
            decreases self.labels@.len() - i,
        {
            let span = self.labels[i].span;
            proof {
                assert(d.labels[i as int].span == span);
                assert(within(d.labels[i as int].span, d.end as int));
                if i > 0 {
                    assert(d.labels[i - 1].span.end <= d.labels[i as int].span.start);
                }
            }
            push_part(&mut out, svg, Span { start: at, end: span.start });
            at = span.end;
            i += 1;
        }
        push_part(&mut out, svg, Span { start: at, end: self.end });
        out.append(added);
        let tail = slice_subrange(svg, self.end, svg.len());
        assert(tail@ =~= svg@.skip(d.end as int));
        text::push_chars(&mut out, tail);
        out
    }
}

// ---------------------------------------------------------------------------------------------
// Conversion.

/// What a conversion added to `batch`, when it changed nothing else: what stands before the
/// closing `</svg>` and was not there before.
pub open spec fn addition(batch: Seq<char>, converted: Seq<char>) -> Option<Seq<char>> {
    if text::ends(batch, "</svg>"@) && text::starts(converted, batch.take(batch.len() - 6))
        && text::ends(converted.skip(batch.len() - 6), "</svg>"@) {
        Some(converted.subrange(batch.len() - 6, converted.len() - 6))
    } else {
        None
    }
}

fn ends_with(s: &[char], p: &str) -> (r: bool)
    ensures
        r == text::ends(s@, p@),
{
    let n: usize = text::chars(p).len();
    if n > s.len() {
        return false;
    }
    let tail = slice_subrange(s, s.len() - n, s.len());
    assert(tail@ =~= s@.skip(s@.len() - n));
    text::is_text(tail, p)
}

/// What merman's converter added to `batch`, which it otherwise returns unchanged.
pub fn added(batch: &str, converted: &str) -> (r: Option<String>)
    ensures
        text::optional(r) == addition(batch@, converted@),
{
    proof {
        reveal_strlit("</svg>");
    }
    let batch = text::chars(batch);
    let converted = text::chars(converted);
    if !ends_with(&batch, "</svg>") {
        return None;
    }
    let kept: usize = batch.len() - 6;
    if converted.len() < kept {
        return None;
    }
    let head = slice_subrange(batch.as_slice(), 0, kept);
    let start = slice_subrange(converted.as_slice(), 0, kept);
    let rest = slice_subrange(converted.as_slice(), kept, converted.len());
    assert(head@ =~= batch@.take(kept as int));
    assert(start@ =~= converted@.take(kept as int));
    assert(rest@ =~= converted@.skip(kept as int));
    if !text::same(head, start) || !ends_with(rest, "</svg>") {
        return None;
    }
    let new = slice_subrange(rest, 0, rest.len() - 6);
    assert(new@ =~= converted@.subrange(kept as int, converted@.len() - 6));
    Some(text::string(new))
}

/// A document whose labels are being converted.
pub struct Batches {
    svg: Vec<char>,
    document: Document,
    /// What the conversion has added so far.
    text: String,
    /// How many labels have been converted.
    start: usize,
    /// How many labels to convert at a time.
    size: usize,
}

/// What [`Batches`] hold.
pub struct BatchesModel {
    pub svg: Seq<char>,
    pub document: DocumentModel,
    pub text: Seq<char>,
    pub start: int,
    pub size: int,
}

impl View for Batches {
    type V = BatchesModel;

    closed spec fn view(&self) -> BatchesModel {
        BatchesModel {
            svg: self.svg@,
            document: self.document@,
            text: self.text@,
            start: self.start as int,
            size: self.size as int,
        }
    }
}

/// How many labels are converted after the next batch.
pub open spec fn batch_end(b: BatchesModel) -> int {
    if b.start + b.size < b.document.labels.len() {
        b.start + b.size
    } else {
        b.document.labels.len() as int
    }
}

/// Whether a conversion is underway.
pub open spec fn underway(b: BatchesModel) -> bool {
    &&& fits(b.document, b.svg.len() as int)
    &&& 0 <= b.start <= b.document.labels.len()
    &&& 0 < b.size
}

/// The conversion to start with, unless the document is best left alone: it has labels to
/// pair with native text, is not understood, or has no labels.
pub open spec fn begun(svg: Seq<char>, size: int) -> Option<BatchesModel> {
    match read_from(unread(), svg, 0) {
        Some(document) if !text::has(svg, "<switch"@) && document.labels.len() > 0 => Some(
            BatchesModel { svg, document, text: Seq::empty(), start: 0, size },
        ),
        _ => None,
    }
}

/// What to do after a batch.
#[derive(Clone, Copy, Debug, PartialEq, Eq, Structural)]
pub enum Next {
    /// Convert the next batch.
    Go,
    /// Leave the document as it was.
    Leave,
    /// Give up with the converter's error.
    Fail,
}

/// What a converted batch does.
pub open spec fn converted_step(b: BatchesModel, converted: Seq<char>) -> (BatchesModel, Next) {
    match addition(batch_text(b.document, b.svg, b.start, batch_end(b)), converted) {
        Some(added) => (
            BatchesModel { text: b.text + added, start: batch_end(b), ..b },
            Next::Go,
        ),
        None => (b, Next::Leave),
    }
}

/// What a refused batch does. Labels with unusually expensive styles get smaller batches.
pub open spec fn refused_step(b: BatchesModel, limit: Option<Seq<char>>) -> (BatchesModel, Next) {
    let count = batch_end(b) - b.start;
    if limit == Some(MATCH_BUDGET@) && count > 1 {
        (BatchesModel { size: count / 2, ..b }, Next::Go)
    } else {
        (b, Next::Fail)
    }
}

/// What a refusal says: the name of the limit that was hit, if any, and the error itself.
pub struct RefusedModel {
    pub limit: Option<Seq<char>>,
    pub error: RenderError,
}

/// What came back for a batch: its conversion, or why there is none.
pub type Reply = Result<Seq<char>, RefusedModel>;

/// Where a conversion goes from here with a reply to its next batch.
pub open spec fn reply_step(b: BatchesModel, reply: Reply) -> (BatchesModel, Next) {
    match reply {
        Ok(converted) => converted_step(b, converted),
        Err(refused) => refused_step(b, refused.limit),
    }
}

/// How a conversion stands after some replies.
pub enum Progress {
    Going(BatchesModel),
    /// The document is left as it is.
    Left,
    /// The conversion failed with the error of the last reply.
    Failed(RenderError),
    /// There are replies that cannot have come, or more than were asked for.
    Never,
}

/// How a conversion stands after these replies, each of them one that can come back for the
/// batch it answers.
pub open spec fn after_replies(b: BatchesModel, replies: Seq<Reply>) -> Progress
    decreases replies.len(),
{
    if replies.len() == 0 {
        Progress::Going(b)
    } else {
        match after_replies(b, replies.drop_last()) {
            Progress::Going(b) if b.start < b.document.labels.len() && can_reply(
                batch_text(b.document, b.svg, b.start, batch_end(b)),
                replies.last(),
            ) => {
                let (then, next) = reply_step(b, replies.last());
                match next {
                    Next::Go => Progress::Going(then),
                    Next::Leave => Progress::Left,
                    Next::Fail => Progress::Failed(replies.last()->Err_0.error),
                }
            },
            _ => Progress::Never,
        }
    }
}

/// Whether `r` is how the conversion of `svg` ends with these replies. `None` leaves the
/// document as it is. An error is that of the last reply.
pub open spec fn ends_as(
    svg: Seq<char>,
    size: int,
    replies: Seq<Reply>,
    r: Result<Option<Seq<char>>, RenderError>,
) -> bool {
    match begun(svg, size) {
        Some(b) => match after_replies(b, replies) {
            Progress::Going(b) => b.start == b.document.labels.len() && r == Ok::<_, RenderError>(
                Some(replaced(b.document, b.svg, b.text)),
            ),
            Progress::Left => r == Ok::<Option<Seq<char>>, RenderError>(None),
            Progress::Failed(error) => r == Err::<Option<Seq<char>>, RenderError>(error),
            Progress::Never => false,
        },
        None => r == Ok::<Option<Seq<char>>, RenderError>(None),
    }
}

/// What a conversion gave.
pub open spec fn ending<E>(r: Result<Option<String>, E>) -> Result<Option<Seq<char>>, E> {
    match r {
        Ok(Some(svg)) => Ok(Some(svg@)),
        Ok(None) => Ok(None),
        Err(error) => Err(error),
    }
}

impl Batches {
    /// Starts converting, or `None` to leave the document alone.
    pub fn new(svg: &str, size: usize) -> (r: Option<Batches>)
        requires
            size > 0,
        ensures
            match begun(svg@, size as int) {
                Some(b) => r is Some && r.unwrap()@ == b,
                None => r is None,
            },
            r is Some ==> underway(r.unwrap()@),
    {
        let chars = text::chars(svg);
        // Labels inside `<switch>` are paired with the native text beside them, which a batch
        // leaves out, so those documents are left to merman.
        if text::contains(&chars, "<switch") {
            return None;
        }
        match Document::scan_chars(&chars) {
            Some(document) => {
                if document.labels.len() == 0 {
                    return None;
                }
                Some(Batches { svg: chars, document, text: String::new(), start: 0, size })
            },
            None => None,
        }
    }

    /// The next batch, or `None` when every label has been converted.
    pub fn next(&self) -> (batch: Option<String>)
        requires
            underway(self@),
        ensures
            batch is None <==> self@.start == self@.document.labels.len(),
            batch is Some ==> batch.unwrap()@ == batch_text(
                self@.document,
                self@.svg,
                self@.start,
                batch_end(self@),
            ),
    {
        if self.start == self.document.labels.len() {
            return None;
        }
        Some(self.document.batch_chars(&self.svg, self.start, self.end()))
    }

    fn end(&self) -> (end: usize)
        requires
            underway(self@),
        ensures
            end == batch_end(self@),
            self.start <= end <= self.document.labels@.len(),
    {
        let left: usize = self.document.labels.len() - self.start;
        if self.size < left {
            self.start + self.size
        } else {
            self.document.labels.len()
        }
    }

    /// Takes in what the converter made of the next batch.
    pub fn converted(&mut self, batch: &str, converted: &str) -> (next: Next)
        requires
            underway(old(self)@),
            batch@ == batch_text(
                old(self)@.document,
                old(self)@.svg,
                old(self)@.start,
                batch_end(old(self)@),
            ),
        ensures
            (final(self)@, next) == converted_step(old(self)@, converted@),
            underway(final(self)@),
    {
        let end: usize = self.end();
        match added(batch, converted) {
            Some(added) => {
                self.text.append(added.as_str());
                self.start = end;
                Next::Go
            },
            None => Next::Leave,
        }
    }

    /// Takes in that the converter refused the next batch, and the name of the limit it hit.
    pub fn refused(&mut self, limit: Option<&str>) -> (next: Next)
        requires
            underway(old(self)@),
        ensures
            (final(self)@, next) == refused_step(old(self)@, text::optional_str(limit)),
            underway(final(self)@),
    {
        let count: usize = self.end() - self.start;
        let over = match limit {
            Some(limit) => text::str_eq(limit, MATCH_BUDGET),
            None => false,
        };
        if over && count > 1 {
            self.size = count / 2;
            Next::Go
        } else {
            Next::Fail
        }
    }

    /// The document with its labels converted.
    pub fn finish(self) -> (svg: String)
        requires
            underway(self@),
        ensures
            svg@ == replaced(self@.document, self@.svg, self@.text),
    {
        self.document.without_labels_chars(&self.svg, self.text.as_str())
    }
}

/// `merman::svg::RenderError`, carried through.
#[verifier::external_type_specification]
#[verifier::external_body]
pub struct ExRenderError(RenderError);

/// `merman::svg::SvgPostprocessContext`, carried through.
#[verifier::external_type_specification]
#[verifier::external_body]
pub struct ExSvgPostprocessContext<'a>(SvgPostprocessContext<'a>);

/// An error of merman's converter, with the name of the limit when it hit one.
pub struct Refused {
    pub limit: Option<String>,
    pub error: RenderError,
}

/// What a reply says.
pub open spec fn reply_of(r: Result<String, Refused>) -> Reply {
    match r {
        Ok(converted) => Ok(converted@),
        Err(refused) => Err(
            RefusedModel { limit: text::optional(refused.limit), error: refused.error },
        ),
    }
}

/// Whether merman's converter can reply so to a document. It may have several replies: what it
/// makes of a document depends on the session that it runs in, which can be cancelled.
pub uninterp spec fn can_reply(
    document: Seq<char>,
    reply: Result<Seq<char>, RefusedModel>,
) -> bool;

/// Hands a batch to merman's `ForeignObjectFallbackPostprocessor::process`. What comes back is a
/// reply to that batch. Which one depends on the session in `ctx` too, so nothing is said of
/// that.
#[verifier::external_body]
fn convert(batch: &str, ctx: &SvgPostprocessContext<'_>) -> (r: Result<String, Refused>)
    ensures
        can_reply(batch@, reply_of(r)),
{
    let converter = merman::svg::ForeignObjectFallbackPostprocessor;
    let input = std::borrow::Cow::Borrowed(batch);
    match merman::svg::SvgPostprocessor::process(&converter, input, ctx) {
        Ok(converted) => Ok(converted.into_owned()),
        Err(error) => {
            let limit = match &error {
                RenderError::ResourceLimitExceeded(limit) => Some(limit.limit.to_string()),
                _ => None,
            };
            Err(Refused { limit, error })
        },
    }
}

/// Converts labels a batch at a time.
#[derive(Clone, Copy, Debug, PartialEq, Eq, Structural)]
pub struct Batched {
    pub size: usize,
}

impl Batched {
    pub fn new(size: usize) -> (batched: Batched)
        ensures
            batched.size == if size == 0 {
                1
            } else {
                size
            },
    {
        Batched {
            size: if size == 0 {
                1
            } else {
                size
            },
        }
    }

    /// Converts the labels of a document. `None` leaves it as it is.
    pub fn process(&self, svg: &str, ctx: &SvgPostprocessContext<'_>) -> (r: Result<
        Option<String>,
        RenderError,
    >)
        requires
            self.size > 0,
        ensures
            exists|replies: Seq<Reply>|
                #[trigger] ends_as(svg@, self.size as int, replies, ending(r)),
    {
        let ghost mut replies: Seq<Reply> = Seq::empty();
        let mut batches = match Batches::new(svg, self.size) {
            Some(batches) => batches,
            None => {
                let r = Ok(None);
                assert(ends_as(svg@, self.size as int, replies, ending(r)));
                return r;
            },
        };
        let ghost start = batches@;
        loop
            invariant
                begun(svg@, self.size as int) == Some(start),
                underway(batches@),
                after_replies(start, replies) == Progress::Going(batches@),
            decreases batches@.document.labels.len() - batches@.start, batches@.size,
        {
            let batch = match batches.next() {
                Some(batch) => batch,
                None => {
                    let r = Ok(Some(batches.finish()));
                    assert(ends_as(svg@, self.size as int, replies, ending(r)));
                    return r;
                },
            };
            let converted = convert(batch.as_str(), ctx);
            proof {
                let earlier = replies;
                replies = replies.push(reply_of(converted));
                assert(replies.drop_last() =~= earlier);
            }
            match converted {
                Ok(converted) => match batches.converted(batch.as_str(), converted.as_str()) {
                    Next::Go => {},
                    _ => {
                        let r = Ok(None);
                        assert(ends_as(svg@, self.size as int, replies, ending(r)));
                        return r;
                    },
                },
                Err(refused) => {
                    let limit = match &refused.limit {
                        Some(limit) => Some(limit.as_str()),
                        None => None,
                    };
                    match batches.refused(limit) {
                        Next::Go => {},
                        _ => {
                            let r = Err(refused.error);
                            assert(ends_as(svg@, self.size as int, replies, ending(r)));
                            return r;
                        },
                    }
                },
            }
        }
    }
}

} // verus!
