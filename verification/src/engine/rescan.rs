//! What holds of documents, their batches and what becomes of them.

use vstd::prelude::*;

use merman::svg::RenderError;

use super::labels;
use super::labels::{
    BatchesModel, DocumentModel, Element, LabelModel, Markup, Progress, Reading, RefusedModel,
    Reply, Span,
};
use crate::text;

verus! {

// ---------------------------------------------------------------------------------------------
// Batches of any size.

/// The texts of the labels from `from` to `to`, one after another.
pub open spec fn label_text(texts: Seq<Seq<char>>, from: int, to: int) -> Seq<char>
    decreases to - from,
{
    if to <= from {
        Seq::empty()
    } else {
        label_text(texts, from, to - 1) + texts[to - 1]
    }
}

/// A document with `added` before its closing `</svg>`.
pub open spec fn gaining(document: Seq<char>, added: Seq<char>) -> Seq<char> {
    document.take(document.len() - 6) + added + "</svg>"@
}

proof fn lemma_label_text(texts: Seq<Seq<char>>, from: int, middle: int, to: int)
    requires
        from <= middle <= to,
    ensures
        label_text(texts, from, middle) + label_text(texts, middle, to) == label_text(
            texts,
            from,
            to,
        ),
    decreases to - middle,
{
    if middle == to {
        assert(label_text(texts, from, middle) + label_text(texts, middle, to) =~= label_text(
            texts,
            from,
            to,
        ));
    } else {
        lemma_label_text(texts, from, middle, to - 1);
        assert(label_text(texts, from, middle) + label_text(texts, middle, to) =~= label_text(
            texts,
            from,
            middle,
        ) + label_text(texts, middle, to - 1) + texts[to - 1]);
    }
}

proof fn lemma_addition(d: DocumentModel, svg: Seq<char>, from: int, to: int, added: Seq<char>)
    ensures
        labels::addition(
            labels::batch_text(d, svg, from, to),
            gaining(labels::batch_text(d, svg, from, to), added),
        ) == Some(added),
{
    reveal_strlit("</svg>");
    let batch = labels::batch_text(d, svg, from, to);
    let end = "</svg>"@;
    let n = batch.len() as int;
    assert(batch.skip(n - 6) =~= end);
    let out = gaining(batch, added);
    let m = out.len() as int;
    assert(out.take(n - 6) =~= batch.take(n - 6));
    assert(out.skip(n - 6).skip(m - n) =~= end);
    assert(out.skip(n - 6).len() - 6 == m - n);
    assert(out.subrange(n - 6, m - 6) =~= added);
}

/// How far a conversion is in which each batch gains its labels' texts.
proof fn lemma_progress(
    b: BatchesModel,
    texts: Seq<Seq<char>>,
    replies: Seq<Reply>,
)
    requires
        b.start == 0,
        b.size > 0,
        b.text == Seq::<char>::empty(),
        forall|i: int, j: int, reply: Reply|
            0 <= i < j <= b.document.labels.len() && #[trigger] labels::can_reply(
                labels::batch_text(b.document, b.svg, i, j),
                reply,
            ) ==> reply == Ok::<Seq<char>, RefusedModel>(
                gaining(
                    labels::batch_text(b.document, b.svg, i, j),
                    label_text(texts, i, j),
                ),
            ),
    ensures
        match labels::after_replies(b, replies) {
            Progress::Going(s) => s == (BatchesModel {
                text: label_text(texts, 0, s.start),
                start: s.start,
                ..b
            }) && 0 <= s.start <= b.document.labels.len(),
            Progress::Never => true,
            _ => false,
        },
    decreases replies.len(),
{
    if replies.len() > 0 {
        lemma_progress(b, texts, replies.drop_last());
        if let Progress::Going(s) = labels::after_replies(b, replies.drop_last()) {
            let to = labels::batch_end(s);
            if s.start < b.document.labels.len() && labels::can_reply(
                labels::batch_text(b.document, b.svg, s.start, to),
                replies.last(),
            ) {
                lemma_addition(
                    b.document,
                    b.svg,
                    s.start,
                    to,
                    label_text(texts, s.start, to),
                );
                lemma_label_text(texts, 0, s.start, to);
            }
        }
    }
}

/// A conversion in which each batch gains its labels' texts, and nothing else, gives the same
/// document for every batch size: the one without labels, with the texts of all labels in order.
pub proof fn batch_sizes_change_nothing(
    svg: Seq<char>,
    size: int,
    texts: Seq<Seq<char>>,
    replies: Seq<Reply>,
    r: Result<Option<Seq<char>>, RenderError>,
)
    requires
        size > 0,
        labels::begun(svg, size) is Some,
        forall|i: int, j: int, reply: Reply|
            0 <= i < j <= labels::begun(svg, size).unwrap().document.labels.len()
                && #[trigger] labels::can_reply(
                labels::batch_text(labels::begun(svg, size).unwrap().document, svg, i, j),
                reply,
            ) ==> reply == Ok::<Seq<char>, RefusedModel>(
                gaining(
                    labels::batch_text(labels::begun(svg, size).unwrap().document, svg, i, j),
                    label_text(texts, i, j),
                ),
            ),
        labels::ends_as(svg, size, replies, r),
    ensures
        ({
            let d = labels::begun(svg, size).unwrap().document;
            r == Ok::<Option<Seq<char>>, RenderError>(
                Some(
                    labels::replaced(d, svg, label_text(texts, 0, d.labels.len() as int)),
                ),
            )
        }),
{
    let b = labels::begun(svg, size).unwrap();
    assert(b.svg == svg);
    lemma_progress(b, texts, replies);
}

// ---------------------------------------------------------------------------------------------
// A piece of markup reads the same wherever it stands.

/// Whether two texts start with the same `n` characters.
spec fn alike(a: Seq<char>, b: Seq<char>, n: int) -> bool {
    0 <= n <= a.len() && n <= b.len() && a.take(n) == b.take(n)
}

proof fn lemma_alike(a: Seq<char>, b: Seq<char>, n: int, i: int)
    requires
        alike(a, b, n),
        0 <= i < n,
    ensures
        a[i] == b[i],
{
    assert(a.take(n)[i] == b.take(n)[i]);
}

proof fn lemma_alike_later(a: Seq<char>, b: Seq<char>, n: int, by: int)
    requires
        alike(a, b, n),
        0 <= by <= n,
    ensures
        alike(a.skip(by), b.skip(by), n - by),
{
    assert forall|i: int| 0 <= i < n - by implies a.skip(by)[i] == b.skip(by)[i] by {
        lemma_alike(a, b, n, i + by);
    }
    assert(a.skip(by).take(n - by) =~= b.skip(by).take(n - by));
}

/// Texts that are alike up to a `>` start with the same marks, where those have none.
proof fn lemma_alike_starts(a: Seq<char>, b: Seq<char>, n: int, mark: Seq<char>)
    requires
        alike(a, b, n),
        n > 0,
        a[n - 1] == '>',
        !mark.contains('>'),
    ensures
        text::starts(a, mark) == text::starts(b, mark),
{
    let k = mark.len() as int;
    lemma_alike(a, b, n, n - 1);
    if k <= n {
        assert forall|i: int| 0 <= i < k implies a[i] == b[i] by {
            lemma_alike(a, b, n, i);
        }
        assert(a.take(k) =~= b.take(k));
    } else {
        if text::starts(a, mark) {
            assert(a.take(k)[n - 1] == mark[n - 1]);
        }
        if text::starts(b, mark) {
            assert(b.take(k)[n - 1] == mark[n - 1]);
        }
        assert(mark.contains(mark[n - 1]));
    }
}

proof fn lemma_alike_seek(a: Seq<char>, b: Seq<char>, n: int, mark: Seq<char>)
    requires
        alike(a, b, n),
        text::seek(a, mark) matches Some(at) && at + mark.len() <= n,
    ensures
        text::seek(b, mark) == text::seek(a, mark),
    decreases a.len(),
{
    let k = mark.len() as int;
    let at = text::seek(a, mark).unwrap();
    text::lemma_seek(a, mark);
    assert(k <= n);
    assert forall|i: int| 0 <= i < k implies a[i] == b[i] by {
        lemma_alike(a, b, n, i);
    }
    assert(a.take(k) =~= b.take(k));
    if !text::starts(a, mark) {
        text::lemma_seek(a.drop_first(), mark);
        lemma_alike_later(a, b, n, 1);
        assert(a.skip(1) =~= a.drop_first());
        assert(b.skip(1) =~= b.drop_first());
        lemma_alike_seek(a.drop_first(), b.drop_first(), n - 1, mark);
    }
}

proof fn lemma_alike_tag(a: Seq<char>, b: Seq<char>, n: int, quote: Option<char>)
    requires
        alike(a, b, n),
        labels::tag_length(a, quote) matches Some(at) && at <= n,
    ensures
        labels::tag_length(b, quote) == labels::tag_length(a, quote),
    decreases a.len(),
{
    labels::lemma_tag_length(a, quote);
    lemma_alike(a, b, n, 0);
    if !(quote is None && a[0] == '>') {
        let next = match quote {
            Some(open) => if a[0] == open {
                None
            } else {
                quote
            },
            None => if a[0] == '"' || a[0] == '\'' {
                Some(a[0])
            } else {
                None
            },
        };
        lemma_alike_later(a, b, n, 1);
        assert(a.skip(1) =~= a.drop_first());
        assert(b.skip(1) =~= b.drop_first());
        lemma_alike_tag(a.drop_first(), b.drop_first(), n - 1, next);
    }
}

/// A name is as long in texts that are alike up to a `>`, and has no character that ends names.
proof fn lemma_alike_name(a: Seq<char>, b: Seq<char>, n: int)
    requires
        alike(a, b, n),
        n > 0,
        a[n - 1] == '>',
    ensures
        labels::name_length(b) == labels::name_length(a),
        0 <= labels::name_length(a) < n,
        forall|i: int|
            0 <= i < labels::name_length(a) ==> !labels::ends_name(#[trigger] a[i]),
    decreases n,
{
    lemma_alike(a, b, n, 0);
    if !labels::ends_name(a[0]) {
        lemma_alike_later(a, b, n, 1);
        assert(a.skip(1) =~= a.drop_first());
        assert(b.skip(1) =~= b.drop_first());
        lemma_alike_name(a.drop_first(), b.drop_first(), n - 1);
        assert forall|i: int| 0 <= i < labels::name_length(a) implies !labels::ends_name(
            #[trigger] a[i],
        ) by {
            if i > 0 {
                assert(a[i] == a.drop_first()[i - 1]);
            }
        }
    }
}

/// A part, moved.
spec fn moved_span(span: Span, by: int) -> Span {
    labels::span(span.start + by, span.end + by)
}

/// A piece of markup, moved.
spec fn moved(m: Markup, by: int) -> Markup {
    match m {
        Markup::Skip { end } => Markup::Skip { end: (end + by) as usize },
        Markup::EndTag { name, end } => Markup::EndTag {
            name: moved_span(name, by),
            end: (end + by) as usize,
        },
        Markup::Label { end } => Markup::Label { end: (end + by) as usize },
        Markup::Style { end } => Markup::Style { end: (end + by) as usize },
        Markup::StartTag { name, empty, end } => Markup::StartTag {
            name: moved_span(name, by),
            empty,
            end: (end + by) as usize,
        },
    }
}

/// Whether the piece of markup at `at` stands in another document at `there`.
spec fn same_piece(svg: Seq<char>, at: int, m: Markup, other: Seq<char>, there: int) -> bool {
    &&& 0 <= at < svg.len() <= usize::MAX
    &&& svg[at] == '<'
    &&& labels::markup_at(svg, at) == Some(m)
    &&& 0 <= there
    &&& other.len() <= usize::MAX
    &&& there + (labels::markup_end(m) - at) <= other.len()
    &&& svg.subrange(at, labels::markup_end(m)) == other.subrange(
        there,
        there + (labels::markup_end(m) - at),
    )
}

proof fn lemma_same_piece(svg: Seq<char>, at: int, m: Markup, other: Seq<char>, there: int)
    requires
        same_piece(svg, at, m, other, there),
    ensures
        alike(svg.skip(at), other.skip(there), labels::markup_end(m) - at),
        at < labels::markup_end(m) <= svg.len(),
{
    labels::lemma_markup(svg, at);
    let n = labels::markup_end(m) - at;
    assert(svg.skip(at).take(n) =~= svg.subrange(at, labels::markup_end(m)));
    assert(other.skip(there).take(n) =~= other.subrange(there, there + n));
}

/// Where a whole element or a comment ends.
proof fn lemma_element_end(
    svg: Seq<char>,
    close: int,
    other: Seq<char>,
    there: int,
    mark: Seq<char>,
    end: int,
)
    requires
        0 <= close <= end <= svg.len(),
        0 <= there,
        alike(svg.skip(close), other.skip(there), end - close),
        labels::element_end(svg, close, mark) == Some(end),
    ensures
        labels::element_end(other, there, mark) == Some(there + (end - close)),
        mark.len() > 0 ==> svg[end - 1] == mark.last(),
{
    let a = svg.skip(close);
    text::lemma_seek(a, mark);
    let n = text::seek(a, mark).unwrap();
    lemma_alike_seek(a, other.skip(there), end - close, mark);
    if mark.len() > 0 {
        assert(a.skip(n).take(mark.len() as int).last() == a[n + mark.len() - 1]);
    }
}

proof fn lemma_marks()
    ensures
        !"<!--"@.contains('>'),
        !"<![CDATA["@.contains('>'),
        !"<!"@.contains('>'),
        !"<?"@.contains('>'),
        !"</"@.contains('>'),
        "-->"@.len() > 0 && "-->"@.last() == '>',
        "]]>"@.len() > 0 && "]]>"@.last() == '>',
        ">"@.len() > 0 && ">"@.last() == '>',
        "</style>"@.len() > 0 && "</style>"@.last() == '>',
        "</foreignObject>"@.len() > 0 && "</foreignObject>"@.last() == '>',
{
    reveal_strlit("<!--");
    reveal_strlit("<![CDATA[");
    reveal_strlit("<!");
    reveal_strlit("<?");
    reveal_strlit("</");
    reveal_strlit("-->");
    reveal_strlit("]]>");
    reveal_strlit(">");
    reveal_strlit("</style>");
    reveal_strlit("</foreignObject>");
}

/// Every piece of markup ends with `>`.
proof fn lemma_piece_end(svg: Seq<char>, at: int, m: Markup)
    requires
        0 <= at < svg.len() <= usize::MAX,
        svg[at] == '<',
        labels::markup_at(svg, at) == Some(m),
    ensures
        at < labels::markup_end(m) <= svg.len(),
        svg[labels::markup_end(m) - 1] == '>',
{
    labels::lemma_markup(svg, at);
    lemma_marks();
    let rest = svg.skip(at);
    let end = labels::markup_end(m);
    if text::starts(rest, "<!--"@) {
        lemma_end_mark(svg, at, "-->"@, end);
    } else if text::starts(rest, "<![CDATA["@) {
        lemma_end_mark(svg, at, "]]>"@, end);
    } else if text::starts(rest, "<!"@) || text::starts(rest, "<?"@) {
        lemma_end_mark(svg, at, ">"@, end);
    } else if text::starts(rest, "</"@) {
        text::lemma_find(rest, '>');
    } else {
        labels::lemma_tag_length(rest, None);
        let close = at + labels::tag_length(rest, None).unwrap();
        match m {
            Markup::Label { .. } => {
                lemma_end_mark(svg, close, "</foreignObject>"@, end);
            },
            Markup::Style { .. } => {
                lemma_end_mark(svg, close, "</style>"@, end);
            },
            _ => {
                assert(rest[close - at - 1] == svg[close - 1]);
            },
        }
    }
}

proof fn lemma_end_mark(svg: Seq<char>, close: int, mark: Seq<char>, end: int)
    requires
        0 <= close <= svg.len() <= usize::MAX,
        mark.len() > 0,
        labels::element_end(svg, close, mark) matches Some(e) && e as usize == end,
    ensures
        close < end <= svg.len(),
        labels::element_end(svg, close, mark) == Some(end),
        svg[end - 1] == mark.last(),
{
    text::lemma_seek(svg.skip(close), mark);
    lemma_element_end(svg, close, svg, close, mark, end);
}

/// A start tag, or what it starts, reads the same wherever it stands.
proof fn lemma_local_start(svg: Seq<char>, at: int, m: Markup, other: Seq<char>, there: int)
    requires
        same_piece(svg, at, m, other, there),
        labels::start_markup(svg, at) == Some(m),
    ensures
        labels::start_markup(other, there) == Some(moved(m, there - at)),
{
    lemma_same_piece(svg, at, m, other, there);
    lemma_marks();
    let a = svg.skip(at);
    let b = other.skip(there);
    let end = labels::markup_end(m);
    let n = end - at;
    let by = there - at;
    labels::lemma_tag_length(a, None);
    let length = labels::tag_length(a, None).unwrap();
    let close = at + length;
    match m {
        Markup::Label { .. } => {
            lemma_end_mark(svg, close, "</foreignObject>"@, end);
        },
        Markup::Style { .. } => {
            lemma_end_mark(svg, close, "</style>"@, end);
        },
        _ => {},
    }
    assert(length <= n);
    lemma_alike_tag(a, b, n, None);
    assert(a[0] == svg[at]);
    assert(length >= 2);
    lemma_alike_shorter(a, b, n, length);
    lemma_alike_later(a, b, length, 1);
    lemma_alike_name(a.skip(1), b.skip(1), length - 1);
    let k = labels::name_length(a.skip(1));
    let name = labels::span(at + 1, at + 1 + k);
    let name2 = labels::span(there + 1, there + 1 + k);
    assert(labels::part(svg, name) =~= labels::part(other, name2)) by {
        assert forall|i: int| 0 <= i < k implies labels::part(svg, name)[i] == labels::part(
            other,
            name2,
        )[i] by {
            lemma_alike(a, b, length, 1 + i);
            assert(a[1 + i] == svg[at + 1 + i] && b[1 + i] == other[there + 1 + i]);
        }
    }
    lemma_alike(a, b, length, length - 2);
    assert(a[length - 2] == svg[close - 2] && b[length - 2] == other[there + length - 2]);
    lemma_alike_later(a, b, n, length);
    assert(a.skip(length) =~= svg.skip(close));
    assert(b.skip(length) =~= other.skip(there + length));
    match m {
        Markup::Label { .. } => {
            lemma_element_end(svg, close, other, there + length, "</foreignObject>"@, end);
        },
        Markup::Style { .. } => {
            lemma_element_end(svg, close, other, there + length, "</style>"@, end);
        },
        _ => {},
    }
}

proof fn lemma_alike_shorter(a: Seq<char>, b: Seq<char>, n: int, k: int)
    requires
        alike(a, b, n),
        0 <= k <= n,
    ensures
        alike(a, b, k),
{
    assert forall|i: int| 0 <= i < k implies a[i] == b[i] by {
        lemma_alike(a, b, n, i);
    }
    assert(a.take(k) =~= b.take(k));
}

/// A piece of markup reads the same wherever it stands.
proof fn lemma_local(svg: Seq<char>, at: int, m: Markup, other: Seq<char>, there: int)
    requires
        same_piece(svg, at, m, other, there),
    ensures
        labels::markup_at(other, there) == Some(moved(m, there - at)),
        labels::markup_end(moved(m, there - at)) == labels::markup_end(m) + (there - at),
        at < labels::markup_end(m) <= svg.len(),
{
    lemma_same_piece(svg, at, m, other, there);
    lemma_piece_end(svg, at, m);
    lemma_marks();
    let a = svg.skip(at);
    let b = other.skip(there);
    let end = labels::markup_end(m);
    let n = end - at;
    assert(a[n - 1] == svg[end - 1]);
    lemma_alike_starts(a, b, n, "<!--"@);
    lemma_alike_starts(a, b, n, "<![CDATA["@);
    lemma_alike_starts(a, b, n, "<!"@);
    lemma_alike_starts(a, b, n, "<?"@);
    lemma_alike_starts(a, b, n, "</"@);
    if text::starts(a, "<!--"@) {
        lemma_end_mark(svg, at, "-->"@, end);
        lemma_element_end(svg, at, other, there, "-->"@, end);
    } else if text::starts(a, "<![CDATA["@) {
        lemma_end_mark(svg, at, "]]>"@, end);
        lemma_element_end(svg, at, other, there, "]]>"@, end);
    } else if text::starts(a, "<!"@) || text::starts(a, "<?"@) {
        lemma_end_mark(svg, at, ">"@, end);
        lemma_element_end(svg, at, other, there, ">"@, end);
    } else if text::starts(a, "</"@) {
        text::lemma_find(a, '>');
        let close = text::find(a, '>') as int;
        assert forall|i: int| 0 <= i < close implies #[trigger] b[i] != '>' by {
            lemma_alike(a, b, n, i);
        }
        lemma_alike(a, b, n, close);
        text::lemma_find_is(b, '>', close);
        reveal_strlit("</");
        assert(a.take(2)[1] == a[1] && a.take(2)[0] == a[0]);
        assert(close >= 2);
        assert forall|i: int| 2 <= i < close implies a[i] == b[i] by {
            lemma_alike(a, b, n, i);
        }
        assert(a.subrange(2, close) =~= b.subrange(2, close));
        text::lemma_trimmed_end(a.subrange(2, close));
    } else {
        lemma_local_start(svg, at, m, other, there);
    }
}

/// The name in a tag reads the same wherever it stands.
proof fn lemma_local_name(
    svg: Seq<char>,
    at: int,
    m: Markup,
    other: Seq<char>,
    there: int,
    name: Span,
)
    requires
        same_piece(svg, at, m, other, there),
        match m {
            Markup::StartTag { name: own, .. } => own == name,
            Markup::EndTag { name: own, .. } => own == name,
            _ => false,
        },
    ensures
        at <= name.start <= name.end <= labels::markup_end(m),
        labels::part(other, moved_span(name, there - at)) == labels::part(svg, name),
        forall|i: int|
            m is StartTag && name.start <= i < name.end ==> #[trigger] svg[i] != '>',
        m is EndTag ==> text::trimmed_end(labels::part(svg, name)) == labels::part(svg, name),
{
    lemma_same_piece(svg, at, m, other, there);
    let a = svg.skip(at);
    let b = other.skip(there);
    let n = labels::markup_end(m) - at;
    if m is EndTag {
        reveal_strlit("</");
        text::lemma_find(a, '>');
        let close = text::find(a, '>') as int;
        assert(a.take(2)[1] == a[1] && a.take(2)[0] == a[0]);
        let inside = a.subrange(2, close);
        text::lemma_trimmed_end(inside);
        let own = text::trimmed_end(inside);
        assert(labels::part(svg, name) =~= own);
        if own.len() > 0 {
            assert(text::trimmed_end(own) == own);
        }
    } else {
        labels::lemma_tag_length(a, None);
        let length = labels::tag_length(a, None).unwrap();
        assert(a[0] == svg[at]);
        assert(length >= 2 && length == n);
        lemma_alike_later(a, b, n, 1);
        lemma_alike_name(a.skip(1), b.skip(1), length - 1);
        assert forall|i: int| name.start <= i < name.end implies #[trigger] svg[i] != '>' by {
            assert(svg[i] == a.skip(1)[i - at - 1]);
        }
    }
    assert(labels::part(other, moved_span(name, there - at)) =~= labels::part(svg, name)) by {
        assert forall|i: int| 0 <= i < name.end - name.start implies labels::part(svg, name)[i]
            == labels::part(other, moved_span(name, there - at))[i] by {
            let k = name.start - at + i;
            lemma_alike(a, b, n, k);
            assert(a[k] == svg[at + k] && b[k] == other[there + k]);
        }
    }
}

// ---------------------------------------------------------------------------------------------
// A document without its labels.

/// What has been read stays, and what a document holds lies within it.
proof fn lemma_kept(r: Reading, svg: Seq<char>, at: int)
    requires
        0 <= at <= svg.len() <= usize::MAX,
        labels::sound(r, svg.len() as int, at),
        r.elements.len() <= at,
    ensures
        labels::read_from(r, svg, at) matches Some(d) ==> {
            &&& r.labels.is_prefix_of(d.labels)
            &&& r.elements.is_prefix_of(d.elements)
            &&& r.styles.is_prefix_of(d.styles)
            &&& labels::fits(d, svg.len() as int)
        },
    decreases svg.len() - at,
{
    text::lemma_find(svg.skip(at), '<');
    let start = at + text::find(svg.skip(at), '<');
    if start < svg.len() {
        assert(svg.skip(at)[start - at] == svg[start]);
        if let Some(m) = labels::markup_at(svg, start) {
            labels::lemma_markup(svg, start);
            labels::lemma_read_piece(r, svg, at, start, m);
            if let Some(next) = labels::read_piece(r, svg, start, m) {
                lemma_kept(next, svg, labels::markup_end(m));
                if let Some(d) = labels::read_from(r, svg, at) {
                    assert(r.labels.is_prefix_of(next.labels));
                    assert(r.elements.is_prefix_of(next.elements));
                    assert(r.styles.is_prefix_of(next.styles));
                    lemma_prefixes(r.labels, next.labels, d.labels);
                    lemma_prefixes(r.elements, next.elements, d.elements);
                    lemma_prefixes(r.styles, next.styles, d.styles);
                }
            }
        }
    }
}

proof fn lemma_prefixes<T>(a: Seq<T>, b: Seq<T>, c: Seq<T>)
    requires
        a.is_prefix_of(b),
        b.is_prefix_of(c),
    ensures
        a.is_prefix_of(c),
{
    assert(c.subrange(0, a.len() as int) =~= c.subrange(0, b.len() as int).subrange(
        0,
        a.len() as int,
    ));
}

/// A document from `at` on, without labels.
spec fn stripped(svg: Seq<char>, at: int) -> Seq<char>
    decreases svg.len() - at,
{
    let start = at + text::find(svg.skip(at), '<');
    if start >= svg.len() {
        svg.skip(at)
    } else {
        match labels::markup_at(svg, start) {
            Some(m) if at < labels::markup_end(m) <= svg.len() => if m is Label {
                svg.subrange(at, start) + stripped(svg, labels::markup_end(m))
            } else {
                svg.subrange(at, labels::markup_end(m)) + stripped(svg, labels::markup_end(m))
            },
            _ => svg.skip(at),
        }
    }
}

#[verifier::rlimit(60)]
#[verifier::spinoff_prover]
proof fn lemma_stripped(r: Reading, svg: Seq<char>, at: int, d: DocumentModel)
    requires
        0 <= at <= svg.len() <= usize::MAX,
        labels::sound(r, svg.len() as int, at),
        r.elements.len() <= at,
        labels::read_from(r, svg, at) == Some(d),
        0 <= labels::after_labels(d, r.labels.len() as int) <= at,
    ensures
        ({
            let k = r.labels.len() as int;
            let n = d.labels.len() as int;
            labels::unlabeled(d, svg, k) + svg.subrange(labels::after_labels(d, k), at) + stripped(
                svg,
                at,
            ) == labels::unlabeled(d, svg, n) + svg.skip(labels::after_labels(d, n))
        }),
    decreases svg.len() - at,
{
    let k = r.labels.len() as int;
    let n = d.labels.len() as int;
    let from = labels::after_labels(d, k);
    let done = labels::unlabeled(d, svg, k);
    lemma_kept(r, svg, at);
    text::lemma_find(svg.skip(at), '<');
    let start = at + text::find(svg.skip(at), '<');
    if start >= svg.len() {
        assert(svg.subrange(from, at) + svg.skip(at) =~= svg.skip(from));
        assert(done + svg.subrange(from, at) + svg.skip(at) =~= done + svg.skip(from));
    } else {
        assert(svg.skip(at)[start - at] == svg[start]);
        let m = labels::markup_at(svg, start).unwrap();
        let end = labels::markup_end(m);
        labels::lemma_markup(svg, start);
        labels::lemma_read_piece(r, svg, at, start, m);
        let next = labels::read_piece(r, svg, start, m).unwrap();
        lemma_kept(next, svg, end);
        if m is Label {
            assert(next.labels[k] == d.labels[k]) by {
                assert(d.labels.subrange(0, next.labels.len() as int)[k] == d.labels[k]);
            }
            lemma_stripped(next, svg, end, d);
            assert(labels::unlabeled(d, svg, k + 1) == done + svg.subrange(from, start));
            assert(done + svg.subrange(from, at) + stripped(svg, at) =~= labels::unlabeled(
                d,
                svg,
                k + 1,
            ) + svg.subrange(end, end) + stripped(svg, end));
        } else {
            lemma_stripped(next, svg, end, d);
            assert(done + svg.subrange(from, at) + stripped(svg, at) =~= done + svg.subrange(
                from,
                end,
            ) + stripped(svg, end));
        }
    }
}

/// Whether two readings are of the same elements, the second of them without labels.
spec fn mirrors(r: Reading, svg: Seq<char>, s: Reading, other: Seq<char>) -> bool {
    &&& s.open == r.open
    &&& s.elements.len() == r.elements.len()
    &&& forall|i: int|
        0 <= i < r.elements.len() ==> labels::part(other, (#[trigger] s.elements[i]).name)
            == labels::part(svg, r.elements[i].name)
    &&& s.end is Some <==> r.end is Some
    &&& s.labels.len() == 0
}

/// A piece of markup that is no label tells the same of both.
proof fn lemma_mirrored_piece(
    r: Reading,
    svg: Seq<char>,
    start: int,
    m: Markup,
    s: Reading,
    other: Seq<char>,
    there: int,
)
    requires
        mirrors(r, svg, s, other),
        same_piece(svg, start, m, other, there),
        !(m is Label),
        labels::read_piece(r, svg, start, m) is Some,
        forall|i: int| 0 <= i < r.open.len() ==> (#[trigger] r.open[i]) < r.elements.len(),
    ensures
        labels::read_piece(s, other, there, moved(m, there - start)) is Some,
        mirrors(
            labels::read_piece(r, svg, start, m).unwrap(),
            svg,
            labels::read_piece(s, other, there, moved(m, there - start)).unwrap(),
            other,
        ),
{
    match m {
        Markup::StartTag { name, .. } => {
            lemma_local_name(svg, start, m, other, there, name);
        },
        Markup::EndTag { name, .. } => {
            lemma_local_name(svg, start, m, other, there, name);
            assert(r.open.last() < r.elements.len());
        },
        _ => {},
    }
}

/// Reading goes on in a document without labels as in the one with them.
#[verifier::rlimit(60)]
#[verifier::spinoff_prover]
proof fn lemma_mirrored(
    r: Reading,
    svg: Seq<char>,
    at: int,
    s: Reading,
    other: Seq<char>,
    there: int,
    gap: Seq<char>,
)
    requires
        0 <= at <= svg.len() <= usize::MAX,
        labels::sound(r, svg.len() as int, at),
        r.elements.len() <= at,
        labels::read_from(r, svg, at) is Some,
        0 <= there <= other.len() <= usize::MAX,
        other.skip(there) == gap + stripped(svg, at),
        !gap.contains('<'),
        mirrors(r, svg, s, other),
    ensures
        labels::read_from(s, other, there) matches Some(d) && d.labels.len() == 0,
    decreases svg.len() - at,
{
    let tail = other.skip(there);
    text::lemma_find(svg.skip(at), '<');
    let start = at + text::find(svg.skip(at), '<');
    assert forall|i: int| 0 <= i < gap.len() implies #[trigger] gap[i] != '<' by {
        assert(gap.contains(gap[i]));
    }
    if start >= svg.len() {
        assert forall|i: int| 0 <= i < tail.len() implies #[trigger] tail[i] != '<' by {
            if i < gap.len() {
                assert(tail[i] == gap[i]);
            } else {
                assert(tail[i] == svg.skip(at)[i - gap.len()]);
            }
        }
        text::lemma_find_is(tail, '<', tail.len() as int);
    } else {
        assert(svg.skip(at)[start - at] == svg[start]);
        let m = labels::markup_at(svg, start).unwrap();
        let end = labels::markup_end(m);
        labels::lemma_markup(svg, start);
        labels::lemma_read_piece(r, svg, at, start, m);
        let next = labels::read_piece(r, svg, start, m).unwrap();
        if m is Label {
            let wider = gap + svg.subrange(at, start);
            assert(tail =~= wider + stripped(svg, end));
            assert(!wider.contains('<')) by {
                assert forall|i: int| 0 <= i < wider.len() implies #[trigger] wider[i] != '<' by {
                    if i < gap.len() {
                        assert(wider[i] == gap[i]);
                    } else {
                        assert(wider[i] == svg.skip(at)[i - gap.len()]);
                    }
                }
            }
            lemma_mirrored(next, svg, end, s, other, there, wider);
        } else {
            let from = gap.len() + (start - at);
            let piece = there + from;
            assert(tail =~= gap + svg.subrange(at, end) + stripped(svg, end));
            assert forall|i: int| 0 <= i < from implies #[trigger] tail[i] != '<' by {
                if i < gap.len() {
                    assert(tail[i] == gap[i]);
                } else {
                    assert(tail[i] == svg.skip(at)[i - gap.len()]);
                }
            }
            assert(tail[from] == svg[start]);
            text::lemma_find_is(tail, '<', from);
            assert(svg.subrange(start, end) =~= other.subrange(piece, piece + (end - start))) by {
                assert forall|i: int| 0 <= i < end - start implies svg.subrange(start, end)[i]
                    == other.subrange(piece, piece + (end - start))[i] by {
                    assert(tail[from + i] == other[piece + i]);
                    assert(tail[from + i] == svg.subrange(at, end)[start - at + i]);
                }
            }
            lemma_local(svg, start, m, other, piece);
            lemma_mirrored_piece(r, svg, start, m, s, other, piece);
            let then = piece + (end - start);
            assert(other.skip(then) =~= Seq::<char>::empty() + stripped(svg, end)) by {
                assert(other.skip(then) =~= tail.skip(from + (end - start)));
            }
            lemma_mirrored(
                next,
                svg,
                end,
                labels::read_piece(s, other, piece, moved(m, piece - start)).unwrap(),
                other,
                then,
                Seq::empty(),
            );
        }
    }
}

/// A document without its labels scans as one that has none.
pub proof fn no_labels_are_left(svg: Seq<char>)
    requires
        svg.len() <= usize::MAX,
        labels::read_from(labels::unread(), svg, 0) is Some,
    ensures
        ({
            let d = labels::read_from(labels::unread(), svg, 0).unwrap();
            let out = labels::replaced(d, svg, Seq::empty());
            labels::read_from(labels::unread(), out, 0) matches Some(e) && e.labels.len() == 0
        }),
{
    let r = labels::unread();
    let d = labels::read_from(r, svg, 0).unwrap();
    let n = d.labels.len() as int;
    let out = labels::replaced(d, svg, Seq::empty());
    lemma_kept(r, svg, 0);
    lemma_stripped(r, svg, 0, d);
    let from = labels::after_labels(d, n);
    assert(from <= d.end) by {
        if n > 0 {
            assert(labels::within(d.labels[n - 1].span, d.end as int));
        }
    }
    assert(out =~= labels::unlabeled(d, svg, n) + svg.skip(from));
    assert(out =~= stripped(svg, 0));
    lemma_shorter(svg, 0);
    assert(out.skip(0) =~= Seq::<char>::empty() + stripped(svg, 0));
    lemma_mirrored(r, svg, 0, r, out, 0, Seq::empty());
}

proof fn lemma_shorter(svg: Seq<char>, at: int)
    requires
        0 <= at <= svg.len() <= usize::MAX,
    ensures
        stripped(svg, at).len() <= svg.len() - at,
    decreases svg.len() - at,
{
    text::lemma_find(svg.skip(at), '<');
    let start = at + text::find(svg.skip(at), '<');
    if start < svg.len() {
        if let Some(m) = labels::markup_at(svg, start) {
            let end = labels::markup_end(m);
            assert(svg.skip(at)[start - at] == svg[start]);
            labels::lemma_markup(svg, start);
            lemma_shorter(svg, end);
        }
    }
}

/// How many characters the first `n` labels take.
pub open spec fn label_length(labels: Seq<LabelModel>, n: int) -> int
    decreases n,
{
    if n <= 0 {
        0
    } else {
        label_length(labels, n - 1) + (labels[n - 1].span.end - labels[n - 1].span.start)
    }
}

proof fn lemma_unlabeled_length(d: DocumentModel, svg: Seq<char>, n: int)
    requires
        labels::fits(d, svg.len() as int),
        0 <= n <= d.labels.len(),
    ensures
        labels::unlabeled(d, svg, n).len() == labels::after_labels(d, n) - label_length(
            d.labels,
            n,
        ),
        0 <= labels::after_labels(d, n) <= d.end,
    decreases n,
{
    if n > 0 {
        lemma_unlabeled_length(d, svg, n - 1);
        assert(labels::within(d.labels[n - 1].span, d.end as int));
        if n > 1 {
            assert(d.labels[n - 2].span.end <= d.labels[n - 1].span.start);
        }
    }
}

/// Removing labels takes away nothing else, and what is added stands right before the end of the
/// root element.
pub proof fn only_labels_are_removed(d: DocumentModel, svg: Seq<char>, added: Seq<char>)
    requires
        labels::fits(d, svg.len() as int),
    ensures
        labels::replaced(d, svg, added).len() == svg.len() - label_length(
            d.labels,
            d.labels.len() as int,
        ) + added.len(),
        (added + svg.skip(d.end as int)).is_suffix_of(labels::replaced(d, svg, added)),
{
    let n = d.labels.len() as int;
    let out = labels::replaced(d, svg, added);
    let end = added + svg.skip(d.end as int);
    lemma_unlabeled_length(d, svg, n);
    assert(out.subrange(out.len() - end.len(), out.len() as int) =~= end);
}

// ---------------------------------------------------------------------------------------------
// What a document's parts are.

/// Whether the piece of markup that starts at `at` is `m`.
spec fn is_piece(svg: Seq<char>, at: int, m: Markup) -> bool {
    0 <= at < svg.len() && svg[at] == '<' && labels::markup_at(svg, at) == Some(m)
}

/// The start tag of an element, as a piece of markup.
spec fn tag_piece(e: Element) -> Markup {
    Markup::StartTag { name: e.name, empty: false, end: e.tag.end }
}

/// Whether a name has no white space at its end.
spec fn clean(name: Seq<char>) -> bool {
    text::trimmed_end(name) == name
}

/// Whether what has been read are pieces of markup, and end tags matched.
spec fn known(r: Reading, svg: Seq<char>) -> bool {
    &&& forall|i: int|
        0 <= i < r.elements.len() ==> is_piece(
            svg,
            (#[trigger] r.elements[i]).tag.start as int,
            tag_piece(r.elements[i]),
        )
    &&& forall|i: int|
        0 <= i < r.styles.len() ==> is_piece(
            svg,
            (#[trigger] r.styles[i]).start as int,
            Markup::Style { end: r.styles[i].end },
        )
    &&& forall|i: int|
        0 <= i < r.labels.len() ==> is_piece(
            svg,
            (#[trigger] r.labels[i]).span.start as int,
            Markup::Label { end: r.labels[i].span.end },
        )
    &&& forall|i: int|
        0 <= i < r.elements.len() ==> clean(labels::part(svg, (#[trigger] r.elements[i]).name))
            || r.open.contains(i as usize)
    &&& r.elements.len() > 0 ==> labels::part(svg, r.elements[0].name) == "svg"@
}

proof fn lemma_known_piece(r: Reading, svg: Seq<char>, at: int, start: int, m: Markup)
    requires
        known(r, svg),
        labels::sound(r, svg.len() as int, at),
        r.elements.len() <= at,
        0 <= at <= start < svg.len() <= usize::MAX,
        is_piece(svg, start, m),
        labels::read_piece(r, svg, start, m) is Some,
    ensures
        known(labels::read_piece(r, svg, start, m).unwrap(), svg),
{
    let next = labels::read_piece(r, svg, start, m).unwrap();
    lemma_piece_end(svg, start, m);
    match m {
        Markup::EndTag { name, .. } => {
            assert(same_piece(svg, start, m, svg, start));
            lemma_local_name(svg, start, m, svg, start, name);
            let last = r.open.last();
            assert forall|i: int| 0 <= i < next.elements.len() implies clean(
                labels::part(svg, (#[trigger] next.elements[i]).name),
            ) || next.open.contains(i as usize) by {
                if i as usize == last {
                } else if r.open.contains(i as usize) {
                    let k = choose|k: int| 0 <= k < r.open.len() && r.open[k] == i as usize;
                    assert(next.open[k] == i as usize);
                }
            }
        },
        Markup::StartTag { name, empty, end } => {
            if !empty {
                assert forall|i: int| 0 <= i < next.elements.len() implies clean(
                    labels::part(svg, (#[trigger] next.elements[i]).name),
                ) || next.open.contains(i as usize) by {
                    if i == r.elements.len() {
                        assert(next.open[r.open.len() as int] == i as usize);
                    } else if r.open.contains(i as usize) {
                        let k = choose|k: int| 0 <= k < r.open.len() && r.open[k] == i as usize;
                        assert(next.open[k] == i as usize);
                    }
                }
                if r.elements.len() == 0 && r.open.len() > 0 {
                    assert(r.open[0] < r.elements.len());
                }
            }
        },
        _ => {},
    }
}

/// Whether a document's parts are pieces of markup, and each element has an end tag.
spec fn pieces_of(d: DocumentModel, svg: Seq<char>) -> bool {
    &&& forall|i: int|
        0 <= i < d.elements.len() ==> is_piece(
            svg,
            (#[trigger] d.elements[i]).tag.start as int,
            tag_piece(d.elements[i]),
        )
    &&& forall|i: int|
        0 <= i < d.styles.len() ==> is_piece(
            svg,
            (#[trigger] d.styles[i]).start as int,
            Markup::Style { end: d.styles[i].end },
        )
    &&& forall|i: int|
        0 <= i < d.labels.len() ==> is_piece(
            svg,
            (#[trigger] d.labels[i]).span.start as int,
            Markup::Label { end: d.labels[i].span.end },
        )
    &&& forall|i: int|
        0 <= i < d.elements.len() ==> clean(labels::part(svg, (#[trigger] d.elements[i]).name))
    &&& d.elements.len() > 0 ==> labels::part(svg, d.elements[0].name) == "svg"@
}

proof fn lemma_known(r: Reading, svg: Seq<char>, at: int)
    requires
        0 <= at <= svg.len() <= usize::MAX,
        known(r, svg),
        labels::sound(r, svg.len() as int, at),
        r.elements.len() <= at,
    ensures
        labels::read_from(r, svg, at) matches Some(d) ==> pieces_of(d, svg),
    decreases svg.len() - at,
{
    text::lemma_find(svg.skip(at), '<');
    let start = at + text::find(svg.skip(at), '<');
    if start < svg.len() {
        assert(svg.skip(at)[start - at] == svg[start]);
        if let Some(m) = labels::markup_at(svg, start) {
            labels::lemma_markup(svg, start);
            labels::lemma_read_piece(r, svg, at, start, m);
            if let Some(next) = labels::read_piece(r, svg, start, m) {
                lemma_known_piece(r, svg, at, start, m);
                lemma_known(next, svg, labels::markup_end(m));
            }
        }
    } else if labels::whole(r) is Some {
        assert forall|i: int| 0 <= i < r.elements.len() implies clean(
            labels::part(svg, (#[trigger] r.elements[i]).name),
        ) by {
            assert(!r.open.contains(i as usize));
        }
    }
}

// ---------------------------------------------------------------------------------------------
// Scanning a batch.

/// Whether `s` stands in a document at `at`.
spec fn stands(svg: Seq<char>, at: int, s: Seq<char>) -> bool {
    0 <= at && at + s.len() <= svg.len() && svg.subrange(at, at + s.len()) == s
}

proof fn lemma_stands(svg: Seq<char>, at: int, a: Seq<char>, b: Seq<char>)
    requires
        stands(svg, at, a + b),
    ensures
        stands(svg, at, a),
        stands(svg, at + a.len(), b),
{
    let both = svg.subrange(at, at + (a + b).len());
    assert(svg.subrange(at, at + a.len()) =~= both.take(a.len() as int));
    assert(both.take(a.len() as int) =~= a);
    assert(svg.subrange(at + a.len(), at + a.len() + b.len()) =~= both.skip(a.len() as int));
    assert(both.skip(a.len() as int) =~= b);
}

/// A piece of markup of another document is read like any.
proof fn lemma_feed(svg: Seq<char>, p: int, m: Markup, other: Seq<char>, at: int, s: Reading)
    requires
        svg.len() <= usize::MAX,
        other.len() <= usize::MAX,
        is_piece(svg, p, m),
        p < labels::markup_end(m) <= svg.len(),
        stands(other, at, svg.subrange(p, labels::markup_end(m))),
        labels::read_piece(s, other, at, moved(m, at - p)) is Some,
    ensures
        same_piece(svg, p, m, other, at),
        labels::read_from(s, other, at) == labels::read_from(
            labels::read_piece(s, other, at, moved(m, at - p)).unwrap(),
            other,
            at + (labels::markup_end(m) - p),
        ),
{
    lemma_local(svg, p, m, other, at);
    let piece = svg.subrange(p, labels::markup_end(m));
    assert(other.subrange(at, at + piece.len())[0] == piece[0]);
    assert(other.skip(at)[0] == '<');
    text::lemma_find_is(other.skip(at), '<', 0);
}

/// What is known once the innermost element is closed at `at`.
spec fn closed_at(s: Reading, at: int) -> Reading {
    Reading {
        open: s.open.drop_last(),
        end: if s.open.len() == 1 {
            Some(at as usize)
        } else {
            s.end
        },
        ..s
    }
}

#[verifier::rlimit(40)]
#[verifier::spinoff_prover]
proof fn lemma_feed_end(other: Seq<char>, at: int, name: Seq<char>, s: Reading)
    requires
        other.len() <= usize::MAX,
        stands(other, at, "</"@ + name + ">"@),
        !name.contains('>'),
        clean(name),
        s.open.len() > 0,
        labels::part(other, s.elements[s.open.last() as int].name) == name,
    ensures
        labels::read_from(s, other, at) == labels::read_from(
            closed_at(s, at),
            other,
            at + name.len() + 3,
        ),
{
    reveal_strlit("</");
    reveal_strlit(">");
    reveal_strlit("<!--");
    reveal_strlit("<![CDATA[");
    reveal_strlit("<!");
    reveal_strlit("<?");
    let tag = "</"@ + name + ">"@;
    let rest = other.skip(at);
    let n = tag.len() as int;
    assert(rest.take(n) =~= tag);
    assert forall|i: int| 0 <= i < n implies #[trigger] rest[i] == tag[i] by {
        assert(rest.take(n)[i] == tag[i]);
    }
    assert(rest[0] == '<' && rest[1] == '/' && rest[n - 1] == '>');
    text::lemma_find_is(rest, '<', 0);
    assert(other[at] == rest[0]);
    assert forall|i: int| 0 <= i < n - 1 implies #[trigger] rest[i] != '>' by {
        if i >= 2 {
            assert(tag[i] == name[i - 2]);
            assert(name.contains(name[i - 2]));
        }
    }
    text::lemma_find_is(rest, '>', n - 1);
    assert(rest.take(2) =~= "</"@);
    assert(rest.subrange(2, n - 1) =~= name);
    assert(!text::starts(rest, "<!--"@)) by {
        if text::starts(rest, "<!--"@) {
            assert(rest.take(4)[1] == '!');
        }
    }
    assert(!text::starts(rest, "<![CDATA["@)) by {
        if text::starts(rest, "<![CDATA["@) {
            assert(rest.take(9)[1] == '!');
        }
    }
    assert(!text::starts(rest, "<!"@)) by {
        if text::starts(rest, "<!"@) {
            assert(rest.take(2)[1] == '!');
        }
    }
    assert(!text::starts(rest, "<?"@)) by {
        if text::starts(rest, "<?"@) {
            assert(rest.take(2)[1] == '?');
        }
    }
    let own = labels::span(at + 2, at + 2 + name.len());
    let m = Markup::EndTag { name: own, end: (at + n) as usize };
    assert(labels::markup_at(other, at) == Some(m));
    assert(labels::part(other, own) =~= name) by {
        assert(labels::part(other, own) =~= rest.subrange(2, n - 1));
    }
    assert(labels::read_piece(s, other, at, m) == Some(closed_at(s, at)));
}

/// What is known once the `n` innermost elements are closed, but not the root.
spec fn closed(s: Reading, n: int) -> Reading {
    Reading { open: s.open.take(s.open.len() - n), ..s }
}

/// Whether the innermost elements that are open are called like these.
spec fn called(
    d: DocumentModel,
    svg: Seq<char>,
    elements: Seq<usize>,
    s: Reading,
    other: Seq<char>,
) -> bool {
    &&& elements.len() < s.open.len()
    &&& forall|k: int|
        0 <= k < elements.len() ==> (#[trigger] elements[k]) < d.elements.len() && labels::part(
            other,
            s.elements[s.open[s.open.len() - elements.len() + k] as int].name,
        ) == labels::part(svg, d.elements[elements[k] as int].name)
}

/// A name in a start tag has no `>`.
proof fn lemma_tag_name(d: DocumentModel, svg: Seq<char>, i: int)
    requires
        svg.len() <= usize::MAX,
        pieces_of(d, svg),
        0 <= i < d.elements.len(),
    ensures
        !labels::part(svg, d.elements[i].name).contains('>'),
        d.elements[i].tag.start <= d.elements[i].name.start <= d.elements[i].name.end
            <= d.elements[i].tag.end <= svg.len(),
{
    let e = d.elements[i];
    let m = tag_piece(e);
    let at = e.tag.start as int;
    assert(is_piece(svg, at, m));
    lemma_piece_end(svg, at, m);
    assert(same_piece(svg, at, m, svg, at));
    lemma_local_name(svg, at, m, svg, at, e.name);
    let name = labels::part(svg, e.name);
    if name.contains('>') {
        let k = choose|k: int| 0 <= k < name.len() && name[k] == '>';
        assert(svg[e.name.start + k] != '>');
    }
}

#[verifier::rlimit(40)]
#[verifier::spinoff_prover]
proof fn lemma_close(
    d: DocumentModel,
    svg: Seq<char>,
    elements: Seq<usize>,
    other: Seq<char>,
    at: int,
    s: Reading,
)
    requires
        svg.len() <= usize::MAX,
        other.len() <= usize::MAX,
        pieces_of(d, svg),
        stands(other, at, labels::end_tags(d, svg, elements)),
        called(d, svg, elements, s, other),
    ensures
        labels::read_from(s, other, at) == labels::read_from(
            closed(s, elements.len() as int),
            other,
            at + labels::end_tags(d, svg, elements).len(),
        ),
    decreases elements.len(),
{
    if elements.len() == 0 {
        assert(s.open.take(s.open.len() as int) =~= s.open);
    } else {
        let last = elements.last() as int;
        let name = labels::part(svg, d.elements[last].name);
        let rest = elements.drop_last();
        let tag = "</"@ + name + ">"@;
        let later = labels::end_tags(d, svg, rest);
        let n = elements.len() as int;
        reveal_strlit("</");
        reveal_strlit(">");
        assert(elements[n - 1] < d.elements.len());
        assert(s.open[s.open.len() - n + (n - 1)] == s.open.last());
        lemma_tag_name(d, svg, last);
        lemma_stands(other, at, tag, later);
        assert(clean(labels::part(svg, d.elements[last].name)));
        lemma_feed_end(other, at, name, s);
        let t = closed_at(s, at);
        assert forall|k: int| 0 <= k < rest.len() implies (#[trigger] rest[k]) < d.elements.len()
            && labels::part(other, t.elements[t.open[t.open.len() - rest.len() + k] as int].name)
            == labels::part(svg, d.elements[rest[k] as int].name) by {
            assert(rest[k] == elements[k]);
            assert(t.open[t.open.len() - rest.len() + k] == s.open[s.open.len() - n + k]);
        }
        lemma_close(d, svg, rest, other, at + tag.len(), t);
        assert(closed(t, n - 1).open =~= closed(s, n).open);
        assert(closed(t, n - 1) == closed(s, n));
    }
}

/// What is known once elements are opened from `at` on.
spec fn opened(
    d: DocumentModel,
    svg: Seq<char>,
    elements: Seq<usize>,
    at: int,
    s: Reading,
) -> Reading
    decreases elements.len(),
{
    if elements.len() == 0 {
        s
    } else {
        let b = opened(d, svg, elements.drop_last(), at, s);
        let e = d.elements[elements.last() as int];
        let from = at + labels::start_tags(d, svg, elements.drop_last()).len();
        Reading {
            open: b.open.push(b.elements.len() as usize),
            elements: b.elements.push(
                Element {
                    tag: labels::span(from, from + (e.tag.end - e.tag.start)),
                    name: moved_span(e.name, from - e.tag.start),
                },
            ),
            ..b
        }
    }
}

/// Whether an element of a reading is a copy of one of a document.
spec fn copy_of(
    d: DocumentModel,
    svg: Seq<char>,
    i: int,
    s: Reading,
    other: Seq<char>,
    j: int,
) -> bool {
    &&& 0 <= i < d.elements.len()
    &&& 0 <= j < s.elements.len()
    &&& labels::part(other, s.elements[j].tag) == labels::part(svg, d.elements[i].tag)
    &&& labels::part(other, s.elements[j].name) == labels::part(svg, d.elements[i].name)
}

#[verifier::rlimit(40)]
#[verifier::spinoff_prover]
proof fn lemma_open(
    d: DocumentModel,
    svg: Seq<char>,
    elements: Seq<usize>,
    other: Seq<char>,
    at: int,
    s: Reading,
)
    requires
        svg.len() <= usize::MAX,
        other.len() <= usize::MAX,
        pieces_of(d, svg),
        stands(other, at, labels::start_tags(d, svg, elements)),
        forall|k: int| 0 <= k < elements.len() ==> (#[trigger] elements[k]) < d.elements.len(),
        s.open.len() > 0,
        s.elements.len() <= at,
    ensures
        ({
            let o = opened(d, svg, elements, at, s);
            let n = labels::start_tags(d, svg, elements).len();
            &&& labels::read_from(s, other, at) == labels::read_from(o, other, at + n)
            &&& o.elements.len() == s.elements.len() + elements.len()
            &&& o.elements.len() <= at + n
            &&& s.elements.is_prefix_of(o.elements)
            &&& o.open.len() == s.open.len() + elements.len()
            &&& s.open.is_prefix_of(o.open)
            &&& forall|k: int|
                0 <= k < elements.len() ==> (#[trigger] o.open[s.open.len() + k])
                    == s.elements.len() + k
            &&& forall|k: int|
                0 <= k < elements.len() ==> #[trigger] copy_of(
                    d,
                    svg,
                    elements[k] as int,
                    o,
                    other,
                    s.elements.len() + k,
                )
            &&& o.labels == s.labels
            &&& o.styles == s.styles
            &&& o.end == s.end
        }),
    decreases elements.len(),
{
    if elements.len() == 0 {
        assert(s.elements.subrange(0, s.elements.len() as int) =~= s.elements);
        assert(s.open.subrange(0, s.open.len() as int) =~= s.open);
    } else {
        let most = elements.drop_last();
        let n = elements.len() as int;
        let i = elements.last() as int;
        assert(elements[n - 1] < d.elements.len());
        let e = d.elements[i];
        let before = labels::start_tags(d, svg, most);
        let tag = labels::part(svg, e.tag);
        lemma_stands(other, at, before, tag);
        assert forall|k: int| 0 <= k < most.len() implies (#[trigger] most[k])
            < d.elements.len() by {
            assert(most[k] == elements[k]);
        }
        lemma_open(d, svg, most, other, at, s);
        let b = opened(d, svg, most, at, s);
        let o = opened(d, svg, elements, at, s);
        let from = at + before.len();
        let m = tag_piece(e);
        let p = e.tag.start as int;
        assert(is_piece(svg, p, m));
        lemma_piece_end(svg, p, m);
        lemma_tag_name(d, svg, i);
        assert(labels::read_piece(b, other, from, moved(m, from - p)) == Some(o));
        lemma_feed(svg, p, m, other, from, b);
        lemma_local_name(svg, p, m, other, from, e.name);
        assert(labels::part(other, o.elements[n - 1 + s.elements.len()].tag) =~= tag);
        assert(o.elements.subrange(0, s.elements.len() as int) =~= b.elements.subrange(
            0,
            s.elements.len() as int,
        ));
        assert(o.open.subrange(0, s.open.len() as int) =~= b.open.subrange(
            0,
            s.open.len() as int,
        ));
        assert forall|k: int| 0 <= k < n implies (#[trigger] o.open[s.open.len() + k])
            == s.elements.len() + k by {
            if k < n - 1 {
                assert(o.open[s.open.len() + k] == b.open[s.open.len() + k]);
            }
        }
        assert forall|k: int| 0 <= k < n implies #[trigger] copy_of(
            d,
            svg,
            elements[k] as int,
            o,
            other,
            s.elements.len() + k,
        ) by {
            if k < n - 1 {
                assert(most[k] == elements[k]);
                assert(copy_of(d, svg, most[k] as int, b, other, s.elements.len() + k));
                assert(o.elements[s.elements.len() + k] == b.elements[s.elements.len() + k]);
            }
        }
    }
}

/// Whether a label is a copy of another, with copies of its ancestors around it.
pub open spec fn same_label(
    e: DocumentModel,
    other: Seq<char>,
    i: int,
    d: DocumentModel,
    svg: Seq<char>,
    j: int,
) -> bool {
    let a = e.labels[i];
    let b = d.labels[j];
    &&& labels::part(other, a.span) == labels::part(svg, b.span)
    &&& a.ancestors.len() == b.ancestors.len()
    &&& forall|k: int|
        0 <= k < a.ancestors.len() ==> (#[trigger] a.ancestors[k]) < e.elements.len()
            && labels::part(other, e.elements[a.ancestors[k] as int].tag) == labels::part(
            svg,
            d.elements[b.ancestors[k] as int].tag,
        )
}

/// Whether a document has copies of the first stylesheets of another.
pub open spec fn same_styles(
    e: DocumentModel,
    other: Seq<char>,
    d: DocumentModel,
    svg: Seq<char>,
    n: int,
) -> bool {
    &&& e.styles.len() == n
    &&& forall|i: int|
        0 <= i < n ==> labels::part(other, #[trigger] e.styles[i]) == labels::part(
            svg,
            d.styles[i],
        )
}

/// Whether a document has copies of some labels of another, their ancestors, all its stylesheets
/// and its root's start tag.
pub open spec fn copies(
    e: DocumentModel,
    other: Seq<char>,
    d: DocumentModel,
    svg: Seq<char>,
    from: int,
    to: int,
) -> bool {
    &&& e.elements.len() > 0
    &&& labels::part(other, e.elements[0].tag) == labels::part(svg, d.elements[0].tag)
    &&& same_styles(e, other, d, svg, d.styles.len() as int)
    &&& e.labels.len() == to - from
    &&& forall|i: int| 0 <= i < to - from ==> #[trigger] same_label(e, other, i, d, svg, from + i)
}

/// What a reading holds so far.
spec fn gathered(s: Reading) -> DocumentModel {
    DocumentModel { elements: s.elements, styles: s.styles, labels: s.labels, end: 0 }
}

/// Whether the open elements below the root are copies of these.
spec fn stacked(
    d: DocumentModel,
    svg: Seq<char>,
    open: Seq<usize>,
    s: Reading,
    other: Seq<char>,
) -> bool {
    &&& s.open.len() == open.len() + 1
    &&& s.open[0] < s.elements.len()
    &&& labels::part(other, s.elements[s.open[0] as int].name) == "svg"@
    &&& s.end is None
    &&& forall|k: int|
        0 <= k < open.len() ==> copy_of(
            d,
            svg,
            (#[trigger] open[k]) as int,
            s,
            other,
            s.open[k + 1] as int,
        )
}

proof fn lemma_shared_prefix(a: Seq<usize>, b: Seq<usize>, k: int)
    requires
        0 <= k < labels::shared(a, b),
    ensures
        labels::shared(a, b) <= a.len(),
        labels::shared(a, b) <= b.len(),
        a[k] == b[k],
    decreases a.len(),
{
    labels::lemma_shared(a, b);
    if k > 0 {
        lemma_shared_prefix(a.drop_first(), b.drop_first(), k - 1);
    }
}

/// Labels stay copies when more is read.
proof fn lemma_label_stays(
    e: DocumentModel,
    f: DocumentModel,
    other: Seq<char>,
    i: int,
    d: DocumentModel,
    svg: Seq<char>,
    j: int,
)
    requires
        same_label(e, other, i, d, svg, j),
        e.elements.is_prefix_of(f.elements),
        0 <= i < e.labels.len() <= f.labels.len(),
        e.labels[i] == f.labels[i],
    ensures
        same_label(f, other, i, d, svg, j),
{
    assert forall|k: int| 0 <= k < f.labels[i].ancestors.len() implies (
    #[trigger] f.labels[i].ancestors[k]) < f.elements.len() && labels::part(
        other,
        f.elements[f.labels[i].ancestors[k] as int].tag,
    ) == labels::part(svg, d.elements[d.labels[j].ancestors[k] as int].tag) by {
        let n = e.labels[i].ancestors[k] as int;
        assert(n < e.elements.len());
        assert(f.elements.subrange(0, e.elements.len() as int)[n] == f.elements[n]);
    }
}

/// Closing and opening elements leads from the ancestors of one label to those of the next.
#[verifier::rlimit(40)]
#[verifier::spinoff_prover]
proof fn lemma_reach(
    d: DocumentModel,
    svg: Seq<char>,
    open: Seq<usize>,
    ancestors: Seq<usize>,
    other: Seq<char>,
    at: int,
    s: Reading,
) -> (t: Reading)
    requires
        svg.len() <= usize::MAX,
        other.len() <= usize::MAX,
        pieces_of(d, svg),
        stacked(d, svg, open, s, other),
        s.elements.len() <= at,
        forall|k: int| 0 <= k < ancestors.len() ==> (#[trigger] ancestors[k]) < d.elements.len(),
        stands(
            other,
            at,
            labels::end_tags(d, svg, open.skip(labels::shared(open, ancestors)))
                + labels::start_tags(d, svg, ancestors.skip(labels::shared(open, ancestors))),
        ),
    ensures
        ({
            let common = labels::shared(open, ancestors);
            let n = (labels::end_tags(d, svg, open.skip(common)) + labels::start_tags(
                d,
                svg,
                ancestors.skip(common),
            )).len();
            &&& labels::read_from(s, other, at) == labels::read_from(t, other, at + n)
            &&& stacked(d, svg, ancestors, t, other)
            &&& s.elements.is_prefix_of(t.elements)
            &&& t.elements.len() <= at + n
            &&& t.labels == s.labels
            &&& t.styles == s.styles
        }),
{
    let common = labels::shared(open, ancestors);
    labels::lemma_shared(open, ancestors);
    let leaving = open.skip(common);
    let coming = ancestors.skip(common);
    let ends = labels::end_tags(d, svg, leaving);
    let starts = labels::start_tags(d, svg, coming);
    lemma_stands(other, at, ends, starts);
    assert(called(d, svg, leaving, s, other)) by {
        assert forall|k: int| 0 <= k < leaving.len() implies (#[trigger] leaving[k])
            < d.elements.len() && labels::part(
            other,
            s.elements[s.open[s.open.len() - leaving.len() + k] as int].name,
        ) == labels::part(svg, d.elements[leaving[k] as int].name) by {
            assert(leaving[k] == open[common + k]);
            assert(copy_of(d, svg, open[common + k] as int, s, other, s.open[common + k + 1] as int));
        }
    }
    lemma_close(d, svg, leaving, other, at, s);
    let c = closed(s, leaving.len() as int);
    assert(c.open.len() == common + 1);
    assert forall|k: int| 0 <= k < coming.len() implies (#[trigger] coming[k])
        < d.elements.len() by {
        assert(coming[k] == ancestors[common + k]);
    }
    lemma_open(d, svg, coming, other, at + ends.len(), c);
    let t = opened(d, svg, coming, at + ends.len(), c);
    let m = s.elements.len() as int;
    assert(t.open.subrange(0, c.open.len() as int) =~= c.open);
    assert forall|k: int| 0 <= k < ancestors.len() implies copy_of(
        d,
        svg,
        (#[trigger] ancestors[k]) as int,
        t,
        other,
        t.open[k + 1] as int,
    ) by {
        if k < common {
            lemma_shared_prefix(open, ancestors, k);
            let j = s.open[k + 1] as int;
            assert(copy_of(d, svg, open[k] as int, s, other, j));
            assert(t.open.subrange(0, c.open.len() as int)[k + 1] == c.open[k + 1]);
            assert(c.open[k + 1] == s.open[k + 1]);
            assert(t.elements.subrange(0, m)[j] == s.elements[j]);
        } else {
            assert(coming[k - common] == ancestors[k]);
            assert(copy_of(d, svg, coming[k - common] as int, t, other, m + (k - common)));
            assert(t.open[c.open.len() + (k - common)] == m + (k - common));
        }
    }
    assert(t.open.subrange(0, c.open.len() as int)[0] == c.open[0]);
    assert(c.open[0] == s.open[0]);
    assert(t.elements.subrange(0, m)[s.open[0] as int] == s.elements[s.open[0] as int]);
    t
}

/// What holds between the labels of a batch.
spec fn midway(
    d: DocumentModel,
    svg: Seq<char>,
    from: int,
    count: int,
    open: Seq<usize>,
    s: Reading,
    other: Seq<char>,
    at: int,
) -> bool {
    &&& svg.len() <= usize::MAX
    &&& other.len() <= usize::MAX
    &&& pieces_of(d, svg)
    &&& labels::fits(d, svg.len() as int)
    &&& 0 <= at
    &&& s.elements.len() <= at
    &&& stacked(d, svg, open, s, other)
    &&& copies(gathered(s), other, d, svg, from, from + count)
}

/// The next label of a batch is read.
#[verifier::rlimit(40)]
#[verifier::spinoff_prover]
proof fn lemma_label(
    d: DocumentModel,
    svg: Seq<char>,
    from: int,
    count: int,
    open: Seq<usize>,
    s: Reading,
    other: Seq<char>,
    at: int,
) -> (t: Reading)
    requires
        midway(d, svg, from, count, open, s, other, at),
        0 <= from,
        0 <= count,
        from + count < d.labels.len(),
        ({
            let label = d.labels[from + count];
            let common = labels::shared(open, label.ancestors);
            stands(
                other,
                at,
                labels::end_tags(d, svg, open.skip(common)) + labels::start_tags(
                    d,
                    svg,
                    label.ancestors.skip(common),
                ) + labels::part(svg, label.span),
            )
        }),
    ensures
        ({
            let label = d.labels[from + count];
            let common = labels::shared(open, label.ancestors);
            let n = (labels::end_tags(d, svg, open.skip(common)) + labels::start_tags(
                d,
                svg,
                label.ancestors.skip(common),
            ) + labels::part(svg, label.span)).len();
            &&& labels::read_from(s, other, at) == labels::read_from(t, other, at + n)
            &&& midway(d, svg, from, count + 1, label.ancestors, t, other, at + n)
        }),
{
    let j = from + count;
    let label = d.labels[j];
    let common = labels::shared(open, label.ancestors);
    let way = labels::end_tags(d, svg, open.skip(common)) + labels::start_tags(
        d,
        svg,
        label.ancestors.skip(common),
    );
    let own = labels::part(svg, label.span);
    lemma_stands(other, at, way, own);
    assert forall|k: int| 0 <= k < label.ancestors.len() implies (#[trigger] label.ancestors[k])
        < d.elements.len() by {
        assert(d.labels[j].ancestors[k] < d.elements.len());
    }
    let r = lemma_reach(d, svg, open, label.ancestors, other, at, s);
    let there = at + way.len();
    let m = Markup::Label { end: label.span.end };
    let p = label.span.start as int;
    assert(is_piece(svg, p, m));
    lemma_piece_end(svg, p, m);
    let t = labels::read_piece(r, other, there, moved(m, there - p)).unwrap();
    lemma_feed(svg, p, m, other, there, r);
    let e = gathered(t);
    assert(s.elements.subrange(0, s.elements.len() as int) =~= s.elements);
    assert(t.elements.subrange(0, s.elements.len() as int)[0] == s.elements[0]);
    assert forall|i: int| 0 <= i < count + 1 implies #[trigger] same_label(
        e,
        other,
        i,
        d,
        svg,
        from + i,
    ) by {
        if i < count {
            assert(same_label(gathered(s), other, i, d, svg, from + i));
            lemma_label_stays(gathered(s), e, other, i, d, svg, from + i);
        } else {
            let a = e.labels[i];
            assert(labels::part(other, a.span) =~= own);
            assert forall|k: int| 0 <= k < a.ancestors.len() implies (#[trigger] a.ancestors[k])
                < e.elements.len() && labels::part(other, e.elements[a.ancestors[k] as int].tag)
                == labels::part(svg, d.elements[label.ancestors[k] as int].tag) by {
                assert(a.ancestors[k] == r.open[k + 1]);
                assert(copy_of(d, svg, label.ancestors[k] as int, r, other, r.open[k + 1] as int));
            }
        }
    }
    assert forall|i: int| 0 <= i < d.styles.len() implies labels::part(
        other,
        #[trigger] e.styles[i],
    ) == labels::part(svg, d.styles[i]) by {
        assert(e.styles[i] == gathered(s).styles[i]);
    }
    assert forall|k: int| 0 <= k < label.ancestors.len() implies copy_of(
        d,
        svg,
        (#[trigger] label.ancestors[k]) as int,
        t,
        other,
        t.open[k + 1] as int,
    ) by {
        assert(copy_of(d, svg, label.ancestors[k] as int, r, other, r.open[k + 1] as int));
    }
    t
}

/// The labels of a batch are read, and their ancestors closed.
#[verifier::rlimit(40)]
#[verifier::spinoff_prover]
proof fn lemma_nested(
    d: DocumentModel,
    svg: Seq<char>,
    from: int,
    count: int,
    to: int,
    open: Seq<usize>,
    s: Reading,
    other: Seq<char>,
    at: int,
) -> (t: Reading)
    requires
        midway(d, svg, from, count, open, s, other, at),
        0 <= from,
        0 <= count,
        from + count <= to <= d.labels.len(),
        stands(other, at, labels::nested(d, svg, d.labels.subrange(from + count, to), open)),
    ensures
        ({
            let n = labels::nested(d, svg, d.labels.subrange(from + count, to), open).len();
            &&& labels::read_from(s, other, at) == labels::read_from(t, other, at + n)
            &&& midway(d, svg, from, to - from, Seq::empty(), t, other, at + n)
        }),
    decreases to - from - count,
{
    let rest = d.labels.subrange(from + count, to);
    if rest.len() == 0 {
        let ends = labels::end_tags(d, svg, open);
        assert(called(d, svg, open, s, other)) by {
            assert forall|k: int| 0 <= k < open.len() implies (#[trigger] open[k])
                < d.elements.len() && labels::part(
                other,
                s.elements[s.open[s.open.len() - open.len() + k] as int].name,
            ) == labels::part(svg, d.elements[open[k] as int].name) by {
                assert(copy_of(d, svg, open[k] as int, s, other, s.open[k + 1] as int));
            }
        }
        lemma_close(d, svg, open, other, at, s);
        let t = closed(s, open.len() as int);
        assert(gathered(t) == gathered(s));
        t
    } else {
        let label = d.labels[from + count];
        assert(rest[0] == label);
        let common = labels::shared(open, label.ancestors);
        let step = labels::end_tags(d, svg, open.skip(common)) + labels::start_tags(
            d,
            svg,
            label.ancestors.skip(common),
        ) + labels::part(svg, label.span);
        let later = d.labels.subrange(from + count + 1, to);
        assert(rest.drop_first() =~= later);
        let after = labels::nested(d, svg, later, label.ancestors);
        lemma_stands(other, at, step, after);
        let r = lemma_label(d, svg, from, count, open, s, other, at);
        lemma_nested(d, svg, from, count + 1, to, label.ancestors, r, other, at + step.len())
    }
}

/// What is known once the root element is opened and `n` stylesheets are read.
spec fn styled(
    d: DocumentModel,
    svg: Seq<char>,
    n: int,
    s: Reading,
    other: Seq<char>,
    at: int,
) -> bool {
    &&& 1 <= at
    &&& s.elements.len() == 1
    &&& s.open == seq![0usize]
    &&& s.end is None
    &&& s.labels.len() == 0
    &&& labels::part(other, s.elements[0].tag) == labels::part(svg, d.elements[0].tag)
    &&& labels::part(other, s.elements[0].name) == "svg"@
    &&& same_styles(gathered(s), other, d, svg, n)
}

proof fn lemma_styles(
    d: DocumentModel,
    svg: Seq<char>,
    n: int,
    s: Reading,
    other: Seq<char>,
    at: int,
) -> (t: Reading)
    requires
        svg.len() <= usize::MAX,
        other.len() <= usize::MAX,
        pieces_of(d, svg),
        0 <= n <= d.styles.len(),
        styled(d, svg, 0, s, other, at),
        stands(other, at, labels::style_text(d, svg, n)),
    ensures
        labels::read_from(s, other, at) == labels::read_from(
            t,
            other,
            at + labels::style_text(d, svg, n).len(),
        ),
        styled(d, svg, n, t, other, at + labels::style_text(d, svg, n).len()),
    decreases n,
{
    if n == 0 {
        s
    } else {
        let before = labels::style_text(d, svg, n - 1);
        let own = labels::part(svg, d.styles[n - 1]);
        lemma_stands(other, at, before, own);
        let r = lemma_styles(d, svg, n - 1, s, other, at);
        let there = at + before.len();
        let m = Markup::Style { end: d.styles[n - 1].end };
        let p = d.styles[n - 1].start as int;
        assert(is_piece(svg, p, m));
        lemma_piece_end(svg, p, m);
        let t = labels::read_piece(r, other, there, moved(m, there - p)).unwrap();
        lemma_feed(svg, p, m, other, there, r);
        assert forall|i: int| 0 <= i < n implies labels::part(
            other,
            #[trigger] gathered(t).styles[i],
        ) == labels::part(svg, d.styles[i]) by {
            if i < n - 1 {
                assert(gathered(t).styles[i] == gathered(r).styles[i]);
            } else {
                assert(labels::part(other, gathered(t).styles[i]) =~= own);
            }
        }
        t
    }
}

/// The root's start tag is read.
proof fn lemma_root(d: DocumentModel, svg: Seq<char>, other: Seq<char>) -> (t: Reading)
    requires
        svg.len() <= usize::MAX,
        other.len() <= usize::MAX,
        pieces_of(d, svg),
        d.elements.len() > 0,
        stands(other, 0, labels::part(svg, d.elements[0].tag)),
    ensures
        labels::read_from(labels::unread(), other, 0) == labels::read_from(
            t,
            other,
            labels::part(svg, d.elements[0].tag).len() as int,
        ),
        styled(d, svg, 0, t, other, labels::part(svg, d.elements[0].tag).len() as int),
{
    let e = d.elements[0];
    let m = tag_piece(e);
    let p = e.tag.start as int;
    let s = labels::unread();
    assert(is_piece(svg, p, m));
    lemma_piece_end(svg, p, m);
    assert(same_piece(svg, p, m, other, 0)) by {
        assert(labels::part(svg, e.tag) == svg.subrange(p, labels::markup_end(m)));
    }
    lemma_local_name(svg, p, m, other, 0, e.name);
    let t = labels::read_piece(s, other, 0, moved(m, 0 - p)).unwrap();
    lemma_feed(svg, p, m, other, 0, s);
    assert(labels::part(other, t.elements[0].tag) =~= labels::part(svg, e.tag));
    assert(t.open =~= seq![0usize]);
    t
}

/// The root is closed at the end of a batch.
#[verifier::rlimit(40)]
#[verifier::spinoff_prover]
proof fn lemma_finish(
    d: DocumentModel,
    svg: Seq<char>,
    from: int,
    to: int,
    s: Reading,
    other: Seq<char>,
    at: int,
)
    requires
        midway(d, svg, from, to - from, Seq::empty(), s, other, at),
        stands(other, at, "</svg>"@),
        at + 6 == other.len(),
    ensures
        labels::read_from(s, other, at) matches Some(e) && copies(e, other, d, svg, from, to),
{
    reveal_strlit("</svg>");
    reveal_strlit("</");
    reveal_strlit(">");
    reveal_strlit("svg");
    assert("</"@ + "svg"@ + ">"@ =~= "</svg>"@);
    assert(clean("svg"@));
    assert(s.open[0] == s.open.last());
    lemma_feed_end(other, at, "svg"@, s);
    let r = closed_at(s, at);
    let n = other.len() as int;
    text::lemma_find(other.skip(n), '<');
    assert(labels::read_from(r, other, n) == labels::whole(r));
    let e = labels::whole(r).unwrap();
    assert forall|i: int| 0 <= i < to - from implies #[trigger] same_label(
        e,
        other,
        i,
        d,
        svg,
        from + i,
    ) by {
        assert(same_label(gathered(s), other, i, d, svg, from + i));
        assert(e.elements.subrange(0, e.elements.len() as int) =~= e.elements);
        lemma_label_stays(gathered(s), e, other, i, d, svg, from + i);
    }
    assert(same_styles(gathered(s), other, d, svg, d.styles.len() as int));
}

/// Scanning a batch finds its labels again, in order, with copies of their ancestors around
/// them, every stylesheet, and the root's start tag.
#[verifier::rlimit(40)]
#[verifier::spinoff_prover]
pub proof fn batches_scan_as_their_labels(svg: Seq<char>, from: int, to: int)
    requires
        svg.len() <= usize::MAX,
        labels::read_from(labels::unread(), svg, 0) is Some,
        ({
            let d = labels::read_from(labels::unread(), svg, 0).unwrap();
            &&& 0 <= from <= to <= d.labels.len()
            &&& labels::batch_text(d, svg, from, to).len() <= usize::MAX
        }),
    ensures
        ({
            let d = labels::read_from(labels::unread(), svg, 0).unwrap();
            let batch = labels::batch_text(d, svg, from, to);
            labels::read_from(labels::unread(), batch, 0) matches Some(e) && copies(
                e,
                batch,
                d,
                svg,
                from,
                to,
            )
        }),
{
    let d = labels::read_from(labels::unread(), svg, 0).unwrap();
    let other = labels::batch_text(d, svg, from, to);
    lemma_kept(labels::unread(), svg, 0);
    lemma_known(labels::unread(), svg, 0);
    reveal_strlit("</svg>");
    let root = labels::part(svg, d.elements[0].tag);
    let styles = labels::style_text(d, svg, d.styles.len() as int);
    let inside = labels::nested(d, svg, d.labels.subrange(from, to), Seq::empty());
    let end = "</svg>"@;
    assert(other.subrange(0, other.len() as int) =~= other);
    assert(stands(other, 0, root + styles + inside + end));
    lemma_stands(other, 0, root + styles + inside, end);
    lemma_stands(other, 0, root + styles, inside);
    lemma_stands(other, 0, root, styles);
    let a = lemma_root(d, svg, other);
    let b = lemma_styles(d, svg, d.styles.len() as int, a, other, root.len() as int);
    let at = (root + styles).len() as int;
    assert(midway(d, svg, from, 0, Seq::empty(), b, other, at));
    let c = lemma_nested(d, svg, from, 0, to, Seq::empty(), b, other, at);
    lemma_finish(d, svg, from, to, c, other, at + inside.len());
}

} // verus!
