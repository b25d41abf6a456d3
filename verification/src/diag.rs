//! Diagnostics printed with an excerpt of the source they point into.

use vstd::prelude::*;
use vstd::slice::slice_subrange;

use crate::input::{Diagram, DiagramModel};
use crate::text;
use crate::utf8;

verus! {

/// What mer says about input that holds no diagram.
pub const NO_DIAGRAM: &'static str = "no Mermaid diagram found";

#[derive(Clone, Debug, PartialEq, Eq)]
pub struct Diagnostic {
    pub message: String,
    /// Byte range within the diagram text.
    pub span: Option<(usize, usize)>,
}

/// What a [`Diagnostic`] says.
pub struct DiagnosticModel {
    pub message: Seq<char>,
    pub span: Option<(usize, usize)>,
}

impl View for Diagnostic {
    type V = DiagnosticModel;

    open spec fn view(&self) -> DiagnosticModel {
        DiagnosticModel { message: self.message@, span: self.span }
    }
}

/// The escape sequences for red, blue, bold and plain text.
pub struct Colors {
    pub red: Seq<char>,
    pub blue: Seq<char>,
    pub bold: Seq<char>,
    pub reset: Seq<char>,
}

/// The escape sequences to use, none of them without color.
pub open spec fn colors(color: bool) -> Colors {
    if color {
        Colors { red: "\x1b[1;31m"@, blue: "\x1b[1;34m"@, bold: "\x1b[1m"@, reset: "\x1b[0m"@ }
    } else {
        Colors { red: ""@, blue: ""@, bold: ""@, reset: ""@ }
    }
}

/// Where in a diagram a diagnostic points.
pub struct Place {
    /// The line, without its ending.
    pub source: Seq<char>,
    /// One-based line of the input.
    pub number: nat,
    /// One-based column, in characters.
    pub column: nat,
}

/// The place of the character at or around a byte of the diagram's text, or of its end.
pub open spec fn place(diagram: DiagramModel, start: nat) -> Place {
    let at = utf8::chars_within(diagram.text, start) as int;
    let before = diagram.text.take(at);
    let line_start = text::after_last(before, '\n') as int;
    let line_end = at + text::find(diagram.text.skip(at), '\n');
    Place {
        source: text::without_trailing(diagram.text.subrange(line_start, line_end), '\r'),
        number: diagram.first_line + text::count(before, '\n') + 1,
        column: (at - line_start + 1) as nat,
    }
}

/// So many spaces.
pub open spec fn spaces(n: nat) -> Seq<char> {
    Seq::new(n, |i: int| ' ')
}

/// What stands before the caret: the tabs of the line, and spaces for everything else.
pub open spec fn indentation(source: Seq<char>, columns: nat) -> Seq<char> {
    let n = if columns < source.len() {
        columns
    } else {
        source.len()
    };
    Seq::new(
        n,
        |i: int|
            if source[i] == '\t' {
                '\t'
            } else {
                ' '
            },
    )
}

/// `head`, and the lines that show a place: where it is, the line, and a caret under the column.
pub open spec fn framed(head: Seq<char>, c: Colors, origin: Seq<char>, place: Place) -> Seq<char> {
    let number = text::decimal(place.number);
    let pad = spaces(number.len());
    head + pad + c.blue + "-->"@ + c.reset + " "@ + origin + ":"@ + number + ":"@ + text::decimal(
        place.column,
    ) + "\n"@ + pad + " "@ + c.blue + "|"@ + c.reset + "\n"@ + c.blue + number + " |"@ + c.reset
        + " "@ + place.source + "\n"@ + pad + " "@ + c.blue + "|"@ + c.reset + " "@ + indentation(
        place.source,
        (place.column - 1) as nat,
    ) + c.red + "^"@ + c.reset + "\n"@
}

/// A diagnostic with what it points at.
pub open spec fn formatted(
    diagnostic: DiagnosticModel,
    diagram: DiagramModel,
    color: bool,
) -> Seq<char> {
    let c = colors(color);
    let head = c.red + "error"@ + c.reset + c.bold + ": "@ + diagnostic.message + c.reset + "\n"@;
    match diagnostic.span {
        Some((start, _)) => framed(head, c, diagram.origin, place(diagram, start as nat)),
        None => head + " "@ + c.blue + "-->"@ + c.reset + " "@ + diagram.origin + "\n"@,
    }
}

/// How long the color sequence is whose ESC stands before `s`: up to its `m`.
pub open spec fn color_length(s: Seq<char>) -> int
    decreases s.len(),
{
    if s.len() == 0 {
        0
    } else if s[0] == 'm' {
        1
    } else {
        1 + color_length(s.drop_first())
    }
}

/// `s` without its color sequences.
pub open spec fn uncolored(s: Seq<char>) -> Seq<char>
    decreases s.len(),
{
    if s.len() == 0 {
        Seq::empty()
    } else if s[0] == '\x1b' {
        let n = 1 + color_length(s.drop_first());
        if 0 < n <= s.len() {
            uncolored(s.skip(n))
        } else {
            Seq::empty()
        }
    } else {
        seq![s[0]] + uncolored(s.drop_first())
    }
}

/// Whether a text has no escape sequences.
pub open spec fn plain(s: Seq<char>) -> bool {
    !s.contains('\x1b')
}

proof fn lemma_uncolored_plain(a: Seq<char>, b: Seq<char>)
    requires
        plain(a),
    ensures
        uncolored(a + b) == a + uncolored(b),
    decreases a.len(),
{
    if a.len() == 0 {
        assert(a + b =~= b);
        assert(a + uncolored(b) =~= uncolored(b));
    } else {
        let rest = a.drop_first();
        assert(a.contains(a[0]));
        assert(plain(rest)) by {
            if rest.contains('\x1b') {
                let i = choose|i: int| 0 <= i < rest.len() && rest[i] == '\x1b';
                assert(a[i + 1] == '\x1b');
            }
        }
        lemma_uncolored_plain(rest, b);
        assert((a + b).drop_first() =~= rest + b);
        assert(seq![a[0]] + (rest + uncolored(b)) =~= a + uncolored(b));
    }
}

/// Whether a text is a color sequence: an ESC, and then up to its only `m`.
spec fn is_code(code: Seq<char>) -> bool {
    &&& code.len() >= 2
    &&& code[0] == '\x1b'
    &&& code.last() == 'm'
    &&& forall|i: int| 0 <= i < code.len() - 1 ==> #[trigger] code[i] != 'm'
}

proof fn lemma_color_length(s: Seq<char>, n: int)
    requires
        0 <= n < s.len(),
        s[n] == 'm',
        forall|i: int| 0 <= i < n ==> #[trigger] s[i] != 'm',
    ensures
        color_length(s) == n + 1,
    decreases n,
{
    if n > 0 {
        assert(s[0] != 'm');
        let rest = s.drop_first();
        assert forall|i: int| 0 <= i < n - 1 implies #[trigger] rest[i] != 'm' by {
            assert(s[i + 1] != 'm');
        }
        lemma_color_length(rest, n - 1);
    }
}

proof fn lemma_uncolored_code(code: Seq<char>, b: Seq<char>)
    requires
        is_code(code),
    ensures
        uncolored(code + b) == uncolored(b),
{
    let all = code + b;
    let n = code.len() as int;
    let rest = all.drop_first();
    assert forall|i: int| 0 <= i < n - 2 implies #[trigger] rest[i] != 'm' by {
        assert(code[i + 1] != 'm');
    }
    assert(rest[n - 2] == code[n - 1]);
    lemma_color_length(rest, n - 2);
    assert(all.skip(n) =~= b);
}

proof fn lemma_code_texts()
    ensures
        is_code("\x1b[1;31m"@),
        is_code("\x1b[1;34m"@),
        is_code("\x1b[1m"@),
        is_code("\x1b[0m"@),
        ""@.len() == 0,
{
    reveal_strlit("\x1b[1;31m");
    reveal_strlit("\x1b[1;34m");
    reveal_strlit("\x1b[1m");
    reveal_strlit("\x1b[0m");
    reveal_strlit("");
}

/// Whether `a` is `p` with color sequences, all of them whole.
spec fn colors_of(a: Seq<char>, p: Seq<char>) -> bool {
    &&& plain(p)
    &&& forall|b: Seq<char>| #[trigger] uncolored(a + b) == p + uncolored(b)
}

proof fn lemma_text(a: Seq<char>, p: Seq<char>, t: Seq<char>)
    requires
        colors_of(a, p),
        plain(t),
    ensures
        colors_of(a + t, p + t),
{
    assert forall|b: Seq<char>| #[trigger] uncolored((a + t) + b) == (p + t) + uncolored(b) by {
        assert((a + t) + b =~= a + (t + b));
        lemma_uncolored_plain(t, b);
        assert(p + (t + uncolored(b)) =~= (p + t) + uncolored(b));
    }
    lemma_plain(p, t);
}

proof fn lemma_plain(p: Seq<char>, t: Seq<char>)
    requires
        plain(p),
        plain(t),
    ensures
        plain(p + t),
{
    if (p + t).contains('\x1b') {
        let i = choose|i: int| 0 <= i < (p + t).len() && (p + t)[i] == '\x1b';
        if i < p.len() {
            assert(p.contains(p[i]));
        } else {
            assert(t.contains(t[i - p.len()]));
        }
    }
}

proof fn lemma_color(a: Seq<char>, p: Seq<char>, code: Seq<char>)
    requires
        colors_of(a, p),
        is_code(code),
    ensures
        colors_of(a + code, p + ""@),
{
    reveal_strlit("");
    assert(p + ""@ =~= p);
    assert forall|b: Seq<char>| #[trigger] uncolored((a + code) + b) == p + uncolored(b) by {
        assert((a + code) + b =~= a + (code + b));
        lemma_uncolored_code(code, b);
    }
}

proof fn lemma_head(message: Seq<char>)
    requires
        plain(message),
    ensures
        ({
            let c = colors(true);
            let d = colors(false);
            colors_of(
                c.red + "error"@ + c.reset + c.bold + ": "@ + message + c.reset + "\n"@,
                d.red + "error"@ + d.reset + d.bold + ": "@ + message + d.reset + "\n"@,
            )
        }),
{
    let c = colors(true);
    lemma_code_texts();
    lemma_plain_texts();
    assert(colors_of(c.red, ""@)) by {
        assert forall|b: Seq<char>| #[trigger] uncolored(c.red + b) == ""@ + uncolored(b) by {
            lemma_uncolored_code(c.red, b);
            assert(""@ + uncolored(b) =~= uncolored(b));
        }
    }
    lemma_text(c.red, ""@, "error"@);
    let a1 = c.red + "error"@;
    let p1 = ""@ + "error"@;
    lemma_color(a1, p1, c.reset);
    let a2 = a1 + c.reset;
    let p2 = p1 + ""@;
    lemma_color(a2, p2, c.bold);
    let a3 = a2 + c.bold;
    let p3 = p2 + ""@;
    lemma_text(a3, p3, ": "@);
    let a4 = a3 + ": "@;
    let p4 = p3 + ": "@;
    lemma_text(a4, p4, message);
    let a5 = a4 + message;
    let p5 = p4 + message;
    lemma_color(a5, p5, c.reset);
    let a6 = a5 + c.reset;
    let p6 = p5 + ""@;
    lemma_text(a6, p6, "\n"@);
}

proof fn lemma_pointed(head: Seq<char>, bare: Seq<char>, origin: Seq<char>)
    requires
        colors_of(head, bare),
        plain(origin),
    ensures
        ({
            let c = colors(true);
            let d = colors(false);
            colors_of(
                head + " "@ + c.blue + "-->"@ + c.reset + " "@ + origin + "\n"@,
                bare + " "@ + d.blue + "-->"@ + d.reset + " "@ + origin + "\n"@,
            )
        }),
{
    let c = colors(true);
    lemma_code_texts();
    lemma_plain_texts();
    lemma_text(head, bare, " "@);
    let a1 = head + " "@;
    let p1 = bare + " "@;
    lemma_color(a1, p1, c.blue);
    let a2 = a1 + c.blue;
    let p2 = p1 + ""@;
    lemma_text(a2, p2, "-->"@);
    let a3 = a2 + "-->"@;
    let p3 = p2 + "-->"@;
    lemma_color(a3, p3, c.reset);
    let a4 = a3 + c.reset;
    let p4 = p3 + ""@;
    lemma_text(a4, p4, " "@);
    let a5 = a4 + " "@;
    let p5 = p4 + " "@;
    lemma_text(a5, p5, origin);
    let a6 = a5 + origin;
    let p6 = p5 + origin;
    lemma_text(a6, p6, "\n"@);
}

#[verifier::rlimit(30)]
proof fn lemma_framed(head: Seq<char>, bare: Seq<char>, origin: Seq<char>, place: Place)
    requires
        colors_of(head, bare),
        plain(origin),
        plain(place.source),
    ensures
        colors_of(
            framed(head, colors(true), origin, place),
            framed(bare, colors(false), origin, place),
        ),
{
    let c = colors(true);
    let number = text::decimal(place.number);
    let column = text::decimal(place.column);
    let pad = spaces(number.len());
    let caret = indentation(place.source, (place.column - 1) as nat);
    lemma_code_texts();
    lemma_plain_texts();
    lemma_plain_number(place.number);
    lemma_plain_number(place.column);
    lemma_text(head, bare, pad);
    let a1 = head + pad;
    let p1 = bare + pad;
    lemma_color(a1, p1, c.blue);
    let a2 = a1 + c.blue;
    let p2 = p1 + ""@;
    lemma_text(a2, p2, "-->"@);
    let a3 = a2 + "-->"@;
    let p3 = p2 + "-->"@;
    lemma_color(a3, p3, c.reset);
    let a4 = a3 + c.reset;
    let p4 = p3 + ""@;
    lemma_text(a4, p4, " "@);
    let a5 = a4 + " "@;
    let p5 = p4 + " "@;
    lemma_text(a5, p5, origin);
    let a6 = a5 + origin;
    let p6 = p5 + origin;
    lemma_text(a6, p6, ":"@);
    let a7 = a6 + ":"@;
    let p7 = p6 + ":"@;
    lemma_text(a7, p7, number);
    let a8 = a7 + number;
    let p8 = p7 + number;
    lemma_text(a8, p8, ":"@);
    let a9 = a8 + ":"@;
    let p9 = p8 + ":"@;
    lemma_text(a9, p9, column);
    let a10 = a9 + column;
    let p10 = p9 + column;
    lemma_text(a10, p10, "\n"@);
    let a11 = a10 + "\n"@;
    let p11 = p10 + "\n"@;
    lemma_text(a11, p11, pad);
    let a12 = a11 + pad;
    let p12 = p11 + pad;
    lemma_text(a12, p12, " "@);
    let a13 = a12 + " "@;
    let p13 = p12 + " "@;
    lemma_color(a13, p13, c.blue);
    let a14 = a13 + c.blue;
    let p14 = p13 + ""@;
    lemma_text(a14, p14, "|"@);
    let a15 = a14 + "|"@;
    let p15 = p14 + "|"@;
    lemma_color(a15, p15, c.reset);
    let a16 = a15 + c.reset;
    let p16 = p15 + ""@;
    lemma_text(a16, p16, "\n"@);
    let a17 = a16 + "\n"@;
    let p17 = p16 + "\n"@;
    lemma_color(a17, p17, c.blue);
    let a18 = a17 + c.blue;
    let p18 = p17 + ""@;
    lemma_text(a18, p18, number);
    let a19 = a18 + number;
    let p19 = p18 + number;
    lemma_text(a19, p19, " |"@);
    let a20 = a19 + " |"@;
    let p20 = p19 + " |"@;
    lemma_color(a20, p20, c.reset);
    let a21 = a20 + c.reset;
    let p21 = p20 + ""@;
    lemma_text(a21, p21, " "@);
    let a22 = a21 + " "@;
    let p22 = p21 + " "@;
    lemma_text(a22, p22, place.source);
    let a23 = a22 + place.source;
    let p23 = p22 + place.source;
    lemma_text(a23, p23, "\n"@);
    let a24 = a23 + "\n"@;
    let p24 = p23 + "\n"@;
    lemma_text(a24, p24, pad);
    let a25 = a24 + pad;
    let p25 = p24 + pad;
    lemma_text(a25, p25, " "@);
    let a26 = a25 + " "@;
    let p26 = p25 + " "@;
    lemma_color(a26, p26, c.blue);
    let a27 = a26 + c.blue;
    let p27 = p26 + ""@;
    lemma_text(a27, p27, "|"@);
    let a28 = a27 + "|"@;
    let p28 = p27 + "|"@;
    lemma_color(a28, p28, c.reset);
    let a29 = a28 + c.reset;
    let p29 = p28 + ""@;
    lemma_text(a29, p29, " "@);
    let a30 = a29 + " "@;
    let p30 = p29 + " "@;
    lemma_text(a30, p30, caret);
    let a31 = a30 + caret;
    let p31 = p30 + caret;
    lemma_color(a31, p31, c.red);
    let a32 = a31 + c.red;
    let p32 = p31 + ""@;
    lemma_text(a32, p32, "^"@);
    let a33 = a32 + "^"@;
    let p33 = p32 + "^"@;
    lemma_color(a33, p33, c.reset);
    let a34 = a33 + c.reset;
    let p34 = p33 + ""@;
    lemma_text(a34, p34, "\n"@);
}

proof fn lemma_plain_number(n: nat)
    ensures
        plain(text::decimal(n)),
    decreases n,
{
    if n >= 10 {
        lemma_plain_number(n / 10);
    }
    let digits = text::decimal(n);
    if digits.contains('\x1b') {
        let i = choose|i: int| 0 <= i < digits.len() && digits[i] == '\x1b';
        if n >= 10 && i < digits.len() - 1 {
            assert(text::decimal(n / 10).contains(text::decimal(n / 10)[i]));
        }
    }
}

proof fn lemma_plain_texts()
    ensures
        plain(""@),
        plain("error"@),
        plain(": "@),
        plain("\n"@),
        plain(" "@),
        plain("-->"@),
        plain(":"@),
        plain("|"@),
        plain(" |"@),
        plain("^"@),
{
    reveal_strlit("");
    reveal_strlit("error");
    reveal_strlit(": ");
    reveal_strlit("\n");
    reveal_strlit(" ");
    reveal_strlit("-->");
    reveal_strlit(":");
    reveal_strlit("|");
    reveal_strlit(" |");
    reveal_strlit("^");
}

/// A colored diagnostic without its color sequences is the plain one, which has none.
pub proof fn colors_change_no_text(diagnostic: DiagnosticModel, diagram: DiagramModel)
    requires
        plain(diagnostic.message),
        plain(diagram.origin),
        plain(diagram.text),
    ensures
        uncolored(formatted(diagnostic, diagram, true)) == formatted(diagnostic, diagram, false),
        plain(formatted(diagnostic, diagram, false)),
{
    let c = colors(true);
    let d = colors(false);
    let message = diagnostic.message;
    let head = c.red + "error"@ + c.reset + c.bold + ": "@ + message + c.reset + "\n"@;
    let bare = d.red + "error"@ + d.reset + d.bold + ": "@ + message + d.reset + "\n"@;
    lemma_head(message);
    match diagnostic.span {
        Some((start, _)) => {
            let place = place(diagram, start as nat);
            lemma_plain_source(diagram, start as nat);
            lemma_framed(head, bare, diagram.origin, place);
        },
        None => {
            lemma_pointed(head, bare, diagram.origin);
        },
    }
    let out = formatted(diagnostic, diagram, true);
    let own = formatted(diagnostic, diagram, false);
    assert(colors_of(out, own));
    assert(out + Seq::<char>::empty() =~= out);
    assert(uncolored(out + Seq::<char>::empty()) == own + uncolored(Seq::<char>::empty()));
    assert(own + uncolored(Seq::<char>::empty()) =~= own);
}

proof fn lemma_trailing(s: Seq<char>, c: char)
    ensures
        text::without_trailing(s, c).len() <= s.len(),
        text::without_trailing(s, c) == s.take(text::without_trailing(s, c).len() as int),
    decreases s.len(),
{
    if s.len() > 0 && s.last() == c {
        lemma_trailing(s.drop_last(), c);
        let n = text::without_trailing(s, c).len() as int;
        assert(s.drop_last().take(n) =~= s.take(n));
    } else {
        assert(s.take(s.len() as int) =~= s);
    }
}

proof fn lemma_plain_source(diagram: DiagramModel, start: nat)
    requires
        plain(diagram.text),
    ensures
        plain(place(diagram, start).source),
{
    let at = utf8::chars_within(diagram.text, start) as int;
    utf8::characters_fit_their_bytes(diagram.text, start);
    let before = diagram.text.take(at);
    let after = diagram.text.skip(at);
    text::lemma_after_last(before, '\n');
    text::lemma_find(after, '\n');
    let line_start = text::after_last(before, '\n') as int;
    let line_end = at + text::find(after, '\n');
    let line = diagram.text.subrange(line_start, line_end);
    let source = text::without_trailing(line, '\r');
    if source.contains('\x1b') {
        let i = choose|i: int| 0 <= i < source.len() && source[i] == '\x1b';
        lemma_trailing(line, '\r');
        assert(diagram.text[line_start + i] == '\x1b');
    }
}

fn push_spaces(out: &mut String, n: usize)
    ensures
        final(out)@ == old(out)@ + spaces(n as nat),
{
    let ghost was = out@;
    let mut i: usize = 0;
    assert(out@ =~= was + spaces(0));
    while i < n
        invariant
            i <= n,
            out@ == was + spaces(i as nat),
        decreases n - i,
    {
        out.push(' ');
        i += 1;
        assert(out@ =~= was + spaces(i as nat));
    }
}

fn push_indentation(out: &mut String, source: &[char], columns: usize)
    ensures
        final(out)@ == old(out)@ + indentation(source@, columns as nat),
{
    let ghost was = out@;
    let n: usize = if columns < source.len() {
        columns
    } else {
        source.len()
    };
    let mut i: usize = 0;
    assert(out@ =~= was + indentation(source@, 0));
    while i < n
        invariant
            i <= n <= source@.len(),
            out@ == was + indentation(source@, i as nat),
        decreases n - i,
    {
        if source[i] == '\t' {
            out.push('\t');
        } else {
            out.push(' ');
        }
        i += 1;
        assert(out@ =~= was + indentation(source@, i as nat));
    }
    assert(indentation(source@, n as nat) =~= indentation(source@, columns as nat));
}

/// How often `c` occurs.
fn occurrences(s: &[char], c: char) -> (r: usize)
    ensures
        r == text::count(s@, c),
        r <= s@.len(),
{
    let mut i: usize = 0;
    let mut n: usize = 0;
    while i < s.len()
        invariant
            n <= i <= s@.len(),
            n == text::count(s@.take(i as int), c),
        decreases s@.len() - i,
    {
        assert(s@.take(i + 1).drop_last() =~= s@.take(i as int));
        if s[i] == c {
            n += 1;
        }
        i += 1;
    }
    assert(s@.take(s@.len() as int) =~= s@);
    n
}

/// Formats a diagnostic with a code frame whose line numbers are those of the whole input.
pub fn format(diagnostic: &Diagnostic, diagram: &Diagram, color: bool) -> (out: String)
    ensures
        out@ == formatted(diagnostic@, diagram@, color),
{
    let (red, blue, bold, reset) = if color {
        ("\x1b[1;31m", "\x1b[1;34m", "\x1b[1m", "\x1b[0m")
    } else {
        ("", "", "", "")
    };
    let mut out = red.to_string();
    out.append("error");
    out.append(reset);
    out.append(bold);
    out.append(": ");
    out.append(diagnostic.message.as_str());
    out.append(reset);
    out.append("\n");
    let start: usize = match diagnostic.span {
        Some((start, _)) => start,
        None => {
            out.append(" ");
            out.append(blue);
            out.append("-->");
            out.append(reset);
            out.append(" ");
            out.append(diagram.origin.as_str());
            out.append("\n");
            return out;
        },
    };
    let all = text::chars(diagram.text.as_str());
    let at: usize = utf8::count_within(&all, start);
    let before = slice_subrange(all.as_slice(), 0, at);
    let after = slice_subrange(all.as_slice(), at, all.len());
    assert(before@ =~= all@.take(at as int));
    assert(after@ =~= all@.skip(at as int));
    let line_start: usize = text::position_after_last(before, '\n');
    let line_end: usize = at + text::position(after, '\n');
    let source = text::trim_trailing(slice_subrange(all.as_slice(), line_start, line_end), '\r');
    let before_column: usize = at - line_start;
    let column: u128 = before_column as u128 + 1;
    let number: u128 = diagram.first_line as u128 + occurrences(before, '\n') as u128 + 1;
    let ghost place = place(diagram@, start as nat);
    assert(place.source == source@ && place.number == number && place.column == column);

    let mut digits = String::new();
    text::push_decimal(&mut digits, number);
    assert(digits@ =~= text::decimal(number as nat));
    let pad: usize = text::chars(digits.as_str()).len();
    push_spaces(&mut out, pad);
    out.append(blue);
    out.append("-->");
    out.append(reset);
    out.append(" ");
    out.append(diagram.origin.as_str());
    out.append(":");
    out.append(digits.as_str());
    out.append(":");
    text::push_decimal(&mut out, column);
    out.append("\n");
    push_spaces(&mut out, pad);
    out.append(" ");
    out.append(blue);
    out.append("|");
    out.append(reset);
    out.append("\n");
    out.append(blue);
    out.append(digits.as_str());
    out.append(" |");
    out.append(reset);
    out.append(" ");
    text::push_chars(&mut out, source);
    out.append("\n");
    push_spaces(&mut out, pad);
    out.append(" ");
    out.append(blue);
    out.append("|");
    out.append(reset);
    out.append(" ");
    push_indentation(&mut out, source, before_column);
    out.append(red);
    out.append("^");
    out.append(reset);
    out.append("\n");
    out
}

} // verus!
