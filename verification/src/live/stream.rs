//! `mer -` on a stream: drawn once when the input ends quickly, live while it keeps coming.

use std::collections::VecDeque;

use vstd::prelude::*;
use vstd::slice::slice_subrange;

use super::{
    Action, ActionModel, Job, JobModel, Msg, Outcome, Picture, Region, Session, SessionModel,
};
use crate::diag;
use crate::display;
use crate::engine::{Failure, FailureModel};
use crate::input;
use crate::input::{Diagram, DiagramModel, Format};
use crate::input::markdown;
use crate::input::markdown::{FenceModel, Scanner, ScannerModel};
use crate::input::sniff;
use crate::render;
use crate::render::Frame;
use crate::size::{Fit, Grid};
use crate::term::kitty;
use crate::term::probe;
use crate::text;
use crate::utf8;

verus! {

// ---------------------------------------------------------------------------------------------
// Taking in a stream.

/// Takes in the bytes of a stream and finds its diagrams as they are completed.
#[derive(Debug)]
pub struct Intake {
    /// The format that was asked for, if any.
    fixed: Option<Format>,
    /// The format of the document being received, once known.
    format: Option<Format>,
    /// Bytes at the end of the input that don't form a whole UTF-8 character yet.
    partial: Vec<u8>,
    /// The document being received.
    text: Vec<char>,
    /// How much of `text` the Markdown scanner has seen.
    scanned: usize,
    scanner: Scanner,
}

/// What an [`Intake`] knows of the document being received.
pub struct IntakeModel {
    pub fixed: Option<Format>,
    pub format: Option<Format>,
    pub partial: Seq<u8>,
    pub text: Seq<char>,
    pub scanned: int,
    pub scanner: ScannerModel,
}

impl View for Intake {
    type V = IntakeModel;

    closed spec fn view(&self) -> IntakeModel {
        IntakeModel {
            fixed: self.fixed,
            format: self.format,
            partial: self.partial@,
            text: self.text@,
            scanned: self.scanned as int,
            scanner: self.scanner@,
        }
    }
}

/// What is known before anything of a document has arrived.
pub open spec fn fresh(fixed: Option<Format>) -> IntakeModel {
    IntakeModel {
        fixed,
        format: fixed,
        partial: Seq::empty(),
        text: Seq::empty(),
        scanned: 0,
        scanner: markdown::fresh(),
    }
}

/// The diagrams that fences of stdin hold.
pub open spec fn stdin_diagrams(fences: Seq<FenceModel>) -> Seq<DiagramModel> {
    input::fence_diagrams(fences, "<stdin>"@)
}

/// How much of a text is whole lines.
pub open spec fn complete(text: Seq<char>) -> int {
    text::after_last(text, '\n') as int
}

/// The format that is known, or that the whole lines of a text show.
pub open spec fn format_so_far(known: Option<Format>, text: Seq<char>) -> Option<Format> {
    match known {
        Some(format) => Some(format),
        None => sniff::sniffed(text::lines(text.take(complete(text))), true, false),
    }
}

/// Settles the format once a meaningful line has arrived, and scans complete Markdown lines.
pub open spec fn scan_step(m: IntakeModel) -> (IntakeModel, Seq<DiagramModel>) {
    let format = format_so_far(m.format, m.text);
    if format == Some(Format::Markdown) {
        let lines = text::raw_lines(m.text.subrange(m.scanned, complete(m.text)));
        let (scanner, fences) = markdown::scan_lines(m.scanner, lines);
        (
            IntakeModel { format, scanned: complete(m.text), scanner, ..m },
            stdin_diagrams(fences),
        )
    } else {
        (IntakeModel { format, ..m }, Seq::empty())
    }
}

/// What more bytes of the document do. A character that is cut off waits for the rest of it.
pub open spec fn push_step(m: IntakeModel, bytes: Seq<u8>) -> (IntakeModel, Seq<DiagramModel>) {
    let all = m.partial + bytes;
    let n = utf8::settled(all) as int;
    if bytes.len() == 0 {
        (m, Seq::empty())
    } else {
        scan_step(
            IntakeModel {
                partial: all.skip(n),
                text: m.text + utf8::decoded(all.take(n)),
                ..m
            },
        )
    }
}

/// The diagrams that are left when a document ends.
pub open spec fn remaining(m: IntakeModel) -> Seq<DiagramModel> {
    let text = m.text + utf8::decoded(m.partial);
    match input::settled(text, m.format) {
        Some(Format::Mermaid) => if text::trimmed(text).len() > 0 {
            input::found_in(text, "<stdin>"@, Some(Format::Mermaid))
        } else {
            Seq::empty()
        },
        Some(Format::Markdown) => {
            let lines = text::raw_lines(text.skip(m.scanned));
            let (scanner, fences) = markdown::scan_lines(m.scanner, lines);
            stdin_diagrams(fences + markdown::one(markdown::unclosed(scanner)))
        },
        None => Seq::empty(),
    }
}

/// What the end of a document does: what is left of it is found, and a new one starts.
pub open spec fn end_step(m: IntakeModel) -> (IntakeModel, Seq<DiagramModel>) {
    (fresh(m.fixed), remaining(m))
}

/// Where the first NUL stands, or how many bytes there are.
pub open spec fn first_nul(bytes: Seq<u8>) -> nat
    decreases bytes.len(),
{
    if bytes.len() == 0 || bytes[0] == 0 {
        0
    } else {
        1 + first_nul(bytes.drop_first())
    }
}

/// What more bytes of the stream do. A NUL ends a document.
pub open spec fn feed_step(m: IntakeModel, bytes: Seq<u8>) -> (IntakeModel, Seq<DiagramModel>)
    decreases bytes.len(),
{
    let at = first_nul(bytes) as int;
    if at >= bytes.len() {
        push_step(m, bytes)
    } else {
        let (pushed, first) = push_step(m, bytes.take(at));
        let (ended, second) = end_step(pushed);
        let (last, rest) = feed_step(ended, bytes.skip(at + 1));
        (last, first + second + rest)
    }
}

/// The format of a document that became known, if one did.
pub open spec fn newly(before: IntakeModel, after: IntakeModel) -> Option<Format> {
    if before.format is None {
        after.format
    } else {
        None
    }
}

/// The format that more bytes of the stream show last.
pub open spec fn noticed(m: IntakeModel, bytes: Seq<u8>) -> Option<Format>
    decreases bytes.len(),
{
    let at = first_nul(bytes) as int;
    if at >= bytes.len() {
        newly(m, push_step(m, bytes).0)
    } else {
        match noticed(fresh(m.fixed), bytes.skip(at + 1)) {
            Some(format) => Some(format),
            None => newly(m, push_step(m, bytes.take(at)).0),
        }
    }
}

/// What bytes that arrive in several pieces do.
pub open spec fn feeds(m: IntakeModel, chunks: Seq<Seq<u8>>) -> (IntakeModel, Seq<DiagramModel>)
    decreases chunks.len(),
{
    if chunks.len() == 0 {
        (m, Seq::empty())
    } else {
        let (before, found) = feeds(m, chunks.drop_last());
        let (after, more) = feed_step(before, chunks.last());
        (after, found + more)
    }
}

/// The diagrams of a whole stream that arrives in several pieces.
pub open spec fn received(fixed: Option<Format>, chunks: Seq<Seq<u8>>) -> Seq<DiagramModel> {
    let (last, found) = feeds(fresh(fixed), chunks);
    found + remaining(last)
}

/// Whether an intake's scanner has seen no more than its text.
pub open spec fn in_step(m: IntakeModel) -> bool {
    0 <= m.scanned <= complete(m.text) && m.scanner.line <= m.scanned
}

fn find_nul(bytes: &[u8]) -> (r: usize)
    ensures
        r == first_nul(bytes@),
        r <= bytes@.len(),
{
    let mut i: usize = 0;
    assert(bytes@.skip(0) =~= bytes@);
    while i < bytes.len() && bytes[i] != 0
        invariant
            i <= bytes@.len(),
            first_nul(bytes@) == i + first_nul(bytes@.skip(i as int)),
        decreases bytes@.len() - i,
    {
        assert(bytes@.skip(i as int).drop_first() =~= bytes@.skip(i + 1));
        i += 1;
    }
    i
}

/// Scans lines, and adds the diagrams of the fences they close.
fn scan_into(scanner: &mut Scanner, all: &[char], found: &mut Vec<Diagram>)
    requires
        old(scanner)@.line + all@.len() <= usize::MAX,
    ensures
        final(scanner)@ == markdown::scan_lines(old(scanner)@, text::raw_lines(all@)).0,
        input::models(final(found)@) == input::models(old(found)@) + stdin_diagrams(
            markdown::scan_lines(old(scanner)@, text::raw_lines(all@)).1,
        ),
        final(scanner)@.line <= old(scanner)@.line + all@.len(),
{
    let ghost start = scanner@;
    let ghost was = input::models(found@);
    let ghost whole = text::raw_lines(all@);
    let mut rest = all;
    let ghost mut fences: Seq<FenceModel> = Seq::empty();
    proof {
        assert(input::models(found@) =~= was + stdin_diagrams(fences));
        assert(fences + markdown::scan_lines(start, whole).1 =~= markdown::scan_lines(
            start,
            whole,
        ).1);
    }
    while rest.len() > 0
        invariant
            scanner@.line + rest@.len() <= start.line + all@.len() <= usize::MAX,
            whole == text::raw_lines(all@),
            markdown::scan_lines(start, whole).0 == markdown::scan_lines(
                scanner@,
                text::raw_lines(rest@),
            ).0,
            markdown::scan_lines(start, whole).1 == fences + markdown::scan_lines(
                scanner@,
                text::raw_lines(rest@),
            ).1,
            input::models(found@) == was + stdin_diagrams(fences),
        decreases rest@.len(),
    {
        let (line, next) = text::first_raw_line(rest);
        let ghost before = scanner@;
        let ghost so_far = input::models(found@);
        let ghost old_fences = fences;
        assert((seq![line@] + text::raw_lines(next@)).drop_first() =~= text::raw_lines(next@));
        let closed = scanner.push(line);
        let ghost one = markdown::one(markdown::scan_line(before, line@).1);
        if let Some(fence) = closed {
            found.push(input::diagram_of_fence(fence, "<stdin>"));
        }
        proof {
            fences = fences + one;
            let later = markdown::scan_lines(scanner@, text::raw_lines(next@)).1;
            assert(old_fences + (one + later) =~= fences + later);
            assert(stdin_diagrams(fences) =~= stdin_diagrams(old_fences) + stdin_diagrams(one));
            assert(input::models(found@) =~= so_far + stdin_diagrams(one));
            assert(input::models(found@) =~= was + stdin_diagrams(fences));
        }
        rest = next;
    }
    proof {
        assert(fences + Seq::<FenceModel>::empty() =~= fences);
    }
}

impl Intake {
    pub fn new(fixed: Option<Format>) -> (intake: Intake)
        ensures
            intake@ == fresh(fixed),
            in_step(intake@),
    {
        let partial: Vec<u8> = Vec::new();
        Intake {
            fixed,
            format: fixed,
            partial,
            text: Vec::new(),
            scanned: 0,
            scanner: Scanner::new(),
        }
    }

    /// The format of the document being received, once known.
    pub fn format(&self) -> (format: Option<Format>)
        ensures
            format == self@.format,
    {
        self.format
    }

    /// The whole lines of the document being received.
    pub fn lines_so_far(&self) -> (s: String)
        ensures
            s@ == self@.text.take(complete(self@.text)),
    {
        let n: usize = text::position_after_last(self.text.as_slice(), '\n');
        let lines = slice_subrange(self.text.as_slice(), 0, n);
        assert(lines@ =~= self.text@.take(n as int));
        text::string(lines)
    }

    /// Takes in more bytes of the stream, and adds the diagrams they complete. Says which format
    /// a document was recognized as, the last one where there are several.
    pub fn feed(&mut self, bytes: &[u8], found: &mut Vec<Diagram>) -> (format: Option<Format>)
        requires
            in_step(old(self)@),
        ensures
            final(self)@ == feed_step(old(self)@, bytes@).0,
            input::models(final(found)@) == input::models(old(found)@) + feed_step(
                old(self)@,
                bytes@,
            ).1,
            in_step(final(self)@),
            format == noticed(old(self)@, bytes@),
    {
        let ghost start = self@;
        let ghost was = input::models(found@);
        let mut last: Option<Format> = None;
        let mut rest = bytes;
        let ghost mut so_far: Seq<DiagramModel> = Seq::empty();
        proof {
            assert(was + so_far =~= was);
            assert(so_far + feed_step(start, bytes@).1 =~= feed_step(start, bytes@).1);
        }
        loop
            invariant
                start == old(self)@,
                was == input::models(old(found)@),
                in_step(self@),
                noticed(start, bytes@) == match noticed(self@, rest@) {
                    Some(format) => Some(format),
                    None => last,
                },
                feed_step(start, bytes@).0 == feed_step(self@, rest@).0,
                feed_step(start, bytes@).1 == so_far + feed_step(self@, rest@).1,
                input::models(found@) == was + so_far,
            decreases rest@.len(),
        {
            let at: usize = find_nul(rest);
            let part = slice_subrange(rest, 0, at);
            let ghost m = self@;
            let ghost first = push_step(m, part@).1;
            assert(part@ =~= rest@.take(at as int));
            let known = self.format.is_some();
            self.push_bytes(part, found);
            if !known && self.format.is_some() {
                last = self.format;
            }
            if at == rest.len() {
                proof {
                    assert(rest@.take(at as int) =~= rest@);
                    assert((was + so_far) + first =~= was + (so_far + first));
                }
                return last;
            }
            let ghost second = remaining(self@);
            self.end_document(found);
            let next = slice_subrange(rest, at + 1, rest.len());
            proof {
                assert(next@ =~= rest@.skip(at + 1));
                let later = feed_step(self@, next@).1;
                assert(so_far + (first + second + later) =~= (so_far + first + second) + later);
                assert(((was + so_far) + first) + second =~= was + (so_far + first + second));
                so_far = so_far + first + second;
            }
            rest = next;
        }
    }

    fn push_bytes(&mut self, bytes: &[u8], found: &mut Vec<Diagram>)
        requires
            in_step(old(self)@),
        ensures
            final(self)@ == push_step(old(self)@, bytes@).0,
            input::models(final(found)@) == input::models(old(found)@) + push_step(
                old(self)@,
                bytes@,
            ).1,
            in_step(final(self)@),
    {
        if bytes.len() == 0 {
            assert(input::models(found@) =~= input::models(old(found)@) + Seq::empty());
            return ;
        }
        let ghost before = self@.text;
        text::push_bytes(&mut self.partial, bytes);
        let n: usize = utf8::whole(self.partial.as_slice());
        let decoded = utf8::decode(slice_subrange(self.partial.as_slice(), 0, n));
        let rest = slice_subrange(self.partial.as_slice(), n, self.partial.len());
        let mut partial: Vec<u8> = Vec::new();
        text::push_bytes(&mut partial, rest);
        proof {
            let all = old(self)@.partial + bytes@;
            assert(all.subrange(0, n as int) =~= all.take(n as int));
            assert(partial@ =~= all.skip(n as int));
        }
        self.partial = partial;
        let mut decoded = decoded;
        let ghost new = decoded@;
        self.text.append(&mut decoded);
        proof {
            assert(self.text@ =~= before + new);
            lemma_complete_grows(before, new);
        }
        self.scan(found);
    }

    /// Settles the format once a meaningful line has arrived, and scans complete Markdown lines.
    fn scan(&mut self, found: &mut Vec<Diagram>)
        requires
            in_step(old(self)@),
        ensures
            final(self)@ == scan_step(old(self)@).0,
            input::models(final(found)@) == input::models(old(found)@) + scan_step(old(self)@).1,
            in_step(final(self)@),
    {
        let end: usize = text::position_after_last(self.text.as_slice(), '\n');
        if self.format.is_none() {
            let lines = slice_subrange(self.text.as_slice(), 0, end);
            assert(lines@ =~= self.text@.take(end as int));
            self.format = sniff::sniff_chars(lines, false);
        }
        if self.format != Some(Format::Markdown) {
            assert(input::models(found@) =~= input::models(old(found)@) + Seq::empty());
            return ;
        }
        let lines = slice_subrange(self.text.as_slice(), self.scanned, end);
        scan_into(&mut self.scanner, lines, found);
        self.scanned = end;
    }

    /// Finds what is left of the current document and starts a new one.
    pub fn end_document(&mut self, found: &mut Vec<Diagram>)
        requires
            in_step(old(self)@),
        ensures
            final(self)@ == end_step(old(self)@).0,
            input::models(final(found)@) == input::models(old(found)@) + end_step(old(self)@).1,
            in_step(final(self)@),
    {
        let ghost was = input::models(found@);
        let fixed = self.fixed;
        let mut rest = utf8::decode(self.partial.as_slice());
        let ghost new = rest@;
        let ghost before = self.text@;
        self.text.append(&mut rest);
        proof {
            assert(self.text@ =~= before + new);
            lemma_complete_grows(before, new);
        }
        let format = match self.format {
            Some(format) => Some(format),
            None => sniff::sniff_chars(self.text.as_slice(), true),
        };
        match format {
            Some(Format::Mermaid) => {
                if text::trim(self.text.as_slice()).len() > 0 {
                    found.push(
                        Diagram {
                            text: text::string(self.text.as_slice()),
                            origin: "<stdin>".to_string(),
                            first_line: 0,
                            caption: None,
                        },
                    );
                }
                assert(input::models(found@) =~= was + remaining(old(self)@));
            },
            Some(Format::Markdown) => {
                let mut scanner = Scanner::new();
                std::mem::swap(&mut scanner, &mut self.scanner);
                let lines = slice_subrange(self.text.as_slice(), self.scanned, self.text.len());
                assert(lines@ =~= self.text@.skip(self.scanned as int));
                scan_into(&mut scanner, lines, found);
                let ghost fences = markdown::scan_lines(
                    old(self)@.scanner,
                    text::raw_lines(lines@),
                ).1;
                let ghost last = markdown::one(markdown::unclosed(scanner@));
                let ghost so_far = input::models(found@);
                if let Some(fence) = scanner.finish() {
                    found.push(input::diagram_of_fence(fence, "<stdin>"));
                }
                proof {
                    assert(input::models(found@) =~= so_far + stdin_diagrams(last));
                    assert(stdin_diagrams(fences + last) =~= stdin_diagrams(fences)
                        + stdin_diagrams(last));
                    assert(input::models(found@) =~= was + remaining(old(self)@));
                }
            },
            None => {
                assert(input::models(found@) =~= was + remaining(old(self)@));
            },
        }
        let new = Intake::new(fixed);
        *self = new;
    }
}

/// More text makes no fewer whole lines.
proof fn lemma_complete_grows(a: Seq<char>, b: Seq<char>)
    ensures
        0 <= complete(a) <= complete(a + b) <= (a + b).len(),
        complete(a) <= a.len(),
{
    text::lemma_after_last(a, '\n');
    text::lemma_after_last(a + b, '\n');
    let n = complete(a);
    if n > complete(a + b) {
        assert((a + b)[n - 1] == a[n - 1]);
    }
}

// ---------------------------------------------------------------------------------------------
// Going live.

/// A preview is rendered once the input pauses this long, in milliseconds.
pub const QUIET: u64 = 80;

/// Without the end of input by then, output goes live.
pub const LIVE_AFTER: u64 = 400;

/// When output goes live.
pub open spec fn live_time(started: u64, last_data: Option<u64>) -> u64 {
    let latest = probe::later(started, LIVE_AFTER);
    match last_data {
        Some(at) => if probe::later(at, QUIET) < latest {
            probe::later(at, QUIET)
        } else {
            latest
        },
        None => latest,
    }
}

/// When output goes live, unless the input ends before: when it pauses, given when data last
/// arrived, and after a while in any case.
pub fn live_at(started: u64, last_data: Option<u64>) -> (at: u64)
    ensures
        at == live_time(started, last_data),
{
    let latest: u64 = probe::add_time(started, LIVE_AFTER);
    match last_data {
        Some(at) => {
            let quiet: u64 = probe::add_time(at, QUIET);
            if quiet < latest {
                quiet
            } else {
                latest
            }
        },
        None => latest,
    }
}

/// The diagrams of a stream that ended before output went live.
pub fn at_once(bytes: &[u8], format: Option<Format>) -> (found: Vec<Diagram>)
    ensures
        input::models(found@) == input::all_diagrams(
            text::split(utf8::decoded(bytes@), '\0'),
            format,
        ),
{
    let decoded = utf8::decode(bytes);
    input::documents(text::string(decoded.as_slice()).as_str(), format)
}

/// A text on stdin that ends before output goes live holds the diagrams that it would hold in a
/// file. NUL characters separate documents only on stdin, and a blank document there has none.
pub proof fn stdin_is_read_like_a_file(text: Seq<char>, format: Option<Format>)
    requires
        !text.contains('\0'),
        text::trimmed(text).len() > 0,
    ensures
        input::all_diagrams(
            text::split(utf8::decoded(vstd::utf8::encode_utf8(text)), '\0'),
            format,
        ) == input::diagrams_of(text, "<stdin>"@, format),
{
    let bytes = vstd::utf8::encode_utf8(text);
    vstd::utf8::encode_utf8_valid_utf8(text);
    vstd::utf8::encode_utf8_decode_utf8(text);
    utf8::utf8_is_decoded(bytes);
    text::lemma_find(text, '\0');
    let documents = text::split(text, '\0');
    assert(documents =~= seq![text]);
    assert(documents.drop_first() =~= Seq::empty());
    assert(input::all_diagrams(documents.drop_first(), format) =~= Seq::empty());
}

/// What the worker renders.
#[derive(Debug)]
pub enum Busy {
    /// A finished diagram, printed for good once rendered.
    Final(Diagram),
    /// The Mermaid document still arriving, shown in the live region.
    Preview,
}

/// What a [`Busy`] stands for.
pub enum BusyModel {
    Final(DiagramModel),
    Preview,
}

impl View for Busy {
    type V = BusyModel;

    open spec fn view(&self) -> BusyModel {
        match self {
            Busy::Final(diagram) => BusyModel::Final(diagram@),
            Busy::Preview => BusyModel::Preview,
        }
    }
}

/// What an optional [`Busy`] stands for.
pub open spec fn busy_of(busy: Option<Busy>) -> Option<BusyModel> {
    match busy {
        Some(busy) => Some(busy@),
        None => None,
    }
}

/// A stream that is drawn while it arrives.
#[derive(Debug)]
pub struct Live {
    session: Session,
    intake: Intake,
    /// Finished diagrams waiting to be printed, in order.
    queue: VecDeque<Diagram>,
    busy: Option<Busy>,
    /// Whether the document has grown since it was last previewed.
    dirty: bool,
    /// When a preview may be rendered.
    quiet_at: u64,
    ended: bool,
    status: String,
    /// Whether any diagram was found.
    found: bool,
    failed: bool,
}

/// What a [`Live`] holds.
pub struct LiveModel {
    pub session: SessionModel,
    pub intake: IntakeModel,
    pub queue: Seq<DiagramModel>,
    pub busy: Option<BusyModel>,
    pub dirty: bool,
    pub quiet_at: u64,
    pub ended: bool,
    pub status: Seq<char>,
    pub found: bool,
    pub failed: bool,
}

impl View for Live {
    type V = LiveModel;

    closed spec fn view(&self) -> LiveModel {
        LiveModel {
            session: self.session@,
            intake: self.intake@,
            queue: input::models(self.queue@),
            busy: busy_of(self.busy),
            dirty: self.dirty,
            quiet_at: self.quiet_at,
            ended: self.ended,
            status: self.status@,
            found: self.found,
            failed: self.failed,
        }
    }
}

/// Whether the parts of a live stream fit together.
pub open spec fn live_in_step(m: LiveModel) -> bool {
    in_step(m.intake) && m.session.region.well_formed()
}

/// A live stream of which nothing has arrived.
pub open spec fn waiting(session: SessionModel, fixed: Option<Format>, now: u64) -> LiveModel {
    LiveModel {
        session,
        intake: fresh(fixed),
        queue: Seq::empty(),
        busy: None,
        dirty: false,
        quiet_at: probe::later(now, QUIET),
        ended: false,
        status: "waiting for input…"@,
        found: false,
        failed: false,
    }
}

/// The status while a document of a format arrives.
pub open spec fn receiving(format: Format) -> Seq<char> {
    match format {
        Format::Mermaid => "receiving a diagram…"@,
        Format::Markdown => "receiving Markdown…"@,
    }
}

/// Whether some of the bytes belong to a document.
pub open spec fn has_data(bytes: Seq<u8>) -> bool {
    exists|i: int| 0 <= i < bytes.len() && #[trigger] bytes[i] != 0
}

/// What more bytes of the stream do.
pub open spec fn fed(m: LiveModel, bytes: Seq<u8>, now: u64) -> LiveModel {
    let (intake, found) = feed_step(m.intake, bytes);
    LiveModel {
        intake,
        queue: m.queue + found,
        found: m.found || found.len() > 0,
        status: match noticed(m.intake, bytes) {
            Some(format) => receiving(format),
            None => m.status,
        },
        dirty: if bytes.len() == 0 {
            m.dirty
        } else {
            bytes.last() != 0
        },
        quiet_at: if has_data(bytes) {
            probe::later(now, QUIET)
        } else {
            m.quiet_at
        },
        ..m
    }
}

/// What the end of the stream does.
pub open spec fn ended(m: LiveModel) -> LiveModel {
    let (intake, found) = end_step(m.intake);
    LiveModel {
        intake,
        queue: m.queue + found,
        found: m.found || found.len() > 0,
        dirty: false,
        ended: true,
        ..m
    }
}

/// The grid that a preview has to fit: two rows are kept for what stands below it.
pub open spec fn preview_grid(grid: Grid) -> Grid {
    Grid {
        rows: if grid.rows > 3 {
            (grid.rows - 2) as u16
        } else {
            1
        },
        ..grid
    }
}

/// A render of a source, and the session after it was asked for.
pub open spec fn job_of(s: SessionModel, source: Seq<char>, grid: Grid, fit: Fit) -> (
    SessionModel,
    JobModel,
) {
    (SessionModel { config: None, ..s }, JobModel { source, grid, fit, config: s.config })
}

/// The render to start, if any: of finished diagrams first, in order, then of a preview of the
/// Mermaid document still arriving, once its input pauses.
pub open spec fn pump_step(m: LiveModel, now: u64) -> (LiveModel, Option<JobModel>) {
    let lines = m.intake.text.take(complete(m.intake.text));
    if m.busy is Some {
        (m, None)
    } else if m.queue.len() > 0 {
        let (session, job) = job_of(
            m.session,
            m.queue[0].text,
            m.session.grid,
            m.session.setup.fit,
        );
        (
            LiveModel {
                session,
                queue: m.queue.drop_first(),
                busy: Some(BusyModel::Final(m.queue[0])),
                ..m
            },
            Some(job),
        )
    } else if m.intake.format != Some(Format::Mermaid) || !m.dirty || now < m.quiet_at {
        (m, None)
    } else if text::trimmed(lines).len() == 0 {
        (LiveModel { dirty: false, ..m }, None)
    } else {
        let (session, job) = job_of(
            m.session,
            lines,
            preview_grid(m.session.grid),
            Fit::Contain,
        );
        (
            LiveModel { session, dirty: false, busy: Some(BusyModel::Preview), ..m },
            Some(job),
        )
    }
}

/// The status line.
pub open spec fn status_line(status: Seq<char>) -> Seq<char> {
    super::dimmed(status + " · q to stop"@)
}

/// What drawing the region does: the stream after it, and what is written.
pub open spec fn show_step(m: LiveModel, above: Seq<u8>, picture: Picture<'_>) -> (
    LiveModel,
    ActionModel,
) {
    let status = Some(status_line(m.status));
    (
        LiveModel { session: super::drawn_step(m.session, picture, Seq::empty(), status), ..m },
        ActionModel::Write(super::session_bytes(m.session, above, picture, Seq::empty(), status)),
    )
}

/// The report on a failure, where there is something to say.
pub open spec fn reported(report: Option<Seq<char>>) -> Seq<ActionModel> {
    match report {
        Some(report) => seq![ActionModel::Report(report)],
        None => Seq::empty(),
    }
}

/// The status after a preview that took so long.
pub open spec fn previewed(elapsed: u64) -> Seq<char> {
    "<stdin> · "@ + text::decimal(elapsed as nat) + " ms · receiving…"@
}

/// What a finished diagram's frame does: it is printed above the region, with its caption.
pub open spec fn printed_step(m: LiveModel, diagram: DiagramModel, frame: Frame, id: u32) -> (
    LiveModel,
    Seq<ActionModel>,
    Result<(), kitty::Untransmitted>,
) {
    match render::inline(frame.transmitted(id), id, frame.cols, frame.rows) {
        Ok(bytes) => {
            let above = vstd::utf8::encode_utf8(display::caption_line(diagram.caption)) + bytes;
            let (next, write) = show_step(m, above, Picture::Nothing);
            (next, seq![write], Ok(()))
        },
        Err(why) => (m, Seq::empty(), Err(why)),
    }
}

/// What a finished diagram's failure does: what the region shows stays, followed by a report.
pub open spec fn failed_step(m: LiveModel, diagram: DiagramModel, failure: FailureModel) -> (
    LiveModel,
    Seq<ActionModel>,
) {
    let kept = super::session_bytes(
        m.session,
        Seq::empty(),
        Picture::Keep,
        Seq::empty(),
        None,
    );
    let released = LiveModel {
        session: SessionModel { region: Region { lines: 0, image: None }, ..m.session },
        failed: true,
        ..m
    };
    let (next, write) = show_step(released, Seq::empty(), Picture::Keep);
    let report = display::report_text(failure, diagram, m.session.setup.color);
    (next, (seq![ActionModel::Write(kept)] + reported(report)).push(write))
}

/// What a preview does: it is shown in the region, or more input is waited for.
pub open spec fn preview_step(m: LiveModel, result: Result<Frame, Failure>, id: u32) -> (
    LiveModel,
    ActionModel,
) {
    match result {
        Ok(frame) => show_step(
            LiveModel { status: previewed(frame.elapsed), ..m },
            Seq::empty(),
            Picture::New(&frame, id),
        ),
        Err(_) => show_step(
            LiveModel { status: "waiting for more input…"@, ..m },
            Seq::empty(),
            Picture::Keep,
        ),
    }
}

/// What a finished render does: a finished diagram is printed above the region, or reported, and
/// a preview is shown in it.
pub open spec fn rendered_step(m: LiveModel, result: Result<Frame, Failure>, id: u32) -> (
    LiveModel,
    Seq<ActionModel>,
    Result<(), kitty::Untransmitted>,
) {
    let idle = LiveModel { busy: None, ..m };
    match m.busy {
        Some(BusyModel::Final(diagram)) => match result {
            Ok(frame) => printed_step(idle, diagram, frame, id),
            Err(failure) => {
                let (next, actions) = failed_step(idle, diagram, failure@);
                (next, actions, Ok(()))
            },
        },
        Some(BusyModel::Preview) => {
            let (next, write) = preview_step(idle, result, id);
            (next, seq![write], Ok(()))
        },
        None => (idle, Seq::empty(), Ok(())),
    }
}

/// What a resize or a color change does: a preview that is shown is rendered again.
pub open spec fn refresh_step(m: LiveModel, now: u64) -> (LiveModel, ActionModel) {
    let due = if m.session.region.image is Some {
        LiveModel { dirty: true, quiet_at: now, ..m }
    } else {
        m
    };
    show_step(due, Seq::empty(), Picture::Keep)
}

/// What a message does, before what it asks for is done.
pub open spec fn heard(m: LiveModel, message: Option<Msg>, now: u64, id: u32) -> (
    LiveModel,
    Seq<ActionModel>,
    Result<Outcome, kitty::Untransmitted>,
) {
    match message {
        Some(Msg::Stdin(bytes)) => (fed(m, bytes@, now), Seq::empty(), Ok(Outcome::Continue)),
        Some(Msg::StdinEnd) => (ended(m), Seq::empty(), Ok(Outcome::Continue)),
        Some(Msg::Input(event)) => {
            let (session, outcome, ask) = super::handle_step(m.session, event, now);
            (LiveModel { session, ..m }, super::asked_colors(ask), Ok(outcome))
        },
        Some(Msg::Signal(signal)) => {
            let (session, outcome) = super::signal_step(m.session, signal);
            (LiveModel { session, ..m }, Seq::empty(), Ok(outcome))
        },
        Some(Msg::Rendered(result)) => {
            let (next, actions, done) = rendered_step(m, result, id);
            match done {
                Ok(()) => (next, actions, Ok(Outcome::Continue)),
                Err(why) => (next, actions, Err(why)),
            }
        },
        Some(Msg::Changed) | Some(Msg::Viewed(_)) | None => (
            m,
            Seq::empty(),
            Ok(Outcome::Continue),
        ),
    }
}

/// What one pass of the main loop does: new colors are switched to when it is time, the message
/// is heard, and what both ask for is done. Says with which code to stop.
pub open spec fn message_step(m: LiveModel, message: Option<Msg>, now: u64, id: u32) -> (
    LiveModel,
    Seq<ActionModel>,
    Result<Option<u8>, kitty::Untransmitted>,
) {
    let (session, ticked) = super::tick_step(m.session, now);
    let (next, actions, outcome) = heard(LiveModel { session, ..m }, message, now, id);
    match outcome {
        Err(why) => (next, actions, Err(why)),
        Ok(outcome) => match super::either(ticked, outcome) {
            Outcome::Quit(code) => (next, actions, Ok(Some(code))),
            Outcome::Redraw => {
                let (last, write) = refresh_step(next, now);
                (last, actions.push(write), Ok(None))
            },
            Outcome::Continue => (next, actions, Ok(None)),
        },
    }
}

/// Whether a message can be taken: a frame it brings can be shown.
pub open spec fn acceptable(message: Option<Msg>) -> bool {
    match message {
        Some(Msg::Rendered(Ok(frame))) => frame.well_formed(),
        _ => true,
    }
}

/// What is left to do at the end: what to write, what to say, and the exit code.
#[derive(Debug)]
pub struct Ending {
    pub out: Vec<u8>,
    pub report: Option<String>,
    pub code: u8,
}

/// The exit code of a stream that was stopped with a code, or that ended.
pub open spec fn ending_code(m: LiveModel, quit: Option<u8>) -> u8 {
    match quit {
        Some(code) => code,
        None => if m.found && !m.failed {
            0
        } else {
            1
        },
    }
}

/// Adds what was found to what waits to be printed.
fn enqueue(queue: &mut VecDeque<Diagram>, found: Vec<Diagram>)
    ensures
        input::models(final(queue)@) == input::models(old(queue)@) + input::models(found@),
{
    let ghost was = queue@;
    assert(found@.take(0) =~= Seq::empty());
    assert(was + Seq::empty() =~= was);
    for diagram in it: found
        invariant
            it.seq() == found@,
            queue@ == was + found@.take(it.index() as int),
    {
        let ghost i = it.index() as int;
        queue.push_back(diagram);
        assert(queue@ =~= was + found@.take(i + 1));
    }
    assert(found@.take(found@.len() as int) =~= found@);
    assert(input::models(queue@) =~= input::models(was) + input::models(found@));
}

fn any_data(bytes: &[u8]) -> (r: bool)
    ensures
        r == has_data(bytes@),
{
    let mut i: usize = 0;
    while i < bytes.len()
        invariant
            i <= bytes@.len(),
            forall|j: int| 0 <= j < i ==> #[trigger] bytes@[j] == 0,
        decreases bytes@.len() - i,
    {
        if bytes[i] != 0 {
            assert(bytes@[i as int] != 0);
            return true;
        }
        i += 1;
    }
    false
}

impl Live {
    pub fn new(session: Session, format: Option<Format>, now: u64) -> (live: Live)
        ensures
            live@ == waiting(session@, format, now),
            session@.region.well_formed() ==> live_in_step(live@),
    {
        let queue: VecDeque<Diagram> = VecDeque::new();
        assert(input::models(queue@) =~= Seq::empty());
        Live {
            session,
            intake: Intake::new(format),
            queue,
            busy: None,
            dirty: false,
            quiet_at: probe::add_time(now, QUIET),
            ended: false,
            status: "waiting for input…".to_string(),
            found: false,
            failed: false,
        }
    }

    /// Takes in more bytes of the stream.
    pub fn feed(&mut self, bytes: &[u8], now: u64)
        requires
            live_in_step(old(self)@),
        ensures
            final(self)@ == fed(old(self)@, bytes@, now),
            live_in_step(final(self)@),
    {
        let mut found: Vec<Diagram> = Vec::new();
        assert(input::models(found@) =~= Seq::empty());
        let noticed = self.intake.feed(bytes, &mut found);
        proof {
            let new = feed_step(old(self)@.intake, bytes@).1;
            assert(Seq::empty() + new =~= new);
        }
        if found.len() > 0 {
            self.found = true;
        }
        enqueue(&mut self.queue, found);
        match noticed {
            Some(Format::Mermaid) => {
                self.status = "receiving a diagram…".to_string();
            },
            Some(Format::Markdown) => {
                self.status = "receiving Markdown…".to_string();
            },
            None => {},
        }
        if bytes.len() > 0 {
            self.dirty = bytes[bytes.len() - 1] != 0;
        }
        if any_data(bytes) {
            self.quiet_at = probe::add_time(now, QUIET);
        }
    }

    /// Ends the stream.
    fn end(&mut self)
        requires
            live_in_step(old(self)@),
        ensures
            final(self)@ == ended(old(self)@),
            live_in_step(final(self)@),
    {
        let mut found: Vec<Diagram> = Vec::new();
        assert(input::models(found@) =~= Seq::empty());
        self.intake.end_document(&mut found);
        proof {
            let new = end_step(old(self)@.intake).1;
            assert(Seq::empty() + new =~= new);
        }
        if found.len() > 0 {
            self.found = true;
        }
        enqueue(&mut self.queue, found);
        self.dirty = false;
        self.ended = true;
    }

    /// Starts the next render when the worker is free: finished diagrams first, in order,
    /// then a preview of the Mermaid document still arriving.
    pub fn pump(&mut self, now: u64) -> (job: Option<Job>)
        requires
            live_in_step(old(self)@),
        ensures
            final(self)@ == pump_step(old(self)@, now).0,
            match job {
                Some(job) => pump_step(old(self)@, now).1 == Some(job@),
                None => pump_step(old(self)@, now).1 is None,
            },
            live_in_step(final(self)@),
    {
        if self.busy.is_some() {
            return None;
        }
        let ghost queue = self.queue@;
        if let Some(diagram) = self.queue.pop_front() {
            assert(input::models(self.queue@) =~= input::models(queue).drop_first());
            assert(diagram@ == input::models(queue)[0]);
            let source = diagram.text.clone();
            let fit = self.session.setup().fit;
            let grid = self.session.grid();
            let job = self.session.job(source, grid, fit);
            self.busy = Some(Busy::Final(diagram));
            return Some(job);
        }
        assert(input::models(self.queue@) =~= input::models(queue));
        if self.intake.format() != Some(Format::Mermaid) || !self.dirty || now < self.quiet_at {
            return None;
        }
        let lines = self.intake.lines_so_far();
        self.dirty = false;
        if text::trim(text::chars(lines.as_str()).as_slice()).len() == 0 {
            return None;
        }
        let mut grid = self.session.grid();
        grid.rows = if grid.rows > 3 {
            grid.rows - 2
        } else {
            1
        };
        let job = self.session.job(lines, grid, Fit::Contain);
        self.busy = Some(Busy::Preview);
        Some(job)
    }

    /// When `pump` or `message` next has something to do without a message.
    pub fn deadline(&self) -> (at: Option<u64>)
        ensures
            at == super::earlier(
                self@.session.recolor_at,
                if self@.busy is None && self@.intake.format == Some(Format::Mermaid)
                    && self@.dirty {
                    Some(self@.quiet_at)
                } else {
                    None
                },
            ),
    {
        let recolor = self.session.deadline();
        if self.busy.is_some() || self.intake.format() != Some(Format::Mermaid) || !self.dirty {
            return recolor;
        }
        match recolor {
            Some(at) if at <= self.quiet_at => Some(at),
            _ => Some(self.quiet_at),
        }
    }

    /// Whether the stream has ended and all of it is printed.
    pub fn done(&self) -> (r: bool)
        ensures
            r == (self@.ended && self@.queue.len() == 0 && self@.busy is None),
    {
        self.ended && self.queue.len() == 0 && self.busy.is_none()
    }

    /// Handles a finished render. `id` is for the image that may be shown.
    pub fn rendered(
        &mut self,
        result: Result<Frame, Failure>,
        id: u32,
        actions: &mut Vec<Action>,
    ) -> (r: Result<(), kitty::Untransmitted>)
        requires
            live_in_step(old(self)@),
            result matches Ok(frame) ==> frame.well_formed(),
        ensures
            (final(self)@, r) == (
                rendered_step(old(self)@, result, id).0,
                rendered_step(old(self)@, result, id).2,
            ),
            super::asked(final(actions)@) == super::asked(old(actions)@) + rendered_step(
                old(self)@,
                result,
                id,
            ).1,
            live_in_step(final(self)@),
    {
        let ghost was = super::asked(actions@);
        let ghost step = rendered_step(self@, result, id);
        let busy = self.busy.take();
        match busy {
            Some(Busy::Final(diagram)) => match result {
                Ok(frame) => return self.print(&diagram, &frame, id, actions),
                Err(failure) => self.fail(&diagram, &failure, actions),
            },
            Some(Busy::Preview) => {
                self.preview(result, id, actions);
                assert(super::asked(actions@) =~= was + step.1);
            },
            None => {
                assert(super::asked(actions@) =~= was + step.1);
            },
        }
        Ok(())
    }

    fn print(&mut self, diagram: &Diagram, frame: &Frame, id: u32, actions: &mut Vec<Action>)
        -> (r: Result<(), kitty::Untransmitted>)
        requires
            live_in_step(old(self)@),
            frame.well_formed(),
        ensures
            final(self)@ == printed_step(old(self)@, diagram@, *frame, id).0,
            super::asked(final(actions)@) == super::asked(old(actions)@) + printed_step(
                old(self)@,
                diagram@,
                *frame,
                id,
            ).1,
            r == printed_step(old(self)@, diagram@, *frame, id).2,
            live_in_step(final(self)@),
    {
        let ghost was = super::asked(actions@);
        let ghost caption = vstd::utf8::encode_utf8(display::caption_line(diagram@.caption));
        let mut above: Vec<u8> = Vec::new();
        text::push_text(&mut above, display::caption(diagram).as_str());
        assert(above@ =~= caption);
        match render::write_inline(&mut above, frame, id) {
            Ok(()) => {},
            Err(why) => {
                assert(was + Seq::empty() =~= was);
                return Err(why);
            },
        }
        self.show(above.as_slice(), Picture::Nothing, actions);
        proof {
            let write = show_step(old(self)@, above@, Picture::Nothing).1;
            assert(was + seq![write] =~= was.push(write));
        }
        Ok(())
    }

    fn fail(&mut self, diagram: &Diagram, failure: &Failure, actions: &mut Vec<Action>)
        requires
            live_in_step(old(self)@),
        ensures
            final(self)@ == failed_step(old(self)@, diagram@, failure@).0,
            super::asked(final(actions)@) == super::asked(old(actions)@) + failed_step(
                old(self)@,
                diagram@,
                failure@,
            ).1,
            live_in_step(final(self)@),
    {
        let ghost was = super::asked(actions@);
        self.failed = true;
        // A preview that was showing stays, followed by the error.
        let none: Vec<String> = Vec::new();
        assert(text::views(none@) =~= Seq::empty());
        let kept = self.session.release(&none);
        let ghost wrote = ActionModel::Write(kept@);
        super::request(actions, Action::Write(kept));
        let color = self.session.setup().color;
        let report = display::report(failure, diagram, color);
        let ghost told = reported(text::optional(report));
        if let Some(report) = report {
            super::request(actions, Action::Report(report));
        }
        assert(super::asked(actions@) =~= was + (seq![wrote] + told));
        let ghost last = show_step(self@, Seq::empty(), Picture::Keep).1;
        self.draw_status(actions);
        assert((was + (seq![wrote] + told)).push(last) =~= was + (seq![wrote] + told).push(last));
    }

    fn preview(
        &mut self,
        result: Result<Frame, Failure>,
        id: u32,
        actions: &mut Vec<Action>,
    )
        requires
            live_in_step(old(self)@),
            result matches Ok(frame) ==> frame.well_formed(),
        ensures
            final(self)@ == preview_step(old(self)@, result, id).0,
            super::asked(final(actions)@) == super::asked(old(actions)@).push(
                preview_step(old(self)@, result, id).1,
            ),
            live_in_step(final(self)@),
    {
        match result {
            Ok(frame) => {
                let mut status = "<stdin> · ".to_string();
                text::push_decimal(&mut status, frame.elapsed as u128);
                status.append(" ms · receiving…");
                self.status = status;
                let nothing: [u8; 0] = [];
                assert(nothing@ =~= Seq::<u8>::empty());
                self.show(&nothing, Picture::New(&frame, id), actions);
            },
            Err(_) => {
                self.status = "waiting for more input…".to_string();
                self.draw_status(actions);
            },
        }
    }

    /// Renders the preview again after a resize or a color change.
    fn refresh(&mut self, now: u64, actions: &mut Vec<Action>)
        requires
            live_in_step(old(self)@),
        ensures
            final(self)@ == refresh_step(old(self)@, now).0,
            super::asked(final(actions)@) == super::asked(old(actions)@).push(refresh_step(old(self)@, now).1),
            live_in_step(final(self)@),
    {
        if self.session.shows_image() {
            self.dirty = true;
            self.quiet_at = now;
        }
        self.draw_status(actions);
    }

    fn show(&mut self, above: &[u8], picture: Picture<'_>, actions: &mut Vec<Action>)
        requires
            live_in_step(old(self)@),
            super::showable(picture),
        ensures
            final(self)@ == show_step(old(self)@, above@, picture).0,
            super::asked(final(actions)@) == super::asked(old(actions)@).push(
                show_step(old(self)@, above@, picture).1,
            ),
            live_in_step(final(self)@),
    {
        let mut line = self.status.clone();
        line.append(" · q to stop");
        let status = super::dim(line.as_str());
        let none: Vec<String> = Vec::new();
        assert(text::views(none@) =~= Seq::empty());
        let out = self.session.draw(above, picture, &none, Some(status.as_str()));
        super::request(actions, Action::Write(out));
    }

    /// Draws the status line again, below what is shown.
    pub fn draw_status(&mut self, actions: &mut Vec<Action>)
        requires
            live_in_step(old(self)@),
        ensures
            final(self)@ == show_step(old(self)@, Seq::empty(), Picture::Keep).0,
            super::asked(final(actions)@) == super::asked(old(actions)@).push(
                show_step(old(self)@, Seq::empty(), Picture::Keep).1,
            ),
            live_in_step(final(self)@),
    {
        let nothing: [u8; 0] = [];
        assert(nothing@ =~= Seq::<u8>::empty());
        self.show(&nothing, Picture::Keep, actions);
    }

    /// Handles one message, or the passing of a deadline. `id` is for an image that may be
    /// shown. Says with which code to stop, if at all.
    pub fn message(&mut self, message: Option<Msg>, now: u64, id: u32, actions: &mut Vec<Action>)
        -> (r: Result<Option<u8>, kitty::Untransmitted>)
        requires
            live_in_step(old(self)@),
            acceptable(message),
        ensures
            final(self)@ == message_step(old(self)@, message, now, id).0,
            super::asked(final(actions)@) == super::asked(old(actions)@) + message_step(
                old(self)@,
                message,
                now,
                id,
            ).1,
            r == message_step(old(self)@, message, now, id).2,
            live_in_step(final(self)@),
    {
        let ghost was = super::asked(actions@);
        let ticked = self.session.tick(now);
        let ghost step = heard(self@, message, now, id);
        let outcome = match self.hear(message, now, id, actions) {
            Ok(outcome) => ticked.or(outcome),
            Err(why) => return Err(why),
        };
        match outcome {
            Outcome::Quit(code) => Ok(Some(code)),
            Outcome::Redraw => {
                let ghost write = refresh_step(self@, now).1;
                self.refresh(now, actions);
                assert((was + step.1).push(write) =~= was + step.1.push(write));
                Ok(None)
            },
            Outcome::Continue => Ok(None),
        }
    }

    #[verifier::rlimit(40)]
    fn hear(&mut self, message: Option<Msg>, now: u64, id: u32, actions: &mut Vec<Action>) -> (r:
        Result<Outcome, kitty::Untransmitted>)
        requires
            live_in_step(old(self)@),
            acceptable(message),
        ensures
            final(self)@ == heard(old(self)@, message, now, id).0,
            super::asked(final(actions)@) == super::asked(old(actions)@) + heard(
                old(self)@,
                message,
                now,
                id,
            ).1,
            r == heard(old(self)@, message, now, id).2,
            live_in_step(final(self)@),
    {
        let ghost was = super::asked(actions@);
        proof {
            assert(was + Seq::empty() =~= was);
            assert(was + seq![ActionModel::AskColors] =~= was.push(ActionModel::AskColors));
        }
        match message {
            Some(Msg::Stdin(bytes)) => {
                self.feed(bytes.as_slice(), now);
                Ok(Outcome::Continue)
            },
            Some(Msg::StdinEnd) => {
                self.end();
                Ok(Outcome::Continue)
            },
            Some(Msg::Input(event)) => {
                let (outcome, ask) = self.session.handle(&event, now);
                if ask {
                    super::request(actions, Action::AskColors);
                }
                Ok(outcome)
            },
            Some(Msg::Signal(signal)) => Ok(self.session.signal(signal)),
            Some(Msg::Rendered(result)) => match self.rendered(result, id, actions) {
                Ok(()) => Ok(Outcome::Continue),
                Err(why) => Err(why),
            },
            Some(Msg::Changed) | Some(Msg::Viewed(_)) | None => Ok(Outcome::Continue),
        }
    }

    /// Ends the live output, after it was stopped with a code or the stream ended. What the
    /// region shows stays.
    pub fn finish(&mut self, quit: Option<u8>) -> (ending: Ending)
        requires
            live_in_step(old(self)@),
        ensures
            ending.out@ == super::session_bytes(
                old(self)@.session,
                Seq::empty(),
                Picture::Keep,
                Seq::empty(),
                None,
            ),
            text::optional(ending.report) == if quit is None && !old(self)@.found {
                Some("mer: "@ + diag::NO_DIAGRAM@)
            } else {
                None
            },
            ending.code == ending_code(old(self)@, quit),
            final(self)@ == (LiveModel {
                session: SessionModel {
                    region: Region { lines: 0, image: None },
                    ..old(self)@.session
                },
                ..old(self)@
            }),
    {
        let none: Vec<String> = Vec::new();
        assert(text::views(none@) =~= Seq::empty());
        let out = self.session.release(&none);
        if let Some(code) = quit {
            return Ending { out, report: None, code };
        }
        if !self.found {
            return Ending { out, report: Some(display::no_diagrams()), code: 1 };
        }
        let code: u8 = if self.failed {
            1
        } else {
            0
        };
        Ending { out, report: None, code }
    }
}

/// The finished diagrams that are not printed yet: the one being rendered, and those that wait.
pub open spec fn unprinted(m: LiveModel) -> Seq<DiagramModel> {
    match m.busy {
        Some(BusyModel::Final(diagram)) => seq![diagram] + m.queue,
        _ => m.queue,
    }
}

/// Finished diagrams are printed in the order in which they were found: more input adds to the
/// end of those not printed yet, starting a render leaves them as they are, and a finished
/// render takes the first.
pub proof fn diagrams_are_printed_in_order(
    m: LiveModel,
    bytes: Seq<u8>,
    result: Result<Frame, Failure>,
    now: u64,
    id: u32,
)
    ensures
        unprinted(fed(m, bytes, now)) == unprinted(m) + feed_step(m.intake, bytes).1,
        unprinted(ended(m)) == unprinted(m) + end_step(m.intake).1,
        unprinted(pump_step(m, now).0) == unprinted(m),
        m.busy matches Some(BusyModel::Final(diagram)) ==> unprinted(m) == seq![diagram]
            + unprinted(rendered_step(m, result, id).0),
        !(m.busy is Some && m.busy->0 is Final) ==> unprinted(rendered_step(m, result, id).0)
            == unprinted(m),
{
    let fed = unprinted(m) + feed_step(m.intake, bytes).1;
    assert(unprinted(self::fed(m, bytes, now)) =~= fed);
    assert(unprinted(ended(m)) =~= unprinted(m) + end_step(m.intake).1);
    if m.busy is None && m.queue.len() > 0 {
        assert(seq![m.queue[0]] + m.queue.drop_first() =~= m.queue);
    }
}

} // verus!
