//! Diagram sources: Mermaid files, Markdown fences, and stdin.

pub mod fences;
pub mod headers;
pub mod markdown;
pub mod sniff;

use vstd::prelude::*;
use vstd::slice::slice_subrange;

use crate::path;
use crate::text;

verus! {

#[derive(Clone, Copy, Debug, PartialEq, Eq, Structural)]
pub enum Format {
    Mermaid,
    Markdown,
}

#[derive(Clone, Debug, PartialEq, Eq)]
pub struct Diagram {
    pub text: String,
    /// Where the diagram came from, for messages: a path or `<stdin>`.
    pub origin: String,
    /// Zero-based line of the input on which `text` starts.
    pub first_line: usize,
    /// The nearest Markdown heading above the diagram.
    pub caption: Option<String>,
}

/// What a [`Diagram`] holds.
pub struct DiagramModel {
    pub text: Seq<char>,
    pub origin: Seq<char>,
    pub first_line: nat,
    pub caption: Option<Seq<char>>,
}

impl View for Diagram {
    type V = DiagramModel;

    open spec fn view(&self) -> DiagramModel {
        DiagramModel {
            text: self.text@,
            origin: self.origin@,
            first_line: self.first_line as nat,
            caption: text::optional(self.caption),
        }
    }
}

/// The models of several diagrams.
pub open spec fn models(diagrams: Seq<Diagram>) -> Seq<DiagramModel> {
    diagrams.map_values(|d: Diagram| d@)
}

/// The format that a file extension stands for.
pub open spec fn extension_format(ext: Seq<char>) -> Option<Format> {
    if text::same_letters(ext, "mmd"@) || text::same_letters(ext, "mermaid"@) {
        Some(Format::Mermaid)
    } else if text::same_letters(ext, "md"@) || text::same_letters(ext, "markdown"@)
        || text::same_letters(ext, "mdx"@) {
        Some(Format::Markdown)
    } else {
        None
    }
}

/// The format that a path's extension stands for.
pub open spec fn path_format(path: Seq<char>) -> Option<Format> {
    match path::path_extension(path) {
        Some(ext) => extension_format(ext),
        None => None,
    }
}

/// The diagram that a fence of a document holds.
pub open spec fn fence_diagram(fence: markdown::FenceModel, origin: Seq<char>) -> DiagramModel {
    DiagramModel {
        text: fence.text,
        origin,
        first_line: fence.first_line,
        caption: fence.caption,
    }
}

/// The diagrams that fences hold.
pub open spec fn fence_diagrams(fences: Seq<markdown::FenceModel>, origin: Seq<char>) -> Seq<
    DiagramModel,
> {
    fences.map_values(|f: markdown::FenceModel| fence_diagram(f, origin))
}

/// The diagrams of a document in a known format.
pub open spec fn found_in(text: Seq<char>, origin: Seq<char>, format: Option<Format>) -> Seq<
    DiagramModel,
> {
    match format {
        None => Seq::empty(),
        Some(Format::Mermaid) => seq![
            DiagramModel { text, origin, first_line: 0, caption: None },
        ],
        Some(Format::Markdown) => fence_diagrams(
            markdown::fences_of(text::lines(text)),
            origin,
        ),
    }
}

/// The given format, or the one that the document shows.
pub open spec fn settled(text: Seq<char>, format: Option<Format>) -> Option<Format> {
    match format {
        Some(format) => Some(format),
        None => sniff::sniffed(text::lines(text), true, true),
    }
}

/// The diagrams of one complete document.
pub open spec fn diagrams_of(text: Seq<char>, origin: Seq<char>, format: Option<Format>) -> Seq<
    DiagramModel,
> {
    found_in(text, origin, settled(text, format))
}

/// The diagrams of one document of stdin. A blank document has none.
pub open spec fn document_diagrams(text: Seq<char>, format: Option<Format>) -> Seq<DiagramModel> {
    if text::trimmed(text).len() == 0 {
        Seq::empty()
    } else {
        diagrams_of(text, "<stdin>"@, format)
    }
}

/// The diagrams of several documents, in order.
pub open spec fn all_diagrams(documents: Seq<Seq<char>>, format: Option<Format>) -> Seq<
    DiagramModel,
>
    decreases documents.len(),
{
    if documents.len() == 0 {
        Seq::empty()
    } else {
        document_diagrams(documents[0], format) + all_diagrams(documents.drop_first(), format)
    }
}

/// The format that a path's extension stands for.
pub fn format_from_extension(path: &str) -> (format: Option<Format>)
    ensures
        format == path_format(path@),
{
    let path = text::chars(path);
    let ext = match path::find_path_extension(&path) {
        Some(ext) => ext,
        None => return None,
    };
    if text::is_text_ignoring_case(ext, "mmd") || text::is_text_ignoring_case(ext, "mermaid") {
        Some(Format::Mermaid)
    } else if text::is_text_ignoring_case(ext, "md") || text::is_text_ignoring_case(ext, "markdown")
        || text::is_text_ignoring_case(ext, "mdx") {
        Some(Format::Markdown)
    } else {
        None
    }
}

/// Splits one complete document into diagrams. Pass `None` to detect the format.
pub fn diagrams(text: &str, origin: &str, format: Option<Format>) -> (found: Vec<Diagram>)
    ensures
        models(found@) == diagrams_of(text@, origin@, format),
{
    let text = text::chars(text);
    let mut found: Vec<Diagram> = Vec::new();
    collect(&text, origin, format, &mut found);
    assert(models(found@) =~= diagrams_of(text@, origin@, format));
    found
}

/// Adds the diagrams of one document.
fn collect(text: &[char], origin: &str, format: Option<Format>, found: &mut Vec<Diagram>)
    ensures
        models(final(found)@) == models(old(found)@) + diagrams_of(text@, origin@, format),
{
    let format = match format {
        Some(format) => Some(format),
        None => sniff::sniff_chars(text, true),
    };
    match format {
        None => {
            assert(models(found@) =~= models(old(found)@) + diagrams_of(text@, origin@, format));
        },
        Some(Format::Mermaid) => {
            found.push(
                Diagram {
                    text: text::string(text),
                    origin: origin.to_string(),
                    first_line: 0,
                    caption: None,
                },
            );
            assert(models(found@) =~= models(old(found)@) + diagrams_of(text@, origin@, format));
        },
        Some(Format::Markdown) => {
            let fences = markdown::extract_chars(text);
            let ghost all = markdown::models(fences@);
            let ghost before = models(found@);
            assert(before + fence_diagrams(all.take(0), origin@) =~= before);
            for fence in it: fences
                invariant
                    it.seq() == fences@,
                    all == markdown::models(fences@),
                    models(found@) == before + fence_diagrams(all.take(it.index() as int), origin@),
            {
                let ghost i = it.index() as int;
                let ghost was = models(found@);
                found.push(diagram_of_fence(fence, origin));
                proof {
                    assert(all[i] == fence@);
                    assert(models(found@) =~= was.push(fence_diagram(all[i], origin@)));
                    assert(fence_diagrams(all.take(i + 1), origin@) =~= fence_diagrams(
                        all.take(i),
                        origin@,
                    ).push(fence_diagram(all[i], origin@)));
                }
            }
            assert(all.take(all.len() as int) =~= all);
        },
    }
}

/// The diagram that a fence holds.
pub fn diagram_of_fence(fence: markdown::Fence, origin: &str) -> (diagram: Diagram)
    ensures
        diagram@ == fence_diagram(fence@, origin@),
{
    Diagram {
        text: fence.text,
        origin: origin.to_string(),
        first_line: fence.first_line,
        caption: fence.caption,
    }
}

/// Splits stdin into its NUL-separated documents and returns their diagrams in order.
pub fn documents(text: &str, format: Option<Format>) -> (found: Vec<Diagram>)
    ensures
        models(found@) == all_diagrams(text::split(text@, '\0'), format),
{
    let all = text::chars(text);
    let mut found: Vec<Diagram> = Vec::new();
    let mut rest = all.as_slice();
    assert(models(found@) + all_diagrams(text::split(text@, '\0'), format) =~= all_diagrams(
        text::split(text@, '\0'),
        format,
    ));
    loop
        invariant
            all_diagrams(text::split(text@, '\0'), format) == models(found@) + all_diagrams(
                text::split(rest@, '\0'),
                format,
            ),
        decreases rest@.len(),
    {
        let end: usize = text::position(rest, '\0');
        let document = slice_subrange(rest, 0, end);
        let ghost before = models(found@);
        let ghost parts = text::split(rest@, '\0');
        proof {
            assert(document@ =~= rest@.take(end as int));
            assert(rest@.take(rest@.len() as int) =~= rest@);
            assert(parts[0] == document@);
        }
        if text::trim(document).len() > 0 {
            collect(document, "<stdin>", format, &mut found);
        }
        assert(models(found@) =~= before + document_diagrams(document@, format));
        if end == rest.len() {
            assert(all_diagrams(parts.drop_first(), format) =~= Seq::empty());
            assert(models(found@) =~= before + all_diagrams(parts, format));
            return found;
        }
        let next = slice_subrange(rest, end + 1, rest.len());
        proof {
            assert(next@ =~= rest@.skip(end + 1));
            assert(parts.drop_first() =~= text::split(next@, '\0'));
            assert(before + (document_diagrams(document@, format) + all_diagrams(
                parts.drop_first(),
                format,
            )) =~= models(found@) + all_diagrams(parts.drop_first(), format));
        }
        rest = next;
    }
}

} // verus!
