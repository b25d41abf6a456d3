//! Diagram sources.

use mer::diag::Diagnostic;
use mer::input::markdown::{extract, heading, is_closing, is_mermaid_info, opening, strip_indent, Fence, Scanner};
use mer::input::sniff::{is_mermaid_header, sniff};
use mer::input::{diagrams, documents, format_from_extension, Diagram, Format};

fn diagram(text: &str, first_line: usize) -> Diagram {
    Diagram {
        text: text.to_string(),
        origin: "docs/arch.md".to_string(),
        first_line,
        caption: None,
    }
}

fn chars(s: &str) -> Vec<char> {
    s.chars().collect()
}

#[test]
fn points_at_the_file_line_and_column() {
    let d = diagram("flowchart TD\n  A[Start] --> B{Choice}\n  B -->|yes| C[Done\n", 41);
    let diagnostic = Diagnostic {
        message: "Unterminated node label (missing `]`)".to_string(),
        span: Some((52, 53)),
    };
    assert_eq!(
        mer::diag::format(&diagnostic, &d, false),
        "error: Unterminated node label (missing `]`)\n\
         \x20 --> docs/arch.md:44:15\n\
         \x20  |\n\
         44 |   B -->|yes| C[Done\n\
         \x20  |               ^\n"
    );
}

#[test]
fn diagnostics_without_a_span_name_the_origin() {
    let diagnostic = Diagnostic {
        message: "No Mermaid diagram type detected".to_string(),
        span: None,
    };
    assert_eq!(
        mer::diag::format(&diagnostic, &diagram("hello", 0), false),
        "error: No Mermaid diagram type detected\n --> docs/arch.md\n"
    );
}

#[test]
fn spans_past_the_end_or_inside_characters_are_clamped() {
    let d = diagram("graph\n  é", 0);
    let out = mer::diag::format(
        &Diagnostic {
            message: "x".to_string(),
            span: Some((9, 10)),
        },
        &d,
        false,
    );
    assert!(out.contains("docs/arch.md:2:3"), "{out}");
    let out = mer::diag::format(
        &Diagnostic {
            message: "x".to_string(),
            span: Some((100, 100)),
        },
        &d,
        false,
    );
    assert!(out.contains("docs/arch.md:2:4"), "{out}");
}

#[test]
fn tabs_are_kept_so_the_caret_lines_up() {
    let d = diagram("\tA --> [", 0);
    let out = mer::diag::format(
        &Diagnostic {
            message: "x".to_string(),
            span: Some((7, 8)),
        },
        &d,
        false,
    );
    assert!(out.ends_with("| \t      ^\n"), "{out:?}");
}

#[test]
fn colored_diagnostics_end_in_plain_text() {
    let diagnostic = Diagnostic {
        message: "bad".to_string(),
        span: Some((0, 1)),
    };
    assert_eq!(
        mer::diag::format(&diagnostic, &diagram("pie\r\n", 8), true),
        "\x1b[1;31merror\x1b[0m\x1b[1m: bad\x1b[0m\n \
         \x1b[1;34m-->\x1b[0m docs/arch.md:9:1\n  \
         \x1b[1;34m|\x1b[0m\n\
         \x1b[1;34m9 |\x1b[0m pie\n  \
         \x1b[1;34m|\x1b[0m \x1b[1;31m^\x1b[0m\n"
    );
}

#[test]
fn extracts_mermaid_fences_with_positions() {
    let doc = "intro\n```mermaid\ngraph TD\n  A-->B\n```\ntext\n```rust\nfn main() {}\n```\n";
    assert_eq!(
        extract(doc),
        vec![Fence {
            text: "graph TD\n  A-->B\n".to_string(),
            first_line: 2,
            caption: None,
        }]
    );
}

#[test]
fn captions_come_from_the_nearest_heading() {
    let doc = "# Top\n## Flow ##\n```mermaid\na\n```\n### C#\n~~~mermaid\nb\n~~~\n";
    let captions: Vec<_> = extract(doc).into_iter().map(|f| f.caption).collect();
    assert_eq!(captions, [Some("Flow".to_string()), Some("C#".to_string())]);
}

#[test]
fn headings_inside_fences_are_ignored() {
    let doc = "# Real\n```sh\n# comment\n```\n```mermaid\nx\n```\n";
    assert_eq!(extract(doc)[0].caption.as_deref(), Some("Real"));
}

#[test]
fn longer_fences_can_contain_shorter_ones() {
    let doc = "````markdown\n```mermaid\nnot a diagram\n```\n````\n````mermaid\ngraph\n```\nstill inside\n````\n";
    let fences = extract(doc);
    assert_eq!(fences.len(), 1);
    assert_eq!(fences[0].text, "graph\n```\nstill inside\n");
}

#[test]
fn indentation_is_removed_up_to_the_fence_indent() {
    let doc = "  ```mermaid\n    graph\n   A\n B\n  ```\n";
    assert_eq!(extract(doc)[0].text, "  graph\n A\nB\n");
}

#[test]
fn info_string_variants() {
    assert!(is_mermaid_info("mermaid"));
    assert!(is_mermaid_info("Mermaid title=x"));
    assert!(is_mermaid_info("{mermaid}"));
    assert!(!is_mermaid_info("mermaidjs"));
    assert!(!is_mermaid_info(""));
    assert!(opening("```mermaid").is_some());
    assert!(opening("``` mermaid ` x").is_none());
    assert!(opening("    ```mermaid").is_none());
    assert!(opening("``mermaid").is_none());
}

#[test]
fn unclosed_fences_run_to_the_end() {
    let fences = extract("```mermaid\ngraph TD\nA-->B");
    assert_eq!(fences[0].text, "graph TD\nA-->B\n");
}

#[test]
fn streaming_reports_fences_as_they_close() {
    let mut scanner = Scanner::new();
    assert_eq!(scanner.push_line("Here you go:"), None);
    assert_eq!(scanner.push_line("```mermaid"), None);
    assert_eq!(scanner.push_line("pie"), None);
    let fence = scanner.push_line("```\r").expect("closed fence");
    assert_eq!(fence.text, "pie\n");
    assert_eq!(scanner.finish(), None);
}

#[test]
fn the_parts_of_fences() {
    assert_eq!(opening("  ~~~~ mermaid x"), Some(('~', 4, 2, "mermaid x".to_string())));
    assert!(is_closing("  ~~~~~  ", '~', 4));
    assert!(!is_closing("~~~", '~', 4));
    assert!(!is_closing("~~~~ x", '~', 4));
    assert_eq!(strip_indent(&chars("   a"), 2), chars(" a").as_slice());
    assert_eq!(strip_indent(&chars(" a"), 2), chars("a").as_slice());
    assert_eq!(heading(&chars("## Flow ##")), Some("Flow".to_string()));
    assert_eq!(heading(&chars("#hash")), None);
    assert_eq!(heading(&chars("####### seven")), None);
}

#[test]
fn scanning_in_batches_finds_the_same_fences() {
    let doc = "# A\n```mermaid\none\n```\ntext\n~~~mermaid\ntwo\n~~~\n```mermaid\nthree";
    let lines: Vec<&str> = doc.lines().collect();
    for cut in 0..=lines.len() {
        let mut scanner = Scanner::new();
        let mut found = Vec::new();
        for line in &lines[..cut] {
            found.extend(scanner.push_line(line));
        }
        for line in &lines[cut..] {
            found.extend(scanner.push_line(line));
        }
        found.extend(scanner.finish());
        assert_eq!(found, extract(doc));
    }
}

#[test]
fn nul_separated_documents_follow_each_other() {
    let found = documents("graph TD\n A-->B\n\0\0pie\n\0", None);
    let texts: Vec<_> = found.iter().map(|d| d.text.as_str()).collect();
    assert_eq!(texts, ["graph TD\n A-->B\n", "pie\n"]);
}

#[test]
fn formats_from_extensions() {
    assert_eq!(format_from_extension("a.mmd"), Some(Format::Mermaid));
    assert_eq!(format_from_extension("a.Mermaid"), Some(Format::Mermaid));
    assert_eq!(format_from_extension("docs/README.md"), Some(Format::Markdown));
    assert_eq!(format_from_extension("a.txt"), None);
    assert_eq!(format_from_extension("Makefile"), None);
}

#[test]
fn hidden_files_and_directories_have_no_extension() {
    assert_eq!(format_from_extension(".md"), None);
    assert_eq!(format_from_extension("a.md/.."), None);
    assert_eq!(format_from_extension("a.MDX"), Some(Format::Markdown));
    assert_eq!(format_from_extension("a.md/"), Some(Format::Markdown));
    assert_eq!(format_from_extension("b.tar.markdown"), Some(Format::Markdown));
}

#[test]
fn markdown_documents_yield_their_fences() {
    let doc = "# Title\n\n```mermaid\ngraph TD\n  A-->B\n```\n\n## Next\n```mermaid\npie\n```\n";
    let found = diagrams(doc, "doc.md", None);
    assert_eq!(found.len(), 2);
    assert_eq!(found[0].text, "graph TD\n  A-->B\n");
    assert_eq!(found[0].first_line, 3);
    assert_eq!(found[0].caption.as_deref(), Some("Title"));
    assert_eq!(found[1].caption.as_deref(), Some("Next"));
    assert_eq!(found[1].origin, "doc.md");
}

#[test]
fn mermaid_documents_are_one_diagram() {
    let found = diagrams("flowchart LR\n  A --> B\n", "<stdin>", None);
    assert_eq!(found.len(), 1);
    assert_eq!(found[0].first_line, 0);
    assert!(diagrams("\n\n", "<stdin>", None).is_empty());
}

#[test]
fn a_given_format_is_not_detected() {
    let found = diagrams("# Not a diagram\n", "x", Some(Format::Mermaid));
    assert_eq!(found[0].text, "# Not a diagram\n");
    assert!(diagrams("flowchart LR\n", "x", Some(Format::Markdown)).is_empty());
}

fn complete(text: &str) -> Option<Format> {
    sniff(text, true)
}

#[test]
fn mermaid_sources() {
    for text in [
        "flowchart LR\n  A --> B\n",
        "graph TD; A-->B",
        "graph\n A-->B",
        "  sequenceDiagram\n",
        "stateDiagram-v2\n",
        "pie\n",
        "pie title Pets\n",
        "timeline\n  title History\n",
        "architecture-beta\n",
        "C4Context\n",
        "gitGraph:\n",
        "%% a comment\n%%{init: {\"theme\": \"dark\"}}%%\ngraph LR\n",
        "\n\n---\ntitle: Flow\nconfig:\n  theme: dark\n---\nflowchart TB\n",
    ] {
        assert_eq!(complete(text), Some(Format::Mermaid), "{text:?}");
    }
}

#[test]
fn markdown_documents() {
    for text in [
        "# Architecture\n\n```mermaid\ngraph TD\n```\n",
        "Here is the diagram you asked for:\n\n```mermaid\n",
        "---\ntitle: Blog post\ndate: 2026-09-11\n---\n\nSome prose.\n",
        "pie charts are underrated\n",
        "timeline of the project\n",
        "architecture overview\n",
        "graph theory basics\n",
        "- a list\n",
    ] {
        assert_eq!(complete(text), Some(Format::Markdown), "{text:?}");
    }
}

#[test]
fn undecided_until_a_meaningful_line_arrives() {
    assert_eq!(complete(""), None);
    assert_eq!(complete("\n  \n%% just a comment\n"), None);
    assert_eq!(sniff("---\ntitle: x\n", false), None);
    assert_eq!(sniff("---\ntitle: x\n---\n\n", false), None);
    assert_eq!(sniff("---\ntitle: x\n---\nflowchart LR\n", false), Some(Format::Mermaid));
}

#[test]
fn unclosed_frontmatter_at_the_end_is_markdown() {
    assert_eq!(complete("---\nnot frontmatter after all\n"), Some(Format::Markdown));
}

#[test]
fn a_decided_format_stays_as_text_arrives() {
    for text in ["\n%% x\nflowchart LR\n# A\n", "---\na\n---\nprose\ngraph TD\n"] {
        let mut decided = None;
        for (end, _) in text.match_indices('\n') {
            let format = sniff(&text[..end + 1], false);
            if decided.is_some() {
                assert_eq!(format, decided);
            }
            decided = format;
        }
        assert_eq!(decided, sniff(text, true));
    }
}

#[test]
fn headers_of_diagrams() {
    assert!(is_mermaid_header(&chars("flowchart-elk TD")));
    assert!(is_mermaid_header(&chars("graph LR;")));
    assert!(!is_mermaid_header(&chars("graph theory")));
    assert!(!is_mermaid_header(&chars("")));
}

#[test]
fn colors_change_no_text() {
    for span in [None, Some((6, 7))] {
        let diagnostic = Diagnostic {
            message: "bad thing".to_string(),
            span,
        };
        let diagram = diagram("pie\n\t\"a\" : 1\n", 8);
        let mut plain = String::new();
        let mut colored = false;
        for c in mer::diag::format(&diagnostic, &diagram, true).chars() {
            if c == '\x1b' {
                colored = true;
            } else if colored {
                colored = c != 'm';
            } else {
                plain.push(c);
            }
        }
        assert_eq!(plain, mer::diag::format(&diagnostic, &diagram, false));
        assert!(!plain.contains('\x1b'));
    }
}
