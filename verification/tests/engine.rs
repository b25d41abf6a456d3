//! What mer makes of merman's drawings.

use std::borrow::Cow;

use merman::resources::{InputResourcePolicy, ResourceProfile};
use merman::svg::{
    RenderResourcePolicy, RenderResult, RootBackgroundPostprocessor, SvgPipeline,
    SvgPostprocessContext, SvgPostprocessor,
};
use merman::{MermaidConfig, ParseOptions, Renderer, SvgEnvironment, SvgRequest};

use mer::cli::{FitArg, Protocol};
use mer::display::{self, Found, Setup};
use mer::engine::labels::{added, Batched, Batches, Document, Next, BATCH, MATCH_BUDGET};
use mer::engine::{
    failure, text_failure, text_request, without_prefix, Budgets, Cause, Characters, Control,
    Engine, Failure, Overflow, Problem, TextRequest,
};
use mer::input::{diagrams, Diagram, Format};
use mer::json::Value;
use mer::live::Action;
use mer::render::Frame;
use mer::run::Showing;
use mer::settings::{Settings, SCALE_ONE};
use mer::term::probe::Caps;

/// Converts labels in batches before merman does.
struct Labels(Batched);

impl SvgPostprocessor for Labels {
    fn name(&self) -> &'static str {
        "mer-label-batches"
    }

    fn process<'a>(
        &self,
        svg: Cow<'a, str>,
        ctx: &SvgPostprocessContext<'_>,
    ) -> RenderResult<Cow<'a, str>> {
        match self.0.process(&svg, ctx)? {
            Some(converted) => Ok(Cow::Owned(converted)),
            None => Ok(svg),
        }
    }
}

fn with_label_batches(config: serde_json::Value, batch: Option<usize>) -> Engine {
    let engine = merman::Engine::new().with_site_config(MermaidConfig::from_value(config));
    let renderer = Renderer::new()
        .with_engine(engine)
        .with_parse_options(ParseOptions::strict())
        .with_resource_policy(InputResourcePolicy::for_profile(
            ResourceProfile::UnboundedForTrustedInput,
        ));
    let mut pipeline = SvgPipeline::resvg_safe();
    if let Some(size) = batch {
        pipeline = pipeline.with_postprocessor(Labels(Batched::new(size)));
    }
    let pipeline = pipeline.with_postprocessor(RootBackgroundPostprocessor::new("transparent"));
    let request = SvgRequest {
        environment: SvgEnvironment::deterministic()
            .with_resource_policy(RenderResourcePolicy::unbounded_for_trusted_input()),
        pipeline: Some(pipeline),
        ..SvgRequest::default()
    };
    Engine { renderer, request }
}

fn engine() -> Engine {
    let config = serde_json::from_str(r#"{ "fontFamily": "Inter" }"#).unwrap();
    with_label_batches(config, Some(BATCH))
}

fn json(value: &Value) -> serde_json::Value {
    match value {
        Value::Null => serde_json::Value::Null,
        Value::Bool(b) => serde_json::Value::Bool(*b),
        Value::Number(n) => serde_json::from_str(n).unwrap(),
        Value::Text(s) => serde_json::Value::String(s.clone()),
        Value::Array(items) => serde_json::Value::Array(items.iter().map(json).collect()),
        Value::Object(entries) => {
            let mut map = serde_json::Map::new();
            for (key, v) in entries {
                map.entry(key.clone()).or_insert(json(v));
            }
            serde_json::Value::Object(map)
        }
    }
}

const SVG: &str = r#"<svg id="m"><style>#m .a > p{color:red}</style><!-- <foreignObject> --><g class="a"><g class="b"><foreignObject width="1" height="1"><div>1</div></foreignObject></g><rect title="a > b"/><g class="c"><foreignObject width="1" height="1"><div>2</div></foreignObject></g></g><g class="d"><foreignObject width="1" height="1"><div>3</div></foreignObject></g></svg>"#;

const HEAD: &str = r#"<svg id="m"><style>#m .a > p{color:red}</style>"#;

fn label(text: &str) -> String {
    format!(r#"<foreignObject width="1" height="1"><div>{text}</div></foreignObject>"#)
}

#[test]
fn batches_hold_labels_with_their_ancestors_and_stylesheets() {
    let document = Document::scan(SVG).unwrap();
    assert_eq!(document.labels.len(), 3);
    assert_eq!(
        document.batch(SVG, 0, 3),
        format!(
            r#"{HEAD}<g class="a"><g class="b">{}</g><g class="c">{}</g></g><g class="d">{}</g></svg>"#,
            label("1"),
            label("2"),
            label("3")
        )
    );
    assert_eq!(
        document.batch(SVG, 1, 2),
        format!(r#"{HEAD}<g class="a"><g class="c">{}</g></g></svg>"#, label("2"))
    );
}

#[test]
fn labels_are_replaced_by_text_at_the_end() {
    let document = Document::scan(SVG).unwrap();
    assert_eq!(
        document.without_labels(SVG, "<text/>"),
        r#"<svg id="m"><style>#m .a > p{color:red}</style><!-- <foreignObject> --><g class="a"><g class="b"></g><rect title="a > b"/><g class="c"></g></g><g class="d"></g><text/></svg>"#
    );
}

#[test]
fn unfamiliar_documents_are_left_alone() {
    assert!(Document::scan("<g><foreignObject></foreignObject></g>").is_none());
    assert!(Document::scan("<svg><g></svg>").is_none());
    assert!(Document::scan("<svg><foreignobject></foreignobject></svg>").is_none());
    assert!(Document::scan(r#"<svg><foreignObject width="1"/></svg>"#).is_none());
    assert!(Document::scan("<svg></svg><svg></svg>").is_none());
}

#[test]
fn only_added_text_is_taken_from_the_conversion() {
    assert_eq!(added("<svg>x</svg>", "<svg>x<text/></svg>"), Some("<text/>".to_string()));
    assert_eq!(added("<svg>x</svg>", "<svg>x</svg>"), Some("".to_string()));
    assert_eq!(added("<svg>x</svg>", "<svg>y<text/></svg>"), None);
}

#[test]
fn batches_shrink_when_the_budget_is_used_up() {
    let mut batches = Batches::new(SVG, 2).unwrap();
    let document = Document::scan(SVG).unwrap();
    assert_eq!(batches.next().unwrap(), document.batch(SVG, 0, 2));
    assert_eq!(batches.refused(Some(MATCH_BUDGET)), Next::Go);
    for at in 0..3 {
        let batch = batches.next().unwrap();
        assert_eq!(batch, document.batch(SVG, at, at + 1));
        let converted = format!("{}<t{at}/></svg>", batch.strip_suffix("</svg>").unwrap());
        assert_eq!(batches.converted(&batch, &converted), Next::Go);
    }
    assert!(batches.next().is_none());
    assert_eq!(batches.finish(), document.without_labels(SVG, "<t0/><t1/><t2/>"));
}

#[test]
fn batches_give_up_on_other_refusals() {
    let mut batches = Batches::new(SVG, 1).unwrap();
    assert_eq!(batches.refused(Some(MATCH_BUDGET)), Next::Fail);
    let mut batches = Batches::new(SVG, 3).unwrap();
    assert_eq!(batches.refused(Some("another_limit")), Next::Fail);
    assert_eq!(batches.refused(None), Next::Fail);
    let batch = batches.next().unwrap();
    assert_eq!(batches.converted(&batch, "<svg></svg>"), Next::Leave);
    assert!(Batches::new("<svg><switch></switch></svg>", 3).is_none());
    assert!(Batches::new("<svg></svg>", 3).is_none());
}

#[test]
fn renders_resvg_safe_svg() {
    let svg = engine()
        .render_svg("flowchart LR\n  A[Start] --> B[Done]\n", Control::new())
        .unwrap();
    assert!(svg.starts_with("<svg"));
    assert!(svg.contains("Start") && svg.contains("Done"));
    assert!(!svg.contains("foreignObject"));
    assert!(!svg.contains("background-color:white"));
}

#[test]
fn label_batches_draw_what_merman_draws() {
    let config = json(&display::site_config("default", None, None));
    let whole = with_label_batches(config.clone(), None);
    let batched = with_label_batches(config, Some(2));
    let diagrams = diagrams(GALLERY, "gallery.md", Some(Format::Markdown));
    assert!(diagrams.len() >= 20);
    for diagram in &diagrams {
        let expected = whole.render_svg(&diagram.text, Control::new()).ok();
        let actual = batched.render_svg(&diagram.text, Control::new()).ok();
        assert!(expected.is_some(), "{:?} does not render", diagram.caption);
        assert!(expected == actual, "{:?} differs when drawn in batches", diagram.caption);
    }
}

/// An ER diagram with so many tables of eight columns, all related.
fn schema(tables: usize) -> String {
    let mut source = String::from("erDiagram\n");
    for table in 0..tables {
        source.push_str(&format!("  TABLE_{table} {{\n"));
        for column in 0..8 {
            source.push_str(&format!("    string column_{column}\n"));
        }
        source.push_str("  }\n");
        if table > 0 {
            source.push_str(&format!("  TABLE_{} ||--o{{ TABLE_{table} : has\n", table / 2));
        }
    }
    source
}

#[test]
fn schemas_with_several_batches_of_labels_render() {
    let svg = engine().render_svg(&schema(40), Control::new()).unwrap();
    assert!(svg.contains(">TABLE_39</text>") && !svg.contains("<foreignObject"));
}

#[test]
fn batches_take_the_labels_out_of_documents() {
    let config = || serde_json::from_str("{}").unwrap();
    let mut engine = with_label_batches(config(), None);
    let only = SvgPipeline::parity();
    engine.request.pipeline = Some(only.clone());
    let whole = engine.render_svg(&schema(2), Control::new()).unwrap();
    assert!(whole.contains("<foreignObject") && !whole.contains("</text>"));
    let mut drawn = Vec::new();
    for size in [1, 7, BATCH] {
        engine.request.pipeline = Some(only.clone().with_postprocessor(Labels(Batched::new(size))));
        drawn.push(engine.render_svg(&schema(2), Control::new()).unwrap());
    }
    assert!(drawn[0].contains(">TABLE_1</text>") && !drawn[0].contains("<foreignObject"));
    assert!(drawn[0] == drawn[1] && drawn[1] == drawn[2], "drawings differ by batch size");
}

#[test]
fn parse_errors_carry_a_span() {
    let source = "flowchart TD\n  A[Start] --> B{Choice}\n  B -->|yes| C[Done\n";
    let Err(Failure::Diagnostic(diagnostic)) = engine().render_svg(source, Control::new()) else {
        panic!("expected a diagnostic");
    };
    assert_eq!(diagnostic.message, "Unterminated node label (missing `]`)");
    let (start, _) = diagnostic.span.expect("span");
    assert_eq!(&source[start..start + 1], "[");
}

#[test]
fn empty_input_is_not_a_diagram() {
    assert!(matches!(
        engine().render_svg("", Control::new()),
        Err(Failure::Empty | Failure::Diagnostic(_))
    ));
}

#[test]
fn cancelled_renders_stop() {
    let control = Control::new();
    control.cancel();
    assert!(matches!(
        engine().render_svg("flowchart LR\n A --> B\n", control),
        Err(Failure::Cancelled)
    ));
}

#[test]
fn draws_diagrams_as_text() {
    let text = engine()
        .render_text("flowchart LR\n  A[Start] --> B[Done]\n", Some(80))
        .unwrap();
    assert!(text.contains("Start") && text.contains("Done"), "{text}");
    assert!(text.chars().any(|c| ('\u{2500}'..='\u{257f}').contains(&c)), "{text}");
}

#[test]
fn text_wider_than_the_terminal_is_an_error() {
    let source = "flowchart LR\n  A[Read the input] --> B[Parse the diagram] --> C[Send it]\n";
    let Err(Failure::Diagnostic(diagnostic)) = engine().render_text(source, Some(40)) else {
        panic!("the drawing should not fit in 40 columns");
    };
    assert!(diagnostic.message.contains("but the terminal has 40;"), "{}", diagnostic.message);
    let text = engine().render_text(source, None).unwrap();
    assert!(text.lines().any(|line| line.chars().count() > 40), "{text}");
}

#[test]
fn widths_are_strict_where_they_are_limited() {
    let limited = TextRequest {
        characters: Characters::Unicode,
        budgets: Budgets::Unbounded,
        max_width: Some(40),
        overflow: Overflow::Error,
    };
    assert_eq!(text_request(Some(40)), limited);
    assert_eq!(
        text_request(None),
        TextRequest {
            max_width: None,
            overflow: Overflow::Allow,
            ..limited
        }
    );
}

#[test]
fn text_output_names_what_it_cannot_draw() {
    let Err(Failure::Diagnostic(diagnostic)) =
        engine().render_text("pie\n  \"Dogs\" : 3\n", Some(80))
    else {
        panic!("pie charts have no text rendering");
    };
    assert!(diagnostic.message.contains("-o FILE"), "{}", diagnostic.message);
}

#[test]
fn prefix_is_removed_only_when_present() {
    assert_eq!(without_prefix("Diagram parse error (pie): bad"), "bad");
    assert_eq!(without_prefix("No Mermaid diagram type detected"), "No Mermaid diagram type detected");
}

#[test]
fn problems_become_failures() {
    let problem = |shown: &str, cause: Cause| Problem {
        shown: shown.to_string(),
        cause,
    };
    assert!(matches!(failure(problem("none", Cause::NoDiagram)), Failure::Empty));
    assert!(matches!(failure(problem("stopped", Cause::Cancelled)), Failure::Cancelled));
    let parse = problem("Diagram parse error (pie): bad", Cause::Parse(Some((3, 4))));
    let Failure::Diagnostic(diagnostic) = failure(parse) else {
        panic!("expected a diagnostic");
    };
    assert_eq!((diagnostic.message.as_str(), diagnostic.span), ("bad", Some((3, 4))));
    let Failure::Diagnostic(diagnostic) = text_failure(problem("odd", Cause::Text)) else {
        panic!("expected a diagnostic");
    };
    assert_eq!(diagnostic.message, "odd; write an image with -o FILE instead");
    let Failure::Diagnostic(diagnostic) = text_failure(problem("else", Cause::Other)) else {
        panic!("expected a diagnostic");
    };
    assert_eq!(diagnostic.message, "else");
    let wide = problem("too wide", Cause::TooWide(40, 90));
    let Failure::Diagnostic(diagnostic) = text_failure(wide) else {
        panic!("expected a diagnostic");
    };
    assert_eq!(
        diagnostic.message,
        "the diagram is 90 columns wide but the terminal has 40; widen the terminal or write an image with -o FILE"
    );
}

fn only(source: &str, origin: &str) -> Diagram {
    Diagram {
        text: source.to_string(),
        origin: origin.to_string(),
        first_line: 0,
        caption: None,
    }
}

/// Checks diagrams: the exit code, and what is reported.
fn check(diagrams: Vec<Diagram>) -> (u8, String) {
    let (actions, code) = mer::run::check(&engine(), &diagrams, false);
    let mut said = String::new();
    for action in actions {
        match action {
            Action::Report(report) => said.push_str(&report),
            other => panic!("nothing is displayed: {other:?}"),
        }
    }
    (code, said)
}

#[test]
fn check_reports_errors_without_displaying() {
    let mut good = vec![only("flowchart LR\n  A[Read] --> B[Draw]\n", "flowchart.mmd")];
    good.extend(diagrams(DOC, "doc.md", Some(Format::Markdown)));
    assert_eq!(good.len(), 3);
    assert_eq!(check(good), (0, String::new()));
    let broken = "flowchart TD\n  A[Start] --> B{Choice}\n  B -->|yes| C[Done\n";
    let (code, said) = check(vec![only(broken, "broken.mmd")]);
    assert_eq!(code, 1);
    assert!(said.contains("broken.mmd:3:15"), "{said}");
    assert!(said.ends_with("1 of 1 diagram(s) failed\n"), "{said}");
    assert_eq!(check(Vec::new()), (1, "mer: no Mermaid diagram found\n".to_string()));
}

#[test]
fn terminals_without_graphics_get_text_diagrams() {
    let caps = Caps {
        cols: 120,
        responded: true,
        ..Caps::default()
    };
    let settings = Settings {
        theme: None,
        background: None,
        scale: SCALE_ONE,
        fit: FitArg::Width,
        protocol: Protocol::Auto,
        mermaid: None,
    };
    let setup = Setup::new(&settings, Found::Probed(caps), false).unwrap();
    assert!(setup.text);
    let notice = display::notice(settings.protocol, setup.text, false).unwrap();
    assert!(notice.contains("drawn as text"), "{notice}");
    let source = "flowchart LR\n  A[Parse] --> B[Layout] --> C[Rasterize]\n";
    let diagrams = vec![only(source, "plain.mmd"), only("pie\n  \"Dogs\" : 3\n", "pie.mmd")];
    let (actions, code) = mer::run::show_text(&engine(), &diagrams, true, setup.caps.cols, false);
    assert_eq!(code, 1, "pie charts have no text rendering");
    let [Action::Write(text), Action::Report(report)] = &actions[..] else {
        panic!("{actions:?}");
    };
    let text = String::from_utf8_lossy(text);
    assert!(text.contains("Rasterize") && text.contains('─'), "{text}");
    assert!(report.contains("pie.mmd"), "{report}");
}

#[test]
fn markdown_shows_every_fence_with_its_heading() {
    let found = diagrams(DOC, "doc.md", None);
    assert_eq!(found.len(), 2);
    let mut actions = Vec::new();
    for diagram in &found {
        let frame = Ok(Frame {
            rgba: vec![0; 4],
            pixels: (1, 1),
            cols: 1,
            rows: 1,
            elapsed: 0,
        });
        mer::run::print_frame(diagram, &frame, 7, false, false, &mut actions).unwrap();
    }
    let mut out = Vec::new();
    for action in &actions {
        if let Action::Write(bytes) = action {
            out.extend_from_slice(bytes);
        }
    }
    let text = String::from_utf8_lossy(&out);
    let first = text.find("Request flow").expect("first caption");
    let second = text.find("States").expect("second caption");
    assert!(first < second);
    assert_eq!(text.matches("\x1b_Ga=T").count(), 2);
}

#[test]
fn syntax_errors_show_a_code_frame() {
    let source = "flowchart TD\n  A[Start] --> B{Choice}\n  B -->|yes| C[Done\n";
    let diagram = only(source, "broken.mmd");
    let failure = engine().render_svg(source, Control::new()).unwrap_err();
    let said = display::report(&failure, &diagram, false).unwrap();
    assert!(said.contains("broken.mmd:3:15"), "{said}");
    assert!(said.contains("Unterminated node label"), "{said}");
}

const DOC: &str = r###"# Design notes

Some prose before the diagrams.

## Request flow

```mermaid
sequenceDiagram
    participant U as User
    participant M as mer
    U->>M: cat diagram.mmd | mer -
    M-->>U: diagram in the terminal
```

A paragraph between the diagrams.

## States

```mermaid
stateDiagram-v2
    [*] --> Reading
    Reading --> Rendering: EOF
    Rendering --> [*]
```
"###;

const GALLERY: &str = r###"# Gallery

One diagram of each type, for checking themes by eye.

## Flowchart

```mermaid
flowchart LR
    A[Hard edge] -->|Link text| B(Round edge)
    B --> C{Decision}
    C -->|One| D[Result one]
    C -->|Two| E[Result two]
    subgraph cluster [Subgraph]
        D --> F[(Database)]
    end
```

## Sequence

```mermaid
sequenceDiagram
    autonumber
    Alice->>John: Hello John, how are you?
    loop Healthcheck
        John->>John: Fight against hypochondria
    end
    Note right of John: Rational thoughts!
    John-->>Alice: Great!
    John->>Bob: How about you?
    Bob-->>John: Jolly good!
```

## Class

```mermaid
classDiagram
    Animal <|-- Duck
    Animal <|-- Fish
    Animal : +int age
    Animal : +String gender
    Animal : +isMammal() bool
    class Duck {
        +String beakColor
        +swim()
        +quack()
    }
    class Fish {
        -int sizeInFeet
        -canEat()
    }
```

## State

```mermaid
stateDiagram-v2
    [*] --> Still
    Still --> [*]
    Still --> Moving
    Moving --> Still
    Moving --> Crash
    Crash --> [*]
    state Moving {
        [*] --> Slow
        Slow --> Fast
    }
    note right of Crash : Too fast
```

## Entity relationship

```mermaid
erDiagram
    CUSTOMER ||--o{ ORDER : places
    ORDER ||--|{ LINE-ITEM : contains
    CUSTOMER {
        string name
        string custNumber
    }
    ORDER {
        int orderNumber
        string deliveryAddress
    }
```

## Gantt

```mermaid
gantt
    title A Gantt Diagram
    dateFormat YYYY-MM-DD
    section Section
        A task          :a1, 2026-01-01, 30d
        Another task    :after a1, 20d
    section Another
        Task in Another :2026-01-12, 12d
        another task    :crit, 24d
```

## Pie

```mermaid
pie title Pets adopted by volunteers
    "Dogs" : 386
    "Cats" : 85
    "Rats" : 15
```

## User journey

```mermaid
journey
    title My working day
    section Go to work
      Make tea: 5: Me
      Go upstairs: 3: Me
      Do work: 1: Me, Cat
    section Go home
      Go downstairs: 5: Me
      Sit down: 5: Me
```

## Git graph

```mermaid
gitGraph
    commit
    commit
    branch develop
    checkout develop
    commit
    commit
    checkout main
    merge develop
    commit
```

## Mindmap

```mermaid
mindmap
  root((mer))
    Input
      Files
      Markdown
      stdin
    Rendering
      merman
      resvg
    Display
      Kitty graphics
      Placeholders
```

## Timeline

```mermaid
timeline
    title History of Social Media Platform
    2002 : LinkedIn
    2004 : Facebook : Google
    2005 : YouTube
    2006 : Twitter
```

## Quadrant

```mermaid
quadrantChart
    title Reach and engagement of campaigns
    x-axis Low Reach --> High Reach
    y-axis Low Engagement --> High Engagement
    quadrant-1 We should expand
    quadrant-2 Need to promote
    quadrant-3 Re-evaluate
    quadrant-4 May be improved
    Campaign A: [0.3, 0.6]
    Campaign B: [0.45, 0.23]
    Campaign C: [0.57, 0.69]
```

## XY chart

```mermaid
xychart-beta
    title "Sales Revenue"
    x-axis [jan, feb, mar, apr, may, jun]
    y-axis "Revenue (in $)" 4000 --> 11000
    bar [5000, 6000, 7500, 8200, 9500, 10500]
    line [5000, 6000, 7500, 8200, 9500, 10500]
```

## Sankey

```mermaid
sankey-beta
Agricultural 'waste',Bio-conversion,124.729
Bio-conversion,Liquid,0.597
Bio-conversion,Losses,26.862
Bio-conversion,Solid,280.322
Bio-conversion,Gas,81.144
```

## Requirement

```mermaid
requirementDiagram
    requirement test_req {
    id: 1
    text: the test text.
    risk: high
    verifymethod: test
    }
    element test_entity {
    type: simulation
    }
    test_entity - satisfies -> test_req
```

## C4

```mermaid
C4Context
    title System Context diagram for mer
    Person(user, "Developer", "Writes Mermaid diagrams")
    System(mer, "mer", "Renders diagrams in the terminal")
    System_Ext(ghostty, "Ghostty", "Terminal emulator")
    Rel(user, mer, "Runs")
    Rel(mer, ghostty, "Kitty graphics")
```

## Block

```mermaid
block-beta
    columns 3
    a["Input"] b["Engine"] c["Display"]
    a --> b
    b --> c
```

## Packet

```mermaid
packet-beta
    0-15: "Source Port"
    16-31: "Destination Port"
    32-63: "Sequence Number"
```

## Kanban

```mermaid
kanban
  todo[Todo]
    t1[Write tests]
  doing[In progress]
    t2[Live mode]
  done[Done]
    t3[Inline display]
```

## Architecture

```mermaid
architecture-beta
    group api(cloud)[API]
    service db(database)[Database] in api
    service server(server)[Server] in api
    db:L -- R:server
```

## Radar

```mermaid
radar-beta
  title Skills
  axis a["Speed"], b["Fidelity"], c["Ease"]
  curve m["mer"]{4, 5, 4}
  curve c["mmdc"]{1, 5, 3}
  max 5
```

## Treemap

```mermaid
treemap-beta
"Section 1"
    "Leaf 1.1": 12
    "Section 1.2"
      "Leaf 1.2.1": 12
"Section 2"
    "Leaf 2.1": 20
    "Leaf 2.2": 25
```
"###;

#[test]
fn exports_are_numbered_and_errors_reported() {
    let diagrams = vec![
        only("flowchart LR\n  A --> B\n", "a.mmd"),
        only("flowchart LR\n  A[Start\n", "b.mmd"),
    ];
    let engine = engine();
    let first = mer::run::export(&engine, &diagrams, 0, "out.svg", false).unwrap();
    assert!(first.svg.starts_with("<svg"));
    assert_eq!(first.path.as_deref(), Some("out-1.svg"));
    let report = mer::run::export(&engine, &diagrams, 1, "out.svg", false).unwrap_err().unwrap();
    assert!(report.contains("b.mmd"), "{report}");
    let stdout = mer::run::export(&engine, &diagrams, 0, "-", false).unwrap();
    assert_eq!(stdout.path, None);
}

#[test]
fn failing_diagrams_neither_stop_nor_renumber_the_others() {
    let diagrams = vec![
        only("flowchart LR\n  A --> B\n", "a.mmd"),
        only("flowchart LR\n  A[Start\n", "b.mmd"),
        only("flowchart LR\n  C --> D\n", "c.mmd"),
    ];
    let engine = engine();
    let (exports, code) = mer::run::export_all(&engine, &diagrams, "out.svg", false);
    assert_eq!(code, 1);
    assert_eq!(exports.len(), 3);
    assert_eq!(exports[0].as_ref().unwrap().path.as_deref(), Some("out-1.svg"));
    assert!(exports[1].as_ref().unwrap_err().as_ref().unwrap().contains("b.mmd"));
    assert_eq!(exports[2].as_ref().unwrap().path.as_deref(), Some("out-3.svg"));
    let good = vec![only("flowchart LR\n  A --> B\n", "a.mmd")];
    let (exports, code) = mer::run::export_all(&engine, &good, "out.svg", false);
    assert_eq!(code, 0);
    assert_eq!(exports[0].as_ref().unwrap().path.as_deref(), Some("out.svg"));
}

#[test]
fn frames_that_fail_are_reported_and_counted() {
    let diagram = only("pie", "a.mmd");
    let mut showing = Showing::new(false, false);
    let mut actions = Vec::new();
    let frame = Ok(Frame {
        rgba: vec![0; 4],
        pixels: (1, 1),
        cols: 1,
        rows: 1,
        elapsed: 0,
    });
    showing.print(&diagram, &frame, 7, &mut actions).unwrap();
    assert_eq!(showing.code(), 0);
    showing.print(&diagram, &Err(Failure::Empty), 8, &mut actions).unwrap();
    showing.print(&diagram, &frame, 9, &mut actions).unwrap();
    assert_eq!(showing.code(), 1);
    let kinds: Vec<bool> = actions.iter().map(|a| matches!(a, Action::Report(_))).collect();
    assert_eq!(kinds, [false, true, false]);
}

#[test]
fn batches_scan_as_their_labels() {
    let document = Document::scan(SVG).unwrap();
    let batch = document.batch(SVG, 1, 3);
    let scanned = Document::scan(&batch).unwrap();
    assert_eq!(scanned.labels.len(), 2);
    assert_eq!(scanned.styles.len(), document.styles.len());
    for (copy, label) in scanned.labels.iter().zip(&document.labels[1..]) {
        assert_eq!(batch[copy.span.start..copy.span.end], SVG[label.span.start..label.span.end]);
        let tags = |svg: &str, document: &Document, ancestors: &Vec<usize>| -> Vec<String> {
            let tag = |&i: &usize| document.elements[i].tag;
            ancestors.iter().map(tag).map(|tag| svg[tag.start..tag.end].to_string()).collect()
        };
        assert_eq!(
            tags(&batch, &scanned, &copy.ancestors),
            tags(SVG, &document, &label.ancestors)
        );
    }
    assert!(Document::scan(&document.without_labels(SVG, "")).unwrap().labels.is_empty());
}

#[test]
fn batch_sizes_change_nothing() {
    let mut results = Vec::new();
    for size in 1..5 {
        let mut batches = Batches::new(SVG, size).unwrap();
        while let Some(batch) = batches.next() {
            let mut text = String::new();
            for n in 1..=3 {
                if batch.contains(&label(&n.to_string())) {
                    text.push_str(&format!("<text>{n}</text>"));
                }
            }
            let converted = batch.replace("</svg>", &format!("{text}</svg>"));
            assert_eq!(batches.converted(&batch, &converted), Next::Go);
        }
        results.push(batches.finish());
    }
    assert!(results[0].ends_with("<text>1</text><text>2</text><text>3</text></svg>"));
    assert!(results.iter().all(|result| *result == results[0]));
}
