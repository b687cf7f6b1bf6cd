use frontmatter::{CodeKind, DocumentAttributeParserState, EventKind, FrontmatterExtractor, MdEvent};

fn ev(kind: EventKind) -> MdEvent {
    MdEvent {
        kind,
        raw: pulldown_cmark::Event::Rule,
    }
}

#[test]
fn empty_document_has_no_frontmatter() {
    let parser = FrontmatterExtractor::from_markdown("");
    assert!(parser.extract().is_none());
}

#[test]
fn heading_only_yields_title_and_no_code_block() {
    let parser = FrontmatterExtractor::from_markdown("# Just a title");
    let frontmatter = parser.extract().expect("frontmatter not detected");
    assert_eq!(frontmatter.title.as_deref(), Some("Just a title"));
    assert!(frontmatter.code_block.is_none());
}

#[test]
fn no_leading_frontmatter_reproduces_stream() {
    let source = "This is regular text\n\n```toml\nhello = \"world\"\n```\n";
    let mut parser = FrontmatterExtractor::from_markdown(source);
    let mut raw_events = Vec::new();
    while let Some(event) = parser.next() {
        raw_events.push(event.raw);
    }
    assert!(parser.frontmatter.is_none());
    let original: Vec<pulldown_cmark::Event<'static>> = pulldown_cmark::Parser::new(source)
        .map(pulldown_cmark::Event::into_static)
        .collect();
    assert_eq!(raw_events, original);
}

#[test]
fn body_event_ends_the_detection_window() {
    let events = vec![
        ev(EventKind::Other),
        ev(EventKind::CodeStart(CodeKind::Fenced(String::from("toml")))),
        ev(EventKind::Text(String::from("a = 1\n"))),
        ev(EventKind::CodeEnd),
    ];
    let parser = FrontmatterExtractor::new(events);
    assert!(parser.extract().is_none());
}

#[test]
fn last_code_block_wins() {
    let events = vec![
        ev(EventKind::CodeStart(CodeKind::Fenced(String::from("a")))),
        ev(EventKind::Text(String::from("one"))),
        ev(EventKind::CodeStart(CodeKind::Fenced(String::from("b")))),
        ev(EventKind::Text(String::from("two"))),
        ev(EventKind::CodeEnd),
    ];
    let parser = FrontmatterExtractor::new(events);
    let frontmatter = parser.extract().expect("frontmatter not detected");
    assert!(frontmatter.title.is_none());
    let code_block = frontmatter.code_block.expect("code block not detected");
    assert_eq!(code_block.source.as_str(), "two");
    assert_eq!(code_block.language.as_deref(), Some("b"));
}

#[test]
fn code_block_first_is_captured_without_title() {
    let source = "```toml\nhello = \"world\"\n```\n\n# Late heading\n";
    let parser = FrontmatterExtractor::from_markdown(source);
    let frontmatter = parser.extract().expect("frontmatter not detected");
    assert!(frontmatter.title.is_none());
    let code_block = frontmatter.code_block.expect("code block not detected");
    assert_eq!(code_block.source.as_str(), "hello = \"world\"\n");
    assert_eq!(code_block.language.as_deref(), Some("toml"));
}

#[test]
fn rerun_on_body_captures_nothing() {
    let body = vec![
        ev(EventKind::Other),
        ev(EventKind::Text(String::from("Body"))),
        ev(EventKind::Other),
    ];
    let parser = FrontmatterExtractor::new(body);
    assert!(parser.extract().is_none());
}

#[test]
fn heading_without_text_creates_no_frontmatter() {
    let events = vec![
        ev(EventKind::HeadingStart),
        ev(EventKind::HeadingEnd),
        ev(EventKind::Other),
    ];
    let parser = FrontmatterExtractor::new(events);
    assert!(parser.extract().is_none());
}

#[test]
fn later_text_in_one_code_block_replaces_earlier() {
    let events = vec![
        ev(EventKind::CodeStart(CodeKind::Indented)),
        ev(EventKind::Text(String::from("a"))),
        ev(EventKind::Text(String::from("b"))),
        ev(EventKind::CodeEnd),
    ];
    let parser = FrontmatterExtractor::new(events);
    let frontmatter = parser.extract().expect("frontmatter not detected");
    let code_block = frontmatter.code_block.expect("code block not detected");
    assert_eq!(code_block.source.as_str(), "b");
    assert_eq!(code_block.language, None);
}

#[test]
fn buffered_and_drain_agree_and_replay_is_complete() {
    let source = "# My **Document**\n\n```toml\nhello = \"world\"\n```\n\nThis is regular text\n";

    let drained = FrontmatterExtractor::from_markdown(source)
        .extract()
        .expect("frontmatter not detected");

    let mut buffered_parser = FrontmatterExtractor::from_markdown(source);
    {
        let buffered = buffered_parser
            .extract_buffered()
            .expect("frontmatter not detected");
        assert_eq!(drained.title, buffered.title);
        let drained_block = drained.code_block.as_ref().expect("code block not detected");
        let buffered_block = buffered
            .code_block
            .as_ref()
            .expect("code block not detected");
        assert_eq!(drained_block.source, buffered_block.source);
        assert_eq!(drained_block.language, buffered_block.language);
    }

    let mut replayed = Vec::new();
    while let Some(event) = buffered_parser.next() {
        replayed.push(event.raw);
    }
    let mut plain_parser = FrontmatterExtractor::from_markdown(source);
    let mut passthrough = Vec::new();
    while let Some(event) = plain_parser.next() {
        passthrough.push(event.raw);
    }
    assert_eq!(replayed, passthrough);
}

#[test]
fn extracted_reports_the_terminal_state() {
    let mut parser = FrontmatterExtractor::from_markdown("# Heading\n\nBody");
    assert!(!parser.extracted());
    let mut steps = 0;
    while !parser.extracted() {
        if parser.next().is_none() {
            break;
        }
        steps += 1;
        assert!(steps < 100);
    }
    assert!(parser.extracted());
    let frontmatter = parser.frontmatter.as_ref().expect("frontmatter not detected");
    assert_eq!(frontmatter.title.as_deref(), Some("Heading"));
}

#[test]
fn state_predicates_match_the_states() {
    let parsing = DocumentAttributeParserState::Parsing;
    assert!(!parsing.in_document());
    assert!(!parsing.in_code());
    assert!(!parsing.in_document_title());
    assert!(matches!(parsing.code_block_kind(), CodeKind::Indented));

    let in_title = DocumentAttributeParserState::InTitle;
    assert!(in_title.in_document_title());
    assert!(!in_title.in_document());

    let in_code =
        DocumentAttributeParserState::InAttributeCodeBlock(CodeKind::Fenced(String::from("rs")));
    assert!(in_code.in_code());
    assert!(!in_code.in_document());
    assert!(matches!(in_code.code_block_kind(), CodeKind::Fenced(l) if l == "rs"));

    let done = DocumentAttributeParserState::InDocument;
    assert!(done.in_document());
    assert!(!done.in_code());
    assert!(!done.in_document_title());
}

#[test]
fn code_block_start_inside_open_title_is_recognized() {
    let events = vec![
        ev(EventKind::HeadingStart),
        ev(EventKind::Text(String::from("T"))),
        ev(EventKind::CodeStart(CodeKind::Fenced(String::from("x")))),
        ev(EventKind::Text(String::from("block text"))),
        ev(EventKind::CodeEnd),
    ];
    let parser = FrontmatterExtractor::new(events);
    let frontmatter = parser.extract().expect("frontmatter not detected");
    assert_eq!(frontmatter.title.as_deref(), Some("T"));
    let code_block = frontmatter.code_block.expect("code block not detected");
    assert_eq!(code_block.source.as_str(), "block text");
    assert_eq!(code_block.language.as_deref(), Some("x"));
}

#[test]
fn title_merges_nested_inline_markup() {
    let source = "# A *b* c\n\nBody\n";
    let parser = FrontmatterExtractor::from_markdown(source);
    let frontmatter = parser.extract().expect("frontmatter not detected");
    assert_eq!(frontmatter.title.as_deref(), Some("A b c"));
}
