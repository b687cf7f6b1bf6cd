use frontmatter::FrontmatterExtractor;

#[test]
fn attribute_parser_test() {
    let source = "# My **Document**\n\n```toml\nhello = \"world\"\n```\n\nThis is regular text\n";
    let mut parser = FrontmatterExtractor::from_markdown(source);
    let mut raw_events = Vec::new();
    while let Some(event) = parser.next() {
        raw_events.push(event.raw);
    }
    let mut html = String::new();
    pulldown_cmark::html::push_html(&mut html, raw_events.into_iter());
    assert_eq!(
        html,
        "<h1>My <strong>Document</strong></h1>\n<p>This is regular text</p>\n"
    );

    let frontmatter = parser.frontmatter.expect("frontmatter not detected");

    assert_eq!(frontmatter.title.as_deref(), Some("My Document"));

    let code_block = frontmatter.code_block.expect("code block not detected");
    assert_eq!(code_block.language.as_deref(), Some("toml"));
    let deserialized: toml::Table = toml::from_str(&code_block.source).unwrap();

    assert_eq!(deserialized["hello"].as_str(), Some("world"));
}

#[test]
fn extract_buffered() {
    let mut parser = FrontmatterExtractor::from_markdown("# Heading\n\n    hello world\n\nBody");
    let frontmatter = parser.extract_buffered().unwrap();
    assert_eq!(frontmatter.title.as_deref(), Some("Heading"));
    assert_eq!(
        frontmatter.code_block.as_ref().unwrap().source.as_str(),
        "hello world\n"
    );
    let mut raw_events = Vec::new();
    while let Some(event) = parser.next() {
        raw_events.push(event.raw);
    }
    let mut html = String::new();
    pulldown_cmark::html::push_html(&mut html, raw_events.into_iter());
    assert_eq!(html, "<h1>Heading</h1>\n<p>Body</p>\n");
}

#[test]
fn indented_parse_test() {
    let source = "# My **Document**\n\n    hello = \"world\"\n\nThis is regular text\n";
    let mut parser = FrontmatterExtractor::from_markdown(source);
    let mut raw_events = Vec::new();
    while let Some(event) = parser.next() {
        raw_events.push(event.raw);
    }
    let mut html = String::new();
    pulldown_cmark::html::push_html(&mut html, raw_events.into_iter());
    assert_eq!(
        html,
        "<h1>My <strong>Document</strong></h1>\n<p>This is regular text</p>\n"
    );

    let frontmatter = parser.frontmatter.expect("frontmatter not detected");

    assert_eq!(frontmatter.title.as_deref(), Some("My Document"));

    let code_block = frontmatter.code_block.expect("code block not detected");
    assert_eq!(code_block.language, None);
    let deserialized: toml::Table = toml::from_str(&code_block.source).unwrap();

    assert_eq!(deserialized["hello"].as_str(), Some("world"));
}
