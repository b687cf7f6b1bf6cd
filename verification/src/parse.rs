//! The boundary to the Markdown parser.
//!
//! Parsing CommonMark text into structural events is the parser crate's
//! job; this module wraps that call and classifies each event for the
//! state machine. The event stream is a function of the document text
//! alone, so it is given a name, [`md_events_of`], that the extractor's
//! contracts can speak of.

use crate::events::{CodeKind, EventKind, MdEvent};
use crate::extractor::FrontmatterExtractor;
use crate::machine::Phase;
use pulldown_cmark::{CodeBlockKind, Event, HeadingLevel, Tag, TagEnd};
use vstd::prelude::*;

verus! {

/// The classified event stream that the default Markdown parser produces
/// for a document: one [`MdEvent`] per parser event, in order.
pub uninterp spec fn md_events_of(markdown: Seq<char>) -> Seq<MdEvent>;

/// Relies on `pulldown_cmark::Event` (with `Tag`, `TagEnd`, `HeadingLevel`
/// and `CodeBlockKind`): tells the variants apart, one classification per
/// variant the state machine acts on. Top-level headings are those of
/// level `H1`; every event the machine does not act on is `Other`.
#[verifier::external_body]
fn classify_event(event: &Event<'static>) -> EventKind {
    match event {
        Event::Start(Tag::Heading { level: HeadingLevel::H1, .. }) => EventKind::HeadingStart,
        Event::End(TagEnd::Heading(HeadingLevel::H1)) => EventKind::HeadingEnd,
        Event::Start(Tag::CodeBlock(CodeBlockKind::Indented)) => EventKind::CodeStart(CodeKind::Indented),
        Event::Start(Tag::CodeBlock(CodeBlockKind::Fenced(l))) => EventKind::CodeStart(CodeKind::Fenced(l.to_string())),
        Event::End(TagEnd::CodeBlock) => EventKind::CodeEnd,
        Event::Text(text) => EventKind::Text(text.to_string()),
        _ => EventKind::Other,
    }
}

/// Relies on `pulldown_cmark::Parser::new`: parses CommonMark text into
/// the ordered sequence of structural events, which are classified one by
/// one. The result depends on the document text alone.
#[verifier::external_body]
fn parse_markdown(markdown: &str) -> (events: Vec<MdEvent>)
    ensures
        events@ == md_events_of(markdown@),
{
    let mut events = Vec::new();
    for event in pulldown_cmark::Parser::new(markdown) {
        let raw = event.into_static();
        events.push(MdEvent { kind: classify_event(&raw), raw });
    }
    events
}

impl FrontmatterExtractor {
    /// Returns an instance that extracts frontmatter from the events the
    /// default Markdown parser produces for `markdown`.
    pub fn from_markdown(markdown: &str) -> (r: FrontmatterExtractor)
        ensures
            r.upstream() == md_events_of(markdown@),
            r.phase() == Phase::Scanning,
            !r.replaying(),
            r.fm() is None,
    {
        FrontmatterExtractor::new(parse_markdown(markdown))
    }
}

} // verus!
