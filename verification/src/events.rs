use vstd::prelude::*;

verus! {

/// The kind of a code block: indented, or fenced with the fence's info
/// string naming the block's language (possibly empty).
pub enum CodeKind {
    /// An indented code block; it can carry no language tag.
    Indented,
    /// A fenced code block, with the info string that follows the fence.
    Fenced(String),
}

/// Mathematical model of a [`CodeKind`].
#[verifier::ext_equal]
pub enum CodeKindView {
    /// Model of an indented code block.
    Indented,
    /// Model of a fenced code block and its info string.
    Fenced(Seq<char>),
}

impl View for CodeKind {
    type V = CodeKindView;

    open spec fn view(&self) -> CodeKindView {
        match self {
            CodeKind::Indented => CodeKindView::Indented,
            CodeKind::Fenced(language) => CodeKindView::Fenced(language@),
        }
    }
}

/// How the extractor's state machine reads one structural event. Every
/// event the machine does not act on is `Other`; such events are treated
/// opaquely and forwarded unchanged.
pub enum EventKind {
    /// Start of a top-level (depth-1) heading.
    HeadingStart,
    /// End of a top-level heading.
    HeadingEnd,
    /// Start of a code block of the given kind.
    CodeStart(CodeKind),
    /// End of a code block.
    CodeEnd,
    /// A plain text span.
    Text(String),
    /// Any other block or inline event.
    Other,
}

/// Mathematical model of an [`EventKind`].
#[verifier::ext_equal]
pub enum EventKindView {
    /// Start of a top-level heading.
    HeadingStart,
    /// End of a top-level heading.
    HeadingEnd,
    /// Start of a code block of the given kind.
    CodeStart(CodeKindView),
    /// End of a code block.
    CodeEnd,
    /// A plain text span.
    Text(Seq<char>),
    /// Any other block or inline event.
    Other,
}

impl View for EventKind {
    type V = EventKindView;

    open spec fn view(&self) -> EventKindView {
        match self {
            EventKind::HeadingStart => EventKindView::HeadingStart,
            EventKind::HeadingEnd => EventKindView::HeadingEnd,
            EventKind::CodeStart(kind) => EventKindView::CodeStart(kind@),
            EventKind::CodeEnd => EventKindView::CodeEnd,
            EventKind::Text(text) => EventKindView::Text(text@),
            EventKind::Other => EventKindView::Other,
        }
    }
}

/// A structural event of the Markdown parser. The extractor never looks
/// inside such a value; it is carried through opaquely so that downstream
/// consumers receive the parser's own events.
#[verifier::external_type_specification]
#[verifier::external_body]
pub struct ExEvent<'a>(pulldown_cmark::Event<'a>);

/// One structural event of a document: the classification the extractor's
/// state machine acts on, together with the parser's underlying event,
/// which is forwarded unchanged to downstream consumers.
pub struct MdEvent {
    /// How the state machine reads this event.
    pub kind: EventKind,
    /// The parser's event, carried opaquely.
    pub raw: pulldown_cmark::Event<'static>,
}

impl MdEvent {
    /// The classification of this event, as a mathematical value.
    pub open spec fn kind_view(&self) -> EventKindView {
        self.kind@
    }
}

} // verus!
