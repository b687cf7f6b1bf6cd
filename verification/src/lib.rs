//! Extraction of frontmatter metadata from the start of a Markdown document.
//!
//! A document's frontmatter is an optional top-level heading (its plain-text
//! contents become the title) and an optional code block sitting at the very
//! beginning of the document (its text and optional language tag are kept as
//! an opaque [`CodeBlock`]). The [`FrontmatterExtractor`] wraps a stream of
//! structural events, captures the frontmatter while iterating, and forwards
//! every event that does not belong to the frontmatter unchanged and in
//! order, so that a downstream renderer sees the rest of the document as if
//! the frontmatter's code block had never been there.

mod events;
mod extractor;
mod machine;
mod model;
mod parse;

pub use events::{CodeKind, CodeKindView, EventKind, EventKindView, MdEvent};
pub use extractor::{DocumentAttributeParserState, FrontmatterExtractor};
pub use machine::{
    drive, fm_or_empty, forwards, has_text, init, lang_of, lemma_buffered_agrees_with_drain,
    lemma_buffered_replay_complete, lemma_code_block_first_captured,
    lemma_heading_then_code_block_captured,
    lemma_last_code_block_wins, lemma_no_capture_after_body_event,
    lemma_rerun_on_body_captures_nothing, lemma_run_append, lemma_run_terminal, lemma_title_scan,
    next_fm, next_phase, pull, run, run_out, step, texts_of, title_interior, title_of,
    with_code_block, with_title_text, Config, DriveResult, Phase, PullResult,
};
pub use model::{fm_view, CodeBlock, CodeBlockView, Frontmatter, FrontmatterView};
pub use parse::md_events_of;
