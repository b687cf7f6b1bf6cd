use vstd::prelude::*;

verus! {

/// A code block from a Markdown document's [`Frontmatter`].
///
/// The contents are kept as an opaque string: interpreting them as
/// structured metadata is entirely the caller's business.
#[derive(Debug, Clone)]
pub struct CodeBlock {
    /// The contents of the code block.
    pub source: String,
    /// The language of the code block, which is the identifier following
    /// the three backticks in a fenced Markdown code block. An indented
    /// code block has no language.
    pub language: Option<String>,
}

/// Mathematical model of a [`CodeBlock`].
#[verifier::ext_equal]
pub struct CodeBlockView {
    /// The contents of the code block.
    pub source: Seq<char>,
    /// The language tag, if the block was fenced and carried one.
    pub language: Option<Seq<char>>,
}

impl View for CodeBlock {
    type V = CodeBlockView;

    open spec fn view(&self) -> CodeBlockView {
        CodeBlockView {
            source: self.source@,
            language: match self.language {
                Some(language) => Some(language@),
                None => None,
            },
        }
    }
}

/// Metadata stored at the very start of a Markdown document.
///
/// Both fields are lazily populated while the document's events are pulled:
/// neither exists until the first qualifying event is seen.
#[derive(Debug, Clone)]
pub struct Frontmatter {
    /// The top-level heading's plain-text contents, if the document began
    /// with a top-level heading.
    pub title: Option<String>,
    /// The frontmatter code block, if detected.
    pub code_block: Option<CodeBlock>,
}

/// Mathematical model of a [`Frontmatter`].
#[verifier::ext_equal]
pub struct FrontmatterView {
    /// The title's text.
    pub title: Option<Seq<char>>,
    /// The captured code block.
    pub code_block: Option<CodeBlockView>,
}

impl View for Frontmatter {
    type V = FrontmatterView;

    open spec fn view(&self) -> FrontmatterView {
        FrontmatterView {
            title: match self.title {
                Some(title) => Some(title@),
                None => None,
            },
            code_block: match self.code_block {
                Some(code_block) => Some(code_block@),
                None => None,
            },
        }
    }
}

/// The model of an optional [`Frontmatter`] value.
pub open spec fn fm_view(fm: Option<Frontmatter>) -> Option<FrontmatterView> {
    match fm {
        Some(f) => Some(f@),
        None => None,
    }
}

} // verus!
