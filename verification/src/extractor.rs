//! The frontmatter extractor: a filtering iterator over structural events.

use crate::events::{CodeKind, EventKind, MdEvent};
use crate::machine::{
    drive, lemma_drive_pull, lemma_pull_run, lemma_run_terminal, pull, run, step, with_code_block,
    with_title_text, Config, Phase,
};
use crate::model::{fm_view, CodeBlock, Frontmatter, FrontmatterView};
use vstd::prelude::*;
use vstd::string::StringExecFns;

verus! {

/// The extractor's classification state.
///
/// `InDocument` is terminal for classification; `InDocumentBuffered` is the
/// replay variant entered by buffered extraction: it holds the events that
/// were already pulled from upstream, to be handed out again in order
/// before the upstream is consumed any further.
pub enum DocumentAttributeParserState {
    /// Inside the detection window, between frontmatter elements.
    Parsing,
    /// Inside the top-level heading whose text becomes the title.
    InTitle,
    /// Inside a code block opened during the detection window.
    InAttributeCodeBlock(CodeKind),
    /// In the document body, with buffered events still to replay.
    InDocumentBuffered(Vec<MdEvent>),
    /// In the document body; every event passes through unexamined.
    InDocument,
}

impl DocumentAttributeParserState {
    /// Whether classification has reached the document body.
    pub fn in_document(&self) -> (r: bool)
        ensures
            r == (self is InDocument),
    {
        matches!(self, Self::InDocument)
    }

    /// Whether a code block opened during the detection window is open.
    pub fn in_code(&self) -> (r: bool)
        ensures
            r == (self is InAttributeCodeBlock),
    {
        matches!(self, Self::InAttributeCodeBlock(_))
    }

    /// The kind of the open code block, or `Indented` if none is open.
    pub fn code_block_kind(&self) -> (r: CodeKind)
        ensures
            r@ == (match self {
                DocumentAttributeParserState::InAttributeCodeBlock(kind) => kind@,
                _ => crate::events::CodeKindView::Indented,
            }),
    {
        match self {
            DocumentAttributeParserState::InAttributeCodeBlock(CodeKind::Fenced(language)) => {
                CodeKind::Fenced(language.clone())
            },
            _ => CodeKind::Indented,
        }
    }

    /// Whether the top-level heading whose text becomes the title is open.
    pub fn in_document_title(&self) -> (r: bool)
        ensures
            r == (self is InTitle),
    {
        matches!(self, Self::InTitle)
    }
}

/// Extracts [`Frontmatter`] from a sequence of structural events.
///
/// The extractor behaves as an event producer itself: pulling events from
/// it with [`FrontmatterExtractor::next`] yields every upstream event that
/// does not belong to the frontmatter, unchanged and in original order,
/// while the frontmatter is captured as a side effect of iteration. The
/// events of a frontmatter code block are consumed silently; the events of
/// the title's heading are forwarded as they appear upstream.
pub struct FrontmatterExtractor {
    /// The detected frontmatter, if any.
    pub frontmatter: Option<Frontmatter>,
    source: Vec<MdEvent>,
    state: DocumentAttributeParserState,
}

impl FrontmatterExtractor {
    /// The upstream events not yet consumed.
    pub closed spec fn upstream(&self) -> Seq<MdEvent> {
        self.source@
    }

    /// The classification phase of the machine in `crate::machine`.
    pub closed spec fn phase(&self) -> Phase {
        match self.state {
            DocumentAttributeParserState::Parsing => Phase::Scanning,
            DocumentAttributeParserState::InTitle => Phase::InTitle,
            DocumentAttributeParserState::InAttributeCodeBlock(kind) => Phase::InCode(kind@),
            _ => Phase::InDocument,
        }
    }

    /// Whether the extractor is replaying buffered events.
    pub closed spec fn replaying(&self) -> bool {
        self.state is InDocumentBuffered
    }

    /// The buffered events still to be replayed.
    pub closed spec fn buffer(&self) -> Seq<MdEvent> {
        match self.state {
            DocumentAttributeParserState::InDocumentBuffered(buffered) => buffered@,
            _ => Seq::empty(),
        }
    }

    /// The frontmatter accumulated so far, as a mathematical value.
    pub closed spec fn fm(&self) -> Option<FrontmatterView> {
        fm_view(self.frontmatter)
    }

    /// The machine configuration this extractor is in.
    pub open spec fn cfg(&self) -> Config {
        Config { phase: self.phase(), fm: self.fm() }
    }

    /// Returns a new instance that extracts frontmatter from the provided
    /// event sequence.
    pub fn new(parser: Vec<MdEvent>) -> (r: Self)
        ensures
            r.upstream() == parser@,
            r.phase() == Phase::Scanning,
            !r.replaying(),
            r.fm() is None,
    {
        Self {
            source: parser,
            frontmatter: None,
            state: DocumentAttributeParserState::Parsing,
        }
    }

    /// Append a text span to the lazily created title buffer.
    fn append_title_text(&mut self, text: &str)
        ensures
            final(self).fm() == with_title_text(old(self).fm(), text@),
            final(self).phase() == old(self).phase(),
            final(self).replaying() == old(self).replaying(),
            final(self).buffer() == old(self).buffer(),
            final(self).upstream() == old(self).upstream(),
    {
        let fm = match self.frontmatter.take() {
            Some(f) => f,
            None => Frontmatter { title: None, code_block: None },
        };
        let Frontmatter { title, code_block } = fm;
        let mut buffer = match title {
            Some(existing) => existing,
            None => String::new(),
        };
        buffer.append(text);
        self.frontmatter = Some(Frontmatter { title: Some(buffer), code_block });
    }

    /// Record the open code block's text, replacing any earlier capture.
    fn capture_code_block(&mut self, source: String)
        requires
            old(self).phase() is InCode,
        ensures
            old(self).phase() matches Phase::InCode(kind) ==> final(self).fm() == with_code_block(
                old(self).fm(),
                source@,
                kind,
            ),
            final(self).phase() == old(self).phase(),
            final(self).replaying() == old(self).replaying(),
            final(self).buffer() == old(self).buffer(),
            final(self).upstream() == old(self).upstream(),
    {
        let language: Option<String> = match &self.state {
            DocumentAttributeParserState::InAttributeCodeBlock(CodeKind::Fenced(language)) => {
                Some(language.clone())
            },
            _ => None,
        };
        let fm = match self.frontmatter.take() {
            Some(f) => f,
            None => Frontmatter { title: None, code_block: None },
        };
        let Frontmatter { title, code_block: _ } = fm;
        self.frontmatter = Some(
            Frontmatter { title, code_block: Some(CodeBlock { source, language }) },
        );
    }

    /// Returns true once the extractor is finished extracting the
    /// frontmatter.
    ///
    /// [`self.frontmatter`](Self::frontmatter) may not contain the full
    /// data from the underlying document until this function returns true.
    pub fn extracted(&self) -> (r: bool)
        ensures
            r == (self.phase() is InDocument && !self.replaying()),
    {
        matches!(self.state, DocumentAttributeParserState::InDocument)
    }

    /// Pulls the next event to forward downstream.
    ///
    /// While the detection window is open, upstream events are classified
    /// one by one — frontmatter is captured, code block events are consumed
    /// silently — until an event is forwarded or the upstream is exhausted:
    /// exactly one [`pull`] of the classification machine. In the replay
    /// state the buffered events are handed out first, in original order,
    /// before the upstream is consumed any further.
    pub fn next(&mut self) -> (r: Option<MdEvent>)
        ensures
            !old(self).replaying() ==> ({
                let p = pull(old(self).cfg(), old(self).upstream());
                &&& final(self).cfg() == p.cfg
                &&& final(self).upstream() == p.rest
                &&& r == p.item
                &&& !final(self).replaying()
            }),
            old(self).replaying() && old(self).buffer().len() > 0 ==> ({
                &&& r == Some(old(self).buffer()[0])
                &&& final(self).replaying()
                &&& final(self).buffer() == old(self).buffer().drop_first()
                &&& final(self).upstream() == old(self).upstream()
                &&& final(self).fm() == old(self).fm()
            }),
            old(self).replaying() && old(self).buffer().len() == 0 ==> ({
                &&& !final(self).replaying()
                &&& final(self).phase() is InDocument
                &&& final(self).fm() == old(self).fm()
                &&& (if old(self).upstream().len() == 0 {
                    r is None && final(self).upstream() == old(self).upstream()
                } else {
                    r == Some(old(self).upstream()[0]) && final(self).upstream() == old(
                        self,
                    ).upstream().drop_first()
                })
            }),
    {
        let mut taken = DocumentAttributeParserState::Parsing;
        core::mem::swap(&mut taken, &mut self.state);
        match taken {
            DocumentAttributeParserState::InDocumentBuffered(mut buffered) => {
                if buffered.len() > 0 {
                    let event = buffered.remove(0);
                    proof {
                        assert(old(self).buffer().remove(0) =~= old(self).buffer().drop_first());
                    }
                    self.state = DocumentAttributeParserState::InDocumentBuffered(buffered);
                    return Some(event);
                }
                self.state = DocumentAttributeParserState::InDocument;
                if self.source.len() == 0 {
                    return None;
                }
                proof {
                    assert(old(self).upstream().remove(0) =~= old(self).upstream().drop_first());
                }
                return Some(self.source.remove(0));
            },
            DocumentAttributeParserState::InDocument => {
                self.state = DocumentAttributeParserState::InDocument;
                if self.source.len() == 0 {
                    proof {
                        assert(old(self).upstream() =~= Seq::<MdEvent>::empty());
                    }
                    return None;
                }
                proof {
                    let kind = old(self).upstream()[0].kind_view();
                    assert(step(old(self).cfg(), kind) == old(self).cfg());
                    assert(old(self).upstream().remove(0) =~= old(self).upstream().drop_first());
                }
                return Some(self.source.remove(0));
            },
            other => {
                self.state = other;
            },
        }
        loop
            invariant
                !old(self).replaying(),
                !self.replaying(),
                pull(old(self).cfg(), old(self).upstream()) == pull(self.cfg(), self.upstream()),
            decreases self.upstream().len(),
        {
            if self.source.len() == 0 {
                return None;
            }
            let ghost pre = *self;
            let event = self.source.remove(0);
            proof {
                assert(pre.upstream().remove(0) =~= pre.upstream().drop_first());
            }
            let ghost kind = event.kind_view();
            let MdEvent { kind: event_kind, raw } = event;
            match event_kind {
                EventKind::Text(text) => {
                    if self.state.in_document_title() {
                        self.append_title_text(text.as_str());
                        proof {
                            assert(self.cfg() == step(pre.cfg(), kind));
                        }
                        return Some(MdEvent { kind: EventKind::Text(text), raw });
                    } else if self.state.in_code() {
                        self.capture_code_block(text);
                        proof {
                            assert(self.cfg() == step(pre.cfg(), kind));
                        }
                    } else if self.state.in_document() {
                        proof {
                            assert(self.cfg() == step(pre.cfg(), kind));
                        }
                        return Some(MdEvent { kind: EventKind::Text(text), raw });
                    } else {
                        self.state = DocumentAttributeParserState::InDocument;
                        proof {
                            assert(self.cfg() == step(pre.cfg(), kind));
                        }
                        return Some(MdEvent { kind: EventKind::Text(text), raw });
                    }
                },
                EventKind::HeadingStart => {
                    if !self.state.in_document() {
                        self.state = DocumentAttributeParserState::InTitle;
                    }
                    proof {
                        assert(self.cfg() == step(pre.cfg(), kind));
                    }
                    return Some(MdEvent { kind: EventKind::HeadingStart, raw });
                },
                EventKind::HeadingEnd => {
                    if !self.state.in_document() {
                        self.state = DocumentAttributeParserState::Parsing;
                    }
                    proof {
                        assert(self.cfg() == step(pre.cfg(), kind));
                    }
                    return Some(MdEvent { kind: EventKind::HeadingEnd, raw });
                },
                EventKind::CodeStart(code_kind) => {
                    if self.state.in_document() {
                        return Some(MdEvent { kind: EventKind::CodeStart(code_kind), raw });
                    }
                    self.state = DocumentAttributeParserState::InAttributeCodeBlock(code_kind);
                    proof {
                        assert(self.cfg() == step(pre.cfg(), kind));
                    }
                },
                EventKind::CodeEnd => {
                    if self.state.in_document() {
                        return Some(MdEvent { kind: EventKind::CodeEnd, raw });
                    }
                    self.state = DocumentAttributeParserState::InDocument;
                    proof {
                        assert(self.cfg() == step(pre.cfg(), kind));
                    }
                },
                EventKind::Other => {
                    if !self.state.in_document_title() {
                        self.state = DocumentAttributeParserState::InDocument;
                    }
                    proof {
                        assert(self.cfg() == step(pre.cfg(), kind));
                    }
                    return Some(MdEvent { kind: EventKind::Other, raw });
                },
            }
        }
    }

    /// Scans the start of the document looking for [`Frontmatter`]. If
    /// frontmatter is detected, it will be returned.
    ///
    /// This function will not consume the original event sequence
    /// completely: it stops pulling as soon as the detection window has
    /// closed. The result is exactly the frontmatter of the classification
    /// machine's [`run`] over the remaining upstream events.
    pub fn extract(self) -> (r: Option<Frontmatter>)
        ensures
            !self.replaying() ==> fm_view(r) == run(self.cfg(), self.upstream()).fm,
            self.replaying() ==> fm_view(r) == self.fm(),
    {
        let ghost target: Option<FrontmatterView> = if self.replaying() {
            self.fm()
        } else {
            run(self.cfg(), self.upstream()).fm
        };
        let mut this = self;
        loop
            invariant_except_break
                (if this.replaying() {
                    this.fm()
                } else {
                    run(this.cfg(), this.upstream()).fm
                }) == target,
            ensures
                this.fm() == target,
            decreases this.buffer().len() + this.upstream().len(),
        {
            let ghost pre = this;
            let e = this.next();
            proof {
                if !pre.replaying() {
                    lemma_pull_run(pre.cfg(), pre.upstream());
                }
                if pre.replaying() && pre.buffer().len() == 0 && pre.upstream().len() > 0 {
                    lemma_run_terminal(this.cfg(), this.upstream());
                }
            }
            if e.is_none() {
                break;
            }
            if this.extracted() {
                proof {
                    lemma_run_terminal(this.cfg(), this.upstream());
                }
                break;
            }
        }
        this.frontmatter
    }

    /// Scans the start of the document looking for [`Frontmatter`]. If
    /// frontmatter is detected, it will be returned.
    ///
    /// The upstream events are consumed to find the frontmatter, and every
    /// event that would normally be forwarded is buffered, so that it can
    /// still be returned from [`FrontmatterExtractor::next`]: the extractor
    /// ends up in the replay state holding exactly the buffer of the
    /// classification machine's [`drive`], and continued iteration
    /// reproduces the full passthrough of the original upstream.
    pub fn extract_buffered(&mut self) -> (r: Option<&Frontmatter>)
        ensures
            final(self).replaying(),
            (match r {
                Some(f) => final(self).fm() == Some(f@),
                None => final(self).fm() is None,
            }),
            !old(self).replaying() && !(old(self).phase() is InDocument) ==> ({
                let d = drive(old(self).cfg(), old(self).upstream());
                &&& final(self).fm() == d.cfg.fm
                &&& final(self).buffer() == d.buffered
                &&& final(self).upstream() == d.rest
            }),
            (old(self).replaying() || old(self).phase() is InDocument) ==> ({
                &&& final(self).fm() == old(self).fm()
                &&& (if old(self).upstream().len() == 0 {
                    final(self).buffer() == old(self).buffer() && final(self).upstream() == old(
                        self,
                    ).upstream()
                } else {
                    final(self).buffer() == old(self).buffer() + seq![old(self).upstream()[0]]
                        && final(self).upstream() == old(self).upstream().drop_first()
                })
            }),
    {
        let mut buffered_events: Vec<MdEvent> = Vec::new();
        loop
            invariant_except_break
                (!old(self).replaying() && !(old(self).phase() is InDocument)) ==> ({
                    let d0 = drive(old(self).cfg(), old(self).upstream());
                    let d = drive(self.cfg(), self.upstream());
                    &&& !self.replaying()
                    &&& !(self.phase() is InDocument)
                    &&& d0.cfg == d.cfg
                    &&& d0.rest == d.rest
                    &&& d0.buffered == buffered_events@ + d.buffered
                }),
                (old(self).replaying() || old(self).phase() is InDocument) ==> ({
                    &&& self.fm() == old(self).fm()
                    &&& self.upstream() == old(self).upstream()
                    &&& self.replaying() == old(self).replaying()
                    &&& self.phase() == old(self).phase()
                    &&& buffered_events@ + self.buffer() == old(self).buffer()
                }),
            ensures
                (!old(self).replaying() && !(old(self).phase() is InDocument)) ==> ({
                    let d0 = drive(old(self).cfg(), old(self).upstream());
                    &&& self.fm() == d0.cfg.fm
                    &&& buffered_events@ == d0.buffered
                    &&& self.upstream() == d0.rest
                }),
                (old(self).replaying() || old(self).phase() is InDocument) ==> ({
                    &&& self.fm() == old(self).fm()
                    &&& (if old(self).upstream().len() == 0 {
                        buffered_events@ == old(self).buffer() && self.upstream() == old(
                            self,
                        ).upstream()
                    } else {
                        buffered_events@ == old(self).buffer() + seq![old(self).upstream()[0]]
                            && self.upstream() == old(self).upstream().drop_first()
                    })
                }),
            decreases self.buffer().len() + self.upstream().len(),
        {
            let ghost pre = *self;
            let ghost buffered_pre = buffered_events@;
            let e = self.next();
            proof {
                if !pre.replaying() {
                    lemma_pull_run(pre.cfg(), pre.upstream());
                    lemma_drive_pull(pre.cfg(), pre.upstream());
                }
            }
            match e {
                None => {
                    proof {
                        assert(buffered_pre + Seq::<MdEvent>::empty() =~= buffered_pre);
                    }
                    break;
                },
                Some(event) => {
                    buffered_events.push(event);
                    proof {
                        assert(buffered_events@ =~= buffered_pre + seq![event]);
                        if !pre.replaying() {
                            let d_new = drive(self.cfg(), self.upstream());
                            if !(self.phase() is InDocument) {
                                assert(buffered_pre + (seq![event] + d_new.buffered) =~= (
                                buffered_pre + seq![event]) + d_new.buffered);
                            }
                        }
                    }
                    if self.extracted() {
                        break;
                    }
                },
            }
        }
        self.state = DocumentAttributeParserState::InDocumentBuffered(buffered_events);
        self.frontmatter.as_ref()
    }
}

} // verus!
