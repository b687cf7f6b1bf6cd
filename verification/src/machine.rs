//! The classification state machine, as a mathematical specification.
//!
//! The extractor's behaviour is a fold of [`step`] over the upstream event
//! sequence: each event either extends the frontmatter, is forwarded
//! downstream, or both. [`run`] gives the final configuration, [`run_out`]
//! the passthrough (the subsequence of forwarded events), [`pull`] the
//! effect of a single iterator step, and [`drive`] the effect of driving
//! the machine to its terminal phase while buffering the forwarded events.

use crate::events::{CodeKindView, EventKindView, MdEvent};
use crate::model::{CodeBlockView, FrontmatterView};
use vstd::prelude::*;

verus! {

/// Classification phase of the extractor. `InDocument` is terminal and
/// irreversible: once it is reached every event is forwarded unexamined.
#[verifier::ext_equal]
pub enum Phase {
    /// Still inside the detection window, between frontmatter elements.
    Scanning,
    /// Inside the top-level heading whose text becomes the title.
    InTitle,
    /// Inside a code block opened during the detection window.
    InCode(CodeKindView),
    /// In the document body; classification is over.
    InDocument,
}

/// One configuration of the classification machine: the phase together
/// with the frontmatter accumulated so far (`None` until the first
/// qualifying event is seen).
#[verifier::ext_equal]
pub struct Config {
    /// The classification phase.
    pub phase: Phase,
    /// The frontmatter accumulated so far.
    pub fm: Option<FrontmatterView>,
}

/// The configuration a freshly constructed extractor starts from.
pub open spec fn init() -> Config {
    Config { phase: Phase::Scanning, fm: None }
}

/// The language tag a code block of the given kind yields: fenced blocks
/// yield their info string, indented blocks yield none.
pub open spec fn lang_of(kind: CodeKindView) -> Option<Seq<char>> {
    match kind {
        CodeKindView::Indented => None,
        CodeKindView::Fenced(language) => Some(language),
    }
}

/// The frontmatter value, lazily created on first write.
pub open spec fn fm_or_empty(fm: Option<FrontmatterView>) -> FrontmatterView {
    match fm {
        Some(f) => f,
        None => FrontmatterView { title: None, code_block: None },
    }
}

/// Append a text span to the (lazily created) title buffer.
pub open spec fn with_title_text(fm: Option<FrontmatterView>, text: Seq<char>) -> Option<
    FrontmatterView,
> {
    let f = fm_or_empty(fm);
    let title = match f.title {
        Some(title) => title,
        None => Seq::<char>::empty(),
    };
    Some(FrontmatterView { title: Some(title + text), code_block: f.code_block })
}

/// Record a code block, fully replacing any earlier one (last write wins
/// within the detection window).
pub open spec fn with_code_block(
    fm: Option<FrontmatterView>,
    source: Seq<char>,
    kind: CodeKindView,
) -> Option<FrontmatterView> {
    let f = fm_or_empty(fm);
    Some(
        FrontmatterView {
            title: f.title,
            code_block: Some(CodeBlockView { source, language: lang_of(kind) }),
        },
    )
}

/// The phase transition for one observed event.
///
/// The guard for recognizing a frontmatter element is only "the document
/// body has not been reached". In particular, and by deliberate policy, a
/// code block start seen while the title is still open is recognized as a
/// frontmatter code block: the machine leaves the title and opens the
/// block.
pub open spec fn next_phase(phase: Phase, kind: EventKindView) -> Phase {
    if phase is InDocument {
        Phase::InDocument
    } else {
        match kind {
            EventKindView::HeadingStart => Phase::InTitle,
            EventKindView::HeadingEnd => Phase::Scanning,
            EventKindView::CodeStart(code_kind) => Phase::InCode(code_kind),
            EventKindView::CodeEnd => Phase::InDocument,
            EventKindView::Text(_) => match phase {
                Phase::InTitle => Phase::InTitle,
                Phase::InCode(code_kind) => Phase::InCode(code_kind),
                _ => Phase::InDocument,
            },
            EventKindView::Other => if phase is InTitle {
                Phase::InTitle
            } else {
                Phase::InDocument
            },
        }
    }
}

/// Whether an event observed in the given phase is forwarded downstream.
/// Code block delimiters and code block text are consumed silently while
/// the detection window is open; everything else passes through.
pub open spec fn forwards(phase: Phase, kind: EventKindView) -> bool {
    if phase is InDocument {
        true
    } else {
        match kind {
            EventKindView::HeadingStart => true,
            EventKindView::HeadingEnd => true,
            EventKindView::CodeStart(_) => false,
            EventKindView::CodeEnd => false,
            EventKindView::Text(_) => !(phase is InCode),
            EventKindView::Other => true,
        }
    }
}

/// The frontmatter update for one observed event: title text accumulates,
/// code block text overwrites; nothing else changes the frontmatter.
pub open spec fn next_fm(
    fm: Option<FrontmatterView>,
    phase: Phase,
    kind: EventKindView,
) -> Option<FrontmatterView> {
    match kind {
        EventKindView::Text(text) => match phase {
            Phase::InTitle => with_title_text(fm, text),
            Phase::InCode(code_kind) => with_code_block(fm, text, code_kind),
            _ => fm,
        },
        _ => fm,
    }
}

/// One step of the classification machine.
pub open spec fn step(c: Config, kind: EventKindView) -> Config {
    Config { phase: next_phase(c.phase, kind), fm: next_fm(c.fm, c.phase, kind) }
}

/// The machine run over a whole event sequence.
pub open spec fn run(c: Config, evs: Seq<MdEvent>) -> Config
    decreases evs.len(),
{
    if evs.len() == 0 {
        c
    } else {
        run(step(c, evs[0].kind_view()), evs.drop_first())
    }
}

/// The passthrough: the subsequence of events the machine forwards when
/// run over `evs` from configuration `c`, in original order.
pub open spec fn run_out(c: Config, evs: Seq<MdEvent>) -> Seq<MdEvent>
    decreases evs.len(),
{
    if evs.len() == 0 {
        Seq::empty()
    } else {
        let rest = run_out(step(c, evs[0].kind_view()), evs.drop_first());
        if forwards(c.phase, evs[0].kind_view()) {
            seq![evs[0]] + rest
        } else {
            rest
        }
    }
}

/// What one pull of the extractor's iterator yields: the machine consumes
/// events until one is forwarded (the `item`) or the upstream is
/// exhausted, leaving a new configuration and the unconsumed remainder.
#[verifier::ext_equal]
pub struct PullResult {
    /// The configuration after the pull.
    pub cfg: Config,
    /// The upstream events not yet consumed.
    pub rest: Seq<MdEvent>,
    /// The forwarded event, if the upstream was not exhausted first.
    pub item: Option<MdEvent>,
}

/// The effect of a single pull from configuration `c` with upstream `evs`.
pub open spec fn pull(c: Config, evs: Seq<MdEvent>) -> PullResult
    decreases evs.len(),
{
    if evs.len() == 0 {
        PullResult { cfg: c, rest: Seq::empty(), item: None }
    } else {
        let c2 = step(c, evs[0].kind_view());
        if forwards(c.phase, evs[0].kind_view()) {
            PullResult { cfg: c2, rest: evs.drop_first(), item: Some(evs[0]) }
        } else {
            pull(c2, evs.drop_first())
        }
    }
}

/// What driving the machine to its terminal phase yields while buffering
/// every forwarded event: the final configuration, the unconsumed
/// remainder, and the buffer, in order.
#[verifier::ext_equal]
pub struct DriveResult {
    /// The configuration when driving stopped.
    pub cfg: Config,
    /// The upstream events not yet consumed.
    pub rest: Seq<MdEvent>,
    /// The forwarded events, buffered in original order.
    pub buffered: Seq<MdEvent>,
}

/// The effect of pulling repeatedly from configuration `c` with upstream
/// `evs`, buffering each forwarded event, until the terminal phase is
/// reached or the upstream is exhausted.
pub open spec fn drive(c: Config, evs: Seq<MdEvent>) -> DriveResult
    decreases evs.len(),
{
    if evs.len() == 0 {
        DriveResult { cfg: c, rest: Seq::empty(), buffered: Seq::empty() }
    } else {
        let kind = evs[0].kind_view();
        let c2 = step(c, kind);
        if forwards(c.phase, kind) {
            if c2.phase is InDocument {
                DriveResult { cfg: c2, rest: evs.drop_first(), buffered: seq![evs[0]] }
            } else {
                let d = drive(c2, evs.drop_first());
                DriveResult { cfg: d.cfg, rest: d.rest, buffered: seq![evs[0]] + d.buffered }
            }
        } else {
            drive(c2, evs.drop_first())
        }
    }
}

/// Events that may appear inside a title without closing it: text spans
/// and opaque inline markup (emphasis boundaries and the like).
pub open spec fn title_interior(evs: Seq<MdEvent>) -> bool
    decreases evs.len(),
{
    if evs.len() == 0 {
        true
    } else {
        (evs[0].kind_view() matches EventKindView::Text(_) || evs[0].kind_view() is Other)
            && title_interior(evs.drop_first())
    }
}

/// The concatenated text of the plain-text spans among `evs`, with all
/// other events' formatting discarded.
pub open spec fn texts_of(evs: Seq<MdEvent>) -> Seq<char>
    decreases evs.len(),
{
    if evs.len() == 0 {
        Seq::empty()
    } else {
        (match evs[0].kind_view() {
            EventKindView::Text(text) => text,
            _ => Seq::<char>::empty(),
        }) + texts_of(evs.drop_first())
    }
}

/// Whether any of `evs` is a plain text span.
pub open spec fn has_text(evs: Seq<MdEvent>) -> bool
    decreases evs.len(),
{
    if evs.len() == 0 {
        false
    } else {
        evs[0].kind_view() is Text || has_text(evs.drop_first())
    }
}

/// The title accumulated so far, or the empty text if none is.
pub open spec fn title_of(fm: Option<FrontmatterView>) -> Seq<char> {
    match fm_or_empty(fm).title {
        Some(title) => title,
        None => Seq::empty(),
    }
}

proof fn lemma_texts_of_no_text(evs: Seq<MdEvent>)
    requires
        !has_text(evs),
    ensures
        texts_of(evs) == Seq::<char>::empty(),
    decreases evs.len(),
{
    if evs.len() > 0 {
        lemma_texts_of_no_text(evs.drop_first());
        assert(texts_of(evs) =~= Seq::<char>::empty());
    }
}

/// Running the machine over a single event is one step.
proof fn lemma_run_one(c: Config, e: MdEvent)
    ensures
        run(c, seq![e]) == step(c, e.kind_view()),
        run_out(c, seq![e]) == (if forwards(c.phase, e.kind_view()) {
            seq![e]
        } else {
            Seq::<MdEvent>::empty()
        }),
{
    reveal_with_fuel(run, 2);
    reveal_with_fuel(run_out, 2);
    assert(seq![e].drop_first() =~= Seq::<MdEvent>::empty());
    if forwards(c.phase, e.kind_view()) {
        assert(seq![e] + Seq::<MdEvent>::empty() =~= seq![e]);
    }
}

/// While the title is open, interior events keep it open, are all
/// forwarded, and extend the title by exactly their concatenated text.
pub proof fn lemma_title_scan(c: Config, evs: Seq<MdEvent>)
    requires
        c.phase is InTitle,
        title_interior(evs),
    ensures
        run(c, evs).phase is InTitle,
        run_out(c, evs) == evs,
        run(c, evs).fm == (if has_text(evs) {
            Some(
                FrontmatterView {
                    title: Some(title_of(c.fm) + texts_of(evs)),
                    code_block: fm_or_empty(c.fm).code_block,
                },
            )
        } else {
            c.fm
        }),
    decreases evs.len(),
{
    if evs.len() == 0 {
        assert(run_out(c, evs) =~= evs);
    } else {
        let kind = evs[0].kind_view();
        let c2 = step(c, kind);
        lemma_title_scan(c2, evs.drop_first());
        assert(seq![evs[0]] + evs.drop_first() =~= evs);
        match kind {
            EventKindView::Text(text) => {
                assert(c2.fm == with_title_text(c.fm, text));
                assert(title_of(c2.fm) == title_of(c.fm) + text);
                assert(fm_or_empty(c2.fm).code_block == fm_or_empty(c.fm).code_block);
                assert(texts_of(evs) == text + texts_of(evs.drop_first()));
                if has_text(evs.drop_first()) {
                    assert((title_of(c.fm) + text) + texts_of(evs.drop_first()) =~= title_of(c.fm)
                        + texts_of(evs));
                } else {
                    lemma_texts_of_no_text(evs.drop_first());
                    assert(title_of(c.fm) + texts_of(evs) =~= title_of(c.fm) + text);
                }
            },
            _ => {
                assert(c2.fm == c.fm);
                assert(texts_of(evs) =~= texts_of(evs.drop_first()));
            },
        }
    }
}

/// Law: the terminal phase is stable. Once the machine is in the document
/// body it never changes the frontmatter again, and it forwards every
/// remaining event unchanged and in order.
pub proof fn lemma_run_terminal(c: Config, evs: Seq<MdEvent>)
    requires
        c.phase is InDocument,
    ensures
        run(c, evs) == c,
        run_out(c, evs) == evs,
    decreases evs.len(),
{
    if evs.len() > 0 {
        let kind = evs[0].kind_view();
        assert(step(c, kind) == c);
        lemma_run_terminal(c, evs.drop_first());
        assert(run_out(c, evs) == seq![evs[0]] + evs.drop_first());
        assert(seq![evs[0]] + evs.drop_first() =~= evs);
    } else {
        assert(run_out(c, evs) =~= evs);
    }
}

/// Running the machine over a concatenation is running it over each part
/// in turn; the passthrough concatenates accordingly.
pub proof fn lemma_run_append(c: Config, evs1: Seq<MdEvent>, evs2: Seq<MdEvent>)
    ensures
        run(c, evs1 + evs2) == run(run(c, evs1), evs2),
        run_out(c, evs1 + evs2) == run_out(c, evs1) + run_out(run(c, evs1), evs2),
    decreases evs1.len(),
{
    if evs1.len() == 0 {
        assert(evs1 + evs2 =~= evs2);
        assert(run_out(c, evs1) + run_out(run(c, evs1), evs2) =~= run_out(c, evs2));
    } else {
        let kind = (evs1 + evs2)[0].kind_view();
        assert((evs1 + evs2)[0] == evs1[0]);
        let c2 = step(c, evs1[0].kind_view());
        assert((evs1 + evs2).drop_first() =~= evs1.drop_first() + evs2);
        lemma_run_append(c2, evs1.drop_first(), evs2);
        if forwards(c.phase, evs1[0].kind_view()) {
            assert(seq![evs1[0]] + (run_out(c2, evs1.drop_first()) + run_out(
                run(c2, evs1.drop_first()),
                evs2,
            )) =~= (seq![evs1[0]] + run_out(c2, evs1.drop_first())) + run_out(
                run(c2, evs1.drop_first()),
                evs2,
            ));
        }
    }
}

/// A single pull does not change what the whole run yields: the final
/// configuration is unchanged, and the passthrough is the pulled item (if
/// any) followed by the passthrough of the remainder. A pull that yields
/// an item has consumed at least that event from the upstream.
pub proof fn lemma_pull_run(c: Config, evs: Seq<MdEvent>)
    ensures
        run(pull(c, evs).cfg, pull(c, evs).rest) == run(c, evs),
        run_out(c, evs) == (match pull(c, evs).item {
            Some(item) => seq![item],
            None => Seq::<MdEvent>::empty(),
        }) + run_out(pull(c, evs).cfg, pull(c, evs).rest),
        pull(c, evs).item is Some ==> pull(c, evs).rest.len() < evs.len(),
        pull(c, evs).item is None ==> pull(c, evs).rest.len() == 0,
    decreases evs.len(),
{
    if evs.len() == 0 {
        assert(Seq::<MdEvent>::empty() + run_out(c, evs) =~= run_out(c, evs));
    } else {
        let kind = evs[0].kind_view();
        let c2 = step(c, kind);
        if forwards(c.phase, kind) {
            assert(run_out(c, evs) == seq![evs[0]] + run_out(c2, evs.drop_first()));
        } else {
            lemma_pull_run(c2, evs.drop_first());
        }
    }
}

/// Driving decomposes as one pull followed by driving the remainder,
/// unless the pull exhausted the upstream or reached the terminal phase.
pub proof fn lemma_drive_pull(c: Config, evs: Seq<MdEvent>)
    ensures
        drive(c, evs) == (match pull(c, evs).item {
            None => DriveResult {
                cfg: pull(c, evs).cfg,
                rest: pull(c, evs).rest,
                buffered: Seq::<MdEvent>::empty(),
            },
            Some(item) => if pull(c, evs).cfg.phase is InDocument {
                DriveResult { cfg: pull(c, evs).cfg, rest: pull(c, evs).rest, buffered: seq![item] }
            } else {
                DriveResult {
                    cfg: drive(pull(c, evs).cfg, pull(c, evs).rest).cfg,
                    rest: drive(pull(c, evs).cfg, pull(c, evs).rest).rest,
                    buffered: seq![item] + drive(pull(c, evs).cfg, pull(c, evs).rest).buffered,
                }
            },
        }),
    decreases evs.len(),
{
    if evs.len() > 0 {
        let kind = evs[0].kind_view();
        let c2 = step(c, kind);
        if !forwards(c.phase, kind) {
            lemma_drive_pull(c2, evs.drop_first());
        }
    }
}

/// Law: buffered extraction and draining extraction agree on the
/// frontmatter. Driving the machine to its terminal phase accumulates the
/// same frontmatter as running it over the whole upstream, because the
/// frontmatter never changes once the terminal phase is reached.
pub proof fn lemma_buffered_agrees_with_drain(c: Config, evs: Seq<MdEvent>)
    ensures
        drive(c, evs).cfg.fm == run(c, evs).fm,
    decreases evs.len(),
{
    if evs.len() > 0 {
        let kind = evs[0].kind_view();
        let c2 = step(c, kind);
        if forwards(c.phase, kind) && c2.phase is InDocument {
            lemma_run_terminal(c2, evs.drop_first());
        } else {
            lemma_buffered_agrees_with_drain(c2, evs.drop_first());
        }
    }
}

/// Law: buffered replay is complete. The buffer accumulated while driving
/// the machine to its terminal phase, followed by the passthrough of the
/// unconsumed remainder, is exactly the passthrough of the whole upstream:
/// nothing is omitted and nothing is reordered.
pub proof fn lemma_buffered_replay_complete(c: Config, evs: Seq<MdEvent>)
    ensures
        drive(c, evs).buffered + run_out(drive(c, evs).cfg, drive(c, evs).rest) == run_out(c, evs),
        drive(c, evs).cfg.phase is InDocument || drive(c, evs).rest.len() == 0,
    decreases evs.len(),
{
    if evs.len() == 0 {
        assert(drive(c, evs).buffered + run_out(drive(c, evs).cfg, drive(c, evs).rest) =~= run_out(
            c,
            evs,
        ));
    } else {
        let kind = evs[0].kind_view();
        let c2 = step(c, kind);
        if forwards(c.phase, kind) {
            if c2.phase is InDocument {
                assert(seq![evs[0]] + run_out(c2, evs.drop_first()) == run_out(c, evs));
            } else {
                lemma_buffered_replay_complete(c2, evs.drop_first());
                let d = drive(c2, evs.drop_first());
                assert((seq![evs[0]] + d.buffered) + run_out(d.cfg, d.rest) =~= seq![evs[0]] + (
                d.buffered + run_out(d.cfg, d.rest)));
            }
        } else {
            lemma_buffered_replay_complete(c2, evs.drop_first());
        }
    }
}

/// Law: a document that begins with a top-level heading immediately
/// followed by a code block yields both parts of the frontmatter. The
/// title is the concatenated plain text of the heading's interior (nested
/// inline markup merged, formatting discarded); the code block keeps its
/// text and, for a fenced block, the fence's info string as language. The
/// passthrough is exactly the original sequence with the code block's
/// events removed.
pub proof fn lemma_heading_then_code_block_captured(
    e_hs: MdEvent,
    interior: Seq<MdEvent>,
    e_he: MdEvent,
    e_cs: MdEvent,
    e_t: MdEvent,
    e_ce: MdEvent,
    rest: Seq<MdEvent>,
    kind: CodeKindView,
    text: Seq<char>,
)
    requires
        e_hs.kind_view() is HeadingStart,
        title_interior(interior),
        e_he.kind_view() is HeadingEnd,
        e_cs.kind_view() == EventKindView::CodeStart(kind),
        e_t.kind_view() == EventKindView::Text(text),
        e_ce.kind_view() is CodeEnd,
    ensures
        ({
            let evs = seq![e_hs] + interior + seq![e_he] + seq![e_cs] + seq![e_t] + seq![e_ce]
                + rest;
            let cfg = run(init(), evs);
            &&& cfg.phase is InDocument
            &&& cfg.fm == Some(
                FrontmatterView {
                    title: if has_text(interior) {
                        Some(texts_of(interior))
                    } else {
                        None
                    },
                    code_block: Some(CodeBlockView { source: text, language: lang_of(kind) }),
                },
            )
            &&& run_out(init(), evs) == seq![e_hs] + interior + seq![e_he] + rest
        }),
{
    let evs = seq![e_hs] + interior + seq![e_he] + seq![e_cs] + seq![e_t] + seq![e_ce] + rest;
    let c0 = init();
    lemma_run_append(c0, seq![e_hs] + interior + seq![e_he] + seq![e_cs] + seq![e_t] + seq![e_ce], rest);
    lemma_run_append(c0, seq![e_hs] + interior + seq![e_he] + seq![e_cs] + seq![e_t], seq![e_ce]);
    lemma_run_append(c0, seq![e_hs] + interior + seq![e_he] + seq![e_cs], seq![e_t]);
    lemma_run_append(c0, seq![e_hs] + interior + seq![e_he], seq![e_cs]);
    lemma_run_append(c0, seq![e_hs] + interior, seq![e_he]);
    lemma_run_append(c0, seq![e_hs], interior);
    lemma_run_one(c0, e_hs);
    let c1 = run(c0, seq![e_hs]);
    assert(c1 == Config { phase: Phase::InTitle, fm: None::<FrontmatterView> });
    lemma_title_scan(c1, interior);
    let c2 = run(c1, interior);
    assert(title_of(c1.fm) + texts_of(interior) =~= texts_of(interior));
    lemma_run_one(c2, e_he);
    let c3 = run(c2, seq![e_he]);
    assert(c3.phase is Scanning && c3.fm == c2.fm);
    lemma_run_one(c3, e_cs);
    let c4 = run(c3, seq![e_cs]);
    assert(c4.phase == Phase::InCode(kind) && c4.fm == c3.fm);
    lemma_run_one(c4, e_t);
    let c5 = run(c4, seq![e_t]);
    assert(c5.phase == Phase::InCode(kind) && c5.fm == with_code_block(c4.fm, text, kind));
    lemma_run_one(c5, e_ce);
    let c6 = run(c5, seq![e_ce]);
    assert(c6.phase is InDocument && c6.fm == c5.fm);
    lemma_run_terminal(c6, rest);
    assert(run(c0, evs) == c6);
    assert(c6.fm == Some(
        FrontmatterView {
            title: if has_text(interior) {
                Some(texts_of(interior))
            } else {
                None
            },
            code_block: Some(CodeBlockView { source: text, language: lang_of(kind) }),
        },
    ));
    assert(run_out(c0, evs) =~= seq![e_hs] + interior + seq![e_he] + rest);
}

/// Law: a document that begins with a code block yields that code block as
/// frontmatter, and the passthrough is the original sequence with the code
/// block's events removed. No title is captured: the block's end event
/// closes the detection window, so anything after it — a heading included —
/// is document body.
pub proof fn lemma_code_block_first_captured(
    e_cs: MdEvent,
    e_t: MdEvent,
    e_ce: MdEvent,
    rest: Seq<MdEvent>,
    kind: CodeKindView,
    text: Seq<char>,
)
    requires
        e_cs.kind_view() == EventKindView::CodeStart(kind),
        e_t.kind_view() == EventKindView::Text(text),
        e_ce.kind_view() is CodeEnd,
    ensures
        ({
            let evs = seq![e_cs] + seq![e_t] + seq![e_ce] + rest;
            let cfg = run(init(), evs);
            &&& cfg.phase is InDocument
            &&& cfg.fm == Some(
                FrontmatterView {
                    title: None,
                    code_block: Some(CodeBlockView { source: text, language: lang_of(kind) }),
                },
            )
            &&& run_out(init(), evs) == rest
        }),
{
    let evs = seq![e_cs] + seq![e_t] + seq![e_ce] + rest;
    let c0 = init();
    lemma_run_append(c0, seq![e_cs] + seq![e_t] + seq![e_ce], rest);
    lemma_run_append(c0, seq![e_cs] + seq![e_t], seq![e_ce]);
    lemma_run_append(c0, seq![e_cs], seq![e_t]);
    lemma_run_one(c0, e_cs);
    let c1 = run(c0, seq![e_cs]);
    assert(c1.phase == Phase::InCode(kind) && c1.fm is None);
    lemma_run_one(c1, e_t);
    let c2 = run(c1, seq![e_t]);
    assert(c2.phase == Phase::InCode(kind) && c2.fm == with_code_block(c1.fm, text, kind));
    lemma_run_one(c2, e_ce);
    let c3 = run(c2, seq![e_ce]);
    assert(c3.phase is InDocument && c3.fm == c2.fm);
    lemma_run_terminal(c3, rest);
    assert(run_out(c0, evs) =~= rest);
}

/// Law: re-running extraction on the document body captures nothing. A
/// body that does not itself begin with a heading or code block marker
/// forces the terminal phase on its very first event, so no frontmatter
/// is accumulated and the whole body passes through unchanged.
pub proof fn lemma_rerun_on_body_captures_nothing(evs: Seq<MdEvent>)
    requires
        evs.len() > 0 ==> (evs[0].kind_view() matches EventKindView::Text(_)
            || evs[0].kind_view() is Other),
    ensures
        run(init(), evs).fm is None,
        run_out(init(), evs) == evs,
{
    if evs.len() == 0 {
        assert(run_out(init(), evs) =~= evs);
    } else {
        let c2 = step(init(), evs[0].kind_view());
        assert(c2.phase is InDocument && c2.fm is None);
        lemma_run_terminal(c2, evs.drop_first());
        assert(run_out(init(), evs) == seq![evs[0]] + evs.drop_first());
        assert(seq![evs[0]] + evs.drop_first() =~= evs);
    }
}

/// Law: once an ordinary document event is seen while scanning, no later
/// event is captured. The first such event forces the terminal phase, so
/// the frontmatter accumulated up to that point — whatever it is — never
/// changes again, and everything from that event on passes through
/// unchanged and in order.
pub proof fn lemma_no_capture_after_body_event(c: Config, e: MdEvent, evs: Seq<MdEvent>)
    requires
        c.phase is Scanning,
        e.kind_view() matches EventKindView::Text(_) || e.kind_view() is Other,
    ensures
        run(c, seq![e] + evs).fm == c.fm,
        run_out(c, seq![e] + evs) == seq![e] + evs,
{
    lemma_run_append(c, seq![e], evs);
    lemma_run_one(c, e);
    let c2 = step(c, e.kind_view());
    assert(c2.phase is InDocument && c2.fm == c.fm);
    lemma_run_terminal(c2, evs);
}

/// Law: within the open detection window, the last code block observed is
/// the one retained. A second code block opened before the window closes
/// fully replaces the first capture, whatever it was.
pub proof fn lemma_last_code_block_wins(
    c: Config,
    e_cs1: MdEvent,
    e_t1: MdEvent,
    e_cs2: MdEvent,
    e_t2: MdEvent,
    kind1: CodeKindView,
    text1: Seq<char>,
    kind2: CodeKindView,
    text2: Seq<char>,
)
    requires
        c.phase is Scanning,
        e_cs1.kind_view() == EventKindView::CodeStart(kind1),
        e_t1.kind_view() == EventKindView::Text(text1),
        e_cs2.kind_view() == EventKindView::CodeStart(kind2),
        e_t2.kind_view() == EventKindView::Text(text2),
    ensures
        ({
            let cfg = run(c, seq![e_cs1] + seq![e_t1] + seq![e_cs2] + seq![e_t2]);
            &&& cfg.fm matches Some(f)
                && f.code_block == Some(CodeBlockView { source: text2, language: lang_of(kind2) })
            &&& cfg.fm == with_code_block(with_code_block(c.fm, text1, kind1), text2, kind2)
        }),
{
    let c0 = c;
    lemma_run_append(c0, seq![e_cs1] + seq![e_t1] + seq![e_cs2], seq![e_t2]);
    lemma_run_append(c0, seq![e_cs1] + seq![e_t1], seq![e_cs2]);
    lemma_run_append(c0, seq![e_cs1], seq![e_t1]);
    lemma_run_one(c0, e_cs1);
    let c1 = run(c0, seq![e_cs1]);
    assert(c1.phase == Phase::InCode(kind1) && c1.fm == c0.fm);
    lemma_run_one(c1, e_t1);
    let c2 = run(c1, seq![e_t1]);
    assert(c2.phase == Phase::InCode(kind1) && c2.fm == with_code_block(c0.fm, text1, kind1));
    lemma_run_one(c2, e_cs2);
    let c3 = run(c2, seq![e_cs2]);
    assert(c3.phase == Phase::InCode(kind2) && c3.fm == c2.fm);
    lemma_run_one(c3, e_t2);
}

} // verus!
