//! The streaming SRJ document parser as a state machine over tokens.
//!
//! A reader feeds one token at a time to [`SrjParser::step`] and performs
//! the event it returns (the SELECT header, one row, or the ASK boolean)
//! before it reads the next token. Only the tokens of the current row (or
//! of the `head` object, or of a skipped unknown member) are held.

use vstd::prelude::*;

use crate::error::{error_with, make_error, ErrKind, SparqlResultsError};
use crate::messages::{expected_json_message, expected_kind_message, trailing_json_message};
use crate::srj::document::{parse_binding, parse_head, skip_value, texts, Progress};
use crate::srj::grammar::{
    is_close, sp_parse_binding, sp_parse_head, sp_skip_value, toks, Parsed,
};
use crate::srj::token::{Tok, Token, TokenKind};
use crate::text::str_is;
use crate::types::{ResultRow, Term};

verus! {

/// Shape observed by the streaming SRJ parser.
#[derive(Debug, Clone, Copy, PartialEq, Eq, Structural)]
pub enum SrjStreamKind {
    /// A SELECT result set.
    Select,
    /// An ASK boolean result.
    Ask,
}

/// Summary returned after a streaming SRJ parse completes.
#[derive(Debug, Clone, Copy, PartialEq, Eq, Structural)]
pub struct SrjStreamSummary {
    /// Parsed result shape.
    pub kind: SrjStreamKind,
    /// Number of rows emitted. ASK emits one boolean event.
    pub row_count: u64,
}

/// A top-level member of the document object.
#[derive(Debug, Clone, Copy, PartialEq, Eq, Structural)]
pub enum DocMember {
    Head,
    Results,
    Boolean,
    Other,
}

/// What a run of collected tokens is parsed as once it is complete.
#[derive(Debug, Clone, Copy, PartialEq, Eq, Structural)]
pub enum CollectTarget {
    /// The `head` object.
    Head,
    /// An unknown member of the document object.
    DocSkip,
    /// An unknown member of the `results` object.
    ResSkip,
    /// One binding object of the `bindings` array.
    Row,
}

/// Where the parser stands in the document.
#[derive(Debug, Clone, Copy, PartialEq, Eq, Structural)]
pub enum SrjPhase {
    Start,
    DocLoop,
    DocAfterComma,
    DocColon(DocMember),
    DocValue(DocMember),
    DocAfterMember,
    AfterDoc,
    ResLoop,
    ResAfterComma,
    ResColon(bool),
    ResValue(bool),
    ResAfterMember,
    BindLoop,
    BindAfterRow,
    BindAfterComma,
    Collect(CollectTarget),
    Done,
}

/// The parser's state.
pub struct SrjState {
    pub phase: SrjPhase,
    pub collected: Seq<Tok>,
    pub depth: int,
    pub head: Option<Seq<Seq<char>>>,
    pub summary: Option<SrjStreamSummary>,
    pub count: int,
    pub results_count: Option<int>,
}

/// An event for the sink.
pub enum SrjEventView {
    Header(Seq<Seq<char>>),
    Row(Seq<(Seq<char>, Term)>),
    Ask(bool),
}

/// What follows the event of a step.
pub enum SrjOutcomeView {
    Continue,
    Finished(SrjStreamSummary),
    Failed(ErrKind),
}

/// The result of one step: the next state, an optional event for the sink
/// (delivered first), and whether parsing continues, finished or failed.
pub struct SrjStepView {
    pub state: SrjState,
    pub event: Option<SrjEventView>,
    pub outcome: SrjOutcomeView,
}

pub open spec fn cont(s: SrjState) -> SrjStepView {
    SrjStepView { state: s, event: None, outcome: SrjOutcomeView::Continue }
}

pub open spec fn fail(s: SrjState, k: ErrKind) -> SrjStepView {
    SrjStepView { state: s, event: None, outcome: SrjOutcomeView::Failed(k) }
}

pub open spec fn emit(s: SrjState, e: SrjEventView) -> SrjStepView {
    SrjStepView { state: s, event: Some(e), outcome: SrjOutcomeView::Continue }
}

pub open spec fn with_phase(s: SrjState, ph: SrjPhase) -> SrjState {
    SrjState { phase: ph, ..s }
}

/// The member that a key of the document object names.
pub open spec fn member_of(k: Seq<char>) -> DocMember {
    if k == "head"@ {
        DocMember::Head
    } else if k == "results"@ {
        DocMember::Results
    } else if k == "boolean"@ {
        DocMember::Boolean
    } else {
        DocMember::Other
    }
}

pub open spec fn is_open(t: Tok) -> bool {
    t is ObjectStart || t is ArrayStart
}

pub open spec fn depth_delta(t: Tok) -> int {
    if is_open(t) {
        1
    } else if is_close(t) {
        -1
    } else {
        0
    }
}

/// The initial state.
pub open spec fn srj_initial() -> SrjState {
    SrjState {
        phase: SrjPhase::Start,
        collected: seq![],
        depth: 0,
        head: None,
        summary: None,
        count: 0,
        results_count: None,
    }
}

/// Loop top of the document object: `}` ends it, otherwise a key.
pub open spec fn doc_loop(s: SrjState, t: Tok) -> SrjStepView {
    match t {
        Tok::ObjectEnd => cont(with_phase(s, SrjPhase::AfterDoc)),
        Tok::Str(k) => cont(with_phase(s, SrjPhase::DocColon(member_of(k)))),
        _ => fail(s, ErrKind::Json),
    }
}

/// The `results` object ended: its `bindings` count becomes the summary.
pub open spec fn results_done(s: SrjState) -> SrjStepView {
    match s.results_count {
        None => fail(s, ErrKind::MissingElement),
        Some(c) => cont(
            SrjState {
                phase: SrjPhase::DocAfterMember,
                summary: Some(SrjStreamSummary { kind: SrjStreamKind::Select, row_count: c as u64 }),
                ..s
            },
        ),
    }
}

/// Loop top of the `results` object.
pub open spec fn res_loop(s: SrjState, t: Tok) -> SrjStepView {
    match t {
        Tok::ObjectEnd => results_done(s),
        Tok::Str(k) => cont(with_phase(s, SrjPhase::ResColon(k == "bindings"@))),
        _ => fail(s, ErrKind::Json),
    }
}

/// The `bindings` array ended.
pub open spec fn bindings_done(s: SrjState) -> SrjStepView {
    cont(SrjState { phase: SrjPhase::ResAfterMember, results_count: Some(s.count), ..s })
}

/// The collected tokens form a complete value (or input ended): parse them.
/// A parser that still wants tokens then cannot be satisfied, which is an
/// error.
pub open spec fn complete(s: SrjState, target: CollectTarget) -> SrjStepView {
    let c = s.collected;
    let cleared = SrjState { collected: seq![], depth: 0, ..s };
    match target {
        CollectTarget::Head => match sp_parse_head(c, 0) {
            Parsed::Done(vars, _) => cont(
                SrjState { phase: SrjPhase::DocAfterMember, head: Some(vars), ..cleared },
            ),
            Parsed::Failed(k) => fail(cleared, k),
            Parsed::Incomplete => fail(cleared, ErrKind::Json),
        },
        CollectTarget::DocSkip => match sp_skip_value(c, 0) {
            Parsed::Done(_, _) => cont(with_phase(cleared, SrjPhase::DocAfterMember)),
            Parsed::Failed(k) => fail(cleared, k),
            Parsed::Incomplete => fail(cleared, ErrKind::Json),
        },
        CollectTarget::ResSkip => match sp_skip_value(c, 0) {
            Parsed::Done(_, _) => cont(with_phase(cleared, SrjPhase::ResAfterMember)),
            Parsed::Failed(k) => fail(cleared, k),
            Parsed::Incomplete => fail(cleared, ErrKind::Json),
        },
        CollectTarget::Row => match sp_parse_binding(c, 0) {
            Parsed::Done(e, _) => {
                if s.count + 1 > u64::MAX {
                    SrjStepView {
                        state: with_phase(cleared, SrjPhase::BindAfterRow),
                        event: Some(SrjEventView::Row(e)),
                        outcome: SrjOutcomeView::Failed(ErrKind::InvalidDocument),
                    }
                } else {
                    emit(
                        SrjState { phase: SrjPhase::BindAfterRow, count: s.count + 1, ..cleared },
                        SrjEventView::Row(e),
                    )
                }
            },
            Parsed::Failed(k) => fail(cleared, k),
            Parsed::Incomplete => fail(cleared, ErrKind::Json),
        },
    }
}

/// Adds a token to the collected run; a run is complete when its brackets
/// balance (either closing bracket closes) or the input ends.
pub open spec fn collect_more(s: SrjState, target: CollectTarget, t: Tok) -> SrjStepView {
    let c = s.collected.push(t);
    let d = s.depth + depth_delta(t);
    if t is Eof || d <= 0 {
        complete(SrjState { phase: SrjPhase::Collect(target), collected: c, depth: 0, ..s }, target)
    } else {
        cont(SrjState { phase: SrjPhase::Collect(target), collected: c, depth: d, ..s })
    }
}

/// Starts collecting a value whose first token is `t`.
pub open spec fn collect_start(s: SrjState, target: CollectTarget, t: Tok) -> SrjStepView {
    collect_more(SrjState { collected: seq![], depth: 0, ..s }, target, t)
}

/// One step of the SRJ document parser on token `t`.
pub open spec fn srj_step(s: SrjState, t: Tok) -> SrjStepView {
    match s.phase {
        SrjPhase::Start => if t is ObjectStart {
            cont(with_phase(s, SrjPhase::DocLoop))
        } else {
            fail(s, ErrKind::Json)
        },
        SrjPhase::DocLoop => doc_loop(s, t),
        SrjPhase::DocAfterComma => if is_close(t) {
            fail(s, ErrKind::Json)
        } else {
            doc_loop(s, t)
        },
        SrjPhase::DocColon(m) => if t is Colon {
            match m {
                DocMember::Results => match s.head {
                    None => fail(s, ErrKind::InvalidDocument),
                    Some(vars) => emit(
                        SrjState { phase: SrjPhase::DocValue(DocMember::Results), head: None, ..s },
                        SrjEventView::Header(vars),
                    ),
                },
                _ => cont(with_phase(s, SrjPhase::DocValue(m))),
            }
        } else {
            fail(s, ErrKind::Json)
        },
        SrjPhase::DocValue(m) => match m {
            DocMember::Head => collect_start(s, CollectTarget::Head, t),
            DocMember::Results => if t is ObjectStart {
                cont(SrjState { phase: SrjPhase::ResLoop, results_count: None, ..s })
            } else {
                fail(s, ErrKind::Json)
            },
            DocMember::Boolean => match t {
                Tok::Bool(b) => emit(
                    SrjState {
                        phase: SrjPhase::DocAfterMember,
                        summary: Some(SrjStreamSummary { kind: SrjStreamKind::Ask, row_count: 1 }),
                        ..s
                    },
                    SrjEventView::Ask(b),
                ),
                _ => fail(s, ErrKind::Json),
            },
            DocMember::Other => collect_start(s, CollectTarget::DocSkip, t),
        },
        SrjPhase::DocAfterMember => if t is Comma {
            cont(with_phase(s, SrjPhase::DocAfterComma))
        } else if is_close(t) {
            cont(with_phase(s, SrjPhase::AfterDoc))
        } else {
            fail(s, ErrKind::Json)
        },
        SrjPhase::AfterDoc => if t is Eof {
            match s.summary {
                Some(sum) => SrjStepView {
                    state: with_phase(s, SrjPhase::Done),
                    event: None,
                    outcome: SrjOutcomeView::Finished(sum),
                },
                None => fail(s, ErrKind::MissingElement),
            }
        } else {
            fail(s, ErrKind::Json)
        },
        SrjPhase::ResLoop => res_loop(s, t),
        SrjPhase::ResAfterComma => if is_close(t) {
            fail(s, ErrKind::Json)
        } else {
            res_loop(s, t)
        },
        SrjPhase::ResColon(b) => if t is Colon {
            cont(with_phase(s, SrjPhase::ResValue(b)))
        } else {
            fail(s, ErrKind::Json)
        },
        SrjPhase::ResValue(b) => if b {
            if t is ArrayStart {
                cont(SrjState { phase: SrjPhase::BindLoop, count: 0, ..s })
            } else {
                fail(s, ErrKind::Json)
            }
        } else {
            collect_start(s, CollectTarget::ResSkip, t)
        },
        SrjPhase::ResAfterMember => if t is Comma {
            cont(with_phase(s, SrjPhase::ResAfterComma))
        } else if is_close(t) {
            results_done(s)
        } else {
            fail(s, ErrKind::Json)
        },
        SrjPhase::BindLoop => if t is ArrayEnd {
            bindings_done(s)
        } else {
            collect_start(s, CollectTarget::Row, t)
        },
        SrjPhase::BindAfterRow => if t is Comma {
            cont(with_phase(s, SrjPhase::BindAfterComma))
        } else if is_close(t) {
            bindings_done(s)
        } else {
            fail(s, ErrKind::Json)
        },
        SrjPhase::BindAfterComma => if is_close(t) {
            fail(s, ErrKind::Json)
        } else {
            collect_start(s, CollectTarget::Row, t)
        },
        SrjPhase::Collect(target) => collect_more(s, target, t),
        SrjPhase::Done => fail(s, ErrKind::Json),
    }
}

/// The error to report when reading the next token failed with `k`: a
/// value being collected that is already malformed reports its own error,
/// as a parser reading token by token would have seen it first.
pub open spec fn srj_interrupt(s: SrjState, k: ErrKind) -> ErrKind {
    match s.phase {
        SrjPhase::Collect(target) => {
            let r = match target {
                CollectTarget::Head => fail_kind(sp_parse_head(s.collected, 0)),
                CollectTarget::Row => fail_kind(sp_parse_binding(s.collected, 0)),
                _ => fail_kind(sp_skip_value(s.collected, 0)),
            };
            match r {
                Some(e) => e,
                None => k,
            }
        },
        _ => k,
    }
}

pub open spec fn fail_kind<V>(r: Parsed<V>) -> Option<ErrKind> {
    match r {
        Parsed::Failed(k) => Some(k),
        _ => None,
    }
}

} // verus!

verus! {

/// An event for the sink.
pub enum SrjEvent {
    /// The SELECT header: the declared variables.
    Header(Vec<String>),
    /// One SELECT row.
    Row(ResultRow),
    /// The ASK boolean.
    Ask(bool),
}

/// What follows the event of a step.
pub enum SrjOutcome {
    /// Read the next token.
    Continue,
    /// The document is complete.
    Finished(SrjStreamSummary),
    /// The document is invalid.
    Failed(SparqlResultsError),
}

/// The result of one step.
pub struct SrjStepOut {
    /// Delivered to the sink first, if any.
    pub event: Option<SrjEvent>,
    /// Then parsing continues, finishes or fails.
    pub outcome: SrjOutcome,
}

pub open spec fn event_view(e: SrjEvent) -> SrjEventView {
    match e {
        SrjEvent::Header(v) => SrjEventView::Header(texts(v@)),
        SrjEvent::Row(r) => SrjEventView::Row(r.entries()),
        SrjEvent::Ask(b) => SrjEventView::Ask(b),
    }
}

pub open spec fn opt_event_view(e: Option<SrjEvent>) -> Option<SrjEventView> {
    match e {
        Some(x) => Some(event_view(x)),
        None => None,
    }
}

pub open spec fn outcome_view(o: SrjOutcome) -> SrjOutcomeView {
    match o {
        SrjOutcome::Continue => SrjOutcomeView::Continue,
        SrjOutcome::Finished(s) => SrjOutcomeView::Finished(s),
        SrjOutcome::Failed(e) => SrjOutcomeView::Failed(e.kind()),
    }
}

impl SrjStepOut {
    /// This output is the event and outcome of the step view.
    pub open spec fn matches_view(&self, v: SrjStepView) -> bool {
        opt_event_view(self.event) == v.event && outcome_view(self.outcome) == v.outcome
    }
}

/// The streaming SRJ document parser.
pub struct SrjParser {
    phase: SrjPhase,
    collected: Vec<Token>,
    depth: usize,
    head: Option<Vec<String>>,
    summary: Option<SrjStreamSummary>,
    count: u64,
    results_count: Option<u64>,
}

pub open spec fn opt_texts(v: Option<Vec<String>>) -> Option<Seq<Seq<char>>> {
    match v {
        Some(x) => Some(texts(x@)),
        None => None,
    }
}

pub open spec fn opt_count(v: Option<u64>) -> Option<int> {
    match v {
        Some(x) => Some(x as int),
        None => None,
    }
}

impl SrjParser {
    /// The parser's state.
    pub closed spec fn state(&self) -> SrjState {
        SrjState {
            phase: self.phase,
            collected: toks(self.collected@),
            depth: self.depth as int,
            head: opt_texts(self.head),
            summary: self.summary,
            count: self.count as int,
            results_count: opt_count(self.results_count),
        }
    }

    /// The internal bookkeeping is consistent.
    pub closed spec fn wf(&self) -> bool {
        self.depth <= self.collected@.len()
    }

    /// A parser at the start of a document.
    pub fn new() -> (p: SrjParser)
        ensures
            p.wf(),
            p.state() == srj_initial(),
    {
        let p = SrjParser {
            phase: SrjPhase::Start,
            collected: Vec::new(),
            depth: 0,
            head: None,
            summary: None,
            count: 0,
            results_count: None,
        };
        assert(p.state().collected =~= Seq::<Tok>::empty());
        p
    }

    fn cont_out() -> (o: SrjStepOut)
        ensures
            o.event is None,
            o.outcome is Continue,
    {
        SrjStepOut { event: None, outcome: SrjOutcome::Continue }
    }

    fn fail_out(e: SparqlResultsError) -> (o: SrjStepOut)
        ensures
            o.event is None,
            outcome_view(o.outcome) == SrjOutcomeView::Failed(e.kind()),
    {
        SrjStepOut { event: None, outcome: SrjOutcome::Failed(e) }
    }

    fn doc_loop_step(&mut self, token: Token) -> (out: SrjStepOut)
        requires
            old(self).wf(),
        ensures
            final(self).wf(),
            final(self).state() == doc_loop(old(self).state(), token@).state,
            out.matches_view(doc_loop(old(self).state(), token@)),
    {
        match token {
            Token::ObjectEnd => {
                self.phase = SrjPhase::AfterDoc;
                Self::cont_out()
            },
            Token::String(k) => {
                let m = if str_is(k.as_str(), "head") {
                    DocMember::Head
                } else if str_is(k.as_str(), "results") {
                    DocMember::Results
                } else if str_is(k.as_str(), "boolean") {
                    DocMember::Boolean
                } else {
                    DocMember::Other
                };
                self.phase = SrjPhase::DocColon(m);
                Self::cont_out()
            },
            other => Self::fail_out(make_error(ErrKind::Json, expected_json_message("string", &other))),
        }
    }

    fn results_done_step(&mut self) -> (out: SrjStepOut)
        requires
            old(self).wf(),
        ensures
            final(self).wf(),
            final(self).state() == results_done(old(self).state()).state,
            out.matches_view(results_done(old(self).state())),
    {
        match self.results_count {
            None => Self::fail_out(error_with(ErrKind::MissingElement, "SRJ bindings")),
            Some(c) => {
                self.phase = SrjPhase::DocAfterMember;
                self.summary = Some(SrjStreamSummary { kind: SrjStreamKind::Select, row_count: c });
                Self::cont_out()
            },
        }
    }

    fn res_loop_step(&mut self, token: Token) -> (out: SrjStepOut)
        requires
            old(self).wf(),
        ensures
            final(self).wf(),
            final(self).state() == res_loop(old(self).state(), token@).state,
            out.matches_view(res_loop(old(self).state(), token@)),
    {
        match token {
            Token::ObjectEnd => self.results_done_step(),
            Token::String(k) => {
                self.phase = SrjPhase::ResColon(str_is(k.as_str(), "bindings"));
                Self::cont_out()
            },
            other => Self::fail_out(make_error(ErrKind::Json, expected_json_message("string", &other))),
        }
    }

    fn bindings_done_step(&mut self) -> (out: SrjStepOut)
        requires
            old(self).wf(),
        ensures
            final(self).wf(),
            final(self).state() == bindings_done(old(self).state()).state,
            out.matches_view(bindings_done(old(self).state())),
    {
        self.phase = SrjPhase::ResAfterMember;
        self.results_count = Some(self.count);
        Self::cont_out()
    }

    fn complete_step(&mut self, target: CollectTarget) -> (out: SrjStepOut)
        requires
            old(self).wf(),
        ensures
            final(self).wf(),
            final(self).state() == complete(old(self).state(), target).state,
            out.matches_view(complete(old(self).state(), target)),
    {
        let ghost s = self.state();
        match target {
            CollectTarget::Head => match parse_head(self.collected.as_slice(), 0) {
                Progress::Done(vars, _) => {
                    self.phase = SrjPhase::DocAfterMember;
                    self.head = Some(vars);
                    self.collected = Vec::new();
                    self.depth = 0;
                    assert(self.state().collected =~= Seq::<Tok>::empty());
                    Self::cont_out()
                },
                Progress::Failed(e) => {
                    self.clear_collected();
                    Self::fail_out(e)
                },
                Progress::Incomplete => {
                    self.clear_collected();
                    Self::fail_out(error_with(ErrKind::Json, "unexpected end of SRJ value"))
                },
            },
            CollectTarget::DocSkip | CollectTarget::ResSkip => match skip_value(self.collected.as_slice(), 0) {
                Progress::Done(_, _) => {
                    self.phase = if target == CollectTarget::DocSkip {
                        SrjPhase::DocAfterMember
                    } else {
                        SrjPhase::ResAfterMember
                    };
                    self.collected = Vec::new();
                    self.depth = 0;
                    assert(self.state().collected =~= Seq::<Tok>::empty());
                    Self::cont_out()
                },
                Progress::Failed(e) => {
                    self.clear_collected();
                    Self::fail_out(e)
                },
                Progress::Incomplete => {
                    self.clear_collected();
                    Self::fail_out(error_with(ErrKind::Json, "unexpected end of SRJ value"))
                },
            },
            CollectTarget::Row => match parse_binding(self.collected.as_slice(), 0) {
                Progress::Done(row, _) => {
                    self.phase = SrjPhase::BindAfterRow;
                    self.collected = Vec::new();
                    self.depth = 0;
                    assert(self.state().collected =~= Seq::<Tok>::empty());
                    if self.count == u64::MAX {
                        SrjStepOut {
                            event: Some(SrjEvent::Row(row)),
                            outcome: SrjOutcome::Failed(error_with(ErrKind::InvalidDocument, "SRJ row count overflow")),
                        }
                    } else {
                        self.count = self.count + 1;
                        SrjStepOut { event: Some(SrjEvent::Row(row)), outcome: SrjOutcome::Continue }
                    }
                },
                Progress::Failed(e) => {
                    self.clear_collected();
                    Self::fail_out(e)
                },
                Progress::Incomplete => {
                    self.clear_collected();
                    Self::fail_out(error_with(ErrKind::Json, "unexpected end of SRJ value"))
                },
            },
        }
    }

    fn clear_collected(&mut self)
        ensures
            final(self).wf(),
            final(self).state() == (SrjState { collected: seq![], depth: 0, ..old(self).state() }),
    {
        self.collected = Vec::new();
        self.depth = 0;
        assert(toks(self.collected@) =~= Seq::<Tok>::empty());
    }

    #[verifier::rlimit(30)]
    fn collect_more_step(&mut self, target: CollectTarget, token: Token) -> (out: SrjStepOut)
        requires
            old(self).wf(),
        ensures
            final(self).wf(),
            final(self).state() == collect_more(old(self).state(), target, token@).state,
            out.matches_view(collect_more(old(self).state(), target, token@)),
    {
        let ghost s = self.state();
        let ghost t = token@;
        // 0: opening bracket, 1: closing bracket, 2: end of input, 3: other
        let class: u8 = match &token {
            Token::ObjectStart | Token::ArrayStart => 0,
            Token::ObjectEnd | Token::ArrayEnd => 1,
            Token::Eof => 2,
            _ => 3,
        };
        assert(class == 0 <==> is_open(t));
        assert(class == 1 <==> is_close(t));
        assert(class == 2 <==> t is Eof);
        let ghost before = self.collected@;
        self.collected.push(token);
        assert(toks(self.collected@) =~= toks(before).push(t));
        let n = self.collected.len();
        self.phase = SrjPhase::Collect(target);
        let finished = class == 2 || (class == 1 && self.depth <= 1) || (class == 3 && self.depth == 0);
        if finished {
            self.depth = 0;
            self.complete_step(target)
        } else {
            if class == 0 {
                self.depth = self.depth + 1;
            } else if class == 1 {
                self.depth = self.depth - 1;
            }
            Self::cont_out()
        }
    }

    fn collect_start_step(&mut self, target: CollectTarget, token: Token) -> (out: SrjStepOut)
        requires
            old(self).wf(),
        ensures
            final(self).wf(),
            final(self).state() == collect_start(old(self).state(), target, token@).state,
            out.matches_view(collect_start(old(self).state(), target, token@)),
    {
        self.collected = Vec::new();
        self.depth = 0;
        assert(toks(self.collected@) =~= Seq::<Tok>::empty());
        self.collect_more_step(target, token)
    }
}


impl SrjParser {
    /// One step of the parser on `token`; the caller delivers the returned
    /// event to its sink before it reads the next token.
    #[verifier::rlimit(40)]
    pub fn step(&mut self, token: Token) -> (out: SrjStepOut)
        requires
            old(self).wf(),
        ensures
            final(self).wf(),
            final(self).state() == srj_step(old(self).state(), token@).state,
            out.matches_view(srj_step(old(self).state(), token@)),
    {
        match self.phase {
            SrjPhase::Start => match token {
                Token::ObjectStart => {
                    self.phase = SrjPhase::DocLoop;
                    Self::cont_out()
                },
                other => Self::fail_out(
                    make_error(ErrKind::Json, expected_kind_message(TokenKind::ObjectStart, &other)),
                ),
            },
            SrjPhase::DocLoop => self.doc_loop_step(token),
            SrjPhase::DocAfterComma => match token {
                Token::ObjectEnd | Token::ArrayEnd => Self::fail_out(
                    error_with(ErrKind::Json, "trailing comma in SRJ document"),
                ),
                other => self.doc_loop_step(other),
            },
            SrjPhase::DocColon(m) => match token {
                Token::Colon => match m {
                    DocMember::Results => match self.head.take() {
                        None => Self::fail_out(
                            error_with(ErrKind::InvalidDocument, "SRJ results appeared before head"),
                        ),
                        Some(vars) => {
                            self.phase = SrjPhase::DocValue(DocMember::Results);
                            SrjStepOut { event: Some(SrjEvent::Header(vars)), outcome: SrjOutcome::Continue }
                        },
                    },
                    _ => {
                        self.phase = SrjPhase::DocValue(m);
                        Self::cont_out()
                    },
                },
                other => Self::fail_out(
                    make_error(ErrKind::Json, expected_kind_message(TokenKind::Colon, &other)),
                ),
            },
            SrjPhase::DocValue(m) => match m {
                DocMember::Head => self.collect_start_step(CollectTarget::Head, token),
                DocMember::Results => match token {
                    Token::ObjectStart => {
                        self.phase = SrjPhase::ResLoop;
                        self.results_count = None;
                        Self::cont_out()
                    },
                    other => Self::fail_out(
                        make_error(ErrKind::Json, expected_kind_message(TokenKind::ObjectStart, &other)),
                    ),
                },
                DocMember::Boolean => match token {
                    Token::Bool(b) => {
                        self.phase = SrjPhase::DocAfterMember;
                        self.summary = Some(SrjStreamSummary { kind: SrjStreamKind::Ask, row_count: 1 });
                        SrjStepOut { event: Some(SrjEvent::Ask(b)), outcome: SrjOutcome::Continue }
                    },
                    other => Self::fail_out(make_error(ErrKind::Json, expected_json_message("boolean", &other))),
                },
                DocMember::Other => self.collect_start_step(CollectTarget::DocSkip, token),
            },
            SrjPhase::DocAfterMember => match token {
                Token::Comma => {
                    self.phase = SrjPhase::DocAfterComma;
                    Self::cont_out()
                },
                Token::ObjectEnd | Token::ArrayEnd => {
                    self.phase = SrjPhase::AfterDoc;
                    Self::cont_out()
                },
                _ => Self::fail_out(error_with(ErrKind::Json, "expected comma or closing delimiter")),
            },
            SrjPhase::AfterDoc => match token {
                Token::Eof => match self.summary {
                    Some(sum) => {
                        self.phase = SrjPhase::Done;
                        SrjStepOut { event: None, outcome: SrjOutcome::Finished(sum) }
                    },
                    None => Self::fail_out(error_with(ErrKind::MissingElement, "SRJ results or boolean")),
                },
                other => Self::fail_out(make_error(ErrKind::Json, trailing_json_message(&other))),
            },
            SrjPhase::ResLoop => self.res_loop_step(token),
            SrjPhase::ResAfterComma => match token {
                Token::ObjectEnd | Token::ArrayEnd => Self::fail_out(
                    error_with(ErrKind::Json, "trailing comma in SRJ document"),
                ),
                other => self.res_loop_step(other),
            },
            SrjPhase::ResColon(b) => match token {
                Token::Colon => {
                    self.phase = SrjPhase::ResValue(b);
                    Self::cont_out()
                },
                other => Self::fail_out(
                    make_error(ErrKind::Json, expected_kind_message(TokenKind::Colon, &other)),
                ),
            },
            SrjPhase::ResValue(b) => if b {
                match token {
                    Token::ArrayStart => {
                        self.phase = SrjPhase::BindLoop;
                        self.count = 0;
                        Self::cont_out()
                    },
                    other => Self::fail_out(
                        make_error(ErrKind::Json, expected_kind_message(TokenKind::ArrayStart, &other)),
                    ),
                }
            } else {
                self.collect_start_step(CollectTarget::ResSkip, token)
            },
            SrjPhase::ResAfterMember => match token {
                Token::Comma => {
                    self.phase = SrjPhase::ResAfterComma;
                    Self::cont_out()
                },
                Token::ObjectEnd | Token::ArrayEnd => self.results_done_step(),
                _ => Self::fail_out(error_with(ErrKind::Json, "expected comma or closing delimiter")),
            },
            SrjPhase::BindLoop => match token {
                Token::ArrayEnd => self.bindings_done_step(),
                other => self.collect_start_step(CollectTarget::Row, other),
            },
            SrjPhase::BindAfterRow => match token {
                Token::Comma => {
                    self.phase = SrjPhase::BindAfterComma;
                    Self::cont_out()
                },
                Token::ObjectEnd | Token::ArrayEnd => self.bindings_done_step(),
                _ => Self::fail_out(error_with(ErrKind::Json, "expected comma or closing delimiter")),
            },
            SrjPhase::BindAfterComma => match token {
                Token::ObjectEnd | Token::ArrayEnd => Self::fail_out(
                    error_with(ErrKind::Json, "trailing comma in SRJ document"),
                ),
                other => self.collect_start_step(CollectTarget::Row, other),
            },
            SrjPhase::Collect(target) => self.collect_more_step(target, token),
            SrjPhase::Done => Self::fail_out(error_with(ErrKind::Json, "SRJ document already complete")),
        }
    }

    /// The error to report when reading the next token failed with `err`.
    pub fn interrupted(&self, err: SparqlResultsError) -> (e: SparqlResultsError)
        requires
            self.wf(),
        ensures
            e.kind() == srj_interrupt(self.state(), err.kind()),
    {
        match self.phase {
            SrjPhase::Collect(target) => {
                let r = match target {
                    CollectTarget::Head => match parse_head(self.collected.as_slice(), 0) {
                        Progress::Failed(e) => Some(e),
                        _ => None,
                    },
                    CollectTarget::Row => match parse_binding(self.collected.as_slice(), 0) {
                        Progress::Failed(e) => Some(e),
                        _ => None,
                    },
                    _ => match skip_value(self.collected.as_slice(), 0) {
                        Progress::Failed(e) => Some(e),
                        _ => None,
                    },
                };
                match r {
                    Some(e) => e,
                    None => err,
                }
            },
            _ => err,
        }
    }
}

} // verus!
