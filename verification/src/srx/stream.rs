//! The streaming SRX document parser: a state machine fed one XML event at
//! a time. Each step yields the next state, an optional event for the sink
//! and whether parsing continues, finished or failed. A `<result>`,
//! `<boolean>` or `<link>` element is collected event by event until it is
//! complete, so memory holds at most one row; a row is parsed once, when
//! its end tag (or the end of input) arrives.

use vstd::prelude::*;
use vstd::utf8::*;

use crate::error::{error_with, ErrKind, SparqlResultsError};
use crate::messages::{event_message, prefixed_bytes_message};
use crate::srj::document::{texts, Progress};
use crate::srj::grammar::Parsed;
use crate::srx::event::{local_name, local_name_is, required_attr, required_attr_of, XEv, XmlEvent, evs};
use crate::srx::grammar::{expect_end, nm, parse_row, read_text, sx_expect_end, sx_read_text, sx_row};
use crate::srx::text::{boolean_of, parse_boolean};
use crate::types::{new_bindings, ResultRow, Term};

verus! {

/// Streaming SRX result shape.
#[derive(Debug, Clone, Copy, PartialEq, Eq, Structural)]
pub enum SrxStreamKind {
    /// SELECT result set.
    Select,
    /// ASK boolean result.
    Ask,
}

/// Summary returned after a streaming SRX parse completes.
#[derive(Debug, Clone, Copy, PartialEq, Eq, Structural)]
pub struct SrxStreamSummary {
    /// Parsed result shape.
    pub kind: SrxStreamKind,
    /// Number of rows emitted; ASK counts as one boolean event.
    pub row_count: u64,
}

/// An element whose events are being collected.
#[derive(Debug, Clone, Copy, PartialEq, Eq, Structural)]
pub enum SrxCollect {
    /// A `<link>`, skipped to its end tag.
    Link,
    /// A `<result>` row.
    Row,
    /// A `<boolean>` value.
    Boolean,
}

/// Where the parser stands.
#[derive(Debug, Clone, Copy, PartialEq, Eq, Structural)]
pub enum SrxPhase {
    Top,
    Collect(SrxCollect),
    Done,
}

/// The parser's state.
pub struct SrxState {
    pub phase: SrxPhase,
    pub collected: Seq<XEv>,
    pub vars: Seq<Seq<char>>,
    pub row_count: int,
    pub saw_results: bool,
    pub header_sent: bool,
    pub boolean: Option<bool>,
    pub root_closed: bool,
    pub results_closed: bool,
}

/// An event for the sink.
pub enum SrxEventView {
    Header(Seq<Seq<char>>),
    Row(Seq<(Seq<char>, Term)>),
    Ask(bool),
}

/// What follows the event of a step.
pub enum SrxOutcomeView {
    Continue,
    Finished(SrxStreamSummary),
    Failed(ErrKind),
}

/// One step: the next state, an optional event for the sink (delivered
/// first), and whether parsing continues, finished or failed.
pub struct SrxStepView {
    pub state: SrxState,
    pub event: Option<SrxEventView>,
    pub outcome: SrxOutcomeView,
}

pub open spec fn srx_initial() -> SrxState {
    SrxState {
        phase: SrxPhase::Top,
        collected: seq![],
        vars: seq![],
        row_count: 0,
        saw_results: false,
        header_sent: false,
        boolean: None,
        root_closed: false,
        results_closed: false,
    }
}

pub open spec fn x_cont(s: SrxState) -> SrxStepView {
    SrxStepView { state: s, event: None, outcome: SrxOutcomeView::Continue }
}

pub open spec fn x_fail(s: SrxState, k: ErrKind) -> SrxStepView {
    SrxStepView { state: s, event: None, outcome: SrxOutcomeView::Failed(k) }
}

/// The summary at the end of the input, or why the document is incomplete.
pub open spec fn summary_of(
    root_closed: bool,
    saw_results: bool,
    results_closed: bool,
    boolean: Option<bool>,
    row_count: u64,
) -> Result<SrxStreamSummary, ErrKind> {
    if !root_closed {
        Err(ErrKind::MissingElement)
    } else if saw_results && !results_closed {
        Err(ErrKind::MissingElement)
    } else if boolean is Some {
        Ok(SrxStreamSummary { kind: SrxStreamKind::Ask, row_count: 1 })
    } else if saw_results {
        Ok(SrxStreamSummary { kind: SrxStreamKind::Select, row_count })
    } else {
        Err(ErrKind::MissingElement)
    }
}

/// Checks that the document was complete and summarizes it.
pub fn finish_summary(
    root_closed: bool,
    saw_results: bool,
    results_closed: bool,
    boolean: Option<bool>,
    row_count: u64,
) -> (r: Result<SrxStreamSummary, SparqlResultsError>)
    ensures
        match summary_of(root_closed, saw_results, results_closed, boolean, row_count) {
            Ok(sum) => r == Ok::<SrxStreamSummary, SparqlResultsError>(sum),
            Err(k) => r matches Err(e) && e.kind() == k,
        },
{
    if !root_closed {
        return Err(error_with(ErrKind::MissingElement, "closing SRX sparql"));
    }
    if saw_results && !results_closed {
        return Err(error_with(ErrKind::MissingElement, "closing SRX results"));
    }
    if boolean.is_some() {
        Ok(SrxStreamSummary { kind: SrxStreamKind::Ask, row_count: 1 })
    } else if saw_results {
        Ok(SrxStreamSummary { kind: SrxStreamKind::Select, row_count })
    } else {
        Err(error_with(ErrKind::MissingElement, "SRX results or boolean"))
    }
}

/// `<results>` opened or found empty: the header goes out once.
pub open spec fn results_seen(s: SrxState, closed: bool) -> SrxStepView {
    let s2 = SrxState {
        saw_results: true,
        header_sent: true,
        results_closed: if closed {
            true
        } else {
            s.results_closed
        },
        ..s
    };
    if s.header_sent {
        x_cont(s2)
    } else {
        SrxStepView { state: s2, event: Some(SrxEventView::Header(s.vars)), outcome: SrxOutcomeView::Continue }
    }
}

pub open spec fn start_collect(s: SrxState, c: SrxCollect) -> SrxStepView {
    x_cont(SrxState { phase: SrxPhase::Collect(c), collected: seq![], ..s })
}

/// A complete row goes to the sink and is counted; the count overflowing
/// is an invalid document.
pub open spec fn row_done(s: SrxState, top: SrxState, row: Seq<(Seq<char>, Term)>) -> SrxStepView {
    if s.row_count + 1 > u64::MAX {
        SrxStepView { state: top, event: Some(SrxEventView::Row(row)), outcome: SrxOutcomeView::Failed(ErrKind::InvalidDocument) }
    } else {
        SrxStepView {
            state: SrxState { row_count: s.row_count + 1, ..top },
            event: Some(SrxEventView::Row(row)),
            outcome: SrxOutcomeView::Continue,
        }
    }
}

/// An event after which a collected row may be complete: the end of a
/// `<result>` or of the input. A row is parsed only then, since a row
/// completes only at its end tag and an error inside it shows in the parse
/// of any longer run of events.
pub open spec fn closes_row(e: XEv) -> bool {
    match e {
        XEv::End(n) => local_name(n) == nm("result"),
        XEv::Eof => true,
        _ => false,
    }
}

/// One step at the top level of the document.
pub open spec fn top_step(s: SrxState, e: XEv) -> SrxStepView {
    match e {
        XEv::Start(t) => {
            let n = local_name(t.name);
            if n == nm("sparql") || n == nm("head") {
                x_cont(s)
            } else if n == nm("link") {
                start_collect(s, SrxCollect::Link)
            } else if n == nm("results") {
                results_seen(s, false)
            } else if n == nm("result") {
                start_collect(s, SrxCollect::Row)
            } else if n == nm("boolean") {
                start_collect(s, SrxCollect::Boolean)
            } else if n == nm("variable") {
                match required_attr(t, nm("name")) {
                    Ok(v) => x_cont(SrxState { vars: s.vars.push(v), ..s }),
                    Err(k) => x_fail(s, k),
                }
            } else {
                x_fail(s, ErrKind::UnexpectedElement)
            }
        },
        XEv::Empty(t) => {
            let n = local_name(t.name);
            if n == nm("head") || n == nm("link") {
                x_cont(s)
            } else if n == nm("variable") {
                match required_attr(t, nm("name")) {
                    Ok(v) => x_cont(SrxState { vars: s.vars.push(v), ..s }),
                    Err(k) => x_fail(s, k),
                }
            } else if n == nm("results") {
                results_seen(s, true)
            } else if n == nm("result") {
                row_done(s, s, seq![])
            } else {
                x_fail(s, ErrKind::UnexpectedElement)
            }
        },
        XEv::Eof => match summary_of(
            s.root_closed,
            s.saw_results,
            s.results_closed,
            s.boolean,
            s.row_count as u64,
        ) {
            Ok(sum) => SrxStepView {
                state: SrxState { phase: SrxPhase::Done, ..s },
                event: None,
                outcome: SrxOutcomeView::Finished(sum),
            },
            Err(k) => x_fail(s, k),
        },
        XEv::End(n) => if local_name(n) == nm("sparql") {
            x_cont(SrxState { root_closed: true, ..s })
        } else if local_name(n) == nm("results") {
            x_cont(SrxState { results_closed: true, ..s })
        } else {
            x_cont(s)
        },
        _ => x_cont(s),
    }
}

/// One step while an element is collected.
pub open spec fn collect_step(s: SrxState, c: SrxCollect, e: XEv) -> SrxStepView {
    let col = s.collected.push(e);
    let top = SrxState { phase: SrxPhase::Top, collected: seq![], ..s };
    let more = SrxState { collected: col, ..s };
    match c {
        SrxCollect::Link => match sx_expect_end(col, 0, nm("link")) {
            Parsed::Done(_, _) => x_cont(top),
            Parsed::Failed(k) => x_fail(more, k),
            Parsed::Incomplete => x_cont(more),
        },
        SrxCollect::Row => if closes_row(e) {
            match sx_row(col, 0, seq![]) {
                Parsed::Done(row, _) => row_done(s, top, row),
                Parsed::Failed(k) => x_fail(more, k),
                Parsed::Incomplete => x_cont(more),
            }
        } else {
            x_cont(more)
        },
        SrxCollect::Boolean => match sx_read_text(col, 0, nm("boolean"), seq![]) {
            Parsed::Done(text, _) => match boolean_of(text) {
                Ok(b) => SrxStepView {
                    state: SrxState { boolean: Some(b), ..top },
                    event: Some(SrxEventView::Ask(b)),
                    outcome: if s.boolean is Some {
                        SrxOutcomeView::Failed(ErrKind::InvalidDocument)
                    } else {
                        SrxOutcomeView::Continue
                    },
                },
                Err(k) => x_fail(more, k),
            },
            Parsed::Failed(k) => x_fail(more, k),
            Parsed::Incomplete => x_cont(more),
        },
    }
}

/// The error kind to report when reading the next event failed with `k`:
/// the failure of a row collected so far comes first.
pub open spec fn srx_interrupt(s: SrxState, k: ErrKind) -> ErrKind {
    match s.phase {
        SrxPhase::Collect(SrxCollect::Row) => match sx_row(s.collected, 0, seq![]) {
            Parsed::Failed(e) => e,
            _ => k,
        },
        _ => k,
    }
}

/// Text, comments and processing instructions between the elements of a
/// document are skipped: the parser continues in the same state.
pub proof fn lemma_top_skips_text(s: SrxState, e: XEv)
    requires
        s.phase == SrxPhase::Top,
        e is Text || e is Comment || e is PI || e is Decl || e is DocType,
    ensures
        srx_step(s, e) == x_cont(s),
{
}

/// One step of the SRX document parser on event `e`.
pub open spec fn srx_step(s: SrxState, e: XEv) -> SrxStepView {
    match s.phase {
        SrxPhase::Top => top_step(s, e),
        SrxPhase::Collect(c) => collect_step(s, c, e),
        SrxPhase::Done => x_fail(s, ErrKind::Xml),
    }
}

} // verus!

verus! {

/// An event for the sink.
pub enum SrxEvent {
    /// The SELECT header: the declared variables.
    Header(Vec<String>),
    /// One SELECT row.
    Row(ResultRow),
    /// The ASK boolean.
    Ask(bool),
}

/// What follows the event of a step.
pub enum SrxOutcome {
    /// Read the next event.
    Continue,
    /// The document is complete.
    Finished(SrxStreamSummary),
    /// The document is invalid.
    Failed(SparqlResultsError),
}

/// The result of one step.
pub struct SrxStepOut {
    /// Delivered to the sink first, if any.
    pub event: Option<SrxEvent>,
    /// Then parsing continues, finishes or fails.
    pub outcome: SrxOutcome,
}

pub open spec fn srx_event_view(e: SrxEvent) -> SrxEventView {
    match e {
        SrxEvent::Header(v) => SrxEventView::Header(texts(v@)),
        SrxEvent::Row(r) => SrxEventView::Row(r.entries()),
        SrxEvent::Ask(b) => SrxEventView::Ask(b),
    }
}

pub open spec fn srx_opt_event_view(e: Option<SrxEvent>) -> Option<SrxEventView> {
    match e {
        Some(x) => Some(srx_event_view(x)),
        None => None,
    }
}

pub open spec fn srx_outcome_view(o: SrxOutcome) -> SrxOutcomeView {
    match o {
        SrxOutcome::Continue => SrxOutcomeView::Continue,
        SrxOutcome::Finished(s) => SrxOutcomeView::Finished(s),
        SrxOutcome::Failed(e) => SrxOutcomeView::Failed(e.kind()),
    }
}

impl SrxStepOut {
    /// This output is the event and outcome of the step view.
    pub open spec fn matches_view(&self, v: SrxStepView) -> bool {
        srx_opt_event_view(self.event) == v.event && srx_outcome_view(self.outcome) == v.outcome
    }
}

/// Copies of a list of texts.
pub fn clone_texts(v: &Vec<String>) -> (r: Vec<String>)
    ensures
        texts(r@) == texts(v@),
{
    let mut r: Vec<String> = Vec::new();
    let mut i: usize = 0;
    while i < v.len()
        invariant
            0 <= i <= v@.len(),
            texts(r@) == texts(v@.subrange(0, i as int)),
        decreases v@.len() - i,
    {
        r.push(v[i].clone());
        i = i + 1;
        assert(texts(v@.subrange(0, i as int)) =~= texts(v@.subrange(0, i - 1)).push(v@[i - 1]@));
        assert(texts(r@) =~= texts(v@.subrange(0, i - 1)).push(v@[i - 1]@));
    }
    assert(v@.subrange(0, v@.len() as int) =~= v@);
    r
}

/// The streaming SRX document parser.
pub struct SrxParser {
    phase: SrxPhase,
    collected: Vec<XmlEvent>,
    vars: Vec<String>,
    row_count: u64,
    saw_results: bool,
    header_sent: bool,
    boolean: Option<bool>,
    root_closed: bool,
    results_closed: bool,
}

impl SrxParser {
    /// The parser's state.
    pub closed spec fn state(&self) -> SrxState {
        SrxState {
            phase: self.phase,
            collected: evs(self.collected@),
            vars: texts(self.vars@),
            row_count: self.row_count as int,
            saw_results: self.saw_results,
            header_sent: self.header_sent,
            boolean: self.boolean,
            root_closed: self.root_closed,
            results_closed: self.results_closed,
        }
    }

    /// A parser at the start of a document.
    pub fn new() -> (p: SrxParser)
        ensures
            p.state() == srx_initial(),
    {
        let p = SrxParser {
            phase: SrxPhase::Top,
            collected: Vec::new(),
            vars: Vec::new(),
            row_count: 0,
            saw_results: false,
            header_sent: false,
            boolean: None,
            root_closed: false,
            results_closed: false,
        };
        assert(p.state().collected =~= Seq::<XEv>::empty());
        assert(p.state().vars =~= Seq::<Seq<char>>::empty());
        p
    }

    fn cont_out() -> (o: SrxStepOut)
        ensures
            o.event is None,
            o.outcome is Continue,
    {
        SrxStepOut { event: None, outcome: SrxOutcome::Continue }
    }

    fn fail_out(e: SparqlResultsError) -> (o: SrxStepOut)
        ensures
            o.event is None,
            srx_outcome_view(o.outcome) == SrxOutcomeView::Failed(e.kind()),
    {
        SrxStepOut { event: None, outcome: SrxOutcome::Failed(e) }
    }

    fn results_seen_step(&mut self, closed: bool) -> (out: SrxStepOut)
        ensures
            final(self).state() == results_seen(old(self).state(), closed).state,
            out.matches_view(results_seen(old(self).state(), closed)),
    {
        let event = if self.header_sent {
            None
        } else {
            Some(SrxEvent::Header(clone_texts(&self.vars)))
        };
        self.saw_results = true;
        self.header_sent = true;
        if closed {
            self.results_closed = true;
        }
        SrxStepOut { event, outcome: SrxOutcome::Continue }
    }

    fn start_collect_step(&mut self, c: SrxCollect) -> (out: SrxStepOut)
        ensures
            final(self).state() == start_collect(old(self).state(), c).state,
            out.matches_view(start_collect(old(self).state(), c)),
    {
        self.phase = SrxPhase::Collect(c);
        self.collected = Vec::new();
        assert(evs(self.collected@) =~= Seq::<XEv>::empty());
        Self::cont_out()
    }

    /// A `<variable>` declares the variable its `name` attribute holds.
    fn variable_step(&mut self, t: &crate::srx::event::XmlTag) -> (out: SrxStepOut)
        ensures
            final(self).state() == match required_attr(t@, nm("name")) {
                Ok(v) => SrxState { vars: old(self).state().vars.push(v), ..old(self).state() },
                Err(_) => old(self).state(),
            },
            out.event is None,
            srx_outcome_view(out.outcome) == match required_attr(t@, nm("name")) {
                Ok(_) => SrxOutcomeView::Continue,
                Err(k) => SrxOutcomeView::Failed(k),
            },
    {
        match required_attr_of(t, "name") {
            Ok(v) => {
                self.vars.push(v);
                proof {
                    assert(texts(self.vars@) =~= texts(old(self).vars@).push(v@));
                }
                Self::cont_out()
            },
            Err(e) => Self::fail_out(e),
        }
    }

    /// A complete row goes out and is counted.
    fn row_done_step(&mut self, row: ResultRow) -> (out: SrxStepOut)
        ensures
            final(self).state() == row_done(old(self).state(), old(self).state(), row.entries()).state,
            out.matches_view(row_done(old(self).state(), old(self).state(), row.entries())),
    {
        if self.row_count == u64::MAX {
            SrxStepOut {
                event: Some(SrxEvent::Row(row)),
                outcome: SrxOutcome::Failed(error_with(ErrKind::InvalidDocument, "SRX row count overflow")),
            }
        } else {
            self.row_count = self.row_count + 1;
            SrxStepOut { event: Some(SrxEvent::Row(row)), outcome: SrxOutcome::Continue }
        }
    }

    #[verifier::rlimit(40)]
    fn top_step_exec(&mut self, event: XmlEvent) -> (out: SrxStepOut)
        requires
            old(self).phase == SrxPhase::Top,
        ensures
            final(self).state() == top_step(old(self).state(), event@).state,
            out.matches_view(top_step(old(self).state(), event@)),
    {
        match event {
            XmlEvent::Start(t) => {
                let name = t.name.as_slice();
                if local_name_is(name, "sparql") || local_name_is(name, "head") {
                    Self::cont_out()
                } else if local_name_is(name, "link") {
                    self.start_collect_step(SrxCollect::Link)
                } else if local_name_is(name, "results") {
                    self.results_seen_step(false)
                } else if local_name_is(name, "result") {
                    self.start_collect_step(SrxCollect::Row)
                } else if local_name_is(name, "boolean") {
                    self.start_collect_step(SrxCollect::Boolean)
                } else if local_name_is(name, "variable") {
                    self.variable_step(&t)
                } else {
                    let k = crate::srx::event::local_start(name);
                    Self::fail_out(
                        crate::error::make_error(ErrKind::UnexpectedElement, prefixed_bytes_message("", &name[k..name.len()])),
                    )
                }
            },
            XmlEvent::Empty(t) => {
                let name = t.name.as_slice();
                if local_name_is(name, "head") || local_name_is(name, "link") {
                    Self::cont_out()
                } else if local_name_is(name, "variable") {
                    self.variable_step(&t)
                } else if local_name_is(name, "results") {
                    self.results_seen_step(true)
                } else if local_name_is(name, "result") {
                    self.row_done_step(ResultRow { bindings: new_bindings() })
                } else {
                    let k = crate::srx::event::local_start(name);
                    Self::fail_out(
                        crate::error::make_error(ErrKind::UnexpectedElement, prefixed_bytes_message("", &name[k..name.len()])),
                    )
                }
            },
            XmlEvent::Eof => {
                match finish_summary(
                    self.root_closed,
                    self.saw_results,
                    self.results_closed,
                    self.boolean,
                    self.row_count,
                ) {
                    Ok(sum) => {
                        self.phase = SrxPhase::Done;
                        SrxStepOut { event: None, outcome: SrxOutcome::Finished(sum) }
                    },
                    Err(e) => Self::fail_out(e),
                }
            },
            XmlEvent::End(n) => {
                if local_name_is(n.as_slice(), "sparql") {
                    self.root_closed = true;
                } else if local_name_is(n.as_slice(), "results") {
                    self.results_closed = true;
                }
                Self::cont_out()
            },
            _ => Self::cont_out(),
        }
    }

    #[verifier::rlimit(40)]
    fn collect_step_exec(&mut self, c: SrxCollect, event: XmlEvent) -> (out: SrxStepOut)
        requires
            old(self).phase == SrxPhase::Collect(c),
        ensures
            final(self).state() == collect_step(old(self).state(), c, event@).state,
            out.matches_view(collect_step(old(self).state(), c, event@)),
    {
        let ghost e = event@;
        let closes = match &event {
            XmlEvent::End(n) => local_name_is(n.as_slice(), "result"),
            XmlEvent::Eof => true,
            _ => false,
        };
        self.collected.push(event);
        proof {
            assert(evs(self.collected@) =~= evs(old(self).collected@).push(e));
        }
        match c {
            SrxCollect::Link => match expect_end(self.collected.as_slice(), 0, "link") {
                Progress::Done(_, _) => {
                    self.phase = SrxPhase::Top;
                    self.collected = Vec::new();
                    assert(evs(self.collected@) =~= Seq::<XEv>::empty());
                    Self::cont_out()
                },
                Progress::Failed(err) => Self::fail_out(err),
                Progress::Incomplete => Self::cont_out(),
            },
            SrxCollect::Row => if !closes {
                Self::cont_out()
            } else {
                match parse_row(self.collected.as_slice(), 0) {
                    Progress::Done(row, _) => {
                        self.phase = SrxPhase::Top;
                        self.collected = Vec::new();
                        assert(evs(self.collected@) =~= Seq::<XEv>::empty());
                        self.row_done_step(row)
                    },
                    Progress::Failed(err) => Self::fail_out(err),
                    Progress::Incomplete => Self::cont_out(),
                }
            },
            SrxCollect::Boolean => match read_text(self.collected.as_slice(), 0, "boolean") {
                Progress::Done(text, _) => match parse_boolean(text.as_slice()) {
                    Ok(b) => {
                        let was = self.boolean.is_some();
                        self.boolean = Some(b);
                        self.phase = SrxPhase::Top;
                        self.collected = Vec::new();
                        assert(evs(self.collected@) =~= Seq::<XEv>::empty());
                        let outcome = if was {
                            SrxOutcome::Failed(
                                error_with(ErrKind::InvalidDocument, "SRX contains multiple boolean results"),
                            )
                        } else {
                            SrxOutcome::Continue
                        };
                        SrxStepOut { event: Some(SrxEvent::Ask(b)), outcome }
                    },
                    Err(err) => Self::fail_out(err),
                },
                Progress::Failed(err) => Self::fail_out(err),
                Progress::Incomplete => Self::cont_out(),
            },
        }
    }

    /// The error to report when reading the next XML event failed with
    /// `err`: a row collected so far that is already invalid is reported
    /// first, as it would have been at the event that made it invalid.
    pub fn interrupted(&self, err: SparqlResultsError) -> (e: SparqlResultsError)
        ensures
            e.kind() == srx_interrupt(self.state(), err.kind()),
    {
        match self.phase {
            SrxPhase::Collect(SrxCollect::Row) => match parse_row(self.collected.as_slice(), 0) {
                Progress::Failed(e) => e,
                _ => err,
            },
            _ => err,
        }
    }

    /// One step of the parser on `event`; the caller delivers the returned
    /// event to its sink before it reads the next XML event.
    pub fn step(&mut self, event: XmlEvent) -> (out: SrxStepOut)
        ensures
            final(self).state() == srx_step(old(self).state(), event@).state,
            out.matches_view(srx_step(old(self).state(), event@)),
    {
        match self.phase {
            SrxPhase::Top => self.top_step_exec(event),
            SrxPhase::Collect(c) => self.collect_step_exec(c, event),
            SrxPhase::Done => Self::fail_out(error_with(ErrKind::Xml, "SRX document already complete")),
        }
    }
}

} // verus!
