//! Parsing a complete SRJ document held in memory: the tokenizer and the
//! streaming parser driven to the end, with every event collected.

use vstd::prelude::*;

use crate::error::{error_with, ErrKind, SparqlResultsError};
use crate::srj::document::texts;
use crate::srj::serialize::rows_entries;
use crate::srj::stream::{
    srj_initial, srj_interrupt, srj_step, opt_event_view, SrjEvent, SrjEventView, SrjOutcome, SrjOutcomeView, SrjParser,
    SrjState,
};
use crate::srj::token::{scan_token, spec_scan, ScanView, Scanned, Tok};
use crate::types::{ResultRow, SparqlResult, Term};

verus! {

/// A result as plain values: the variables and the rows' entries of a
/// SELECT, or the boolean of an ASK.
pub enum ResultView {
    Select { vars: Seq<Seq<char>>, rows: Seq<Seq<(Seq<char>, Term)>> },
    Ask(bool),
}

/// The plain value of a result.
pub open spec fn result_view(r: SparqlResult) -> ResultView {
    match r {
        SparqlResult::Select { vars, rows } => ResultView::Select { vars: texts(vars@), rows: rows_entries(rows@) },
        SparqlResult::Ask { result } => ResultView::Ask(result),
    }
}

/// What a collecting sink has received so far: the last header, every
/// row, and the ASK boolean if one came.
pub struct CollectedView {
    pub vars: Seq<Seq<char>>,
    pub rows: Seq<Seq<(Seq<char>, Term)>>,
    pub ask: Option<bool>,
}

pub open spec fn collected_initial() -> CollectedView {
    CollectedView { vars: seq![], rows: seq![], ask: None }
}

/// The collecting sink after one event.
pub open spec fn collect_event(c: CollectedView, e: Option<SrjEventView>) -> CollectedView {
    match e {
        None => c,
        Some(SrjEventView::Header(v)) => CollectedView { vars: v, ..c },
        Some(SrjEventView::Row(r)) => CollectedView { rows: c.rows.push(r), ..c },
        Some(SrjEventView::Ask(b)) => CollectedView { ask: Some(b), ..c },
    }
}

/// The result a collecting sink holds: an ASK boolean wins, otherwise the
/// SELECT header and rows.
pub open spec fn collected_result(c: CollectedView) -> ResultView {
    match c.ask {
        Some(b) => ResultView::Ask(b),
        None => ResultView::Select { vars: c.vars, rows: c.rows },
    }
}

/// Runs the parser over the rest `buf` of a complete document from state
/// `s`, collecting events into `c`. Reading at the end of the input yields
/// the end-of-input token again; `idle` bounds how many tokens that consume
/// no input are still accepted.
pub open spec fn srj_run(buf: Seq<u8>, s: SrjState, c: CollectedView, idle: nat) -> Result<ResultView, ErrKind>
    decreases buf.len(), idle,
{
    match spec_scan(buf, true) {
        ScanView::NeedMore => Err(ErrKind::Json),
        ScanView::Failed(k) => Err(srj_interrupt(s, k)),
        ScanView::Tok(t, n) => {
            if n > buf.len() || (n == 0 && idle == 0) {
                Err(ErrKind::Json)
            } else {
                let st = srj_step(s, t);
                let c2 = collect_event(c, st.event);
                match st.outcome {
                    SrjOutcomeView::Finished(_) => Ok(collected_result(c2)),
                    SrjOutcomeView::Failed(k) => Err(k),
                    SrjOutcomeView::Continue => if n == 0 {
                        srj_run(buf, st.state, c2, (idle - 1) as nat)
                    } else {
                        srj_run(buf.subrange(n as int, buf.len() as int), st.state, c2, idle)
                    },
                }
            }
        },
    }
}

/// The result of parsing the complete SRJ document `bytes`.
pub open spec fn srj_parse(bytes: Seq<u8>) -> Result<ResultView, ErrKind> {
    srj_run(bytes, srj_initial(), collected_initial(), 2)
}

/// One token of the run: what the run from `buf` is, given the token that
/// the tokenizer reads there.
proof fn lemma_run_token(buf: Seq<u8>, s: SrjState, c: CollectedView, idle: nat, t: Tok, n: nat)
    requires
        spec_scan(buf, true) == ScanView::Tok(t, n),
        n <= buf.len(),
        !(n == 0 && idle == 0),
    ensures
        ({
            let st = srj_step(s, t);
            let c2 = collect_event(c, st.event);
            srj_run(buf, s, c, idle) == match st.outcome {
                SrjOutcomeView::Finished(_) => Ok(collected_result(c2)),
                SrjOutcomeView::Failed(k) => Err(k),
                SrjOutcomeView::Continue => if n == 0 {
                    srj_run(buf, st.state, c2, (idle - 1) as nat)
                } else {
                    srj_run(buf.subrange(n as int, buf.len() as int), st.state, c2, idle)
                },
            }
        }),
{
}

/// The events received so far by a collecting sink.
struct Collector {
    vars: Vec<String>,
    rows: Vec<ResultRow>,
    ask: Option<bool>,
}

impl Collector {
    spec fn view(&self) -> CollectedView {
        CollectedView { vars: texts(self.vars@), rows: rows_entries(self.rows@), ask: self.ask }
    }

    fn new() -> (c: Collector)
        ensures
            c.view() == collected_initial(),
    {
        let c = Collector { vars: Vec::new(), rows: Vec::new(), ask: None };
        assert(rows_entries(c.rows@) =~= Seq::<Seq<(Seq<char>, Term)>>::empty());
        assert(texts(c.vars@) =~= Seq::<Seq<char>>::empty());
        c
    }

    fn absorb(&mut self, e: Option<SrjEvent>)
        ensures
            final(self).view() == collect_event(old(self).view(), opt_event_view(e)),
    {
        match e {
            Some(SrjEvent::Header(v)) => {
                self.vars = v;
            },
            Some(SrjEvent::Row(row)) => {
                let ghost before = self.rows@;
                self.rows.push(row);
                assert(rows_entries(self.rows@) =~= rows_entries(before).push(self.rows@.last().entries()));
            },
            Some(SrjEvent::Ask(b)) => {
                self.ask = Some(b);
            },
            None => {},
        }
    }

    fn into_result(self) -> (r: SparqlResult)
        ensures
            result_view(r) == collected_result(self.view()),
    {
        match self.ask {
            Some(b) => SparqlResult::Ask { result: b },
            None => SparqlResult::Select { vars: self.vars, rows: self.rows },
        }
    }
}

/// Parses a complete SRJ document held in memory into the materialized
/// result: the header, every row in document order, or the ASK boolean.
pub fn parse_srj_document(bytes: &[u8]) -> (r: Result<SparqlResult, SparqlResultsError>)
    ensures
        match r {
            Ok(v) => srj_parse(bytes@) == Ok::<ResultView, ErrKind>(result_view(v)),
            Err(e) => srj_parse(bytes@) == Err::<ResultView, ErrKind>(e.kind()),
        },
{
    let mut parser = SrjParser::new();
    let mut sink = Collector::new();
    let mut pos: usize = 0;
    let mut idle: u8 = 2;
    assert(bytes@.subrange(0, bytes@.len() as int) =~= bytes@);
    loop
        invariant
            parser.wf(),
            0 <= pos <= bytes@.len(),
            idle <= 2,
            srj_run(bytes@.subrange(pos as int, bytes@.len() as int), parser.state(), sink.view(), idle as nat)
                == srj_parse(bytes@),
        decreases bytes@.len() - pos, idle,
    {
        let ghost rest = bytes@.subrange(pos as int, bytes@.len() as int);
        let scanned = scan_token(&bytes[pos..bytes.len()], true);
        match scanned {
            Scanned::NeedMore => {
                return Err(error_with(ErrKind::Json, "unexpected end of SRJ input"));
            },
            Scanned::Failed(e) => {
                return Err(parser.interrupted(e));
            },
            Scanned::Token(token, n) => {
                if n == 0 && idle == 0 {
                    return Err(error_with(ErrKind::Json, "unexpected end of SRJ input"));
                }
                proof {
                    lemma_run_token(rest, parser.state(), sink.view(), idle as nat, token@, n as nat);
                }
                let out = parser.step(token);
                sink.absorb(out.event);
                match out.outcome {
                    SrjOutcome::Finished(_) => {
                        return Ok(sink.into_result());
                    },
                    SrjOutcome::Failed(e) => {
                        return Err(e);
                    },
                    SrjOutcome::Continue => {
                        if n == 0 {
                            idle = idle - 1;
                        } else {
                            proof {
                                assert(bytes@.subrange(pos + n, bytes@.len() as int) =~= rest.subrange(
                                    n as int,
                                    rest.len() as int,
                                ));
                            }
                            pos = pos + n;
                        }
                    },
                }
            },
        }
    }
}

} // verus!
