//! Parsing a complete SRX document given as its XML events: the streaming
//! parser driven to the end, with every event collected.

use vstd::prelude::*;

use crate::error::{error_with, ErrKind, SparqlResultsError};
use crate::srj::document::texts;
use crate::srj::parse::{result_view, ResultView};
use crate::srj::serialize::rows_entries;
use crate::srx::event::{evs, XEv, XmlEvent};
use crate::srx::stream::{
    srx_initial, srx_opt_event_view, srx_step, SrxEvent, SrxEventView, SrxOutcome, SrxOutcomeView, SrxParser,
    SrxState,
};
use crate::types::{ResultRow, SparqlResult, Term};

verus! {

/// What a collecting sink holds.
pub struct SrxCollected {
    pub vars: Seq<Seq<char>>,
    pub rows: Seq<Seq<(Seq<char>, Term)>>,
    pub ask: Option<bool>,
}

pub open spec fn srx_collected_initial() -> SrxCollected {
    SrxCollected { vars: seq![], rows: seq![], ask: None }
}

/// The collecting sink after one event.
pub open spec fn srx_collect(c: SrxCollected, e: Option<SrxEventView>) -> SrxCollected {
    match e {
        None => c,
        Some(SrxEventView::Header(v)) => SrxCollected { vars: v, ..c },
        Some(SrxEventView::Row(r)) => SrxCollected { rows: c.rows.push(r), ..c },
        Some(SrxEventView::Ask(b)) => SrxCollected { ask: Some(b), ..c },
    }
}

/// The result a collecting sink holds: an ASK boolean wins, otherwise the
/// SELECT header and rows.
pub open spec fn srx_collected_result(c: SrxCollected) -> ResultView {
    match c.ask {
        Some(b) => ResultView::Ask(b),
        None => ResultView::Select { vars: c.vars, rows: c.rows },
    }
}

/// Runs the parser over the events from position `i`; past the last event
/// the reader reports the end of input.
pub open spec fn srx_run(es: Seq<XEv>, i: int, s: SrxState, c: SrxCollected) -> Result<ResultView, ErrKind>
    decreases es.len() - i,
{
    let e = if 0 <= i < es.len() {
        es[i]
    } else {
        XEv::Eof
    };
    let st = srx_step(s, e);
    let c2 = srx_collect(c, st.event);
    match st.outcome {
        SrxOutcomeView::Finished(_) => Ok(srx_collected_result(c2)),
        SrxOutcomeView::Failed(k) => Err(k),
        SrxOutcomeView::Continue => if 0 <= i < es.len() {
            srx_run(es, i + 1, st.state, c2)
        } else {
            Err(ErrKind::Xml)
        },
    }
}

/// The result of parsing the SRX document with these events.
pub open spec fn srx_parse(es: Seq<XEv>) -> Result<ResultView, ErrKind> {
    srx_run(es, 0, srx_initial(), srx_collected_initial())
}

/// The events received so far by a collecting sink.
struct SrxCollector {
    vars: Vec<String>,
    rows: Vec<ResultRow>,
    ask: Option<bool>,
}

impl SrxCollector {
    spec fn view(&self) -> SrxCollected {
        SrxCollected { vars: texts(self.vars@), rows: rows_entries(self.rows@), ask: self.ask }
    }

    fn absorb(&mut self, e: Option<SrxEvent>)
        ensures
            final(self).view() == srx_collect(old(self).view(), srx_opt_event_view(e)),
    {
        match e {
            Some(SrxEvent::Header(v)) => {
                self.vars = v;
            },
            Some(SrxEvent::Row(row)) => {
                let ghost before = self.rows@;
                self.rows.push(row);
                assert(rows_entries(self.rows@) =~= rows_entries(before).push(self.rows@.last().entries()));
            },
            Some(SrxEvent::Ask(b)) => {
                self.ask = Some(b);
            },
            None => {},
        }
    }

    fn into_result(self) -> (r: SparqlResult)
        ensures
            result_view(r) == srx_collected_result(self.view()),
    {
        match self.ask {
            Some(b) => SparqlResult::Ask { result: b },
            None => SparqlResult::Select { vars: self.vars, rows: self.rows },
        }
    }
}

/// Parses a complete SRX document from its XML events into the
/// materialized result: the header, every row in document order, or the
/// ASK boolean.
pub fn parse_srx_events(events: &[XmlEvent]) -> (r: Result<SparqlResult, SparqlResultsError>)
    ensures
        match r {
            Ok(v) => srx_parse(evs(events@)) == Ok::<ResultView, ErrKind>(result_view(v)),
            Err(e) => srx_parse(evs(events@)) == Err::<ResultView, ErrKind>(e.kind()),
        },
{
    let ghost es = evs(events@);
    let mut parser = SrxParser::new();
    let mut sink = SrxCollector { vars: Vec::new(), rows: Vec::new(), ask: None };
    assert(rows_entries(sink.rows@) =~= Seq::<Seq<(Seq<char>, Term)>>::empty());
    assert(texts(sink.vars@) =~= Seq::<Seq<char>>::empty());
    let mut i: usize = 0;
    loop
        invariant
            es == evs(events@),
            0 <= i <= events@.len(),
            srx_run(es, i as int, parser.state(), sink.view()) == srx_parse(es),
        decreases events@.len() - i,
    {
        let event = if i < events.len() {
            events[i].duplicate()
        } else {
            XmlEvent::Eof
        };
        proof {
            if i < events@.len() {
                assert(es[i as int] == events@[i as int]@);
            }
        }
        let out = parser.step(event);
        sink.absorb(out.event);
        match out.outcome {
            SrxOutcome::Finished(_) => {
                return Ok(sink.into_result());
            },
            SrxOutcome::Failed(e) => {
                return Err(e);
            },
            SrxOutcome::Continue => {
                if i < events.len() {
                    i = i + 1;
                } else {
                    return Err(error_with(ErrKind::Xml, "SRX events ended without the end of input"));
                }
            },
        }
    }
}

} // verus!
