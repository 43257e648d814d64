//! The SRX parser run over the events that a reader reports for a written
//! document gives back the written result.

use vstd::prelude::*;
use vstd::utf8::*;

use crate::error::ErrKind;
use crate::srj::grammar::Parsed;
use crate::srj::parse::ResultView;
use crate::srx::event::{local_name, XEv};
use crate::srx::grammar::{nm, sx_row};
use crate::srx::parse::{srx_collect, srx_collected_result, srx_run, SrxCollected};
use crate::srx::prefix::{lemma_row_bound, lemma_row_prefix};
use crate::srj::document::texts;
use crate::srj::parse::result_view;
use crate::srj::serialize::rows_entries;
use crate::srx::grammar::sx_read_text;
use crate::srx::parse::{srx_collected_initial, srx_parse};
use crate::srx::readback::{
    at_x, entries_read_back, is_special, unescapes, lemma_at_x_index, lemma_at_x_split, lemma_attr_found,
    lemma_names_distinct, lemma_plain_run_bounds, lemma_read_row_body, lemma_srx_names, plain_run,
    read_end, read_row_body, read_start, read_tag, text_events,
};
use crate::srx::stream::{srx_initial, srx_step, SrxCollect, SrxOutcomeView, SrxPhase, SrxState};
use crate::srx::text::{boolean_of, is_unicode_ws, trim_back, trim_front};
use crate::srx::write::SPARQL_NS;
use crate::types::{keys_unique, SparqlResult, Term};

verus! {

/// Where feeding a run of events to the parser leaves it: still open, in a
/// state with the events collected so far, or closed with a result.
pub enum XFed {
    Open(SrxState, SrxCollected),
    Closed(Result<ResultView, ErrKind>),
}

/// Feeds the events `es` to the parser from state `s`, collecting events.
pub open spec fn srx_feed(es: Seq<XEv>, s: SrxState, c: SrxCollected) -> XFed
    decreases es.len(),
{
    if es.len() == 0 {
        XFed::Open(s, c)
    } else {
        let st = srx_step(s, es[0]);
        let c2 = srx_collect(c, st.event);
        match st.outcome {
            SrxOutcomeView::Continue => srx_feed(es.drop_first(), st.state, c2),
            SrxOutcomeView::Finished(_) => XFed::Closed(Ok(srx_collected_result(c2))),
            SrxOutcomeView::Failed(k) => XFed::Closed(Err(k)),
        }
    }
}

/// Feeding two runs is feeding the first, then the second if still open.
pub proof fn lemma_srx_feed_concat(a: Seq<XEv>, b: Seq<XEv>, s: SrxState, c: SrxCollected)
    ensures
        srx_feed(a + b, s, c) == match srx_feed(a, s, c) {
            XFed::Open(s2, c2) => srx_feed(b, s2, c2),
            XFed::Closed(r) => XFed::Closed(r),
        },
    decreases a.len(),
{
    if a.len() == 0 {
        assert(a + b =~= b);
    } else {
        assert((a + b)[0] == a[0]);
        assert((a + b).drop_first() =~= a.drop_first() + b);
        let st = srx_step(s, a[0]);
        lemma_srx_feed_concat(a.drop_first(), b, st.state, srx_collect(c, st.event));
    }
}

/// Feeding one event is one step.
pub proof fn lemma_srx_feed_one(x: XEv, s: SrxState, c: SrxCollected)
    ensures
        srx_feed(seq![x], s, c) == ({
            let st = srx_step(s, x);
            let c2 = srx_collect(c, st.event);
            match st.outcome {
                SrxOutcomeView::Continue => XFed::Open(st.state, c2),
                SrxOutcomeView::Finished(_) => XFed::Closed(Ok(srx_collected_result(c2))),
                SrxOutcomeView::Failed(k) => XFed::Closed(Err(k)),
            }
        }),
{
    assert(seq![x].drop_first() =~= Seq::<XEv>::empty());
    let st = srx_step(s, x);
    let c2 = srx_collect(c, st.event);
    assert(srx_feed(Seq::<XEv>::empty(), st.state, c2) == XFed::Open(st.state, c2));
}

/// Running the parser over events that hold the run `w` at position `i` is
/// feeding it `w`, then running on.
pub proof fn lemma_srx_run_feed(es: Seq<XEv>, i: int, w: Seq<XEv>, s: SrxState, c: SrxCollected)
    requires
        at_x(es, i, w),
    ensures
        srx_run(es, i, s, c) == match srx_feed(w, s, c) {
            XFed::Open(s2, c2) => srx_run(es, i + w.len(), s2, c2),
            XFed::Closed(r) => r,
        },
    decreases w.len(),
{
    if w.len() > 0 {
        lemma_at_x_index(es, i, w, 0);
        assert(seq![w[0]] + w.drop_first() =~= w);
        lemma_at_x_split(es, i, seq![w[0]], w.drop_first());
        let st = srx_step(s, w[0]);
        lemma_srx_run_feed(es, i + 1, w.drop_first(), st.state, srx_collect(c, st.event));
    }
}

/// The state while a row is collected.
pub open spec fn collecting_row(s: SrxState, col: Seq<XEv>) -> SrxState {
    SrxState { phase: SrxPhase::Collect(SrxCollect::Row), collected: col, ..s }
}

/// A proper, non-empty prefix of a written row body is an incomplete row.
proof fn lemma_row_prefix_incomplete(e: Seq<(Seq<char>, Term)>, k: int)
    requires
        entries_read_back(e),
        keys_unique(e),
        0 <= k < read_row_body(e).len(),
    ensures
        sx_row(read_row_body(e).take(k), 0, seq![]) is Incomplete,
{
    let ws = read_row_body(e);
    assert(ws.subrange(0, ws.len() as int) =~= ws);
    lemma_read_row_body(ws, 0, e, seq![]);
    assert(seq![] + e =~= e);
    lemma_row_prefix(ws, k, 0, seq![]);
    lemma_row_bound(ws.take(k), 0, seq![]);
}

/// Each proper prefix of a written row body leaves the row collecting.
proof fn lemma_feed_row_prefix(e: Seq<(Seq<char>, Term)>, k: int, s: SrxState, c: SrxCollected)
    requires
        entries_read_back(e),
        keys_unique(e),
        0 <= k < read_row_body(e).len(),
    ensures
        srx_feed(read_row_body(e).take(k), collecting_row(s, seq![]), c) == XFed::Open(
            collecting_row(s, read_row_body(e).take(k)),
            c,
        ),
    decreases k,
{
    let ws = read_row_body(e);
    if k == 0 {
        assert(ws.take(0) =~= Seq::<XEv>::empty());
    } else {
        lemma_feed_row_prefix(e, k - 1, s, c);
        assert(ws.take(k) =~= ws.take(k - 1) + seq![ws[k - 1]]);
        lemma_srx_feed_concat(ws.take(k - 1), seq![ws[k - 1]], collecting_row(s, seq![]), c);
        lemma_srx_feed_one(ws[k - 1], collecting_row(s, ws.take(k - 1)), c);
        assert(ws.take(k - 1).push(ws[k - 1]) =~= ws.take(k));
        lemma_row_prefix_incomplete(e, k);
    }
}

/// The events a reader reports for a written `<result>` row (`row_outs`).
pub open spec fn read_row(e: Seq<(Seq<char>, Term)>) -> Seq<XEv> {
    seq![read_start("result"@, seq![])] + read_row_body(e)
}

/// The state after one more row at the top level.
pub open spec fn after_row(s: SrxState) -> SrxState {
    SrxState { phase: SrxPhase::Top, collected: seq![], row_count: s.row_count + 1, ..s }
}

/// A written row is collected and delivered whole.
#[verifier::rlimit(40)]
pub proof fn lemma_feed_row(e: Seq<(Seq<char>, Term)>, s: SrxState, c: SrxCollected)
    requires
        entries_read_back(e),
        keys_unique(e),
        s.phase == SrxPhase::Top,
        s.row_count + 1 <= u64::MAX,
    ensures
        srx_feed(read_row(e), s, c) == XFed::Open(after_row(s), SrxCollected { rows: c.rows.push(e), ..c }),
{
    let ws = read_row_body(e);
    let len = ws.len() as int;
    let x = read_start("result"@, seq![]);
    assert(local_name(encode_utf8("result"@)) == encode_utf8("result"@)) by {
        lemma_srx_names();
    }
    assert(nm("result") != nm("sparql") && nm("result") != nm("head") && nm("result") != nm("link") && nm(
        "result",
    ) != nm("results")) by {
        lemma_names_distinct();
    }
    lemma_srx_feed_concat(seq![x], ws, s, c);
    lemma_srx_feed_one(x, s, c);
    assert(srx_step(s, x).state == collecting_row(s, seq![]));
    assert(ws =~= ws.take(len - 1) + seq![ws[len - 1]]);
    lemma_srx_feed_concat(ws.take(len - 1), seq![ws[len - 1]], collecting_row(s, seq![]), c);
    lemma_feed_row_prefix(e, len - 1, s, c);
    lemma_srx_feed_one(ws[len - 1], collecting_row(s, ws.take(len - 1)), c);
    assert(ws.take(len - 1).push(ws[len - 1]) =~= ws);
    assert(ws.subrange(0, ws.len() as int) =~= ws);
    lemma_read_row_body(ws, 0, e, seq![]);
    assert(seq![] + e =~= e);
}

/// The events a reader reports for written rows (`rows_outs`).
pub open spec fn read_rows(rows: Seq<Seq<(Seq<char>, Term)>>) -> Seq<XEv>
    decreases rows.len(),
{
    if rows.len() == 0 {
        seq![]
    } else {
        read_rows(rows.drop_last()) + read_row(rows.last())
    }
}

/// A reader gives back the names and attribute values of every row.
pub open spec fn rows_read_back(rows: Seq<Seq<(Seq<char>, Term)>>) -> bool {
    forall|i: int| 0 <= i < rows.len() ==> entries_read_back(#[trigger] rows[i])
}

/// A reader gives back every variable name.
pub open spec fn vars_read_back(v: Seq<Seq<char>>) -> bool {
    forall|i: int| 0 <= i < v.len() ==> unescapes(#[trigger] v[i])
}

/// No row binds a variable twice.
pub open spec fn rows_unique(rows: Seq<Seq<(Seq<char>, Term)>>) -> bool {
    forall|i: int| 0 <= i < rows.len() ==> keys_unique(#[trigger] rows[i])
}

/// Written rows are delivered one by one, in order.
pub proof fn lemma_feed_rows(rows: Seq<Seq<(Seq<char>, Term)>>, s: SrxState, c: SrxCollected)
    requires
        rows_read_back(rows),
        rows_unique(rows),
        s.phase == SrxPhase::Top,
        s.collected == Seq::<XEv>::empty(),
        s.row_count + rows.len() <= u64::MAX,
    ensures
        srx_feed(read_rows(rows), s, c) == XFed::Open(
            SrxState { row_count: s.row_count + rows.len(), ..s },
            SrxCollected { rows: c.rows + rows, ..c },
        ),
    decreases rows.len(),
{
    if rows.len() == 0 {
        assert(c.rows + rows =~= c.rows);
        assert(read_rows(rows) =~= Seq::<XEv>::empty());
    } else {
        let pre = rows.drop_last();
        assert(rows_unique(pre) && rows_read_back(pre)) by {
            assert forall|i: int| 0 <= i < pre.len() implies keys_unique(#[trigger] pre[i]) by {
                assert(pre[i] == rows[i]);
            }
            assert forall|i: int| 0 <= i < pre.len() implies entries_read_back(#[trigger] pre[i]) by {
                assert(pre[i] == rows[i]);
            }
        }
        assert(entries_read_back(rows[rows.len() - 1]));
        lemma_feed_rows(pre, s, c);
        lemma_srx_feed_concat(read_rows(pre), read_row(rows.last()), s, c);
        let s1 = SrxState { row_count: s.row_count + pre.len(), ..s };
        let c1 = SrxCollected { rows: c.rows + pre, ..c };
        assert(keys_unique(rows[rows.len() - 1]));
        lemma_feed_row(rows.last(), s1, c1);
        assert((c.rows + pre).push(rows.last()) =~= c.rows + rows);
    }
}

/// The event a reader reports for one written `<variable/>`.
pub open spec fn read_variable(v: Seq<char>) -> XEv {
    XEv::Empty(read_tag("variable"@, seq![("name"@, v)]))
}

/// The events a reader reports for written variables (`var_outs`).
pub open spec fn read_vars(v: Seq<Seq<char>>) -> Seq<XEv>
    decreases v.len(),
{
    if v.len() == 0 {
        seq![]
    } else {
        read_vars(v.drop_last()).push(read_variable(v.last()))
    }
}

/// Written variables are declared in order.
pub proof fn lemma_feed_vars(v: Seq<Seq<char>>, s: SrxState, c: SrxCollected)
    requires
        vars_read_back(v),
        s.phase == SrxPhase::Top,
    ensures
        srx_feed(read_vars(v), s, c) == XFed::Open(SrxState { vars: s.vars + v, ..s }, c),
    decreases v.len(),
{
    if v.len() == 0 {
        assert(s.vars + v =~= s.vars);
        assert(read_vars(v) =~= Seq::<XEv>::empty());
    } else {
        let pre = v.drop_last();
        assert(vars_read_back(pre)) by {
            assert forall|i: int| 0 <= i < pre.len() implies unescapes(#[trigger] pre[i]) by {
                assert(pre[i] == v[i]);
            }
        }
        assert(unescapes(v[v.len() - 1]));
        lemma_feed_vars(pre, s, c);
        let s1 = SrxState { vars: s.vars + pre, ..s };
        lemma_srx_feed_concat(read_vars(pre), seq![read_variable(v.last())], s, c);
        assert(read_vars(pre) + seq![read_variable(v.last())] =~= read_vars(v));
        lemma_srx_feed_one(read_variable(v.last()), s1, c);
        assert(local_name(encode_utf8("variable"@)) == encode_utf8("variable"@)) by {
            lemma_srx_names();
        }
        assert(nm("variable") != nm("head") && nm("variable") != nm("link")) by {
            lemma_names_distinct();
        }
        lemma_attr_found("variable"@, seq![("name"@, v.last())], "name"@, 0);
        assert((s.vars + pre).push(v.last()) =~= s.vars + v);
    }
}

/// The declaration event a reader reports for `<?xml version="1.0"?>`.
pub open spec fn read_decl() -> XEv {
    XEv::Decl(encode_utf8("xml version=\"1.0\""@))
}

/// The start of `<sparql>` as a reader reports it.
pub open spec fn read_sparql_start() -> XEv {
    read_start("sparql"@, seq![("xmlns"@, SPARQL_NS@)])
}

/// The final newline and the end of input.
pub open spec fn read_tail() -> Seq<XEv> {
    seq![XEv::Text(encode_utf8("\n"@)), XEv::Eof]
}

/// The events a reader reports for a written SELECT document.
pub open spec fn read_select(vars: Seq<Seq<char>>, rows: Seq<Seq<(Seq<char>, Term)>>) -> Seq<XEv> {
    seq![read_decl(), read_sparql_start(), read_start("head"@, seq![])] + read_vars(vars) + seq![
        read_end("head"@),
        read_start("results"@, seq![]),
    ] + read_rows(rows) + seq![read_end("results"@), read_end("sparql"@)] + read_tail()
}

/// The text of a written boolean.
pub open spec fn boolean_text(b: bool) -> Seq<char> {
    if b {
        "true"@
    } else {
        "false"@
    }
}

/// The events a reader reports for a written ASK document.
pub open spec fn read_ask(b: bool) -> Seq<XEv> {
    seq![read_decl(), read_sparql_start(), XEv::Empty(read_tag("head"@, seq![])), read_start("boolean"@, seq![])]
        + text_events(boolean_text(b)) + seq![read_end("boolean"@), read_end("sparql"@)] + read_tail()
}

/// The events a reader reports for the document a writer emits for a
/// result (`srx_document`).
pub open spec fn srx_read_back(r: SparqlResult) -> Seq<XEv> {
    match r {
        SparqlResult::Select { vars, rows } => read_select(texts(vars@), rows_entries(rows@)),
        SparqlResult::Ask { result } => read_ask(result),
    }
}

proof fn lemma_plain_run_all(s: Seq<char>)
    requires
        forall|i: int| 0 <= i < s.len() ==> !is_special(#[trigger] s[i]),
    ensures
        plain_run(s) == s.len(),
    decreases s.len(),
{
    if s.len() > 0 {
        let t = s.drop_first();
        assert forall|i: int| 0 <= i < t.len() implies !is_special(#[trigger] t[i]) by {
            assert(t[i] == s[i + 1]);
        }
        lemma_plain_run_all(t);
    }
}

/// Text without special characters is one run of text.
proof fn lemma_text_events_plain(s: Seq<char>)
    requires
        s.len() > 0,
        forall|i: int| 0 <= i < s.len() ==> !is_special(#[trigger] s[i]),
    ensures
        text_events(s) == seq![XEv::Text(encode_utf8(s))],
{
    lemma_plain_run_all(s);
    lemma_plain_run_bounds(s);
    assert(s.take(s.len() as int) =~= s);
    assert(s.skip(s.len() as int) =~= Seq::<char>::empty());
    assert(text_events(Seq::<char>::empty()) =~= Seq::<XEv>::empty());
    assert(seq![XEv::Text(encode_utf8(s))] + Seq::<XEv>::empty() =~= seq![XEv::Text(encode_utf8(s))]);
}

/// The written boolean text is one run and reads as the boolean.
proof fn lemma_boolean_text(b: bool)
    ensures
        text_events(boolean_text(b)) == seq![XEv::Text(encode_utf8(boolean_text(b)))],
        boolean_of(boolean_text(b)) == Ok::<bool, ErrKind>(b),
{
    reveal_strlit("true");
    reveal_strlit("false");
    let t = boolean_text(b);
    assert forall|i: int| 0 <= i < t.len() implies !is_special(#[trigger] t[i]) by {}
    lemma_text_events_plain(t);
    assert(!is_unicode_ws(t[0]));
    assert(trim_front(t) == t);
    assert(!is_unicode_ws(t.last()));
    assert(trim_back(t) == t);
    assert("true"@ != "false"@) by {
        assert("true"@.len() != "false"@.len());
    }
}

/// Feeding a run is one step on its first event, then the rest.
pub proof fn lemma_feed_front(x: XEv, rest: Seq<XEv>, s: SrxState, c: SrxCollected)
    ensures
        srx_feed(seq![x] + rest, s, c) == ({
            let st = srx_step(s, x);
            let c2 = srx_collect(c, st.event);
            match st.outcome {
                SrxOutcomeView::Continue => srx_feed(rest, st.state, c2),
                SrxOutcomeView::Finished(_) => XFed::Closed(Ok(srx_collected_result(c2))),
                SrxOutcomeView::Failed(k) => XFed::Closed(Err(k)),
            }
        }),
{
    assert((seq![x] + rest)[0] == x);
    assert((seq![x] + rest).drop_first() =~= rest);
}

/// The end of a document: the root closes, the final newline, the end of
/// input.
proof fn lemma_feed_close(s: SrxState, c: SrxCollected)
    requires
        s.phase == SrxPhase::Top,
        s.saw_results ==> s.results_closed,
        s.boolean is Some || s.saw_results,
        0 <= s.row_count <= u64::MAX,
    ensures
        srx_feed(seq![read_end("sparql"@)] + read_tail(), s, c) == XFed::Closed(
            Ok::<ResultView, ErrKind>(srx_collected_result(c)),
        ),
{
    assert(local_name(encode_utf8("sparql"@)) == encode_utf8("sparql"@)) by {
        lemma_srx_names();
    }
    let s1 = SrxState { root_closed: true, ..s };
    lemma_feed_front(read_end("sparql"@), read_tail(), s, c);
    assert(read_tail() =~= seq![XEv::Text(encode_utf8("\n"@))] + seq![XEv::Eof]);
    lemma_feed_front(XEv::Text(encode_utf8("\n"@)), seq![XEv::Eof], s1, c);
    lemma_srx_feed_one(XEv::Eof, s1, c);
}

/// The events of a written SELECT document parse back as its variables
/// and rows.
#[verifier::rlimit(60)]
pub proof fn lemma_srx_select_round_trip(vars: Seq<Seq<char>>, rows: Seq<Seq<(Seq<char>, Term)>>)
    requires
        vars_read_back(vars),
        rows_read_back(rows),
        rows_unique(rows),
        rows.len() <= u64::MAX,
    ensures
        srx_parse(read_select(vars, rows)) == Ok::<ResultView, ErrKind>(ResultView::Select { vars, rows }),
{
    let es = read_select(vars, rows);
    let s0 = srx_initial();
    let c0 = srx_collected_initial();
    assert(es.subrange(0, es.len() as int) =~= es);
    lemma_srx_run_feed(es, 0, es, s0, c0);
    assert(local_name(encode_utf8("sparql"@)) == encode_utf8("sparql"@) && local_name(encode_utf8("head"@))
        == encode_utf8("head"@) && local_name(encode_utf8("results"@)) == encode_utf8("results"@)) by {
        lemma_srx_names();
    }
    assert(nm("head") != nm("sparql") && nm("results") != nm("sparql") && nm("results") != nm("head") && nm(
        "results",
    ) != nm("link")) by {
        lemma_names_distinct();
    }
    let a1 = read_decl();
    let a2 = read_sparql_start();
    let a3 = read_start("head"@, seq![]);
    let v = read_vars(vars);
    let b1 = read_end("head"@);
    let b2 = read_start("results"@, seq![]);
    let r = read_rows(rows);
    let c1 = read_end("results"@);
    let z = seq![read_end("sparql"@)] + read_tail();
    let t5 = seq![c1] + z;
    let t4 = r + t5;
    let t3 = seq![b2] + t4;
    let t2 = seq![b1] + t3;
    let t1 = v + t2;
    assert(es =~= seq![a1] + (seq![a2] + (seq![a3] + t1)));
    lemma_feed_front(a1, seq![a2] + (seq![a3] + t1), s0, c0);
    lemma_feed_front(a2, seq![a3] + t1, s0, c0);
    lemma_feed_front(a3, t1, s0, c0);
    lemma_srx_feed_concat(v, t2, s0, c0);
    lemma_feed_vars(vars, s0, c0);
    let s1 = SrxState { vars: s0.vars + vars, ..s0 };
    lemma_feed_front(b1, t3, s1, c0);
    lemma_feed_front(b2, t4, s1, c0);
    let s2 = SrxState { saw_results: true, header_sent: true, results_closed: s1.results_closed, ..s1 };
    let k1 = SrxCollected { vars: s1.vars, ..c0 };
    assert(srx_step(s1, b2).state == s2);
    assert(srx_collect(c0, srx_step(s1, b2).event) == k1);
    lemma_srx_feed_concat(r, t5, s2, k1);
    lemma_feed_rows(rows, s2, k1);
    let s3 = SrxState { row_count: s2.row_count + rows.len(), ..s2 };
    let k2 = SrxCollected { rows: k1.rows + rows, ..k1 };
    lemma_feed_front(c1, z, s3, k2);
    let s4 = SrxState { results_closed: true, ..s3 };
    assert(srx_step(s3, c1).state == s4);
    lemma_feed_close(s4, k2);
    assert(s0.vars + vars =~= vars);
    assert(k1.rows + rows =~= rows);
}

/// The text of a written `<boolean>` and its end tag give the boolean.
#[verifier::rlimit(40)]
proof fn lemma_feed_boolean(b: bool, s: SrxState, c: SrxCollected)
    requires
        s.phase == SrxPhase::Collect(SrxCollect::Boolean),
        s.collected == Seq::<XEv>::empty(),
        s.boolean is None,
    ensures
        srx_feed(seq![XEv::Text(encode_utf8(boolean_text(b))), read_end("boolean"@)], s, c) == XFed::Open(
            SrxState { boolean: Some(b), phase: SrxPhase::Top, collected: seq![], ..s },
            SrxCollected { ask: Some(b), ..c },
        ),
{
    assert(local_name(encode_utf8("boolean"@)) == encode_utf8("boolean"@)) by {
        lemma_srx_names();
    }
    lemma_boolean_text(b);
    let txt = XEv::Text(encode_utf8(boolean_text(b)));
    let endb = read_end("boolean"@);
    assert(seq![txt, endb] =~= seq![txt] + seq![endb]);
    lemma_feed_front(txt, seq![endb], s, c);
    let col1 = seq![txt];
    assert(s.collected.push(txt) =~= col1);
    encode_utf8_valid_utf8(boolean_text(b));
    assert(sx_read_text(col1, 1, nm("boolean"), decode_utf8(encode_utf8(boolean_text(b)))) is Incomplete);
    assert(seq![] + decode_utf8(encode_utf8(boolean_text(b))) =~= decode_utf8(encode_utf8(boolean_text(b))));
    assert(sx_read_text(col1, 0, nm("boolean"), seq![]) is Incomplete);
    let s2 = SrxState { collected: col1, ..s };
    assert(srx_step(s, txt).state == s2);
    lemma_srx_feed_one(endb, s2, c);
    let col2 = seq![txt, endb];
    assert(s2.collected.push(endb) =~= col2);
    assert(decode_utf8(encode_utf8(boolean_text(b))) == boolean_text(b)) by {
        vstd::utf8::encode_utf8_decode_utf8(boolean_text(b));
    }
    assert(sx_read_text(col2, 1, nm("boolean"), boolean_text(b)) == Parsed::Done(boolean_text(b), 2));
    assert(sx_read_text(col2, 0, nm("boolean"), seq![]) == Parsed::Done(boolean_text(b), 2));
}

/// The events of a written ASK document parse back as its boolean.
#[verifier::rlimit(40)]
pub proof fn lemma_srx_ask_round_trip(b: bool)
    ensures
        srx_parse(read_ask(b)) == Ok::<ResultView, ErrKind>(ResultView::Ask(b)),
{
    let es = read_ask(b);
    let s0 = srx_initial();
    let c0 = srx_collected_initial();
    assert(es.subrange(0, es.len() as int) =~= es);
    lemma_srx_run_feed(es, 0, es, s0, c0);
    assert(local_name(encode_utf8("sparql"@)) == encode_utf8("sparql"@) && local_name(encode_utf8("head"@))
        == encode_utf8("head"@) && local_name(encode_utf8("boolean"@)) == encode_utf8("boolean"@)) by {
        lemma_srx_names();
    }
    assert(nm("boolean") != nm("sparql") && nm("boolean") != nm("head") && nm("boolean") != nm("link") && nm(
        "boolean",
    ) != nm("results") && nm("boolean") != nm("result")) by {
        lemma_names_distinct();
    }
    lemma_boolean_text(b);
    let txt = XEv::Text(encode_utf8(boolean_text(b)));
    let endb = read_end("boolean"@);
    let a1 = read_decl();
    let a2 = read_sparql_start();
    let a3 = XEv::Empty(read_tag("head"@, seq![]));
    let a4 = read_start("boolean"@, seq![]);
    let z = seq![read_end("sparql"@)] + read_tail();
    let body = seq![txt, endb];
    assert(es =~= seq![a1] + (seq![a2] + (seq![a3] + (seq![a4] + (body + z)))));
    lemma_feed_front(a1, seq![a2] + (seq![a3] + (seq![a4] + (body + z))), s0, c0);
    lemma_feed_front(a2, seq![a3] + (seq![a4] + (body + z)), s0, c0);
    lemma_feed_front(a3, seq![a4] + (body + z), s0, c0);
    lemma_feed_front(a4, body + z, s0, c0);
    let s1 = SrxState { phase: SrxPhase::Collect(SrxCollect::Boolean), collected: seq![], ..s0 };
    assert(srx_step(s0, a4).state == s1);
    lemma_srx_feed_concat(body, z, s1, c0);
    lemma_feed_boolean(b, s1, c0);
    let s3 = SrxState { boolean: Some(b), phase: SrxPhase::Top, collected: seq![], ..s1 };
    let k1 = SrxCollected { ask: Some(b), ..c0 };
    lemma_feed_close(s3, k1);
}

/// A reader gives back every attribute value written for a result.
pub open spec fn srx_result_reads_back(r: SparqlResult) -> bool {
    match r {
        SparqlResult::Select { vars, rows } => vars_read_back(texts(vars@)) && rows_read_back(rows_entries(rows@)),
        SparqlResult::Ask { .. } => true,
    }
}

/// Round trip: the events that a reader reports for the document a writer
/// emits for a result parse back as that result, provided the reader gives
/// back the escaped attribute values of the document unchanged, no row
/// binds a variable twice and the rows can be counted.
pub proof fn lemma_srx_round_trip(r: SparqlResult)
    requires
        srx_result_reads_back(r),
        r matches SparqlResult::Select { rows, .. } ==> rows@.len() <= u64::MAX && rows_unique(
            rows_entries(rows@),
        ),
    ensures
        srx_parse(srx_read_back(r)) == Ok::<ResultView, ErrKind>(result_view(r)),
{
    match r {
        SparqlResult::Select { vars, rows } => {
            lemma_srx_select_round_trip(texts(vars@), rows_entries(rows@));
        },
        SparqlResult::Ask { result } => {
            lemma_srx_ask_round_trip(result);
        },
    }
}

} // verus!
