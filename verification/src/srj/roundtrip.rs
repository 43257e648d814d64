//! What the parser reads back from the bytes that the serializer writes.

use vstd::prelude::*;
use vstd::utf8::encode_utf8;

use crate::error::ErrKind;
use crate::srj::parse::{srj_parse, collect_event, collected_initial, collected_result, srj_run, CollectedView, ResultView};
use crate::srj::grammar::{sp_parse_head, Parsed};
use crate::srj::stream::{
    collect_start, complete, cont, depth_delta, srj_initial, srj_step, CollectTarget, DocMember, SrjOutcomeView, SrjPhase, SrjState,
    SrjStepView, SrjStreamKind, SrjStreamSummary,
};
use crate::srj::token::{
    hex_digit, is_json_ws, json_escape_byte, json_escaped, json_quoted, json_string_decoding, keyword_scan,
    kw_false, kw_true, skip_ws, spec_scan, string_close, KeywordScan, ScanView, Tok,
};
use crate::srj::wire::{str_reads_back, strings_read_back, entry_lt, sort_insert, ask_toks, select_end_toks, select_start_toks, select_toks, binding_toks, key_toks, members_toks, rows_toks, sorted_entries, strings_toks, lemma_toks_bytes_concat, opt_member_toks, str_bytes, tok_bytes, toks_bytes, value_toks};
use crate::types::{direction_token, keys_unique, SparqlResult, Term};
use crate::srj::document::texts;
use crate::srj::serialize::{rows_entries, srj_document};
use crate::srj::readback::{head_object_toks, lemma_keys_distinct, lemma_read_binding, lemma_read_head};

verus! {

/// `serde_json` reads back the text of a string literal that it wrote.
pub open spec fn decodes_back(s: Seq<char>) -> bool {
    json_string_decoding(str_bytes(s)) == Some(s)
}

/// A token that the serializer writes.
pub open spec fn written(t: Tok) -> bool {
    match t {
        Tok::ObjectStart | Tok::ObjectEnd | Tok::ArrayStart | Tok::ArrayEnd | Tok::Colon | Tok::Comma
        | Tok::Bool(_) => true,
        Tok::Str(s) => decodes_back(s),
        _ => false,
    }
}

/// Every token of the run is one that the serializer writes.
pub open spec fn all_written(ts: Seq<Tok>) -> bool {
    forall|i: int| 0 <= i < ts.len() ==> written(#[trigger] ts[i])
}

/// The escaped body of a string ends at the first closing quote after it.
proof fn lemma_string_close(buf: Seq<u8>, k: int, bytes: Seq<u8>)
    requires
        0 <= k,
        k + json_escaped(bytes).len() < buf.len(),
        buf.subrange(k, k + json_escaped(bytes).len()) == json_escaped(bytes),
        buf[k + json_escaped(bytes).len()] == 34,
    ensures
        string_close(buf, k, false) == Some(k + json_escaped(bytes).len()),
    decreases bytes.len(),
{
    if bytes.len() == 0 {
    } else {
        let b = bytes[0];
        let e = json_escape_byte(b);
        let tail = json_escaped(bytes.drop_first());
        assert(json_escaped(bytes) == e + tail);
        let m = e.len() as int;
        assert forall|i: int| 0 <= i < m implies buf[k + i] == e[i] by {
            assert(buf.subrange(k, k + json_escaped(bytes).len())[i] == buf[k + i]);
        }
        assert(buf.subrange(k + m, k + m + tail.len()) =~= tail) by {
            assert forall|i: int| 0 <= i < tail.len() implies buf.subrange(k + m, k + m + tail.len())[i]
                == tail[i] by {
                assert(buf.subrange(k, k + json_escaped(bytes).len())[m + i] == buf[k + m + i]);
            }
        }
        lemma_string_close(buf, k + m, bytes.drop_first());
        assert(buf[k] == e[0]);
        if b == 34 || b == 92 || b == 8 || b == 9 || b == 10 || b == 12 || b == 13 {
            assert(buf[k + 1] == e[1]);
            assert(string_close(buf, k + 1, true) == string_close(buf, k + 2, false));
            assert(string_close(buf, k, false) == string_close(buf, k + 1, true));
        } else if b < 32 {
            let h1 = hex_digit(b / 16);
            let h2 = hex_digit(b % 16);
            assert(h1 != 34 && h1 != 92 && h2 != 34 && h2 != 92);
            assert(buf[k + 1] == e[1] && buf[k + 2] == e[2] && buf[k + 3] == e[3]);
            assert(buf[k + 4] == e[4] && buf[k + 5] == e[5]);
            assert(string_close(buf, k + 5, false) == string_close(buf, k + 6, false));
            assert(string_close(buf, k + 4, false) == string_close(buf, k + 5, false));
            assert(string_close(buf, k + 3, false) == string_close(buf, k + 4, false));
            assert(string_close(buf, k + 2, false) == string_close(buf, k + 3, false));
            assert(string_close(buf, k + 1, true) == string_close(buf, k + 2, false));
            assert(string_close(buf, k, false) == string_close(buf, k + 1, true));
        } else {
            assert(string_close(buf, k, false) == string_close(buf, k + 1, false));
        }
    }
}

/// The tokenizer reads back a token that the serializer wrote, whatever
/// follows it.
pub proof fn lemma_scan_written(t: Tok, rest: Seq<u8>)
    requires
        written(t),
    ensures
        tok_bytes(t).len() > 0,
        spec_scan(tok_bytes(t) + rest, true) == ScanView::Tok(t, tok_bytes(t).len()),
{
    let buf = tok_bytes(t) + rest;
    assert(buf[0] == tok_bytes(t)[0]);
    assert(!is_json_ws(buf[0]));
    assert(skip_ws(buf, 0) == 0);
    match t {
        Tok::Str(s) => {
            let bytes = encode_utf8(s);
            let esc = json_escaped(bytes);
            assert(tok_bytes(t) == seq![34u8] + esc + seq![34u8]);
            let n = esc.len() as int;
            assert(buf.subrange(1, 1 + n) =~= esc);
            assert(buf[1 + n] == 34);
            lemma_string_close(buf, 1, bytes);
            assert(buf.subrange(0, 1 + n + 1) =~= str_bytes(s));
        },
        Tok::Bool(b) => {
            if b {
                assert(buf[1] == 114u8 && buf[2] == 117u8 && buf[3] == 101u8);
                assert(keyword_scan(buf, 1, kw_true(), 3) == KeywordScan::Matched);
                assert(keyword_scan(buf, 1, kw_true(), 2) == KeywordScan::Matched);
                assert(keyword_scan(buf, 1, kw_true(), 1) == KeywordScan::Matched);
                assert(keyword_scan(buf, 1, kw_true(), 0) == KeywordScan::Matched);
            } else {
                assert(buf[1] == 97u8 && buf[2] == 108u8 && buf[3] == 115u8 && buf[4] == 101u8);
                assert(keyword_scan(buf, 1, kw_false(), 4) == KeywordScan::Matched);
                assert(keyword_scan(buf, 1, kw_false(), 3) == KeywordScan::Matched);
                assert(keyword_scan(buf, 1, kw_false(), 2) == KeywordScan::Matched);
                assert(keyword_scan(buf, 1, kw_false(), 1) == KeywordScan::Matched);
                assert(keyword_scan(buf, 1, kw_false(), 0) == KeywordScan::Matched);
            }
        },
        _ => {},
    }
}

/// Where feeding a run of tokens to the parser leaves it: still open, in a
/// state with the events collected so far, or closed with a result.
pub enum Fed {
    Open(SrjState, CollectedView),
    Closed(Result<ResultView, ErrKind>),
}

/// Feeds the tokens `ts` to the parser from state `s`, collecting events.
pub open spec fn srj_feed(ts: Seq<Tok>, s: SrjState, c: CollectedView) -> Fed
    decreases ts.len(),
{
    if ts.len() == 0 {
        Fed::Open(s, c)
    } else {
        let st = srj_step(s, ts[0]);
        let c2 = collect_event(c, st.event);
        match st.outcome {
            SrjOutcomeView::Continue => srj_feed(ts.drop_first(), st.state, c2),
            SrjOutcomeView::Finished(_) => Fed::Closed(Ok(collected_result(c2))),
            SrjOutcomeView::Failed(k) => Fed::Closed(Err(k)),
        }
    }
}

/// Feeding two runs is feeding the first, then the second if still open.
pub proof fn lemma_feed_concat(a: Seq<Tok>, b: Seq<Tok>, s: SrjState, c: CollectedView)
    ensures
        srj_feed(a + b, s, c) == match srj_feed(a, s, c) {
            Fed::Open(s2, c2) => srj_feed(b, s2, c2),
            Fed::Closed(r) => Fed::Closed(r),
        },
    decreases a.len(),
{
    if a.len() == 0 {
        assert(a + b =~= b);
    } else {
        assert((a + b)[0] == a[0]);
        assert((a + b).drop_first() =~= a.drop_first() + b);
        let st = srj_step(s, a[0]);
        lemma_feed_concat(a.drop_first(), b, st.state, collect_event(c, st.event));
    }
}

/// The bytes of a run are the bytes of its first token, then of the rest.
proof fn lemma_toks_bytes_front(ts: Seq<Tok>)
    requires
        ts.len() > 0,
    ensures
        toks_bytes(ts) == tok_bytes(ts[0]) + toks_bytes(ts.drop_first()),
{
    let first = seq![ts[0]];
    assert(first + ts.drop_first() =~= ts);
    lemma_toks_bytes_concat(first, ts.drop_first());
    assert(first.drop_last() =~= Seq::<Tok>::empty());
    assert(toks_bytes(Seq::<Tok>::empty()) =~= Seq::<u8>::empty());
    assert(toks_bytes(first) =~= tok_bytes(ts[0]));
}

/// Running the parser over the bytes of written tokens is feeding it the
/// tokens.
#[verifier::rlimit(80)]
pub proof fn lemma_run_feed(ts: Seq<Tok>, rest: Seq<u8>, s: SrjState, c: CollectedView, idle: nat)
    requires
        all_written(ts),
    ensures
        srj_run(toks_bytes(ts) + rest, s, c, idle) == match srj_feed(ts, s, c) {
            Fed::Open(s2, c2) => srj_run(rest, s2, c2, idle),
            Fed::Closed(r) => r,
        },
    decreases ts.len(),
{
    if ts.len() == 0 {
        assert(toks_bytes(ts) + rest =~= rest);
    } else {
        let t = ts[0];
        let tail = ts.drop_first();
        lemma_toks_bytes_front(ts);
        let after = toks_bytes(tail) + rest;
        let buf = toks_bytes(ts) + rest;
        assert(buf =~= tok_bytes(t) + after);
        assert(written(ts[0]));
        lemma_scan_written(t, after);
        let n = tok_bytes(t).len();
        assert(buf.subrange(n as int, buf.len() as int) =~= after);
        let st = srj_step(s, t);
        let c2 = collect_event(c, st.event);
        assert(all_written(tail)) by {
            assert forall|i: int| 0 <= i < tail.len() implies written(#[trigger] tail[i]) by {
                assert(tail[i] == ts[i + 1]);
            }
        }
        lemma_run_feed(tail, rest, st.state, c2, idle);
    }
}

/// The net depth change of a run.
pub open spec fn dsum(w: Seq<Tok>) -> int
    decreases w.len(),
{
    if w.len() == 0 {
        0
    } else {
        depth_delta(w[0]) + dsum(w.drop_first())
    }
}

/// Starting at depth `d`, every token of the run leaves the depth positive.
pub open spec fn keeps_open(w: Seq<Tok>, d: int) -> bool
    decreases w.len(),
{
    if w.len() == 0 {
        true
    } else {
        d + depth_delta(w[0]) > 0 && keeps_open(w.drop_first(), d + depth_delta(w[0]))
    }
}

/// A run of whole values: it never closes more than it opened, and closes
/// all it opens.
pub open spec fn balanced(w: Seq<Tok>) -> bool {
    keeps_open(w, 1) && dsum(w) == 0
}

/// A token that a written document holds and the collector accepts.
pub open spec fn plain(t: Tok) -> bool {
    !(t is Eof) && !(t is Null) && !(t is Number)
}

pub open spec fn all_plain(w: Seq<Tok>) -> bool {
    forall|i: int| 0 <= i < w.len() ==> plain(#[trigger] w[i])
}

proof fn lemma_concat_front(a: Seq<Tok>, b: Seq<Tok>)
    requires
        a.len() > 0,
    ensures
        (a + b)[0] == a[0],
        (a + b).drop_first() == a.drop_first() + b,
{
    assert((a + b).drop_first() =~= a.drop_first() + b);
}

proof fn lemma_dsum_keeps_concat(a: Seq<Tok>, b: Seq<Tok>, d: int)
    ensures
        dsum(a + b) == dsum(a) + dsum(b),
        keeps_open(a + b, d) == (keeps_open(a, d) && keeps_open(b, d + dsum(a))),
    decreases a.len(),
{
    if a.len() == 0 {
        assert(a + b =~= b);
    } else {
        lemma_concat_front(a, b);
        lemma_dsum_keeps_concat(a.drop_first(), b, d + depth_delta(a[0]));
    }
}

proof fn lemma_keeps_mono(w: Seq<Tok>, d: int, d2: int)
    requires
        keeps_open(w, d),
        d <= d2,
    ensures
        keeps_open(w, d2),
    decreases w.len(),
{
    if w.len() > 0 {
        lemma_keeps_mono(w.drop_first(), d + depth_delta(w[0]), d2 + depth_delta(w[0]));
    }
}

proof fn lemma_balanced_concat(a: Seq<Tok>, b: Seq<Tok>)
    requires
        balanced(a),
        balanced(b),
    ensures
        balanced(a + b),
{
    lemma_dsum_keeps_concat(a, b, 1);
}

/// Tokens that neither open nor close are balanced.
proof fn lemma_flat_balanced(w: Seq<Tok>)
    requires
        forall|i: int| 0 <= i < w.len() ==> depth_delta(#[trigger] w[i]) == 0,
    ensures
        balanced(w),
        forall|d: int| d > 0 ==> keeps_open(w, d),
    decreases w.len(),
{
    if w.len() > 0 {
        let t = w.drop_first();
        assert forall|i: int| 0 <= i < t.len() implies depth_delta(#[trigger] t[i]) == 0 by {
            assert(t[i] == w[i + 1]);
        }
        assert(depth_delta(w[0]) == 0);
        lemma_flat_balanced(t);
        assert forall|d: int| d > 0 implies keeps_open(w, d) by {
            assert(keeps_open(t, d + depth_delta(w[0])));
        }
    }
}

proof fn lemma_single(x: Tok, d: int)
    ensures
        dsum(seq![x]) == depth_delta(x),
        keeps_open(seq![x], d) == (d + depth_delta(x) > 0),
{
    let e = seq![x].drop_first();
    assert(e =~= Seq::<Tok>::empty());
    assert(dsum(e) == 0);
    assert(keeps_open(e, d + depth_delta(x)));
    assert(seq![x][0] == x);
}

/// An object or array around balanced values is balanced.
proof fn lemma_wrap_balanced(open: Tok, inner: Seq<Tok>, close: Tok)
    requires
        balanced(inner),
        depth_delta(open) == 1,
        depth_delta(close) == -1,
    ensures
        balanced(seq![open] + inner + seq![close]),
        keeps_open(seq![open] + inner, 0),
        dsum(seq![open] + inner) == 1,
{
    lemma_keeps_mono(inner, 1, 2);
    lemma_single(open, 0);
    lemma_single(open, 1);
    lemma_single(close, 2);
    lemma_dsum_keeps_concat(seq![open], inner, 1);
    lemma_dsum_keeps_concat(seq![open], inner, 0);
    lemma_dsum_keeps_concat(seq![open] + inner, seq![close], 1);
}

proof fn lemma_plain_concat(a: Seq<Tok>, b: Seq<Tok>)
    requires
        all_plain(a),
        all_plain(b),
    ensures
        all_plain(a + b),
{
    assert forall|i: int| 0 <= i < (a + b).len() implies plain(#[trigger] (a + b)[i]) by {
        if i < a.len() {
            assert((a + b)[i] == a[i]);
        } else {
            assert((a + b)[i] == b[i - a.len()]);
        }
    }
}

/// Plain tokens that neither open nor close.
pub open spec fn flat(w: Seq<Tok>) -> bool {
    forall|i: int| 0 <= i < w.len() ==> plain(#[trigger] w[i]) && depth_delta(w[i]) == 0
}

/// Balanced and plain.
pub open spec fn whole(w: Seq<Tok>) -> bool {
    balanced(w) && all_plain(w)
}

proof fn lemma_flat_whole(w: Seq<Tok>)
    requires
        flat(w),
    ensures
        whole(w),
        forall|d: int| d > 0 ==> keeps_open(w, d),
{
    lemma_flat_balanced(w);
}

proof fn lemma_whole_concat(a: Seq<Tok>, b: Seq<Tok>)
    requires
        whole(a),
        whole(b),
    ensures
        whole(a + b),
{
    lemma_balanced_concat(a, b);
    lemma_plain_concat(a, b);
}

proof fn lemma_whole_wrap(open: Tok, inner: Seq<Tok>, close: Tok)
    requires
        whole(inner),
        depth_delta(open) == 1,
        depth_delta(close) == -1,
        plain(open),
        plain(close),
    ensures
        whole(seq![open] + inner + seq![close]),
{
    lemma_wrap_balanced(open, inner, close);
    assert(all_plain(seq![open]));
    assert(all_plain(seq![close]));
    lemma_plain_concat(seq![open], inner);
    lemma_plain_concat(seq![open] + inner, seq![close]);
}

proof fn lemma_key_flat(k: Seq<char>)
    ensures
        flat(key_toks(k)),
{
    let w = key_toks(k);
    assert(w[0] == Tok::Str(k));
    assert(w[1] == Tok::Colon);
}

proof fn lemma_flat_concat(a: Seq<Tok>, b: Seq<Tok>)
    requires
        flat(a),
        flat(b),
    ensures
        flat(a + b),
{
    assert forall|i: int| 0 <= i < (a + b).len() implies plain(#[trigger] (a + b)[i]) && depth_delta((a + b)[i]) == 0 by {
        if i < a.len() {
            assert((a + b)[i] == a[i]);
        } else {
            assert((a + b)[i] == b[i - a.len()]);
        }
    }
}

proof fn lemma_opt_flat(k: Seq<char>, v: Option<Seq<char>>)
    ensures
        flat(opt_member_toks(k, v)),
{
    if let Some(x) = v {
        let w = opt_member_toks(k, v);
        assert(w =~= seq![Tok::Comma, Tok::Str(k), Tok::Colon, Tok::Str(x)]);
        assert(w[0] == Tok::Comma);
        assert(w[1] == Tok::Str(k));
        assert(w[2] == Tok::Colon);
        assert(w[3] == Tok::Str(x));
    }
}

proof fn lemma_seq_flat1(a: Tok)
    requires
        plain(a),
        depth_delta(a) == 0,
    ensures
        flat(seq![a]),
{
    assert(seq![a][0] == a);
}

/// The term object of a value is balanced and plain.
#[verifier::rlimit(40)]
pub proof fn lemma_value_whole(t: Term)
    ensures
        whole(value_toks(t)),
    decreases t,
{
    let head = key_toks("type"@) + seq![Tok::Str(term_kind(t)), Tok::Comma] + key_toks("value"@);
    lemma_key_flat("type"@);
    lemma_key_flat("value"@);
    lemma_seq_flat1(Tok::Str(term_kind(t)));
    lemma_seq_flat1(Tok::Comma);
    lemma_flat_concat(seq![Tok::Str(term_kind(t))], seq![Tok::Comma]);
    assert(seq![Tok::Str(term_kind(t))] + seq![Tok::Comma] =~= seq![Tok::Str(term_kind(t)), Tok::Comma]);
    lemma_flat_concat(key_toks("type"@), seq![Tok::Str(term_kind(t)), Tok::Comma]);
    lemma_flat_concat(key_toks("type"@) + seq![Tok::Str(term_kind(t)), Tok::Comma], key_toks("value"@));
    match t {
        Term::Uri(s) | Term::BNode(s) => {
            lemma_seq_flat1(Tok::Str(s));
            lemma_flat_concat(head, seq![Tok::Str(s)]);
            lemma_flat_whole(head + seq![Tok::Str(s)]);
            lemma_whole_wrap(Tok::ObjectStart, head + seq![Tok::Str(s)], Tok::ObjectEnd);
            assert(value_toks(t) =~= seq![Tok::ObjectStart] + (head + seq![Tok::Str(s)]) + seq![Tok::ObjectEnd]);
        },
        Term::Literal { value, lang, datatype, dir } => {
            let dv = match dir {
                Some(d) => Some(direction_token(d)),
                None => None,
            };
            let opts = opt_member_toks("xml:lang"@, lang) + opt_member_toks("its:dir"@, dv) + opt_member_toks(
                "datatype"@,
                datatype,
            );
            lemma_opt_flat("xml:lang"@, lang);
            lemma_opt_flat("its:dir"@, dv);
            lemma_opt_flat("datatype"@, datatype);
            lemma_flat_concat(opt_member_toks("xml:lang"@, lang), opt_member_toks("its:dir"@, dv));
            lemma_flat_concat(
                opt_member_toks("xml:lang"@, lang) + opt_member_toks("its:dir"@, dv),
                opt_member_toks("datatype"@, datatype),
            );
            lemma_seq_flat1(Tok::Str(value));
            lemma_flat_concat(head, seq![Tok::Str(value)]);
            lemma_flat_concat(head + seq![Tok::Str(value)], opts);
            let inner = head + seq![Tok::Str(value)] + opts;
            lemma_flat_whole(inner);
            lemma_whole_wrap(Tok::ObjectStart, inner, Tok::ObjectEnd);
            assert(value_toks(t) =~= seq![Tok::ObjectStart] + inner + seq![Tok::ObjectEnd]);
        },
        Term::Triple { subject, predicate, object } => {
            lemma_value_whole(*subject);
            lemma_value_whole(*predicate);
            lemma_value_whole(*object);
            lemma_flat_whole(head);
            let k1 = key_toks("subject"@);
            let k2 = seq![Tok::Comma] + key_toks("predicate"@);
            let k3 = seq![Tok::Comma] + key_toks("object"@);
            lemma_key_flat("subject"@);
            lemma_key_flat("predicate"@);
            lemma_key_flat("object"@);
            lemma_seq_flat1(Tok::Comma);
            lemma_flat_concat(seq![Tok::Comma], key_toks("predicate"@));
            lemma_flat_concat(seq![Tok::Comma], key_toks("object"@));
            lemma_flat_whole(k1);
            lemma_flat_whole(k2);
            lemma_flat_whole(k3);
            let vs = value_toks(*subject);
            let vp = value_toks(*predicate);
            let vo = value_toks(*object);
            lemma_whole_concat(k1, vs);
            lemma_whole_concat(k1 + vs, k2);
            lemma_whole_concat(k1 + vs + k2, vp);
            lemma_whole_concat(k1 + vs + k2 + vp, k3);
            lemma_whole_concat(k1 + vs + k2 + vp + k3, vo);
            let body = k1 + vs + k2 + vp + k3 + vo;
            lemma_whole_wrap(Tok::ObjectStart, body, Tok::ObjectEnd);
            let nested = seq![Tok::ObjectStart] + body + seq![Tok::ObjectEnd];
            lemma_whole_concat(head, nested);
            lemma_whole_wrap(Tok::ObjectStart, head + nested, Tok::ObjectEnd);
            assert(value_toks(t) =~= seq![Tok::ObjectStart] + (head + nested) + seq![Tok::ObjectEnd]);
        },
    }
}

/// The `type` of a term object.
pub open spec fn term_kind(t: Term) -> Seq<char> {
    match t {
        Term::Uri(_) => "uri"@,
        Term::BNode(_) => "bnode"@,
        Term::Literal { .. } => "literal"@,
        Term::Triple { .. } => "triple"@,
    }
}

/// The members of a binding object are balanced and plain.
pub proof fn lemma_members_whole(e: Seq<(Seq<char>, Term)>)
    ensures
        whole(members_toks(e)),
    decreases e.len(),
{
    if e.len() == 0 {
        lemma_flat_whole(members_toks(e));
    } else {
        let x = e.last();
        lemma_key_flat(x.0);
        lemma_flat_whole(key_toks(x.0));
        lemma_value_whole(x.1);
        lemma_whole_concat(key_toks(x.0), value_toks(x.1));
        if e.len() == 1 {
            assert(e[0] == x);
        } else {
            lemma_members_whole(e.drop_last());
            lemma_seq_flat1(Tok::Comma);
            lemma_flat_whole(seq![Tok::Comma]);
            lemma_whole_concat(members_toks(e.drop_last()), seq![Tok::Comma]);
            lemma_whole_concat(members_toks(e.drop_last()) + seq![Tok::Comma], key_toks(x.0) + value_toks(x.1));
            assert(members_toks(e) =~= members_toks(e.drop_last()) + seq![Tok::Comma] + (key_toks(x.0) + value_toks(
                x.1,
            )));
        }
    }
}

/// A string array's elements are flat.
pub proof fn lemma_strings_flat(v: Seq<Seq<char>>)
    ensures
        flat(strings_toks(v)),
    decreases v.len(),
{
    if v.len() == 1 {
        lemma_seq_flat1(Tok::Str(v[0]));
    } else if v.len() > 1 {
        lemma_strings_flat(v.drop_last());
        lemma_seq_flat1(Tok::Comma);
        lemma_seq_flat1(Tok::Str(v.last()));
        lemma_flat_concat(seq![Tok::Comma], seq![Tok::Str(v.last())]);
        assert(seq![Tok::Comma] + seq![Tok::Str(v.last())] =~= seq![Tok::Comma, Tok::Str(v.last())]);
        lemma_flat_concat(strings_toks(v.drop_last()), seq![Tok::Comma, Tok::Str(v.last())]);
    }
}

/// One token that keeps a collected value open.
proof fn lemma_collect_step(s: SrjState, t: Tok)
    requires
        s.phase is Collect,
        s.depth + depth_delta(t) > 0,
        plain(t),
    ensures
        srj_step(s, t) == cont(SrjState { collected: s.collected.push(t), depth: s.depth + depth_delta(t), ..s }),
{
}

/// Feeding a run to the collector while it stays open adds the run.
proof fn lemma_feed_collect(w: Seq<Tok>, s: SrjState, c: CollectedView)
    requires
        s.phase is Collect,
        s.depth > 0,
        keeps_open(w, s.depth),
        all_plain(w),
    ensures
        srj_feed(w, s, c) == Fed::Open(SrjState { collected: s.collected + w, depth: s.depth + dsum(w), ..s }, c),
    decreases w.len(),
{
    if w.len() == 0 {
        assert(s.collected + w =~= s.collected);
    } else {
        let t = w[0];
        assert(plain(w[0]));
        let s1 = SrjState { collected: s.collected.push(t), depth: s.depth + depth_delta(t), ..s };
        lemma_collect_step(s, t);
        let rest = w.drop_first();
        assert(all_plain(rest)) by {
            assert forall|i: int| 0 <= i < rest.len() implies plain(#[trigger] rest[i]) by {
                assert(rest[i] == w[i + 1]);
            }
        }
        lemma_feed_collect(rest, s1, c);
        assert(s.collected.push(t) + rest =~= s.collected + w);
    }
}

/// What a single step leaves: the state and the collected events, or the
/// end of the run.
pub open spec fn fed_of(st: SrjStepView, c: CollectedView) -> Fed {
    match st.outcome {
        SrjOutcomeView::Continue => Fed::Open(st.state, collect_event(c, st.event)),
        SrjOutcomeView::Finished(_) => Fed::Closed(Ok(collected_result(collect_event(c, st.event)))),
        SrjOutcomeView::Failed(k) => Fed::Closed(Err(k)),
    }
}

/// Feeding one token.
proof fn lemma_feed_one(t: Tok, s: SrjState, c: CollectedView)
    ensures
        srj_feed(seq![t], s, c) == fed_of(srj_step(s, t), c),
{
    let e = seq![t].drop_first();
    assert(e =~= Seq::<Tok>::empty());
    assert(seq![t][0] == t);
    let st = srj_step(s, t);
    assert(srj_feed(e, st.state, collect_event(c, st.event)) == Fed::Open(st.state, collect_event(c, st.event)));
}

/// Feeding a whole object that the parser collects: the collected object
/// is then complete.
pub proof fn lemma_feed_object(inner: Seq<Tok>, s: SrjState, c: CollectedView, target: CollectTarget)
    requires
        whole(inner),
        srj_step(s, Tok::ObjectStart) == collect_start(s, target, Tok::ObjectStart),
    ensures
        srj_feed(seq![Tok::ObjectStart] + inner + seq![Tok::ObjectEnd], s, c) == fed_of(
            complete(
                SrjState {
                    phase: SrjPhase::Collect(target),
                    collected: seq![Tok::ObjectStart] + inner + seq![Tok::ObjectEnd],
                    depth: 0,
                    ..s
                },
                target,
            ),
            c,
        ),
{
    let s1 = SrjState { phase: SrjPhase::Collect(target), collected: seq![Tok::ObjectStart], depth: 1, ..s };
    assert(srj_step(s, Tok::ObjectStart) == cont(s1));
    lemma_feed_one(Tok::ObjectStart, s, c);
    lemma_feed_concat(seq![Tok::ObjectStart], inner + seq![Tok::ObjectEnd], s, c);
    assert(seq![Tok::ObjectStart] + inner + seq![Tok::ObjectEnd] =~= seq![Tok::ObjectStart] + (inner + seq![
        Tok::ObjectEnd,
    ]));
    lemma_feed_collect(inner, s1, c);
    let s2 = SrjState { collected: seq![Tok::ObjectStart] + inner, depth: 1, ..s1 };
    lemma_feed_concat(inner, seq![Tok::ObjectEnd], s1, c);
    lemma_feed_one(Tok::ObjectEnd, s2, c);
    assert(s2.collected.push(Tok::ObjectEnd) =~= seq![Tok::ObjectStart] + inner + seq![Tok::ObjectEnd]);
}

/// One binding object read as a row: the row event carries the entries
/// sorted by variable.
proof fn lemma_feed_row(e: Seq<(Seq<char>, Term)>, s: SrjState, c: CollectedView)
    requires
        s.phase == SrjPhase::BindLoop || s.phase == SrjPhase::BindAfterComma,
        s.count + 1 <= u64::MAX,
        keys_unique(sorted_entries(e)),
    ensures
        srj_feed(binding_toks(e), s, c) == Fed::Open(
            SrjState { phase: SrjPhase::BindAfterRow, collected: seq![], depth: 0, count: s.count + 1, ..s },
            CollectedView { rows: c.rows.push(sorted_entries(e)), ..c },
        ),
{
    let m = members_toks(sorted_entries(e));
    lemma_members_whole(sorted_entries(e));
    assert(srj_step(s, Tok::ObjectStart) == collect_start(s, CollectTarget::Row, Tok::ObjectStart));
    lemma_feed_object(m, s, c, CollectTarget::Row);
    lemma_read_binding(e);
}

/// The state after `k` rows of the bindings array.
pub open spec fn rows_state(s: SrjState, k: int) -> SrjState {
    SrjState {
        phase: if k == 0 {
            SrjPhase::BindLoop
        } else {
            SrjPhase::BindAfterRow
        },
        count: k,
        ..s
    }
}

/// The rows as the parser reads them back: each row's entries sorted by
/// variable.
pub open spec fn sorted_rows(rows: Seq<Seq<(Seq<char>, Term)>>) -> Seq<Seq<(Seq<char>, Term)>> {
    rows.map_values(|e: Seq<(Seq<char>, Term)>| sorted_entries(e))
}

/// The binding objects of the rows read back as row events.
proof fn lemma_feed_rows(rows: Seq<Seq<(Seq<char>, Term)>>, s: SrjState, c: CollectedView)
    requires
        s.phase == SrjPhase::BindLoop,
        s.collected == Seq::<Tok>::empty(),
        s.depth == 0,
        s.count == 0,
        rows.len() < u64::MAX,
        forall|i: int| 0 <= i < rows.len() ==> keys_unique(#[trigger] sorted_entries(rows[i])),
    ensures
        srj_feed(rows_toks(rows), s, c) == Fed::Open(
            rows_state(s, rows.len() as int),
            CollectedView { rows: c.rows + sorted_rows(rows), ..c },
        ),
    decreases rows.len(),
{
    if rows.len() == 0 {
        assert(c.rows + sorted_rows(rows) =~= c.rows);
        assert(rows_state(s, 0) == s);
    } else if rows.len() == 1 {
        assert(keys_unique(sorted_entries(rows[0])));
        lemma_feed_row(rows[0], s, c);
        assert(c.rows.push(sorted_entries(rows[0])) =~= c.rows + sorted_rows(rows));
    } else {
        let pre = rows.drop_last();
        let n1 = pre.len() as int;
        assert forall|i: int| 0 <= i < pre.len() implies keys_unique(#[trigger] sorted_entries(pre[i])) by {
            assert(pre[i] == rows[i]);
        }
        lemma_feed_rows(pre, s, c);
        let c1 = CollectedView { rows: c.rows + sorted_rows(pre), ..c };
        let s1 = rows_state(s, n1);
        lemma_feed_concat(rows_toks(pre), seq![Tok::Comma] + binding_toks(rows.last()), s, c);
        assert(rows_toks(rows) =~= rows_toks(pre) + (seq![Tok::Comma] + binding_toks(rows.last())));
        lemma_feed_concat(seq![Tok::Comma], binding_toks(rows.last()), s1, c1);
        lemma_feed_one(Tok::Comma, s1, c1);
        let s2 = SrjState { phase: SrjPhase::BindAfterComma, ..s1 };
        assert(keys_unique(sorted_entries(rows[n1])));
        lemma_feed_row(rows.last(), s2, c1);
        assert(c1.rows.push(sorted_entries(rows.last())) =~= c.rows + sorted_rows(rows));
    }
}

/// Feeding a token, then the rest.
proof fn lemma_feed_cons(t: Tok, rest: Seq<Tok>, s: SrjState, c: CollectedView)
    ensures
        srj_feed(seq![t] + rest, s, c) == match fed_of(srj_step(s, t), c) {
            Fed::Open(s2, c2) => srj_feed(rest, s2, c2),
            Fed::Closed(r) => Fed::Closed(r),
        },
{
    lemma_feed_concat(seq![t], rest, s, c);
    lemma_feed_one(t, s, c);
}

/// `{"head":` from the initial state.
proof fn lemma_feed_doc_start(c: CollectedView)
    ensures
        srj_feed(seq![Tok::ObjectStart, Tok::Str("head"@), Tok::Colon], srj_initial(), c) == Fed::Open(
            SrjState { phase: SrjPhase::DocValue(DocMember::Head), ..srj_initial() },
            c,
        ),
{
    let s0 = srj_initial();
    let s1 = SrjState { phase: SrjPhase::DocLoop, ..s0 };
    let s2 = SrjState { phase: SrjPhase::DocColon(DocMember::Head), ..s0 };
    let s3 = SrjState { phase: SrjPhase::DocValue(DocMember::Head), ..s0 };
    assert(seq![Tok::ObjectStart, Tok::Str("head"@), Tok::Colon] =~= seq![Tok::ObjectStart] + (seq![Tok::Str("head"@)] + seq![Tok::Colon]));
    lemma_feed_cons(Tok::ObjectStart, seq![Tok::Str("head"@)] + seq![Tok::Colon], s0, c);
    lemma_feed_cons(Tok::Str("head"@), seq![Tok::Colon], s1, c);
    lemma_feed_one(Tok::Colon, s2, c);
}

/// The `head` object from its value position.
proof fn lemma_feed_head(vars: Seq<Seq<char>>, s: SrjState, c: CollectedView)
    requires
        s.phase == SrjPhase::DocValue(DocMember::Head),
    ensures
        srj_feed(head_object_toks(vars), s, c) == Fed::Open(
            SrjState { phase: SrjPhase::DocAfterMember, head: Some(vars), collected: seq![], depth: 0, ..s },
            c,
        ),
{
    let inner = key_toks("vars"@) + (seq![Tok::ArrayStart] + strings_toks(vars) + seq![Tok::ArrayEnd]);
    lemma_key_flat("vars"@);
    lemma_flat_whole(key_toks("vars"@));
    lemma_strings_flat(vars);
    lemma_flat_whole(strings_toks(vars));
    lemma_whole_wrap(Tok::ArrayStart, strings_toks(vars), Tok::ArrayEnd);
    lemma_whole_concat(key_toks("vars"@), seq![Tok::ArrayStart] + strings_toks(vars) + seq![Tok::ArrayEnd]);
    assert(head_object_toks(vars) =~= seq![Tok::ObjectStart] + inner + seq![Tok::ObjectEnd]);
    assert(srj_step(s, Tok::ObjectStart) == collect_start(s, CollectTarget::Head, Tok::ObjectStart));
    lemma_feed_object(inner, s, c, CollectTarget::Head);
    lemma_read_head(vars);
}

/// `,"results":{"bindings":[` after the `head` member.
#[verifier::rlimit(80)]
proof fn lemma_feed_results_start(vars: Seq<Seq<char>>, s: SrjState, c: CollectedView)
    requires
        s.phase == SrjPhase::DocAfterMember,
        s.head == Some(vars),
    ensures
        srj_feed(
            seq![Tok::Comma, Tok::Str("results"@), Tok::Colon, Tok::ObjectStart, Tok::Str("bindings"@), Tok::Colon, Tok::ArrayStart],
            s,
            c,
        ) == Fed::Open(
            SrjState { phase: SrjPhase::BindLoop, head: None, results_count: None, count: 0, ..s },
            CollectedView { vars, ..c },
        ),
{
    lemma_keys_distinct();
    let w = seq![Tok::Comma, Tok::Str("results"@), Tok::Colon, Tok::ObjectStart, Tok::Str("bindings"@), Tok::Colon, Tok::ArrayStart];
    let s1 = SrjState { phase: SrjPhase::DocAfterComma, ..s };
    let s2 = SrjState { phase: SrjPhase::DocColon(DocMember::Results), ..s };
    let s3 = SrjState { phase: SrjPhase::DocValue(DocMember::Results), head: None, ..s };
    let c3 = CollectedView { vars, ..c };
    let s4 = SrjState { phase: SrjPhase::ResLoop, results_count: None, ..s3 };
    let s5 = SrjState { phase: SrjPhase::ResColon(true), ..s4 };
    let s6 = SrjState { phase: SrjPhase::ResValue(true), ..s4 };
    assert(w =~= seq![Tok::Comma] + (seq![Tok::Str("results"@)] + (seq![Tok::Colon] + (seq![Tok::ObjectStart] + (seq![Tok::Str("bindings"@)] + (seq![Tok::Colon] + seq![Tok::ArrayStart]))))));
    lemma_feed_cons(Tok::Comma, w.drop_first(), s, c);
    assert(w.drop_first() =~= seq![Tok::Str("results"@)] + w.drop_first().drop_first());
    lemma_feed_cons(Tok::Str("results"@), w.drop_first().drop_first(), s1, c);
    let w2 = w.drop_first().drop_first();
    assert(w2 =~= seq![Tok::Colon] + w2.drop_first());
    lemma_feed_cons(Tok::Colon, w2.drop_first(), s2, c);
    let w3 = w2.drop_first();
    assert(w3 =~= seq![Tok::ObjectStart] + w3.drop_first());
    lemma_feed_cons(Tok::ObjectStart, w3.drop_first(), s3, c3);
    let w4 = w3.drop_first();
    assert(w4 =~= seq![Tok::Str("bindings"@)] + w4.drop_first());
    lemma_feed_cons(Tok::Str("bindings"@), w4.drop_first(), s4, c3);
    let w5 = w4.drop_first();
    assert(w5 =~= seq![Tok::Colon] + seq![Tok::ArrayStart]);
    lemma_feed_cons(Tok::Colon, seq![Tok::ArrayStart], s5, c3);
    lemma_feed_one(Tok::ArrayStart, s6, c3);
}

/// `]}}` after the rows.
proof fn lemma_feed_select_end(s: SrjState, c: CollectedView)
    requires
        s.phase == SrjPhase::BindLoop || s.phase == SrjPhase::BindAfterRow,
        0 <= s.count <= u64::MAX,
    ensures
        srj_feed(select_end_toks(), s, c) == Fed::Open(
            SrjState {
                phase: SrjPhase::AfterDoc,
                results_count: Some(s.count),
                summary: Some(SrjStreamSummary { kind: SrjStreamKind::Select, row_count: s.count as u64 }),
                ..s
            },
            c,
        ),
{
    let s1 = SrjState { phase: SrjPhase::ResAfterMember, results_count: Some(s.count), ..s };
    let s2 = SrjState {
        phase: SrjPhase::DocAfterMember,
        summary: Some(SrjStreamSummary { kind: SrjStreamKind::Select, row_count: s.count as u64 }),
        ..s1
    };
    assert(select_end_toks() =~= seq![Tok::ArrayEnd] + (seq![Tok::ObjectEnd] + seq![Tok::ObjectEnd]));
    lemma_feed_cons(Tok::ArrayEnd, seq![Tok::ObjectEnd] + seq![Tok::ObjectEnd], s, c);
    lemma_feed_cons(Tok::ObjectEnd, seq![Tok::ObjectEnd], s1, c);
    lemma_feed_one(Tok::ObjectEnd, s2, c);
}

/// At the end of the input a complete document finishes.
proof fn lemma_run_end(s: SrjState, c: CollectedView)
    requires
        s.phase == SrjPhase::AfterDoc,
        s.summary is Some,
    ensures
        srj_run(Seq::<u8>::empty(), s, c, 2) == Ok::<ResultView, ErrKind>(collected_result(c)),
{
    assert(skip_ws(Seq::<u8>::empty(), 0) == 0);
    assert(spec_scan(Seq::<u8>::empty(), true) == ScanView::Tok(Tok::Eof, 0));
}

/// The rows' binding objects are balanced and plain.
proof fn lemma_rows_whole(rows: Seq<Seq<(Seq<char>, Term)>>)
    ensures
        whole(rows_toks(rows)),
    decreases rows.len(),
{
    if rows.len() == 0 {
        lemma_flat_whole(rows_toks(rows));
    } else {
        let e = rows.last();
        lemma_members_whole(sorted_entries(e));
        lemma_whole_wrap(Tok::ObjectStart, members_toks(sorted_entries(e)), Tok::ObjectEnd);
        if rows.len() > 1 {
            lemma_rows_whole(rows.drop_last());
            lemma_seq_flat1(Tok::Comma);
            lemma_flat_whole(seq![Tok::Comma]);
            lemma_whole_concat(rows_toks(rows.drop_last()), seq![Tok::Comma]);
            lemma_whole_concat(rows_toks(rows.drop_last()) + seq![Tok::Comma], binding_toks(e));
        } else {
            assert(rows[0] == e);
        }
    }
}

/// Plain tokens are written tokens when every text reads back.
proof fn lemma_plain_written(w: Seq<Tok>)
    requires
        all_plain(w),
        strings_read_back(w),
    ensures
        all_written(w),
{
    assert forall|i: int| 0 <= i < w.len() implies written(#[trigger] w[i]) by {
        assert(plain(w[i]));
        assert(str_reads_back(w[i]));
    }
}

/// A SELECT document's tokens read as its header and rows.
proof fn lemma_feed_select(vars: Seq<Seq<char>>, rows: Seq<Seq<(Seq<char>, Term)>>)
    requires
        rows.len() < u64::MAX,
        forall|i: int| 0 <= i < rows.len() ==> keys_unique(#[trigger] sorted_entries(rows[i])),
    ensures
        ({
            let c = CollectedView { vars, rows: sorted_rows(rows), ask: None };
            &&& srj_feed(select_toks(vars, rows), srj_initial(), collected_initial()) matches Fed::Open(s, c2)
            &&& c2 == c
            &&& s.phase == SrjPhase::AfterDoc
            &&& s.summary is Some
        }),
{
    let c0 = collected_initial();
    let a = seq![Tok::ObjectStart, Tok::Str("head"@), Tok::Colon];
    let h = head_object_toks(vars);
    let b = seq![Tok::Comma, Tok::Str("results"@), Tok::Colon, Tok::ObjectStart, Tok::Str("bindings"@), Tok::Colon, Tok::ArrayStart];
    assert(select_start_toks(vars) =~= a + h + b);
    assert(select_toks(vars, rows) =~= a + (h + (b + (rows_toks(rows) + select_end_toks()))));
    lemma_feed_concat(a, h + (b + (rows_toks(rows) + select_end_toks())), srj_initial(), c0);
    lemma_feed_doc_start(c0);
    let s1 = SrjState { phase: SrjPhase::DocValue(DocMember::Head), ..srj_initial() };
    lemma_feed_concat(h, b + (rows_toks(rows) + select_end_toks()), s1, c0);
    lemma_feed_head(vars, s1, c0);
    let s2 = SrjState { phase: SrjPhase::DocAfterMember, head: Some(vars), collected: seq![], depth: 0, ..s1 };
    lemma_feed_concat(b, rows_toks(rows) + select_end_toks(), s2, c0);
    lemma_feed_results_start(vars, s2, c0);
    let s3 = SrjState { phase: SrjPhase::BindLoop, head: None, results_count: None, count: 0, ..s2 };
    let c3 = CollectedView { vars, ..c0 };
    lemma_feed_concat(rows_toks(rows), select_end_toks(), s3, c3);
    lemma_feed_rows(rows, s3, c3);
    let c4 = CollectedView { rows: c3.rows + sorted_rows(rows), ..c3 };
    assert(c3.rows + sorted_rows(rows) =~= sorted_rows(rows));
    lemma_feed_select_end(rows_state(s3, rows.len() as int), c4);
}

/// An ASK document's tokens read as its boolean.
proof fn lemma_feed_ask(b: bool)
    ensures
        ({
            &&& srj_feed(ask_toks(b), srj_initial(), collected_initial()) matches Fed::Open(s, c2)
            &&& c2 == CollectedView { ask: Some(b), ..collected_initial() }
            &&& s.phase == SrjPhase::AfterDoc
            &&& s.summary is Some
        }),
{
    lemma_keys_distinct();
    let c0 = collected_initial();
    let a = seq![Tok::ObjectStart, Tok::Str("head"@), Tok::Colon];
    let h = seq![Tok::ObjectStart, Tok::ObjectEnd];
    let rest = seq![Tok::Comma, Tok::Str("boolean"@), Tok::Colon, Tok::Bool(b), Tok::ObjectEnd];
    assert(ask_toks(b) =~= a + (h + rest));
    lemma_feed_concat(a, h + rest, srj_initial(), c0);
    lemma_feed_doc_start(c0);
    let s1 = SrjState { phase: SrjPhase::DocValue(DocMember::Head), ..srj_initial() };
    lemma_feed_concat(h, rest, s1, c0);
    lemma_flat_whole(Seq::<Tok>::empty());
    assert(h =~= seq![Tok::ObjectStart] + Seq::<Tok>::empty() + seq![Tok::ObjectEnd]);
    assert(srj_step(s1, Tok::ObjectStart) == collect_start(s1, CollectTarget::Head, Tok::ObjectStart));
    lemma_feed_object(Seq::<Tok>::empty(), s1, c0, CollectTarget::Head);
    assert(sp_parse_head(h, 0) == Parsed::Done(Seq::<Seq<char>>::empty(), 2));
    let s2 = SrjState { phase: SrjPhase::DocAfterMember, head: Some(seq![]), collected: seq![], depth: 0, ..s1 };
    let s3 = SrjState { phase: SrjPhase::DocAfterComma, ..s2 };
    let s4 = SrjState { phase: SrjPhase::DocColon(DocMember::Boolean), ..s2 };
    let s5 = SrjState { phase: SrjPhase::DocValue(DocMember::Boolean), ..s2 };
    let s6 = SrjState {
        phase: SrjPhase::DocAfterMember,
        summary: Some(SrjStreamSummary { kind: SrjStreamKind::Ask, row_count: 1 }),
        ..s2
    };
    let c6 = CollectedView { ask: Some(b), ..c0 };
    assert(rest =~= seq![Tok::Comma] + (seq![Tok::Str("boolean"@)] + (seq![Tok::Colon] + (seq![Tok::Bool(b)] + seq![Tok::ObjectEnd]))));
    lemma_feed_cons(Tok::Comma, seq![Tok::Str("boolean"@)] + (seq![Tok::Colon] + (seq![Tok::Bool(b)] + seq![Tok::ObjectEnd])), s2, c0);
    lemma_feed_cons(Tok::Str("boolean"@), seq![Tok::Colon] + (seq![Tok::Bool(b)] + seq![Tok::ObjectEnd]), s3, c0);
    lemma_feed_cons(Tok::Colon, seq![Tok::Bool(b)] + seq![Tok::ObjectEnd], s4, c0);
    lemma_feed_cons(Tok::Bool(b), seq![Tok::ObjectEnd], s5, c0);
    lemma_feed_one(Tok::ObjectEnd, s6, c6);
}

/// Where `sort_insert` puts `x`: before the first entry that sorts after it.
pub open spec fn insert_pos(s: Seq<(Seq<char>, Term)>, x: (Seq<char>, Term)) -> int
    decreases s.len(),
{
    if s.len() == 0 {
        0
    } else if entry_lt(x, s[0]) {
        0
    } else {
        1 + insert_pos(s.drop_first(), x)
    }
}

proof fn lemma_sort_insert_pos(s: Seq<(Seq<char>, Term)>, x: (Seq<char>, Term))
    ensures
        0 <= insert_pos(s, x) <= s.len(),
        sort_insert(s, x) == s.insert(insert_pos(s, x), x),
    decreases s.len(),
{
    if s.len() == 0 {
        assert(seq![x] =~= s.insert(0, x));
    } else if entry_lt(x, s[0]) {
        assert(seq![x] + s =~= s.insert(0, x));
    } else {
        lemma_sort_insert_pos(s.drop_first(), x);
        assert(seq![s[0]] + s.drop_first().insert(insert_pos(s.drop_first(), x), x) =~= s.insert(
            insert_pos(s, x),
            x,
        ));
    }
}

/// Sorting the entries of a row keeps the same entries: each sorted entry
/// is an entry of the row, the two hold the same entries as multisets, and
/// distinct variables stay distinct.
pub proof fn lemma_sorted_entries_permutes(e: Seq<(Seq<char>, Term)>)
    ensures
        sorted_entries(e).len() == e.len(),
        sorted_entries(e).to_multiset() == e.to_multiset(),
        forall|i: int| 0 <= i < e.len() ==> e.contains(#[trigger] sorted_entries(e)[i]),
        keys_unique(e) ==> keys_unique(sorted_entries(e)),
    decreases e.len(),
{
    broadcast use vstd::seq_lib::group_to_multiset_ensures;

    if e.len() > 0 {
        let d = e.drop_last();
        let x = e.last();
        lemma_sorted_entries_permutes(d);
        let s = sorted_entries(d);
        lemma_sort_insert_pos(s, x);
        let p = insert_pos(s, x);
        let r = s.insert(p, x);
        assert(sorted_entries(e) == r);
        assert(d.push(x) =~= e);
        assert(r.to_multiset() == s.to_multiset().insert(x));
        assert(e.to_multiset() == d.to_multiset().insert(x));
        assert forall|i: int| 0 <= i < e.len() implies e.contains(#[trigger] r[i]) by {
            if i < p {
                assert(r[i] == s[i]);
                assert(d.contains(s[i]));
                let j = choose|j: int| 0 <= j < d.len() && d[j] == s[i];
                assert(e[j] == d[j]);
            } else if i == p {
                assert(e[e.len() - 1] == x);
            } else {
                assert(r[i] == s[i - 1]);
                assert(d.contains(s[i - 1]));
                let j = choose|j: int| 0 <= j < d.len() && d[j] == s[i - 1];
                assert(e[j] == d[j]);
            }
        }
        if keys_unique(e) {
            assert(keys_unique(d)) by {
                assert forall|i: int, j: int| 0 <= i < j < d.len() implies d[i].0 != d[j].0 by {
                    assert(d[i] == e[i] && d[j] == e[j]);
                }
            }
            assert forall|k: int| 0 <= k < s.len() implies #[trigger] s[k].0 != x.0 by {
                assert(d.contains(s[k]));
                let j = choose|j: int| 0 <= j < d.len() && d[j] == s[k];
                assert(e[j] == d[j]);
                assert(e[e.len() - 1] == x);
            }
            assert forall|i: int, j: int| 0 <= i < j < r.len() implies r[i].0 != r[j].0 by {
                if j < p {
                    assert(r[i] == s[i] && r[j] == s[j]);
                } else if j == p {
                    assert(r[i] == s[i]);
                } else if i < p {
                    assert(r[i] == s[i] && r[j] == s[j - 1]);
                } else if i == p {
                    assert(r[j] == s[j - 1]);
                } else {
                    assert(r[i] == s[i - 1] && r[j] == s[j - 1]);
                }
            }
        }
    }
}

/// The result as the SRJ parser reads it back from the serializer's bytes:
/// the same variables, and each row's entries sorted by variable.
pub open spec fn srj_read_back(r: SparqlResult) -> ResultView {
    match r {
        SparqlResult::Select { vars, rows } => ResultView::Select {
            vars: texts(vars@),
            rows: sorted_rows(rows_entries(rows@)),
        },
        SparqlResult::Ask { result } => ResultView::Ask(result),
    }
}

/// A SELECT document's tokens are plain.
#[verifier::rlimit(40)]
proof fn lemma_select_plain(v: Seq<Seq<char>>, es: Seq<Seq<(Seq<char>, Term)>>)
    ensures
        all_plain(select_toks(v, es)),
{
    let ts = select_toks(v, es);
    let a = seq![Tok::ObjectStart, Tok::Str("head"@), Tok::Colon];
    let b = seq![Tok::Comma, Tok::Str("results"@), Tok::Colon, Tok::ObjectStart, Tok::Str("bindings"@), Tok::Colon, Tok::ArrayStart];
    assert(ts =~= a + head_object_toks(v) + b + rows_toks(es) + select_end_toks());
    assert(all_plain(a)) by {
        assert(a[0] == Tok::ObjectStart && a[1] == Tok::Str("head"@) && a[2] == Tok::Colon);
    }
    assert(all_plain(b)) by {
        assert(b[0] == Tok::Comma && b[1] == Tok::Str("results"@) && b[2] == Tok::Colon);
        assert(b[3] == Tok::ObjectStart && b[4] == Tok::Str("bindings"@) && b[5] == Tok::Colon);
        assert(b[6] == Tok::ArrayStart);
    }
    let inner = key_toks("vars"@) + (seq![Tok::ArrayStart] + strings_toks(v) + seq![Tok::ArrayEnd]);
    lemma_key_flat("vars"@);
    lemma_flat_whole(key_toks("vars"@));
    lemma_strings_flat(v);
    lemma_flat_whole(strings_toks(v));
    lemma_whole_wrap(Tok::ArrayStart, strings_toks(v), Tok::ArrayEnd);
    lemma_whole_concat(key_toks("vars"@), seq![Tok::ArrayStart] + strings_toks(v) + seq![Tok::ArrayEnd]);
    lemma_whole_wrap(Tok::ObjectStart, inner, Tok::ObjectEnd);
    assert(head_object_toks(v) =~= seq![Tok::ObjectStart] + inner + seq![Tok::ObjectEnd]);
    assert(all_plain(select_end_toks())) by {
        let w = select_end_toks();
        assert(w[0] == Tok::ArrayEnd && w[1] == Tok::ObjectEnd && w[2] == Tok::ObjectEnd);
    }
    lemma_rows_whole(es);
    lemma_plain_concat(a, head_object_toks(v));
    lemma_plain_concat(a + head_object_toks(v), b);
    lemma_plain_concat(a + head_object_toks(v) + b, rows_toks(es));
    lemma_plain_concat(a + head_object_toks(v) + b + rows_toks(es), select_end_toks());
}

/// The bytes of a SELECT document parse back to its header and rows.
proof fn lemma_select_round_trip(v: Seq<Seq<char>>, es: Seq<Seq<(Seq<char>, Term)>>)
    requires
        strings_read_back(select_toks(v, es)),
        es.len() < u64::MAX,
        forall|i: int| 0 <= i < es.len() ==> keys_unique(#[trigger] es[i]),
    ensures
        srj_parse(toks_bytes(select_toks(v, es))) == Ok::<ResultView, ErrKind>(
            ResultView::Select { vars: v, rows: sorted_rows(es) },
        ),
{
    assert forall|i: int| 0 <= i < es.len() implies keys_unique(#[trigger] sorted_entries(es[i])) by {
        assert(keys_unique(es[i]));
        lemma_sorted_entries_permutes(es[i]);
    }
    let ts = select_toks(v, es);
    lemma_feed_select(v, es);
    lemma_select_plain(v, es);
    lemma_plain_written(ts);
    assert(toks_bytes(ts) + Seq::<u8>::empty() =~= toks_bytes(ts));
    lemma_run_feed(ts, Seq::<u8>::empty(), srj_initial(), collected_initial(), 2);
    if let Fed::Open(s_end, c_end) = srj_feed(ts, srj_initial(), collected_initial()) {
        lemma_run_end(s_end, c_end);
    }
}

/// The bytes of an ASK document parse back to its boolean.
proof fn lemma_ask_round_trip(b: bool)
    requires
        strings_read_back(ask_toks(b)),
    ensures
        srj_parse(toks_bytes(ask_toks(b))) == Ok::<ResultView, ErrKind>(ResultView::Ask(b)),
{
    let ts = ask_toks(b);
    lemma_feed_ask(b);
    assert(all_plain(ts)) by {
        assert(ts =~= seq![Tok::ObjectStart, Tok::Str("head"@), Tok::Colon, Tok::ObjectStart, Tok::ObjectEnd, Tok::Comma, Tok::Str("boolean"@), Tok::Colon, Tok::Bool(b), Tok::ObjectEnd]);
        assert forall|i: int| 0 <= i < ts.len() implies plain(#[trigger] ts[i]) by {
        }
    }
    lemma_plain_written(ts);
    assert(toks_bytes(ts) + Seq::<u8>::empty() =~= toks_bytes(ts));
    lemma_run_feed(ts, Seq::<u8>::empty(), srj_initial(), collected_initial(), 2);
    if let Fed::Open(s_end, c_end) = srj_feed(ts, srj_initial(), collected_initial()) {
        lemma_run_end(s_end, c_end);
    }
}

/// The tokens of the document written for a result.
pub open spec fn srj_document_toks(r: SparqlResult) -> Seq<Tok> {
    match r {
        SparqlResult::Select { vars, rows } => select_toks(texts(vars@), rows_entries(rows@)),
        SparqlResult::Ask { result } => ask_toks(result),
    }
}

/// Parsing the SRJ bytes that [`crate::srj::serialize::write_srj_bytes`]
/// writes for a result gives back the result: an ASK boolean exactly, and
/// for a SELECT the variables in order and every row in order with the same
/// variable bindings (in the order of the variables' names, the order in
/// which they are written). This holds whenever `serde_json` reads back the
/// string literals it wrote for the document, each row binds each variable
/// once, and the rows can be counted.
pub proof fn lemma_srj_round_trip(r: SparqlResult)
    requires
        strings_read_back(srj_document_toks(r)),
        r matches SparqlResult::Select { rows, .. } ==> rows@.len() < u64::MAX && forall|i: int|
            0 <= i < rows@.len() ==> keys_unique(#[trigger] rows@[i].entries()),
    ensures
        srj_parse(srj_document(r)) == Ok::<ResultView, ErrKind>(srj_read_back(r)),
{
    match r {
        SparqlResult::Select { vars, rows } => {
            let es = rows_entries(rows@);
            assert forall|i: int| 0 <= i < es.len() implies keys_unique(#[trigger] es[i]) by {
                assert(keys_unique(rows@[i].entries()));
            }
            lemma_select_round_trip(texts(vars@), es);
        },
        SparqlResult::Ask { result } => {
            lemma_ask_round_trip(result);
        },
    }
}

} // verus!
