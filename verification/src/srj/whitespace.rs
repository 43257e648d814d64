//! JSON whitespace between tokens is insignificant: a space, tab, line
//! feed, form feed or carriage return before the bytes changes only how
//! many bytes the next token takes.

use vstd::prelude::*;

use crate::srj::token::{keyword_scan, number_end, skip_ws, spec_scan, string_close, ScanView};

verus! {

/// The scan of bytes that one more byte precedes: the same token, taking
/// one more byte.
pub open spec fn one_byte_later(v: ScanView) -> ScanView {
    match v {
        ScanView::Tok(t, n) => ScanView::Tok(t, n + 1),
        other => other,
    }
}

proof fn lemma_skip_shift(b: u8, rest: Seq<u8>, j: int)
    requires
        0 <= j,
    ensures
        skip_ws(seq![b] + rest, j + 1) == skip_ws(rest, j) + 1,
    decreases rest.len() - j,
{
    let buf = seq![b] + rest;
    if j < rest.len() {
        assert(buf[j + 1] == rest[j]);
        lemma_skip_shift(b, rest, j + 1);
    }
}

proof fn lemma_close_shift(b: u8, rest: Seq<u8>, k: int, e: bool)
    requires
        0 <= k,
    ensures
        string_close(seq![b] + rest, k + 1, e) == match string_close(rest, k, e) {
            Some(x) => Some(x + 1),
            None => None,
        },
    decreases rest.len() - k,
{
    let buf = seq![b] + rest;
    if k < rest.len() {
        assert(buf[k + 1] == rest[k]);
        lemma_close_shift(b, rest, k + 1, rest[k] == 92 && !e);
    }
}

proof fn lemma_number_shift(b: u8, rest: Seq<u8>, k: int)
    requires
        0 <= k,
    ensures
        number_end(seq![b] + rest, k + 1) == number_end(rest, k) + 1,
    decreases rest.len() - k,
{
    let buf = seq![b] + rest;
    if k < rest.len() {
        assert(buf[k + 1] == rest[k]);
        lemma_number_shift(b, rest, k + 1);
    }
}

proof fn lemma_keyword_shift(b: u8, rest: Seq<u8>, k: int, suffix: Seq<u8>, j: int)
    requires
        0 <= k,
        0 <= j,
    ensures
        keyword_scan(seq![b] + rest, k + 1, suffix, j) == keyword_scan(rest, k, suffix, j),
    decreases suffix.len() - j,
{
    let buf = seq![b] + rest;
    if j < suffix.len() && k + j < rest.len() {
        assert(buf[k + 1 + j] == rest[k + j]);
        lemma_keyword_shift(b, rest, k, suffix, j + 1);
    }
}

/// A space, tab, line feed, form feed or carriage return before the bytes
/// is skipped: the scan gives the token it gives without that byte, taking
/// one more byte, and otherwise the same outcome.
pub proof fn lemma_scan_skips_whitespace(b: u8, rest: Seq<u8>, at_eof: bool)
    requires
        b == 0x20 || b == 0x09 || b == 0x0A || b == 0x0C || b == 0x0D,
    ensures
        spec_scan(seq![b] + rest, at_eof) == one_byte_later(spec_scan(rest, at_eof)),
{
    let buf = seq![b] + rest;
    lemma_skip_shift(b, rest, 0);
    assert(skip_ws(buf, 0) == skip_ws(buf, 1));
    let i = skip_ws(rest, 0);
    assert(0 <= i) by {
        crate::srj::whitespace::lemma_skip_nonneg(rest, 0);
    }
    if i < rest.len() {
        assert(buf[i + 1] == rest[i]);
        lemma_close_shift(b, rest, i + 1, false);
        lemma_number_shift(b, rest, i + 1);
        lemma_keyword_shift(b, rest, i + 1, crate::srj::token::kw_true(), 0);
        lemma_keyword_shift(b, rest, i + 1, crate::srj::token::kw_false(), 0);
        lemma_keyword_shift(b, rest, i + 1, crate::srj::token::kw_null(), 0);
        if let Some(k) = string_close(rest, i + 1, false) {
            lemma_close_bound(rest, i + 1, false);
            assert(buf.subrange(i + 1, k + 2) =~= rest.subrange(i, k + 1));
        }
        let k = number_end(rest, i + 1);
        lemma_number_bound(rest, i + 1);
        assert(buf.subrange(i + 1, k + 1) =~= rest.subrange(i, k));
        assert(skip_ws(buf, 0) == i + 1);
        assert(spec_scan(seq![b] + rest, at_eof) == one_byte_later(spec_scan(rest, at_eof)));
    } else {
        assert(skip_ws(buf, 0) >= buf.len());
        assert(buf.len() == rest.len() + 1);
    }
}

proof fn lemma_close_bound(buf: Seq<u8>, k: int, e: bool)
    ensures
        string_close(buf, k, e) matches Some(x) ==> k <= x < buf.len(),
    decreases buf.len() - k,
{
    if 0 <= k < buf.len() {
        lemma_close_bound(buf, k + 1, buf[k] == 92 && !e);
    }
}

proof fn lemma_number_bound(buf: Seq<u8>, k: int)
    requires
        0 <= k <= buf.len(),
    ensures
        k <= number_end(buf, k) <= buf.len(),
    decreases buf.len() - k,
{
    if k < buf.len() && crate::srj::token::is_number_byte(buf[k]) {
        lemma_number_bound(buf, k + 1);
    }
}

proof fn lemma_skip_nonneg(buf: Seq<u8>, i: int)
    requires
        0 <= i,
    ensures
        i <= skip_ws(buf, i),
    decreases buf.len() - i,
{
    if 0 <= i < buf.len() && crate::srj::token::is_json_ws(buf[i]) {
        lemma_skip_nonneg(buf, i + 1);
    }
}

} // verus!
