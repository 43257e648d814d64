//! Bounded-memory JSON tokenizer for SRJ.
//!
//! [`scan_token`] looks at the bytes that a reader has made available so
//! far and either returns the next token with the number of bytes it
//! consumed, asks for more input, or fails. Only the bytes of one token are
//! ever held, so memory is independent of the document size.

use vstd::prelude::*;
use vstd::utf8::*;

use crate::error::{error_with, make_error, ErrKind, SparqlResultsError};

verus! {

/// A JSON token.
#[derive(Debug)]
pub enum Token {
    Eof,
    ObjectStart,
    ObjectEnd,
    ArrayStart,
    ArrayEnd,
    Colon,
    Comma,
    String(String),
    Bool(bool),
    Null,
    Number,
}

/// The value of a token.
pub enum Tok {
    Eof,
    ObjectStart,
    ObjectEnd,
    ArrayStart,
    ArrayEnd,
    Colon,
    Comma,
    Str(Seq<char>),
    Bool(bool),
    Null,
    Number,
}

/// The kind of a token, without its payload.
#[derive(Debug, Clone, Copy, PartialEq, Eq, Structural)]
pub enum TokenKind {
    Eof,
    ObjectStart,
    ObjectEnd,
    ArrayStart,
    ArrayEnd,
    Colon,
    Comma,
    String,
    Bool,
    Null,
    Number,
}

impl View for Token {
    type V = Tok;

    open spec fn view(&self) -> Tok {
        match self {
            Token::Eof => Tok::Eof,
            Token::ObjectStart => Tok::ObjectStart,
            Token::ObjectEnd => Tok::ObjectEnd,
            Token::ArrayStart => Tok::ArrayStart,
            Token::ArrayEnd => Tok::ArrayEnd,
            Token::Colon => Tok::Colon,
            Token::Comma => Tok::Comma,
            Token::String(s) => Tok::Str(s@),
            Token::Bool(b) => Tok::Bool(*b),
            Token::Null => Tok::Null,
            Token::Number => Tok::Number,
        }
    }
}

/// The kind of a token value.
pub open spec fn tok_kind(t: Tok) -> TokenKind {
    match t {
        Tok::Eof => TokenKind::Eof,
        Tok::ObjectStart => TokenKind::ObjectStart,
        Tok::ObjectEnd => TokenKind::ObjectEnd,
        Tok::ArrayStart => TokenKind::ArrayStart,
        Tok::ArrayEnd => TokenKind::ArrayEnd,
        Tok::Colon => TokenKind::Colon,
        Tok::Comma => TokenKind::Comma,
        Tok::Str(_) => TokenKind::String,
        Tok::Bool(_) => TokenKind::Bool,
        Tok::Null => TokenKind::Null,
        Tok::Number => TokenKind::Number,
    }
}

impl Token {
    /// The kind of this token.
    pub fn kind(&self) -> (k: TokenKind)
        ensures
            k == tok_kind(self@),
    {
        match self {
            Token::Eof => TokenKind::Eof,
            Token::ObjectStart => TokenKind::ObjectStart,
            Token::ObjectEnd => TokenKind::ObjectEnd,
            Token::ArrayStart => TokenKind::ArrayStart,
            Token::ArrayEnd => TokenKind::ArrayEnd,
            Token::Colon => TokenKind::Colon,
            Token::Comma => TokenKind::Comma,
            Token::String(_) => TokenKind::String,
            Token::Bool(_) => TokenKind::Bool,
            Token::Null => TokenKind::Null,
            Token::Number => TokenKind::Number,
        }
    }

    /// A copy of this token.
    pub fn duplicate(&self) -> (t: Token)
        ensures
            t@ == self@,
    {
        match self {
            Token::Eof => Token::Eof,
            Token::ObjectStart => Token::ObjectStart,
            Token::ObjectEnd => Token::ObjectEnd,
            Token::ArrayStart => Token::ArrayStart,
            Token::ArrayEnd => Token::ArrayEnd,
            Token::Colon => Token::Colon,
            Token::Comma => Token::Comma,
            Token::String(s) => Token::String(s.clone()),
            Token::Bool(b) => Token::Bool(*b),
            Token::Null => Token::Null,
            Token::Number => Token::Number,
        }
    }
}

/// JSON insignificant whitespace (`u8::is_ascii_whitespace`).
pub open spec fn is_json_ws(b: u8) -> bool {
    b == 32 || b == 9 || b == 10 || b == 12 || b == 13
}

/// Bytes that may continue a JSON number: digits, `.`, `e`, `E`, `+`, `-`.
pub open spec fn is_number_byte(b: u8) -> bool {
    (48 <= b && b <= 57) || b == 46 || b == 101 || b == 69 || b == 43 || b == 45
}

/// The index of the first non-whitespace byte at or after `i`.
pub open spec fn skip_ws(buf: Seq<u8>, i: int) -> int
    decreases buf.len() - i,
{
    if 0 <= i < buf.len() && is_json_ws(buf[i]) {
        skip_ws(buf, i + 1)
    } else {
        i
    }
}

/// The index of the closing quote of a string whose body starts at `k`:
/// the first `"` not escaped by an odd run of backslashes.
pub open spec fn string_close(buf: Seq<u8>, k: int, escaped: bool) -> Option<int>
    decreases buf.len() - k,
{
    if k < 0 || k >= buf.len() {
        None
    } else if buf[k] == 34 && !escaped {
        Some(k)
    } else {
        string_close(buf, k + 1, buf[k] == 92 && !escaped)
    }
}

/// The end of a run of number bytes starting at `k`.
pub open spec fn number_end(buf: Seq<u8>, k: int) -> int
    decreases buf.len() - k,
{
    if 0 <= k < buf.len() && is_number_byte(buf[k]) {
        number_end(buf, k + 1)
    } else {
        k
    }
}

/// Outcome of matching the rest of a keyword.
pub enum KeywordScan {
    Matched,
    NeedMore,
    Mismatch,
}

/// Matches `suffix[j..]` against the bytes at `k + j`.
pub open spec fn keyword_scan(buf: Seq<u8>, k: int, suffix: Seq<u8>, j: int) -> KeywordScan
    decreases suffix.len() - j,
{
    if j < 0 || j >= suffix.len() {
        KeywordScan::Matched
    } else if k + j >= buf.len() {
        KeywordScan::NeedMore
    } else if buf[k + j] != suffix[j] {
        KeywordScan::Mismatch
    } else {
        keyword_scan(buf, k, suffix, j + 1)
    }
}

/// The UTF-8 text that `serde_json` decodes a quoted JSON string to, if it
/// accepts the bytes.
pub uninterp spec fn json_string_decoding(raw: Seq<u8>) -> Option<Seq<char>>;

/// Whether `serde_json` accepts the bytes as a JSON number.
pub uninterp spec fn json_number_accepts(text: Seq<u8>) -> bool;

/// How `serde_json` escapes one byte of a string's UTF-8 encoding.
pub open spec fn json_escape_byte(b: u8) -> Seq<u8> {
    if b == 34 {
        seq![92u8, 34u8]
    } else if b == 92 {
        seq![92u8, 92u8]
    } else if b == 8 {
        seq![92u8, 98u8]
    } else if b == 9 {
        seq![92u8, 116u8]
    } else if b == 10 {
        seq![92u8, 110u8]
    } else if b == 12 {
        seq![92u8, 102u8]
    } else if b == 13 {
        seq![92u8, 114u8]
    } else if b < 32 {
        seq![92u8, 117u8, 48u8, 48u8, hex_digit(b / 16), hex_digit(b % 16)]
    } else {
        seq![b]
    }
}

/// Lowercase hexadecimal digit.
pub open spec fn hex_digit(n: u8) -> u8 {
    if n < 10 {
        (48 + n) as u8
    } else {
        (87 + n) as u8
    }
}

/// The escaped body of a JSON string for the given UTF-8 bytes.
pub open spec fn json_escaped(bytes: Seq<u8>) -> Seq<u8>
    decreases bytes.len(),
{
    if bytes.len() == 0 {
        seq![]
    } else {
        json_escape_byte(bytes[0]) + json_escaped(bytes.drop_first())
    }
}

/// A JSON string literal, as `serde_json` writes it, for the given UTF-8 bytes.
pub open spec fn json_quoted(bytes: Seq<u8>) -> Seq<u8> {
    seq![34u8] + json_escaped(bytes) + seq![34u8]
}

/// `serde_json::from_slice::<String>`: decodes one quoted JSON string.
/// What it returns is named by `json_string_decoding`; for a string that
/// `serde_json` itself wrote it gives back the written text. The error's
/// message is left unstated.
#[verifier::external_body]
fn decode_json_string(raw: &[u8]) -> (r: Result<String, String>)
    ensures
        r is Ok <==> json_string_decoding(raw@) is Some,
        r matches Ok(s) ==> json_string_decoding(raw@) == Some(s@),
        r matches Ok(s) ==> forall|text: Seq<char>|
            #![trigger json_quoted(encode_utf8(text))]
            raw@ == json_quoted(encode_utf8(text)) ==> s@ == text,
        r is Err ==> forall|text: Seq<char>|
            #![trigger json_quoted(encode_utf8(text))]
            raw@ != json_quoted(encode_utf8(text)),
{
    serde_json::from_slice::<String>(raw).map_err(|err| err.to_string())
}

/// `<serde_json::Number as FromStr>::from_str` on the number's ASCII text:
/// whether it is a valid JSON number, as named by `json_number_accepts`.
#[verifier::external_body]
fn check_json_number(text: &[u8]) -> (ok: bool)
    ensures
        ok == json_number_accepts(text@),
{
    match std::str::from_utf8(text) {
        Ok(s) => s.parse::<serde_json::Number>().is_ok(),
        Err(_) => false,
    }
}

/// `serde_json::to_vec` on a string: the quoted, escaped JSON literal,
/// which `serde_json::from_slice::<String>` reads back as the string.
#[verifier::external_body]
pub(crate) fn encode_json_string(s: &str) -> (r: Vec<u8>)
    ensures
        r@ == json_quoted(encode_utf8(s@)),
        json_string_decoding(r@) == Some(s@),
{
    match serde_json::to_vec(s) {
        Ok(bytes) => bytes,
        Err(_) => Vec::new(),
    }
}

/// The message for a byte that cannot start a JSON token.
#[verifier::external_body]
fn invalid_byte_message(b: u8) -> String {
    format!("invalid JSON byte 0x{b:02x}")
}

/// Outcome of scanning the available bytes for the next token.
pub enum ScanView {
    Tok(Tok, nat),
    NeedMore,
    Failed(ErrKind),
}

/// Outcome of [`scan_token`].
pub enum Scanned {
    /// The next token and the number of bytes it consumed (including any
    /// whitespace before it).
    Token(Token, usize),
    /// The available bytes do not yet determine the next token.
    NeedMore,
    /// The input is not JSON.
    Failed(SparqlResultsError),
}

impl Scanned {
    pub open spec fn view_scan(&self) -> ScanView {
        match self {
            Scanned::Token(t, n) => ScanView::Tok(t@, *n as nat),
            Scanned::NeedMore => ScanView::NeedMore,
            Scanned::Failed(e) => ScanView::Failed(e.kind()),
        }
    }
}

pub open spec fn kw_true() -> Seq<u8> {
    seq![114u8, 117u8, 101u8]
}

pub open spec fn kw_false() -> Seq<u8> {
    seq![97u8, 108u8, 115u8, 101u8]
}

pub open spec fn kw_null() -> Seq<u8> {
    seq![117u8, 108u8, 108u8]
}

/// The token after a keyword's first byte, given how the rest matched.
pub open spec fn keyword_outcome(m: KeywordScan, t: Tok, end: int, at_eof: bool) -> ScanView {
    match m {
        KeywordScan::Matched => ScanView::Tok(t, end as nat),
        KeywordScan::NeedMore => if at_eof {
            ScanView::Failed(ErrKind::Json)
        } else {
            ScanView::NeedMore
        },
        KeywordScan::Mismatch => ScanView::Failed(ErrKind::Json),
    }
}

/// The next token of `buf`, where `at_eof` says the reader has no more bytes.
pub open spec fn spec_scan(buf: Seq<u8>, at_eof: bool) -> ScanView {
    let i = skip_ws(buf, 0);
    if i >= buf.len() {
        if at_eof {
            ScanView::Tok(Tok::Eof, buf.len())
        } else {
            ScanView::NeedMore
        }
    } else {
        let b = buf[i];
        if b == 123 {
            ScanView::Tok(Tok::ObjectStart, (i + 1) as nat)
        } else if b == 125 {
            ScanView::Tok(Tok::ObjectEnd, (i + 1) as nat)
        } else if b == 91 {
            ScanView::Tok(Tok::ArrayStart, (i + 1) as nat)
        } else if b == 93 {
            ScanView::Tok(Tok::ArrayEnd, (i + 1) as nat)
        } else if b == 58 {
            ScanView::Tok(Tok::Colon, (i + 1) as nat)
        } else if b == 44 {
            ScanView::Tok(Tok::Comma, (i + 1) as nat)
        } else if b == 34 {
            match string_close(buf, i + 1, false) {
                None => if at_eof {
                    ScanView::Failed(ErrKind::Json)
                } else {
                    ScanView::NeedMore
                },
                Some(k) => match json_string_decoding(buf.subrange(i, k + 1)) {
                    Some(s) => ScanView::Tok(Tok::Str(s), (k + 1) as nat),
                    None => ScanView::Failed(ErrKind::Json),
                },
            }
        } else if b == 116 {
            keyword_outcome(keyword_scan(buf, i + 1, kw_true(), 0), Tok::Bool(true), i + 4, at_eof)
        } else if b == 102 {
            keyword_outcome(keyword_scan(buf, i + 1, kw_false(), 0), Tok::Bool(false), i + 5, at_eof)
        } else if b == 110 {
            keyword_outcome(keyword_scan(buf, i + 1, kw_null(), 0), Tok::Null, i + 4, at_eof)
        } else if b == 45 || (48 <= b && b <= 57) {
            let k = number_end(buf, i + 1);
            if k >= buf.len() && !at_eof {
                ScanView::NeedMore
            } else if json_number_accepts(buf.subrange(i, k)) {
                ScanView::Tok(Tok::Number, k as nat)
            } else {
                ScanView::Failed(ErrKind::Json)
            }
        } else {
            ScanView::Failed(ErrKind::Json)
        }
    }
}

/// Matches the rest of a keyword starting at `k`.
fn match_keyword(buf: &[u8], k: usize, suffix: &[u8]) -> (m: KeywordScan)
    requires
        k <= buf@.len(),
    ensures
        m == keyword_scan(buf@, k as int, suffix@, 0),
        m is Matched ==> k + suffix@.len() <= buf@.len(),
{
    let mut j: usize = 0;
    while j < suffix.len()
        invariant
            0 <= j <= suffix@.len(),
            k <= buf@.len(),
            j <= buf@.len() - k,
            keyword_scan(buf@, k as int, suffix@, 0) == keyword_scan(buf@, k as int, suffix@, j as int),
        decreases suffix@.len() - j,
    {
        if j >= buf.len() - k {
            return KeywordScan::NeedMore;
        }
        if buf[k + j] != suffix[j] {
            return KeywordScan::Mismatch;
        }
        j = j + 1;
    }
    KeywordScan::Matched
}

/// Scans the next JSON token from the bytes available so far.
///
/// Whitespace is skipped; structural characters, strings (decoded by
/// `serde_json`), `true`, `false`, `null` and numbers (checked by
/// `serde_json`) are recognized. When the bytes end inside a token and
/// `at_eof` is false, more input is requested; at the end of input an
/// unfinished string or keyword is an error and a whitespace-only rest is
/// the end-of-input token.
pub fn scan_token(buf: &[u8], at_eof: bool) -> (r: Scanned)
    ensures
        r.view_scan() == spec_scan(buf@, at_eof),
        r matches Scanned::Token(_, n) ==> n <= buf@.len(),
{
    let mut i: usize = 0;
    while i < buf.len() && (buf[i] == 32 || buf[i] == 9 || buf[i] == 10 || buf[i] == 12 || buf[i] == 13)
        invariant
            0 <= i <= buf@.len(),
            skip_ws(buf@, 0) == skip_ws(buf@, i as int),
        decreases buf@.len() - i,
    {
        i = i + 1;
    }
    if i >= buf.len() {
        if at_eof {
            return Scanned::Token(Token::Eof, buf.len());
        } else {
            return Scanned::NeedMore;
        }
    }
    let b = buf[i];
    if b == 123 {
        Scanned::Token(Token::ObjectStart, i + 1)
    } else if b == 125 {
        Scanned::Token(Token::ObjectEnd, i + 1)
    } else if b == 91 {
        Scanned::Token(Token::ArrayStart, i + 1)
    } else if b == 93 {
        Scanned::Token(Token::ArrayEnd, i + 1)
    } else if b == 58 {
        Scanned::Token(Token::Colon, i + 1)
    } else if b == 44 {
        Scanned::Token(Token::Comma, i + 1)
    } else if b == 34 {
        let mut k: usize = i + 1;
        let mut escaped = false;
        while k < buf.len() && !(buf[k] == 34 && !escaped)
            invariant
                i < k <= buf@.len(),
                string_close(buf@, i + 1, false) == string_close(buf@, k as int, escaped),
            decreases buf@.len() - k,
        {
            escaped = buf[k] == 92 && !escaped;
            k = k + 1;
        }
        if k >= buf.len() {
            if at_eof {
                Scanned::Failed(error_with(ErrKind::Json, "unterminated JSON string"))
            } else {
                Scanned::NeedMore
            }
        } else {
            let raw = &buf[i..k + 1];
            match decode_json_string(raw) {
                Ok(s) => Scanned::Token(Token::String(s), k + 1),
                Err(msg) => Scanned::Failed(make_error(ErrKind::Json, msg)),
            }
        }
    } else if b == 116 || b == 102 || b == 110 {
        let m = if b == 116 {
            match_keyword(buf, i + 1, &[114u8, 117u8, 101u8])
        } else if b == 102 {
            match_keyword(buf, i + 1, &[97u8, 108u8, 115u8, 101u8])
        } else {
            match_keyword(buf, i + 1, &[117u8, 108u8, 108u8])
        };
        assert(kw_true() =~= seq![114u8, 117u8, 101u8]);
        match m {
            KeywordScan::Matched => {
                if b == 116 {
                    Scanned::Token(Token::Bool(true), i + 4)
                } else if b == 102 {
                    Scanned::Token(Token::Bool(false), i + 5)
                } else {
                    Scanned::Token(Token::Null, i + 4)
                }
            },
            KeywordScan::NeedMore => {
                if at_eof {
                    Scanned::Failed(error_with(ErrKind::Json, "invalid JSON keyword"))
                } else {
                    Scanned::NeedMore
                }
            },
            KeywordScan::Mismatch => Scanned::Failed(error_with(ErrKind::Json, "invalid JSON keyword")),
        }
    } else if b == 45 || (48 <= b && b <= 57) {
        let mut k: usize = i + 1;
        while k < buf.len() && ((48 <= buf[k] && buf[k] <= 57) || buf[k] == 46 || buf[k] == 101
            || buf[k] == 69 || buf[k] == 43 || buf[k] == 45)
            invariant
                i < k <= buf@.len(),
                number_end(buf@, i + 1) == number_end(buf@, k as int),
            decreases buf@.len() - k,
        {
            k = k + 1;
        }
        if k >= buf.len() && !at_eof {
            Scanned::NeedMore
        } else if check_json_number(&buf[i..k]) {
            Scanned::Token(Token::Number, k)
        } else {
            Scanned::Failed(error_with(ErrKind::Json, "invalid JSON number"))
        }
    } else {
        Scanned::Failed(make_error(ErrKind::Json, invalid_byte_message(b)))
    }
}

} // verus!
