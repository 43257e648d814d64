//! Text content of SRX elements: entity references and booleans.

use vstd::prelude::*;
use vstd::utf8::*;

use crate::error::{make_error, ErrKind, SparqlResultsError};
use crate::messages::invalid_boolean_message;
use crate::srx::event::{decode_utf8_chars, string_from_chars};

verus! {

broadcast use vstd::utf8::encode_utf8_decode_utf8;

/// The characters of a fixed text.
pub fn chars_of(lit: &str) -> (r: Vec<char>)
    ensures
        r@ == lit@,
{
    match decode_utf8_chars(lit.as_bytes()) {
        Some(chars) => chars,
        None => {
            proof {
                encode_utf8_valid_utf8(lit@);
            }
            Vec::new()
        },
    }
}

/// Whether two character slices are equal.
pub fn chars_equal(a: &[char], b: &[char]) -> (r: bool)
    ensures
        r == (a@ == b@),
{
    if a.len() != b.len() {
        return false;
    }
    let mut i: usize = 0;
    while i < a.len()
        invariant
            a@.len() == b@.len(),
            0 <= i <= a@.len(),
            forall|j: int| 0 <= j < i ==> a@[j] == b@[j],
        decreases a@.len() - i,
    {
        if a[i] != b[i] {
            return false;
        }
        i = i + 1;
    }
    assert(a@ =~= b@);
    true
}

/// Whether the characters are a fixed text.
pub fn chars_are(a: &[char], lit: &str) -> (r: bool)
    ensures
        r == (a@ == lit@),
{
    let l = chars_of(lit);
    chars_equal(a, l.as_slice())
}

/// Unicode white space (`char::is_whitespace`).
pub open spec fn is_unicode_ws(c: char) -> bool {
    let u = c as u32;
    (9 <= u && u <= 13) || u == 32 || u == 0x85 || u == 0xA0 || u == 0x1680 || (0x2000 <= u && u <= 0x200A)
        || u == 0x2028 || u == 0x2029 || u == 0x202F || u == 0x205F || u == 0x3000
}

fn is_ws(c: char) -> (r: bool)
    ensures
        r == is_unicode_ws(c),
{
    let u = c as u32;
    (9 <= u && u <= 13) || u == 32 || u == 0x85 || u == 0xA0 || u == 0x1680 || (0x2000 <= u && u <= 0x200A)
        || u == 0x2028 || u == 0x2029 || u == 0x202F || u == 0x205F || u == 0x3000
}

/// The text without leading white space.
pub open spec fn trim_front(s: Seq<char>) -> Seq<char>
    decreases s.len(),
{
    if s.len() > 0 && is_unicode_ws(s[0]) {
        trim_front(s.drop_first())
    } else {
        s
    }
}

/// The text without trailing white space.
pub open spec fn trim_back(s: Seq<char>) -> Seq<char>
    decreases s.len(),
{
    if s.len() > 0 && is_unicode_ws(s.last()) {
        trim_back(s.drop_last())
    } else {
        s
    }
}

/// The text without leading and trailing white space (`str::trim`).
pub open spec fn trim(s: Seq<char>) -> Seq<char> {
    trim_back(trim_front(s))
}

/// The bounds of the trimmed text.
fn trim_bounds(s: &[char]) -> (r: (usize, usize))
    ensures
        r.0 <= r.1 <= s@.len(),
        s@.subrange(r.0 as int, r.1 as int) == trim(s@),
{
    let mut i: usize = 0;
    assert(s@.subrange(0, s@.len() as int) =~= s@);
    while i < s.len() && is_ws(s[i])
        invariant
            0 <= i <= s@.len(),
            trim_front(s@) == trim_front(s@.subrange(i as int, s@.len() as int)),
        decreases s@.len() - i,
    {
        assert(s@.subrange(i as int, s@.len() as int).drop_first() =~= s@.subrange(i + 1, s@.len() as int));
        i = i + 1;
    }
    let ghost f = s@.subrange(i as int, s@.len() as int);
    assert(trim_front(s@) == f);
    let mut j: usize = s.len();
    assert(f.subrange(0, f.len() as int) =~= f);
    while j > i && is_ws(s[j - 1])
        invariant
            i <= j <= s@.len(),
            f == s@.subrange(i as int, s@.len() as int),
            trim_back(f) == trim_back(s@.subrange(i as int, j as int)),
        decreases j,
    {
        assert(s@.subrange(i as int, j as int).drop_last() =~= s@.subrange(i as int, j - 1));
        j = j - 1;
    }
    (i, j)
}

/// The value of an SRX `<boolean>` text: `true` or `false` once white space
/// is trimmed; anything else is an invalid document.
pub open spec fn boolean_of(text: Seq<char>) -> Result<bool, ErrKind> {
    if trim(text) == "true"@ {
        Ok(true)
    } else if trim(text) == "false"@ {
        Ok(false)
    } else {
        Err(ErrKind::InvalidDocument)
    }
}

/// Reads the text of an SRX `<boolean>` element.
pub fn parse_boolean(text: &[char]) -> (r: Result<bool, SparqlResultsError>)
    ensures
        match boolean_of(text@) {
            Ok(b) => r matches Ok(c) && c == b,
            Err(k) => r matches Err(e) && e.kind() == k,
        },
{
    let (i, j) = trim_bounds(text);
    let t = &text[i..j];
    if chars_are(t, "true") {
        Ok(true)
    } else if chars_are(t, "false") {
        Ok(false)
    } else {
        let shown = string_from_chars(t);
        Err(make_error(ErrKind::InvalidDocument, invalid_boolean_message(shown.as_str())))
    }
}

/// The value of a digit in the given radix (ten or sixteen), if it is one.
pub open spec fn digit_value(c: char, radix: nat) -> Option<nat> {
    let u = c as u32;
    if 48 <= u && u <= 57 && u - 48 < radix {
        Some((u - 48) as nat)
    } else if radix == 16 && 97 <= u && u <= 102 {
        Some((u - 87) as nat)
    } else if radix == 16 && 65 <= u && u <= 70 {
        Some((u - 55) as nat)
    } else {
        None
    }
}

/// The value of a run of digits, if every character is a digit.
pub open spec fn digits_value(s: Seq<char>, radix: nat) -> Option<nat>
    decreases s.len(),
{
    if s.len() == 0 {
        Some(0)
    } else {
        match digits_value(s.drop_last(), radix) {
            Some(v) => match digit_value(s.last(), radix) {
                Some(x) => Some(v * radix + x),
                None => None,
            },
            None => None,
        }
    }
}

/// `u32::from_str_radix`: an optional `+`, then at least one digit, and a
/// value that fits in 32 bits.
pub open spec fn parse_radix(d: Seq<char>, radix: nat) -> Option<u32> {
    let body = if d.len() > 0 && d[0] == '+' {
        d.drop_first()
    } else {
        d
    };
    if body.len() == 0 {
        None
    } else {
        match digits_value(body, radix) {
            Some(v) => if v <= u32::MAX {
                Some(v as u32)
            } else {
                None
            },
            None => None,
        }
    }
}

/// A Unicode scalar value.
pub open spec fn is_scalar(v: u32) -> bool {
    v <= 0x10FFFF && !(0xD800 <= v && v <= 0xDFFF)
}

/// `char::from_u32`: the character with this scalar value, if it is one.
#[verifier::external_body]
fn char_of_code(v: u32) -> (r: Option<char>)
    ensures
        r is Some <==> is_scalar(v),
        r matches Some(c) ==> c as u32 == v,
{
    char::from_u32(v)
}

/// An entity reference left as written: `&name;`.
pub open spec fn unresolved(name: Seq<char>) -> Seq<char> {
    seq!['&'] + name + seq![';']
}

/// A numeric character reference, or the reference as written when it
/// does not name a character.
pub open spec fn numeric_ref(digits: Seq<char>, radix: nat, name: Seq<char>) -> Seq<char> {
    match parse_radix(digits, radix) {
        Some(v) => if is_scalar(v) {
            seq![v as char]
        } else {
            unresolved(name)
        },
        None => unresolved(name),
    }
}

/// The text of a general entity reference in SRX content: the five
/// predefined entities, decimal and hexadecimal character references, and
/// anything else as written.
pub open spec fn resolve_entity(name: Seq<char>) -> Seq<char> {
    if name == "amp"@ {
        "&"@
    } else if name == "lt"@ {
        "<"@
    } else if name == "gt"@ {
        ">"@
    } else if name == "quot"@ {
        "\""@
    } else if name == "apos"@ {
        "'"@
    } else if name.len() >= 2 && name[0] == '#' && (name[1] == 'x' || name[1] == 'X') {
        numeric_ref(name.subrange(2, name.len() as int), 16, name)
    } else if name.len() >= 1 && name[0] == '#' {
        numeric_ref(name.subrange(1, name.len() as int), 10, name)
    } else {
        unresolved(name)
    }
}

proof fn lemma_digits_none(s: Seq<char>, k: int, radix: nat)
    requires
        0 <= k <= s.len(),
        digits_value(s.subrange(0, k), radix) is None,
    ensures
        digits_value(s, radix) is None,
    decreases s.len() - k,
{
    if k < s.len() {
        assert(s.subrange(0, k + 1).drop_last() =~= s.subrange(0, k));
        lemma_digits_none(s, k + 1, radix);
    } else {
        assert(s.subrange(0, k) =~= s);
    }
}

fn digit_of(c: char, radix: u32) -> (r: Option<u32>)
    requires
        radix == 10 || radix == 16,
    ensures
        match digit_value(c, radix as nat) {
            Some(x) => r == Some(x as u32),
            None => r is None,
        },
{
    let u = c as u32;
    if 48 <= u && u <= 57 && u - 48 < radix {
        Some(u - 48)
    } else if radix == 16 && 97 <= u && u <= 102 {
        Some(u - 87)
    } else if radix == 16 && 65 <= u && u <= 70 {
        Some(u - 55)
    } else {
        None
    }
}

proof fn lemma_digits_grow(v: nat, radix: nat, x: nat)
    requires
        radix == 10 || radix == 16,
        v > u32::MAX,
    ensures
        v * radix + x > u32::MAX,
{
    assert(v * radix >= v) by (nonlinear_arith)
        requires
            radix >= 1,
    ;
}

/// Parses an unsigned 32-bit number in radix ten or sixteen.
fn parse_number(d: &[char], radix: u32) -> (r: Option<u32>)
    requires
        radix == 10 || radix == 16,
    ensures
        r == parse_radix(d@, radix as nat),
{
    let mut start: usize = 0;
    if d.len() > 0 && d[0] == '+' {
        start = 1;
    }
    let ghost body = d@.subrange(start as int, d@.len() as int);
    assert(body == if d@.len() > 0 && d@[0] == '+' {
        d@.drop_first()
    } else {
        d@
    });
    if start >= d.len() {
        return None;
    }
    let mut acc: u64 = 0;
    let mut over = false;
    let mut i: usize = start;
    assert(d@.subrange(start as int, start as int) =~= Seq::<char>::empty());
    while i < d.len()
        invariant
            radix == 10 || radix == 16,
            start <= i <= d@.len(),
            start < d@.len(),
            body == d@.subrange(start as int, d@.len() as int),
            body == if d@.len() > 0 && d@[0] == '+' {
                d@.drop_first()
            } else {
                d@
            },
            !over ==> digits_value(d@.subrange(start as int, i as int), radix as nat) == Some(acc as nat)
                && acc <= u32::MAX,
            over ==> match digits_value(d@.subrange(start as int, i as int), radix as nat) {
                Some(v) => v > u32::MAX,
                None => true,
            },
        decreases d@.len() - i,
    {
        let ghost pre = d@.subrange(start as int, i as int);
        let ghost next = d@.subrange(start as int, i + 1);
        assert(next.drop_last() =~= pre);
        assert(next.last() == d@[i as int]);
        match digit_of(d[i], radix) {
            None => {
                proof {
                    assert(digits_value(next, radix as nat) is None);
                    assert(next =~= body.subrange(0, i + 1 - start));
                    lemma_digits_none(body, i + 1 - start, radix as nat);
                    assert(body.len() > 0);
                    assert(parse_radix(d@, radix as nat) is None);
                }
                return None;
            },
            Some(x) => {
                if !over {
                    assert(acc * (radix as u64) <= 0xFFFF_FFFFu64 * 16) by (nonlinear_arith)
                        requires
                            acc <= 0xFFFF_FFFFu64,
                            radix <= 16,
                    ;
                    let n = acc * (radix as u64) + (x as u64);
                    if n > 0xFFFF_FFFF {
                        over = true;
                    } else {
                        acc = n;
                    }
                } else {
                    proof {
                        if let Some(v) = digits_value(pre, radix as nat) {
                            lemma_digits_grow(v, radix as nat, x as nat);
                        }
                    }
                }
            },
        }
        i = i + 1;
    }
    assert(d@.subrange(start as int, d@.len() as int) == body);
    if over {
        None
    } else {
        Some(acc as u32)
    }
}

/// Appends the text of an entity reference left as written.
fn push_unresolved(out: &mut Vec<char>, name: &[char])
    ensures
        final(out)@ == old(out)@ + unresolved(name@),
{
    out.push('&');
    let mut i: usize = 0;
    let ghost start = out@;
    while i < name.len()
        invariant
            0 <= i <= name@.len(),
            out@ == start + name@.subrange(0, i as int),
        decreases name@.len() - i,
    {
        out.push(name[i]);
        i = i + 1;
        assert(name@.subrange(0, i as int) =~= name@.subrange(0, i - 1).push(name@[i - 1]));
    }
    out.push(';');
    assert(name@.subrange(0, name@.len() as int) =~= name@);
    assert(out@ =~= old(out)@ + unresolved(name@));
}

/// Appends the text of a general entity reference.
pub fn push_entity(out: &mut Vec<char>, name: &[char])
    ensures
        final(out)@ == old(out)@ + resolve_entity(name@),
{
    proof {
        reveal_strlit("amp");
        reveal_strlit("lt");
        reveal_strlit("gt");
        reveal_strlit("quot");
        reveal_strlit("apos");
        reveal_strlit("&");
        reveal_strlit("<");
        reveal_strlit(">");
        reveal_strlit("\"");
        reveal_strlit("'");
    }
    let ghost before = out@;
    if chars_are(name, "amp") {
        out.push('&');
        assert(out@ =~= before + resolve_entity(name@));
    } else if chars_are(name, "lt") {
        out.push('<');
        assert(out@ =~= before + resolve_entity(name@));
    } else if chars_are(name, "gt") {
        out.push('>');
        assert(out@ =~= before + resolve_entity(name@));
    } else if chars_are(name, "quot") {
        out.push('"');
        assert(out@ =~= before + resolve_entity(name@));
    } else if chars_are(name, "apos") {
        out.push('\'');
        assert(out@ =~= before + resolve_entity(name@));
    } else if name.len() >= 2 && name[0] == '#' && (name[1] == 'x' || name[1] == 'X') {
        let digits = &name[2..name.len()];
        assert(digits@ == name@.subrange(2, name@.len() as int));
        match parse_number(digits, 16) {
            Some(v) => match char_of_code(v) {
                Some(c) => {
                    assert(numeric_ref(digits@, 16, name@) == seq![v as char]);
                    proof {
                        vstd::utf8::char_u32_cast(c, v);
                    }
                    out.push(c);
                    assert(out@ =~= before + resolve_entity(name@));
                },
                None => push_unresolved(out, name),
            },
            None => push_unresolved(out, name),
        }
    } else if name.len() >= 1 && name[0] == '#' {
        let digits = &name[1..name.len()];
        assert(digits@ == name@.subrange(1, name@.len() as int));
        match parse_number(digits, 10) {
            Some(v) => match char_of_code(v) {
                Some(c) => {
                    assert(numeric_ref(digits@, 10, name@) == seq![v as char]);
                    proof {
                        vstd::utf8::char_u32_cast(c, v);
                    }
                    out.push(c);
                    assert(out@ =~= before + resolve_entity(name@));
                },
                None => push_unresolved(out, name),
            },
            None => push_unresolved(out, name),
        }
    } else {
        push_unresolved(out, name);
    }
}

} // verus!
