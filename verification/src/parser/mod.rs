//! Literals and file paths as the parser reads them.
//!
//! The grammar itself, and reading files from disk, live outside this library;
//! this module holds what the parser computes from the text it has read.
use vstd::prelude::*;

use vstd::string::{StrSliceExecFns, StringExecFns, StringSliceAdditionalSpecFns};

use crate::common::{concat, push_char, str_eq, string_of};
use crate::error::InternalError;

pub mod ast;

verus! {

/// The value of an ASCII hexadecimal digit.
pub open spec fn spec_hex_digit(c: u8) -> Option<u8> {
    if 48 <= c <= 57 {
        Some((c - 48) as u8)
    } else if 97 <= c <= 102 {
        Some((c - 87) as u8)
    } else if 65 <= c <= 70 {
        Some((c - 55) as u8)
    } else {
        None
    }
}

/// A number of one or two hexadecimal digits, optionally after a `+`.
pub open spec fn spec_hex_byte(h: Seq<u8>) -> Option<u8>
    recommends
        1 <= h.len() <= 2,
{
    if h.len() == 1 {
        spec_hex_digit(h[0])
    } else if h[0] == 43 {
        spec_hex_digit(h[1])
    } else {
        match (spec_hex_digit(h[0]), spec_hex_digit(h[1])) {
            (Some(a), Some(b)) => Some((a * 16 + b) as u8),
            _ => None,
        }
    }
}

/// The byte that an escape `\c` stands for, for every `c` other than `x`.
pub open spec fn spec_simple_escape(c: u8) -> Option<u8> {
    if c == 97 {
        Some(0x07u8)
    } else if c == 98 {
        Some(0x08u8)
    } else if c == 102 {
        Some(0x0Cu8)
    } else if c == 110 {
        Some(0x0Au8)
    } else if c == 114 {
        Some(0x0Du8)
    } else if c == 116 {
        Some(0x09u8)
    } else if c == 118 {
        Some(0x0Bu8)
    } else if c == 92 || c == 39 || c == 34 || c == 63 {
        Some(c)
    } else {
        None
    }
}

/// The C escapes: the letters `a b t n v f r` stand, in that order, for the control bytes
/// 7 to 13 (bell, backspace, tab, line feed, vertical tab, form feed, carriage return); a
/// backslash, quote, double quote or question mark stands for itself; no other byte escapes.
/// So no two escapes give the same byte.
pub proof fn lemma_simple_escape_bytes(c: u8, d: u8)
    ensures
        ({
            let letters = seq![97u8, 98u8, 116u8, 110u8, 118u8, 102u8, 114u8];
            forall|k: int| 0 <= k < 7 ==> spec_simple_escape(#[trigger] letters[k]) == Some((7 + k) as u8)
        }),
        (c == 92 || c == 39 || c == 34 || c == 63) ==> spec_simple_escape(c) == Some(c),
        spec_simple_escape(c) matches Some(v) ==> (7 <= v <= 13 || v == c),
        c != d && spec_simple_escape(c) is Some && spec_simple_escape(d) is Some ==> spec_simple_escape(c)
            != spec_simple_escape(d),
{
    let letters = seq![97u8, 98u8, 116u8, 110u8, 118u8, 102u8, 114u8];
    assert forall|k: int| 0 <= k < 7 implies spec_simple_escape(#[trigger] letters[k]) == Some((7 + k) as u8) by {
        if k == 0 {
        } else if k == 1 {
        } else if k == 2 {
        } else if k == 3 {
        } else if k == 4 {
        } else if k == 5 {
        } else {
        }
    }
}

/// The value of a character literal written with its quotes, given by its bytes,
/// or the message of the error it gives.
pub open spec fn spec_char_literal(b: Seq<u8>) -> Result<u8, Seq<char>> {
    if !(b.len() >= 2 && b[0] == 39 && b[b.len() - 1] == 39) {
        Err("invalid char literal"@)
    } else {
        let inner = b.subrange(1, b.len() - 1);
        if inner.len() == 1 {
            Ok(inner[0])
        } else if inner.len() >= 2 && inner[0] == 92 {
            if inner[1] == 120 {
                let hex = inner.subrange(2, inner.len() as int);
                if hex.len() == 0 || hex.len() > 2 {
                    Err("invalid hex escape"@)
                } else {
                    match spec_hex_byte(hex) {
                        Some(v) => Ok(v),
                        None => Err("invalid hex digits"@),
                    }
                }
            } else {
                match spec_simple_escape(inner[1]) {
                    Some(v) => Ok(v),
                    None => Err("unknown escape"@),
                }
            }
        } else {
            Err("invalid char literal format"@)
        }
    }
}

fn hex_digit(c: u8) -> (res: Option<u8>)
    ensures
        res == spec_hex_digit(c),
{
    if 48 <= c && c <= 57 {
        Some(c - 48)
    } else if 97 <= c && c <= 102 {
        Some(c - 87)
    } else if 65 <= c && c <= 70 {
        Some(c - 55)
    } else {
        None
    }
}

fn simple_escape(c: u8) -> (res: Option<u8>)
    ensures
        res == spec_simple_escape(c),
{
    if c == 97 {
        Some(0x07)
    } else if c == 98 {
        Some(0x08)
    } else if c == 102 {
        Some(0x0C)
    } else if c == 110 {
        Some(0x0A)
    } else if c == 114 {
        Some(0x0D)
    } else if c == 116 {
        Some(0x09)
    } else if c == 118 {
        Some(0x0B)
    } else if c == 92 || c == 39 || c == 34 || c == 63 {
        Some(c)
    } else {
        None
    }
}

/// Reads a character literal such as `'a'`, `'\n'` or `'\x41'` into its byte.
///
/// The input is the literal with its quotes. A lone quote is not accepted.
pub fn parse_char_literal(s: &str) -> (res: Result<u8, String>)
    requires
        !(s.spec_bytes().len() == 1 && s.spec_bytes()[0] == 39),
    ensures
        match res {
            Ok(v) => spec_char_literal(s.spec_bytes()) == Ok::<u8, Seq<char>>(v),
            Err(e) => spec_char_literal(s.spec_bytes()) == Err::<u8, Seq<char>>(e@),
        },
{
    let b = s.as_bytes();
    let n = b.len();
    if !(n >= 2 && b[0] == 39 && b[n - 1] == 39) {
        return Err(string_of("invalid char literal"));
    }
    let ghost inner = b@.subrange(1, n - 1);
    let m = n - 2;
    if m == 1 {
        return Ok(b[1]);
    }
    if m >= 2 && b[1] == 92 {
        if b[2] == 120 {
            let h = m - 2;
            let ghost hex = inner.subrange(2, inner.len() as int);
            if h == 0 || h > 2 {
                return Err(string_of("invalid hex escape"));
            }
            let v = if h == 1 {
                hex_digit(b[3])
            } else if b[3] == 43 {
                hex_digit(b[4])
            } else {
                match (hex_digit(b[3]), hex_digit(b[4])) {
                    (Some(x), Some(y)) => Some(x * 16 + y),
                    _ => None,
                }
            };
            assert(hex.len() == h);
            assert(h >= 1 ==> hex[0] == b@[3]);
            assert(h == 2 ==> hex[1] == b@[4]);
            return match v {
                Some(v) => Ok(v),
                None => Err(string_of("invalid hex digits")),
            };
        }
        return match simple_escape(b[2]) {
            Some(v) => Ok(v),
            None => Err(string_of("unknown escape")),
        };
    }
    Err(string_of("invalid char literal format"))
}

/// Converts a number to the character with that code, where there is one.
#[verifier::external_body]
fn char_from_u32(i: u32) -> (res: Option<char>)
    ensures
        res is Some <==> (i < 0xD800 || (0xDFFF < i && i <= 0x10FFFF)),
        res matches Some(c) ==> c as u32 == i,
{
    char::from_u32(i)
}

/// The number of bytes that encode a character in UTF-8.
pub open spec fn spec_utf8_len(c: char) -> nat {
    if (c as u32) < 0x80 {
        1
    } else if (c as u32) < 0x800 {
        2
    } else if (c as u32) < 0x10000 {
        3
    } else {
        4
    }
}

/// The number of bytes that encode a sequence of characters in UTF-8.
pub open spec fn spec_utf8_len_seq(s: Seq<char>) -> nat
    decreases s.len(),
{
    if s.len() == 0 {
        0
    } else {
        spec_utf8_len_seq(s.drop_last()) + spec_utf8_len(s.last())
    }
}

/// The value of a hexadecimal digit character.
pub open spec fn spec_hex_char(c: char) -> Option<nat> {
    if '0' <= c <= '9' {
        Some((c as u32 - '0' as u32) as nat)
    } else if 'a' <= c <= 'f' {
        Some((c as u32 - 'a' as u32 + 10) as nat)
    } else if 'A' <= c <= 'F' {
        Some((c as u32 - 'A' as u32 + 10) as nat)
    } else {
        None
    }
}

/// Whether every character is a hexadecimal digit.
pub open spec fn spec_all_hex(s: Seq<char>) -> bool {
    forall|i: int| 0 <= i < s.len() ==> #[trigger] spec_hex_char(s[i]) is Some
}

/// The number that a string of hexadecimal digits stands for.
pub open spec fn spec_hex_value(s: Seq<char>) -> nat
    decreases s.len(),
{
    if s.len() == 0 {
        0
    } else {
        spec_hex_value(s.drop_last()) * 16 + spec_hex_char(s.last()).unwrap()
    }
}

/// A hexadecimal number of at most four digits, optionally after a `+`.
pub open spec fn spec_hex_u16(code: Seq<char>) -> Option<nat> {
    let digits = if code.len() > 0 && code[0] == '+' { code.drop_first() } else { code };
    if digits.len() > 0 && spec_all_hex(digits) {
        Some(spec_hex_value(digits))
    } else {
        None
    }
}

/// Whether a number is the code of a character.
pub open spec fn spec_is_char_code(v: nat) -> bool {
    v < 0xD800 || (0xDFFF < v && v <= 0x10FFFF)
}

/// The escapes of one character that stand for one character.
pub open spec fn spec_json_escape(c: char) -> Option<char> {
    if c == '"' {
        Some('"')
    } else if c == '\\' {
        Some('\\')
    } else if c == '/' {
        Some('/')
    } else if c == 'b' {
        Some('\u{0008}')
    } else if c == 'f' {
        Some('\u{000C}')
    } else if c == 'n' {
        Some('\n')
    } else if c == 'r' {
        Some('\r')
    } else if c == 't' {
        Some('\t')
    } else {
        None
    }
}

/// The one-character escapes of a string mean what the same escapes mean in a character
/// literal (`b f n r t`), a quote, backslash or slash stands for itself, and no two escapes
/// give the same character.
pub proof fn lemma_json_escape_chars(c: char, d: char)
    ensures
        ({
            let letters = seq![98u8, 102u8, 110u8, 114u8, 116u8];
            forall|k: int| 0 <= k < 5 ==> spec_json_escape((#[trigger] letters[k]) as char) == Some(
                (spec_simple_escape(letters[k])->Some_0) as char,
            )
        }),
        (c == '"' || c == '\\' || c == '/') ==> spec_json_escape(c) == Some(c),
        c != d && spec_json_escape(c) is Some && spec_json_escape(d) is Some ==> spec_json_escape(c) != spec_json_escape(d),
{
    let letters = seq![98u8, 102u8, 110u8, 114u8, 116u8];
    assert forall|k: int| 0 <= k < 5 implies spec_json_escape((#[trigger] letters[k]) as char) == Some(
        (spec_simple_escape(letters[k])->Some_0) as char,
    ) by {
        if k == 0 {
            assert(98u8 as char == 'b');
            assert(8u8 as char == '\u{0008}');
        } else if k == 1 {
            assert(102u8 as char == 'f');
            assert(12u8 as char == '\u{000C}');
        } else if k == 2 {
            assert(110u8 as char == 'n');
            assert(10u8 as char == '\n');
        } else if k == 3 {
            assert(114u8 as char == 'r');
            assert(13u8 as char == '\r');
        } else {
            assert(116u8 as char == 't');
            assert(9u8 as char == '\t');
        }
    }
}

/// Puts a character in front of a successful result.
pub open spec fn spec_cons(c: char, r: Result<Seq<char>, Seq<char>>) -> Result<Seq<char>, Seq<char>> {
    match r {
        Ok(t) => Ok(seq![c] + t),
        Err(e) => Err(e),
    }
}

/// The text that a string literal's body (without its quotes) stands for,
/// or the message of the error it gives.
pub open spec fn spec_unescape(raw: Seq<char>) -> Result<Seq<char>, Seq<char>>
    decreases raw.len(),
{
    if raw.len() == 0 {
        Ok(seq![])
    } else if raw[0] != '\\' {
        spec_cons(raw[0], spec_unescape(raw.drop_first()))
    } else if raw.len() == 1 {
        Err("Incomplete escape"@)
    } else {
        let d = raw[1];
        let rest = raw.subrange(2, raw.len() as int);
        if d == 'u' {
            let k = if rest.len() < 4 { rest.len() } else { 4 };
            let code = rest.subrange(0, k as int);
            if spec_utf8_len_seq(code) != 4 {
                Err("Incomplete unicode escape"@)
            } else {
                match spec_hex_u16(code) {
                    None => Err("Bad hex in unicode escape: "@ + code),
                    Some(v) => if spec_is_char_code(v) {
                        spec_cons(
                            (v as u32) as char,
                            spec_unescape(rest.subrange(k as int, rest.len() as int)),
                        )
                    } else {
                        Err("Invalid unicode escape: "@ + code)
                    },
                }
            }
        } else {
            match spec_json_escape(d) {
                Some(e) => spec_cons(e, spec_unescape(rest)),
                None => Err("Invalid escape: \\"@ + seq![d]),
            }
        }
    }
}

/// A successful result with `p` put in front of it.
pub open spec fn spec_prefixed(p: Seq<char>, r: Result<Seq<char>, Seq<char>>) -> Result<Seq<char>, Seq<char>> {
    match r {
        Ok(t) => Ok(p + t),
        Err(e) => Err(e),
    }
}

proof fn lemma_prefixed_cons(p: Seq<char>, c: char, r: Result<Seq<char>, Seq<char>>)
    ensures
        spec_prefixed(p, spec_cons(c, r)) == spec_prefixed(p.push(c), r),
{
    if let Ok(t) = r {
        assert(p + (seq![c] + t) =~= p.push(c) + t);
    }
}

fn utf8_len(c: char) -> (res: usize)
    ensures
        res == spec_utf8_len(c),
{
    let v = c as u32;
    if v < 0x80 {
        1
    } else if v < 0x800 {
        2
    } else if v < 0x10000 {
        3
    } else {
        4
    }
}

fn hex_char(c: char) -> (res: Option<u32>)
    ensures
        match res {
            Some(v) => spec_hex_char(c) == Some(v as nat),
            None => spec_hex_char(c) is None,
        },
{
    let v = c as u32;
    if '0' <= c && c <= '9' {
        Some(v - 48)
    } else if 'a' <= c && c <= 'f' {
        Some(v - 87)
    } else if 'A' <= c && c <= 'F' {
        Some(v - 55)
    } else {
        None
    }
}

/// The number of UTF-8 bytes of `cs[from..to]`.
fn utf8_len_of(cs: &Vec<char>, from: usize, to: usize) -> (res: usize)
    requires
        from <= to <= cs@.len(),
        to - from <= 4,
    ensures
        res == spec_utf8_len_seq(cs@.subrange(from as int, to as int)),
{
    let mut n: usize = 0;
    let mut j = from;
    while j < to
        invariant
            from <= j <= to <= cs@.len(),
            to - from <= 4,
            n == spec_utf8_len_seq(cs@.subrange(from as int, j as int)),
            n <= 4 * (j - from),
        decreases to - j,
    {
        assert(cs@.subrange(from as int, j + 1).drop_last() =~= cs@.subrange(from as int, j as int));
        n = n + utf8_len(cs[j]);
        j = j + 1;
    }
    n
}

/// The hexadecimal number written in `cs[from..to]`, read as `u16::from_str_radix` does.
fn hex_u16_of(cs: &Vec<char>, from: usize, to: usize) -> (res: Option<u32>)
    requires
        from <= to <= cs@.len(),
        to - from <= 4,
    ensures
        match res {
            Some(v) => spec_hex_u16(cs@.subrange(from as int, to as int)) == Some(v as nat),
            None => spec_hex_u16(cs@.subrange(from as int, to as int)) is None,
        },
{
    let ghost code = cs@.subrange(from as int, to as int);
    assert(code.len() > 0 ==> code[0] == cs@[from as int]);
    let mut j0 = from;
    if from < to && cs[from] == '+' {
        j0 = from + 1;
        assert(code.drop_first() =~= cs@.subrange(j0 as int, to as int));
    } else {
        assert(code =~= cs@.subrange(j0 as int, to as int));
    }
    let ghost digits = cs@.subrange(j0 as int, to as int);
    if j0 == to {
        return None;
    }
    assert(spec_hex_u16(code) == (if spec_all_hex(digits) { Some(spec_hex_value(digits)) } else { None::<nat> }));
    let mut val: u32 = 0;
    let mut j = j0;
    while j < to
        invariant
            from <= j0 <= j <= to <= cs@.len(),
            to - from <= 4,
            digits == cs@.subrange(j0 as int, to as int),
            spec_hex_u16(cs@.subrange(from as int, to as int)) == (if spec_all_hex(digits) { Some(spec_hex_value(digits)) } else { None::<nat> }),
            spec_all_hex(cs@.subrange(j0 as int, j as int)),
            val == spec_hex_value(cs@.subrange(j0 as int, j as int)),
            j - j0 == 0 ==> val == 0,
            j - j0 == 1 ==> val < 0x10,
            j - j0 == 2 ==> val < 0x100,
            j - j0 == 3 ==> val < 0x1000,
            j - j0 == 4 ==> val < 0x10000,
        decreases to - j,
    {
        let ghost prev = cs@.subrange(j0 as int, j as int);
        let ghost next = cs@.subrange(j0 as int, j + 1);
        assert(next.drop_last() =~= prev);
        match hex_char(cs[j]) {
            Some(d) => {
                val = val * 16 + d;
                j = j + 1;
                assert(spec_all_hex(next)) by {
                    assert forall|i: int| 0 <= i < next.len() implies #[trigger] spec_hex_char(next[i]) is Some by {
                        if i < prev.len() {
                            assert(next[i] == prev[i]);
                        }
                    }
                }
            },
            None => {
                assert(digits[j - j0] == cs@[j as int]);
                assert(!spec_all_hex(digits));
                return None;
            },
        }
    }
    Some(val)
}

fn json_escape(c: char) -> (res: Option<char>)
    ensures
        res == spec_json_escape(c),
{
    if c == '"' {
        Some('"')
    } else if c == '\\' {
        Some('\\')
    } else if c == '/' {
        Some('/')
    } else if c == 'b' {
        Some('\u{0008}')
    } else if c == 'f' {
        Some('\u{000C}')
    } else if c == 'n' {
        Some('\n')
    } else if c == 'r' {
        Some('\r')
    } else if c == 't' {
        Some('\t')
    } else {
        None
    }
}

/// The characters `cs[from..to]` as a string.
fn string_of_chars(cs: &Vec<char>, from: usize, to: usize) -> (res: String)
    requires
        from <= to <= cs@.len(),
    ensures
        res@ == cs@.subrange(from as int, to as int),
{
    let mut s = String::new();
    let mut j = from;
    while j < to
        invariant
            from <= j <= to <= cs@.len(),
            s@ == cs@.subrange(from as int, j as int),
        decreases to - j,
    {
        push_char(&mut s, cs[j]);
        j = j + 1;
        assert(s@ =~= cs@.subrange(from as int, j as int));
    }
    s
}

/// Reads the body of a string literal, given with its quotes, resolving its escapes
/// as JSON does: `\"`, `\\`, `\/`, `\b`, `\f`, `\n`, `\r`, `\t` and `\uXXXX`.
///
/// The quotes around the literal are taken to be single-byte characters.
pub fn unescape_json_string(s: &str) -> (res: Result<String, String>)
    requires
        s@.len() >= 2,
        (s@[0] as u32) < 0x80,
        (s@.last() as u32) < 0x80,
    ensures
        match res {
            Ok(t) => spec_unescape(s@.subrange(1, s@.len() - 1)) == Ok::<Seq<char>, Seq<char>>(t@),
            Err(e) => spec_unescape(s@.subrange(1, s@.len() - 1)) == Err::<Seq<char>, Seq<char>>(e@),
        },
{
    let n = s.unicode_len();
    let raw = s.substring_char(1, n - 1);
    let m = n - 2;
    let mut cs: Vec<char> = Vec::new();
    let mut k: usize = 0;
    while k < m
        invariant
            k <= m,
            m == raw@.len(),
            cs@ == raw@.subrange(0, k as int),
        decreases m - k,
    {
        cs.push(raw.get_char(k));
        k = k + 1;
        assert(cs@ =~= raw@.subrange(0, k as int));
    }
    assert(cs@ =~= raw@);
    let mut result = String::new();
    let mut i: usize = 0;
    assert(cs@.subrange(0, m as int) =~= cs@);
    assert(Seq::<char>::empty() + cs@ =~= cs@);
    while i < m
        invariant
            i <= m,
            m == cs@.len(),
            cs@ == s@.subrange(1, s@.len() - 1),
            spec_unescape(cs@) == spec_prefixed(result@, spec_unescape(cs@.subrange(i as int, m as int))),
        decreases m - i,
    {
        let ghost t = cs@.subrange(i as int, m as int);
        let c = cs[i];
        if c != '\\' {
            proof {
                assert(t.drop_first() =~= cs@.subrange(i + 1, m as int));
                lemma_prefixed_cons(result@, c, spec_unescape(t.drop_first()));
            }
            push_char(&mut result, c);
            i = i + 1;
        } else if i + 1 == m {
            assert(t.len() == 1 && t[0] == c);
            return Err(string_of("Incomplete escape"));
        } else {
            let d = cs[i + 1];
            assert(t[0] == c && t[1] == d && t.len() >= 2);
            let ghost rest = t.subrange(2, t.len() as int);
            assert(rest =~= cs@.subrange(i + 2, m as int));
            if d == 'u' {
                let start = i + 2;
                let avail = m - start;
                let k = if avail < 4 { avail } else { 4 };
                let end = start + k;
                assert(rest.subrange(0, k as int) =~= cs@.subrange(start as int, end as int));
                assert(rest.subrange(k as int, rest.len() as int) =~= cs@.subrange(end as int, m as int));
                if utf8_len_of(&cs, start, end) != 4 {
                    return Err(string_of("Incomplete unicode escape"));
                }
                let code = string_of_chars(&cs, start, end);
                match hex_u16_of(&cs, start, end) {
                    None => {
                        return Err(concat("Bad hex in unicode escape: ", code.as_str()));
                    },
                    Some(v) => {
                        match char_from_u32(v) {
                            Some(ch) => {
                                proof {
                                    assert(ch as u32 == v);
                                    vstd::utf8::char_u32_cast(ch, v);
                                    assert(((v as nat) as u32) as char == ch);
                                    assert(spec_hex_u16(rest.subrange(0, k as int)) == Some(v as nat));
                                    assert(spec_utf8_len_seq(rest.subrange(0, k as int)) == 4);
                                    assert(spec_unescape(t) == spec_cons(ch, spec_unescape(cs@.subrange(end as int, m as int))));
                                    lemma_prefixed_cons(
                                        result@,
                                        ch,
                                        spec_unescape(cs@.subrange(end as int, m as int)),
                                    );
                                }
                                push_char(&mut result, ch);
                                i = end;
                            },
                            None => {
                                return Err(concat("Invalid unicode escape: ", code.as_str()));
                            },
                        }
                    },
                }
            } else {
                match json_escape(d) {
                    Some(e) => {
                        proof {
                            lemma_prefixed_cons(result@, e, spec_unescape(rest));
                        }
                        push_char(&mut result, e);
                        i = i + 2;
                    },
                    None => {
                        let mut msg = string_of("Invalid escape: \\");
                        push_char(&mut msg, d);
                        assert(msg@ =~= "Invalid escape: \\"@ + seq![d]);
                        return Err(msg);
                    },
                }
            }
        }
    }
    assert(result@ + Seq::<char>::empty() =~= result@);
    Ok(result)
}

/// The module path of a source file, given by the components of its file path:
/// `foo/bar.mst` and `foo/bar/mod.mst` both give `[foo, bar]`; or the message of
/// the error it gives.
pub open spec fn spec_module_path(c: Seq<Seq<char>>) -> Result<Seq<Seq<char>>, Seq<char>> {
    if c.len() == 0 {
        Err("empty filepath"@)
    } else if c.last() == "mod.mst"@ {
        Ok(c.drop_last())
    } else if c.last().len() >= 4 && c.last().subrange(c.last().len() - 4, c.last().len() as int)
        == seq!['.', 'm', 's', 't'] {
        Ok(c.drop_last().push(c.last().subrange(0, c.last().len() - 4)))
    } else {
        Err("invalid file extension, should be skipped"@)
    }
}

/// The texts of a list of strings.
pub open spec fn spec_strings(v: Seq<String>) -> Seq<Seq<char>> {
    v.map_values(|s: String| s@)
}

/// Returns the module path of a file path, given by its components.
///
/// Both `bar.mst` and `bar/mod.mst` result in path `[bar]`.
pub fn get_module_path(components: Vec<String>) -> (res: Result<Vec<String>, InternalError>)
    ensures
        match res {
            Ok(p) => spec_module_path(spec_strings(components@)) == Ok::<Seq<Seq<char>>, Seq<char>>(
                spec_strings(p@),
            ),
            Err(e) => e matches InternalError::AnyMsg(m) && spec_module_path(spec_strings(components@))
                == Err::<Seq<Seq<char>>, Seq<char>>(m@),
        },
{
    let ghost c = spec_strings(components@);
    let mut components = components;
    let last = match components.pop() {
        Some(l) => l,
        None => {
            return Err(InternalError::msg("empty filepath"));
        },
    };
    assert(spec_strings(components@) =~= c.drop_last());
    assert(last@ == c.last());
    if str_eq(last.as_str(), "mod.mst") {
        return Ok(components);
    }
    let n = last.unicode_len();
    if n >= 4 && last.get_char(n - 4) == '.' && last.get_char(n - 3) == 'm' && last.get_char(n - 2)
        == 's' && last.get_char(n - 1) == 't' {
        assert(last@.subrange(n - 4, n as int) =~= seq!['.', 'm', 's', 't']);
        let stem = last.as_str().substring_char(0, n - 4);
        components.push(String::from_str(stem));
        assert(spec_strings(components@) =~= c.drop_last().push(c.last().subrange(0, n - 4)));
        Ok(components)
    } else {
        proof {
            if n >= 4 {
                let t = last@.subrange(n - 4, n as int);
                if t == seq!['.', 'm', 's', 't'] {
                    assert(t[0] == last@[n - 4]);
                    assert(t[1] == last@[n - 3]);
                    assert(t[2] == last@[n - 2]);
                    assert(t[3] == last@[n - 1]);
                }
            }
        }
        Err(InternalError::msg("invalid file extension, should be skipped"))
    }
}

} // verus!
