//! The JSON wire format spoken with the management service.
//!
//! The service returns a JSON array of domain-name strings, and a JSON array
//! of endpoint records `{ id, path, returnObject, statusCode, name }` whose
//! `id` may be a number, `null`, or absent, and whose `statusCode` may arrive
//! as a string or as a bare number (it is normalized to its digit string).
//! Requests carry a JSON object of the four string fields.  Encoding escapes
//! quotes, backslashes and control characters, so any field value travels
//! intact; decoding accepts the same escapes (`\" \\ \/ \n \r \t \b \f` and
//! `\u00XX`).  A response that does not fit this shape parses to `None`,
//! which callers treat as a recoverable failure.

use vstd::prelude::*;

use crate::endpoint::{is_digit_char, Pretendo, PretendoView};
use crate::text::{chars_of, push_char};

verus! {

// ---------------------------------------------------------------------------
// Scanning helpers
// ---------------------------------------------------------------------------
/// JSON insignificant whitespace.
pub open spec fn is_ws_char(c: char) -> bool {
    c == ' ' || c == '\t' || c == '\n' || c == '\r'
}

/// The first position at or after `i` that does not hold whitespace.
pub open spec fn skip_ws(s: Seq<char>, i: int) -> int
    decreases s.len() - i,
{
    if i < s.len() && is_ws_char(s[i]) {
        skip_ws(s, i + 1)
    } else {
        i
    }
}

proof fn lemma_skip_ws_bounds(s: Seq<char>, i: int)
    ensures
        i <= skip_ws(s, i),
        i <= s.len() ==> skip_ws(s, i) <= s.len(),
    decreases s.len() - i,
{
    if i < s.len() && is_ws_char(s[i]) {
        lemma_skip_ws_bounds(s, i + 1);
    }
}

fn skip_ws_x(s: &Vec<char>, i: usize) -> (j: usize)
    requires
        i <= s@.len(),
    ensures
        j as int == skip_ws(s@, i as int),
        i <= j <= s@.len(),
    decreases s@.len() - i,
{
    if i < s.len() {
        let c = s[i];
        if c == ' ' || c == '\t' || c == '\n' || c == '\r' {
            return skip_ws_x(s, i + 1);
        }
    }
    i
}

// ---------------------------------------------------------------------------
// Strings and escapes
// ---------------------------------------------------------------------------
/// The character named by a single-letter escape code, if any.
pub open spec fn spec_escape_code(c: char) -> Option<char> {
    if c == '"' {
        Some('"')
    } else if c == '\\' {
        Some('\\')
    } else if c == '/' {
        Some('/')
    } else if c == 'n' {
        Some('\n')
    } else if c == 'r' {
        Some('\r')
    } else if c == 't' {
        Some('\t')
    } else if c == 'b' {
        Some('\u{8}')
    } else if c == 'f' {
        Some('\u{c}')
    } else {
        None
    }
}

/// The value of one hexadecimal digit.
pub open spec fn spec_hex_val(c: char) -> Option<int> {
    if '0' <= c && c <= '9' {
        Some((c as u32 - '0' as u32) as int)
    } else if 'a' <= c && c <= 'f' {
        Some((10 + c as u32 - 'a' as u32) as int)
    } else if 'A' <= c && c <= 'F' {
        Some((10 + c as u32 - 'A' as u32) as int)
    } else {
        None
    }
}

/// Parses the escape that follows a backslash, starting at `i`; yields the
/// denoted character and the position after the escape.  Unicode escapes are
/// accepted in the `\u00XX` form the encoder emits.
pub open spec fn spec_parse_escape(s: Seq<char>, i: int) -> Option<(char, int)> {
    if 0 <= i && i < s.len() {
        match spec_escape_code(s[i]) {
            Some(c) => Some((c, i + 1)),
            None => {
                if s[i] == 'u' && i + 5 <= s.len() && s[i + 1] == '0' && s[i + 2] == '0' {
                    match (spec_hex_val(s[i + 3]), spec_hex_val(s[i + 4])) {
                        (Some(h), Some(l)) => Some((((16 * h + l) as u8) as char, i + 5)),
                        _ => None,
                    }
                } else {
                    None
                }
            },
        }
    } else {
        None
    }
}

fn hex_val_x(c: char) -> (r: Option<u8>)
    ensures
        match r {
            Some(v) => spec_hex_val(c) == Some(v as int) && v < 16,
            None => spec_hex_val(c) is None,
        },
{
    if '0' <= c && c <= '9' {
        Some((c as u32 - '0' as u32) as u8)
    } else if 'a' <= c && c <= 'f' {
        Some((10 + c as u32 - 'a' as u32) as u8)
    } else if 'A' <= c && c <= 'F' {
        Some((10 + c as u32 - 'A' as u32) as u8)
    } else {
        None
    }
}

fn parse_escape_x(s: &Vec<char>, i: usize) -> (r: Option<(char, usize)>)
    requires
        i <= s@.len(),
    ensures
        match r {
            Some((c, j)) => spec_parse_escape(s@, i as int) == Some((c, j as int)) && i < j
                <= s@.len(),
            None => spec_parse_escape(s@, i as int) is None,
        },
{
    if i >= s.len() {
        return None;
    }
    let c = s[i];
    let single: Option<char> = if c == '"' {
        Some('"')
    } else if c == '\\' {
        Some('\\')
    } else if c == '/' {
        Some('/')
    } else if c == 'n' {
        Some('\n')
    } else if c == 'r' {
        Some('\r')
    } else if c == 't' {
        Some('\t')
    } else if c == 'b' {
        Some('\u{8}')
    } else if c == 'f' {
        Some('\u{c}')
    } else {
        None
    };
    match single {
        Some(e) => Some((e, i + 1)),
        None => {
            if c == 'u' && s.len() - i >= 5 && s[i + 1] == '0' && s[i + 2] == '0' {
                match (hex_val_x(s[i + 3]), hex_val_x(s[i + 4])) {
                    (Some(h), Some(l)) => Some((((16 * h + l) as u8) as char, i + 5)),
                    _ => None,
                }
            } else {
                None
            }
        },
    }
}

/// Parses the remainder of a quoted string (the opening quote already
/// consumed), appending the decoded characters to `acc`; yields the decoded
/// string and the position after the closing quote.
pub open spec fn spec_parse_str_body(s: Seq<char>, i: int, acc: Seq<char>) -> Option<
    (Seq<char>, int),
>
    decreases s.len() - i,
{
    if i < 0 || i >= s.len() {
        None
    } else if s[i] == '"' {
        Some((acc, i + 1))
    } else if s[i] == '\\' {
        match spec_parse_escape(s, i + 1) {
            Some((c, j)) => spec_parse_str_body(s, j, acc.push(c)),
            None => None,
        }
    } else {
        spec_parse_str_body(s, i + 1, acc.push(s[i]))
    }
}

proof fn lemma_parse_str_body_bounds(s: Seq<char>, i: int, acc: Seq<char>)
    ensures
        match spec_parse_str_body(s, i, acc) {
            Some((t, j)) => i < j <= s.len(),
            None => true,
        },
    decreases s.len() - i,
{
    if 0 <= i && i < s.len() {
        if s[i] == '\\' {
            match spec_parse_escape(s, i + 1) {
                Some((c, j)) => lemma_parse_str_body_bounds(s, j, acc.push(c)),
                None => {},
            }
        } else if s[i] != '"' {
            lemma_parse_str_body_bounds(s, i + 1, acc.push(s[i]));
        }
    }
}

/// Parses a quoted JSON string starting at `i`.
pub open spec fn spec_parse_string(s: Seq<char>, i: int) -> Option<(Seq<char>, int)> {
    if 0 <= i && i < s.len() && s[i] == '"' {
        spec_parse_str_body(s, i + 1, Seq::empty())
    } else {
        None
    }
}

proof fn lemma_parse_string_bounds(s: Seq<char>, i: int)
    ensures
        match spec_parse_string(s, i) {
            Some((t, j)) => i + 1 < j <= s.len(),
            None => true,
        },
{
    if 0 <= i && i < s.len() && s[i] == '"' {
        lemma_parse_str_body_bounds(s, i + 1, Seq::empty());
    }
}

fn parse_str_body_x(s: &Vec<char>, i: usize, acc: String) -> (r: Option<(String, usize)>)
    requires
        i <= s@.len(),
    ensures
        match r {
            Some((t, j)) => spec_parse_str_body(s@, i as int, acc@) == Some((t@, j as int)) && i
                < j <= s@.len(),
            None => spec_parse_str_body(s@, i as int, acc@) is None,
        },
    decreases s@.len() - i,
{
    if i >= s.len() {
        return None;
    }
    let c = s[i];
    if c == '"' {
        Some((acc, i + 1))
    } else if c == '\\' {
        match parse_escape_x(s, i + 1) {
            Some((e, j)) => {
                let mut acc2 = acc;
                push_char(&mut acc2, e);
                parse_str_body_x(s, j, acc2)
            },
            None => None,
        }
    } else {
        let mut acc2 = acc;
        push_char(&mut acc2, c);
        parse_str_body_x(s, i + 1, acc2)
    }
}

fn parse_string_x(s: &Vec<char>, i: usize) -> (r: Option<(String, usize)>)
    requires
        i <= s@.len(),
    ensures
        match r {
            Some((t, j)) => spec_parse_string(s@, i as int) == Some((t@, j as int)) && i + 1 < j
                <= s@.len(),
            None => spec_parse_string(s@, i as int) is None,
        },
{
    if i < s.len() {
        let c = s[i];
        if c == '"' {
            return parse_str_body_x(s, i + 1, String::new());
        }
    }
    None
}

// ---------------------------------------------------------------------------
// Numbers
// ---------------------------------------------------------------------------
/// Accumulates a run of decimal digits into a value, refusing any value past
/// the magnitude of the smallest 32-bit integer.
pub open spec fn spec_parse_int_digits(s: Seq<char>, i: int, acc: int) -> Option<(int, int)>
    decreases s.len() - i,
{
    if 0 <= i && i < s.len() && is_digit_char(s[i]) {
        let a2 = acc * 10 + (s[i] as u32 - '0' as u32);
        if a2 > 0x80000000 {
            None
        } else {
            spec_parse_int_digits(s, i + 1, a2)
        }
    } else {
        Some((acc, i))
    }
}

proof fn lemma_parse_int_digits_bounds(s: Seq<char>, i: int, acc: int)
    ensures
        match spec_parse_int_digits(s, i, acc) {
            Some((v, j)) => i <= j && (i <= s.len() ==> j <= s.len()),
            None => true,
        },
    decreases s.len() - i,
{
    if 0 <= i && i < s.len() && is_digit_char(s[i]) {
        let a2 = acc * 10 + (s[i] as u32 - '0' as u32);
        if a2 <= 0x80000000 {
            lemma_parse_int_digits_bounds(s, i + 1, a2);
        }
    }
}

fn parse_int_digits_x(s: &Vec<char>, i: usize, acc: i64) -> (r: Option<(i64, usize)>)
    requires
        i <= s@.len(),
        0 <= acc <= 0x80000000,
    ensures
        match r {
            Some((v, j)) => spec_parse_int_digits(s@, i as int, acc as int) == Some(
                (v as int, j as int),
            ) && i <= j <= s@.len() && 0 <= v <= 0x80000000,
            None => spec_parse_int_digits(s@, i as int, acc as int) is None,
        },
    decreases s@.len() - i,
{
    if i < s.len() {
        let c = s[i];
        if '0' <= c && c <= '9' {
            let d = (c as u32 - '0' as u32) as i64;
            let a2 = acc * 10 + d;
            if a2 > 0x80000000 {
                return None;
            }
            return parse_int_digits_x(s, i + 1, a2);
        }
    }
    Some((acc, i))
}

/// Parses an optionally signed 32-bit integer.
pub open spec fn spec_parse_json_int(s: Seq<char>, i: int) -> Option<(int, int)> {
    if 0 <= i && i < s.len() && s[i] == '-' {
        if i + 1 < s.len() && is_digit_char(s[i + 1]) {
            match spec_parse_int_digits(s, i + 1, 0) {
                Some((v, j)) => Some((-v, j)),
                None => None,
            }
        } else {
            None
        }
    } else if 0 <= i && i < s.len() && is_digit_char(s[i]) {
        match spec_parse_int_digits(s, i, 0) {
            Some((v, j)) => if v <= 0x7fffffff {
                Some((v, j))
            } else {
                None
            },
            None => None,
        }
    } else {
        None
    }
}

proof fn lemma_parse_json_int_bounds(s: Seq<char>, i: int)
    ensures
        match spec_parse_json_int(s, i) {
            Some((v, j)) => i < j <= s.len() && -0x80000000 <= v <= 0x7fffffff,
            None => true,
        },
{
    if 0 <= i && i < s.len() && s[i] == '-' {
        lemma_parse_int_digits_bounds(s, i + 1, 0);
        lemma_parse_int_digits_nonneg(s, i + 1, 0);
    } else if 0 <= i && i < s.len() && is_digit_char(s[i]) {
        lemma_parse_int_digits_bounds(s, i, 0);
        lemma_parse_int_digits_nonneg(s, i, 0);
    }
}

proof fn lemma_parse_int_digits_nonneg(s: Seq<char>, i: int, acc: int)
    requires
        0 <= acc <= 0x80000000,
    ensures
        match spec_parse_int_digits(s, i, acc) {
            Some((v, j)) => 0 <= v <= 0x80000000 && (is_digit_char(s[i]) && 0 <= i < s.len()
                ==> j > i),
            None => true,
        },
    decreases s.len() - i,
{
    if 0 <= i && i < s.len() && is_digit_char(s[i]) {
        let a2 = acc * 10 + (s[i] as u32 - '0' as u32);
        if a2 <= 0x80000000 {
            lemma_parse_int_digits_nonneg(s, i + 1, a2);
            lemma_parse_int_digits_bounds(s, i + 1, a2);
        }
    }
}

fn parse_json_int_x(s: &Vec<char>, i: usize) -> (r: Option<(i32, usize)>)
    requires
        i <= s@.len(),
    ensures
        match r {
            Some((v, j)) => spec_parse_json_int(s@, i as int) == Some((v as int, j as int)) && i
                < j <= s@.len(),
            None => spec_parse_json_int(s@, i as int) is None,
        },
{
    proof {
        lemma_parse_json_int_bounds(s@, i as int);
    }
    if i < s.len() {
        let c = s[i];
        if c == '-' {
            if i + 1 < s.len() {
                let d = s[i + 1];
                if '0' <= d && d <= '9' {
                    proof {
                        lemma_parse_int_digits_nonneg(s@, i as int + 1, 0);
                    }
                    return match parse_int_digits_x(s, i + 1, 0) {
                        Some((v, j)) => Some(((-v) as i32, j)),
                        None => None,
                    };
                }
            }
            return None;
        }
        if '0' <= c && c <= '9' {
            proof {
                lemma_parse_int_digits_nonneg(s@, i as int, 0);
            }
            return match parse_int_digits_x(s, i, 0) {
                Some((v, j)) => if v <= 0x7fffffff {
                    Some((v as i32, j))
                } else {
                    None
                },
                None => None,
            };
        }
    }
    None
}

/// Captures a run of decimal digits as the characters themselves.
pub open spec fn spec_parse_digit_run(s: Seq<char>, i: int, acc: Seq<char>) -> (Seq<char>, int)
    decreases s.len() - i,
{
    if 0 <= i && i < s.len() && is_digit_char(s[i]) {
        spec_parse_digit_run(s, i + 1, acc.push(s[i]))
    } else {
        (acc, i)
    }
}

proof fn lemma_parse_digit_run_bounds(s: Seq<char>, i: int, acc: Seq<char>)
    ensures
        i <= spec_parse_digit_run(s, i, acc).1,
        i <= s.len() ==> spec_parse_digit_run(s, i, acc).1 <= s.len(),
    decreases s.len() - i,
{
    if 0 <= i && i < s.len() && is_digit_char(s[i]) {
        lemma_parse_digit_run_bounds(s, i + 1, acc.push(s[i]));
    }
}

fn parse_digit_run_x(s: &Vec<char>, i: usize, acc: String) -> (r: (String, usize))
    requires
        i <= s@.len(),
    ensures
        spec_parse_digit_run(s@, i as int, acc@) == (r.0@, r.1 as int),
        i <= r.1 <= s@.len(),
    decreases s@.len() - i,
{
    if i < s.len() {
        let c = s[i];
        if '0' <= c && c <= '9' {
            let mut acc2 = acc;
            push_char(&mut acc2, c);
            return parse_digit_run_x(s, i + 1, acc2);
        }
    }
    (acc, i)
}

// ---------------------------------------------------------------------------
// Field values
// ---------------------------------------------------------------------------
/// Whether the literal `null` stands at `i`.
pub open spec fn spec_has_null(s: Seq<char>, i: int) -> bool {
    &&& 0 <= i
    &&& i + 4 <= s.len()
    &&& s[i] == 'n'
    &&& s[i + 1] == 'u'
    &&& s[i + 2] == 'l'
    &&& s[i + 3] == 'l'
}

/// Parses the value of the `id` member: a 32-bit integer or `null`.
pub open spec fn spec_parse_id_value(s: Seq<char>, i: int) -> Option<(Option<int>, int)> {
    if spec_has_null(s, i) {
        Some((None, i + 4))
    } else {
        match spec_parse_json_int(s, i) {
            Some((v, j)) => Some((Some(v), j)),
            None => None,
        }
    }
}

proof fn lemma_parse_id_value_bounds(s: Seq<char>, i: int)
    ensures
        match spec_parse_id_value(s, i) {
            Some((v, j)) => i < j <= s.len(),
            None => true,
        },
{
    lemma_parse_json_int_bounds(s, i);
}

fn parse_id_value_x(s: &Vec<char>, i: usize) -> (r: Option<(Option<i32>, usize)>)
    requires
        i <= s@.len(),
    ensures
        match r {
            Some((v, j)) => spec_parse_id_value(s@, i as int) == Some(
                (
                    match v {
                        Some(n) => Some(n as int),
                        None => None,
                    },
                    j as int,
                ),
            ) && i < j <= s@.len(),
            None => spec_parse_id_value(s@, i as int) is None,
        },
{
    if s.len() - i >= 4 && s[i] == 'n' && s[i + 1] == 'u' && s[i + 2] == 'l' && s[i + 3] == 'l' {
        return Some((None, i + 4));
    }
    match parse_json_int_x(s, i) {
        Some((v, j)) => Some((Some(v), j)),
        None => None,
    }
}

/// Parses the value of the `statusCode` member: a quoted string, or a bare
/// number whose digits become the string.
pub open spec fn spec_parse_status_value(s: Seq<char>, i: int) -> Option<(Seq<char>, int)> {
    if 0 <= i && i < s.len() && s[i] == '"' {
        spec_parse_string(s, i)
    } else if 0 <= i && i < s.len() && is_digit_char(s[i]) {
        Some(spec_parse_digit_run(s, i, Seq::empty()))
    } else {
        None
    }
}

proof fn lemma_parse_status_value_bounds(s: Seq<char>, i: int)
    ensures
        match spec_parse_status_value(s, i) {
            Some((v, j)) => i < j <= s.len(),
            None => true,
        },
{
    lemma_parse_string_bounds(s, i);
    lemma_parse_digit_run_bounds(s, i, Seq::empty());
    if 0 <= i && i < s.len() && is_digit_char(s[i]) && s[i] != '"' {
        lemma_parse_digit_run_bounds(s, i + 1, Seq::empty().push(s[i]));
    }
}

fn parse_status_value_x(s: &Vec<char>, i: usize) -> (r: Option<(String, usize)>)
    requires
        i <= s@.len(),
    ensures
        match r {
            Some((t, j)) => spec_parse_status_value(s@, i as int) == Some((t@, j as int)) && i < j
                <= s@.len(),
            None => spec_parse_status_value(s@, i as int) is None,
        },
{
    proof {
        lemma_parse_status_value_bounds(s@, i as int);
    }
    if i < s.len() {
        let c = s[i];
        if c == '"' {
            return parse_string_x(s, i);
        }
        if '0' <= c && c <= '9' {
            return Some(parse_digit_run_x(s, i, String::new()));
        }
    }
    None
}

// ---------------------------------------------------------------------------
// Records
// ---------------------------------------------------------------------------
/// The members collected so far while parsing one record.
pub ghost struct RecFields {
    pub id: Option<int>,
    pub path: Option<Seq<char>>,
    pub return_object: Option<Seq<char>>,
    pub status_code: Option<Seq<char>>,
    pub name: Option<Seq<char>>,
}

/// No members seen yet.
pub open spec fn empty_fields() -> RecFields {
    RecFields { id: None, path: None, return_object: None, status_code: None, name: None }
}

/// A record is complete when the four string members are present; `id` may
/// be absent or `null`, which both mean an unsaved record.
pub open spec fn finish_record(f: RecFields) -> Option<PretendoView> {
    match (f.path, f.return_object, f.status_code, f.name) {
        (Some(p), Some(ro), Some(sc), Some(nm)) => Some(
            PretendoView { id: f.id, path: p, return_object: ro, status_code: sc, name: nm },
        ),
        _ => None,
    }
}

/// Parses the members of a record from the first key (whitespace before it
/// already skipped) through the closing brace.  A later duplicate member
/// replaces an earlier one; an unknown key is a parse failure.
pub open spec fn spec_parse_members(s: Seq<char>, i: int, f: RecFields) -> Option<(RecFields, int)>
    decreases s.len() - i,
    via spec_parse_members_dec
{
    match spec_parse_string(s, i) {
        Some((key, j)) => {
            let k = skip_ws(s, j);
            if k < s.len() && s[k] == ':' {
                let m = skip_ws(s, k + 1);
                let step: Option<(RecFields, int)> = if key == "id"@ {
                    match spec_parse_id_value(s, m) {
                        Some((v, e)) => Some((RecFields { id: v, ..f }, e)),
                        None => None,
                    }
                } else if key == "path"@ {
                    match spec_parse_string(s, m) {
                        Some((v, e)) => Some((RecFields { path: Some(v), ..f }, e)),
                        None => None,
                    }
                } else if key == "returnObject"@ {
                    match spec_parse_string(s, m) {
                        Some((v, e)) => Some((RecFields { return_object: Some(v), ..f }, e)),
                        None => None,
                    }
                } else if key == "statusCode"@ {
                    match spec_parse_status_value(s, m) {
                        Some((v, e)) => Some((RecFields { status_code: Some(v), ..f }, e)),
                        None => None,
                    }
                } else if key == "name"@ {
                    match spec_parse_string(s, m) {
                        Some((v, e)) => Some((RecFields { name: Some(v), ..f }, e)),
                        None => None,
                    }
                } else {
                    None
                };
                match step {
                    Some((f2, e)) => {
                        let w = skip_ws(s, e);
                        if w < s.len() && s[w] == '}' {
                            Some((f2, w + 1))
                        } else if w < s.len() && s[w] == ',' {
                            spec_parse_members(s, skip_ws(s, w + 1), f2)
                        } else {
                            None
                        }
                    },
                    None => None,
                }
            } else {
                None
            }
        },
        None => None,
    }
}

#[via_fn]
proof fn spec_parse_members_dec(s: Seq<char>, i: int, f: RecFields) {
    lemma_parse_members_steps(s, i);
}

/// The index facts that both the termination and the bounds of member
/// parsing rest on.
proof fn lemma_parse_members_steps(s: Seq<char>, i: int)
    ensures
        match spec_parse_string(s, i) {
            Some((key, j)) => {
                let k = skip_ws(s, j);
                i < j <= s.len() && j <= k && k <= s.len() && (k < s.len() && s[k] == ':' ==> {
                    let m = skip_ws(s, k + 1);
                    k + 1 <= m <= s.len() && (match spec_parse_id_value(s, m) {
                        Some((v, e)) => m < e <= s.len() && skip_ws(s, e) >= e && (e <= s.len()
                            ==> skip_ws(s, e) <= s.len()) && skip_ws(s, skip_ws(s, e) + 1) > i && (
                        skip_ws(s, e) + 1 <= s.len() ==> skip_ws(s, skip_ws(s, e) + 1) <= s.len()),
                        None => true,
                    }) && (match spec_parse_string(s, m) {
                        Some((v, e)) => m < e <= s.len() && skip_ws(s, e) >= e && skip_ws(s, e)
                            <= s.len() && skip_ws(s, skip_ws(s, e) + 1) > i && (skip_ws(s, e) + 1
                            <= s.len() ==> skip_ws(s, skip_ws(s, e) + 1) <= s.len()),
                        None => true,
                    }) && (match spec_parse_status_value(s, m) {
                        Some((v, e)) => m < e <= s.len() && skip_ws(s, e) >= e && skip_ws(s, e)
                            <= s.len() && skip_ws(s, skip_ws(s, e) + 1) > i && (skip_ws(s, e) + 1
                            <= s.len() ==> skip_ws(s, skip_ws(s, e) + 1) <= s.len()),
                        None => true,
                    })
                })
            },
            None => true,
        },
{
    lemma_parse_string_bounds(s, i);
    match spec_parse_string(s, i) {
        Some((key, j)) => {
            lemma_skip_ws_bounds(s, j);
            let k = skip_ws(s, j);
            if k < s.len() && s[k] == ':' {
                lemma_skip_ws_bounds(s, k + 1);
                let m = skip_ws(s, k + 1);
                lemma_parse_id_value_bounds(s, m);
                lemma_parse_string_bounds(s, m);
                lemma_parse_status_value_bounds(s, m);
                match spec_parse_id_value(s, m) {
                    Some((v, e)) => {
                        lemma_skip_ws_bounds(s, e);
                        lemma_skip_ws_bounds(s, skip_ws(s, e) + 1);
                    },
                    None => {},
                }
                match spec_parse_string(s, m) {
                    Some((v, e)) => {
                        lemma_skip_ws_bounds(s, e);
                        lemma_skip_ws_bounds(s, skip_ws(s, e) + 1);
                    },
                    None => {},
                }
                match spec_parse_status_value(s, m) {
                    Some((v, e)) => {
                        lemma_skip_ws_bounds(s, e);
                        lemma_skip_ws_bounds(s, skip_ws(s, e) + 1);
                    },
                    None => {},
                }
            }
        },
        None => {},
    }
}

proof fn lemma_parse_members_bounds(s: Seq<char>, i: int, f: RecFields)
    ensures
        match spec_parse_members(s, i, f) {
            Some((f2, e)) => i < e <= s.len(),
            None => true,
        },
    decreases s.len() - i,
{
    lemma_parse_members_steps(s, i);
    match spec_parse_string(s, i) {
        Some((key, j)) => {
            let k = skip_ws(s, j);
            if k < s.len() && s[k] == ':' {
                let m = skip_ws(s, k + 1);
                let step: Option<(RecFields, int)> = if key == "id"@ {
                    match spec_parse_id_value(s, m) {
                        Some((v, e)) => Some((RecFields { id: v, ..f }, e)),
                        None => None,
                    }
                } else if key == "path"@ {
                    match spec_parse_string(s, m) {
                        Some((v, e)) => Some((RecFields { path: Some(v), ..f }, e)),
                        None => None,
                    }
                } else if key == "returnObject"@ {
                    match spec_parse_string(s, m) {
                        Some((v, e)) => Some((RecFields { return_object: Some(v), ..f }, e)),
                        None => None,
                    }
                } else if key == "statusCode"@ {
                    match spec_parse_status_value(s, m) {
                        Some((v, e)) => Some((RecFields { status_code: Some(v), ..f }, e)),
                        None => None,
                    }
                } else if key == "name"@ {
                    match spec_parse_string(s, m) {
                        Some((v, e)) => Some((RecFields { name: Some(v), ..f }, e)),
                        None => None,
                    }
                } else {
                    None
                };
                match step {
                    Some((f2, e)) => {
                        assert(m < e <= s.len());
                        let w = skip_ws(s, e);
                        if w < s.len() && s[w] == ',' {
                            lemma_parse_members_bounds(s, skip_ws(s, w + 1), f2);
                        }
                    },
                    None => {},
                }
            }
        },
        None => {},
    }
}

/// Parses one record, from its opening brace.
pub open spec fn spec_parse_record(s: Seq<char>, i: int) -> Option<(PretendoView, int)> {
    if 0 <= i && i < s.len() && s[i] == '{' {
        match spec_parse_members(s, skip_ws(s, i + 1), empty_fields()) {
            Some((f, e)) => match finish_record(f) {
                Some(p) => Some((p, e)),
                None => None,
            },
            None => None,
        }
    } else {
        None
    }
}

proof fn lemma_parse_record_bounds(s: Seq<char>, i: int)
    ensures
        match spec_parse_record(s, i) {
            Some((p, e)) => i < e <= s.len(),
            None => true,
        },
{
    if 0 <= i && i < s.len() && s[i] == '{' {
        lemma_skip_ws_bounds(s, i + 1);
        lemma_parse_members_bounds(s, skip_ws(s, i + 1), empty_fields());
    }
}

/// The members collected so far, as executable values.
struct FieldsAcc {
    id: Option<i32>,
    path: Option<String>,
    return_object: Option<String>,
    status_code: Option<String>,
    name: Option<String>,
}

impl View for FieldsAcc {
    type V = RecFields;

    closed spec fn view(&self) -> RecFields {
        RecFields {
            id: match self.id {
                Some(n) => Some(n as int),
                None => None,
            },
            path: match self.path {
                Some(p) => Some(p@),
                None => None,
            },
            return_object: match self.return_object {
                Some(p) => Some(p@),
                None => None,
            },
            status_code: match self.status_code {
                Some(p) => Some(p@),
                None => None,
            },
            name: match self.name {
                Some(p) => Some(p@),
                None => None,
            },
        }
    }
}

fn parse_members_x(s: &Vec<char>, i: usize, f: FieldsAcc) -> (r: Option<(FieldsAcc, usize)>)
    requires
        i <= s@.len(),
    ensures
        match r {
            Some((f2, e)) => spec_parse_members(s@, i as int, f@) == Some((f2@, e as int)) && i < e
                <= s@.len(),
            None => spec_parse_members(s@, i as int, f@) is None,
        },
    decreases s@.len() - i,
{
    proof {
        lemma_parse_members_steps(s@, i as int);
    }
    let parsed_key = parse_string_x(s, i);
    match parsed_key {
        Some((key, j)) => {
            let k = skip_ws_x(s, j);
            if k < s.len() && s[k] == ':' {
                let m = skip_ws_x(s, k + 1);
                let step: Option<(FieldsAcc, usize)> = if key == String::from_str("id") {
                    match parse_id_value_x(s, m) {
                        Some((v, e)) => Some((FieldsAcc { id: v, ..f }, e)),
                        None => None,
                    }
                } else if key == String::from_str("path") {
                    match parse_string_x(s, m) {
                        Some((v, e)) => Some((FieldsAcc { path: Some(v), ..f }, e)),
                        None => None,
                    }
                } else if key == String::from_str("returnObject") {
                    match parse_string_x(s, m) {
                        Some((v, e)) => Some((FieldsAcc { return_object: Some(v), ..f }, e)),
                        None => None,
                    }
                } else if key == String::from_str("statusCode") {
                    match parse_status_value_x(s, m) {
                        Some((v, e)) => Some((FieldsAcc { status_code: Some(v), ..f }, e)),
                        None => None,
                    }
                } else if key == String::from_str("name") {
                    match parse_string_x(s, m) {
                        Some((v, e)) => Some((FieldsAcc { name: Some(v), ..f }, e)),
                        None => None,
                    }
                } else {
                    return None;
                };
                match step {
                    Some((f2, e)) => {
                        let w = skip_ws_x(s, e);
                        if w < s.len() && s[w] == '}' {
                            Some((f2, w + 1))
                        } else if w < s.len() && s[w] == ',' {
                            let m2 = skip_ws_x(s, w + 1);
                            parse_members_x(s, m2, f2)
                        } else {
                            None
                        }
                    },
                    None => None,
                }
            } else {
                None
            }
        },
        None => None,
    }
}

fn parse_record_x(s: &Vec<char>, i: usize) -> (r: Option<(Pretendo, usize)>)
    requires
        i <= s@.len(),
    ensures
        match r {
            Some((p, e)) => spec_parse_record(s@, i as int) == Some((p@, e as int)) && i < e
                <= s@.len(),
            None => spec_parse_record(s@, i as int) is None,
        },
{
    if i < s.len() && s[i] == '{' {
        let j = skip_ws_x(s, i + 1);
        match parse_members_x(
            s,
            j,
            FieldsAcc { id: None, path: None, return_object: None, status_code: None, name: None },
        ) {
            Some((f, e)) => {
                match (f.path, f.return_object, f.status_code, f.name) {
                    (Some(p), Some(ro), Some(sc), Some(nm)) => Some(
                        (
                            Pretendo {
                                id: f.id,
                                path: p,
                                return_object: ro,
                                status_code: sc,
                                name: nm,
                            },
                            e,
                        ),
                    ),
                    _ => None,
                }
            },
            None => None,
        }
    } else {
        None
    }
}

// ---------------------------------------------------------------------------
// Arrays
// ---------------------------------------------------------------------------
/// Parses the rest of a record array, from just after a completed element.
pub open spec fn spec_parse_records_rest(s: Seq<char>, i: int, acc: Seq<PretendoView>) -> Option<
    (Seq<PretendoView>, int),
>
    decreases s.len() - i,
    via spec_parse_records_rest_dec
{
    let w = skip_ws(s, i);
    if w < s.len() && s[w] == ']' {
        Some((acc, w + 1))
    } else if w < s.len() && s[w] == ',' {
        match spec_parse_record(s, skip_ws(s, w + 1)) {
            Some((p, e)) => spec_parse_records_rest(s, e, acc.push(p)),
            None => None,
        }
    } else {
        None
    }
}

#[via_fn]
proof fn spec_parse_records_rest_dec(s: Seq<char>, i: int, acc: Seq<PretendoView>) {
    lemma_skip_ws_bounds(s, i);
    let w = skip_ws(s, i);
    lemma_skip_ws_bounds(s, w + 1);
    lemma_parse_record_bounds(s, skip_ws(s, w + 1));
}

fn parse_records_rest_x(s: &Vec<char>, i: usize, acc: Vec<Pretendo>) -> (r: Option<
    (Vec<Pretendo>, usize),
>)
    requires
        i <= s@.len(),
    ensures
        match r {
            Some((l, e)) => spec_parse_records_rest(s@, i as int, acc.deep_view()) == Some(
                (l.deep_view(), e as int),
            ) && i <= e <= s@.len(),
            None => spec_parse_records_rest(s@, i as int, acc.deep_view()) is None,
        },
    decreases s@.len() - i,
{
    let w = skip_ws_x(s, i);
    if w < s.len() && s[w] == ']' {
        Some((acc, w + 1))
    } else if w < s.len() && s[w] == ',' {
        let m = skip_ws_x(s, w + 1);
        match parse_record_x(s, m) {
            Some((p, e)) => {
                let ghost acc0 = acc.deep_view();
                let mut acc2 = acc;
                acc2.push(p);
                proof {
                    assert(acc2.deep_view() =~= acc0.push(p@));
                }
                parse_records_rest_x(s, e, acc2)
            },
            None => None,
        }
    } else {
        None
    }
}

/// Parses the whole endpoint-list response: a JSON array of records, with
/// nothing but whitespace around it.
pub open spec fn spec_parse_endpoints(t: Seq<char>) -> Option<Seq<PretendoView>> {
    let i = skip_ws(t, 0);
    if i < t.len() && t[i] == '[' {
        let j = skip_ws(t, i + 1);
        if j < t.len() && t[j] == ']' {
            if skip_ws(t, j + 1) == t.len() {
                Some(Seq::empty())
            } else {
                None
            }
        } else {
            match spec_parse_record(t, j) {
                Some((p, e)) => match spec_parse_records_rest(t, e, seq![p]) {
                    Some((l, e2)) => if skip_ws(t, e2) == t.len() {
                        Some(l)
                    } else {
                        None
                    },
                    None => None,
                },
                None => None,
            }
        }
    } else {
        None
    }
}

/// Parses the endpoint-list response body.  Yields the records exactly when
/// the body is a well-formed array of records; anything else — a transport
/// error already mapped to text that is not JSON, or malformed JSON — yields
/// `None`, a recoverable failure.
pub fn parse_endpoints(text: &str) -> (r: Option<Vec<Pretendo>>)
    ensures
        match r {
            Some(v) => spec_parse_endpoints(text@) == Some(v.deep_view()),
            None => spec_parse_endpoints(text@) is None,
        },
{
    let s = chars_of(text);
    let i = skip_ws_x(&s, 0);
    if i < s.len() && s[i] == '[' {
        let j = skip_ws_x(&s, i + 1);
        if j < s.len() && s[j] == ']' {
            if skip_ws_x(&s, j + 1) == s.len() {
                let out: Vec<Pretendo> = Vec::new();
                proof {
                    assert(out.deep_view() =~= Seq::<PretendoView>::empty());
                }
                Some(out)
            } else {
                None
            }
        } else {
            match parse_record_x(&s, j) {
                Some((p, e)) => {
                    let mut first: Vec<Pretendo> = Vec::new();
                    let ghost pv = p@;
                    first.push(p);
                    proof {
                        assert(first.deep_view() =~= seq![pv]);
                    }
                    match parse_records_rest_x(&s, e, first) {
                        Some((l, e2)) => {
                            if skip_ws_x(&s, e2) == s.len() {
                                Some(l)
                            } else {
                                None
                            }
                        },
                        None => None,
                    }
                },
                None => None,
            }
        }
    } else {
        None
    }
}

/// Parses the rest of a string array, from just after a completed element.
pub open spec fn spec_parse_strings_rest(s: Seq<char>, i: int, acc: Seq<Seq<char>>) -> Option<
    (Seq<Seq<char>>, int),
>
    decreases s.len() - i,
    via spec_parse_strings_rest_dec
{
    let w = skip_ws(s, i);
    if w < s.len() && s[w] == ']' {
        Some((acc, w + 1))
    } else if w < s.len() && s[w] == ',' {
        match spec_parse_string(s, skip_ws(s, w + 1)) {
            Some((v, e)) => spec_parse_strings_rest(s, e, acc.push(v)),
            None => None,
        }
    } else {
        None
    }
}

#[via_fn]
proof fn spec_parse_strings_rest_dec(s: Seq<char>, i: int, acc: Seq<Seq<char>>) {
    lemma_skip_ws_bounds(s, i);
    let w = skip_ws(s, i);
    lemma_skip_ws_bounds(s, w + 1);
    lemma_parse_string_bounds(s, skip_ws(s, w + 1));
}

fn parse_strings_rest_x(s: &Vec<char>, i: usize, acc: Vec<String>) -> (r: Option<
    (Vec<String>, usize),
>)
    requires
        i <= s@.len(),
    ensures
        match r {
            Some((l, e)) => spec_parse_strings_rest(s@, i as int, acc.deep_view()) == Some(
                (l.deep_view(), e as int),
            ) && i <= e <= s@.len(),
            None => spec_parse_strings_rest(s@, i as int, acc.deep_view()) is None,
        },
    decreases s@.len() - i,
{
    let w = skip_ws_x(s, i);
    if w < s.len() && s[w] == ']' {
        Some((acc, w + 1))
    } else if w < s.len() && s[w] == ',' {
        let m = skip_ws_x(s, w + 1);
        match parse_string_x(s, m) {
            Some((v, e)) => {
                let ghost acc0 = acc.deep_view();
                let ghost vv = v@;
                let mut acc2 = acc;
                acc2.push(v);
                proof {
                    assert(acc2.deep_view() =~= acc0.push(vv));
                }
                parse_strings_rest_x(s, e, acc2)
            },
            None => None,
        }
    } else {
        None
    }
}

/// Parses the whole domain-list response: a JSON array of strings, with
/// nothing but whitespace around it.
pub open spec fn spec_parse_domains(t: Seq<char>) -> Option<Seq<Seq<char>>> {
    let i = skip_ws(t, 0);
    if i < t.len() && t[i] == '[' {
        let j = skip_ws(t, i + 1);
        if j < t.len() && t[j] == ']' {
            if skip_ws(t, j + 1) == t.len() {
                Some(Seq::empty())
            } else {
                None
            }
        } else {
            match spec_parse_string(t, j) {
                Some((v, e)) => match spec_parse_strings_rest(t, e, seq![v]) {
                    Some((l, e2)) => if skip_ws(t, e2) == t.len() {
                        Some(l)
                    } else {
                        None
                    },
                    None => None,
                },
                None => None,
            }
        }
    } else {
        None
    }
}

/// Parses the domain-list response body.  `Some` of an empty list (the
/// service said there are no domains) is distinct from `None` (the body was
/// not a well-formed array of strings), so a caller can tell the two apart.
pub fn parse_domains(text: &str) -> (r: Option<Vec<String>>)
    ensures
        match r {
            Some(v) => spec_parse_domains(text@) == Some(v.deep_view()),
            None => spec_parse_domains(text@) is None,
        },
{
    let s = chars_of(text);
    let i = skip_ws_x(&s, 0);
    if i < s.len() && s[i] == '[' {
        let j = skip_ws_x(&s, i + 1);
        if j < s.len() && s[j] == ']' {
            if skip_ws_x(&s, j + 1) == s.len() {
                let out: Vec<String> = Vec::new();
                proof {
                    assert(out.deep_view() =~= Seq::<Seq<char>>::empty());
                }
                Some(out)
            } else {
                None
            }
        } else {
            match parse_string_x(&s, j) {
                Some((v, e)) => {
                    let ghost vv = v@;
                    let mut first: Vec<String> = Vec::new();
                    first.push(v);
                    proof {
                        assert(first.deep_view() =~= seq![vv]);
                    }
                    match parse_strings_rest_x(&s, e, first) {
                        Some((l, e2)) => {
                            if skip_ws_x(&s, e2) == s.len() {
                                Some(l)
                            } else {
                                None
                            }
                        },
                        None => None,
                    }
                },
                None => None,
            }
        }
    } else {
        None
    }
}

// ---------------------------------------------------------------------------
// Encoding
// ---------------------------------------------------------------------------
/// The hexadecimal digit of a value below sixteen (also the decimal digit of
/// a value below ten).
pub open spec fn spec_hex_char(v: int) -> char {
    if v == 0 {
        '0'
    } else if v == 1 {
        '1'
    } else if v == 2 {
        '2'
    } else if v == 3 {
        '3'
    } else if v == 4 {
        '4'
    } else if v == 5 {
        '5'
    } else if v == 6 {
        '6'
    } else if v == 7 {
        '7'
    } else if v == 8 {
        '8'
    } else if v == 9 {
        '9'
    } else if v == 10 {
        'a'
    } else if v == 11 {
        'b'
    } else if v == 12 {
        'c'
    } else if v == 13 {
        'd'
    } else if v == 14 {
        'e'
    } else {
        'f'
    }
}

/// How one character travels inside a JSON string: itself, unless it needs
/// an escape.
pub open spec fn spec_escape_char(c: char) -> Seq<char> {
    if c == '"' {
        seq!['\\', '"']
    } else if c == '\\' {
        seq!['\\', '\\']
    } else if c == '\n' {
        seq!['\\', 'n']
    } else if c == '\r' {
        seq!['\\', 'r']
    } else if c == '\t' {
        seq!['\\', 't']
    } else if c == '\u{8}' {
        seq!['\\', 'b']
    } else if c == '\u{c}' {
        seq!['\\', 'f']
    } else if (c as u32) < 32 {
        seq![
            '\\',
            'u',
            '0',
            '0',
            spec_hex_char(c as u32 as int / 16),
            spec_hex_char(c as u32 as int % 16),
        ]
    } else {
        seq![c]
    }
}

/// The escaped form of a whole string.
pub open spec fn spec_escaped(s: Seq<char>) -> Seq<char>
    decreases s.len(),
{
    if s.len() == 0 {
        Seq::empty()
    } else {
        spec_escaped(s.drop_last()) + spec_escape_char(s.last())
    }
}

/// A quoted, escaped JSON string.
pub open spec fn spec_quoted(s: Seq<char>) -> Seq<char> {
    seq!['"'] + spec_escaped(s) + seq!['"']
}

/// One `"key":"value"` member.
pub open spec fn spec_member(key: Seq<char>, val: Seq<char>) -> Seq<char> {
    spec_quoted(key) + seq![':'] + spec_quoted(val)
}

/// The body of the create call: the four string fields, in this order.
pub open spec fn spec_create_body(
    path: Seq<char>,
    return_object: Seq<char>,
    name: Seq<char>,
    status_code: Seq<char>,
) -> Seq<char> {
    seq!['{'] + spec_member("path"@, path) + seq![','] + spec_member("returnObject"@, return_object)
        + seq![','] + spec_member("name"@, name) + seq![','] + spec_member(
        "statusCode"@,
        status_code,
    ) + seq!['}']
}

/// The decimal digits of a natural number, most significant first.
pub open spec fn spec_dec_digits(n: nat) -> Seq<char>
    decreases n,
{
    if n < 10 {
        seq![spec_hex_char(n as int)]
    } else {
        spec_dec_digits(n / 10).push(spec_hex_char((n % 10) as int))
    }
}

/// A signed integer as decimal text.
pub open spec fn spec_int_chars(v: int) -> Seq<char> {
    if v >= 0 {
        spec_dec_digits(v as nat)
    } else {
        seq!['-'] + spec_dec_digits((-v) as nat)
    }
}

/// A full record in the wire format, identifier included (`null` while the
/// record is an unsaved draft).
pub open spec fn spec_encode_endpoint(p: PretendoView) -> Seq<char> {
    seq!['{'] + spec_quoted("id"@) + seq![':'] + (match p.id {
        Some(v) => spec_int_chars(v),
        None => "null"@,
    }) + seq![','] + spec_member("path"@, p.path) + seq![','] + spec_member(
        "returnObject"@,
        p.return_object,
    ) + seq![','] + spec_member("statusCode"@, p.status_code) + seq![','] + spec_member(
        "name"@,
        p.name,
    ) + seq!['}']
}

/// The escaped form decomposes from the left as well.
proof fn lemma_escaped_left(v: Seq<char>)
    requires
        v.len() > 0,
    ensures
        spec_escaped(v) == spec_escape_char(v[0]) + spec_escaped(v.drop_first()),
    decreases v.len(),
{
    if v.len() == 1 {
        assert(v.drop_last() =~= Seq::<char>::empty());
        assert(v.drop_first() =~= Seq::<char>::empty());
        assert(spec_escaped(v) =~= spec_escape_char(v[0]) + spec_escaped(v.drop_first()));
    } else {
        lemma_escaped_left(v.drop_last());
        assert(v.drop_last()[0] == v[0]);
        assert(v.drop_last().drop_first() =~= v.drop_first().drop_last());
        assert(v.drop_first().last() == v.last());
        assert(spec_escaped(v) == (spec_escape_char(v[0]) + spec_escaped(
            v.drop_first().drop_last(),
        )) + spec_escape_char(v.last()));
        assert((spec_escape_char(v[0]) + spec_escaped(v.drop_first().drop_last()))
            + spec_escape_char(v.last()) =~= spec_escape_char(v[0]) + (spec_escaped(
            v.drop_first().drop_last(),
        ) + spec_escape_char(v.last())));
    }
}

proof fn lemma_hex_val_of_hex_char(d: int)
    requires
        0 <= d < 16,
    ensures
        spec_hex_val(spec_hex_char(d)) == Some(d),
{
}

/// Reading an escaped string back: wherever the escaped form of `v` sits,
/// closed by a quote, the string-body parser decodes exactly `v` and stops
/// right after that quote.
proof fn lemma_unescape_at(s: Seq<char>, i: int, v: Seq<char>, acc: Seq<char>)
    requires
        0 <= i,
        i + spec_escaped(v).len() + 1 <= s.len(),
        s.subrange(i, i + spec_escaped(v).len() + 1) == spec_escaped(v) + seq!['"'],
    ensures
        spec_parse_str_body(s, i, acc) == Some((acc + v, i + spec_escaped(v).len() + 1)),
    decreases v.len(),
{
    let sub = s.subrange(i, i + spec_escaped(v).len() + 1);
    if v.len() == 0 {
        assert(spec_escaped(v) =~= Seq::<char>::empty());
        assert(s[i] == sub[0]);
        assert(s[i] == '"');
        assert(acc + v =~= acc);
    } else {
        let c = v[0];
        let v1 = v.drop_first();
        lemma_escaped_left(v);
        let ec = spec_escape_char(c);
        let e1 = spec_escaped(v1);
        let m = ec.len() as int;
        let n1 = e1.len() as int;
        assert(spec_escaped(v) == ec + e1);
        assert forall|k: int| 0 <= k < m implies s[i + k] == ec[k] by {
            assert(sub[k] == s[i + k]);
            assert(sub[k] == (spec_escaped(v) + seq!['"'])[k]);
            assert((ec + e1)[k] == ec[k]);
        }
        assert forall|j: int| 0 <= j < n1 + 1 implies s.subrange(i + m, i + m + n1 + 1)[j] == (e1
            + seq!['"'])[j] by {
            assert(s.subrange(i + m, i + m + n1 + 1)[j] == s[i + m + j]);
            assert(sub[m + j] == s[i + m + j]);
            assert(sub[m + j] == (spec_escaped(v) + seq!['"'])[m + j]);
            if j < n1 {
                assert((spec_escaped(v) + seq!['"'])[m + j] == spec_escaped(v)[m + j]);
                assert(spec_escaped(v)[m + j] == (ec + e1)[m + j]);
                assert((ec + e1)[m + j] == e1[j]);
            } else {
                assert((spec_escaped(v) + seq!['"'])[m + j] == '"');
            }
        }
        assert(s.subrange(i + m, i + m + n1 + 1) =~= e1 + seq!['"']);
        assert(acc + v =~= acc.push(c) + v1);
        if ec.len() == 1 {
            assert(s[i + 0] == ec[0]);
            assert(ec[0] == c);
            assert(s[i] == c);
            assert(c != '"' && c != '\\');
            lemma_unescape_at(s, i + 1, v1, acc.push(c));
        } else if ec.len() == 2 {
            assert(s[i] == '\\');
            assert(s[i + 1] == ec[1]);
            assert(spec_escape_code(ec[1]) == Some(c));
            assert(spec_parse_escape(s, i + 1) == Some((c, i + 2)));
            lemma_unescape_at(s, i + 2, v1, acc.push(c));
        } else {
            let cu: int = (c as u32) as int;
            let hi = cu / 16;
            let lo = cu % 16;
            assert(s[i] == '\\');
            assert(s[i + 1] == 'u');
            assert(spec_escape_code('u') is None);
            assert(s[i + 2] == '0' && s[i + 3] == '0');
            assert(s[i + 4] == spec_hex_char(hi) && s[i + 5] == spec_hex_char(lo));
            lemma_hex_val_of_hex_char(hi);
            lemma_hex_val_of_hex_char(lo);
            assert(16 * hi + lo == cu);
            let b: u8 = (16 * hi + lo) as u8;
            let d: char = b as char;
            assert((d as u32) as int == cu);
            assert(d as u32 == c as u32);
            vstd::utf8::char_u32_cast(c, d as u32);
            vstd::utf8::char_u32_cast(d, d as u32);
            assert(d == c);
            assert(spec_parse_escape(s, i + 1) == Some((c, i + 6)));
            lemma_unescape_at(s, i + 6, v1, acc.push(c));
        }
    }
}

/// What the encoder emits as a quoted string, the parser reads back: for any
/// string value at all, decoding inverts encoding, and the parse ends exactly
/// at the end of the quoted form.
pub proof fn lemma_quoted_round_trip(v: Seq<char>)
    ensures
        spec_parse_string(spec_quoted(v), 0) == Some((v, spec_quoted(v).len() as int)),
{
    let s = spec_quoted(v);
    assert(s[0] == '"');
    assert(s.subrange(1, 1 + spec_escaped(v).len() as int + 1) =~= spec_escaped(v) + seq!['"']);
    lemma_unescape_at(s, 1, v, Seq::empty());
    assert(Seq::<char>::empty() + v =~= v);
}

fn hex_char_x(v: u32) -> (c: char)
    requires
        v < 16,
    ensures
        c == spec_hex_char(v as int),
{
    if v == 0 {
        '0'
    } else if v == 1 {
        '1'
    } else if v == 2 {
        '2'
    } else if v == 3 {
        '3'
    } else if v == 4 {
        '4'
    } else if v == 5 {
        '5'
    } else if v == 6 {
        '6'
    } else if v == 7 {
        '7'
    } else if v == 8 {
        '8'
    } else if v == 9 {
        '9'
    } else if v == 10 {
        'a'
    } else if v == 11 {
        'b'
    } else if v == 12 {
        'c'
    } else if v == 13 {
        'd'
    } else if v == 14 {
        'e'
    } else {
        'f'
    }
}

fn push_escaped(out: &mut String, s: &str)
    ensures
        final(out)@ == old(out)@ + spec_escaped(s@),
{
    let n = s.unicode_len();
    let mut i: usize = 0;
    while i < n
        invariant
            i <= n,
            n == s@.len(),
            out@ == old(out)@ + spec_escaped(s@.take(i as int)),
        decreases n - i,
    {
        let c = s.get_char(i);
        proof {
            assert(s@.take(i as int + 1).drop_last() =~= s@.take(i as int));
            assert(s@.take(i as int + 1).last() == s@[i as int]);
        }
        let ghost pre = out@;
        if c == '"' {
            push_char(out, '\\');
            push_char(out, '"');
        } else if c == '\\' {
            push_char(out, '\\');
            push_char(out, '\\');
        } else if c == '\n' {
            push_char(out, '\\');
            push_char(out, 'n');
        } else if c == '\r' {
            push_char(out, '\\');
            push_char(out, 'r');
        } else if c == '\t' {
            push_char(out, '\\');
            push_char(out, 't');
        } else if c == '\u{8}' {
            push_char(out, '\\');
            push_char(out, 'b');
        } else if c == '\u{c}' {
            push_char(out, '\\');
            push_char(out, 'f');
        } else if (c as u32) < 32 {
            push_char(out, '\\');
            push_char(out, 'u');
            push_char(out, '0');
            push_char(out, '0');
            push_char(out, hex_char_x(c as u32 / 16));
            push_char(out, hex_char_x(c as u32 % 16));
        } else {
            push_char(out, c);
        }
        proof {
            assert(out@ =~= pre + spec_escape_char(s@[i as int]));
            assert(out@ =~= old(out)@ + spec_escaped(s@.take(i as int + 1)));
        }
        i += 1;
    }
    proof {
        assert(s@.take(n as int) =~= s@);
    }
}

fn push_quoted(out: &mut String, s: &str)
    ensures
        final(out)@ == old(out)@ + spec_quoted(s@),
{
    push_char(out, '"');
    push_escaped(out, s);
    push_char(out, '"');
    proof {
        assert(out@ =~= old(out)@ + spec_quoted(s@));
    }
}

fn push_member(out: &mut String, key: &str, val: &str)
    ensures
        final(out)@ == old(out)@ + spec_member(key@, val@),
{
    push_quoted(out, key);
    push_char(out, ':');
    push_quoted(out, val);
    proof {
        assert(out@ =~= old(out)@ + spec_member(key@, val@));
    }
}

/// Encodes the create-call body from the four submitted fields.  Every
/// character of every field is carried, escaped as needed, so no field value
/// can break the structure of the request.
pub fn encode_create_body(path: &str, return_object: &str, name: &str, status_code: &str) -> (r:
    String)
    ensures
        r@ == spec_create_body(path@, return_object@, name@, status_code@),
{
    let mut out = String::new();
    push_char(&mut out, '{');
    push_member(&mut out, "path", path);
    push_char(&mut out, ',');
    push_member(&mut out, "returnObject", return_object);
    push_char(&mut out, ',');
    push_member(&mut out, "name", name);
    push_char(&mut out, ',');
    push_member(&mut out, "statusCode", status_code);
    push_char(&mut out, '}');
    proof {
        assert(out@ =~= spec_create_body(path@, return_object@, name@, status_code@));
    }
    out
}

fn push_u32_dec(out: &mut String, n: u32)
    ensures
        final(out)@ == old(out)@ + spec_dec_digits(n as nat),
    decreases n,
{
    if n < 10 {
        push_char(out, hex_char_x(n));
    } else {
        push_u32_dec(out, n / 10);
        push_char(out, hex_char_x(n % 10));
        proof {
            assert(out@ =~= old(out)@ + spec_dec_digits(n as nat));
        }
    }
}

fn push_i32_dec(out: &mut String, v: i32)
    ensures
        final(out)@ == old(out)@ + spec_int_chars(v as int),
{
    if v >= 0 {
        push_u32_dec(out, v as u32);
    } else {
        push_char(out, '-');
        let m: u32 = (-(v as i64)) as u32;
        push_u32_dec(out, m);
        proof {
            assert(out@ =~= old(out)@ + spec_int_chars(v as int));
        }
    }
}

/// Encodes one record in the wire format, identifier included; the record's
/// own `statusCode` string travels as a string.  What this yields, the
/// parser reads back unchanged.
pub fn encode_endpoint(p: &Pretendo) -> (r: String)
    ensures
        r@ == spec_encode_endpoint(p@),
{
    let mut out = String::new();
    push_char(&mut out, '{');
    push_quoted(&mut out, "id");
    push_char(&mut out, ':');
    match p.id {
        Some(v) => push_i32_dec(&mut out, v),
        None => out.append("null"),
    }
    push_char(&mut out, ',');
    push_member(&mut out, "path", p.path.as_str());
    push_char(&mut out, ',');
    push_member(&mut out, "returnObject", p.return_object.as_str());
    push_char(&mut out, ',');
    push_member(&mut out, "statusCode", p.status_code.as_str());
    push_char(&mut out, ',');
    push_member(&mut out, "name", p.name.as_str());
    push_char(&mut out, '}');
    proof {
        assert(out@ =~= spec_encode_endpoint(p@));
    }
    out
}

} // verus!
