use crate::text::{char_from_u32, chars_to_string, chars_vec, utf8_to_string};
use vstd::prelude::*;
use vstd::utf8::{char_u32_cast, decode_utf8, is_scalar, valid_utf8};

verus! {

// A response record is one line of the streamed response body: a JSON
// object with string fields `model`, `created_at` and `response`, a boolean
// `done`, and an optional `context` array of integers. Other members with
// scalar values (or arrays of scalars) are tolerated and ignored. A line
// that does not fit this shape decodes to nothing and is skipped.

/// One decoded unit of streamed output.
pub struct OllamaResponse {
    pub model: String,
    pub created_at: String,
    pub response: String,
    pub done: bool,
    pub context: Vec<i32>,
}

/// The mathematical model of a decoded record.
pub struct SpecRecord {
    pub model: Seq<char>,
    pub created_at: Seq<char>,
    pub response: Seq<char>,
    pub done: bool,
    pub context: Seq<i32>,
}

impl View for OllamaResponse {
    type V = SpecRecord;

    open spec fn view(&self) -> SpecRecord {
        SpecRecord {
            model: self.model@,
            created_at: self.created_at@,
            response: self.response@,
            done: self.done,
            context: self.context@,
        }
    }
}

// ---------- character classes ----------

pub open spec fn is_ws(c: char) -> bool {
    c == ' ' || c == '\t' || c == '\n' || c == '\r'
}

/// The value of a decimal digit, or -1.
pub open spec fn digit_val(c: char) -> int {
    if 48 <= c as u32 <= 57 {
        c as u32 - 48
    } else {
        -1
    }
}

/// The value of a hexadecimal digit, or -1.
pub open spec fn hex_val(c: char) -> int {
    if 48 <= c as u32 <= 57 {
        c as u32 - 48
    } else if 97 <= c as u32 <= 102 {
        c as u32 - 87
    } else if 65 <= c as u32 <= 70 {
        c as u32 - 55
    } else {
        -1
    }
}

// ---------- scanning ----------

/// The first position at or after `i` holding no whitespace.
pub open spec fn skip_ws(s: Seq<char>, i: int) -> int
    decreases s.len() - i,
{
    if 0 <= i < s.len() && is_ws(s[i]) {
        skip_ws(s, i + 1)
    } else {
        i
    }
}

pub proof fn lemma_skip_ws_bounds(s: Seq<char>, i: int)
    requires
        0 <= i <= s.len(),
    ensures
        i <= skip_ws(s, i) <= s.len(),
    decreases s.len() - i,
{
    if i < s.len() && is_ws(s[i]) {
        lemma_skip_ws_bounds(s, i + 1);
    }
}

/// The first position at or after `i` holding no decimal digit.
pub open spec fn digits_end(s: Seq<char>, i: int) -> int
    decreases s.len() - i,
{
    if 0 <= i < s.len() && digit_val(s[i]) >= 0 {
        digits_end(s, i + 1)
    } else {
        i
    }
}

pub proof fn lemma_digits_end_bounds(s: Seq<char>, i: int)
    requires
        0 <= i <= s.len(),
    ensures
        i <= digits_end(s, i) <= s.len(),
    decreases s.len() - i,
{
    if i < s.len() && digit_val(s[i]) >= 0 {
        lemma_digits_end_bounds(s, i + 1);
    }
}

/// The number denoted by the digit run `s[i .. end)`.
pub open spec fn digits_value(s: Seq<char>, i: int, end: int) -> int
    decreases end - i,
{
    if i < end {
        digits_value(s, i, end - 1) * 10 + digit_val(s[end - 1])
    } else {
        0
    }
}

pub open spec fn pow10(n: nat) -> int
    decreases n,
{
    if n == 0 {
        1
    } else {
        10 * pow10((n - 1) as nat)
    }
}

pub proof fn lemma_digits_value_bound(s: Seq<char>, i: int, end: int)
    requires
        i <= end,
        forall|k: int| i <= k < end ==> 0 <= #[trigger] digit_val(s[k]) <= 9,
    ensures
        0 <= digits_value(s, i, end) < pow10((end - i) as nat),
    decreases end - i,
{
    if i < end {
        lemma_digits_value_bound(s, i, end - 1);
    }
}

// ---------- literals ----------

/// Consumes `true` or `false` at `i`.
pub open spec fn parse_bool(s: Seq<char>, i: int) -> Option<(bool, int)> {
    if 0 <= i && i + 4 <= s.len() && s[i] == 't' && s[i + 1] == 'r' && s[i + 2] == 'u' && s[i + 3]
        == 'e' {
        Some((true, i + 4))
    } else if 0 <= i && i + 5 <= s.len() && s[i] == 'f' && s[i + 1] == 'a' && s[i + 2] == 'l' && s[
        i + 3] == 's' && s[i + 4] == 'e' {
        Some((false, i + 5))
    } else {
        None
    }
}

/// Consumes `null` at `i`.
pub open spec fn parse_null(s: Seq<char>, i: int) -> Option<int> {
    if 0 <= i && i + 4 <= s.len() && s[i] == 'n' && s[i + 1] == 'u' && s[i + 2] == 'l' && s[i + 3]
        == 'l' {
        Some(i + 4)
    } else {
        None
    }
}

// ---------- strings ----------

/// The value of the four hexadecimal digits at `i`, or -1.
pub open spec fn hex4(s: Seq<char>, i: int) -> int {
    if 0 <= i && i + 4 <= s.len() && hex_val(s[i]) >= 0 && hex_val(s[i + 1]) >= 0 && hex_val(
        s[i + 2],
    ) >= 0 && hex_val(s[i + 3]) >= 0 {
        hex_val(s[i]) * 4096 + hex_val(s[i + 1]) * 256 + hex_val(s[i + 2]) * 16 + hex_val(s[i + 3])
    } else {
        -1
    }
}

/// Consumes the body of a JSON string (after the opening quote), decoding
/// escapes, up to and including the closing quote. `acc` carries the
/// characters decoded so far.
pub open spec fn parse_string_body(s: Seq<char>, i: int, acc: Seq<char>) -> Option<
    (Seq<char>, int),
>
    decreases s.len() - i,
{
    if i < 0 || i >= s.len() {
        None
    } else if s[i] == '"' {
        Some((acc, i + 1))
    } else if s[i] == '\\' {
        if i + 2 > s.len() {
            None
        } else {
            let e = s[i + 1];
            if e == '"' {
                parse_string_body(s, i + 2, acc.push('"'))
            } else if e == '\\' {
                parse_string_body(s, i + 2, acc.push('\\'))
            } else if e == '/' {
                parse_string_body(s, i + 2, acc.push('/'))
            } else if e == 'b' {
                parse_string_body(s, i + 2, acc.push('\x08'))
            } else if e == 'f' {
                parse_string_body(s, i + 2, acc.push('\x0C'))
            } else if e == 'n' {
                parse_string_body(s, i + 2, acc.push('\n'))
            } else if e == 'r' {
                parse_string_body(s, i + 2, acc.push('\r'))
            } else if e == 't' {
                parse_string_body(s, i + 2, acc.push('\t'))
            } else if e == 'u' {
                if i + 6 > s.len() {
                    None
                } else {
                    let cp = hex4(s, i + 2);
                    if cp < 0 {
                        None
                    } else if 0xD800 <= cp < 0xDC00 {
                        // A high surrogate must be followed by an escaped
                        // low surrogate; together they denote one scalar.
                        if i + 12 <= s.len() && s[i + 6] == '\\' && s[i + 7] == 'u' {
                            let lo = hex4(s, i + 8);
                            if 0xDC00 <= lo < 0xE000 {
                                let combined = 0x10000 + (cp - 0xD800) * 0x400 + (lo - 0xDC00);
                                parse_string_body(s, i + 12, acc.push((combined as u32) as char))
                            } else {
                                None
                            }
                        } else {
                            None
                        }
                    } else if 0xDC00 <= cp < 0xE000 {
                        None
                    } else {
                        parse_string_body(s, i + 6, acc.push((cp as u32) as char))
                    }
                }
            } else {
                None
            }
        }
    } else if (s[i] as u32) < 0x20 {
        // Raw control characters are not allowed inside a JSON string.
        None
    } else {
        parse_string_body(s, i + 1, acc.push(s[i]))
    }
}

/// Consumes a JSON string at `i`, yielding its decoded characters.
pub open spec fn parse_string(s: Seq<char>, i: int) -> Option<(Seq<char>, int)> {
    if 0 <= i < s.len() && s[i] == '"' {
        parse_string_body(s, i + 1, Seq::empty())
    } else {
        None
    }
}

// ---------- numbers ----------

/// Consumes a JSON integer at `i` whose value fits an `i32`. A fractional
/// part, an exponent, a leading zero or an out-of-range value is refused,
/// matching a strict integer target.
pub open spec fn parse_i32(s: Seq<char>, i: int) -> Option<(int, int)> {
    if !(0 <= i < s.len()) {
        None
    } else {
        let j = if s[i] == '-' {
            i + 1
        } else {
            i
        };
        let end = digits_end(s, j);
        if end == j {
            None
        } else if s[j] == '0' && end - j > 1 {
            None
        } else if end - j > 10 {
            None
        } else if end < s.len() && (s[end] == '.' || s[end] == 'e' || s[end] == 'E') {
            None
        } else {
            let v = digits_value(s, j, end);
            let sv = if s[i] == '-' {
                -v
            } else {
                v
            };
            if -0x8000_0000 <= sv <= 0x7FFF_FFFF {
                Some((sv, end))
            } else {
                None
            }
        }
    }
}

/// Consumes the fractional part of a number, if one starts at `i`.
pub open spec fn skip_frac(s: Seq<char>, i: int) -> Option<int> {
    if 0 <= i < s.len() && s[i] == '.' {
        let f = digits_end(s, i + 1);
        if f == i + 1 {
            None
        } else {
            Some(f)
        }
    } else {
        Some(i)
    }
}

/// Consumes the exponent part of a number, if one starts at `i`.
pub open spec fn skip_exp(s: Seq<char>, i: int) -> Option<int> {
    if 0 <= i < s.len() && (s[i] == 'e' || s[i] == 'E') {
        let j = if i + 1 < s.len() && (s[i + 1] == '+' || s[i + 1] == '-') {
            i + 2
        } else {
            i + 1
        };
        let f = digits_end(s, j);
        if f == j {
            None
        } else {
            Some(f)
        }
    } else {
        Some(i)
    }
}

/// Consumes a JSON number at `i`, ignoring its value.
pub open spec fn skip_number(s: Seq<char>, i: int) -> Option<int> {
    if !(0 <= i < s.len()) {
        None
    } else {
        let j = if s[i] == '-' {
            i + 1
        } else {
            i
        };
        let end = digits_end(s, j);
        if end == j {
            None
        } else if s[j] == '0' && end - j > 1 {
            None
        } else {
            match skip_frac(s, end) {
                None => None,
                Some(f) => skip_exp(s, f),
            }
        }
    }
}

// ---------- ignored values ----------

/// Consumes a scalar JSON value (string, number, boolean or null) at `i`,
/// ignoring it.
pub open spec fn skip_scalar(s: Seq<char>, i: int) -> Option<int> {
    if !(0 <= i < s.len()) {
        None
    } else if s[i] == '"' {
        match parse_string(s, i) {
            None => None,
            Some((v, j)) => Some(j),
        }
    } else if parse_bool(s, i) is Some {
        Some(parse_bool(s, i).unwrap().1)
    } else if parse_null(s, i) is Some {
        parse_null(s, i)
    } else {
        skip_number(s, i)
    }
}

/// Consumes the elements of an ignored array, `i` standing on the first
/// element, up to and including the closing bracket.
pub open spec fn skip_array_elems(s: Seq<char>, i: int) -> Option<int>
    decreases s.len() - i,
{
    match skip_scalar(s, i) {
        None => None,
        Some(k) => {
            let m = skip_ws(s, k);
            if m < s.len() && s[m] == ',' {
                let n = skip_ws(s, m + 1);
                if i < n <= s.len() {
                    skip_array_elems(s, n)
                } else {
                    None
                }
            } else if m < s.len() && s[m] == ']' {
                Some(m + 1)
            } else {
                None
            }
        },
    }
}

/// Consumes an ignored JSON value at `i`: a scalar, or an array of scalars.
pub open spec fn skip_value(s: Seq<char>, i: int) -> Option<int> {
    if 0 <= i < s.len() && s[i] == '[' {
        let j = skip_ws(s, i + 1);
        if j < s.len() && s[j] == ']' {
            Some(j + 1)
        } else {
            skip_array_elems(s, j)
        }
    } else {
        skip_scalar(s, i)
    }
}

// ---------- the context array ----------

/// Consumes the elements of the context array, `i` standing on the first
/// element, up to and including the closing bracket.
pub open spec fn parse_ctx_elems(s: Seq<char>, i: int, acc: Seq<i32>) -> Option<(Seq<i32>, int)>
    decreases s.len() - i,
{
    match parse_i32(s, i) {
        None => None,
        Some((v, k)) => {
            let acc2 = acc.push(v as i32);
            let m = skip_ws(s, k);
            if m < s.len() && s[m] == ',' {
                let n = skip_ws(s, m + 1);
                if i < n <= s.len() {
                    parse_ctx_elems(s, n, acc2)
                } else {
                    None
                }
            } else if m < s.len() && s[m] == ']' {
                Some((acc2, m + 1))
            } else {
                None
            }
        },
    }
}

/// Consumes the context array at `i`.
pub open spec fn parse_context(s: Seq<char>, i: int) -> Option<(Seq<i32>, int)> {
    if 0 <= i < s.len() && s[i] == '[' {
        let j = skip_ws(s, i + 1);
        if j < s.len() && s[j] == ']' {
            Some((Seq::empty(), j + 1))
        } else {
            parse_ctx_elems(s, j, Seq::empty())
        }
    } else {
        None
    }
}

// ---------- members ----------

pub open spec fn key_model() -> Seq<char> {
    seq!['m', 'o', 'd', 'e', 'l']
}

pub open spec fn key_created_at() -> Seq<char> {
    seq!['c', 'r', 'e', 'a', 't', 'e', 'd', '_', 'a', 't']
}

pub open spec fn key_response() -> Seq<char> {
    seq!['r', 'e', 's', 'p', 'o', 'n', 's', 'e']
}

pub open spec fn key_done() -> Seq<char> {
    seq!['d', 'o', 'n', 'e']
}

pub open spec fn key_context() -> Seq<char> {
    seq!['c', 'o', 'n', 't', 'e', 'x', 't']
}

/// Fields gathered so far while reading an object's members. `None` means
/// the field has not been seen; seeing a field twice refuses the record.
pub struct PartialSpec {
    pub model: Option<Seq<char>>,
    pub created_at: Option<Seq<char>>,
    pub response: Option<Seq<char>>,
    pub done: Option<bool>,
    pub context: Option<Seq<i32>>,
}

pub open spec fn empty_partial() -> PartialSpec {
    PartialSpec { model: None, created_at: None, response: None, done: None, context: None }
}

/// Which known field a member key names: 0 model, 1 created_at,
/// 2 response, 3 done, 4 context, 5 unknown.
pub open spec fn key_code(key: Seq<char>) -> int {
    if key == key_model() {
        0
    } else if key == key_created_at() {
        1
    } else if key == key_response() {
        2
    } else if key == key_done() {
        3
    } else if key == key_context() {
        4
    } else {
        5
    }
}

/// Consumes one member's value at `i` and folds it into `p` according to
/// the member's key.
pub open spec fn parse_member_value(s: Seq<char>, i: int, p: PartialSpec, key: Seq<char>) -> Option<
    (PartialSpec, int),
> {
    let code = key_code(key);
    if code == 0 {
        if p.model is Some {
            None
        } else {
            match parse_string(s, i) {
                None => None,
                Some((v, j)) => Some(
                    (
                        PartialSpec {
                            model: Some(v),
                            created_at: p.created_at,
                            response: p.response,
                            done: p.done,
                            context: p.context,
                        },
                        j,
                    ),
                ),
            }
        }
    } else if code == 1 {
        if p.created_at is Some {
            None
        } else {
            match parse_string(s, i) {
                None => None,
                Some((v, j)) => Some(
                    (
                        PartialSpec {
                            model: p.model,
                            created_at: Some(v),
                            response: p.response,
                            done: p.done,
                            context: p.context,
                        },
                        j,
                    ),
                ),
            }
        }
    } else if code == 2 {
        if p.response is Some {
            None
        } else {
            match parse_string(s, i) {
                None => None,
                Some((v, j)) => Some(
                    (
                        PartialSpec {
                            model: p.model,
                            created_at: p.created_at,
                            response: Some(v),
                            done: p.done,
                            context: p.context,
                        },
                        j,
                    ),
                ),
            }
        }
    } else if code == 3 {
        if p.done is Some {
            None
        } else {
            match parse_bool(s, i) {
                None => None,
                Some((v, j)) => Some(
                    (
                        PartialSpec {
                            model: p.model,
                            created_at: p.created_at,
                            response: p.response,
                            done: Some(v),
                            context: p.context,
                        },
                        j,
                    ),
                ),
            }
        }
    } else if code == 4 {
        if p.context is Some {
            None
        } else {
            match parse_context(s, i) {
                None => None,
                Some((v, j)) => Some(
                    (
                        PartialSpec {
                            model: p.model,
                            created_at: p.created_at,
                            response: p.response,
                            done: p.done,
                            context: Some(v),
                        },
                        j,
                    ),
                ),
            }
        }
    } else {
        match skip_value(s, i) {
            None => None,
            Some(j) => Some((p, j)),
        }
    }
}

/// Consumes the members of the record object, `i` standing on the first
/// member's key, up to and including the closing brace.
pub open spec fn parse_members(s: Seq<char>, i: int, p: PartialSpec) -> Option<(PartialSpec, int)>
    decreases s.len() - i,
{
    match parse_string(s, i) {
        None => None,
        Some((key, j)) => {
            let k = skip_ws(s, j);
            if !(k < s.len() && s[k] == ':') {
                None
            } else {
                let m = skip_ws(s, k + 1);
                match parse_member_value(s, m, p, key) {
                    None => None,
                    Some((p2, n)) => {
                        let q = skip_ws(s, n);
                        if q < s.len() && s[q] == ',' {
                            let r = skip_ws(s, q + 1);
                            if i < r <= s.len() {
                                parse_members(s, r, p2)
                            } else {
                                None
                            }
                        } else if q < s.len() && s[q] == '}' {
                            Some((p2, q + 1))
                        } else {
                            None
                        }
                    },
                }
            }
        },
    }
}

/// A record is complete when the three string fields and `done` were all
/// seen; a missing `context` stands for the empty token.
pub open spec fn finalize(p: PartialSpec) -> Option<SpecRecord> {
    if p.model is Some && p.created_at is Some && p.response is Some && p.done is Some {
        Some(
            SpecRecord {
                model: p.model.unwrap(),
                created_at: p.created_at.unwrap(),
                response: p.response.unwrap(),
                done: p.done.unwrap(),
                context: if p.context is Some {
                    p.context.unwrap()
                } else {
                    Seq::empty()
                },
            },
        )
    } else {
        None
    }
}

/// What one whole line of text denotes: a record, or nothing.
pub open spec fn parse_record(s: Seq<char>) -> Option<SpecRecord> {
    let i = skip_ws(s, 0);
    if !(i < s.len() && s[i] == '{') {
        None
    } else {
        let j = skip_ws(s, i + 1);
        let body = if j < s.len() && s[j] == '}' {
            Some((empty_partial(), j + 1))
        } else {
            parse_members(s, j, empty_partial())
        };
        match body {
            None => None,
            Some((p, k)) => {
                let e = skip_ws(s, k);
                if e == s.len() {
                    finalize(p)
                } else {
                    None
                }
            },
        }
    }
}

/// What one line of raw bytes denotes: its record when the bytes are valid
/// UTF-8 and fit the record shape, and nothing otherwise.
pub open spec fn decode_line(bytes: Seq<u8>) -> Option<SpecRecord> {
    if valid_utf8(bytes) {
        parse_record(decode_utf8(bytes))
    } else {
        None
    }
}

// ---------- auxiliary facts ----------

pub proof fn lemma_pow10_pos(n: nat)
    ensures
        pow10(n) >= 1,
    decreases n,
{
    if n > 0 {
        lemma_pow10_pos((n - 1) as nat);
    }
}

pub proof fn lemma_pow10_mono(a: nat, b: nat)
    requires
        a <= b,
    ensures
        pow10(a) <= pow10(b),
    decreases b,
{
    if a < b {
        lemma_pow10_mono(a, (b - 1) as nat);
        lemma_pow10_pos((b - 1) as nat);
    }
}

/// Every position in a digit run indeed holds a digit.
pub proof fn lemma_digits_end_digits(s: Seq<char>, i: int)
    requires
        0 <= i <= s.len(),
    ensures
        forall|k: int| i <= k < digits_end(s, i) ==> 0 <= #[trigger] digit_val(s[k]) <= 9,
    decreases s.len() - i,
{
    if i < s.len() && digit_val(s[i]) >= 0 {
        lemma_digits_end_digits(s, i + 1);
    }
}

// ---------- executable scanners ----------

fn skip_ws_e(v: &Vec<char>, i: usize) -> (r: usize)
    requires
        i <= v.len(),
    ensures
        r as int == skip_ws(v@, i as int),
        i <= r <= v.len(),
{
    let mut j = i;
    while j < v.len() && (v[j] == ' ' || v[j] == '\t' || v[j] == '\n' || v[j] == '\r')
        invariant
            i <= j <= v.len(),
            skip_ws(v@, i as int) == skip_ws(v@, j as int),
        decreases v.len() - j,
    {
        j += 1;
    }
    j
}

fn digits_end_e(v: &Vec<char>, i: usize) -> (r: usize)
    requires
        i <= v.len(),
    ensures
        r as int == digits_end(v@, i as int),
        i <= r <= v.len(),
{
    let mut j = i;
    while j < v.len() && 48 <= (v[j] as u32) && (v[j] as u32) <= 57
        invariant
            i <= j <= v.len(),
            digits_end(v@, i as int) == digits_end(v@, j as int),
        decreases v.len() - j,
    {
        j += 1;
    }
    j
}

fn digits_value_e(v: &Vec<char>, start: usize, end: usize) -> (r: u64)
    requires
        start <= end <= v.len(),
        end - start <= 10,
        forall|k: int| start <= k < end ==> 0 <= #[trigger] digit_val(v@[k]) <= 9,
    ensures
        r as int == digits_value(v@, start as int, end as int),
{
    let mut acc: u64 = 0;
    let mut j = start;
    while j < end
        invariant
            start <= j <= end <= v.len(),
            end - start <= 10,
            forall|k: int| start <= k < end ==> 0 <= #[trigger] digit_val(v@[k]) <= 9,
            acc as int == digits_value(v@, start as int, j as int),
        decreases end - j,
    {
        proof {
            assert(0 <= digit_val(v@[j as int]) <= 9);
            lemma_digits_value_bound(v@, start as int, j as int);
            lemma_pow10_mono((j - start) as nat, 9);
            assert(pow10(9) == 1000000000) by {
                reveal_with_fuel(pow10, 11);
            }
        }
        acc = acc * 10 + (v[j] as u32 as u64 - 48);
        j += 1;
    }
    acc
}

// ---------- executable literals ----------

fn parse_bool_e(v: &Vec<char>, i: usize) -> (r: Option<(bool, usize)>)
    requires
        i <= v.len(),
    ensures
        match r {
            Some((b, j)) => parse_bool(v@, i as int) == Some((b, j as int)) && j <= v.len(),
            None => parse_bool(v@, i as int) is None,
        },
{
    if v.len() - i >= 4 && v[i] == 't' && v[i + 1] == 'r' && v[i + 2] == 'u' && v[i + 3] == 'e' {
        Some((true, i + 4))
    } else if v.len() - i >= 5 && v[i] == 'f' && v[i + 1] == 'a' && v[i + 2] == 'l' && v[i + 3]
        == 's' && v[i + 4] == 'e' {
        Some((false, i + 5))
    } else {
        None
    }
}

fn parse_null_e(v: &Vec<char>, i: usize) -> (r: Option<usize>)
    requires
        i <= v.len(),
    ensures
        match r {
            Some(j) => parse_null(v@, i as int) == Some(j as int) && j <= v.len(),
            None => parse_null(v@, i as int) is None,
        },
{
    if v.len() - i >= 4 && v[i] == 'n' && v[i + 1] == 'u' && v[i + 2] == 'l' && v[i + 3] == 'l' {
        Some(i + 4)
    } else {
        None
    }
}

// ---------- executable strings ----------

fn hex_val_e(c: char) -> (r: i32)
    ensures
        r as int == hex_val(c),
{
    let u = c as u32;
    if 48 <= u && u <= 57 {
        (u - 48) as i32
    } else if 97 <= u && u <= 102 {
        (u - 87) as i32
    } else if 65 <= u && u <= 70 {
        (u - 55) as i32
    } else {
        -1
    }
}

fn hex4_e(v: &Vec<char>, i: usize) -> (r: i32)
    requires
        i <= v.len(),
    ensures
        r as int == hex4(v@, i as int),
{
    if v.len() - i >= 4 {
        let h0 = hex_val_e(v[i]);
        let h1 = hex_val_e(v[i + 1]);
        let h2 = hex_val_e(v[i + 2]);
        let h3 = hex_val_e(v[i + 3]);
        if h0 >= 0 && h1 >= 0 && h2 >= 0 && h3 >= 0 {
            h0 * 4096 + h1 * 256 + h2 * 16 + h3
        } else {
            -1
        }
    } else {
        -1
    }
}

fn parse_string_body_e(v: &Vec<char>, i: usize, acc: Vec<char>) -> (r: Option<(Vec<char>, usize)>)
    requires
        i <= v.len(),
    ensures
        match r {
            Some((out, j)) => parse_string_body(v@, i as int, acc@) == Some((out@, j as int)) && j
                <= v.len(),
            None => parse_string_body(v@, i as int, acc@) is None,
        },
    decreases v.len() - i,
{
    if i >= v.len() {
        return None;
    }
    let c = v[i];
    if c == '"' {
        Some((acc, i + 1))
    } else if c == '\\' {
        if v.len() - i < 2 {
            return None;
        }
        let e = v[i + 1];
        if e == '"' || e == '\\' || e == '/' {
            let mut acc2 = acc;
            acc2.push(e);
            parse_string_body_e(v, i + 2, acc2)
        } else if e == 'b' {
            let mut acc2 = acc;
            acc2.push('\x08');
            parse_string_body_e(v, i + 2, acc2)
        } else if e == 'f' {
            let mut acc2 = acc;
            acc2.push('\x0C');
            parse_string_body_e(v, i + 2, acc2)
        } else if e == 'n' {
            let mut acc2 = acc;
            acc2.push('\n');
            parse_string_body_e(v, i + 2, acc2)
        } else if e == 'r' {
            let mut acc2 = acc;
            acc2.push('\r');
            parse_string_body_e(v, i + 2, acc2)
        } else if e == 't' {
            let mut acc2 = acc;
            acc2.push('\t');
            parse_string_body_e(v, i + 2, acc2)
        } else if e == 'u' {
            if v.len() - i < 6 {
                return None;
            }
            let cp = hex4_e(v, i + 2);
            if cp < 0 {
                return None;
            }
            if 0xD800 <= cp && cp < 0xDC00 {
                if v.len() - i >= 12 && v[i + 6] == '\\' && v[i + 7] == 'u' {
                    let lo = hex4_e(v, i + 8);
                    if 0xDC00 <= lo && lo < 0xE000 {
                        let combined: u32 = 0x10000 + (cp as u32 - 0xD800) * 0x400 + (lo as u32
                            - 0xDC00);
                        assert(is_scalar(combined));
                        let copt = char_from_u32(combined);
                        let cc = copt.unwrap();
                        proof {
                            char_u32_cast(cc, combined);
                        }
                        let mut acc2 = acc;
                        acc2.push(cc);
                        parse_string_body_e(v, i + 12, acc2)
                    } else {
                        None
                    }
                } else {
                    None
                }
            } else if 0xDC00 <= cp && cp < 0xE000 {
                None
            } else {
                let u: u32 = cp as u32;
                assert(is_scalar(u));
                let copt = char_from_u32(u);
                let cc = copt.unwrap();
                proof {
                    char_u32_cast(cc, u);
                }
                let mut acc2 = acc;
                acc2.push(cc);
                parse_string_body_e(v, i + 6, acc2)
            }
        } else {
            None
        }
    } else if (c as u32) < 0x20 {
        None
    } else {
        let mut acc2 = acc;
        acc2.push(c);
        parse_string_body_e(v, i + 1, acc2)
    }
}

fn parse_string_e(v: &Vec<char>, i: usize) -> (r: Option<(Vec<char>, usize)>)
    requires
        i <= v.len(),
    ensures
        match r {
            Some((out, j)) => parse_string(v@, i as int) == Some((out@, j as int)) && j <= v.len(),
            None => parse_string(v@, i as int) is None,
        },
{
    if i < v.len() && v[i] == '"' {
        let acc: Vec<char> = Vec::new();
        assert(acc@ =~= Seq::<char>::empty());
        parse_string_body_e(v, i + 1, acc)
    } else {
        None
    }
}

// ---------- executable numbers ----------

fn parse_i32_e(v: &Vec<char>, i: usize) -> (r: Option<(i32, usize)>)
    requires
        i <= v.len(),
    ensures
        match r {
            Some((x, j)) => parse_i32(v@, i as int) == Some((x as int, j as int)) && j <= v.len(),
            None => parse_i32(v@, i as int) is None,
        },
{
    if i >= v.len() {
        return None;
    }
    let neg = v[i] == '-';
    let j = if neg {
        i + 1
    } else {
        i
    };
    let end = digits_end_e(v, j);
    if end == j {
        return None;
    }
    if v[j] == '0' && end - j > 1 {
        return None;
    }
    if end - j > 10 {
        return None;
    }
    if end < v.len() && (v[end] == '.' || v[end] == 'e' || v[end] == 'E') {
        return None;
    }
    proof {
        lemma_digits_end_digits(v@, j as int);
    }
    let val = digits_value_e(v, j, end);
    if neg {
        if val > 2147483648 {
            None
        } else {
            Some(((-(val as i64)) as i32, end))
        }
    } else {
        if val > 2147483647 {
            None
        } else {
            Some((val as i32, end))
        }
    }
}

fn skip_frac_e(v: &Vec<char>, i: usize) -> (r: Option<usize>)
    requires
        i <= v.len(),
    ensures
        match r {
            Some(j) => skip_frac(v@, i as int) == Some(j as int) && j <= v.len(),
            None => skip_frac(v@, i as int) is None,
        },
{
    if i < v.len() && v[i] == '.' {
        let f = digits_end_e(v, i + 1);
        if f == i + 1 {
            None
        } else {
            Some(f)
        }
    } else {
        Some(i)
    }
}

fn skip_exp_e(v: &Vec<char>, i: usize) -> (r: Option<usize>)
    requires
        i <= v.len(),
    ensures
        match r {
            Some(j) => skip_exp(v@, i as int) == Some(j as int) && j <= v.len(),
            None => skip_exp(v@, i as int) is None,
        },
{
    if i < v.len() && (v[i] == 'e' || v[i] == 'E') {
        let j = if i + 1 < v.len() && (v[i + 1] == '+' || v[i + 1] == '-') {
            i + 2
        } else {
            i + 1
        };
        let f = digits_end_e(v, j);
        if f == j {
            None
        } else {
            Some(f)
        }
    } else {
        Some(i)
    }
}

fn skip_number_e(v: &Vec<char>, i: usize) -> (r: Option<usize>)
    requires
        i <= v.len(),
    ensures
        match r {
            Some(j) => skip_number(v@, i as int) == Some(j as int) && j <= v.len(),
            None => skip_number(v@, i as int) is None,
        },
{
    if i >= v.len() {
        return None;
    }
    let j = if v[i] == '-' {
        i + 1
    } else {
        i
    };
    let end = digits_end_e(v, j);
    if end == j {
        return None;
    }
    if v[j] == '0' && end - j > 1 {
        return None;
    }
    match skip_frac_e(v, end) {
        None => None,
        Some(f) => skip_exp_e(v, f),
    }
}

// ---------- executable ignored values ----------

fn skip_scalar_e(v: &Vec<char>, i: usize) -> (r: Option<usize>)
    requires
        i <= v.len(),
    ensures
        match r {
            Some(j) => skip_scalar(v@, i as int) == Some(j as int) && j <= v.len(),
            None => skip_scalar(v@, i as int) is None,
        },
{
    if i >= v.len() {
        return None;
    }
    if v[i] == '"' {
        match parse_string_e(v, i) {
            None => None,
            Some((_out, j)) => Some(j),
        }
    } else {
        match parse_bool_e(v, i) {
            Some((_b, j)) => Some(j),
            None => {
                match parse_null_e(v, i) {
                    Some(j) => Some(j),
                    None => skip_number_e(v, i),
                }
            },
        }
    }
}

fn skip_array_elems_e(v: &Vec<char>, i: usize) -> (r: Option<usize>)
    requires
        i <= v.len(),
    ensures
        match r {
            Some(j) => skip_array_elems(v@, i as int) == Some(j as int) && j <= v.len(),
            None => skip_array_elems(v@, i as int) is None,
        },
    decreases v.len() - i,
{
    match skip_scalar_e(v, i) {
        None => None,
        Some(k) => {
            let m = skip_ws_e(v, k);
            if m < v.len() && v[m] == ',' {
                let n = skip_ws_e(v, m + 1);
                if i < n {
                    skip_array_elems_e(v, n)
                } else {
                    None
                }
            } else if m < v.len() && v[m] == ']' {
                Some(m + 1)
            } else {
                None
            }
        },
    }
}

fn skip_value_e(v: &Vec<char>, i: usize) -> (r: Option<usize>)
    requires
        i <= v.len(),
    ensures
        match r {
            Some(j) => skip_value(v@, i as int) == Some(j as int) && j <= v.len(),
            None => skip_value(v@, i as int) is None,
        },
{
    if i < v.len() && v[i] == '[' {
        let j = skip_ws_e(v, i + 1);
        if j < v.len() && v[j] == ']' {
            Some(j + 1)
        } else {
            skip_array_elems_e(v, j)
        }
    } else {
        skip_scalar_e(v, i)
    }
}

// ---------- executable context array ----------

fn parse_ctx_elems_e(v: &Vec<char>, i: usize, acc: Vec<i32>) -> (r: Option<(Vec<i32>, usize)>)
    requires
        i <= v.len(),
    ensures
        match r {
            Some((out, j)) => parse_ctx_elems(v@, i as int, acc@) == Some((out@, j as int)) && j
                <= v.len(),
            None => parse_ctx_elems(v@, i as int, acc@) is None,
        },
    decreases v.len() - i,
{
    match parse_i32_e(v, i) {
        None => None,
        Some((x, k)) => {
            let mut acc2 = acc;
            acc2.push(x);
            let m = skip_ws_e(v, k);
            if m < v.len() && v[m] == ',' {
                let n = skip_ws_e(v, m + 1);
                if i < n {
                    parse_ctx_elems_e(v, n, acc2)
                } else {
                    None
                }
            } else if m < v.len() && v[m] == ']' {
                Some((acc2, m + 1))
            } else {
                None
            }
        },
    }
}

fn parse_context_e(v: &Vec<char>, i: usize) -> (r: Option<(Vec<i32>, usize)>)
    requires
        i <= v.len(),
    ensures
        match r {
            Some((out, j)) => parse_context(v@, i as int) == Some((out@, j as int)) && j
                <= v.len(),
            None => parse_context(v@, i as int) is None,
        },
{
    if i < v.len() && v[i] == '[' {
        let j = skip_ws_e(v, i + 1);
        if j < v.len() && v[j] == ']' {
            let out: Vec<i32> = Vec::new();
            assert(out@ =~= Seq::<i32>::empty());
            Some((out, j + 1))
        } else {
            let acc: Vec<i32> = Vec::new();
            assert(acc@ =~= Seq::<i32>::empty());
            parse_ctx_elems_e(v, j, acc)
        }
    } else {
        None
    }
}

// ---------- executable members ----------

/// Fields gathered so far, executable side.
struct PartialExec {
    model: Option<Vec<char>>,
    created_at: Option<Vec<char>>,
    response: Option<Vec<char>>,
    done: Option<bool>,
    context: Option<Vec<i32>>,
}

spec fn opt_chars_view(o: Option<Vec<char>>) -> Option<Seq<char>> {
    match o {
        Some(v) => Some(v@),
        None => None,
    }
}

spec fn opt_ctx_view(o: Option<Vec<i32>>) -> Option<Seq<i32>> {
    match o {
        Some(v) => Some(v@),
        None => None,
    }
}

spec fn partial_view(p: &PartialExec) -> PartialSpec {
    PartialSpec {
        model: opt_chars_view(p.model),
        created_at: opt_chars_view(p.created_at),
        response: opt_chars_view(p.response),
        done: p.done,
        context: opt_ctx_view(p.context),
    }
}

fn key_code_e(key: &Vec<char>) -> (r: u8)
    ensures
        r as int == key_code(key@),
{
    if key.len() == 5 && key[0] == 'm' && key[1] == 'o' && key[2] == 'd' && key[3] == 'e' && key[4]
        == 'l' {
        proof {
            assert(key@ =~= key_model());
        }
        0
    } else if key.len() == 10 && key[0] == 'c' && key[1] == 'r' && key[2] == 'e' && key[3] == 'a'
        && key[4] == 't' && key[5] == 'e' && key[6] == 'd' && key[7] == '_' && key[8] == 'a'
        && key[9] == 't' {
        proof {
            assert(key@ =~= key_created_at());
        }
        1
    } else if key.len() == 8 && key[0] == 'r' && key[1] == 'e' && key[2] == 's' && key[3] == 'p'
        && key[4] == 'o' && key[5] == 'n' && key[6] == 's' && key[7] == 'e' {
        proof {
            assert(key@ =~= key_response());
        }
        2
    } else if key.len() == 4 && key[0] == 'd' && key[1] == 'o' && key[2] == 'n' && key[3] == 'e' {
        proof {
            assert(key@ =~= key_done());
        }
        3
    } else if key.len() == 7 && key[0] == 'c' && key[1] == 'o' && key[2] == 'n' && key[3] == 't'
        && key[4] == 'e' && key[5] == 'x' && key[6] == 't' {
        proof {
            assert(key@ =~= key_context());
        }
        4
    } else {
        proof {
            assert(key@ != key_model());
            assert(key@ != key_created_at());
            assert(key@ != key_response());
            assert(key@ != key_done());
            assert(key@ != key_context());
        }
        5
    }
}

fn parse_member_value_e(v: &Vec<char>, i: usize, p: PartialExec, key: &Vec<char>) -> (r: Option<
    (PartialExec, usize),
>)
    requires
        i <= v.len(),
    ensures
        match r {
            Some((p2, j)) => parse_member_value(v@, i as int, partial_view(&p), key@) == Some(
                (partial_view(&p2), j as int),
            ) && j <= v.len(),
            None => parse_member_value(v@, i as int, partial_view(&p), key@) is None,
        },
{
    let code = key_code_e(key);
    if code == 0 {
        if p.model.is_some() {
            None
        } else {
            match parse_string_e(v, i) {
                None => None,
                Some((val, j)) => Some(
                    (
                        PartialExec {
                            model: Some(val),
                            created_at: p.created_at,
                            response: p.response,
                            done: p.done,
                            context: p.context,
                        },
                        j,
                    ),
                ),
            }
        }
    } else if code == 1 {
        if p.created_at.is_some() {
            None
        } else {
            match parse_string_e(v, i) {
                None => None,
                Some((val, j)) => Some(
                    (
                        PartialExec {
                            model: p.model,
                            created_at: Some(val),
                            response: p.response,
                            done: p.done,
                            context: p.context,
                        },
                        j,
                    ),
                ),
            }
        }
    } else if code == 2 {
        if p.response.is_some() {
            None
        } else {
            match parse_string_e(v, i) {
                None => None,
                Some((val, j)) => Some(
                    (
                        PartialExec {
                            model: p.model,
                            created_at: p.created_at,
                            response: Some(val),
                            done: p.done,
                            context: p.context,
                        },
                        j,
                    ),
                ),
            }
        }
    } else if code == 3 {
        if p.done.is_some() {
            None
        } else {
            match parse_bool_e(v, i) {
                None => None,
                Some((b, j)) => Some(
                    (
                        PartialExec {
                            model: p.model,
                            created_at: p.created_at,
                            response: p.response,
                            done: Some(b),
                            context: p.context,
                        },
                        j,
                    ),
                ),
            }
        }
    } else if code == 4 {
        if p.context.is_some() {
            None
        } else {
            match parse_context_e(v, i) {
                None => None,
                Some((ctx, j)) => Some(
                    (
                        PartialExec {
                            model: p.model,
                            created_at: p.created_at,
                            response: p.response,
                            done: p.done,
                            context: Some(ctx),
                        },
                        j,
                    ),
                ),
            }
        }
    } else {
        match skip_value_e(v, i) {
            None => None,
            Some(j) => Some((p, j)),
        }
    }
}

fn parse_members_e(v: &Vec<char>, i: usize, p: PartialExec) -> (r: Option<(PartialExec, usize)>)
    requires
        i <= v.len(),
    ensures
        match r {
            Some((p2, j)) => parse_members(v@, i as int, partial_view(&p)) == Some(
                (partial_view(&p2), j as int),
            ) && j <= v.len(),
            None => parse_members(v@, i as int, partial_view(&p)) is None,
        },
    decreases v.len() - i,
{
    match parse_string_e(v, i) {
        None => None,
        Some((key, j)) => {
            let k = skip_ws_e(v, j);
            if !(k < v.len() && v[k] == ':') {
                None
            } else {
                let m = skip_ws_e(v, k + 1);
                match parse_member_value_e(v, m, p, &key) {
                    None => None,
                    Some((p2, n)) => {
                        let q = skip_ws_e(v, n);
                        if q < v.len() && v[q] == ',' {
                            let w = skip_ws_e(v, q + 1);
                            if i < w {
                                parse_members_e(v, w, p2)
                            } else {
                                None
                            }
                        } else if q < v.len() && v[q] == '}' {
                            Some((p2, q + 1))
                        } else {
                            None
                        }
                    },
                }
            }
        },
    }
}

fn finalize_e(p: PartialExec) -> (r: Option<OllamaResponse>)
    ensures
        match r {
            Some(rec) => finalize(partial_view(&p)) == Some(rec@),
            None => finalize(partial_view(&p)) is None,
        },
{
    match (p.model, p.created_at, p.response, p.done) {
        (Some(m), Some(ca), Some(resp), Some(d)) => {
            let ctx: Vec<i32> = match p.context {
                Some(c) => c,
                None => {
                    let empty: Vec<i32> = Vec::new();
                    assert(empty@ =~= Seq::<i32>::empty());
                    empty
                },
            };
            Some(
                OllamaResponse {
                    model: chars_to_string(&m),
                    created_at: chars_to_string(&ca),
                    response: chars_to_string(&resp),
                    done: d,
                    context: ctx,
                },
            )
        },
        _ => None,
    }
}

/// Decodes one whole line of characters as a record, per [`parse_record`].
pub fn parse_record_chars(v: &Vec<char>) -> (r: Option<OllamaResponse>)
    ensures
        match r {
            Some(rec) => parse_record(v@) == Some(rec@),
            None => parse_record(v@) is None,
        },
{
    let i = skip_ws_e(v, 0);
    if !(i < v.len() && v[i] == '{') {
        return None;
    }
    let j = skip_ws_e(v, i + 1);
    let body: Option<(PartialExec, usize)> = if j < v.len() && v[j] == '}' {
        Some(
            (
                PartialExec {
                    model: None,
                    created_at: None,
                    response: None,
                    done: None,
                    context: None,
                },
                j + 1,
            ),
        )
    } else {
        parse_members_e(
            v,
            j,
            PartialExec { model: None, created_at: None, response: None, done: None, context: None },
        )
    };
    match body {
        None => None,
        Some((p, k)) => {
            let e = skip_ws_e(v, k);
            if e == v.len() {
                finalize_e(p)
            } else {
                None
            }
        },
    }
}

/// Decodes one whole line of raw bytes as a record, per [`decode_line`]:
/// invalid UTF-8 or an ill-shaped line yields nothing.
pub fn decode_record_line(bytes: &Vec<u8>) -> (r: Option<OllamaResponse>)
    ensures
        match r {
            Some(rec) => decode_line(bytes@) == Some(rec@),
            None => decode_line(bytes@) is None,
        },
{
    match utf8_to_string(bytes) {
        None => None,
        Some(s) => {
            let chars = chars_vec(s.as_str());
            parse_record_chars(&chars)
        },
    }
}

} // verus!
