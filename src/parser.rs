use vstd::prelude::*;
use crate::text::{char_from_code, code_char, code_of, is_scalar, push_decimal, push_str, string_of};
use crate::value::{items_of, json_of, members_of, Json, JsonValue};

verus! {

/// JSON whitespace.
pub open spec fn is_ws(c: char) -> bool {
    c == ' ' || c == '\t' || c == '\n' || c == '\r'
}

/// The first position at or after `i` that is not whitespace.
pub open spec fn skip_ws(s: Seq<char>, i: int) -> int
    decreases s.len() - i,
{
    if 0 <= i < s.len() && is_ws(s[i]) {
        skip_ws(s, i + 1)
    } else {
        i
    }
}

pub open spec fn is_digit(c: char) -> bool {
    48 <= c as int <= 57
}

/// The value of a hexadecimal digit, or -1.
pub open spec fn hex_value(c: char) -> int {
    if 48 <= c as int <= 57 {
        c as int - 48
    } else if 97 <= c as int <= 102 {
        c as int - 87
    } else if 65 <= c as int <= 70 {
        c as int - 55
    } else {
        -1
    }
}

/// The value of the four hexadecimal digits at `i`, or -1.
pub open spec fn hex4(s: Seq<char>, i: int) -> int {
    if 0 <= i && i + 4 <= s.len() && hex_value(s[i]) >= 0 && hex_value(s[i + 1]) >= 0
        && hex_value(s[i + 2]) >= 0 && hex_value(s[i + 3]) >= 0 {
        hex_value(s[i]) * 4096 + hex_value(s[i + 1]) * 256 + hex_value(s[i + 2]) * 16
            + hex_value(s[i + 3])
    } else {
        -1
    }
}

/// The character that the escape sequence at `i` (a backslash) stands for,
/// and the position after it.
pub open spec fn escape_at(s: Seq<char>, i: int) -> Option<(char, int)> {
    if i < 0 || i + 1 >= s.len() {
        None
    } else {
        let e = s[i + 1];
        if e == '"' {
            Some(('"', i + 2))
        } else if e == '\\' {
            Some(('\\', i + 2))
        } else if e == '/' {
            Some(('/', i + 2))
        } else if e == 'b' {
            Some(('\u{8}', i + 2))
        } else if e == 'f' {
            Some(('\u{c}', i + 2))
        } else if e == 'n' {
            Some(('\n', i + 2))
        } else if e == 'r' {
            Some(('\r', i + 2))
        } else if e == 't' {
            Some(('\t', i + 2))
        } else if e == 'u' {
            let v = hex4(s, i + 2);
            if v < 0 {
                None
            } else if 0xD800 <= v < 0xDC00 {
                if s.len() >= 8 && i < s.len() - 7 && s[i + 6] == '\\' && s[i + 7] == 'u' {
                    let w = hex4(s, i + 8);
                    if 0xDC00 <= w < 0xE000 {
                        Some((code_char(0x10000 + (v - 0xD800) * 1024 + (w - 0xDC00)), i + 12))
                    } else {
                        None
                    }
                } else {
                    None
                }
            } else if 0xDC00 <= v < 0xE000 {
                None
            } else {
                Some((code_char(v), i + 6))
            }
        } else {
            None
        }
    }
}

/// Puts `a` in front of the content of a partial parse.
pub open spec fn prepend<A>(a: Seq<A>, r: Option<(Seq<A>, int)>) -> Option<(Seq<A>, int)> {
    match r {
        Some((t, k)) => Some((a + t, k)),
        None => None,
    }
}

/// The decoded content of a string literal whose opening quote is just
/// before `i`, and the position after its closing quote.
pub open spec fn parse_chars(s: Seq<char>, i: int) -> Option<(Seq<char>, int)>
    decreases s.len() - i,
{
    if i < 0 || i >= s.len() {
        None
    } else if s[i] == '"' {
        Some((Seq::empty(), i + 1))
    } else if s[i] == '\\' {
        match escape_at(s, i) {
            Some((c, j)) => if j > i {
                prepend(seq![c], parse_chars(s, j))
            } else {
                None
            },
            None => None,
        }
    } else if (s[i] as int) < 0x20 {
        None
    } else {
        prepend(seq![s[i]], parse_chars(s, i + 1))
    }
}

/// The first position at or after `i` whose character is not a digit.
pub open spec fn digits_end(t: Seq<char>, i: int) -> int
    decreases t.len() - i,
{
    if 0 <= i < t.len() && is_digit(t[i]) {
        digits_end(t, i + 1)
    } else {
        i
    }
}

/// Whether the exponent part that starts at `c` is well formed and ends `t`.
pub open spec fn exponent_ok(t: Seq<char>, c: int) -> bool {
    if c >= t.len() {
        c == t.len()
    } else if t[c] == 'e' || t[c] == 'E' {
        let d: int = if c + 1 < t.len() && (t[c + 1] == '+' || t[c + 1] == '-') {
            c + 2
        } else {
            c + 1
        };
        let e = digits_end(t, d);
        e > d && e == t.len()
    } else {
        false
    }
}

/// Whether `t` is a JSON number token: an optional minus, an integer part
/// without leading zeros, an optional fraction and an optional exponent.
pub open spec fn is_number_token(t: Seq<char>) -> bool {
    let a: int = if t.len() > 0 && t[0] == '-' {
        1
    } else {
        0
    };
    let b = digits_end(t, a);
    let c: int = if b < t.len() && t[b] == '.' {
        digits_end(t, b + 1)
    } else {
        b
    };
    &&& b > a
    &&& (t[a] != '0' || b == a + 1)
    &&& (c == b || c > b + 1)
    &&& exponent_ok(t, c)
}

/// A character that can stand in a number token.
pub open spec fn is_number_char(c: char) -> bool {
    is_digit(c) || c == '-' || c == '+' || c == '.' || c == 'e' || c == 'E'
}

/// The end of the run of number characters that starts at `i`.
pub open spec fn number_end(s: Seq<char>, i: int) -> int
    decreases s.len() - i,
{
    if 0 <= i < s.len() && is_number_char(s[i]) {
        number_end(s, i + 1)
    } else {
        i
    }
}

fn skip_whitespace(s: &Vec<char>, i: usize) -> (r: usize)
    requires
        i <= s.len(),
    ensures
        r == skip_ws(s@, i as int),
        i <= r <= s.len(),
{
    let mut j = i;
    while j < s.len() && (s[j] == ' ' || s[j] == '\t' || s[j] == '\n' || s[j] == '\r')
        invariant
            i <= j <= s.len(),
            skip_ws(s@, i as int) == skip_ws(s@, j as int),
        decreases s.len() - j,
    {
        j = j + 1;
    }
    j
}

fn is_digit_char(c: char) -> (r: bool)
    ensures
        r == is_digit(c),
{
    let x = c as u32;
    48 <= x && x <= 57
}

fn is_control(c: char) -> (r: bool)
    ensures
        r == ((c as int) < 0x20),
{
    let x = c as u32;
    x < 0x20
}

fn hex_val(c: char) -> (r: Option<u32>)
    ensures
        r is Some <==> hex_value(c) >= 0,
        r matches Some(v) ==> v as int == hex_value(c),
{
    let x = c as u32;
    if 48 <= x && x <= 57 {
        Some(x - 48)
    } else if 97 <= x && x <= 102 {
        Some(x - 87)
    } else if 65 <= x && x <= 70 {
        Some(x - 55)
    } else {
        None
    }
}

fn hex_quad(s: &Vec<char>, i: usize) -> (r: Option<u32>)
    requires
        i <= s.len(),
    ensures
        r is Some <==> hex4(s@, i as int) >= 0,
        r matches Some(v) ==> v as int == hex4(s@, i as int),
{
    if s.len() < 4 || i > s.len() - 4 {
        return None;
    }
    match (hex_val(s[i]), hex_val(s[i + 1]), hex_val(s[i + 2]), hex_val(s[i + 3])) {
        (Some(a), Some(b), Some(c), Some(d)) => Some(a * 4096 + b * 256 + c * 16 + d),
        _ => None,
    }
}

fn decode_code(v: u32) -> (r: Option<char>)
    ensures
        r is Some <==> is_scalar(v as int),
        r matches Some(c) ==> c == code_char(v as int),
{
    let r = char_from_code(v);
    if let Some(c) = r {
        assert(code_of(c) == v as int);
    }
    r
}

fn escape_char_at(s: &Vec<char>, i: usize) -> (r: Option<(char, usize)>)
    requires
        i < s.len(),
    ensures
        r matches Some((c, j)) ==> escape_at(s@, i as int) == Some((c, j as int)) && j <= s.len(),
        r is None ==> escape_at(s@, i as int) is None,
{
    if i + 1 >= s.len() {
        return None;
    }
    let e = s[i + 1];
    if e == '"' {
        Some(('"', i + 2))
    } else if e == '\\' {
        Some(('\\', i + 2))
    } else if e == '/' {
        Some(('/', i + 2))
    } else if e == 'b' {
        Some(('\u{8}', i + 2))
    } else if e == 'f' {
        Some(('\u{c}', i + 2))
    } else if e == 'n' {
        Some(('\n', i + 2))
    } else if e == 'r' {
        Some(('\r', i + 2))
    } else if e == 't' {
        Some(('\t', i + 2))
    } else if e == 'u' {
        match hex_quad(s, i + 2) {
            None => None,
            Some(v) => {
                if 0xD800 <= v && v < 0xDC00 {
                    if s.len() >= 8 && i < s.len() - 7 && s[i + 6] == '\\' && s[i + 7] == 'u' {
                        match hex_quad(s, i + 8) {
                            Some(w) => {
                                if 0xDC00 <= w && w < 0xE000 {
                                    match decode_code(0x10000 + (v - 0xD800) * 1024 + (w - 0xDC00)) {
                                        Some(c) => Some((c, i + 12)),
                                        None => None,
                                    }
                                } else {
                                    None
                                }
                            },
                            None => None,
                        }
                    } else {
                        None
                    }
                } else if 0xDC00 <= v && v < 0xE000 {
                    None
                } else {
                    match decode_code(v) {
                        Some(c) => Some((c, i + 6)),
                        None => None,
                    }
                }
            },
        }
    } else {
        None
    }
}

/// Decodes the string literal whose opening quote is just before `i`.
fn parse_string_body(s: &Vec<char>, i: usize) -> (r: Result<(Vec<char>, usize), usize>)
    requires
        i <= s.len(),
    ensures
        r matches Ok((t, k)) ==> parse_chars(s@, i as int) == Some((t@, k as int)) && i < k <= s.len(),
        r is Err ==> parse_chars(s@, i as int) is None,
{
    let mut acc: Vec<char> = Vec::new();
    let mut j = i;
    loop
        invariant
            i <= j <= s.len(),
            parse_chars(s@, i as int) == prepend(acc@, parse_chars(s@, j as int)),
        decreases s.len() - j,
    {
        if j >= s.len() {
            return Err(j);
        }
        let c = s[j];
        if c == '"' {
            assert(acc@ + Seq::<char>::empty() == acc@);
            return Ok((acc, j + 1));
        } else if c == '\\' {
            match escape_char_at(s, j) {
                Some((e, k)) => {
                    if k <= j {
                        return Err(j);
                    }
                    proof {
                        match parse_chars(s@, k as int) {
                            Some((t, m)) => assert(acc@ + (seq![e] + t) == acc@.push(e) + t),
                            None => {},
                        }
                    }
                    acc.push(e);
                    j = k;
                },
                None => {
                    return Err(j);
                },
            }
        } else if is_control(c) {
            return Err(j);
        } else {
            proof {
                match parse_chars(s@, j + 1) {
                    Some((t, m)) => assert(acc@ + (seq![c] + t) == acc@.push(c) + t),
                    None => {},
                }
            }
            acc.push(c);
            j = j + 1;
        }
    }
}

fn digits_end_exec(t: &Vec<char>, i: usize) -> (r: usize)
    requires
        i <= t.len(),
    ensures
        r == digits_end(t@, i as int),
        i <= r <= t.len(),
{
    let mut j = i;
    while j < t.len() && is_digit_char(t[j])
        invariant
            i <= j <= t.len(),
            digits_end(t@, i as int) == digits_end(t@, j as int),
        decreases t.len() - j,
    {
        j = j + 1;
    }
    j
}

/// Whether `t` is a JSON number token.
fn number_token_ok(t: &Vec<char>) -> (r: bool)
    ensures
        r == is_number_token(t@),
{
    let a: usize = if t.len() > 0 && t[0] == '-' { 1 } else { 0 };
    let b = digits_end_exec(t, a);
    if b <= a {
        return false;
    }
    if t[a] == '0' && b != a + 1 {
        return false;
    }
    let c: usize = if b < t.len() && t[b] == '.' { digits_end_exec(t, b + 1) } else { b };
    if !(c == b || c > b + 1) {
        return false;
    }
    if c >= t.len() {
        return true;
    }
    if t[c] == 'e' || t[c] == 'E' {
        let d: usize = if c + 1 < t.len() && (t[c + 1] == '+' || t[c + 1] == '-') {
            c + 2
        } else {
            c + 1
        };
        let e = digits_end_exec(t, d);
        e > d && e == t.len()
    } else {
        false
    }
}


/// The deepest nesting of arrays and objects that the parser accepts.
pub const MAX_DEPTH: usize = 128;

pub open spec fn true_at(s: Seq<char>, i: int) -> bool {
    0 <= i && i + 4 <= s.len() && s[i] == 't' && s[i + 1] == 'r' && s[i + 2] == 'u' && s[i + 3]
        == 'e'
}

pub open spec fn false_at(s: Seq<char>, i: int) -> bool {
    0 <= i && i + 5 <= s.len() && s[i] == 'f' && s[i + 1] == 'a' && s[i + 2] == 'l' && s[i + 3]
        == 's' && s[i + 4] == 'e'
}

pub open spec fn null_at(s: Seq<char>, i: int) -> bool {
    0 <= i && i + 4 <= s.len() && s[i] == 'n' && s[i + 1] == 'u' && s[i + 2] == 'l' && s[i + 3]
        == 'l'
}

/// The number token that starts at `i`, and the position after it.
pub open spec fn parse_number(s: Seq<char>, i: int) -> Option<(Json, int)> {
    let j = number_end(s, i);
    if 0 <= i <= j <= s.len() && is_number_token(s.subrange(i, j)) {
        Some((Json::Number(s.subrange(i, j)), j))
    } else {
        None
    }
}

/// The value that starts at `i` after optional whitespace, with at most `d`
/// levels of arrays and objects, and the position after it.
pub open spec fn parse_value(s: Seq<char>, i: int, d: nat) -> Option<(Json, int)>
    decreases d, s.len() - i, 0nat,
{
    let k = skip_ws(s, i);
    if i < 0 || k >= s.len() {
        None
    } else if s[k] == '[' {
        if d == 0 {
            None
        } else {
            let m = skip_ws(s, k + 1);
            if m < s.len() && s[m] == ']' {
                Some((Json::Array(Seq::empty()), m + 1))
            } else {
                match parse_items(s, k + 1, (d - 1) as nat) {
                    Some((a, e)) => Some((Json::Array(a), e)),
                    None => None,
                }
            }
        }
    } else if s[k] == '{' {
        if d == 0 {
            None
        } else {
            let m = skip_ws(s, k + 1);
            if m < s.len() && s[m] == '}' {
                Some((Json::Object(Seq::empty()), m + 1))
            } else {
                match parse_members(s, k + 1, (d - 1) as nat) {
                    Some((a, e)) => Some((Json::Object(a), e)),
                    None => None,
                }
            }
        }
    } else if s[k] == '"' {
        match parse_chars(s, k + 1) {
            Some((t, e)) => Some((Json::Str(t), e)),
            None => None,
        }
    } else if s[k] == 't' {
        if true_at(s, k) {
            Some((Json::Bool(true), k + 4))
        } else {
            None
        }
    } else if s[k] == 'f' {
        if false_at(s, k) {
            Some((Json::Bool(false), k + 5))
        } else {
            None
        }
    } else if s[k] == 'n' {
        if null_at(s, k) {
            Some((Json::Null, k + 4))
        } else {
            None
        }
    } else if s[k] == '-' || is_digit(s[k]) {
        parse_number(s, k)
    } else {
        None
    }
}

/// The elements of an array from `i` on, through its closing bracket.
pub open spec fn parse_items(s: Seq<char>, i: int, d: nat) -> Option<(Seq<Json>, int)>
    decreases d, s.len() - i, 1nat,
{
    match parse_value(s, i, d) {
        None => None,
        Some((v, j)) => {
            let k = skip_ws(s, j);
            if 0 <= k < s.len() && s[k] == ',' {
                if k + 1 > i {
                    prepend(seq![v], parse_items(s, k + 1, d))
                } else {
                    None
                }
            } else if 0 <= k < s.len() && s[k] == ']' {
                Some((seq![v], k + 1))
            } else {
                None
            }
        },
    }
}

/// The members of an object from `i` on, through its closing brace.
pub open spec fn parse_members(s: Seq<char>, i: int, d: nat) -> Option<(Seq<(Seq<char>, Json)>, int)>
    decreases d, s.len() - i, 1nat,
{
    let k = skip_ws(s, i);
    if 0 <= i <= k < s.len() && s[k] == '"' {
        match parse_chars(s, k + 1) {
            None => None,
            Some((key, j)) => {
                let c = skip_ws(s, j);
                if i <= c < s.len() && s[c] == ':' {
                    match parse_value(s, c + 1, d) {
                        None => None,
                        Some((v, e)) => {
                            let m = skip_ws(s, e);
                            if i <= m < s.len() && s[m] == ',' {
                                prepend(seq![(key, v)], parse_members(s, m + 1, d))
                            } else if i <= m < s.len() && s[m] == '}' {
                                Some((seq![(key, v)], m + 1))
                            } else {
                                None
                            }
                        },
                    }
                } else {
                    None
                }
            },
        }
    } else {
        None
    }
}

/// The value of a whole JSON text: one value, with only whitespace around it.
pub open spec fn parse_json(s: Seq<char>) -> Option<Json> {
    match parse_value(s, 0, MAX_DEPTH as nat) {
        Some((v, j)) => if skip_ws(s, j) == s.len() {
            Some(v)
        } else {
            None
        },
        None => None,
    }
}

/// Why a text could not be read as JSON, in words.
#[derive(Debug, PartialEq, Eq)]
pub struct ParseError {
    pub message: String,
}

pub proof fn lemma_items_push(a: Seq<JsonValue>, x: JsonValue)
    ensures
        items_of(a.push(x)) == items_of(a).push(json_of(x)),
    decreases a.len(),
{
    if a.len() == 0 {
        assert(a.push(x).drop_first() =~= Seq::<JsonValue>::empty());
        assert(items_of(a.push(x).drop_first()) == Seq::<Json>::empty());
        assert(items_of(a) == Seq::<Json>::empty());
        assert(a.push(x)[0] == x);
    } else {
        lemma_items_push(a.drop_first(), x);
        assert(a.push(x).drop_first() =~= a.drop_first().push(x));
        assert(a.push(x)[0] == a[0]);
        assert(items_of(a.push(x)) == seq![json_of(a[0])] + items_of(a.drop_first().push(x)));
        assert(items_of(a) == seq![json_of(a[0])] + items_of(a.drop_first()));
    }
    assert(items_of(a.push(x)) =~= items_of(a).push(json_of(x)));
}

pub proof fn lemma_members_push(a: Seq<(String, JsonValue)>, x: (String, JsonValue))
    ensures
        members_of(a.push(x)) == members_of(a).push((x.0@, json_of(x.1))),
    decreases a.len(),
{
    if a.len() == 0 {
        assert(a.push(x).drop_first() =~= Seq::<(String, JsonValue)>::empty());
        assert(members_of(a.push(x).drop_first()) == Seq::<(Seq<char>, Json)>::empty());
        assert(members_of(a) == Seq::<(Seq<char>, Json)>::empty());
        assert(a.push(x)[0] == x);
    } else {
        lemma_members_push(a.drop_first(), x);
        assert(a.push(x).drop_first() =~= a.drop_first().push(x));
        assert(a.push(x)[0] == a[0]);
        assert(members_of(a.push(x)) == seq![(a[0].0@, json_of(a[0].1))] + members_of(a.drop_first().push(x)));
        assert(members_of(a) == seq![(a[0].0@, json_of(a[0].1))] + members_of(a.drop_first()));
    }
    assert(members_of(a.push(x)) =~= members_of(a).push((x.0@, json_of(x.1))));
}

fn parse_number_at(s: &Vec<char>, i: usize) -> (r: Result<(JsonValue, usize), usize>)
    requires
        i <= s.len(),
    ensures
        r matches Ok((v, j)) ==> parse_number(s@, i as int) == Some((v@, j as int)) && i <= j <= s.len(),
        r is Err ==> parse_number(s@, i as int) is None,
{
    let mut t: Vec<char> = Vec::new();
    let mut j = i;
    while j < s.len() && (is_digit_char(s[j]) || s[j] == '-' || s[j] == '+' || s[j] == '.' || s[j]
        == 'e' || s[j] == 'E')
        invariant
            i <= j <= s.len(),
            number_end(s@, i as int) == number_end(s@, j as int),
            t@ == s@.subrange(i as int, j as int),
        decreases s.len() - j,
    {
        t.push(s[j]);
        j = j + 1;
        assert(t@ =~= s@.subrange(i as int, j as int));
    }
    if number_token_ok(&t) {
        Ok((JsonValue::Number(string_of(&t)), j))
    } else {
        Err(i)
    }
}

fn parse_value_at(s: &Vec<char>, i: usize, d: usize) -> (r: Result<(JsonValue, usize), usize>)
    requires
        i <= s.len(),
    ensures
        r matches Ok((v, j)) ==> parse_value(s@, i as int, d as nat) == Some((v@, j as int)) && i
            <= j <= s.len(),
        r is Err ==> parse_value(s@, i as int, d as nat) is None,
    decreases d, s.len() - i, 0nat,
{
    let k = skip_whitespace(s, i);
    if k >= s.len() {
        return Err(k);
    }
    let c = s[k];
    if c == '[' {
        if d == 0 {
            return Err(k);
        }
        let m = skip_whitespace(s, k + 1);
        if m < s.len() && s[m] == ']' {
            let empty: Vec<JsonValue> = Vec::new();
            assert(items_of(empty@) == Seq::<Json>::empty());
            Ok((JsonValue::Array(empty), m + 1))
        } else {
            match parse_items_at(s, k + 1, d - 1) {
                Ok((a, e)) => Ok((JsonValue::Array(a), e)),
                Err(p) => Err(p),
            }
        }
    } else if c == '{' {
        if d == 0 {
            return Err(k);
        }
        let m = skip_whitespace(s, k + 1);
        if m < s.len() && s[m] == '}' {
            let empty: Vec<(String, JsonValue)> = Vec::new();
            assert(members_of(empty@) == Seq::<(Seq<char>, Json)>::empty());
            Ok((JsonValue::Object(empty), m + 1))
        } else {
            match parse_members_at(s, k + 1, d - 1) {
                Ok((a, e)) => Ok((JsonValue::Object(a), e)),
                Err(p) => Err(p),
            }
        }
    } else if c == '"' {
        match parse_string_body(s, k + 1) {
            Ok((t, e)) => Ok((JsonValue::Str(string_of(&t)), e)),
            Err(p) => Err(p),
        }
    } else if c == 't' {
        if s.len() >= 4 && k <= s.len() - 4 && s[k + 1] == 'r' && s[k + 2] == 'u' && s[k + 3] == 'e' {
            Ok((JsonValue::Bool(true), k + 4))
        } else {
            Err(k)
        }
    } else if c == 'f' {
        if s.len() >= 5 && k <= s.len() - 5 && s[k + 1] == 'a' && s[k + 2] == 'l' && s[k + 3] == 's'
            && s[k + 4] == 'e' {
            Ok((JsonValue::Bool(false), k + 5))
        } else {
            Err(k)
        }
    } else if c == 'n' {
        if s.len() >= 4 && k <= s.len() - 4 && s[k + 1] == 'u' && s[k + 2] == 'l' && s[k + 3] == 'l' {
            Ok((JsonValue::Null, k + 4))
        } else {
            Err(k)
        }
    } else if c == '-' || is_digit_char(c) {
        parse_number_at(s, k)
    } else {
        Err(k)
    }
}

fn parse_items_at(s: &Vec<char>, i: usize, d: usize) -> (r: Result<(Vec<JsonValue>, usize), usize>)
    requires
        i <= s.len(),
    ensures
        r matches Ok((a, j)) ==> parse_items(s@, i as int, d as nat) == Some((items_of(a@), j as int))
            && i <= j <= s.len(),
        r is Err ==> parse_items(s@, i as int, d as nat) is None,
    decreases d, s.len() - i, 1nat,
{
    let mut acc: Vec<JsonValue> = Vec::new();
    let mut j = i;
    assert(items_of(acc@) == Seq::<Json>::empty());
    assert(parse_items(s@, i as int, d as nat) == prepend(items_of(acc@), parse_items(s@, j as int, d as nat))) by {
        match parse_items(s@, i as int, d as nat) {
            Some((t, k)) => assert(Seq::<Json>::empty() + t == t),
            None => {},
        }
    }
    loop
        invariant
            i <= j <= s.len(),
            parse_items(s@, i as int, d as nat) == prepend(items_of(acc@), parse_items(s@, j as int, d as nat)),
        decreases s.len() - j,
    {
        match parse_value_at(s, j, d) {
            Err(p) => {
                return Err(p);
            },
            Ok((v, q)) => {
                let k = skip_whitespace(s, q);
                if k < s.len() && s[k] == ',' {
                    if k + 1 <= j {
                        return Err(k);
                    }
                    proof {
                        lemma_items_push(acc@, v);
                        match parse_items(s@, k + 1, d as nat) {
                            Some((t, m)) => assert(items_of(acc@) + (seq![v@] + t) == items_of(acc@).push(v@) + t),
                            None => {},
                        }
                    }
                    acc.push(v);
                    j = k + 1;
                } else if k < s.len() && s[k] == ']' {
                    proof {
                        lemma_items_push(acc@, v);
                        assert(items_of(acc@) + seq![v@] == items_of(acc@).push(v@));
                    }
                    acc.push(v);
                    return Ok((acc, k + 1));
                } else {
                    return Err(k);
                }
            },
        }
    }
}

fn parse_members_at(s: &Vec<char>, i: usize, d: usize) -> (r: Result<(Vec<(String, JsonValue)>, usize), usize>)
    requires
        i <= s.len(),
    ensures
        r matches Ok((a, j)) ==> parse_members(s@, i as int, d as nat) == Some((members_of(a@), j as int))
            && i <= j <= s.len(),
        r is Err ==> parse_members(s@, i as int, d as nat) is None,
    decreases d, s.len() - i, 1nat,
{
    let mut acc: Vec<(String, JsonValue)> = Vec::new();
    let mut j = i;
    assert(members_of(acc@) == Seq::<(Seq<char>, Json)>::empty());
    assert(parse_members(s@, i as int, d as nat) == prepend(members_of(acc@), parse_members(s@, j as int, d as nat))) by {
        match parse_members(s@, i as int, d as nat) {
            Some((t, k)) => assert(Seq::<(Seq<char>, Json)>::empty() + t == t),
            None => {},
        }
    }
    loop
        invariant
            i <= j <= s.len(),
            parse_members(s@, i as int, d as nat) == prepend(members_of(acc@), parse_members(s@, j as int, d as nat)),
        decreases s.len() - j,
    {
        let k = skip_whitespace(s, j);
        if k >= s.len() || s[k] != '"' {
            return Err(k);
        }
        let (key, q) = match parse_string_body(s, k + 1) {
            Ok(x) => x,
            Err(p) => {
                return Err(p);
            },
        };
        let c = skip_whitespace(s, q);
        if c >= s.len() || s[c] != ':' {
            return Err(c);
        }
        match parse_value_at(s, c + 1, d) {
            Err(p) => {
                return Err(p);
            },
            Ok((v, e)) => {
                let m = skip_whitespace(s, e);
                let key_str = string_of(&key);
                if m < s.len() && s[m] == ',' {
                    proof {
                        lemma_members_push(acc@, (key_str, v));
                        match parse_members(s@, m + 1, d as nat) {
                            Some((t, z)) => assert(members_of(acc@) + (seq![(key@, v@)] + t) == members_of(acc@).push((key@, v@)) + t),
                            None => {},
                        }
                    }
                    acc.push((key_str, v));
                    j = m + 1;
                } else if m < s.len() && s[m] == '}' {
                    proof {
                        lemma_members_push(acc@, (key_str, v));
                        assert(members_of(acc@) + seq![(key@, v@)] == members_of(acc@).push((key@, v@)));
                    }
                    acc.push((key_str, v));
                    return Ok((acc, m + 1));
                } else {
                    return Err(m);
                }
            },
        }
    }
}

/// Parses a whole JSON text into a value. Object members keep their order and
/// their duplicates; a number keeps its token.
pub fn parse(text: &str) -> (r: Result<JsonValue, ParseError>)
    ensures
        r is Ok <==> parse_json(text@) is Some,
        r matches Ok(v) ==> parse_json(text@) == Some(v@),
{
    let s = crate::text::chars_of(text);
    match parse_value_at(&s, 0, MAX_DEPTH) {
        Ok((v, j)) => {
            let k = skip_whitespace(&s, j);
            if k == s.len() {
                Ok(v)
            } else {
                Err(error_at(&s, k))
            }
        },
        Err(p) => Err(error_at(&s, p)),
    }
}

fn error_at(s: &Vec<char>, p: usize) -> (e: ParseError) {
    let mut m: Vec<char> = Vec::new();
    if p >= s.len() {
        push_str(&mut m, "unexpected end of input");
    } else {
        push_str(&mut m, "unexpected character '");
        m.push(s[p]);
        push_str(&mut m, "' at position ");
        push_decimal(&mut m, p);
    }
    ParseError { message: string_of(&m) }
}

} // verus!
