use vstd::prelude::*;
use crate::escape::{escape_char, escape_chars, hex_digit, quoted};
use crate::parser::{
    digits_end, escape_at, hex4, hex_value, is_digit, is_number_char, is_number_token, is_ws,
    number_end, parse_chars, parse_items, parse_json, parse_members, parse_value, prepend, skip_ws,
    MAX_DEPTH,
};
use crate::serialize::{
    compact, compact_items, compact_members, indent, join, pretty, pretty_items, pretty_members,
    scalar_text,
};
use crate::text::{code_char, code_of};
use crate::value::Json;

verus! {

/// Whether `v` is a value that the parser can give with at most `d` levels
/// of arrays and objects: every number is a number token.
pub open spec fn valid_json(v: Json, d: nat) -> bool
    decreases v,
{
    match v {
        Json::Number(t) => is_number_token(t),
        Json::Array(a) => d > 0 && items_valid(a, (d - 1) as nat),
        Json::Object(m) => d > 0 && members_valid(m, (d - 1) as nat),
        _ => true,
    }
}

pub open spec fn items_valid(a: Seq<Json>, d: nat) -> bool
    decreases a,
{
    a.len() == 0 || (valid_json(a[0], d) && items_valid(a.drop_first(), d))
}

pub open spec fn members_valid(m: Seq<(Seq<char>, Json)>, d: nat) -> bool
    decreases m,
{
    m.len() == 0 || (valid_json(m[0].1, d) && members_valid(m.drop_first(), d))
}

/// `x + y` standing at `p` in `s` means `x` stands at `p` and `y` after it.
proof fn lemma_split(s: Seq<char>, p: int, x: Seq<char>, y: Seq<char>)
    requires
        0 <= p,
        p + x.len() + y.len() <= s.len(),
        s.subrange(p, p + x.len() + y.len()) == x + y,
    ensures
        s.subrange(p, p + x.len()) == x,
        s.subrange(p + x.len(), p + x.len() + y.len()) == y,
{
    assert(s.subrange(p, p + x.len()) =~= (x + y).subrange(0, x.len() as int));
    assert(s.subrange(p + x.len(), p + x.len() + y.len()) =~= (x + y).subrange(
        x.len() as int,
        (x.len() + y.len()) as int,
    ));
}

proof fn lemma_at(s: Seq<char>, p: int, x: Seq<char>, k: int)
    requires
        0 <= p,
        p + x.len() <= s.len(),
        s.subrange(p, p + x.len()) == x,
        0 <= k < x.len(),
    ensures
        s[p + k] == x[k],
{
    assert(s.subrange(p, p + x.len())[k] == s[p + k]);
}

proof fn lemma_skip_ws_run(s: Seq<char>, i: int, j: int)
    requires
        0 <= i <= j <= s.len(),
        forall|k: int| i <= k < j ==> is_ws(#[trigger] s[k]),
        j == s.len() || !is_ws(s[j]),
    ensures
        skip_ws(s, i) == j,
    decreases j - i,
{
    if i < j {
        lemma_skip_ws_run(s, i + 1, j);
    }
}

proof fn lemma_number_end_run(s: Seq<char>, i: int, j: int)
    requires
        0 <= i <= j <= s.len(),
        forall|k: int| i <= k < j ==> is_number_char(#[trigger] s[k]),
        j == s.len() || !is_number_char(s[j]),
    ensures
        number_end(s, i) == j,
    decreases j - i,
{
    if i < j {
        lemma_number_end_run(s, i + 1, j);
    }
}

proof fn lemma_digits_end(t: Seq<char>, i: int)
    requires
        0 <= i,
    ensures
        i <= digits_end(t, i),
        i <= t.len() ==> digits_end(t, i) <= t.len(),
        forall|k: int| i <= k < digits_end(t, i) ==> is_digit(#[trigger] t[k]),
    decreases t.len() - i,
{
    if 0 <= i < t.len() && is_digit(t[i]) {
        lemma_digits_end(t, i + 1);
    }
}

/// A number token is made of number characters and starts with a minus or
/// a digit.
proof fn lemma_number_token_chars(t: Seq<char>)
    requires
        is_number_token(t),
    ensures
        t.len() > 0,
        t[0] == '-' || is_digit(t[0]),
        forall|k: int| 0 <= k < t.len() ==> is_number_char(#[trigger] t[k]),
{
    let a: int = if t.len() > 0 && t[0] == '-' {
        1
    } else {
        0
    };
    lemma_digits_end(t, a);
    let b = digits_end(t, a);
    if b < t.len() && t[b] == '.' {
        lemma_digits_end(t, b + 1);
    }
    let c: int = if b < t.len() && t[b] == '.' {
        digits_end(t, b + 1)
    } else {
        b
    };
    if c < t.len() {
        let d: int = if c + 1 < t.len() && (t[c + 1] == '+' || t[c + 1] == '-') {
            c + 2
        } else {
            c + 1
        };
        lemma_digits_end(t, d);
    }
    assert forall|k: int| 0 <= k < t.len() implies is_number_char(#[trigger] t[k]) by {
        if k < a {
        } else if k < b {
        } else if k < c {
            if k == b {
            }
        } else {
        }
    }
}


proof fn lemma_hex_digit(n: int)
    requires
        0 <= n < 16,
    ensures
        hex_value(hex_digit(n)) == n,
{
    let h = seq!['0', '1', '2', '3', '4', '5', '6', '7', '8', '9', 'a', 'b', 'c', 'd', 'e', 'f'];
    assert(hex_digit(n) == h[n]);
    if n == 0 {
    } else if n == 1 {
    } else if n == 2 {
    } else if n == 3 {
    } else if n == 4 {
    } else if n == 5 {
    } else if n == 6 {
    } else if n == 7 {
    } else if n == 8 {
    } else if n == 9 {
    } else if n == 10 {
    } else if n == 11 {
    } else if n == 12 {
    } else if n == 13 {
    } else if n == 14 {
    } else {
    }
}

proof fn lemma_code_char(c: char)
    ensures
        code_char(c as int) == c,
{
    assert(code_of(c) == c as int);
    assert(code_of(code_char(c as int)) == c as int);
}

/// Where the escaped form of `c` stands, the string decoder reads `c` back.
proof fn lemma_escape_char_reads(c: char, s: Seq<char>, p: int)
    requires
        0 <= p,
        p + escape_char(c).len() <= s.len(),
        s.subrange(p, p + escape_char(c).len()) == escape_char(c),
    ensures
        escape_char(c).len() >= 1,
        escape_char(c).len() == 1 ==> s[p] == c && c != '"' && c != '\\' && !((c as int) < 0x20),
        escape_char(c).len() > 1 ==> s[p] == '\\' && escape_at(s, p) == Some(
            (c, p + escape_char(c).len()),
        ),
{
    let e = escape_char(c);
    assert forall|k: int| 0 <= k < e.len() implies s[p + k] == #[trigger] e[k] by {
        lemma_at(s, p, e, k);
    }
    if c == '"' || c == '\\' || c == '\u{8}' || c == '\t' || c == '\n' || c == '\u{c}' || c
        == '\r' {
        assert(e.len() == 2);
    } else if (c as int) < 0x20 {
        let v = c as int;
        lemma_hex_digit(v / 16);
        lemma_hex_digit(v % 16);
        assert(s[p + 2] == '0' && s[p + 3] == '0');
        assert(hex4(s, p + 2) == v);
        lemma_code_char(c);
        assert(e.len() == 6);
    } else {
        assert(e == seq![c]);
        assert(e.len() == 1);
        assert(s[p + 0] == e[0]);
    }
}

/// The decoder reads the escaped body of `t` and its closing quote back as `t`.
proof fn lemma_escaped_reads(t: Seq<char>, s: Seq<char>, p: int)
    requires
        0 <= p,
        p + escape_chars(t).len() + 1 <= s.len(),
        s.subrange(p, p + escape_chars(t).len() + 1) == escape_chars(t) + seq!['"'],
    ensures
        parse_chars(s, p) == Some((t, p + escape_chars(t).len() + 1)),
    decreases t.len(),
{
    if t.len() == 0 {
        lemma_at(s, p, escape_chars(t) + seq!['"'], 0);
    } else {
        let e0 = escape_char(t[0]);
        let rest = escape_chars(t.drop_first());
        assert(escape_chars(t) == e0 + rest);
        assert(escape_chars(t) + seq!['"'] =~= e0 + (rest + seq!['"']));
        lemma_split(s, p, e0, rest + seq!['"']);
        lemma_escape_char_reads(t[0], s, p);
        lemma_escaped_reads(t.drop_first(), s, p + e0.len());
        assert(seq![t[0]] + t.drop_first() =~= t);
    }
}

/// The decoder reads a quoted literal back as its content.
proof fn lemma_quoted_reads(t: Seq<char>, s: Seq<char>, p: int)
    requires
        0 <= p,
        p + quoted(t).len() <= s.len(),
        s.subrange(p, p + quoted(t).len()) == quoted(t),
    ensures
        s[p] == '"',
        parse_chars(s, p + 1) == Some((t, p + quoted(t).len())),
{
    assert(quoted(t) =~= seq!['"'] + (escape_chars(t) + seq!['"']));
    lemma_split(s, p, seq!['"'], escape_chars(t) + seq!['"']);
    lemma_at(s, p, seq!['"'], 0);
    lemma_escaped_reads(t, s, p + 1);
}


/// A character that can start a value.
pub open spec fn starts_value(c: char) -> bool {
    c == 'n' || c == 't' || c == 'f' || c == '"' || c == '[' || c == '{' || c == '-' || is_digit(c)
}

proof fn lemma_scalar_first(v: Json, d: nat)
    requires
        valid_json(v, d),
        !(v is Array),
        !(v is Object),
    ensures
        scalar_text(v).len() > 0,
        starts_value(scalar_text(v)[0]),
{
    reveal_strlit("null");
    reveal_strlit("true");
    reveal_strlit("false");
    match v {
        Json::Number(t) => lemma_number_token_chars(t),
        Json::Str(t) => assert(quoted(t)[0] == '"'),
        _ => {},
    }
}

proof fn lemma_compact_first(v: Json, d: nat)
    requires
        valid_json(v, d),
    ensures
        compact(v).len() > 0,
        starts_value(compact(v)[0]),
{
    match v {
        Json::Array(a) => assert(compact(v)[0] == '['),
        Json::Object(m) => assert(compact(v)[0] == '{'),
        _ => lemma_scalar_first(v, d),
    }
}

/// Where the text of a scalar stands, followed by a character that cannot
/// continue a number, the parser reads the scalar back.
proof fn lemma_scalar_reads(v: Json, d: nat, s: Seq<char>, i: int)
    requires
        valid_json(v, d),
        !(v is Array),
        !(v is Object),
        0 <= i,
        i + scalar_text(v).len() <= s.len(),
        s.subrange(i, i + scalar_text(v).len()) == scalar_text(v),
        i + scalar_text(v).len() == s.len() || !is_number_char(s[i + scalar_text(v).len()]),
    ensures
        parse_value(s, i, d) == Some((v, i + scalar_text(v).len())),
{
    let x = scalar_text(v);
    let l = x.len() as int;
    lemma_scalar_first(v, d);
    assert forall|k: int| 0 <= k < l implies s[i + k] == #[trigger] x[k] by {
        lemma_at(s, i, x, k);
    }
    assert(s[i + 0] == x[0]);
    assert(skip_ws(s, i) == i);
    reveal_strlit("null");
    reveal_strlit("true");
    reveal_strlit("false");
    match v {
        Json::Null => {
            assert(s[i + 1] == x[1] && s[i + 2] == x[2] && s[i + 3] == x[3]);
        },
        Json::Bool(b) => {
            assert(s[i + 1] == x[1] && s[i + 2] == x[2] && s[i + 3] == x[3]);
            if !b {
                assert(s[i + 4] == x[4]);
            }
        },
        Json::Number(t) => {
            lemma_number_token_chars(t);
            assert forall|k: int| i <= k < i + l implies is_number_char(#[trigger] s[k]) by {
                assert(s[i + (k - i)] == x[k - i]);
            }
            lemma_number_end_run(s, i, i + l);
        },
        Json::Str(t) => {
            lemma_quoted_reads(t, s, i);
        },
        _ => {},
    }
}

proof fn lemma_compact_reads(v: Json, d: nat, s: Seq<char>, i: int)
    requires
        valid_json(v, d),
        0 <= i,
        i + compact(v).len() <= s.len(),
        s.subrange(i, i + compact(v).len()) == compact(v),
        i + compact(v).len() == s.len() || !is_number_char(s[i + compact(v).len()]),
    ensures
        parse_value(s, i, d) == Some((v, i + compact(v).len())),
    decreases v,
{
    match v {
        Json::Array(a) => {
            let j = join(compact_items(a), seq![',']);
            assert(compact(v) =~= seq!['['] + (j + seq![']']));
            lemma_split(s, i, seq!['['], j + seq![']']);
            lemma_at(s, i, seq!['['], 0);
            assert(skip_ws(s, i) == i);
            if a.len() == 0 {
                assert(compact_items(a) =~= Seq::<Seq<char>>::empty());
                lemma_at(s, i + 1, j + seq![']'], 0);
                assert(skip_ws(s, i + 1) == i + 1);
                assert(a =~= Seq::<Json>::empty());
            } else {
                lemma_compact_items_reads(a, (d - 1) as nat, s, i + 1);
                assert(skip_ws(s, i + 1) == i + 1);
            }
        },
        Json::Object(m) => {
            let j = join(compact_members(m), seq![',']);
            assert(compact(v) =~= seq!['{'] + (j + seq!['}']));
            lemma_split(s, i, seq!['{'], j + seq!['}']);
            lemma_at(s, i, seq!['{'], 0);
            assert(skip_ws(s, i) == i);
            if m.len() == 0 {
                assert(compact_members(m) =~= Seq::<Seq<char>>::empty());
                lemma_at(s, i + 1, j + seq!['}'], 0);
                assert(skip_ws(s, i + 1) == i + 1);
                assert(m =~= Seq::<(Seq<char>, Json)>::empty());
            } else {
                lemma_compact_members_reads(m, (d - 1) as nat, s, i + 1);
                assert(skip_ws(s, i + 1) == i + 1);
            }
        },
        _ => lemma_scalar_reads(v, d, s, i),
    }
}

proof fn lemma_compact_items_reads(a: Seq<Json>, d: nat, s: Seq<char>, p: int)
    requires
        a.len() > 0,
        items_valid(a, d),
        0 <= p,
        p + join(compact_items(a), seq![',']).len() + 1 <= s.len(),
        s.subrange(p, p + join(compact_items(a), seq![',']).len() + 1) == join(
            compact_items(a),
            seq![','],
        ) + seq![']'],
    ensures
        parse_items(s, p, d) == Some((a, p + join(compact_items(a), seq![',']).len() + 1)),
        s[p] == compact(a[0])[0],
        starts_value(s[p]),
    decreases a,
{
    let c0 = compact(a[0]);
    let q = p + c0.len();
    assert(compact_items(a) == seq![c0] + compact_items(a.drop_first()));
    lemma_compact_first(a[0], d);
    if a.len() == 1 {
        assert(compact_items(a.drop_first()) =~= Seq::<Seq<char>>::empty());
        assert(compact_items(a) =~= seq![c0]);
        assert(join(compact_items(a), seq![',']) == c0);
        lemma_split(s, p, c0, seq![']']);
        lemma_at(s, q, seq![']'], 0);
        lemma_compact_reads(a[0], d, s, p);
        assert(skip_ws(s, q) == q);
        assert(seq![a[0]] =~= a);
    } else {
        let rest = join(compact_items(a.drop_first()), seq![',']);
        assert(compact_items(a).drop_first() =~= compact_items(a.drop_first()));
        assert(join(compact_items(a), seq![',']) == c0 + seq![','] + rest);
        assert(join(compact_items(a), seq![',']) + seq![']'] =~= c0 + (seq![','] + (rest + seq![']'])));
        lemma_split(s, p, c0, seq![','] + (rest + seq![']']));
        lemma_split(s, q, seq![','], rest + seq![']']);
        lemma_at(s, q, seq![','], 0);
        lemma_compact_reads(a[0], d, s, p);
        assert(skip_ws(s, q) == q);
        lemma_compact_items_reads(a.drop_first(), d, s, q + 1);
        assert(seq![a[0]] + a.drop_first() =~= a);
    }
    lemma_at(s, p, c0, 0);
}

proof fn lemma_compact_members_reads(m: Seq<(Seq<char>, Json)>, d: nat, s: Seq<char>, p: int)
    requires
        m.len() > 0,
        members_valid(m, d),
        0 <= p,
        p + join(compact_members(m), seq![',']).len() + 1 <= s.len(),
        s.subrange(p, p + join(compact_members(m), seq![',']).len() + 1) == join(
            compact_members(m),
            seq![','],
        ) + seq!['}'],
    ensures
        parse_members(s, p, d) == Some((m, p + join(compact_members(m), seq![',']).len() + 1)),
        s[p] == '"',
    decreases m,
{
    let key = quoted(m[0].0);
    let c0 = compact(m[0].1);
    let part = key + seq![':'] + c0;
    let q = p + part.len();
    assert(compact_members(m) == seq![part] + compact_members(m.drop_first()));
    lemma_compact_first(m[0].1, d);
    let tail: Seq<char> = if m.len() == 1 {
        seq!['}']
    } else {
        seq![','] + (join(compact_members(m.drop_first()), seq![',']) + seq!['}'])
    };
    if m.len() == 1 {
        assert(compact_members(m.drop_first()) =~= Seq::<Seq<char>>::empty());
        assert(compact_members(m) =~= seq![part]);
        assert(join(compact_members(m), seq![',']) == part);
    } else {
        assert(compact_members(m).drop_first() =~= compact_members(m.drop_first()));
        assert(join(compact_members(m), seq![',']) == part + seq![','] + join(
            compact_members(m.drop_first()),
            seq![','],
        ));
    }
    assert(join(compact_members(m), seq![',']) + seq!['}'] =~= key + (seq![':'] + (c0 + tail)));
    lemma_split(s, p, key, seq![':'] + (c0 + tail));
    lemma_split(s, p + key.len(), seq![':'], c0 + tail);
    lemma_split(s, p + key.len() + 1, c0, tail);
    lemma_quoted_reads(m[0].0, s, p);
    assert(skip_ws(s, p) == p);
    lemma_at(s, p + key.len(), seq![':'], 0);
    assert(skip_ws(s, p + key.len()) == p + key.len());
    lemma_at(s, q, tail, 0);
    lemma_compact_reads(m[0].1, d, s, p + key.len() + 1);
    assert(skip_ws(s, q) == q);
    if m.len() == 1 {
        assert(seq![(m[0].0, m[0].1)] =~= m);
    } else {
        lemma_split(s, q, seq![','], join(compact_members(m.drop_first()), seq![',']) + seq!['}']);
        lemma_compact_members_reads(m.drop_first(), d, s, q + 1);
        assert(seq![(m[0].0, m[0].1)] + m.drop_first() =~= m);
    }
}

/// Writing a valid value compactly and parsing the text gives the value back.
pub proof fn law_compact_round_trip(v: Json)
    requires
        valid_json(v, MAX_DEPTH as nat),
    ensures
        parse_json(compact(v)) == Some(v),
{
    let s = compact(v);
    assert(s.subrange(0, s.len() as int) =~= s);
    lemma_compact_reads(v, MAX_DEPTH as nat, s, 0);
}


proof fn lemma_pretty_first(v: Json, d: nat, n: nat)
    requires
        valid_json(v, d),
    ensures
        pretty(v, n).len() > 0,
        starts_value(pretty(v, n)[0]),
{
    reveal_strlit("[]");
    reveal_strlit("{}");
    match v {
        Json::Array(a) => assert(pretty(v, n)[0] == '['),
        Json::Object(m) => assert(pretty(v, n)[0] == '{'),
        _ => lemma_scalar_first(v, d),
    }
}

/// The parser skips leading whitespace before a value.
proof fn lemma_value_after_ws(s: Seq<char>, o: int, i: int, d: nat)
    requires
        0 <= o <= i,
        skip_ws(s, o) == i,
        skip_ws(s, i) == i,
    ensures
        parse_value(s, o, d) == parse_value(s, i, d),
{
}

/// A run of whitespace `w` at `p`, followed by a character that is not
/// whitespace, is skipped whole.
proof fn lemma_ws_block(s: Seq<char>, p: int, w: Seq<char>)
    requires
        0 <= p,
        p + w.len() < s.len(),
        s.subrange(p, p + w.len()) == w,
        forall|k: int| 0 <= k < w.len() ==> is_ws(#[trigger] w[k]),
        !is_ws(s[p + w.len()]),
    ensures
        skip_ws(s, p) == p + w.len(),
{
    assert forall|k: int| p <= k < p + w.len() implies is_ws(#[trigger] s[k]) by {
        lemma_at(s, p, w, k - p);
    }
    lemma_skip_ws_run(s, p, p + w.len());
}

proof fn lemma_newline_indent_ws(n: nat)
    ensures
        forall|k: int| 0 <= k < (seq!['\n'] + indent(n)).len() ==> is_ws(#[trigger] (seq!['\n'] + indent(n))[k]),
        (seq!['\n'] + indent(n)).len() == 1 + 2 * n,
{
    assert forall|k: int| 0 <= k < (seq!['\n'] + indent(n)).len() implies is_ws(#[trigger] (seq!['\n'] + indent(n))[k]) by {
        if k > 0 {
            assert((seq!['\n'] + indent(n))[k] == indent(n)[k - 1]);
        }
    }
}

proof fn lemma_pretty_reads(v: Json, d: nat, n: nat, s: Seq<char>, i: int)
    requires
        valid_json(v, d),
        0 <= i,
        i + pretty(v, n).len() <= s.len(),
        s.subrange(i, i + pretty(v, n).len()) == pretty(v, n),
        i + pretty(v, n).len() == s.len() || !is_number_char(s[i + pretty(v, n).len()]),
    ensures
        parse_value(s, i, d) == Some((v, i + pretty(v, n).len())),
    decreases v, 0nat,
{
    reveal_strlit("[]");
    reveal_strlit("{}");
    match v {
        Json::Array(a) => {
            if a.len() == 0 {
                lemma_at(s, i, pretty(v, n), 0);
                lemma_at(s, i, pretty(v, n), 1);
                assert(skip_ws(s, i) == i);
                assert(skip_ws(s, i + 1) == i + 1);
                assert(a =~= Seq::<Json>::empty());
            } else {
                let j = join(pretty_items(a, n + 1), seq![',']);
                let w = seq!['\n'] + indent(n);
                lemma_newline_indent_ws(n);
                assert(pretty(v, n) =~= seq!['['] + (j + w + seq![']']));
                lemma_split(s, i, seq!['['], j + w + seq![']']);
                lemma_at(s, i, seq!['['], 0);
                assert(skip_ws(s, i) == i);
                lemma_pretty_items_reads(a, (d - 1) as nat, n + 1, s, i + 1, w);
            }
        },
        Json::Object(m) => {
            if m.len() == 0 {
                lemma_at(s, i, pretty(v, n), 0);
                lemma_at(s, i, pretty(v, n), 1);
                assert(skip_ws(s, i) == i);
                assert(skip_ws(s, i + 1) == i + 1);
                assert(m =~= Seq::<(Seq<char>, Json)>::empty());
            } else {
                let j = join(pretty_members(m, n + 1), seq![',']);
                let w = seq!['\n'] + indent(n);
                lemma_newline_indent_ws(n);
                assert(pretty(v, n) =~= seq!['{'] + (j + w + seq!['}']));
                lemma_split(s, i, seq!['{'], j + w + seq!['}']);
                lemma_at(s, i, seq!['{'], 0);
                assert(skip_ws(s, i) == i);
                lemma_pretty_members_reads(m, (d - 1) as nat, n + 1, s, i + 1, w);
            }
        },
        _ => lemma_scalar_reads(v, d, s, i),
    }
}

proof fn lemma_pretty_items_reads(a: Seq<Json>, d: nat, n: nat, s: Seq<char>, p: int, w: Seq<char>)
    requires
        a.len() > 0,
        items_valid(a, d),
        0 <= p,
        forall|k: int| 0 <= k < w.len() ==> is_ws(#[trigger] w[k]),
        p + join(pretty_items(a, n), seq![',']).len() + w.len() + 1 <= s.len(),
        s.subrange(p, p + join(pretty_items(a, n), seq![',']).len() + w.len() + 1) == join(
            pretty_items(a, n),
            seq![','],
        ) + w + seq![']'],
    ensures
        parse_items(s, p, d) == Some((a, p + join(pretty_items(a, n), seq![',']).len() + w.len() + 1)),
        skip_ws(s, p) == p + 1 + 2 * n,
        p + 1 + 2 * n < s.len(),
        starts_value(s[p + 1 + 2 * n]),
    decreases a, 0nat,
{
    let lead = seq!['\n'] + indent(n);
    let pr0 = pretty(a[0], n);
    let part = lead + pr0;
    let q = p + part.len();
    lemma_newline_indent_ws(n);
    lemma_pretty_first(a[0], d, n);
    assert(pretty_items(a, n) == seq![part] + pretty_items(a.drop_first(), n));
    let tail: Seq<char> = if a.len() == 1 {
        w + seq![']']
    } else {
        seq![','] + (join(pretty_items(a.drop_first(), n), seq![',']) + w + seq![']'])
    };
    if a.len() == 1 {
        assert(pretty_items(a.drop_first(), n) =~= Seq::<Seq<char>>::empty());
        assert(pretty_items(a, n) =~= seq![part]);
        assert(join(pretty_items(a, n), seq![',']) == part);
    } else {
        assert(pretty_items(a, n).drop_first() =~= pretty_items(a.drop_first(), n));
        assert(join(pretty_items(a, n), seq![',']) == part + seq![','] + join(
            pretty_items(a.drop_first(), n),
            seq![','],
        ));
    }
    assert(join(pretty_items(a, n), seq![',']) + w + seq![']'] =~= lead + (pr0 + tail));
    lemma_split(s, p, lead, pr0 + tail);
    lemma_split(s, p + lead.len(), pr0, tail);
    lemma_at(s, p + lead.len(), pr0, 0);
    lemma_ws_block(s, p, lead);
    assert(skip_ws(s, p + lead.len()) == p + lead.len());
    lemma_value_after_ws(s, p, p + lead.len(), d);
    if a.len() == 1 {
        lemma_split(s, q, w, seq![']']);
        lemma_at(s, q, w + seq![']'], 0);
        if w.len() > 0 {
            assert((w + seq![']'])[0] == w[0]);
        }
        lemma_pretty_reads(a[0], d, n, s, p + lead.len());
        lemma_at(s, q + w.len(), seq![']'], 0);
        lemma_ws_block(s, q, w);
        assert(seq![a[0]] =~= a);
    } else {
        lemma_at(s, q, tail, 0);
        lemma_pretty_reads(a[0], d, n, s, p + lead.len());
        assert(skip_ws(s, q) == q);
        lemma_split(s, q, seq![','], join(pretty_items(a.drop_first(), n), seq![',']) + w + seq![']']);
        lemma_pretty_items_reads(a.drop_first(), d, n, s, q + 1, w);
        assert(seq![a[0]] + a.drop_first() =~= a);
    }
}

/// The parts of one member line: where the key, the colon and the value
/// stand, and what the parser reads there.
proof fn lemma_pretty_member_head(
    key: Seq<char>,
    v: Json,
    d: nat,
    n: nat,
    s: Seq<char>,
    p: int,
    tail: Seq<char>,
)
    requires
        valid_json(v, d),
        0 <= p,
        tail.len() > 0,
        !is_number_char(tail[0]),
        p + (seq!['\n'] + indent(n) + quoted(key) + seq![':', ' '] + pretty(v, n)).len() + tail.len() <= s.len(),
        s.subrange(p, p + (seq!['\n'] + indent(n) + quoted(key) + seq![':', ' '] + pretty(v, n)).len() + tail.len())
            == seq!['\n'] + indent(n) + quoted(key) + seq![':', ' '] + pretty(v, n) + tail,
    ensures
        ({
            let kp = p + 1 + 2 * n;
            let c = kp + quoted(key).len();
            let q = p + (seq!['\n'] + indent(n) + quoted(key) + seq![':', ' '] + pretty(v, n)).len();
            &&& skip_ws(s, p) == kp
            &&& kp < s.len() && s[kp] == '"'
            &&& parse_chars(s, kp + 1) == Some((key, c))
            &&& skip_ws(s, c) == c
            &&& c < s.len() && s[c] == ':'
            &&& parse_value(s, c + 1, d) == Some((v, q))
            &&& q < s.len() && s[q] == tail[0]
            &&& s.subrange(q, q + tail.len()) == tail
        }),
    decreases v, 1nat,
{
    let lead = seq!['\n'] + indent(n);
    let kq = quoted(key);
    let pr0 = pretty(v, n);
    let kp = p + lead.len();
    let c = kp + kq.len();
    let vp = c + 2;
    let q = vp + pr0.len();
    lemma_newline_indent_ws(n);
    lemma_pretty_first(v, d, n);
    assert(lead + kq + seq![':', ' '] + pr0 + tail =~= lead + (kq + (seq![':', ' '] + (pr0 + tail))));
    lemma_split(s, p, lead, kq + (seq![':', ' '] + (pr0 + tail)));
    lemma_split(s, kp, kq, seq![':', ' '] + (pr0 + tail));
    lemma_split(s, c, seq![':', ' '], pr0 + tail);
    lemma_split(s, vp, pr0, tail);
    lemma_quoted_reads(key, s, kp);
    lemma_ws_block(s, p, lead);
    lemma_at(s, c, seq![':', ' '], 0);
    lemma_at(s, c, seq![':', ' '], 1);
    lemma_at(s, vp, pr0, 0);
    lemma_at(s, q, tail, 0);
    assert(skip_ws(s, vp) == vp);
    assert(skip_ws(s, c + 1) == vp);
    lemma_value_after_ws(s, c + 1, vp, d);
    lemma_pretty_reads(v, d, n, s, vp);
}

proof fn lemma_pretty_members_reads(
    m: Seq<(Seq<char>, Json)>,
    d: nat,
    n: nat,
    s: Seq<char>,
    p: int,
    w: Seq<char>,
)
    requires
        m.len() > 0,
        members_valid(m, d),
        0 <= p,
        forall|k: int| 0 <= k < w.len() ==> is_ws(#[trigger] w[k]),
        p + join(pretty_members(m, n), seq![',']).len() + w.len() + 1 <= s.len(),
        s.subrange(p, p + join(pretty_members(m, n), seq![',']).len() + w.len() + 1) == join(
            pretty_members(m, n),
            seq![','],
        ) + w + seq!['}'],
    ensures
        parse_members(s, p, d) == Some((m, p + join(pretty_members(m, n), seq![',']).len() + w.len() + 1)),
    decreases m, 0nat,
{
    let part = seq!['\n'] + indent(n) + quoted(m[0].0) + seq![':', ' '] + pretty(m[0].1, n);
    let q = p + part.len();
    assert(pretty_members(m, n) == seq![part] + pretty_members(m.drop_first(), n));
    let tail: Seq<char> = if m.len() == 1 {
        w + seq!['}']
    } else {
        seq![','] + (join(pretty_members(m.drop_first(), n), seq![',']) + w + seq!['}'])
    };
    if m.len() == 1 {
        assert(pretty_members(m.drop_first(), n) =~= Seq::<Seq<char>>::empty());
        assert(pretty_members(m, n) =~= seq![part]);
        assert(join(pretty_members(m, n), seq![',']) == part);
        if w.len() > 0 {
            assert(tail[0] == w[0]);
        }
    } else {
        assert(pretty_members(m, n).drop_first() =~= pretty_members(m.drop_first(), n));
        assert(join(pretty_members(m, n), seq![',']) == part + seq![','] + join(
            pretty_members(m.drop_first(), n),
            seq![','],
        ));
    }
    assert(join(pretty_members(m, n), seq![',']) + w + seq!['}'] =~= part + tail);
    lemma_pretty_member_head(m[0].0, m[0].1, d, n, s, p, tail);
    if m.len() == 1 {
        lemma_split(s, q, w, seq!['}']);
        lemma_at(s, q + w.len(), seq!['}'], 0);
        lemma_ws_block(s, q, w);
        assert(seq![(m[0].0, m[0].1)] =~= m);
    } else {
        assert(skip_ws(s, q) == q);
        lemma_split(s, q, seq![','], join(pretty_members(m.drop_first(), n), seq![',']) + w + seq!['}']);
        lemma_pretty_members_reads(m.drop_first(), d, n, s, q + 1, w);
        assert(seq![(m[0].0, m[0].1)] + m.drop_first() =~= m);
    }
}

/// Writing a valid value in the indented layout and parsing the text gives
/// the value back.
pub proof fn law_pretty_round_trip(v: Json)
    requires
        valid_json(v, MAX_DEPTH as nat),
    ensures
        parse_json(pretty(v, 0)) == Some(v),
{
    let s = pretty(v, 0);
    assert(s.subrange(0, s.len() as int) =~= s);
    lemma_pretty_reads(v, MAX_DEPTH as nat, 0, s, 0);
}


proof fn lemma_value_valid(s: Seq<char>, i: int, d: nat)
    ensures
        parse_value(s, i, d) matches Some((v, j)) ==> valid_json(v, d),
    decreases d, s.len() - i, 0nat,
{
    let k = skip_ws(s, i);
    if i >= 0 && k < s.len() {
        if (s[k] == '[' || s[k] == '{') && d > 0 {
            let m = skip_ws(s, k + 1);
            if s[k] == '[' && !(m < s.len() && s[m] == ']') {
                lemma_items_valid(s, k + 1, (d - 1) as nat);
            }
            if s[k] == '{' && !(m < s.len() && s[m] == '}') {
                lemma_members_valid(s, k + 1, (d - 1) as nat);
            }
        }
    }
}

proof fn lemma_items_valid(s: Seq<char>, i: int, d: nat)
    ensures
        parse_items(s, i, d) matches Some((a, j)) ==> items_valid(a, d),
    decreases d, s.len() - i, 1nat,
{
    lemma_value_valid(s, i, d);
    if let Some((v, j)) = parse_value(s, i, d) {
        let k = skip_ws(s, j);
        if 0 <= k < s.len() && s[k] == ',' && k + 1 > i {
            lemma_items_valid(s, k + 1, d);
            if let Some((rest, e)) = parse_items(s, k + 1, d) {
                assert((seq![v] + rest).drop_first() =~= rest);
                assert((seq![v] + rest)[0] == v);
                assert(items_valid(seq![v] + rest, d));
            }
        } else if 0 <= k < s.len() && s[k] == ']' {
            assert(seq![v].drop_first() =~= Seq::<Json>::empty());
            assert(items_valid(Seq::<Json>::empty(), d));
            assert(items_valid(seq![v], d));
        }
    }
}

proof fn lemma_members_valid(s: Seq<char>, i: int, d: nat)
    ensures
        parse_members(s, i, d) matches Some((m, j)) ==> members_valid(m, d),
    decreases d, s.len() - i, 1nat,
{
    let k = skip_ws(s, i);
    if 0 <= i <= k < s.len() && s[k] == '"' {
        if let Some((key, j)) = parse_chars(s, k + 1) {
            let c = skip_ws(s, j);
            if i <= c < s.len() && s[c] == ':' {
                lemma_value_valid(s, c + 1, d);
                if let Some((v, e)) = parse_value(s, c + 1, d) {
                    let m = skip_ws(s, e);
                    if i <= m < s.len() && s[m] == ',' {
                        lemma_members_valid(s, m + 1, d);
                        if let Some((rest, f)) = parse_members(s, m + 1, d) {
                            assert((seq![(key, v)] + rest).drop_first() =~= rest);
                            assert((seq![(key, v)] + rest)[0] == (key, v));
                            assert(members_valid(seq![(key, v)] + rest, d));
                        }
                    } else if i <= m < s.len() && s[m] == '}' {
                        assert(seq![(key, v)].drop_first() =~= Seq::<(Seq<char>, Json)>::empty());
                        assert(members_valid(Seq::<(Seq<char>, Json)>::empty(), d));
                        assert(members_valid(seq![(key, v)], d));
                    }
                }
            }
        }
    }
}

/// Every value that the parser gives from a whole text is valid.
pub proof fn lemma_parsed_valid(t: Seq<char>)
    ensures
        parse_json(t) matches Some(v) ==> valid_json(v, MAX_DEPTH as nat),
{
    lemma_value_valid(t, 0, MAX_DEPTH as nat);
}

/// Parsing the compact text of a parsed value gives that value again.
pub proof fn law_reparse_compact(t: Seq<char>)
    requires
        parse_json(t) is Some,
    ensures
        parse_json(compact(parse_json(t)->0)) == parse_json(t),
{
    lemma_parsed_valid(t);
    law_compact_round_trip(parse_json(t)->0);
}

/// Parsing the indented text of a parsed value gives that value again.
pub proof fn law_reparse_pretty(t: Seq<char>)
    requires
        parse_json(t) is Some,
    ensures
        parse_json(pretty(parse_json(t)->0, 0)) == parse_json(t),
{
    lemma_parsed_valid(t);
    law_pretty_round_trip(parse_json(t)->0);
}

/// Minifying is idempotent: the minified text of a JSON text is JSON, and
/// minifying it again gives the same text.
pub proof fn law_minify_idempotent(t: Seq<char>)
    requires
        parse_json(t) is Some,
    ensures
        parse_json(compact(parse_json(t)->0)) is Some,
        compact(parse_json(compact(parse_json(t)->0))->0) == compact(parse_json(t)->0),
{
    law_reparse_compact(t);
}

/// Prettifying is idempotent: the indented text of a JSON text is JSON, and
/// prettifying it again gives the same text.
pub proof fn law_prettify_idempotent(t: Seq<char>)
    requires
        parse_json(t) is Some,
    ensures
        parse_json(pretty(parse_json(t)->0, 0)) is Some,
        pretty(parse_json(pretty(parse_json(t)->0, 0))->0, 0) == pretty(parse_json(t)->0, 0),
{
    law_reparse_pretty(t);
}

} // verus!
