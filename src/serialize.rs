use vstd::prelude::*;
use crate::escape::{quote_json, quoted};
use crate::text::{chars_of, push_all, push_str, string_of};
use crate::tree::{lemma_items_index, lemma_members_index};
use crate::value::{items_of, json_of, members_of, Json, JsonValue};

verus! {

/// The parts joined with `sep` between each two.
pub open spec fn join(parts: Seq<Seq<char>>, sep: Seq<char>) -> Seq<char>
    decreases parts.len(),
{
    if parts.len() == 0 {
        Seq::empty()
    } else if parts.len() == 1 {
        parts[0]
    } else {
        parts[0] + sep + join(parts.drop_first(), sep)
    }
}

/// The text of a literal that has no inner structure.
pub open spec fn scalar_text(v: Json) -> Seq<char> {
    match v {
        Json::Null => "null"@,
        Json::Bool(b) => if b {
            "true"@
        } else {
            "false"@
        },
        Json::Number(t) => t,
        Json::Str(t) => quoted(t),
        _ => Seq::empty(),
    }
}

/// `v` written with no whitespace between tokens.
pub open spec fn compact(v: Json) -> Seq<char>
    decreases v,
{
    match v {
        Json::Array(a) => seq!['['] + join(compact_items(a), seq![',']) + seq![']'],
        Json::Object(m) => seq!['{'] + join(compact_members(m), seq![',']) + seq!['}'],
        _ => scalar_text(v),
    }
}

pub open spec fn compact_items(a: Seq<Json>) -> Seq<Seq<char>>
    decreases a,
{
    if a.len() == 0 {
        Seq::empty()
    } else {
        seq![compact(a[0])] + compact_items(a.drop_first())
    }
}

pub open spec fn compact_members(m: Seq<(Seq<char>, Json)>) -> Seq<Seq<char>>
    decreases m,
{
    if m.len() == 0 {
        Seq::empty()
    } else {
        seq![quoted(m[0].0) + seq![':'] + compact(m[0].1)] + compact_members(m.drop_first())
    }
}

/// Two spaces for each level.
pub open spec fn indent(n: nat) -> Seq<char> {
    Seq::new(2 * n, |i: int| ' ')
}

/// `v` written one element or member per line, indented by two spaces per
/// level, `n` being the level of the line it starts on.
pub open spec fn pretty(v: Json, n: nat) -> Seq<char>
    decreases v,
{
    match v {
        Json::Array(a) => if a.len() == 0 {
            "[]"@
        } else {
            seq!['['] + join(pretty_items(a, n + 1), seq![',']) + seq!['\n'] + indent(n) + seq![']']
        },
        Json::Object(m) => if m.len() == 0 {
            "{}"@
        } else {
            seq!['{'] + join(pretty_members(m, n + 1), seq![',']) + seq!['\n'] + indent(n) + seq![
                '}',
            ]
        },
        _ => scalar_text(v),
    }
}

pub open spec fn pretty_items(a: Seq<Json>, n: nat) -> Seq<Seq<char>>
    decreases a,
{
    if a.len() == 0 {
        Seq::empty()
    } else {
        seq![seq!['\n'] + indent(n) + pretty(a[0], n)] + pretty_items(a.drop_first(), n)
    }
}

pub open spec fn pretty_members(m: Seq<(Seq<char>, Json)>, n: nat) -> Seq<Seq<char>>
    decreases m,
{
    if m.len() == 0 {
        Seq::empty()
    } else {
        seq![seq!['\n'] + indent(n) + quoted(m[0].0) + seq![':', ' '] + pretty(m[0].1, n)]
            + pretty_members(m.drop_first(), n)
    }
}

pub proof fn lemma_join_push(p: Seq<Seq<char>>, x: Seq<char>, sep: Seq<char>)
    ensures
        join(p.push(x), sep) == if p.len() == 0 {
            x
        } else {
            join(p, sep) + sep + x
        },
    decreases p.len(),
{
    if p.len() == 0 {
        assert(p.push(x).len() == 1);
        assert(p.push(x)[0] == x);
    } else if p.len() == 1 {
        assert(p.push(x).drop_first() =~= seq![x]);
        assert(p.push(x)[0] == p[0]);
        assert(join(seq![x], sep) == x);
        assert(join(p.push(x), sep) == p[0] + sep + join(p.push(x).drop_first(), sep));
    } else {
        lemma_join_push(p.drop_first(), x, sep);
        assert(p.push(x).drop_first() =~= p.drop_first().push(x));
        assert(p.push(x)[0] == p[0]);
        assert(join(p.push(x), sep) == p[0] + sep + join(p.drop_first().push(x), sep));
        assert(p[0] + sep + (join(p.drop_first(), sep) + sep + x) =~= (p[0] + sep + join(
            p.drop_first(),
            sep,
        )) + sep + x);
    }
}

pub proof fn lemma_compact_items_index(a: Seq<Json>)
    ensures
        compact_items(a).len() == a.len(),
        forall|j: int| 0 <= j < a.len() ==> #[trigger] compact_items(a)[j] == compact(a[j]),
    decreases a.len(),
{
    if a.len() > 0 {
        lemma_compact_items_index(a.drop_first());
        assert forall|j: int| 0 <= j < a.len() implies #[trigger] compact_items(a)[j] == compact(a[j]) by {
            if j > 0 {
                assert(compact_items(a)[j] == compact_items(a.drop_first())[j - 1]);
            }
        }
    }
}

pub proof fn lemma_compact_members_index(m: Seq<(Seq<char>, Json)>)
    ensures
        compact_members(m).len() == m.len(),
        forall|j: int| 0 <= j < m.len() ==> #[trigger] compact_members(m)[j] == quoted(m[j].0) + seq![':'] + compact(m[j].1),
    decreases m.len(),
{
    if m.len() > 0 {
        lemma_compact_members_index(m.drop_first());
        assert forall|j: int| 0 <= j < m.len() implies #[trigger] compact_members(m)[j] == quoted(m[j].0) + seq![':'] + compact(m[j].1) by {
            if j > 0 {
                assert(compact_members(m)[j] == compact_members(m.drop_first())[j - 1]);
            }
        }
    }
}

pub proof fn lemma_pretty_items_index(a: Seq<Json>, n: nat)
    ensures
        pretty_items(a, n).len() == a.len(),
        forall|j: int| 0 <= j < a.len() ==> #[trigger] pretty_items(a, n)[j] == seq!['\n'] + indent(n) + pretty(a[j], n),
    decreases a.len(),
{
    if a.len() > 0 {
        lemma_pretty_items_index(a.drop_first(), n);
        assert forall|j: int| 0 <= j < a.len() implies #[trigger] pretty_items(a, n)[j] == seq!['\n'] + indent(n) + pretty(a[j], n) by {
            if j > 0 {
                assert(pretty_items(a, n)[j] == pretty_items(a.drop_first(), n)[j - 1]);
            }
        }
    }
}

pub proof fn lemma_pretty_members_index(m: Seq<(Seq<char>, Json)>, n: nat)
    ensures
        pretty_members(m, n).len() == m.len(),
        forall|j: int| 0 <= j < m.len() ==> #[trigger] pretty_members(m, n)[j] == seq!['\n'] + indent(n) + quoted(m[j].0) + seq![':', ' '] + pretty(m[j].1, n),
    decreases m.len(),
{
    if m.len() > 0 {
        lemma_pretty_members_index(m.drop_first(), n);
        assert forall|j: int| 0 <= j < m.len() implies #[trigger] pretty_members(m, n)[j] == seq!['\n'] + indent(n) + quoted(m[j].0) + seq![':', ' '] + pretty(m[j].1, n) by {
            if j > 0 {
                assert(pretty_members(m, n)[j] == pretty_members(m.drop_first(), n)[j - 1]);
            }
        }
    }
}

fn push_quoted(out: &mut Vec<char>, s: &String)
    ensures
        final(out)@ == old(out)@ + quoted(s@),
{
    let q = quote_json(s.as_str());
    let cs = chars_of(q.as_str());
    push_all(out, &cs);
}

fn write_scalar(out: &mut Vec<char>, v: &JsonValue)
    requires
        !(v is Array),
        !(v is Object),
    ensures
        final(out)@ == old(out)@ + scalar_text(v@),
{
    match v {
        JsonValue::Null => push_str(out, "null"),
        JsonValue::Bool(b) => if *b {
            push_str(out, "true")
        } else {
            push_str(out, "false")
        },
        JsonValue::Number(t) => push_str(out, t.as_str()),
        JsonValue::Str(t) => push_quoted(out, t),
        _ => {},
    }
}

fn write_compact(out: &mut Vec<char>, v: &JsonValue)
    ensures
        final(out)@ == old(out)@ + compact(v@),
    decreases v,
{
    match v {
        JsonValue::Array(items) => {
            let ghost start = out@;
            let ghost a = items_of(items@);
            proof {
                lemma_items_index(items@);
                lemma_compact_items_index(a);
            }
            out.push('[');
            let mut i: usize = 0;
            assert(compact_items(a).take(0) =~= Seq::<Seq<char>>::empty());
            while i < items.len()
                invariant
                    v is Array && (*v)->Array_0 == *items,
                    a == items_of(items@),
                    i <= items.len(),
                    a.len() == items.len(),
                    compact_items(a).len() == a.len(),
                    forall|j: int| 0 <= j < items.len() ==> #[trigger] a[j] == json_of(items@[j]),
                    forall|j: int| 0 <= j < a.len() ==> #[trigger] compact_items(a)[j] == compact(a[j]),
                    out@ == start + seq!['['] + join(compact_items(a).take(i as int), seq![',']),
                decreases items.len() - i,
            {
                proof {
                    assert(decreases_to!(*v => (*v)->Array_0));
                    assert(decreases_to!(*items => items@));
                    assert(decreases_to!(items@ => items@[i as int]));
                    lemma_join_push(compact_items(a).take(i as int), compact(a[i as int]), seq![',']);
                    assert(compact_items(a).take(i + 1) =~= compact_items(a).take(i as int).push(compact(a[i as int])));
                }
                if i > 0 {
                    out.push(',');
                }
                write_compact(out, &items[i]);
                i = i + 1;
            }
            out.push(']');
            assert(compact_items(a).take(i as int) =~= compact_items(a));
        },
        JsonValue::Object(members) => {
            let ghost start = out@;
            let ghost m = members_of(members@);
            proof {
                lemma_members_index(members@);
                lemma_compact_members_index(m);
            }
            out.push('{');
            let mut i: usize = 0;
            assert(compact_members(m).take(0) =~= Seq::<Seq<char>>::empty());
            while i < members.len()
                invariant
                    v is Object && (*v)->Object_0 == *members,
                    m == members_of(members@),
                    i <= members.len(),
                    m.len() == members.len(),
                    compact_members(m).len() == m.len(),
                    forall|j: int| 0 <= j < members.len() ==> #[trigger] m[j] == (members@[j].0@, json_of(members@[j].1)),
                    forall|j: int| 0 <= j < m.len() ==> #[trigger] compact_members(m)[j] == quoted(m[j].0) + seq![':'] + compact(m[j].1),
                    out@ == start + seq!['{'] + join(compact_members(m).take(i as int), seq![',']),
                decreases members.len() - i,
            {
                proof {
                    assert(decreases_to!(*v => (*v)->Object_0));
                    assert(decreases_to!(*members => members@));
                    assert(decreases_to!(members@ => members@[i as int]));
                    assert(decreases_to!(members@[i as int] => members@[i as int].1));
                    lemma_join_push(compact_members(m).take(i as int), compact_members(m)[i as int], seq![',']);
                    assert(compact_members(m).take(i + 1) =~= compact_members(m).take(i as int).push(compact_members(m)[i as int]));
                }
                let ghost before = out@;
                if i > 0 {
                    out.push(',');
                }
                let ghost mid = out@;
                push_quoted(out, &members[i].0);
                out.push(':');
                write_compact(out, &members[i].1);
                assert(out@ =~= mid + (quoted(m[i as int].0) + seq![':'] + compact(m[i as int].1)));
                i = i + 1;
            }
            out.push('}');
            assert(compact_members(m).take(i as int) =~= compact_members(m));
        },
        _ => write_scalar(out, v),
    }
}

fn deeper(ind: &Vec<char>, Ghost(n): Ghost<nat>) -> (r: Vec<char>)
    requires
        ind@ == indent(n),
    ensures
        r@ == indent(n + 1),
{
    let mut r: Vec<char> = Vec::new();
    push_all(&mut r, ind);
    r.push(' ');
    r.push(' ');
    assert(r@ =~= indent(n + 1));
    r
}

fn write_pretty(out: &mut Vec<char>, v: &JsonValue, ind: &Vec<char>, Ghost(n): Ghost<nat>)
    requires
        ind@ == indent(n),
    ensures
        final(out)@ == old(out)@ + pretty(v@, n),
    decreases v,
{
    match v {
        JsonValue::Array(items) => {
            if items.len() == 0 {
                proof {
                    lemma_items_index(items@);
                }
                push_str(out, "[]");
                return;
            }
            let ghost start = out@;
            let ghost a = items_of(items@);
            let inner = deeper(ind, Ghost(n));
            proof {
                lemma_items_index(items@);
                lemma_pretty_items_index(a, n + 1);
            }
            out.push('[');
            let mut i: usize = 0;
            assert(pretty_items(a, n + 1).take(0) =~= Seq::<Seq<char>>::empty());
            while i < items.len()
                invariant
                    v is Array && (*v)->Array_0 == *items,
                    a == items_of(items@),
                    inner@ == indent(n + 1),
                    i <= items.len(),
                    a.len() == items.len(),
                    pretty_items(a, n + 1).len() == a.len(),
                    forall|j: int| 0 <= j < items.len() ==> #[trigger] a[j] == json_of(items@[j]),
                    forall|j: int| 0 <= j < a.len() ==> #[trigger] pretty_items(a, n + 1)[j] == seq!['\n'] + indent(n + 1) + pretty(a[j], n + 1),
                    out@ == start + seq!['['] + join(pretty_items(a, n + 1).take(i as int), seq![',']),
                decreases items.len() - i,
            {
                proof {
                    assert(decreases_to!(*v => (*v)->Array_0));
                    assert(decreases_to!(*items => items@));
                    assert(decreases_to!(items@ => items@[i as int]));
                    lemma_join_push(pretty_items(a, n + 1).take(i as int), pretty_items(a, n + 1)[i as int], seq![',']);
                    assert(pretty_items(a, n + 1).take(i + 1) =~= pretty_items(a, n + 1).take(i as int).push(pretty_items(a, n + 1)[i as int]));
                }
                if i > 0 {
                    out.push(',');
                }
                let ghost mid = out@;
                out.push('\n');
                push_all(out, &inner);
                write_pretty(out, &items[i], &inner, Ghost(n + 1));
                assert(out@ =~= mid + (seq!['\n'] + indent(n + 1) + pretty(a[i as int], n + 1)));
                i = i + 1;
            }
            out.push('\n');
            push_all(out, ind);
            out.push(']');
            assert(pretty_items(a, n + 1).take(i as int) =~= pretty_items(a, n + 1));
            assert(out@ =~= start + pretty(v@, n));
        },
        JsonValue::Object(members) => {
            if members.len() == 0 {
                proof {
                    lemma_members_index(members@);
                }
                push_str(out, "{}");
                return;
            }
            let ghost start = out@;
            let ghost m = members_of(members@);
            let inner = deeper(ind, Ghost(n));
            proof {
                lemma_members_index(members@);
                lemma_pretty_members_index(m, n + 1);
            }
            out.push('{');
            let mut i: usize = 0;
            assert(pretty_members(m, n + 1).take(0) =~= Seq::<Seq<char>>::empty());
            while i < members.len()
                invariant
                    v is Object && (*v)->Object_0 == *members,
                    m == members_of(members@),
                    inner@ == indent(n + 1),
                    i <= members.len(),
                    m.len() == members.len(),
                    pretty_members(m, n + 1).len() == m.len(),
                    forall|j: int| 0 <= j < members.len() ==> #[trigger] m[j] == (members@[j].0@, json_of(members@[j].1)),
                    forall|j: int| 0 <= j < m.len() ==> #[trigger] pretty_members(m, n + 1)[j] == seq!['\n'] + indent(n + 1) + quoted(m[j].0) + seq![':', ' '] + pretty(m[j].1, n + 1),
                    out@ == start + seq!['{'] + join(pretty_members(m, n + 1).take(i as int), seq![',']),
                decreases members.len() - i,
            {
                proof {
                    assert(decreases_to!(*v => (*v)->Object_0));
                    assert(decreases_to!(*members => members@));
                    assert(decreases_to!(members@ => members@[i as int]));
                    assert(decreases_to!(members@[i as int] => members@[i as int].1));
                    lemma_join_push(pretty_members(m, n + 1).take(i as int), pretty_members(m, n + 1)[i as int], seq![',']);
                    assert(pretty_members(m, n + 1).take(i + 1) =~= pretty_members(m, n + 1).take(i as int).push(pretty_members(m, n + 1)[i as int]));
                }
                if i > 0 {
                    out.push(',');
                }
                let ghost mid = out@;
                out.push('\n');
                push_all(out, &inner);
                push_quoted(out, &members[i].0);
                out.push(':');
                out.push(' ');
                write_pretty(out, &members[i].1, &inner, Ghost(n + 1));
                assert(out@ =~= mid + (seq!['\n'] + indent(n + 1) + quoted(m[i as int].0) + seq![':', ' '] + pretty(m[i as int].1, n + 1)));
                i = i + 1;
            }
            out.push('\n');
            push_all(out, ind);
            out.push('}');
            assert(pretty_members(m, n + 1).take(i as int) =~= pretty_members(m, n + 1));
            assert(out@ =~= start + pretty(v@, n));
        },
        _ => write_scalar(out, v),
    }
}

/// Writes a value one element or member per line, indented by two spaces
/// per level.
pub fn serialize_pretty(v: &JsonValue) -> (r: String)
    ensures
        r@ == pretty(v@, 0),
{
    let mut out: Vec<char> = Vec::new();
    let ind: Vec<char> = Vec::new();
    assert(ind@ =~= indent(0));
    write_pretty(&mut out, v, &ind, Ghost(0));
    assert(out@ =~= pretty(v@, 0));
    string_of(&out)
}

/// Writes a value with no whitespace between tokens.
pub fn serialize_compact(v: &JsonValue) -> (r: String)
    ensures
        r@ == compact(v@),
{
    let mut out: Vec<char> = Vec::new();
    write_compact(&mut out, v);
    assert(out@ =~= compact(v@));
    string_of(&out)
}

} // verus!
