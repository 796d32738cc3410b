use vstd::prelude::*;
use crate::text::{decimal, push_decimal, string_of, text};
use crate::value::{items_of, json_of, members_of, Json, JsonValue};

verus! {

/// The model of a displayed tree node.
pub struct Tree {
    pub label: Seq<char>,
    pub value: Seq<char>,
    pub children: Seq<Tree>,
}

/// A displayed tree node: a label, the text shown beside it, and its children.
#[derive(Debug, PartialEq, Eq)]
pub struct TreeNode {
    pub label: String,
    pub value: String,
    pub children: Vec<TreeNode>,
}

pub open spec fn tree_view_of(n: TreeNode) -> Tree
    decreases n,
{
    Tree { label: n.label@, value: n.value@, children: nodes_of(n.children@) }
}

pub open spec fn nodes_of(s: Seq<TreeNode>) -> Seq<Tree>
    decreases s,
{
    if s.len() == 0 {
        Seq::empty()
    } else {
        seq![tree_view_of(s[0])] + nodes_of(s.drop_first())
    }
}

impl View for TreeNode {
    type V = Tree;

    open spec fn view(&self) -> Tree {
        tree_view_of(*self)
    }
}

/// The label of the top node, which has no key of its own.
pub open spec fn root_label() -> Seq<char> {
    "root"@
}

/// The value shown for an object.
pub open spec fn object_marker() -> Seq<char> {
    "{object}"@
}

/// The value shown for an array.
pub open spec fn list_marker() -> Seq<char> {
    "[list]"@
}

/// The label of the array element at index `i`.
pub open spec fn index_label(i: nat) -> Seq<char> {
    seq!['['] + decimal(i) + seq![']']
}

/// The tree that displays `v` under `label`: one node per value, containers
/// marked and their elements or members below them in order.
pub open spec fn tree_of(label: Seq<char>, v: Json) -> Tree
    decreases v,
{
    match v {
        Json::Null => Tree { label, value: "null"@, children: Seq::empty() },
        Json::Bool(b) => Tree {
            label,
            value: if b {
                "true"@
            } else {
                "false"@
            },
            children: Seq::empty(),
        },
        Json::Number(t) => Tree { label, value: t, children: Seq::empty() },
        Json::Str(t) => Tree { label, value: t, children: Seq::empty() },
        Json::Array(a) => Tree { label, value: list_marker(), children: item_trees(a, 0) },
        Json::Object(m) => Tree { label, value: object_marker(), children: member_trees(m) },
    }
}

/// The trees of array elements, the first labelled with index `first`.
pub open spec fn item_trees(a: Seq<Json>, first: nat) -> Seq<Tree>
    decreases a,
{
    if a.len() == 0 {
        Seq::empty()
    } else {
        seq![tree_of(index_label(first), a[0])] + item_trees(a.drop_first(), first + 1)
    }
}

/// The trees of object members, each labelled with its key.
pub open spec fn member_trees(m: Seq<(Seq<char>, Json)>) -> Seq<Tree>
    decreases m,
{
    if m.len() == 0 {
        Seq::empty()
    } else {
        seq![tree_of(m[0].0, m[0].1)] + member_trees(m.drop_first())
    }
}

/// The displayed tree of a whole value.
pub open spec fn materialized(v: Json) -> Tree {
    tree_of(root_label(), v)
}

pub proof fn lemma_items_index(a: Seq<JsonValue>)
    ensures
        items_of(a).len() == a.len(),
        forall|j: int| 0 <= j < a.len() ==> #[trigger] items_of(a)[j] == json_of(a[j]),
    decreases a.len(),
{
    if a.len() > 0 {
        lemma_items_index(a.drop_first());
        assert forall|j: int| 0 <= j < a.len() implies #[trigger] items_of(a)[j] == json_of(a[j]) by {
            if j > 0 {
                assert(items_of(a)[j] == items_of(a.drop_first())[j - 1]);
            }
        }
    }
}

pub proof fn lemma_members_index(a: Seq<(String, JsonValue)>)
    ensures
        members_of(a).len() == a.len(),
        forall|j: int| 0 <= j < a.len() ==> #[trigger] members_of(a)[j] == (a[j].0@, json_of(a[j].1)),
    decreases a.len(),
{
    if a.len() > 0 {
        lemma_members_index(a.drop_first());
        assert forall|j: int| 0 <= j < a.len() implies #[trigger] members_of(a)[j] == (a[j].0@, json_of(a[j].1)) by {
            if j > 0 {
                assert(members_of(a)[j] == members_of(a.drop_first())[j - 1]);
            }
        }
    }
}

pub proof fn lemma_nodes_index(a: Seq<TreeNode>)
    ensures
        nodes_of(a).len() == a.len(),
        forall|j: int| 0 <= j < a.len() ==> #[trigger] nodes_of(a)[j] == tree_view_of(a[j]),
    decreases a.len(),
{
    if a.len() > 0 {
        lemma_nodes_index(a.drop_first());
        assert forall|j: int| 0 <= j < a.len() implies #[trigger] nodes_of(a)[j] == tree_view_of(a[j]) by {
            if j > 0 {
                assert(nodes_of(a)[j] == nodes_of(a.drop_first())[j - 1]);
            }
        }
    }
}

pub proof fn lemma_item_trees_index(a: Seq<Json>, first: nat)
    ensures
        item_trees(a, first).len() == a.len(),
        forall|j: int| 0 <= j < a.len() ==> #[trigger] item_trees(a, first)[j] == tree_of(index_label((first + j) as nat), a[j]),
    decreases a.len(),
{
    if a.len() > 0 {
        lemma_item_trees_index(a.drop_first(), first + 1);
        assert forall|j: int| 0 <= j < a.len() implies #[trigger] item_trees(a, first)[j] == tree_of(index_label((first + j) as nat), a[j]) by {
            if j > 0 {
                assert(item_trees(a, first)[j] == item_trees(a.drop_first(), first + 1)[j - 1]);
            }
        }
    }
}

pub proof fn lemma_member_trees_index(m: Seq<(Seq<char>, Json)>)
    ensures
        member_trees(m).len() == m.len(),
        forall|j: int| 0 <= j < m.len() ==> #[trigger] member_trees(m)[j] == tree_of(m[j].0, m[j].1),
    decreases m.len(),
{
    if m.len() > 0 {
        lemma_member_trees_index(m.drop_first());
        assert forall|j: int| 0 <= j < m.len() implies #[trigger] member_trees(m)[j] == tree_of(m[j].0, m[j].1) by {
            if j > 0 {
                assert(member_trees(m)[j] == member_trees(m.drop_first())[j - 1]);
            }
        }
    }
}

fn index_label_text(i: usize) -> (r: String)
    ensures
        r@ == index_label(i as nat),
{
    let mut m: Vec<char> = Vec::new();
    m.push('[');
    push_decimal(&mut m, i);
    m.push(']');
    string_of(&m)
}

fn node_of(label: String, v: &JsonValue) -> (r: TreeNode)
    ensures
        r@ == tree_of(label@, v@),
    decreases v,
{
    match v {
        JsonValue::Null => {
            let r = TreeNode { label, value: text("null"), children: Vec::new() };
            assert(nodes_of(r.children@) == Seq::<Tree>::empty());
            r
        },
        JsonValue::Bool(b) => {
            let value = if *b { text("true") } else { text("false") };
            let r = TreeNode { label, value, children: Vec::new() };
            assert(nodes_of(r.children@) == Seq::<Tree>::empty());
            r
        },
        JsonValue::Number(t) => {
            let r = TreeNode { label, value: t.clone(), children: Vec::new() };
            assert(nodes_of(r.children@) == Seq::<Tree>::empty());
            r
        },
        JsonValue::Str(t) => {
            let r = TreeNode { label, value: t.clone(), children: Vec::new() };
            assert(nodes_of(r.children@) == Seq::<Tree>::empty());
            r
        },
        JsonValue::Array(items) => {
            let mut children: Vec<TreeNode> = Vec::new();
            let mut i: usize = 0;
            proof {
                lemma_items_index(items@);
            }
            while i < items.len()
                invariant
                    v is Array && (*v)->Array_0 == *items,
                    i <= items.len(),
                    children.len() == i,
                    items_of(items@).len() == items.len(),
                    forall|j: int| 0 <= j < items.len() ==> #[trigger] items_of(items@)[j] == json_of(items@[j]),
                    forall|j: int| 0 <= j < i ==> #[trigger] tree_view_of(children@[j]) == tree_of(index_label(j as nat), json_of(items@[j])),
                decreases items.len() - i,
            {
                proof {
                    assert(decreases_to!(*v => (*v)->Array_0));
                    assert(decreases_to!(*items => items@));
                    assert(decreases_to!(items@ => items@[i as int]));
                }
                let child = node_of(index_label_text(i), &items[i]);
                children.push(child);
                i = i + 1;
            }
            proof {
                lemma_nodes_index(children@);
                lemma_item_trees_index(items_of(items@), 0);
                assert(nodes_of(children@) =~= item_trees(items_of(items@), 0));
            }
            TreeNode { label, value: text("[list]"), children }
        },
        JsonValue::Object(members) => {
            let mut children: Vec<TreeNode> = Vec::new();
            let mut i: usize = 0;
            proof {
                lemma_members_index(members@);
            }
            while i < members.len()
                invariant
                    v is Object && (*v)->Object_0 == *members,
                    i <= members.len(),
                    children.len() == i,
                    members_of(members@).len() == members.len(),
                    forall|j: int| 0 <= j < members.len() ==> #[trigger] members_of(members@)[j] == (members@[j].0@, json_of(members@[j].1)),
                    forall|j: int| 0 <= j < i ==> #[trigger] tree_view_of(children@[j]) == tree_of(members@[j].0@, json_of(members@[j].1)),
                decreases members.len() - i,
            {
                proof {
                    assert(decreases_to!(*v => (*v)->Object_0));
                    assert(decreases_to!(*members => members@));
                    assert(decreases_to!(members@ => members@[i as int]));
                    assert(decreases_to!(members@[i as int] => members@[i as int].1));
                }
                let child = node_of(members[i].0.clone(), &members[i].1);
                children.push(child);
                i = i + 1;
            }
            proof {
                lemma_nodes_index(children@);
                lemma_member_trees_index(members_of(members@));
                assert(nodes_of(children@) =~= member_trees(members_of(members@)));
            }
            TreeNode { label, value: text("{object}"), children }
        },
    }
}

/// Builds the displayed tree of a value: one node per value, in order,
/// duplicates kept, with the top node labelled `root`.
pub fn materialize(v: &JsonValue) -> (r: TreeNode)
    ensures
        r@ == materialized(v@),
{
    node_of(text("root"), v)
}

} // verus!
