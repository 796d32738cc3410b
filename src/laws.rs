use vstd::prelude::*;
use crate::coordinator::{
    counted, is_banner, rebuilt_from, text_changed, visibility_set, CoordinatorModel, StateModel,
};
use crate::parser::parse_json;
use crate::tree::{materialized, Tree};

verus! {

/// Materializing the value of a JSON text twice gives the same tree both
/// times.
pub proof fn law_materialize_deterministic(t: Seq<char>, first: Tree, second: Tree)
    requires
        parse_json(t) is Some,
        first == materialized(parse_json(t)->0),
        second == materialized(parse_json(t)->0),
    ensures
        first == second,
{
}

/// A change to text that is not JSON never clears a tree on display: from
/// a valid tree `t` the panel goes to the invalid state, keeps `t`, and shows
/// a banner that starts with "Invalid JSON".
pub proof fn law_invalid_text_keeps_tree(
    old: CoordinatorModel,
    new: CoordinatorModel,
    text: Seq<char>,
    t: Tree,
)
    requires
        old.visible,
        old.state == StateModel::Valid(t),
        parse_json(text) is None,
        text_changed(old, new, text),
    ensures
        new.state matches StateModel::Invalid(last, m) && last == Some(t) && is_banner(m),
{
}

/// An edit while the panel is hidden does no rebuild; showing the panel
/// then does exactly one, from the text as it is at that moment.
pub proof fn law_show_rebuilds_once(
    hidden: CoordinatorModel,
    edited: CoordinatorModel,
    shown: CoordinatorModel,
    text: Seq<char>,
)
    requires
        !hidden.visible,
        text_changed(hidden, edited, text),
        visibility_set(edited, shown, true),
    ensures
        edited.rebuilds == hidden.rebuilds,
        edited.state == hidden.state,
        shown.visible,
        shown.rebuilds == counted(hidden.rebuilds),
        rebuilt_from(hidden.state, shown.state, text),
{
}

} // verus!
