use vstd::prelude::*;
use crate::parser::{parse, parse_json};
use crate::text::{chars_of, push_all, push_str, string_of, text};
use crate::tree::{materialize, materialized, Tree, TreeNode};

verus! {

/// What the tree panel shows.
#[derive(Debug, PartialEq, Eq)]
pub enum ValidityState {
    /// The buffer is JSON, and this is its tree.
    Valid(TreeNode),
    /// The buffer is not JSON: the last tree that was built, if any, and the
    /// banner text.
    Invalid { last_good: Option<TreeNode>, message: String },
}

/// The model of what the tree panel shows.
pub enum StateModel {
    Valid(Tree),
    Invalid(Option<Tree>, Seq<char>),
}

pub open spec fn opt_tree(t: Option<TreeNode>) -> Option<Tree> {
    match t {
        Some(n) => Some(n@),
        None => None,
    }
}

impl View for ValidityState {
    type V = StateModel;

    open spec fn view(&self) -> StateModel {
        match self {
            ValidityState::Valid(t) => StateModel::Valid(t@),
            ValidityState::Invalid { last_good, message } => StateModel::Invalid(
                opt_tree(*last_good),
                message@,
            ),
        }
    }
}

/// The model of the coordinator.
pub struct CoordinatorModel {
    pub state: StateModel,
    pub visible: bool,
    pub buffer: Seq<char>,
    pub rebuilds: nat,
}

/// The tree on display in a state: the current one, or the last good one.
pub open spec fn displayed(s: StateModel) -> Option<Tree> {
    match s {
        StateModel::Valid(t) => Some(t),
        StateModel::Invalid(last, _) => last,
    }
}

/// The fixed start of the banner text.
pub open spec fn banner_header() -> Seq<char> {
    "Invalid JSON\n"@
}

/// Whether `m` is a banner: the header followed by a message.
pub open spec fn is_banner(m: Seq<char>) -> bool {
    banner_header().len() <= m.len() && m.subrange(0, banner_header().len() as int)
        == banner_header()
}

/// The state after one rebuild from `text`: a new tree if it is JSON, else
/// the tree on display kept and a banner.
pub open spec fn rebuilt_from(old: StateModel, new: StateModel, text: Seq<char>) -> bool {
    match parse_json(text) {
        Some(v) => new == StateModel::Valid(materialized(v)),
        None => new matches StateModel::Invalid(last, m) && last == displayed(old) && is_banner(
            m,
        ),
    }
}

/// One more rebuild, counted up to the largest count that fits.
pub open spec fn counted(n: nat) -> nat {
    if n < u64::MAX {
        n + 1
    } else {
        n
    }
}

/// What a change of the buffer to `text` does: the buffer is recorded; when
/// the panel is visible the tree is rebuilt once, else nothing else changes.
pub open spec fn text_changed(old: CoordinatorModel, new: CoordinatorModel, text: Seq<char>) -> bool {
    &&& new.buffer == text
    &&& new.visible == old.visible
    &&& if old.visible {
        rebuilt_from(old.state, new.state, text) && new.rebuilds == counted(old.rebuilds)
    } else {
        new.state == old.state && new.rebuilds == old.rebuilds
    }
}

/// What setting the visibility flag does: on a change from hidden to shown
/// one rebuild from the buffer as it is; otherwise only the flag changes.
pub open spec fn visibility_set(old: CoordinatorModel, new: CoordinatorModel, flag: bool) -> bool {
    &&& new.buffer == old.buffer
    &&& new.visible == flag
    &&& if !old.visible && flag {
        rebuilt_from(old.state, new.state, old.buffer) && new.rebuilds == counted(old.rebuilds)
    } else {
        new.state == old.state && new.rebuilds == old.rebuilds
    }
}

/// Holds the last good tree and the error banner, and rebuilds the tree
/// when the buffer changes while the panel is visible.
pub struct Coordinator {
    state: ValidityState,
    visible: bool,
    buffer: String,
    rebuilds: u64,
}

impl View for Coordinator {
    type V = CoordinatorModel;

    closed spec fn view(&self) -> CoordinatorModel {
        CoordinatorModel {
            state: self.state@,
            visible: self.visible,
            buffer: self.buffer@,
            rebuilds: self.rebuilds as nat,
        }
    }
}

fn banner(message: &String) -> (r: String)
    ensures
        is_banner(r@),
{
    let mut m: Vec<char> = Vec::new();
    push_str(&mut m, "Invalid JSON\n");
    let cs = chars_of(message.as_str());
    push_all(&mut m, &cs);
    assert(m@.subrange(0, banner_header().len() as int) =~= banner_header());
    string_of(&m)
}

fn take_displayed(state: ValidityState) -> (r: Option<TreeNode>)
    ensures
        opt_tree(r) == displayed(state@),
{
    match state {
        ValidityState::Valid(t) => Some(t),
        ValidityState::Invalid { last_good, .. } => last_good,
    }
}

impl Coordinator {
    /// A visible panel showing the tree of `initial`, or a banner.
    pub fn new(initial: &str) -> (r: Coordinator)
        ensures
            r@.visible,
            r@.buffer == initial@,
            r@.rebuilds == 1,
            rebuilt_from(StateModel::Invalid(None, Seq::empty()), r@.state, initial@),
    {
        let mut c = Coordinator {
            state: ValidityState::Invalid { last_good: None, message: String::new() },
            visible: true,
            buffer: text(initial),
            rebuilds: 0,
        };
        c.rebuild();
        c
    }

    fn rebuild(&mut self)
        ensures
            rebuilt_from(old(self).state@, final(self).state@, old(self).buffer@),
            final(self).rebuilds as nat == counted(old(self).rebuilds as nat),
            final(self).visible == old(self).visible,
            final(self).buffer@ == old(self).buffer@,
    {
        if self.rebuilds < u64::MAX {
            self.rebuilds = self.rebuilds + 1;
        }
        match parse(self.buffer.as_str()) {
            Ok(v) => {
                self.state = ValidityState::Valid(materialize(&v));
            },
            Err(e) => {
                let mut old_state = ValidityState::Invalid {
                    last_good: None,
                    message: String::new(),
                };
                core::mem::swap(&mut self.state, &mut old_state);
                let last_good = take_displayed(old_state);
                self.state = ValidityState::Invalid { last_good, message: banner(&e.message) };
            },
        }
    }

    /// Records the new buffer text and, if the panel is visible, rebuilds
    /// the tree from it: a new tree when it is JSON, else the tree on
    /// display is kept under a banner.
    pub fn on_text_changed(&mut self, text_now: &str)
        ensures
            text_changed(old(self)@, final(self)@, text_now@),
    {
        self.buffer = text(text_now);
        if self.visible {
            self.rebuild();
        }
    }

    /// Shows or hides the panel; showing a hidden panel rebuilds the tree
    /// once from the buffer as it is then.
    pub fn set_visible(&mut self, flag: bool)
        ensures
            visibility_set(old(self)@, final(self)@, flag),
    {
        if !self.visible && flag {
            self.visible = true;
            self.rebuild();
        } else {
            self.visible = flag;
        }
    }

    /// Flips the visibility of the panel.
    pub fn toggle_visibility(&mut self)
        ensures
            visibility_set(old(self)@, final(self)@, !old(self)@.visible),
    {
        let flag = !self.visible;
        self.set_visible(flag);
    }

    /// What the panel shows.
    pub fn state(&self) -> (r: &ValidityState)
        ensures
            r@ == self@.state,
    {
        &self.state
    }

    pub fn is_visible(&self) -> (r: bool)
        ensures
            r == self@.visible,
    {
        self.visible
    }

    /// How many rebuilds were attempted.
    pub fn rebuild_count(&self) -> (r: u64)
        ensures
            r as nat == self@.rebuilds,
    {
        self.rebuilds
    }

    /// The buffer text last handed in.
    pub fn buffer(&self) -> (r: &str)
        ensures
            r@ == self@.buffer,
    {
        self.buffer.as_str()
    }
}

} // verus!
