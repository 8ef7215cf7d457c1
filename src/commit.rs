use vstd::prelude::*;

use crate::bytes::copy_bytes;
use crate::target::{encoded, Change, ChangeView, RefEdit};
use crate::transaction::{Edit, EditView, Lock, State, Transaction};

verus! {

/// One step of making a prepared transaction visible.
#[derive(Debug)]
pub enum Action {
    /// Move the content staged by the lock of edit `index` to the reference
    /// `name`, replacing what is there.
    Persist { index: usize, name: Vec<u8>, content: Vec<u8> },
    /// Remove the reference `name` of edit `index` (an absent file counts as
    /// removed), then release its lock.
    Remove { index: usize, name: Vec<u8> },
}

/// The mathematical value of an [`Action`].
pub enum ActionView {
    Persist { index: int, name: Seq<u8>, content: Seq<u8> },
    Remove { index: int, name: Seq<u8> },
}

impl View for Action {
    type V = ActionView;

    open spec fn view(&self) -> ActionView {
        match self {
            Action::Persist { index, name, content } => ActionView::Persist {
                index: *index as int,
                name: name@,
                content: content@,
            },
            Action::Remove { index, name } => ActionView::Remove { index: *index as int, name: name@ },
        }
    }
}

/// The updates among the first `n` edits, each made visible, in order.
pub open spec fn update_actions(edits: Seq<EditView>, n: int) -> Seq<ActionView>
    decreases n,
{
    if n <= 0 {
        Seq::empty()
    } else {
        let before = update_actions(edits, n - 1);
        match edits[n - 1].update.change {
            ChangeView::Update { new, .. } => before.push(
                ActionView::Persist {
                    index: n - 1,
                    name: edits[n - 1].update.name,
                    content: encoded(new),
                },
            ),
            ChangeView::Delete { .. } => before,
        }
    }
}

/// The deletions among the first `n` edits, in order.
pub open spec fn delete_actions(edits: Seq<EditView>, n: int) -> Seq<ActionView>
    decreases n,
{
    if n <= 0 {
        Seq::empty()
    } else {
        let before = delete_actions(edits, n - 1);
        match edits[n - 1].update.change {
            ChangeView::Update { .. } => before,
            ChangeView::Delete { .. } => before.push(
                ActionView::Remove { index: n - 1, name: edits[n - 1].update.name },
            ),
        }
    }
}

/// Committing applies every update first and every deletion after, each
/// phase in the order of the edits.
pub open spec fn commit_actions(edits: Seq<EditView>) -> Seq<ActionView> {
    update_actions(edits, edits.len() as int) + delete_actions(edits, edits.len() as int)
}

pub open spec fn action_views(actions: Seq<Action>) -> Seq<ActionView> {
    actions.map_values(|a: Action| a@)
}

impl Transaction {
    /// Consumes a prepared transaction and gives the steps that make it
    /// visible, in the order they must be carried out, together with the
    /// realized edits in their original order.
    ///
    /// Every update comes before every deletion, so that an object reachable
    /// through an updated reference is never left unreferenced in between.
    pub fn commit(self) -> (r: (Vec<Action>, Vec<RefEdit>))
        requires
            self@.wf(),
            self@.state == State::Prepared,
        ensures
            action_views(r.0@) == commit_actions(self@.edits),
            r.1@.len() == self@.edits.len(),
            forall|i: int| 0 <= i < r.1@.len() ==> (#[trigger] r.1@[i])@ == self@.edits[i].update,
    {
        let edits = self.edits();
        let ghost ev = self@.edits;
        assert(edits@.len() == ev.len());
        let mut actions: Vec<Action> = Vec::new();
        let mut i: usize = 0;
        while i < edits.len()
            invariant
                edits@.map_values(|e: Edit| e@) == ev,
                self@.wf(),
                self@.edits == ev,
                self@.state == State::Prepared,
                i <= ev.len(),
                action_views(actions@) == update_actions(ev, i as int),
            decreases ev.len() - i,
        {
            assert(edits@[i as int]@ == ev[i as int]);
            let e = &edits[i];
            match &e.update.change {
                Change::Update { .. } => {
                    let content = match &e.lock {
                        Some(Lock::Staged(c)) => copy_bytes(c),
                        _ => {
                            proof {
                                assert(false);
                            }
                            Vec::new()
                        },
                    };
                    actions.push(
                        Action::Persist { index: i, name: copy_bytes(&e.update.name), content },
                    );
                },
                Change::Delete { .. } => {},
            }
            i = i + 1;
            proof {
                assert(action_views(actions@) =~= update_actions(ev, i as int));
            }
        }
        let ghost phase_one = action_views(actions@);
        let mut j: usize = 0;
        while j < edits.len()
            invariant
                edits@.map_values(|e: Edit| e@) == ev,
                self@.edits == ev,
                phase_one == update_actions(ev, ev.len() as int),
                j <= ev.len(),
                action_views(actions@) == phase_one + delete_actions(ev, j as int),
            decreases ev.len() - j,
        {
            assert(edits@[j as int]@ == ev[j as int]);
            let ghost before = action_views(actions@);
            let e = &edits[j];
            match &e.update.change {
                Change::Update { .. } => {},
                Change::Delete { .. } => {
                    actions.push(Action::Remove { index: j, name: copy_bytes(&e.update.name) });
                },
            }
            j = j + 1;
            proof {
                match ev[j - 1].update.change {
                    ChangeView::Update { .. } => {
                        assert(action_views(actions@) =~= before);
                    },
                    ChangeView::Delete { .. } => {
                        assert(action_views(actions@) =~= before.push(actions@.last()@));
                    },
                }
                assert(action_views(actions@) =~= phase_one + delete_actions(ev, j as int));
            }
        }
        (actions, self.into_edits())
    }
}

} // verus!
