use vstd::prelude::*;

use crate::commit::ActionView;
use crate::transaction::EditView;

verus! {

/// A reference store as a map from full names to file contents.
pub type StoreView = Map<Seq<u8>, Seq<u8>>;

/// The content stored under `name`, if any.
pub open spec fn lookup(store: StoreView, name: Seq<u8>) -> Option<Seq<u8>> {
    if store.contains_key(name) {
        Some(store[name])
    } else {
        None
    }
}

/// The content each edit finds for its reference in `store`.
pub open spec fn read_all(store: StoreView, edits: Seq<EditView>) -> Seq<Option<Seq<u8>>> {
    edits.map_values(|e: EditView| lookup(store, e.update.name))
}

/// The reference that an action changes.
pub open spec fn action_name(a: ActionView) -> Seq<u8> {
    match a {
        ActionView::Persist { name, .. } => name,
        ActionView::Remove { name, .. } => name,
    }
}

/// The edit that an action carries out.
pub open spec fn action_index(a: ActionView) -> int {
    match a {
        ActionView::Persist { index, .. } => index,
        ActionView::Remove { index, .. } => index,
    }
}

/// The store after one action.
pub open spec fn apply_action(store: StoreView, a: ActionView) -> StoreView {
    match a {
        ActionView::Persist { name, content, .. } => store.insert(name, content),
        ActionView::Remove { name, .. } => store.remove(name),
    }
}

/// The store after a sequence of actions, carried out in order.
pub open spec fn apply_actions(store: StoreView, acts: Seq<ActionView>) -> StoreView
    decreases acts.len(),
{
    if acts.len() == 0 {
        store
    } else {
        apply_action(apply_actions(store, acts.drop_last()), acts.last())
    }
}

/// A reference that no action names keeps its content.
pub proof fn lemma_untouched(store: StoreView, acts: Seq<ActionView>, key: Seq<u8>)
    requires
        forall|j: int| 0 <= j < acts.len() ==> action_name(#[trigger] acts[j]) != key,
    ensures
        lookup(apply_actions(store, acts), key) == lookup(store, key),
    decreases acts.len(),
{
    if acts.len() > 0 {
        let init = acts.drop_last();
        assert forall|j: int| 0 <= j < init.len() implies action_name(#[trigger] init[j]) != key by {
            assert(init[j] == acts[j]);
        }
        lemma_untouched(store, init, key);
        assert(action_name(acts[acts.len() - 1]) != key);
    }
}

/// After the last action that names a reference, the reference holds what
/// that action left there.
pub proof fn lemma_last_action(store: StoreView, acts: Seq<ActionView>, key: Seq<u8>, p: int)
    requires
        0 <= p < acts.len(),
        action_name(acts[p]) == key,
        forall|j: int| p < j < acts.len() ==> action_name(#[trigger] acts[j]) != key,
    ensures
        lookup(apply_actions(store, acts), key) == match acts[p] {
            ActionView::Persist { content, .. } => Some(content),
            ActionView::Remove { .. } => None::<Seq<u8>>,
        },
    decreases acts.len(),
{
    let init = acts.drop_last();
    if p == acts.len() - 1 {
    } else {
        assert forall|j: int| p < j < init.len() implies action_name(#[trigger] init[j]) != key by {
            assert(init[j] == acts[j]);
        }
        assert(init[p] == acts[p]);
        lemma_last_action(store, init, key, p);
        assert(action_name(acts[acts.len() - 1]) != key);
    }
}

} // verus!
