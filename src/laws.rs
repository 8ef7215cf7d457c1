use vstd::prelude::*;

use crate::commit::{commit_actions, delete_actions, update_actions, ActionView};
use crate::store::{
    action_index, action_name, apply_actions, lemma_last_action, lemma_untouched, lookup,
    read_all, StoreView,
};
use crate::target::{encoded, ChangeView, RefEditView};
use crate::transaction::{
    all_pass, checked_edit, existing_target, lemma_checked_holds_lock, names_of, names_unique,
    passes, prepared_edit, EditView, LockView, Rejection,
};
use crate::target::decoded;

verus! {

/// Every action of the update phase over the first `n` edits persists the
/// encoding of an update's new target under its name, in increasing edit
/// order, and every such update has its action.
proof fn lemma_update_phase(edits: Seq<EditView>, n: int)
    requires
        0 <= n <= edits.len(),
    ensures
        forall|j: int|
            0 <= j < update_actions(edits, n).len() ==> {
                let a = #[trigger] update_actions(edits, n)[j];
                let i = action_index(a);
                &&& 0 <= i < n
                &&& edits[i].update.change is Update
                &&& a == ActionView::Persist {
                    index: i,
                    name: edits[i].update.name,
                    content: encoded(edits[i].update.change->Update_new),
                }
            },
        forall|j: int, k: int|
            0 <= j < k < update_actions(edits, n).len() ==> action_index(
                #[trigger] update_actions(edits, n)[j],
            ) < action_index(#[trigger] update_actions(edits, n)[k]),
        forall|i: int|
            0 <= i < n && (#[trigger] edits[i]).update.change is Update ==> exists|j: int|
                0 <= j < update_actions(edits, n).len() && action_index(
                    #[trigger] update_actions(edits, n)[j],
                ) == i,
    decreases n,
{
    if n > 0 {
        lemma_update_phase(edits, n - 1);
        let before = update_actions(edits, n - 1);
        let acts = update_actions(edits, n);
        if edits[n - 1].update.change is Update {
            assert(acts == before.push(acts.last()));
            assert forall|i: int|
                0 <= i < n && (#[trigger] edits[i]).update.change is Update implies exists|j: int|
                    0 <= j < acts.len() && action_index(#[trigger] acts[j]) == i by {
                if i == n - 1 {
                    assert(action_index(acts[acts.len() - 1]) == i);
                } else {
                    let j = choose|j: int| 0 <= j < before.len() && action_index(#[trigger] before[j]) == i;
                    assert(acts[j] == before[j]);
                }
            }
            assert forall|j: int| 0 <= j < acts.len() - 1 implies acts[j] == before[j] by {}
        } else {
            assert(acts == before);
        }
    }
}

/// Every action of the delete phase over the first `n` edits removes the
/// reference of a deletion, in increasing edit order, and every such deletion
/// has its action.
proof fn lemma_delete_phase(edits: Seq<EditView>, n: int)
    requires
        0 <= n <= edits.len(),
    ensures
        forall|j: int|
            0 <= j < delete_actions(edits, n).len() ==> {
                let a = #[trigger] delete_actions(edits, n)[j];
                let i = action_index(a);
                &&& 0 <= i < n
                &&& edits[i].update.change is Delete
                &&& a == ActionView::Remove { index: i, name: edits[i].update.name }
            },
        forall|j: int, k: int|
            0 <= j < k < delete_actions(edits, n).len() ==> action_index(
                #[trigger] delete_actions(edits, n)[j],
            ) < action_index(#[trigger] delete_actions(edits, n)[k]),
        forall|i: int|
            0 <= i < n && (#[trigger] edits[i]).update.change is Delete ==> exists|j: int|
                0 <= j < delete_actions(edits, n).len() && action_index(
                    #[trigger] delete_actions(edits, n)[j],
                ) == i,
    decreases n,
{
    if n > 0 {
        lemma_delete_phase(edits, n - 1);
        let before = delete_actions(edits, n - 1);
        let acts = delete_actions(edits, n);
        if edits[n - 1].update.change is Delete {
            assert(acts == before.push(acts.last()));
            assert forall|i: int|
                0 <= i < n && (#[trigger] edits[i]).update.change is Delete implies exists|j: int|
                    0 <= j < acts.len() && action_index(#[trigger] acts[j]) == i by {
                if i == n - 1 {
                    assert(action_index(acts[acts.len() - 1]) == i);
                } else {
                    let j = choose|j: int| 0 <= j < before.len() && action_index(#[trigger] before[j]) == i;
                    assert(acts[j] == before[j]);
                }
            }
            assert forall|j: int| 0 <= j < acts.len() - 1 implies acts[j] == before[j] by {}
        } else {
            assert(acts == before);
        }
    }
}

/// In a batch that names each reference once, the edit at `i` has exactly
/// one action among all the commit actions: in the update phase for an
/// update, in the delete phase for a deletion.
proof fn lemma_single_action(edits: Seq<EditView>, i: int) -> (q: int)
    requires
        names_unique(names_of(edits)),
        0 <= i < edits.len(),
    ensures
        0 <= q < commit_actions(edits).len(),
        action_index(commit_actions(edits)[q]) == i,
        action_name(commit_actions(edits)[q]) == edits[i].update.name,
        (q < update_actions(edits, edits.len() as int).len()) == edits[i].update.change is Update,
        commit_actions(edits)[q] == (match edits[i].update.change {
            ChangeView::Update { new, .. } => ActionView::Persist {
                index: i,
                name: edits[i].update.name,
                content: encoded(new),
            },
            ChangeView::Delete { .. } => ActionView::Remove { index: i, name: edits[i].update.name },
        }),
        forall|r: int|
            0 <= r < commit_actions(edits).len() && action_name(#[trigger] commit_actions(edits)[r])
                == edits[i].update.name ==> r == q,
{
    let n = edits.len() as int;
    let u = update_actions(edits, n);
    let d = delete_actions(edits, n);
    let acts = commit_actions(edits);
    lemma_update_phase(edits, n);
    lemma_delete_phase(edits, n);
    assert(acts == u + d);
    let names = names_of(edits);
    assert(names[i] == edits[i].update.name);
    let q = if edits[i].update.change is Update {
        let j = choose|j: int| 0 <= j < u.len() && action_index(#[trigger] u[j]) == i;
        assert(acts[j] == u[j]);
        j
    } else {
        let j = choose|j: int| 0 <= j < d.len() && action_index(#[trigger] d[j]) == i;
        assert(acts[u.len() + j] == d[j]);
        u.len() + j
    };
    assert forall|r: int|
        0 <= r < acts.len() && action_name(#[trigger] acts[r]) == edits[i].update.name implies r
        == q by {
        if r < u.len() {
            assert(acts[r] == u[r]);
            let idx = action_index(u[r]);
            assert(names[idx] == edits[idx].update.name);
            assert(idx == i);
            if q < u.len() {
                if r < q {
                    assert(action_index(u[r]) < action_index(u[q]));
                } else if q < r {
                    assert(action_index(u[q]) < action_index(u[r]));
                }
            }
        } else {
            let rr = r - u.len();
            assert(acts[r] == d[rr]);
            let idx = action_index(d[rr]);
            assert(names[idx] == edits[idx].update.name);
            assert(idx == i);
            if q >= u.len() {
                let qq = q - u.len();
                assert(acts[q] == d[qq]);
                if rr < qq {
                    assert(action_index(d[rr]) < action_index(d[qq]));
                } else if qq < rr {
                    assert(action_index(d[qq]) < action_index(d[rr]));
                }
            }
        }
    }
    q
}

/// What the caller expects of a reference holds in `store`: its content, if
/// any, is well formed, and a previous value it names is the one stored.
pub open spec fn expectation_met(e: RefEditView, store: StoreView) -> bool {
    let ex = lookup(store, e.name);
    &&& (ex matches Some(buf) ==> decoded(buf) is Some)
    &&& (e.change.previous() is Some ==> existing_target(ex) == e.change.previous())
}

/// The edits as prepared against the contents `existing`.
pub open spec fn prepared_edits(edits: Seq<EditView>, existing: Seq<Option<Seq<u8>>>) -> Seq<
    EditView,
> {
    Seq::new(edits.len(), |i: int| prepared_edit(edits[i], existing[i]))
}

/// What a reference holds once an edit of it is applied.
pub open spec fn requested_content(e: RefEditView) -> Option<Seq<u8>> {
    match e.change {
        ChangeView::Update { new, .. } => Some(encoded(new)),
        ChangeView::Delete { .. } => None,
    }
}

/// The store after a batch, prepared against `store`, is committed.
pub open spec fn committed_store(store: StoreView, edits: Seq<EditView>) -> StoreView {
    apply_actions(store, commit_actions(prepared_edits(edits, read_all(store, edits))))
}

proof fn lemma_prepared_names(edits: Seq<EditView>, existing: Seq<Option<Seq<u8>>>)
    requires
        existing.len() == edits.len(),
        all_pass(edits, existing),
    ensures
        names_of(prepared_edits(edits, existing)) == names_of(edits),
        forall|i: int|
            0 <= i < edits.len() ==> requested_content(
                (#[trigger] prepared_edits(edits, existing)[i]).update,
            ) == requested_content(edits[i].update),
{
    let p = prepared_edits(edits, existing);
    assert forall|i: int| 0 <= i < edits.len() implies names_of(p)[i] == names_of(edits)[i]
        && requested_content((#[trigger] p[i]).update) == requested_content(edits[i].update) by {
        assert(passes(edits, existing, i));
        lemma_checked_holds_lock(edits[i], existing[i]);
    }
    assert(names_of(p) =~= names_of(edits));
}

/// A batch that names each reference once, and whose expectations all hold
/// in the store, passes every check; once committed, each named reference
/// holds exactly what its edit asked for and every other one is unchanged.
pub proof fn lemma_commit_realizes_request(store: StoreView, edits: Seq<EditView>)
    requires
        names_unique(names_of(edits)),
        forall|i: int| 0 <= i < edits.len() ==> expectation_met((#[trigger] edits[i]).update, store),
    ensures
        all_pass(edits, read_all(store, edits)),
        forall|i: int|
            0 <= i < edits.len() ==> lookup(committed_store(store, edits), (#[trigger] edits[i]).update.name)
                == requested_content(edits[i].update),
        forall|key: Seq<u8>|
            (forall|i: int| 0 <= i < edits.len() ==> (#[trigger] edits[i]).update.name != key)
                ==> lookup(#[trigger] committed_store(store, edits), key) == lookup(store, key),
{
    let ex = read_all(store, edits);
    assert forall|i: int| 0 <= i < edits.len() implies passes(edits, ex, i) by {
        assert(expectation_met(edits[i].update, store));
        assert(ex[i] == lookup(store, edits[i].update.name));
    }
    let p = prepared_edits(edits, ex);
    lemma_prepared_names(edits, ex);
    let acts = commit_actions(p);
    assert forall|i: int| 0 <= i < edits.len() implies lookup(
        committed_store(store, edits),
        (#[trigger] edits[i]).update.name,
    ) == requested_content(edits[i].update) by {
        assert(names_of(p)[i] == names_of(edits)[i]);
        let q = lemma_single_action(p, i);
        lemma_last_action(store, acts, p[i].update.name, q);
        assert(requested_content(p[i].update) == requested_content(edits[i].update));
    }
    assert forall|key: Seq<u8>|
        (forall|i: int| 0 <= i < edits.len() ==> (#[trigger] edits[i]).update.name != key)
            implies lookup(#[trigger] committed_store(store, edits), key) == lookup(store, key) by {
        lemma_update_phase(p, p.len() as int);
        lemma_delete_phase(p, p.len() as int);
        let u = update_actions(p, p.len() as int);
        let d = delete_actions(p, p.len() as int);
        assert(acts == u + d);
        assert forall|j: int| 0 <= j < acts.len() implies action_name(#[trigger] acts[j]) != key by {
            if j < u.len() {
                assert(acts[j] == u[j]);
                let idx = action_index(u[j]);
                assert(names_of(p)[idx] == names_of(edits)[idx]);
                assert(edits[idx].update.name != key);
            } else {
                assert(acts[j] == d[j - u.len()]);
                let idx = action_index(d[j - u.len()]);
                assert(names_of(p)[idx] == names_of(edits)[idx]);
                assert(edits[idx].update.name != key);
            }
        }
        lemma_untouched(store, acts, key);
    }
}

/// Committing never leaves an object unreferenced in between: where an
/// update stores at its reference the very content that a deletion removes
/// from another, some reference holds that content after every prefix of the
/// commit actions.
pub proof fn lemma_updates_land_before_deletes(
    store: StoreView,
    edits: Seq<EditView>,
    a: int,
    b: int,
    k: int,
)
    requires
        names_unique(names_of(edits)),
        0 <= a < edits.len(),
        0 <= b < edits.len(),
        edits[a].update.change is Update,
        edits[b].update.change is Delete,
        store.contains_key(edits[b].update.name),
        requested_content(edits[a].update) == Some(store[edits[b].update.name]),
        0 <= k <= commit_actions(edits).len(),
    ensures
        exists|key: Seq<u8>|
            lookup(apply_actions(store, commit_actions(edits).take(k)), key) == Some(
                store[edits[b].update.name],
            ),
{
    let acts = commit_actions(edits);
    let t = acts.take(k);
    let qa = lemma_single_action(edits, a);
    let qb = lemma_single_action(edits, b);
    let name_a = edits[a].update.name;
    let name_b = edits[b].update.name;
    if k <= qb {
        assert forall|j: int| 0 <= j < t.len() implies action_name(#[trigger] t[j]) != name_b by {
            assert(t[j] == acts[j]);
        }
        lemma_untouched(store, t, name_b);
        assert(lookup(apply_actions(store, t), name_b) == Some(store[name_b]));
    } else {
        assert(t[qa] == acts[qa]);
        assert forall|j: int| qa < j < t.len() implies action_name(#[trigger] t[j]) != name_a by {
            assert(t[j] == acts[j]);
        }
        lemma_last_action(store, t, name_a, qa);
        assert(lookup(apply_actions(store, t), name_a) == Some(store[name_b]));
    }
}

/// Deleting a reference that does not exist, without naming a previous
/// value, passes its check with a marker lock, and its removal leaves the
/// store as it was.
pub proof fn lemma_delete_absent_is_noop(store: StoreView, e: RefEditView, index: int)
    requires
        e.change is Delete,
        e.change.previous() is None,
        !store.contains_key(e.name),
    ensures
        checked_edit(e, lookup(store, e.name)) == Ok::<(RefEditView, LockView), Rejection>(
            (e, LockView::Marker),
        ),
        apply_actions(store, seq![ActionView::Remove { index, name: e.name }]) == store,
{
    let acts = seq![ActionView::Remove { index, name: e.name }];
    assert(acts.drop_last() =~= Seq::<ActionView>::empty());
    assert(apply_actions(store, acts.drop_last()) == store);
    assert(acts.last() == ActionView::Remove { index, name: e.name });
    assert(store.remove(e.name) =~= store);
}

} // verus!
