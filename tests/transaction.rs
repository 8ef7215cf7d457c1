use std::collections::BTreeMap;

use git_ref_tx::commit::Action;
use git_ref_tx::transaction::{Error, Fail, State, Transaction};
use git_ref_tx::{Change, RefEdit, RefLog, Target};

type Store = BTreeMap<Vec<u8>, Vec<u8>>;

fn update(name: &str, previous: Option<Target>, new: Target) -> RefEdit {
    RefEdit {
        change: Change::Update { previous, new, mode: RefLog::AndReference },
        name: name.as_bytes().to_vec(),
    }
}

fn delete(name: &str, previous: Option<Target>) -> RefEdit {
    RefEdit {
        change: Change::Delete { previous, mode: RefLog::AndReference },
        name: name.as_bytes().to_vec(),
    }
}

fn oid(byte: u8) -> Vec<u8> {
    vec![byte; 20]
}

fn read_all(store: &Store, edits: &[RefEdit]) -> Vec<Option<Vec<u8>>> {
    edits.iter().map(|e| store.get(&e.name).cloned()).collect()
}

fn prepare(store: &Store, edits: Vec<RefEdit>) -> Result<Transaction, Error> {
    let existing = read_all(store, &edits);
    Transaction::new(edits, Fail::Immediately).prepare(&existing)
}

/// Carries out the actions on the store and records every intermediate state.
fn apply(store: &mut Store, actions: &[Action]) -> Vec<Store> {
    let mut states = vec![store.clone()];
    for action in actions {
        match action {
            Action::Persist { name, content, .. } => {
                store.insert(name.clone(), content.clone());
            }
            Action::Remove { name, .. } => {
                store.remove(name);
            }
        }
        states.push(store.clone());
    }
    states
}

fn run(store: &mut Store, edits: Vec<RefEdit>) -> Result<Vec<RefEdit>, Error> {
    let prepared = prepare(store, edits)?;
    let (actions, realized) = prepared.commit();
    apply(store, &actions);
    Ok(realized)
}

#[test]
fn update_on_empty_store_writes_raw_object_id() {
    let mut store = Store::new();
    let realized = run(&mut store, vec![update("refs/heads/main", None, Target::Peeled(oid(0xab)))]).unwrap();
    assert_eq!(store.get(b"refs/heads/main".as_slice()), Some(&oid(0xab)));
    assert_eq!(realized.len(), 1);
    match &realized[0].change {
        Change::Update { previous, .. } => assert!(previous.is_none()),
        Change::Delete { .. } => panic!("expected an update"),
    }
}

#[test]
fn delete_with_mismatched_previous_fails_and_keeps_file() {
    let mut store = Store::new();
    store.insert(b"refs/heads/stale".to_vec(), oid(0x22));
    let before = store.clone();
    let err = prepare(&store, vec![delete("refs/heads/stale", Some(Target::Peeled(oid(0x11))))]).unwrap_err();
    match err {
        Error::ReferenceOutOfDate(name) => assert_eq!(name, b"refs/heads/stale".to_vec()),
        other => panic!("unexpected error {:?}", other),
    }
    assert_eq!(store, before);
}

#[test]
fn symbolic_update_writes_ref_prefix() {
    let mut store = Store::new();
    run(&mut store, vec![update("refs/heads/main", None, Target::Symbolic(b"refs/heads/dev".to_vec()))]).unwrap();
    assert_eq!(store.get(b"refs/heads/main".as_slice()), Some(&b"ref: refs/heads/dev".to_vec()));
}

#[test]
fn duplicate_names_are_rejected_with_first_name() {
    let store = Store::new();
    let err = prepare(
        &store,
        vec![
            update("refs/heads/b", None, Target::Peeled(oid(1))),
            update("refs/heads/a", None, Target::Peeled(oid(2))),
            delete("refs/heads/a", None),
            delete("refs/heads/b", None),
        ],
    )
    .unwrap_err();
    match err {
        Error::DuplicateRefEdits { first_name } => assert_eq!(first_name, b"refs/heads/b".to_vec()),
        other => panic!("unexpected error {:?}", other),
    }
}

#[test]
fn deleting_absent_reference_is_a_no_op() {
    let mut store = Store::new();
    store.insert(b"refs/heads/other".to_vec(), oid(3));
    let before = store.clone();
    let realized = run(&mut store, vec![delete("refs/heads/gone", None)]).unwrap();
    assert_eq!(store, before);
    assert_eq!(realized.len(), 1);
}

#[test]
fn deleting_existing_reference_without_previous_removes_it() {
    let mut store = Store::new();
    store.insert(b"refs/heads/x".to_vec(), oid(4));
    run(&mut store, vec![delete("refs/heads/x", None)]).unwrap();
    assert!(store.is_empty());
}

#[test]
fn updates_land_before_deletes() {
    let mut store = Store::new();
    store.insert(b"refs/heads/b".to_vec(), oid(7));
    let edits = vec![
        delete("refs/heads/b", Some(Target::Peeled(oid(7)))),
        update("refs/heads/a", None, Target::Peeled(oid(7))),
    ];
    let prepared = prepare(&store, edits).unwrap();
    let (actions, realized) = prepared.commit();
    assert!(matches!(actions[0], Action::Persist { index: 1, .. }));
    assert!(matches!(actions[1], Action::Remove { index: 0, .. }));
    for state in apply(&mut store, &actions) {
        assert!(state.values().any(|v| *v == oid(7)));
    }
    assert_eq!(realized[0].name, b"refs/heads/b".to_vec());
    assert_eq!(realized[1].name, b"refs/heads/a".to_vec());
}

#[test]
fn failed_prepare_leaves_store_unchanged() {
    let mut store = Store::new();
    store.insert(b"refs/heads/a".to_vec(), oid(1));
    let before = store.clone();
    let err = prepare(
        &store,
        vec![update("refs/heads/a", None, Target::Peeled(oid(2))), delete("refs/heads/missing", Some(Target::Peeled(oid(9))))],
    )
    .unwrap_err();
    assert!(matches!(err, Error::DeletionReferenceMustExist(ref n) if n == b"refs/heads/missing"));
    assert_eq!(store, before);
}

#[test]
fn malformed_content_is_a_decode_error() {
    let mut store = Store::new();
    store.insert(b"refs/heads/bad".to_vec(), Vec::new());
    let err = prepare(&store, vec![delete("refs/heads/bad", None)]).unwrap_err();
    assert!(matches!(err, Error::ReferenceDecode(ref n) if n == b"refs/heads/bad"));
}

#[test]
fn update_records_overwritten_value() {
    let mut store = Store::new();
    store.insert(b"refs/heads/main".to_vec(), b"ref: refs/heads/dev".to_vec());
    let realized = run(&mut store, vec![update("refs/heads/main", None, Target::Peeled(oid(5)))]).unwrap();
    match &realized[0].change {
        Change::Update { previous: Some(Target::Symbolic(name)), .. } => assert_eq!(name, &b"refs/heads/dev".to_vec()),
        other => panic!("unexpected change {:?}", other),
    }
    assert_eq!(store.get(b"refs/heads/main".as_slice()), Some(&oid(5)));
}

#[test]
fn update_with_matching_previous_succeeds() {
    let mut store = Store::new();
    store.insert(b"refs/heads/main".to_vec(), oid(1));
    run(&mut store, vec![update("refs/heads/main", Some(Target::Peeled(oid(1))), Target::Peeled(oid(2)))]).unwrap();
    assert_eq!(store.get(b"refs/heads/main".as_slice()), Some(&oid(2)));
}

#[test]
fn update_with_stale_previous_is_out_of_date() {
    let mut store = Store::new();
    store.insert(b"refs/heads/main".to_vec(), oid(1));
    let err = prepare(&store, vec![update("refs/heads/main", Some(Target::Peeled(oid(9))), Target::Peeled(oid(2)))]).unwrap_err();
    assert!(matches!(err, Error::ReferenceOutOfDate(_)));
    let err = prepare(&Store::new(), vec![update("refs/heads/new", Some(Target::Peeled(oid(9))), Target::Peeled(oid(2)))]).unwrap_err();
    assert!(matches!(err, Error::ReferenceOutOfDate(_)));
}

#[test]
fn prepare_is_idempotent() {
    let store = Store::new();
    let tx = prepare(&store, vec![update("refs/heads/main", None, Target::Peeled(oid(1)))]).unwrap();
    assert_eq!(tx.state(), State::Prepared);
    let again = tx.prepare(&Vec::new()).unwrap();
    assert_eq!(again.state(), State::Prepared);
    assert!(again.edits()[0].lock.is_some());
}

#[test]
fn new_transaction_is_open_and_unlocked() {
    let tx = Transaction::new(vec![delete("refs/heads/x", None)], Fail::AfterDurationWithBackoff { millis: 100 });
    assert_eq!(tx.state(), State::Open);
    assert_eq!(tx.lock_fail_mode(), Fail::AfterDurationWithBackoff { millis: 100 });
    assert!(tx.edits()[0].lock.is_none());
    let edits = tx.into_edits();
    assert_eq!(edits[0].name, b"refs/heads/x".to_vec());
}
