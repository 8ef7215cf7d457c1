use vstd::prelude::*;

use crate::bytes::{bytes_equal, copy_bytes};
use crate::target::{
    decoded, encoded, view_target_opt, Change, ChangeView, RefEdit, RefEditView, Target,
    TargetView,
};

verus! {

/// Why a transaction could not be prepared or committed.
#[derive(Debug)]
pub enum Error {
    /// Two edits name the same reference; `first_name` is the first of them.
    DuplicateRefEdits { first_name: Vec<u8> },
    /// The lock of the named reference could not be obtained.
    LockAcquire { full_name: Vec<u8>, message: String },
    /// Reading, staging, applying or removing a reference failed.
    Io { message: String },
    /// A deletion expected a value, but the reference does not exist.
    DeletionReferenceMustExist(Vec<u8>),
    /// The named reference's current content is malformed.
    ReferenceDecode(Vec<u8>),
    /// The named reference does not hold the value the edit expected.
    ReferenceOutOfDate(Vec<u8>),
}

/// The errors that the transaction's own checks produce, without the name.
#[derive(Debug, Clone, Copy, PartialEq, Eq, Structural)]
pub enum Rejection {
    Duplicate,
    MustExist,
    Decode,
    OutOfDate,
}

impl Error {
    /// This error is the rejection `kind` for the reference called `name`.
    pub open spec fn rejects(self, kind: Rejection, name: Seq<u8>) -> bool {
        match kind {
            Rejection::Duplicate => self is DuplicateRefEdits && self->first_name@ == name,
            Rejection::MustExist => self is DeletionReferenceMustExist
                && self->DeletionReferenceMustExist_0@ == name,
            Rejection::Decode => self is ReferenceDecode && self->ReferenceDecode_0@ == name,
            Rejection::OutOfDate => self is ReferenceOutOfDate && self->ReferenceOutOfDate_0@
                == name,
        }
    }
}

/// What to do when a lock is already held elsewhere.
#[derive(Debug, Clone, Copy, PartialEq, Eq, Structural)]
pub enum Fail {
    /// Fail after the first attempt.
    Immediately,
    /// Retry with growing pauses, and fail once this many milliseconds passed.
    AfterDurationWithBackoff { millis: u64 },
}

/// The kind of lock an edit needs.
#[derive(Debug, Clone, Copy, PartialEq, Eq, Structural)]
pub enum LockKind {
    /// An exclusive hold without content, for a deletion.
    Marker,
    /// An exclusive hold that stages new content, for an update.
    Writer,
}

/// A held lock: a marker, or a writer lock with the content it staged.
#[derive(Debug)]
pub enum Lock {
    Marker,
    Staged(Vec<u8>),
}

/// The mathematical value of a [`Lock`].
pub enum LockView {
    Marker,
    Staged(Seq<u8>),
}

impl View for Lock {
    type V = LockView;

    open spec fn view(&self) -> LockView {
        match self {
            Lock::Marker => LockView::Marker,
            Lock::Staged(content) => LockView::Staged(content@),
        }
    }
}

/// One requested change, with the lock it holds once prepared.
#[derive(Debug)]
pub struct Edit {
    pub update: RefEdit,
    pub lock: Option<Lock>,
    /// The index of the edit this one was derived from by following a
    /// symbolic reference.
    pub parent_index: Option<usize>,
}

/// The mathematical value of an [`Edit`].
pub struct EditView {
    pub update: RefEditView,
    pub lock: Option<LockView>,
    pub parent_index: Option<usize>,
}

impl View for Edit {
    type V = EditView;

    open spec fn view(&self) -> EditView {
        EditView {
            update: self.update@,
            lock: match self.lock {
                Some(l) => Some(l@),
                None => None,
            },
            parent_index: self.parent_index,
        }
    }
}

/// The lock that a change needs: a marker for a deletion, a writer for an
/// update.
pub open spec fn lock_kind_of(c: ChangeView) -> LockKind {
    match c {
        ChangeView::Update { .. } => LockKind::Writer,
        ChangeView::Delete { .. } => LockKind::Marker,
    }
}

/// The target that `existing` content reads back as, where it is present.
pub open spec fn existing_target(existing: Option<Seq<u8>>) -> Option<TargetView> {
    match existing {
        Some(buf) => decoded(buf),
        None => None,
    }
}

/// What checking one edit against the content found under its lock gives:
/// the realized edit and the lock's content, or why it is rejected.
///
/// Malformed content is always rejected. A deletion that names a previous
/// value needs the reference to exist with exactly that value. An update that
/// names a previous value needs the reference to hold exactly it; one that
/// names none records what it overwrites. An update stages the encoding of
/// its new target.
pub open spec fn checked_edit(e: RefEditView, existing: Option<Seq<u8>>) -> Result<
    (RefEditView, LockView),
    Rejection,
> {
    if existing is Some && decoded(existing->Some_0) is None {
        Err(Rejection::Decode)
    } else {
        let ex = existing_target(existing);
        match e.change {
            ChangeView::Delete { previous, mode } => match previous {
                None => Ok((e, LockView::Marker)),
                Some(p) => match ex {
                    None => Err(Rejection::MustExist),
                    Some(x) => if x == p {
                        Ok((e, LockView::Marker))
                    } else {
                        Err(Rejection::OutOfDate)
                    },
                },
            },
            ChangeView::Update { previous, new, mode } => match previous {
                None => Ok(
                    (
                        RefEditView {
                            change: ChangeView::Update { previous: ex, new, mode },
                            name: e.name,
                        },
                        LockView::Staged(encoded(new)),
                    ),
                ),
                Some(p) => if ex == Some(p) {
                    Ok((e, LockView::Staged(encoded(new))))
                } else {
                    Err(Rejection::OutOfDate)
                },
            },
        }
    }
}

impl Edit {
    /// The kind of lock this edit needs before its reference is read.
    pub fn lock_kind(&self) -> (r: LockKind)
        ensures
            r == lock_kind_of(self.update.change@),
    {
        match &self.update.change {
            Change::Update { .. } => LockKind::Writer,
            Change::Delete { .. } => LockKind::Marker,
        }
    }
}

/// The view of optional bytes.
pub open spec fn view_bytes_opt(b: Option<Vec<u8>>) -> Option<Seq<u8>> {
    match b {
        Some(v) => Some(v@),
        None => None,
    }
}

} // verus!

verus! {

/// The names of the references that `edits` change, in order.
pub open spec fn names_of(edits: Seq<EditView>) -> Seq<Seq<u8>> {
    edits.map_values(|e: EditView| e.update.name)
}

/// The names of the references that the edits of a vector change, in order.
pub open spec fn edit_names(edits: Seq<Edit>) -> Seq<Seq<u8>> {
    edits.map_values(|e: Edit| e.update.name@)
}

/// Whether every name occurs once.
pub open spec fn names_unique(names: Seq<Seq<u8>>) -> bool {
    forall|i: int, j: int| 0 <= i < j < names.len() ==> names[i] != names[j]
}

/// Whether `names[i]` occurs again later.
pub open spec fn repeated_later(names: Seq<Seq<u8>>, i: int) -> bool {
    exists|j: int| i < j < names.len() && names[j] == names[i]
}

/// Whether `i` is the first position whose name occurs again later.
pub open spec fn is_first_duplicate(names: Seq<Seq<u8>>, i: int) -> bool {
    &&& 0 <= i < names.len()
    &&& repeated_later(names, i)
    &&& forall|k: int| 0 <= k < i ==> !repeated_later(names, k)
}

/// The name of the first edit whose reference another, later edit names too,
/// or `None` where every reference is named once.
pub fn first_duplicate_name(edits: &Vec<Edit>) -> (r: Option<Vec<u8>>)
    ensures
        r is None <==> names_unique(edit_names(edits@)),
        r matches Some(n) ==> exists|i: int|
            is_first_duplicate(edit_names(edits@), i) && #[trigger] edit_names(edits@)[i] == n@,
{
    let ghost names = edit_names(edits@);
    let mut i: usize = 0;
    while i < edits.len()
        invariant
            names == edit_names(edits@),
            names.len() == edits@.len(),
            forall|k: int| 0 <= k < names.len() ==> names[k] == #[trigger] edits@[k].update.name@,
            i <= edits@.len(),
            forall|k: int| 0 <= k < i ==> !repeated_later(names, k),
        decreases edits@.len() - i,
    {
        let mut j: usize = i + 1;
        while j < edits.len()
            invariant
                names.len() == edits@.len(),
                forall|k: int| 0 <= k < names.len() ==> names[k] == #[trigger] edits@[k].update.name@,
                i < edits@.len(),
                i + 1 <= j <= edits@.len(),
                names == edit_names(edits@),
                forall|k: int| 0 <= k < i ==> !repeated_later(names, k),
                forall|m: int| i < m < j ==> names[m] != names[i as int],
            decreases edits@.len() - j,
        {
            if bytes_equal(edits[i].update.name.as_slice(), edits[j].update.name.as_slice()) {
                proof {
                    assert(repeated_later(names, i as int));
                    assert(is_first_duplicate(names, i as int));
                    assert(!names_unique(names));
                }
                return Some(copy_bytes(&edits[i].update.name));
            }
            j = j + 1;
        }
        i = i + 1;
    }
    proof {
        assert forall|a: int, b: int| 0 <= a < b < names.len() implies names[a] != names[b] by {
            assert(!repeated_later(names, a));
        }
    }
    None
}

} // verus!

verus! {

/// Where a transaction is in its life.
#[derive(Debug, Clone, Copy, PartialEq, Eq, Structural)]
pub enum State {
    /// Nothing is locked yet.
    Open,
    /// Every edit is checked and holds its lock.
    Prepared,
}

/// A batch of reference edits that is applied as a whole or not at all.
///
/// The transaction owns every edit and every lock; dropping it releases the
/// locks without making anything visible.
#[derive(Debug)]
pub struct Transaction {
    updates: Vec<Edit>,
    state: State,
    lock_fail_mode: Fail,
}

/// The mathematical value of a [`Transaction`].
pub struct TransactionView {
    pub edits: Seq<EditView>,
    pub state: State,
    pub lock_fail_mode: Fail,
}

impl View for Transaction {
    type V = TransactionView;

    closed spec fn view(&self) -> TransactionView {
        TransactionView {
            edits: self.updates@.map_values(|e: Edit| e@),
            state: self.state,
            lock_fail_mode: self.lock_fail_mode,
        }
    }
}

/// The views of contents read for each edit.
pub open spec fn contents_view(existing: Seq<Option<Vec<u8>>>) -> Seq<Option<Seq<u8>>> {
    existing.map_values(|b: Option<Vec<u8>>| view_bytes_opt(b))
}

/// Whether edit `i` passes its check against `existing[i]`.
pub open spec fn passes(edits: Seq<EditView>, existing: Seq<Option<Seq<u8>>>, i: int) -> bool {
    checked_edit(edits[i].update, existing[i]) is Ok
}

/// Whether every edit passes its check.
pub open spec fn all_pass(edits: Seq<EditView>, existing: Seq<Option<Seq<u8>>>) -> bool {
    forall|i: int| 0 <= i < edits.len() ==> passes(edits, existing, i)
}

/// Whether `i` is the first edit that fails its check.
pub open spec fn is_first_rejected(
    edits: Seq<EditView>,
    existing: Seq<Option<Seq<u8>>>,
    i: int,
) -> bool {
    &&& 0 <= i < edits.len()
    &&& !passes(edits, existing, i)
    &&& forall|k: int| 0 <= k < i ==> passes(edits, existing, k)
}

/// The edit `e` after passing its check against `existing`, holding its lock.
pub open spec fn prepared_edit(e: EditView, existing: Option<Seq<u8>>) -> EditView {
    let (u, l) = checked_edit(e.update, existing)->Ok_0;
    EditView { update: u, lock: Some(l), parent_index: e.parent_index }
}

/// Whether a prepared edit holds the lock its change needs: a marker for a
/// deletion, and for an update a writer that staged the new target's
/// encoding.
pub open spec fn holds_its_lock(e: EditView) -> bool {
    match e.lock {
        Some(LockView::Marker) => e.update.change is Delete,
        Some(LockView::Staged(content)) => match e.update.change {
            ChangeView::Update { new, .. } => content == encoded(new),
            ChangeView::Delete { .. } => false,
        },
        None => false,
    }
}

impl TransactionView {
    /// An open transaction holds no lock; a prepared one names each
    /// reference once and holds every edit's lock.
    pub open spec fn wf(self) -> bool {
        match self.state {
            State::Open => forall|i: int| 0 <= i < self.edits.len() ==> (#[trigger] self.edits[i]).lock is None,
            State::Prepared => {
                &&& names_unique(names_of(self.edits))
                &&& forall|i: int| 0 <= i < self.edits.len() ==> holds_its_lock(#[trigger] self.edits[i])
            },
        }
    }
}

pub(crate) proof fn lemma_checked_holds_lock(e: EditView, existing: Option<Seq<u8>>)
    requires
        checked_edit(e.update, existing) is Ok,
    ensures
        holds_its_lock(prepared_edit(e, existing)),
        prepared_edit(e, existing).update.name == e.update.name,
        prepared_edit(e, existing).update.change is Update == e.update.change is Update,
        e.update.change is Update ==> prepared_edit(e, existing).update.change->Update_new
            == e.update.change->Update_new,
{
}

impl Transaction {
    /// Checks `edit` against `existing`, the content its reference had once its
    /// lock was taken, and records the lock together with what it stages.
    ///
    /// On success `edit` holds the realized change and its lock; on failure it
    /// is left as it was.
    pub fn lock_ref_and_apply_change(edit: &mut Edit, existing: &Option<Vec<u8>>) -> (r: Result<
        (),
        Error,
    >)
        requires
            old(edit).lock is None,
        ensures
            match checked_edit(old(edit).update@, view_bytes_opt(*existing)) {
                Ok((u, l)) => r is Ok && final(edit)@ == (EditView {
                    update: u,
                    lock: Some(l),
                    parent_index: old(edit).parent_index,
                }),
                Err(k) => r is Err && r->Err_0.rejects(k, old(edit).update.name@) && *final(edit)
                    == *old(edit),
            },
    {
        let ex: Option<Target> = match existing {
            Some(buf) => match Target::decode(buf.as_slice()) {
                Some(t) => Some(t),
                None => {
                    return Err(Error::ReferenceDecode(copy_bytes(&edit.update.name)));
                },
            },
            None => None,
        };
        proof {
            assert(view_target_opt(ex) == existing_target(view_bytes_opt(*existing)));
        }
        let lock = match &edit.update.change {
            Change::Delete { previous, mode: _ } => {
                match (previous, &ex) {
                    (None, _) => {},
                    (Some(_), None) => {
                        return Err(Error::DeletionReferenceMustExist(copy_bytes(&edit.update.name)));
                    },
                    (Some(p), Some(x)) => {
                        if !x.same_as(p) {
                            return Err(Error::ReferenceOutOfDate(copy_bytes(&edit.update.name)));
                        }
                    },
                }
                Lock::Marker
            },
            Change::Update { previous, new, mode } => {
                let staged = new.encode();
                match previous {
                    Some(p) => {
                        let matches_existing = match &ex {
                            Some(x) => x.same_as(p),
                            None => false,
                        };
                        if !matches_existing {
                            return Err(Error::ReferenceOutOfDate(copy_bytes(&edit.update.name)));
                        }
                    },
                    None => {
                        let realized = Change::Update {
                            previous: ex,
                            new: new.duplicate(),
                            mode: *mode,
                        };
                        edit.update.change = realized;
                    },
                }
                Lock::Staged(staged)
            },
        };
        edit.lock = Some(lock);
        Ok(())
    }

    /// Opens a transaction over `edits`, in their order, which takes its
    /// locks according to `lock_fail_mode`. Nothing is locked yet.
    pub fn new(edits: Vec<RefEdit>, lock_fail_mode: Fail) -> (r: Transaction)
        ensures
            r@.wf(),
            r@.state == State::Open,
            r@.lock_fail_mode == lock_fail_mode,
            r@.edits.len() == edits@.len(),
            forall|i: int| 0 <= i < edits@.len() ==> (#[trigger] r@.edits[i]) == (EditView {
                update: edits@[i]@,
                lock: None,
                parent_index: None,
            }),
    {
        let mut updates: Vec<Edit> = Vec::new();
        let mut i: usize = 0;
        while i < edits.len()
            invariant
                i <= edits@.len(),
                updates@.len() == i,
                forall|k: int| 0 <= k < i ==> (#[trigger] updates@[k])@ == (EditView {
                    update: edits@[k]@,
                    lock: None,
                    parent_index: None,
                }),
            decreases edits@.len() - i,
        {
            updates.push(Edit { update: edits[i].duplicate(), lock: None, parent_index: None });
            i = i + 1;
        }
        Transaction { updates, state: State::Open, lock_fail_mode }
    }

    /// The state of this transaction.
    pub fn state(&self) -> (r: State)
        ensures
            r == self@.state,
    {
        self.state
    }

    /// How this transaction fails when a lock is held elsewhere.
    pub fn lock_fail_mode(&self) -> (r: Fail)
        ensures
            r == self@.lock_fail_mode,
    {
        self.lock_fail_mode
    }

    /// The edits of this transaction, in order.
    pub fn edits(&self) -> (r: &Vec<Edit>)
        ensures
            r@.map_values(|e: Edit| e@) == self@.edits,
    {
        &self.updates
    }

    /// Discards the transaction and gives back its edits.
    pub fn into_edits(self) -> (r: Vec<RefEdit>)
        ensures
            r@.len() == self@.edits.len(),
            forall|i: int| 0 <= i < r@.len() ==> (#[trigger] r@[i])@ == self@.edits[i].update,
    {
        let mut r: Vec<RefEdit> = Vec::new();
        let mut i: usize = 0;
        while i < self.updates.len()
            invariant
                i <= self.updates@.len(),
                r@.len() == i,
                forall|k: int| 0 <= k < i ==> (#[trigger] r@[k])@ == self.updates@[k].update@,
            decreases self.updates@.len() - i,
        {
            r.push(self.updates[i].update.duplicate());
            i = i + 1;
        }
        r
    }

    /// Checks and locks every edit, so that the transaction can be committed
    /// or dropped without a trace.
    ///
    /// `existing` holds, for each edit in order, the content its reference had
    /// once its lock was taken (`None` where there is no such reference). A
    /// prepared transaction is returned as it is. An open one fails with
    /// `DuplicateRefEdits` where two edits name one reference, before any
    /// lock; otherwise with the rejection of the first edit that fails its
    /// check; otherwise it is prepared, each edit realized against its
    /// content and holding its lock.
    pub fn prepare(self, existing: &Vec<Option<Vec<u8>>>) -> (r: Result<Transaction, Error>)
        requires
            self@.wf(),
            self@.state == State::Open ==> existing@.len() == self@.edits.len(),
        ensures
            r matches Ok(t) ==> t@.wf() && t@.state == State::Prepared,
            self@.state == State::Prepared ==> (r matches Ok(t) && t@ == self@),
            self@.state == State::Open && !names_unique(names_of(self@.edits)) ==> (r matches Err(
                e,
            ) && exists|i: int|
                is_first_duplicate(names_of(self@.edits), i) && e.rejects(
                    Rejection::Duplicate,
                    #[trigger] names_of(self@.edits)[i],
                )),
            self@.state == State::Open && names_unique(names_of(self@.edits)) && all_pass(
                self@.edits,
                contents_view(existing@),
            ) ==> (r matches Ok(t) && t@.lock_fail_mode == self@.lock_fail_mode && t@.edits.len()
                == self@.edits.len() && forall|i: int|
                0 <= i < self@.edits.len() ==> #[trigger] t@.edits[i] == prepared_edit(
                    self@.edits[i],
                    contents_view(existing@)[i],
                )),
            self@.state == State::Open && names_unique(names_of(self@.edits)) && !all_pass(
                self@.edits,
                contents_view(existing@),
            ) ==> (r matches Err(e) && exists|i: int|
                is_first_rejected(self@.edits, contents_view(existing@), i) && e.rejects(
                    checked_edit(self@.edits[i].update, contents_view(existing@)[i])->Err_0,
                    #[trigger] self@.edits[i].update.name,
                )),
    {
        match self.state {
            State::Prepared => Ok(self),
            State::Open => {
                let ghost edits = self@.edits;
                let ghost ex = contents_view(existing@);
                proof {
                    assert(edit_names(self.updates@) =~= names_of(edits));
                }
                match first_duplicate_name(&self.updates) {
                    Some(first_name) => {
                        return Err(Error::DuplicateRefEdits { first_name });
                    },
                    None => {},
                }
                let mut out: Vec<Edit> = Vec::new();
                let mut i: usize = 0;
                while i < self.updates.len()
                    invariant
                        edits == self@.edits,
                        ex == contents_view(existing@),
                        self@.wf(),
                        self@.state == State::Open,
                        existing@.len() == edits.len(),
                        names_unique(names_of(edits)),
                        i <= edits.len(),
                        out@.len() == i,
                        forall|k: int| 0 <= k < i ==> passes(edits, ex, k),
                        forall|k: int|
                            0 <= k < i ==> (#[trigger] out@[k])@ == prepared_edit(edits[k], ex[k]),
                    decreases edits.len() - i,
                {
                    let mut e = Edit {
                        update: self.updates[i].update.duplicate(),
                        lock: None,
                        parent_index: self.updates[i].parent_index,
                    };
                    assert(e@.update == edits[i as int].update);
                    match Self::lock_ref_and_apply_change(&mut e, &existing[i]) {
                        Ok(()) => {},
                        Err(err) => {
                            proof {
                                assert(is_first_rejected(edits, ex, i as int));
                                assert(!all_pass(edits, ex));
                            }
                            return Err(err);
                        },
                    }
                    out.push(e);
                    i = i + 1;
                }
                let t = Transaction {
                    updates: out,
                    state: State::Prepared,
                    lock_fail_mode: self.lock_fail_mode,
                };
                proof {
                    assert forall|k: int| 0 <= k < edits.len() implies holds_its_lock(
                        #[trigger] t@.edits[k],
                    ) by {
                        assert(passes(edits, ex, k));
                        lemma_checked_holds_lock(edits[k], ex[k]);
                    }
                    assert forall|a: int, b: int|
                        0 <= a < b < t@.edits.len() implies names_of(t@.edits)[a] != names_of(
                        t@.edits,
                    )[b] by {
                        assert(passes(edits, ex, a));
                        assert(passes(edits, ex, b));
                        lemma_checked_holds_lock(edits[a], ex[a]);
                        lemma_checked_holds_lock(edits[b], ex[b]);
                        assert(names_of(edits)[a] != names_of(edits)[b]);
                    }
                }
                Ok(t)
            },
        }
    }
}

} // verus!
