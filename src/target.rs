use vstd::prelude::*;

use crate::bytes::{bytes_equal, copy_bytes};

verus! {

/// The bytes that open a symbolic reference file: `ref: `.
pub open spec fn symbolic_prefix() -> Seq<u8> {
    seq![0x72u8, 0x65u8, 0x66u8, 0x3au8, 0x20u8]
}

/// What a reference points to.
#[derive(Debug, Clone)]
pub enum Target {
    /// The raw bytes of an object identifier.
    Peeled(Vec<u8>),
    /// The full name of another reference.
    Symbolic(Vec<u8>),
}

/// The mathematical value of a [`Target`].
pub enum TargetView {
    Peeled(Seq<u8>),
    Symbolic(Seq<u8>),
}

impl View for Target {
    type V = TargetView;

    open spec fn view(&self) -> TargetView {
        match self {
            Target::Peeled(oid) => TargetView::Peeled(oid@),
            Target::Symbolic(name) => TargetView::Symbolic(name@),
        }
    }
}

/// The exact content of a reference file that points to `t`.
pub open spec fn encoded(t: TargetView) -> Seq<u8> {
    match t {
        TargetView::Peeled(oid) => oid,
        TargetView::Symbolic(name) => symbolic_prefix() + name,
    }
}

/// How the content of a reference file reads back, if it is well formed:
/// `ref: ` and a non-empty name is symbolic, any other non-empty content is
/// an object identifier.
pub open spec fn decoded(buf: Seq<u8>) -> Option<TargetView> {
    if buf.len() > 5 && buf.subrange(0, 5) == symbolic_prefix() {
        Some(TargetView::Symbolic(buf.subrange(5, buf.len() as int)))
    } else if buf.len() == 5 && buf == symbolic_prefix() {
        None
    } else if buf.len() > 0 {
        Some(TargetView::Peeled(buf))
    } else {
        None
    }
}

/// Whether the reflog is written along with the reference, or alone.
#[derive(Debug, Clone, Copy, PartialEq, Eq, Structural)]
pub enum RefLog {
    AndReference,
    Only,
}

/// A requested change to one reference.
#[derive(Debug, Clone)]
pub enum Change {
    /// Point the reference at `new`; `previous`, where given, is the value
    /// the caller believes is stored now.
    Update { previous: Option<Target>, new: Target, mode: RefLog },
    /// Remove the reference; `previous`, where given, is the value it must
    /// hold now.
    Delete { previous: Option<Target>, mode: RefLog },
}

/// The mathematical value of a [`Change`].
pub enum ChangeView {
    Update { previous: Option<TargetView>, new: TargetView, mode: RefLog },
    Delete { previous: Option<TargetView>, mode: RefLog },
}

pub open spec fn view_target_opt(t: Option<Target>) -> Option<TargetView> {
    match t {
        Some(t) => Some(t@),
        None => None,
    }
}

impl View for Change {
    type V = ChangeView;

    open spec fn view(&self) -> ChangeView {
        match self {
            Change::Update { previous, new, mode } => ChangeView::Update {
                previous: view_target_opt(*previous),
                new: new@,
                mode: *mode,
            },
            Change::Delete { previous, mode } => ChangeView::Delete {
                previous: view_target_opt(*previous),
                mode: *mode,
            },
        }
    }
}

/// A change together with the full name of the reference it applies to.
#[derive(Debug, Clone)]
pub struct RefEdit {
    pub change: Change,
    pub name: Vec<u8>,
}

/// The mathematical value of a [`RefEdit`].
pub struct RefEditView {
    pub change: ChangeView,
    pub name: Seq<u8>,
}

impl View for RefEdit {
    type V = RefEditView;

    open spec fn view(&self) -> RefEditView {
        RefEditView { change: self.change@, name: self.name@ }
    }
}

impl ChangeView {
    pub open spec fn previous(self) -> Option<TargetView> {
        match self {
            ChangeView::Update { previous, .. } => previous,
            ChangeView::Delete { previous, .. } => previous,
        }
    }
}

impl Target {
    /// A copy of this target.
    pub fn duplicate(&self) -> (r: Target)
        ensures
            r@ == self@,
    {
        match self {
            Target::Peeled(oid) => Target::Peeled(copy_bytes(oid)),
            Target::Symbolic(name) => Target::Symbolic(copy_bytes(name)),
        }
    }

    /// Whether both targets are of the same kind and hold the same bytes.
    pub fn same_as(&self, other: &Target) -> (r: bool)
        ensures
            r == (self@ == other@),
    {
        match (self, other) {
            (Target::Peeled(a), Target::Peeled(b)) => bytes_equal(a.as_slice(), b.as_slice()),
            (Target::Symbolic(a), Target::Symbolic(b)) => bytes_equal(a.as_slice(), b.as_slice()),
            _ => false,
        }
    }

    /// The content of a reference file that points to this target: the
    /// object identifier's raw bytes, or `ref: ` followed by the referent's
    /// name.
    pub fn encode(&self) -> (r: Vec<u8>)
        ensures
            r@ == encoded(self@),
    {
        match self {
            Target::Peeled(oid) => copy_bytes(oid),
            Target::Symbolic(name) => {
                let mut r: Vec<u8> = Vec::new();
                r.push(0x72u8);
                r.push(0x65u8);
                r.push(0x66u8);
                r.push(0x3au8);
                r.push(0x20u8);
                let mut i: usize = 0;
                while i < name.len()
                    invariant
                        i <= name@.len(),
                        r@ == symbolic_prefix() + name@.subrange(0, i as int),
                    decreases name@.len() - i,
                {
                    r.push(name[i]);
                    i = i + 1;
                    proof {
                        assert(name@.subrange(0, i as int) =~= name@.subrange(0, i - 1).push(
                            name@[i - 1],
                        ));
                    }
                }
                assert(name@.subrange(0, name@.len() as int) =~= name@);
                r
            },
        }
    }

    /// Reads the content of a reference file back into a target; `None`
    /// where the content is malformed.
    pub fn decode(buf: &[u8]) -> (r: Option<Target>)
        ensures
            view_target_opt(r) == decoded(buf@),
    {
        let n = buf.len();
        let starts_symbolic = n >= 5 && buf[0] == 0x72u8 && buf[1] == 0x65u8 && buf[2] == 0x66u8
            && buf[3] == 0x3au8 && buf[4] == 0x20u8;
        proof {
            if n >= 5 {
                assert(starts_symbolic == (buf@.subrange(0, 5) =~= symbolic_prefix()));
            }
        }
        if starts_symbolic && n > 5 {
            let mut name: Vec<u8> = Vec::new();
            let mut i: usize = 5;
            while i < n
                invariant
                    n == buf@.len(),
                    5 <= i <= n,
                    name@ == buf@.subrange(5, i as int),
                decreases n - i,
            {
                name.push(buf[i]);
                i = i + 1;
                proof {
                    assert(buf@.subrange(5, i as int) =~= buf@.subrange(5, i - 1).push(buf@[i - 1]));
                }
            }
            Some(Target::Symbolic(name))
        } else if starts_symbolic {
            proof {
                assert(buf@ =~= buf@.subrange(0, 5));
            }
            None
        } else if n > 0 {
            let mut oid: Vec<u8> = Vec::new();
            let mut i: usize = 0;
            while i < n
                invariant
                    n == buf@.len(),
                    i <= n,
                    oid@ == buf@.subrange(0, i as int),
                decreases n - i,
            {
                oid.push(buf[i]);
                i = i + 1;
                proof {
                    assert(buf@.subrange(0, i as int) =~= buf@.subrange(0, i - 1).push(buf@[i - 1]));
                }
            }
            assert(oid@ =~= buf@);
            proof {
                if n == 5 {
                    assert(!(buf@ =~= symbolic_prefix()));
                }
            }
            Some(Target::Peeled(oid))
        } else {
            None
        }
    }
}

} // verus!

verus! {

impl Change {
    /// A copy of this change.
    pub fn duplicate(&self) -> (r: Change)
        ensures
            r@ == self@,
    {
        match self {
            Change::Update { previous, new, mode } => Change::Update {
                previous: match previous {
                    Some(p) => Some(p.duplicate()),
                    None => None,
                },
                new: new.duplicate(),
                mode: *mode,
            },
            Change::Delete { previous, mode } => Change::Delete {
                previous: match previous {
                    Some(p) => Some(p.duplicate()),
                    None => None,
                },
                mode: *mode,
            },
        }
    }
}

impl RefEdit {
    /// A copy of this edit.
    pub fn duplicate(&self) -> (r: RefEdit)
        ensures
            r@ == self@,
    {
        RefEdit { change: self.change.duplicate(), name: copy_bytes(&self.name) }
    }
}

} // verus!
