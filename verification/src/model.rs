//! Plain data carried between the compositor and the reconcilers.
//!
//! A workspace is identified by a signed id together with its name; two
//! records with the same id but different names are distinct keys.  Names are
//! kept as raw bytes exactly as they appear on the wire.

use vstd::prelude::*;

verus! {

/// A workspace record: signed id plus name bytes.  Negative ids denote
/// "special" (scratchpad-like) workspaces.
#[derive(Debug, PartialEq, Eq)]
pub struct WorkspaceInfo {
    pub id: i32,
    pub name: Vec<u8>,
}

impl WorkspaceInfo {
    /// Key equality: same id and same name bytes.
    pub open spec fn key_eq(self, other: WorkspaceInfo) -> bool {
        self.id == other.id && self.name@ == other.name@
    }

    /// Whether this record denotes a special workspace.
    pub open spec fn spec_special(self) -> bool {
        self.id < 0
    }

    /// Exec test for key equality.
    pub fn same(&self, other: &WorkspaceInfo) -> (r: bool)
        ensures
            r == self.key_eq(*other),
    {
        self.id == other.id && bytes_eq(&self.name, &other.name)
    }

}

/// One window record from the client listing, reduced to the fields the
/// visibility signal depends on.
#[derive(Debug, PartialEq, Eq)]
pub struct Client {
    pub workspace: WorkspaceInfo,
    pub hidden: bool,
    pub floating: bool,
}

/// Byte-wise equality of two byte vectors.
pub fn bytes_eq(a: &Vec<u8>, b: &Vec<u8>) -> (r: bool)
    ensures
        r == (a@ == b@),
{
    if a.len() != b.len() {
        return false;
    }
    let mut i: usize = 0;
    while i < a.len()
        invariant
            0 <= i <= a@.len(),
            a@.len() == b@.len(),
            forall|j: int| 0 <= j < i ==> a@[j] == b@[j],
        decreases a@.len() - i,
    {
        if a[i] != b[i] {
            return false;
        }
        i = i + 1;
    }
    proof {
        assert(a@ =~= b@);
    }
    true
}

/// The bytes of `v` from `from` (inclusive) to `to` (exclusive).
pub fn copy_range(v: &Vec<u8>, from: usize, to: usize) -> (r: Vec<u8>)
    requires
        from <= to <= v@.len(),
    ensures
        r@ == v@.subrange(from as int, to as int),
{
    let mut r: Vec<u8> = Vec::new();
    let mut i: usize = from;
    while i < to
        invariant
            from <= i <= to <= v@.len(),
            r@ == v@.subrange(from as int, i as int),
        decreases to - i,
    {
        r.push(v[i]);
        proof {
            assert(r@ =~= v@.subrange(from as int, i + 1));
        }
        i = i + 1;
    }
    r
}

} // verus!
