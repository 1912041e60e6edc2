//! Identifier value types: a repository location and a commit/object id.

use vstd::prelude::*;
use crate::order::bytes_le;

verus! {

/// Identifies one repository (working tree or bare) by its path. Used as
/// the unit of execution serialization: no two jobs run against the same
/// location at once.
#[derive(Debug)]
pub struct RepoPath {
    pub path: String,
}

impl View for RepoPath {
    type V = Seq<char>;

    open spec fn view(&self) -> Seq<char> {
        self.path@
    }
}

impl RepoPath {
    pub fn new(path: String) -> (r: RepoPath)
        ensures
            r@ == path@,
    {
        RepoPath { path }
    }

    /// Whether the two values name the same location.
    pub fn same_location(&self, other: &RepoPath) -> (r: bool)
        ensures
            r == (self@ == other@),
    {
        self.path == other.path
    }

    pub fn duplicate(&self) -> (r: RepoPath)
        ensures
            r@ == self@,
    {
        RepoPath { path: self.path.clone() }
    }
}

/// Number of bytes in an object id.
pub const OID_LEN: usize = 20;

/// Content-hash identifier of a commit or other repository object: a
/// fixed-width byte string, totally ordered by byte value, never mutated
/// after creation.
#[derive(Debug)]
pub struct CommitId {
    pub bytes: Vec<u8>,
}

impl View for CommitId {
    type V = Seq<u8>;

    open spec fn view(&self) -> Seq<u8> {
        self.bytes@
    }
}

impl CommitId {
    /// The id is exactly `OID_LEN` bytes wide.
    pub open spec fn well_formed(&self) -> bool {
        self@.len() == OID_LEN
    }

    pub fn new(bytes: Vec<u8>) -> (r: CommitId)
        requires
            bytes@.len() == OID_LEN,
        ensures
            r@ == bytes@,
            r.well_formed(),
    {
        CommitId { bytes }
    }

    pub fn same_id(&self, other: &CommitId) -> (r: bool)
        ensures
            r == (self@ == other@),
    {
        let le1 = crate::order::vec_bytes_le(&self.bytes, &other.bytes);
        let le2 = crate::order::vec_bytes_le(&other.bytes, &self.bytes);
        proof {
            if le1 && le2 {
                crate::order::lemma_bytes_le_antisym(self@, other@);
            }
            if self@ == other@ {
                crate::order::lemma_bytes_le_total(self@, self@);
            }
        }
        le1 && le2
    }

    /// Byte-value order on ids.
    pub fn le(&self, other: &CommitId) -> (r: bool)
        ensures
            r == bytes_le(self@, other@),
    {
        crate::order::vec_bytes_le(&self.bytes, &other.bytes)
    }

    pub fn duplicate(&self) -> (r: CommitId)
        ensures
            r@ == self@,
    {
        let mut out: Vec<u8> = Vec::new();
        let mut i: usize = 0;
        let n = self.bytes.len();
        while i < n
            invariant
                i <= n,
                n == self.bytes@.len(),
                out@ =~= self.bytes@.take(i as int),
            decreases n - i,
        {
            out.push(self.bytes[i]);
            proof {
                assert(out@ =~= self.bytes@.take(i + 1));
            }
            i = i + 1;
        }
        proof {
            assert(self.bytes@.take(n as int) =~= self.bytes@);
        }
        CommitId { bytes: out }
    }
}

} // verus!
