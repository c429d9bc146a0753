//! A commit as the history gives it.

use vstd::prelude::*;

verus! {

/// A commit: its message and the hash that identifies it.
#[derive(Debug, PartialEq, Eq)]
pub struct Commit {
    pub message: String,
    pub hash: String,
}

impl Clone for Commit {
    fn clone(&self) -> (r: Self)
        ensures
            r.message@ == self.message@,
            r.hash@ == self.hash@,
    {
        Commit { message: self.message.clone(), hash: self.hash.clone() }
    }
}

/// The messages of a sequence of commits.
pub open spec fn messages(commits: Seq<Commit>) -> Seq<Seq<char>> {
    Seq::new(commits.len(), |i: int| commits[i].message@)
}

} // verus!
