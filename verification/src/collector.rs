//! Commits and what is measured of them.
use crate::text;
use vstd::prelude::*;
use vstd::string::*;

verus! {

/// The name of a commit, as it is written.
pub type Sha = String;

/// The name of a benchmark.
pub type BenchmarkName = String;

/// A point in time: seconds since the beginning of 1970, and nanoseconds since then.
#[derive(Copy, Clone, Debug, PartialEq, Eq, Structural)]
pub struct Date {
    pub timestamp: i64,
    pub nanos: u32,
}

/// A commit.
#[derive(Debug, PartialEq, Eq)]
pub struct Commit {
    pub sha: Sha,
    pub date: Date,
}

/// What a commit is.
pub struct CommitView {
    pub sha: Seq<char>,
    pub date: Date,
}

impl View for Commit {
    type V = CommitView;

    open spec fn view(&self) -> CommitView {
        CommitView { sha: self.sha@, date: self.date }
    }
}

impl Clone for Commit {
    fn clone(&self) -> (res: Self)
        ensures
            res == *self,
    {
        Commit { sha: self.sha.clone(), date: self.date }
    }
}

impl Commit {
    /// Whether two commits are the same.
    pub fn same(&self, other: &Commit) -> (same: bool)
        ensures
            same == (self@ == other@),
    {
        text::same_text(self.sha.as_str(), other.sha.as_str()) && self.date == other.date
    }
}

/// The texts of a list.
pub open spec fn texts(list: Seq<String>) -> Seq<Seq<char>> {
    Seq::new(list.len(), |i: int| list[i]@)
}

/// Where `text` stands first in `list`.
pub fn find_text(list: &Vec<String>, text: &str) -> (at: Option<usize>)
    ensures
        match at {
            Some(at) => at < list@.len() && texts(list@)[at as int] == text@ && forall|k: int|
                0 <= k < at ==> texts(list@)[k] != text@,
            None => !texts(list@).contains(text@),
        },
{
    let mut i: usize = 0;
    while i < list.len()
        invariant
            i <= list@.len(),
            forall|k: int| 0 <= k < i ==> texts(list@)[k] != text@,
        decreases list@.len() - i,
    {
        if text::same_text(list[i].as_str(), text) {
            return Some(i);
        }
        i += 1;
    }
    None
}

} // verus!
