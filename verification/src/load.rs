//! The data that the site shows, and what it remembers from one start to the next.
use crate::collector;
use crate::collector::{BenchmarkName, Commit, CommitView, Date, Sha};
use crate::db::Series;
use vstd::prelude::*;
use vstd::string::*;

verus! {

/// An issue that comments are posted to.
#[derive(Debug, PartialEq, Eq)]
pub struct Issue {
    pub repository_url: String,
    pub number: u64,
}

/// Which issue it is.
pub struct IssueView {
    pub repository_url: Seq<char>,
    pub number: u64,
}

impl View for Issue {
    type V = IssueView;

    open spec fn view(&self) -> IssueView {
        IssueView { repository_url: self.repository_url@, number: self.number }
    }
}

impl Clone for Issue {
    fn clone(&self) -> (res: Self)
        ensures
            res == *self,
    {
        Issue { repository_url: self.repository_url.clone(), number: self.number }
    }
}

/// The view of an issue, if there is one.
pub open spec fn issue_view(issue: Option<Issue>) -> Option<IssueView> {
    match issue {
        Some(issue) => Some(issue@),
        None => None,
    }
}

/// A commit that was built to be measured, at the request of an issue.
#[derive(Debug, PartialEq, Eq)]
pub struct TryCommit {
    pub sha: Sha,
    pub issue: Issue,
    /// The page that compares the commit with its parent.
    pub comparison_url: String,
}

/// What a try commit is.
pub struct TryCommitView {
    pub sha: Seq<char>,
    pub issue: IssueView,
    pub comparison_url: Seq<char>,
}

impl View for TryCommit {
    type V = TryCommitView;

    open spec fn view(&self) -> TryCommitView {
        TryCommitView {
            sha: self.sha@,
            issue: self.issue@,
            comparison_url: self.comparison_url@,
        }
    }
}

/// The commit that is being measured, and the benchmarks that are left to run.
#[derive(Debug, PartialEq, Eq)]
pub struct CurrentState {
    pub commit: Commit,
    pub issue: Option<Issue>,
    pub benchmarks: Vec<BenchmarkName>,
}

/// What is being measured.
pub struct CurrentView {
    pub commit: CommitView,
    pub issue: Option<IssueView>,
    pub benchmarks: Seq<Seq<char>>,
}

impl View for CurrentState {
    type V = CurrentView;

    open spec fn view(&self) -> CurrentView {
        CurrentView {
            commit: self.commit@,
            issue: issue_view(self.issue),
            benchmarks: collector::texts(self.benchmarks@),
        }
    }
}

impl Clone for CurrentState {
    fn clone(&self) -> (res: Self)
        ensures
            res@ == self@,
    {
        CurrentState {
            commit: self.commit.clone(),
            issue: self.issue.clone(),
            benchmarks: self.benchmarks.clone(),
        }
    }
}

/// The view of what is being measured, if anything is.
pub open spec fn current_view(current: Option<CurrentState>) -> Option<CurrentView> {
    match current {
        Some(current) => Some(current@),
        None => None,
    }
}

/// What the site remembers.
#[derive(Debug, PartialEq, Eq)]
pub struct Persistent {
    pub try_commits: Vec<TryCommit>,
    pub current: Option<CurrentState>,
    /// The commits whose end was announced, the latest last.
    pub posted_ends: Vec<Sha>,
}

/// What the site remembers.
pub struct PersistentView {
    pub try_commits: Seq<TryCommitView>,
    pub current: Option<CurrentView>,
    pub posted_ends: Seq<Seq<char>>,
}

impl View for Persistent {
    type V = PersistentView;

    open spec fn view(&self) -> PersistentView {
        PersistentView {
            try_commits: Seq::new(self.try_commits@.len(), |i: int| self.try_commits@[i]@),
            current: current_view(self.current),
            posted_ends: collector::texts(self.posted_ends@),
        }
    }
}

/// The benchmarks of one released compiler.
pub struct ArtifactData {
    pub id: String,
    /// The benchmarks, each with whether it could be run.
    pub benchmarks: Vec<(BenchmarkName, bool)>,
}

/// The benchmarks of one commit.
pub struct CommitData {
    pub commit: Commit,
    pub benchmarks: Vec<BenchmarkName>,
}

/// A commit that is still to be measured, and why.
#[derive(Debug, PartialEq, Eq)]
pub struct MissingCommit {
    pub commit: Commit,
    pub reason: String,
}

/// The data that the site shows.
pub struct InputData {
    /// The names of the statistics.
    pub stats_list: Vec<String>,
    pub last_date: Option<Date>,
    pub artifact_data: Vec<ArtifactData>,
    /// The commits that were measured, with gaps filled in, the latest last.
    pub data: Vec<CommitData>,
    pub commits: Vec<Commit>,
    /// The benchmarks of the last commit, each with the log of its failure if it failed.
    pub errors: Vec<(BenchmarkName, Option<String>)>,
    /// The series that sum up all benchmarks.
    pub summary_series: Vec<Series>,
}

} // verus!
