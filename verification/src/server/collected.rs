//! What the collector reports: which commit it measures, and which benchmarks are done.
use crate::collector;
use crate::collector::{BenchmarkName, Commit, CommitView, Sha};
use crate::load;
use crate::load::{
    CurrentState, CurrentView, Issue, IssueView, Persistent, PersistentView, TryCommitView,
};
use crate::text;
use vstd::prelude::*;
use vstd::string::*;

verus! {

/// How many announced commits are remembered.
pub const REMEMBERED_ENDS: usize = 100;

/// A report of the collector.
#[derive(Debug, PartialEq, Eq)]
pub enum Request {
    /// The collector begins to measure `commit`, with these benchmarks.
    BenchmarkCommit { commit: Commit, benchmarks: Vec<BenchmarkName> },
    /// The collector is done with `benchmark` at `commit`.
    BenchmarkDone { commit: Commit, benchmark: BenchmarkName },
}

/// What a report says.
pub enum RequestView {
    BenchmarkCommit { commit: CommitView, benchmarks: Seq<Seq<char>> },
    BenchmarkDone { commit: CommitView, benchmark: Seq<char> },
}

impl View for Request {
    type V = RequestView;

    open spec fn view(&self) -> RequestView {
        match self {
            Request::BenchmarkCommit { commit, benchmarks } => RequestView::BenchmarkCommit {
                commit: commit@,
                benchmarks: collector::texts(benchmarks@),
            },
            Request::BenchmarkDone { commit, benchmark } => RequestView::BenchmarkDone {
                commit: commit@,
                benchmark: benchmark@,
            },
        }
    }
}

/// The answer to a report.
#[derive(Copy, Clone, Debug, PartialEq, Eq)]
pub struct Response {}

/// A comment to post.
#[derive(Debug, PartialEq, Eq)]
pub struct Comment {
    pub issue: Issue,
    pub body: String,
}

/// What a comment says, and where.
pub struct CommentView {
    pub issue: IssueView,
    pub body: Seq<char>,
}

impl View for Comment {
    type V = CommentView;

    open spec fn view(&self) -> CommentView {
        CommentView { issue: self.issue@, body: self.body@ }
    }
}

/// The view of a comment, if there is one.
pub open spec fn comment_view(comment: Option<Comment>) -> Option<CommentView> {
    match comment {
        Some(comment) => Some(comment@),
        None => None,
    }
}

/// The first try commit from `from` on whose name is `sha`.
pub open spec fn find_try(try_commits: Seq<TryCommitView>, sha: Seq<char>, from: int) -> Option<
    TryCommitView,
>
    decreases try_commits.len() - from,
{
    if from < 0 || from >= try_commits.len() {
        None
    } else if try_commits[from].sha == sha {
        Some(try_commits[from])
    } else {
        find_try(try_commits, sha, from + 1)
    }
}

/// The issue that asked for `sha` to be measured.
pub open spec fn asking_issue(try_commits: Seq<TryCommitView>, sha: Seq<char>) -> Option<
    IssueView,
> {
    match find_try(try_commits, sha, 0) {
        Some(found) => Some(found.issue),
        None => None,
    }
}

/// The part of a comment that points to the comparison of `sha`, if `sha` is a try commit.
pub open spec fn comparison(try_commits: Seq<TryCommitView>, sha: Seq<char>) -> Seq<char> {
    match find_try(try_commits, sha, 0) {
        Some(found) => ", [comparison URL]("@ + found.comparison_url + ")."@,
        None => Seq::empty(),
    }
}

/// `list` without the first `item` that it holds.
pub open spec fn without_first(list: Seq<Seq<char>>, item: Seq<char>) -> Seq<Seq<char>>
    decreases list.len(),
{
    if list.len() == 0 {
        list
    } else if list[0] == item {
        list.drop_first()
    } else {
        seq![list[0]] + without_first(list.drop_first(), item)
    }
}

/// The announced commits, once `sha` is one of them: the oldest is forgotten when there are too
/// many.
pub open spec fn announced(posted_ends: Seq<Seq<char>>, sha: Seq<char>) -> Seq<Seq<char>> {
    if posted_ends.len() + 1 > REMEMBERED_ENDS {
        posted_ends.push(sha).drop_first()
    } else {
        posted_ends.push(sha)
    }
}

/// What is being measured when a report on `commit` comes in: nothing, if the report is on
/// another commit than the one that was thought to be measured.
pub open spec fn confirmed(current: Option<CurrentView>, commit: CommitView) -> Option<
    CurrentView,
> {
    match current {
        Some(current) => if current.commit == commit {
            Some(current)
        } else {
            None
        },
        None => None,
    }
}

/// What is being measured, once `benchmark` is done.
pub open spec fn advanced(current: CurrentView, benchmark: Seq<char>) -> CurrentView {
    CurrentView { benchmarks: without_first(current.benchmarks, benchmark), ..current }
}

/// Whether the end of `current` is to be announced: nothing is left to run, an issue asked for
/// it, and it was not announced before.
pub open spec fn is_to_be_announced(current: CurrentView, posted_ends: Seq<Seq<char>>) -> bool {
    &&& current.benchmarks.len() == 0
    &&& current.issue is Some
    &&& !posted_ends.contains(current.commit.sha)
}

/// What the site remembers after a report.
pub open spec fn next(persistent: PersistentView, request: RequestView) -> PersistentView {
    match request {
        RequestView::BenchmarkCommit { commit, benchmarks } => PersistentView {
            current: Some(
                CurrentView {
                    commit,
                    issue: asking_issue(persistent.try_commits, commit.sha),
                    benchmarks,
                },
            ),
            ..persistent
        },
        RequestView::BenchmarkDone { commit, benchmark } => match confirmed(
            persistent.current,
            commit,
        ) {
            None => PersistentView { current: None, ..persistent },
            Some(current) => {
                let current = advanced(current, benchmark);
                PersistentView {
                    current: Some(current),
                    posted_ends: if is_to_be_announced(current, persistent.posted_ends) {
                        announced(persistent.posted_ends, current.commit.sha)
                    } else {
                        persistent.posted_ends
                    },
                    ..persistent
                }
            },
        },
    }
}

/// The comment that a report brings about.
pub open spec fn comment(persistent: PersistentView, request: RequestView) -> Option<
    CommentView,
> {
    match request {
        RequestView::BenchmarkCommit { .. } => None,
        RequestView::BenchmarkDone { commit, benchmark } => match confirmed(
            persistent.current,
            commit,
        ) {
            None => None,
            Some(current) => {
                let current = advanced(current, benchmark);
                if is_to_be_announced(current, persistent.posted_ends) {
                    Some(
                        CommentView {
                            issue: current.issue->0,
                            body: "Finished benchmarking try commit "@ + current.commit.sha
                                + comparison(persistent.try_commits, current.commit.sha),
                        },
                    )
                } else {
                    None
                }
            },
        },
    }
}

proof fn lemma_without_first(list: Seq<Seq<char>>, item: Seq<char>, at: int)
    requires
        0 <= at < list.len(),
        list[at] == item,
        forall|k: int| 0 <= k < at ==> list[k] != item,
    ensures
        without_first(list, item) == list.remove(at),
    decreases list.len(),
{
    if at > 0 {
        lemma_without_first(list.drop_first(), item, at - 1);
    }
}

proof fn lemma_without_absent(list: Seq<Seq<char>>, item: Seq<char>)
    requires
        !list.contains(item),
    ensures
        without_first(list, item) == list,
    decreases list.len(),
{
    if list.len() > 0 {
        assert(!list.drop_first().contains(item));
        lemma_without_absent(list.drop_first(), item);
    }
}

/// What the site remembers after several reports.
pub open spec fn all_next(persistent: PersistentView, requests: Seq<RequestView>) -> PersistentView
    decreases requests.len(),
{
    if requests.len() == 0 {
        persistent
    } else {
        next(all_next(persistent, requests.drop_last()), requests.last())
    }
}

/// However many reports come in, no more commits are remembered as announced than there should
/// be, and the try commits stay what they are.
pub proof fn lemma_memory_is_bounded(persistent: PersistentView, requests: Seq<RequestView>)
    requires
        persistent.posted_ends.len() <= REMEMBERED_ENDS,
    ensures
        all_next(persistent, requests).posted_ends.len() <= REMEMBERED_ENDS,
        all_next(persistent, requests).try_commits == persistent.try_commits,
    decreases requests.len(),
{
    if requests.len() > 0 {
        lemma_memory_is_bounded(persistent, requests.drop_last());
    }
}

/// The issue that asked for a commit, and the comparison that a comment points to, are those of
/// the first try commit of that name; there is none only if no try commit has that name.
pub proof fn lemma_first_try_counts(try_commits: Seq<TryCommitView>, sha: Seq<char>) -> (k: int)
    ensures
        0 <= k <= try_commits.len(),
        forall|j: int| 0 <= j < k ==> (#[trigger] try_commits[j]).sha != sha,
        k < try_commits.len() ==> {
            &&& try_commits[k].sha == sha
            &&& asking_issue(try_commits, sha) == Some(try_commits[k].issue)
            &&& comparison(try_commits, sha) == ", [comparison URL]("@
                + try_commits[k].comparison_url + ")."@
        },
        k == try_commits.len() ==> {
            &&& asking_issue(try_commits, sha) is None
            &&& comparison(try_commits, sha) == Seq::<char>::empty()
        },
{
    lemma_try_from(try_commits, sha, 0)
}

proof fn lemma_try_from(try_commits: Seq<TryCommitView>, sha: Seq<char>, from: int) -> (k: int)
    requires
        0 <= from <= try_commits.len(),
    ensures
        from <= k <= try_commits.len(),
        forall|j: int| from <= j < k ==> (#[trigger] try_commits[j]).sha != sha,
        k < try_commits.len() ==> try_commits[k].sha == sha && find_try(try_commits, sha, from)
            == Some(try_commits[k]),
        k == try_commits.len() ==> find_try(try_commits, sha, from) is None,
    decreases try_commits.len() - from,
{
    if from < try_commits.len() && try_commits[from].sha != sha {
        lemma_try_from(try_commits, sha, from + 1)
    } else {
        from
    }
}

/// When a commit begins to be measured, it is what is being measured, with all its benchmarks and
/// for the issue of the first try commit of its name. Nothing else changes, and nothing is said.
pub proof fn lemma_begun_commit_is_current(
    persistent: PersistentView,
    commit: CommitView,
    benchmarks: Seq<Seq<char>>,
) -> (k: int)
    ensures
        ({
            let request = RequestView::BenchmarkCommit { commit, benchmarks };
            let after = next(persistent, request);
            let tries = persistent.try_commits;
            &&& 0 <= k <= tries.len()
            &&& forall|j: int| 0 <= j < k ==> (#[trigger] tries[j]).sha != commit.sha
            &&& k < tries.len() ==> tries[k].sha == commit.sha
            &&& after.current matches Some(current) && current.commit == commit
                && current.benchmarks == benchmarks && current.issue == if k < tries.len() {
                Some(tries[k].issue)
            } else {
                None
            }
            &&& after.try_commits == tries
            &&& after.posted_ends == persistent.posted_ends
            &&& comment(persistent, request) is None
        }),
{
    lemma_first_try_counts(persistent.try_commits, commit.sha)
}

/// A benchmark that is done is struck once, where it stands first, from those that are left, which
/// otherwise stay as they are; so do the commit and the issue. `at` is that place.
pub proof fn lemma_done_benchmark_is_struck(
    persistent: PersistentView,
    current: CurrentView,
    benchmark: Seq<char>,
) -> (at: int)
    requires
        persistent.current == Some(current),
    ensures
        ({
            let done = RequestView::BenchmarkDone { commit: current.commit, benchmark };
            let left = current.benchmarks;
            &&& 0 <= at <= left.len()
            &&& forall|j: int| 0 <= j < at ==> #[trigger] left[j] != benchmark
            &&& at < left.len() ==> left[at] == benchmark
            &&& next(persistent, done).try_commits == persistent.try_commits
            &&& next(persistent, done).current matches Some(now) && now.commit == current.commit
                && now.issue == current.issue && now.benchmarks == if at < left.len() {
                left.take(at) + left.skip(at + 1)
            } else {
                left
            }
        }),
{
    let left = current.benchmarks;
    if left.contains(benchmark) {
        left.index_of_first_ensures(benchmark);
        let at = left.index_of_first(benchmark)->0;
        lemma_without_first(left, benchmark, at);
        assert(left.remove(at) =~= left.take(at) + left.skip(at + 1));
        at
    } else {
        lemma_without_absent(left, benchmark);
        left.len() as int
    }
}

/// A report that a benchmark is done brings about a comment exactly when it leaves no benchmark,
/// an issue asked for the commit, and the commit was not announced before. The comment goes to
/// that issue, and names the commit and the comparison of the first try commit of its name. The
/// commit is then remembered behind those that were announced before, of which the oldest is
/// forgotten when they would be more than a hundred.
pub proof fn lemma_announcement(
    persistent: PersistentView,
    current: CurrentView,
    benchmark: Seq<char>,
) -> (k: int)
    requires
        persistent.current == Some(current),
    ensures
        ({
            let done = RequestView::BenchmarkDone { commit: current.commit, benchmark };
            let after = next(persistent, done);
            let sha = current.commit.sha;
            let tries = persistent.try_commits;
            let ends = persistent.posted_ends;
            &&& 0 <= k <= tries.len()
            &&& forall|j: int| 0 <= j < k ==> (#[trigger] tries[j]).sha != sha
            &&& k < tries.len() ==> tries[k].sha == sha
            &&& comment(persistent, done) is Some <==> after.current->0.benchmarks.len() == 0
                && current.issue is Some && !ends.contains(sha)
            &&& comment(persistent, done) matches Some(comment) ==> Some(comment.issue)
                == current.issue && comment.body == "Finished benchmarking try commit "@ + sha + (
            if k < tries.len() {
                ", [comparison URL]("@ + tries[k].comparison_url + ")."@
            } else {
                Seq::empty()
            })
            &&& after.posted_ends == if comment(persistent, done) is None {
                ends
            } else if ends.len() < 100 {
                ends.push(sha)
            } else {
                ends.skip(1).push(sha)
            }
        }),
{
    let ends = persistent.posted_ends;
    let sha = current.commit.sha;
    if ends.len() >= 100 {
        assert(ends.push(sha).drop_first() =~= ends.skip(1).push(sha));
    }
    lemma_first_try_counts(persistent.try_commits, sha)
}

/// A report on another commit than the one that is being measured clears what is being measured,
/// and changes nothing else.
pub proof fn lemma_other_commit_clears(
    persistent: PersistentView,
    commit: CommitView,
    benchmark: Seq<char>,
)
    requires
        persistent.current matches Some(current) ==> current.commit != commit,
    ensures
        next(persistent, RequestView::BenchmarkDone { commit, benchmark }) == (PersistentView {
            current: None,
            ..persistent
        }),
        comment(persistent, RequestView::BenchmarkDone { commit, benchmark }) is None,
{
}

/// What was announced is remembered as announced.
pub proof fn lemma_announced_is_remembered(posted_ends: Seq<Seq<char>>, sha: Seq<char>)
    ensures
        announced(posted_ends, sha).contains(sha),
{
    let after = announced(posted_ends, sha);
    assert(after[after.len() - 1] == sha);
}

/// A report that brought about a comment brings about no other when it comes in again, and
/// changes nothing then.
pub proof fn lemma_end_is_announced_once(
    persistent: PersistentView,
    commit: CommitView,
    benchmark: Seq<char>,
)
    requires
        comment(persistent, RequestView::BenchmarkDone { commit, benchmark }) is Some,
    ensures
        ({
            let done = RequestView::BenchmarkDone { commit, benchmark };
            let after = next(persistent, done);
            comment(after, done) is None && next(after, done) == after
        }),
{
    lemma_announced_is_remembered(persistent.posted_ends, commit.sha);
}

/// A report that comes in twice does what it does once, where no benchmark is to be run twice.
pub proof fn lemma_repeated_report_changes_nothing(
    persistent: PersistentView,
    commit: CommitView,
    benchmark: Seq<char>,
)
    requires
        persistent.current matches Some(current) ==> current.benchmarks.no_duplicates(),
    ensures
        ({
            let done = RequestView::BenchmarkDone { commit, benchmark };
            let after = next(persistent, done);
            comment(after, done) is None && next(after, done) == after
        }),
{
    if let Some(current) = confirmed(persistent.current, commit) {
        lemma_announced_is_remembered(persistent.posted_ends, commit.sha);
        lemma_struck_once(current.benchmarks, benchmark);
        lemma_without_absent(without_first(current.benchmarks, benchmark), benchmark);
    }
}

proof fn lemma_struck_once(list: Seq<Seq<char>>, item: Seq<char>)
    requires
        list.no_duplicates(),
    ensures
        !without_first(list, item).contains(item),
{
    if list.contains(item) {
        let at = list.index_of_first(item)->0;
        list.index_of_first_ensures(item);
        lemma_without_first(list, item, at);
    } else {
        lemma_without_absent(list, item);
    }
}

/// The reports that the benchmarks of `order` are done at `commit`.
pub open spec fn reports(commit: CommitView, order: Seq<Seq<char>>) -> Seq<RequestView> {
    Seq::new(
        order.len(),
        |i: int| RequestView::BenchmarkDone { commit, benchmark: order[i] },
    )
}

/// When the benchmarks that are left are reported as done, in whatever order, the last of the
/// reports leaves nothing to run, and it is the only one that brings about a comment: if an issue
/// asked for the commit, and its end was not announced before.
pub proof fn lemma_last_report_announces(
    persistent: PersistentView,
    current: CurrentView,
    order: Seq<Seq<char>>,
    n: int,
)
    requires
        persistent.current == Some(current),
        order.to_multiset() == current.benchmarks.to_multiset(),
        0 < n <= order.len(),
    ensures
        ({
            let before = all_next(persistent, reports(current.commit, order.take(n - 1)));
            let done = RequestView::BenchmarkDone {
                commit: current.commit,
                benchmark: order[n - 1],
            };
            &&& comment(before, done) is Some <==> n == order.len() && current.issue is Some
                && !persistent.posted_ends.contains(current.commit.sha)
            &&& next(before, done) == all_next(persistent, reports(current.commit, order.take(n)))
            &&& next(before, done).current is Some
            &&& next(before, done).current->0.benchmarks.len() == order.len() - n
        }),
{
    lemma_reported(persistent, current, order, n - 1);
    lemma_reported(persistent, current, order, n);
    assert(reports(current.commit, order.take(n)).drop_last() =~= reports(
        current.commit,
        order.take(n - 1),
    ));
}

/// After the first `n` of the reports that `order` makes, the other benchmarks of `order` are
/// left, and the end was not announced while any were.
proof fn lemma_reported(
    persistent: PersistentView,
    current: CurrentView,
    order: Seq<Seq<char>>,
    n: int,
)
    requires
        persistent.current == Some(current),
        order.to_multiset() == current.benchmarks.to_multiset(),
        0 <= n <= order.len(),
    ensures
        ({
            let after = all_next(persistent, reports(current.commit, order.take(n)));
            &&& after.current matches Some(now) && now.commit == current.commit && now.issue
                == current.issue && now.benchmarks.to_multiset() == order.skip(n).to_multiset()
                && now.benchmarks.len() == order.len() - n
            &&& n < order.len() || n == 0 ==> after.posted_ends == persistent.posted_ends
        }),
    decreases n,
{
    broadcast use vstd::seq_lib::group_to_multiset_ensures;

    if n == 0 {
        assert(order.skip(0) =~= order);
        vstd::seq_lib::to_multiset_len(order);
        vstd::seq_lib::to_multiset_len(current.benchmarks);
    } else {
        lemma_reported(persistent, current, order, n - 1);
        let before = all_next(persistent, reports(current.commit, order.take(n - 1)));
        let requests = reports(current.commit, order.take(n));
        assert(requests.drop_last() =~= reports(current.commit, order.take(n - 1)));
        let left = before.current->0.benchmarks;
        let item = order[n - 1];
        assert(order.skip(n - 1)[0] == item);
        assert(order.skip(n - 1).to_multiset().count(item) > 0);
        let at = left.index_of_first(item)->0;
        left.index_of_first_ensures(item);
        lemma_without_first(left, item, at);
        assert(order.skip(n - 1).remove(0) =~= order.skip(n));
    }
}

/// Finds the first try commit whose name is `sha`.
fn find_try_commit(persistent: &Persistent, sha: &str) -> (at: Option<usize>)
    ensures
        match at {
            Some(at) => at < persistent.try_commits@.len() && find_try(
                persistent@.try_commits,
                sha@,
                0,
            ) == Some(persistent.try_commits@[at as int]@),
            None => find_try(persistent@.try_commits, sha@, 0) is None,
        },
{
    let mut i: usize = 0;
    while i < persistent.try_commits.len()
        invariant
            i <= persistent.try_commits@.len(),
            find_try(persistent@.try_commits, sha@, 0) == find_try(
                persistent@.try_commits,
                sha@,
                i as int,
            ),
        decreases persistent.try_commits@.len() - i,
    {
        if text::same_text(persistent.try_commits[i].sha.as_str(), sha) {
            return Some(i);
        }
        i += 1;
    }
    None
}

/// The part of a comment that points to the comparison of `sha`, if `sha` is a try commit.
fn comparison_text(persistent: &Persistent, sha: &str) -> (res: String)
    ensures
        res@ == comparison(persistent@.try_commits, sha@),
{
    match find_try_commit(persistent, sha) {
        Some(at) => {
            let mut res: String = ", [comparison URL](".to_string();
            res.append(persistent.try_commits[at].comparison_url.as_str());
            res.append(").");
            res
        },
        None => String::new(),
    }
}

/// Strikes the first `benchmark` from those that are left to run.
fn strike(benchmarks: &mut Vec<BenchmarkName>, benchmark: &str)
    ensures
        collector::texts(final(benchmarks)@) == without_first(
            collector::texts(old(benchmarks)@),
            benchmark@,
        ),
{
    let ghost before = collector::texts(benchmarks@);
    match collector::find_text(benchmarks, benchmark) {
        Some(at) => {
            benchmarks.remove(at);
            proof {
                lemma_without_first(before, benchmark@, at as int);
            }
        },
        None => {
            proof {
                lemma_without_absent(before, benchmark@);
            }
        },
    }
}

/// Remembers that the end of `sha` was announced.
fn remember_end(posted_ends: &mut Vec<Sha>, sha: Sha)
    ensures
        collector::texts(final(posted_ends)@) == announced(
            collector::texts(old(posted_ends)@),
            sha@,
        ),
{
    posted_ends.push(sha);
    if posted_ends.len() > REMEMBERED_ENDS {
        posted_ends.remove(0);
    }
}

/// Takes note of a report, and says which comment it brings about.
pub fn handle_collected(body: Request, persistent: &mut Persistent) -> (res: (
    Response,
    Option<Comment>,
))
    ensures
        final(persistent)@ == next(old(persistent)@, body@),
        comment_view(res.1) == comment(old(persistent)@, body@),
{
    match body {
        Request::BenchmarkCommit { commit, benchmarks } => {
            let issue: Option<Issue> = match find_try_commit(persistent, commit.sha.as_str()) {
                Some(at) => Some(persistent.try_commits[at].issue.clone()),
                None => None,
            };
            persistent.current = Some(CurrentState { commit, issue, benchmarks });
            (Response {  }, None)
        },
        Request::BenchmarkDone { commit, benchmark } => {
            let mut current: CurrentState = match persistent.current.take() {
                Some(current) => if current.commit.same(&commit) {
                    current
                } else {
                    return (Response {  }, None);
                },
                None => {
                    return (Response {  }, None);
                },
            };
            strike(&mut current.benchmarks, benchmark.as_str());
            let mut comment: Option<Comment> = None;
            if current.benchmarks.len() == 0 {
                if let Some(issue) = &current.issue {
                    let sha: Sha = current.commit.sha.clone();
                    if collector::find_text(&persistent.posted_ends, sha.as_str()).is_none() {
                        let mut body: String = "Finished benchmarking try commit ".to_string();
                        body.append(sha.as_str());
                        body.append(comparison_text(persistent, sha.as_str()).as_str());
                        comment = Some(Comment { issue: issue.clone(), body });
                        remember_end(&mut persistent.posted_ends, sha);
                    }
                }
            }
            persistent.current = Some(current);
            (Response {  }, comment)
        },
    }
}

} // verus!
