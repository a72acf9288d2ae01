//! Commits by number: a graph names each commit once and refers to it by its place.
use crate::collector;
use crate::collector::Sha;
use vstd::hash_map::StringHashMap;
use vstd::prelude::*;
use vstd::string::*;

verus! {

/// How many commits can be numbered.
pub const COMMIT_LIMIT: usize = 65536;

/// The commits that have a number, once `sha` has one: those that had one before keep it.
pub open spec fn numbered(commits: Seq<Seq<char>>, sha: Seq<char>) -> Seq<Seq<char>> {
    if commits.contains(sha) {
        commits
    } else {
        commits.push(sha)
    }
}

/// The commits that have a number, once all of `shas` have one, given in this order.
pub open spec fn all_numbered(commits: Seq<Seq<char>>, shas: Seq<Seq<char>>) -> Seq<Seq<char>>
    decreases shas.len(),
{
    if shas.len() == 0 {
        commits
    } else {
        numbered(all_numbered(commits, shas.drop_last()), shas.last())
    }
}

/// Whether `short` is how `long` begins.
pub open spec fn begins(short: Seq<Seq<char>>, long: Seq<Seq<char>>) -> bool {
    short.len() <= long.len() && forall|i: int|
        0 <= i < short.len() ==> #[trigger] short[i] == long[i]
}

/// A number, once given, is kept: the commits that are numbered after the first `n` of `shas`
/// are those with the lowest numbers after all of them.
pub proof fn lemma_numbers_are_kept(commits: Seq<Seq<char>>, shas: Seq<Seq<char>>, n: int)
    requires
        0 <= n <= shas.len(),
    ensures
        begins(all_numbered(commits, shas.take(n)), all_numbered(commits, shas)),
    decreases shas.len(),
{
    if n == shas.len() {
        assert(shas.take(n) =~= shas);
    } else {
        lemma_numbers_are_kept(commits, shas.drop_last(), n);
        assert(shas.drop_last().take(n) =~= shas.take(n));
    }
}

/// Numbering one list behind another is numbering the two as one list.
pub proof fn lemma_numbering_continues(
    commits: Seq<Seq<char>>,
    first: Seq<Seq<char>>,
    second: Seq<Seq<char>>,
)
    ensures
        all_numbered(commits, first + second) == all_numbered(
            all_numbered(commits, first),
            second,
        ),
    decreases second.len(),
{
    if second.len() > 0 {
        assert((first + second).drop_last() =~= first + second.drop_last());
        lemma_numbering_continues(commits, first, second.drop_last());
    }
}

/// No commit has two numbers.
pub proof fn lemma_numbers_are_unique(commits: Seq<Seq<char>>, shas: Seq<Seq<char>>)
    requires
        commits.no_duplicates(),
    ensures
        all_numbered(commits, shas).no_duplicates(),
    decreases shas.len(),
{
    if shas.len() > 0 {
        lemma_numbers_are_unique(commits, shas.drop_last());
    }
}

/// Exactly the commits that are given get a number.
pub proof fn lemma_all_get_numbers(commits: Seq<Seq<char>>, shas: Seq<Seq<char>>, sha: Seq<char>)
    ensures
        all_numbered(commits, shas).contains(sha) <==> commits.contains(sha) || shas.contains(sha),
    decreases shas.len(),
{
    if shas.len() > 0 {
        let before = all_numbered(commits, shas.drop_last());
        lemma_all_get_numbers(commits, shas.drop_last(), sha);
        if before.contains(sha) {
            let i = choose|i: int| 0 <= i < before.len() && before[i] == sha;
            assert(numbered(before, shas.last())[i] == sha);
        }
        if shas.last() == sha && !before.contains(sha) {
            assert(before.push(sha)[before.len() as int] == sha);
        }
        if shas.contains(sha) && shas.last() != sha {
            let i = choose|i: int| 0 <= i < shas.len() && shas[i] == sha;
            assert(shas.drop_last()[i] == sha);
        }
    }
}

/// Commits get numbers in the order in which they first appear: one that appears for the first
/// time behind another has the higher number.
pub proof fn lemma_numbers_follow_first_appearance(
    commits: Seq<Seq<char>>,
    shas: Seq<Seq<char>>,
    i: int,
    j: int,
) -> (numbers: (int, int))
    requires
        0 <= i < j < shas.len(),
        !commits.contains(shas[j]),
        !shas.take(j).contains(shas[j]),
    ensures
        0 <= numbers.0 < numbers.1 < all_numbered(commits, shas).len(),
        all_numbered(commits, shas)[numbers.0] == shas[i],
        all_numbered(commits, shas)[numbers.1] == shas[j],
{
    let first = shas.take(j);
    let more = shas.take(j + 1);
    let before = all_numbered(commits, first);
    let now = all_numbered(commits, more);
    assert(first[i] == shas[i]);
    lemma_all_get_numbers(commits, first, shas[i]);
    lemma_all_get_numbers(commits, first, shas[j]);
    let p = choose|p: int| 0 <= p < before.len() && before[p] == shas[i];
    assert(more.drop_last() =~= first);
    assert(now == before.push(shas[j]));
    lemma_numbers_are_kept(commits, shas, j + 1);
    assert(now[p] == shas[i]);
    assert(now[before.len() as int] == shas[j]);
    (p, before.len() as int)
}

/// Gives numbers to commits.
pub struct CommitIdxCache {
    commit_idx: StringHashMap<u16>,
    commits: Vec<Sha>,
}

impl View for CommitIdxCache {
    type V = Seq<Seq<char>>;

    /// The commits that have a number, each in its place.
    closed spec fn view(&self) -> Seq<Seq<char>> {
        collector::texts(self.commits@)
    }
}

impl CommitIdxCache {
    /// Whether each commit has one number, and every number fits.
    pub closed spec fn is_cache(self) -> bool {
        &&& self@.len() <= COMMIT_LIMIT
        &&& self@.no_duplicates()
        &&& forall|sha: Seq<char>|
            #[trigger] self.commit_idx@.contains_key(sha) ==> self.commit_idx@[sha] < self@.len()
                && self@[self.commit_idx@[sha] as int] == sha
        &&& forall|i: int|
            0 <= i < self@.len() ==> self.commit_idx@.contains_key(#[trigger] self@[i])
    }

    /// No more commits are numbered than can be: as many as there are numbers of 16 bits.
    pub proof fn lemma_within_limit(self)
        requires
            self.is_cache(),
        ensures
            self@.len() <= COMMIT_LIMIT,
            COMMIT_LIMIT == u16::MAX + 1,
            self@.no_duplicates(),
    {
    }

    /// A cache without commits.
    pub fn new() -> (res: Self)
        ensures
            res.is_cache(),
            res@ == Seq::<Seq<char>>::empty(),
    {
        CommitIdxCache { commit_idx: StringHashMap::new(), commits: Vec::new() }
    }

    /// The commits, each in the place of its number.
    pub fn into_commits(self) -> (res: Vec<Sha>)
        ensures
            collector::texts(res@) == self@,
    {
        self.commits
    }

    /// Whether `commit` has a number or can get one.
    pub fn has_room(&self, commit: &Sha) -> (res: bool)
        requires
            self.is_cache(),
        ensures
            res == (numbered(self@, commit@).len() <= COMMIT_LIMIT),
    {
        if self.commits.len() < COMMIT_LIMIT {
            return true;
        }
        self.commit_idx.contains_key(commit.as_str())
    }

    /// The number of `commit`; the next one if it has none yet.
    pub fn lookup(&mut self, commit: &Sha) -> (idx: u16)
        requires
            old(self).is_cache(),
            numbered(old(self)@, commit@).len() <= COMMIT_LIMIT,
        ensures
            final(self).is_cache(),
            final(self)@ == numbered(old(self)@, commit@),
            idx < final(self)@.len(),
            final(self)@[idx as int] == commit@,
    {
        if let Some(idx) = self.commit_idx.get(commit.as_str()) {
            return *idx;
        }
        let ghost before = *self;
        let idx: u16 = self.commits.len() as u16;
        self.commits.push(commit.clone());
        self.commit_idx.insert(commit.clone(), idx);
        assert(self@ =~= before@.push(commit@));
        idx
    }
}

} // verus!
