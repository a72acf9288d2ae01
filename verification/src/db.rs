//! Series of measurements.
use crate::collector::{BenchmarkName, Sha};
use vstd::hash_map::StringHashMap;
use vstd::prelude::*;
use vstd::string::*;

verus! {

/// How a benchmark is compiled.
#[derive(Copy, Clone, Debug, PartialEq, Eq, Structural)]
pub enum Profile {
    Check,
    Debug,
    Opt,
}

/// What of an earlier compilation a benchmark starts from.
#[derive(Debug, PartialEq, Eq)]
pub enum Cache {
    Empty,
    IncrementalEmpty,
    IncrementalFresh,
    /// With the patch of this name applied since.
    IncrementalPatch(String),
}

impl Clone for Cache {
    fn clone(&self) -> (res: Self)
        ensures
            res == *self,
    {
        match self {
            Cache::Empty => Cache::Empty,
            Cache::IncrementalEmpty => Cache::IncrementalEmpty,
            Cache::IncrementalFresh => Cache::IncrementalFresh,
            Cache::IncrementalPatch(name) => Cache::IncrementalPatch(name.clone()),
        }
    }
}

/// The benchmarks that a series is about.
#[derive(Debug, PartialEq, Eq)]
pub enum CrateSelector {
    All,
    Several(Vec<BenchmarkName>),
    Specific(BenchmarkName),
}

impl CrateSelector {
    /// Whether the series is about one benchmark.
    pub fn is_specific(&self) -> (res: bool)
        ensures
            res == (*self is Specific),
    {
        match self {
            CrateSelector::Specific(_) => true,
            _ => false,
        }
    }

    /// The one benchmark that the series is about.
    pub fn as_specific(&self) -> (res: Option<&BenchmarkName>)
        ensures
            match *self {
                CrateSelector::Specific(name) => res == Some(&name),
                _ => res is None,
            },
    {
        match self {
            CrateSelector::Specific(name) => Some(name),
            _ => None,
        }
    }
}

/// A series of measurements.
#[derive(Debug, PartialEq, Eq)]
pub struct Series {
    pub krate: CrateSelector,
    pub profile: Profile,
    pub cache: Cache,
}

/// A measurement that is missing and was filled in: of all runs of a benchmark, or of one.
pub struct Interpolation<R> {
    pub benchmark: BenchmarkName,
    pub run: Option<R>,
}

/// The measurements that were filled in, by the name of the commit.
#[verifier::reject_recursive_types(R)]
pub struct Interpolations<R> {
    by_commit: StringHashMap<Vec<Interpolation<R>>>,
}

impl<R> View for Interpolations<R> {
    type V = Map<Seq<char>, Vec<Interpolation<R>>>;

    closed spec fn view(&self) -> Map<Seq<char>, Vec<Interpolation<R>>> {
        self.by_commit@
    }
}

impl<R> Interpolations<R> {
    /// Nothing was filled in.
    pub fn new() -> (res: Self)
        ensures
            res@ == Map::<Seq<char>, Vec<Interpolation<R>>>::empty(),
    {
        Interpolations { by_commit: StringHashMap::new() }
    }

    /// Takes note of what was filled in at the commit `sha`.
    pub fn insert(&mut self, sha: Sha, list: Vec<Interpolation<R>>)
        ensures
            final(self)@ == old(self)@.insert(sha@, list),
    {
        self.by_commit.insert(sha, list);
    }

    /// What was filled in at the commit `sha`.
    pub fn get(&self, sha: &Sha) -> (list: Option<&Vec<Interpolation<R>>>)
        ensures
            match list {
                Some(list) => self@.contains_key(sha@) && *list == self@[sha@],
                None => !self@.contains_key(sha@),
            },
    {
        self.by_commit.get(sha.as_str())
    }
}

/// What the handlers ask of the database that holds the measurements.
pub trait Database {
    /// One run of a benchmark.
    type Run;

    /// Whether `run` was compiled as `profile` says.
    fn profile_matches(profile: Profile, run: &Self::Run) -> bool;

    /// Whether `run` started from what `cache` says.
    fn cache_matches(cache: &Cache, run: &Self::Run) -> bool;

    /// The name under which measurements that start from `cache` are shown.
    fn cache_name(cache: &Cache) -> String;
}

} // verus!
