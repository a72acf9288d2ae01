//! The dashboard: average times of the released compilers beside the latest commit.
use crate::arithmetic::Arithmetic;
use crate::collector;
use crate::collector::BenchmarkName;
use crate::db::{Cache, CrateSelector, Profile, Series};
use crate::load::{ArtifactData, CommitData, InputData};
use crate::text;
use vstd::prelude::*;
use vstd::string::*;
use vstd::utf8::*;

verus! {

/// The averages of one profile, by what the compilation started from.
#[derive(Debug, PartialEq)]
pub struct Cases<P> {
    pub clean_averages: Vec<P>,
    pub base_incr_averages: Vec<P>,
    pub clean_incr_averages: Vec<P>,
    pub println_incr_averages: Vec<P>,
}

/// The answer to a request for the dashboard.
#[derive(Debug, PartialEq)]
pub struct Response<P> {
    pub versions: Vec<String>,
    pub check: Cases<P>,
    pub debug: Cases<P>,
    pub opt: Cases<P>,
}

/// What a compilation starts from, as far as the dashboard tells it apart.
#[derive(Copy, Clone, Debug, PartialEq, Eq, Structural)]
pub enum Kind {
    Clean,
    BaseIncr,
    CleanIncr,
    PrintlnIncr,
}

/// The kind under which measurements with `cache` are shown.
pub open spec fn kind_of(cache: Cache) -> Kind {
    match cache {
        Cache::Empty => Kind::Clean,
        Cache::IncrementalEmpty => Kind::BaseIncr,
        Cache::IncrementalFresh => Kind::CleanIncr,
        Cache::IncrementalPatch(_) => Kind::PrintlnIncr,
    }
}

impl<P> Cases<P> {
    /// The averages of one kind.
    pub open spec fn of(self, kind: Kind) -> Seq<P> {
        match kind {
            Kind::Clean => self.clean_averages@,
            Kind::BaseIncr => self.base_incr_averages@,
            Kind::CleanIncr => self.clean_incr_averages@,
            Kind::PrintlnIncr => self.println_incr_averages@,
        }
    }

    /// No averages.
    fn new() -> (res: Self)
        ensures
            forall|kind: Kind| #[trigger] res.of(kind) == Seq::<P>::empty(),
    {
        Cases {
            clean_averages: Vec::new(),
            base_incr_averages: Vec::new(),
            clean_incr_averages: Vec::new(),
            println_incr_averages: Vec::new(),
        }
    }

    /// Puts `points` behind the averages of their kind.
    fn extend(&mut self, cache: &Cache, points: Vec<P>)
        ensures
            forall|kind: Kind| #[trigger]
                final(self).of(kind) == if kind == kind_of(*cache) {
                    old(self).of(kind) + points@
                } else {
                    old(self).of(kind)
                },
    {
        let mut points: Vec<P> = points;
        match cache {
            Cache::Empty => self.clean_averages.append(&mut points),
            Cache::IncrementalEmpty => self.base_incr_averages.append(&mut points),
            Cache::IncrementalFresh => self.clean_incr_averages.append(&mut points),
            Cache::IncrementalPatch(_) => self.println_incr_averages.append(&mut points),
        }
    }
}

impl<P> Response<P> {
    /// The averages of one profile and kind.
    pub open spec fn of(self, profile: Profile, kind: Kind) -> Seq<P> {
        match profile {
            Profile::Check => self.check.of(kind),
            Profile::Debug => self.debug.of(kind),
            Profile::Opt => self.opt.of(kind),
        }
    }
}

/// The place of the first artifact from `from` on that is the beta.
pub open spec fn beta_from(artifacts: Seq<ArtifactData>, from: int) -> Option<int>
    decreases artifacts.len() - from,
{
    if from < 0 || from >= artifacts.len() {
        None
    } else if artifacts[from].id@ == "beta"@ {
        Some(from)
    } else {
        beta_from(artifacts, from + 1)
    }
}

/// The names of the benchmarks that could be run.
pub open spec fn runnable(benchmarks: Seq<(BenchmarkName, bool)>) -> Seq<Seq<char>>
    decreases benchmarks.len(),
{
    if benchmarks.len() == 0 {
        Seq::empty()
    } else if benchmarks.last().1 {
        runnable(benchmarks.drop_last()).push(benchmarks.last().0@)
    } else {
        runnable(benchmarks.drop_last())
    }
}

/// Those of `names` that are among `others`.
pub open spec fn common(names: Seq<Seq<char>>, others: Seq<Seq<char>>) -> Seq<Seq<char>>
    decreases names.len(),
{
    if names.len() == 0 {
        Seq::empty()
    } else if others.contains(names.last()) {
        common(names.drop_last(), others).push(names.last())
    } else {
        common(names.drop_last(), others)
    }
}

/// The names of the benchmarks that the beta could run.
pub open spec fn beta_names(data: InputData) -> Seq<Seq<char>> {
    runnable(data.artifact_data@[beta_from(data.artifact_data@, 0)->0].benchmarks@)
}

/// The benchmarks of the latest commit that the beta could run too.
pub open spec fn shared_names(data: InputData) -> Seq<Seq<char>> {
    common(collector::texts(data.data@.last().benchmarks@), beta_names(data))
}

/// Whether there is a beta and a latest commit to compare with it, and the commit has every
/// benchmark that the beta could run.
pub open spec fn is_comparable(data: InputData) -> bool {
    &&& beta_from(data.artifact_data@, 0) is Some
    &&& data.data@.len() > 0
    &&& shared_names(data).len() == beta_names(data).len()
}

/// Whether the first eight bytes of a commit's name are whole characters.
pub open spec fn can_be_shortened(sha: Seq<char>) -> bool {
    is_char_boundary(encode_utf8(sha), 8)
}

/// The first eight bytes of a commit's name.
pub open spec fn shortened(sha: Seq<char>) -> Seq<char> {
    decode_utf8(encode_utf8(sha).subrange(0, 8))
}

/// The versions that the dashboard compares: the artifacts and the latest commit.
pub open spec fn version_names(data: InputData) -> Seq<Seq<char>> {
    Seq::new(data.artifact_data@.len(), |i: int| data.artifact_data@[i].id@).push(
        "master: "@ + shortened(data.data@.last().commit.sha@),
    )
}

/// Whether there are points for each of `n` series, and no point is missing.
pub open spec fn are_complete<P>(points: Seq<Vec<Option<P>>>, n: nat) -> bool {
    &&& points.len() == n
    &&& forall|i: int, k: int|
        0 <= i < points.len() && 0 <= k < points[i]@.len() ==> (
        #[trigger] points[i]@[k]) is Some
}

/// Whether `rounded` are the points of one series, each rounded.
pub open spec fn is_rounded<A: Arithmetic>(
    points: Seq<Option<A::Point>>,
    rounded: Seq<A::Point>,
) -> bool {
    &&& rounded.len() == points.len()
    &&& forall|k: int|
        0 <= k < points.len() ==> call_ensures(
            A::round_to_tenth,
            (points[k]->0,),
            #[trigger] rounded[k],
        )
}

/// Whether `rounded` are the points of all series, each rounded.
pub open spec fn are_rounded<A: Arithmetic>(
    points: Seq<Vec<Option<A::Point>>>,
    rounded: Seq<Seq<A::Point>>,
) -> bool {
    &&& rounded.len() == points.len()
    &&& forall|i: int|
        0 <= i < points.len() ==> is_rounded::<A>(points[i]@, #[trigger] rounded[i])
}

/// The points of those of the first `n` series that have this profile and kind.
pub open spec fn gathered<P>(
    series: Seq<Series>,
    points: Seq<Seq<P>>,
    n: int,
    profile: Profile,
    kind: Kind,
) -> Seq<P>
    decreases n,
{
    if n <= 0 {
        Seq::empty()
    } else {
        let before = gathered(series, points, n - 1, profile, kind);
        if series[n - 1].profile == profile && kind_of(series[n - 1].cache) == kind {
            before + points[n - 1]
        } else {
            before
        }
    }
}

/// Whether `response` shows the points `of_artifacts` and, behind them, the points `of_master`.
pub open spec fn shows_averages<P>(
    response: Response<P>,
    series: Seq<Series>,
    of_artifacts: Seq<Seq<P>>,
    of_master: Seq<Seq<P>>,
) -> bool {
    forall|profile: Profile, kind: Kind| #[trigger]
        response.of(profile, kind) == gathered(
            series,
            of_artifacts,
            series.len() as int,
            profile,
            kind,
        ) + gathered(series, of_master, series.len() as int, profile, kind)
}

/// Whether `response` is the dashboard of `data`, given the points of the summary series for the
/// artifacts and for the latest commit.
pub open spec fn is_dashboard<A: Arithmetic>(
    response: Response<A::Point>,
    data: InputData,
    artifact_points: Seq<Vec<Option<A::Point>>>,
    master_points: Seq<Vec<Option<A::Point>>>,
) -> bool {
    if data.artifact_data@.len() == 0 {
        &&& response.versions@.len() == 0
        &&& forall|profile: Profile, kind: Kind| #[trigger]
            response.of(profile, kind) == Seq::<A::Point>::empty()
    } else {
        &&& collector::texts(response.versions@) == version_names(data)
        &&& exists|of_artifacts: Seq<Seq<A::Point>>, of_master: Seq<Seq<A::Point>>|
            {
                &&& are_rounded::<A>(artifact_points, of_artifacts)
                &&& are_rounded::<A>(master_points, of_master)
                &&& #[trigger] shows_averages(
                    response,
                    data.summary_series@,
                    of_artifacts,
                    of_master,
                )
            }
    }
}

/// How many points the first `n` series have.
pub open spec fn count_points<P>(points: Seq<Seq<P>>, n: int) -> nat
    decreases n,
{
    if n <= 0 {
        0
    } else {
        count_points(points, n - 1) + points[n - 1].len()
    }
}

/// How many of the points of the first `n` series have this profile, of whatever kind they are.
pub open spec fn count_profile<P>(
    series: Seq<Series>,
    points: Seq<Seq<P>>,
    n: int,
    profile: Profile,
) -> nat {
    gathered(series, points, n, profile, Kind::Clean).len() + gathered(
        series,
        points,
        n,
        profile,
        Kind::BaseIncr,
    ).len() + gathered(series, points, n, profile, Kind::CleanIncr).len() + gathered(
        series,
        points,
        n,
        profile,
        Kind::PrintlnIncr,
    ).len()
}

/// No point is lost and none is shown twice: the averages of all profiles and kinds are as many
/// as the points of all series.
pub proof fn lemma_no_point_is_lost<P>(series: Seq<Series>, points: Seq<Seq<P>>, n: int)
    requires
        0 <= n <= series.len(),
        n <= points.len(),
    ensures
        count_profile(series, points, n, Profile::Check) + count_profile(
            series,
            points,
            n,
            Profile::Debug,
        ) + count_profile(series, points, n, Profile::Opt) == count_points(points, n),
    decreases n,
{
    if n > 0 {
        lemma_no_point_is_lost(series, points, n - 1);
    }
}

/// Every point stands among the averages of its series' profile and kind.
pub proof fn lemma_points_are_gathered<P>(
    series: Seq<Series>,
    points: Seq<Seq<P>>,
    n: int,
    i: int,
    k: int,
)
    requires
        0 <= i < n <= series.len(),
        n <= points.len(),
        0 <= k < points[i].len(),
    ensures
        gathered(series, points, n, series[i].profile, kind_of(series[i].cache)).contains(
            points[i][k],
        ),
    decreases n,
{
    let (profile, kind) = (series[i].profile, kind_of(series[i].cache));
    let before = gathered(series, points, n - 1, profile, kind);
    let now = gathered(series, points, n, profile, kind);
    if i == n - 1 {
        assert(now[before.len() + k] == points[i][k]);
    } else {
        lemma_points_are_gathered(series, points, n - 1, i, k);
        let at = choose|at: int| 0 <= at < before.len() && before[at] == points[i][k];
        assert(now[at] == points[i][k]);
    }
}

/// Finds the beta.
fn find_beta(artifacts: &Vec<ArtifactData>) -> (at: Option<usize>)
    ensures
        match at {
            Some(at) => at < artifacts@.len() && beta_from(artifacts@, 0) == Some(at as int),
            None => beta_from(artifacts@, 0) is None,
        },
{
    let mut i: usize = 0;
    while i < artifacts.len()
        invariant
            i <= artifacts@.len(),
            beta_from(artifacts@, 0) == beta_from(artifacts@, i as int),
        decreases artifacts@.len() - i,
    {
        if text::same_text(artifacts[i].id.as_str(), "beta") {
            return Some(i);
        }
        i += 1;
    }
    None
}

/// The names of the benchmarks that could be run.
fn runnable_names(benchmarks: &Vec<(BenchmarkName, bool)>) -> (res: Vec<BenchmarkName>)
    ensures
        collector::texts(res@) == runnable(benchmarks@),
{
    let mut res: Vec<BenchmarkName> = Vec::new();
    for i in 0..benchmarks.len()
        invariant
            collector::texts(res@) == runnable(benchmarks@.take(i as int)),
    {
        assert(benchmarks@.take(i + 1).drop_last() =~= benchmarks@.take(i as int));
        if benchmarks[i].1 {
            res.push(benchmarks[i].0.clone());
        }
    }
    assert(benchmarks@.take(benchmarks@.len() as int) =~= benchmarks@);
    res
}

/// The benchmarks of the latest commit that the beta could run too.
pub fn shared_benchmarks(data: &InputData) -> (res: Vec<BenchmarkName>)
    requires
        beta_from(data.artifact_data@, 0) is Some,
        data.data@.len() > 0,
    ensures
        collector::texts(res@) == shared_names(*data),
{
    let beta: &ArtifactData = &data.artifact_data[find_beta(
        &data.artifact_data,
    ).unwrap()];
    let names: Vec<BenchmarkName> = runnable_names(&beta.benchmarks);
    let latest: &CommitData = &data.data[data.data.len() - 1];
    let ghost all = collector::texts(latest.benchmarks@);
    let mut res: Vec<BenchmarkName> = Vec::new();
    for i in 0..latest.benchmarks.len()
        invariant
            all == collector::texts(latest.benchmarks@),
            collector::texts(res@) == common(all.take(i as int), collector::texts(names@)),
    {
        let name: &BenchmarkName = &latest.benchmarks[i];
        assert(all.take(i + 1).drop_last() =~= all.take(i as int));
        match collector::find_text(&names, name.as_str()) {
            Some(at) => {
                res.push(name.clone());
            },
            None => {},
        }
    }
    assert(all.take(all.len() as int) =~= all);
    res
}

/// Whether there is a beta and a latest commit to compare with it, and the commit has every
/// benchmark that the beta could run.
pub fn can_compare(data: &InputData) -> (res: bool)
    ensures
        res == is_comparable(*data),
{
    if data.data.len() == 0 {
        return false;
    }
    match find_beta(&data.artifact_data) {
        Some(at) => {
            let names: Vec<BenchmarkName> = runnable_names(&data.artifact_data[at].benchmarks);
            let shared: Vec<BenchmarkName> = shared_benchmarks(data);
            shared.len() == names.len()
        },
        None => false,
    }
}

/// Whether there are points for each of `n` series, and no point is missing.
pub fn is_complete<P: Copy>(points: &Vec<Vec<Option<P>>>, n: usize) -> (res: bool)
    ensures
        res == are_complete(points@, n as nat),
{
    if points.len() != n {
        return false;
    }
    let mut i: usize = 0;
    while i < points.len()
        invariant
            i <= points@.len(),
            points@.len() == n,
            forall|k: int, j: int|
                0 <= k < i && 0 <= j < points@[k]@.len() ==> (#[trigger] points@[k]@[j]) is Some,
        decreases points@.len() - i,
    {
        let mut j: usize = 0;
        while j < points[i].len()
            invariant
                i < points@.len(),
                j <= points@[i as int]@.len(),
                forall|k: int| 0 <= k < j ==> (#[trigger] points@[i as int]@[k]) is Some,
            decreases points@[i as int]@.len() - j,
        {
            if points[i][j].is_none() {
                return false;
            }
            j += 1;
        }
        i += 1;
    }
    true
}

/// The summary series of the latest commit, over the benchmarks that the beta could run too.
pub fn master_series(data: &InputData) -> (res: Vec<Series>)
    requires
        is_comparable(*data),
    ensures
        res@.len() == data.summary_series@.len(),
        forall|i: int|
            #![trigger res@[i]]
            0 <= i < res@.len() ==> {
                &&& res@[i].krate matches CrateSelector::Several(names) && collector::texts(names@)
                    == shared_names(*data)
                &&& res@[i].profile == data.summary_series@[i].profile
                &&& res@[i].cache == data.summary_series@[i].cache
            },
{
    let names: Vec<BenchmarkName> = shared_benchmarks(data);
    let mut res: Vec<Series> = Vec::new();
    for i in 0..data.summary_series.len()
        invariant
            collector::texts(names@) == shared_names(*data),
            res@.len() == i,
            forall|k: int|
                #![trigger res@[k]]
                0 <= k < i ==> {
                    &&& res@[k].krate matches CrateSelector::Several(names) && collector::texts(
                        names@,
                    ) == shared_names(*data)
                    &&& res@[k].profile == data.summary_series@[k].profile
                    &&& res@[k].cache == data.summary_series@[k].cache
                },
    {
        let series: &Series = &data.summary_series[i];
        res.push(
            Series {
                krate: CrateSelector::Several(names.clone()),
                profile: series.profile,
                cache: series.cache.clone(),
            },
        );
    }
    res
}

/// The points of one series, each rounded.
fn round_points<A: Arithmetic>(points: &Vec<Option<A::Point>>) -> (res: Vec<A::Point>)
    requires
        forall|k: int| 0 <= k < points@.len() ==> (#[trigger] points@[k]) is Some,
    ensures
        is_rounded::<A>(points@, res@),
{
    let mut res: Vec<A::Point> = Vec::new();
    for i in 0..points.len()
        invariant
            forall|k: int| 0 <= k < points@.len() ==> (#[trigger] points@[k]) is Some,
            res@.len() == i,
            forall|k: int|
                0 <= k < i ==> call_ensures(
                    A::round_to_tenth,
                    (points@[k]->0,),
                    #[trigger] res@[k],
                ),
    {
        res.push(A::round_to_tenth(points[i].unwrap()));
    }
    res
}

/// Puts the points of `series` behind the averages of `response`, and hands out what they were
/// rounded to.
fn add_averages<A: Arithmetic>(
    response: &mut Response<A::Point>,
    series: &Vec<Series>,
    points: &Vec<Vec<Option<A::Point>>>,
) -> (rounded: Ghost<Seq<Seq<A::Point>>>)
    requires
        are_complete(points@, series@.len()),
    ensures
        are_rounded::<A>(points@, rounded@),
        final(response).versions == old(response).versions,
        forall|profile: Profile, kind: Kind| #[trigger]
            final(response).of(profile, kind) == old(response).of(profile, kind) + gathered(
                series@,
                rounded@,
                series@.len() as int,
                profile,
                kind,
            ),
{
    let ghost mut rounded: Seq<Seq<A::Point>> = Seq::empty();
    let mut n: usize = 0;
    while n < series.len()
        invariant
            n <= series@.len(),
            are_complete(points@, series@.len()),
            rounded.len() == n,
            forall|i: int| 0 <= i < n ==> is_rounded::<A>(points@[i]@, #[trigger] rounded[i]),
            response.versions == old(response).versions,
            forall|profile: Profile, kind: Kind| #[trigger]
                response.of(profile, kind) == old(response).of(profile, kind) + gathered(
                    series@,
                    rounded,
                    n as int,
                    profile,
                    kind,
                ),
        decreases series@.len() - n,
    {
        let ghost before = *response;
        let ghost rounded_before = rounded;
        assert forall|k: int| 0 <= k < points@[n as int]@.len() implies (
        #[trigger] points@[n as int]@[k]) is Some by {}
        let averages: Vec<A::Point> = round_points::<A>(&points[n]);
        proof {
            rounded = rounded.push(averages@);
        }
        let cache: &Cache = &series[n].cache;
        match series[n].profile {
            Profile::Check => response.check.extend(cache, averages),
            Profile::Debug => response.debug.extend(cache, averages),
            Profile::Opt => response.opt.extend(cache, averages),
        }
        proof {
            assert forall|profile: Profile, kind: Kind| #[trigger]
                response.of(profile, kind) == old(response).of(profile, kind) + gathered(
                    series@,
                    rounded,
                    n + 1,
                    profile,
                    kind,
                ) by {
                lemma_gathered_before(series@, rounded_before, averages@, n as int, profile, kind);
                assert(before.of(profile, kind) == old(response).of(profile, kind) + gathered(
                    series@,
                    rounded_before,
                    n as int,
                    profile,
                    kind,
                ));
            }
        }
        n += 1;
    }
    Ghost(rounded)
}

proof fn lemma_gathered_before<P>(
    series: Seq<Series>,
    points: Seq<Seq<P>>,
    more: Seq<P>,
    n: int,
    profile: Profile,
    kind: Kind,
)
    requires
        0 <= n <= points.len(),
    ensures
        gathered(series, points.push(more), n, profile, kind) == gathered(
            series,
            points,
            n,
            profile,
            kind,
        ),
    decreases n,
{
    if n > 0 {
        lemma_gathered_before(series, points, more, n - 1, profile, kind);
    }
}

/// The first eight bytes of a commit's name.
fn shorten(sha: &str) -> (res: String)
    requires
        can_be_shortened(sha@),
    ensures
        res@ == shortened(sha@),
{
    let (res, _) = sha.split_at(8);
    proof {
        encode_utf8_decode_utf8(res@);
    }
    res.to_string()
}

/// The versions that the dashboard compares.
fn list_versions(data: &InputData) -> (res: Vec<String>)
    requires
        data.data@.len() > 0,
        can_be_shortened(data.data@.last().commit.sha@),
    ensures
        collector::texts(res@) == version_names(*data),
{
    let mut res: Vec<String> = Vec::new();
    for i in 0..data.artifact_data.len()
        invariant
            res@.len() == i,
            forall|k: int| 0 <= k < i ==> (#[trigger] res@[k])@ == data.artifact_data@[k].id@,
    {
        res.push(data.artifact_data[i].id.clone());
    }
    let mut master: String = "master: ".to_string();
    master.append(shorten(data.data[data.data.len() - 1].commit.sha.as_str()).as_str());
    res.push(master);
    res
}

/// The dashboard of `data`, given the points of the summary series: `artifact_points` for the
/// artifacts, and `master_points` for the latest commit over the benchmarks of `master_series`.
pub fn handle_dashboard<A: Arithmetic>(
    data: &InputData,
    artifact_points: &Vec<Vec<Option<A::Point>>>,
    master_points: &Vec<Vec<Option<A::Point>>>,
) -> (res: Response<A::Point>)
    requires
        data.artifact_data@.len() > 0 ==> {
            &&& is_comparable(*data)
            &&& can_be_shortened(data.data@.last().commit.sha@)
            &&& are_complete(artifact_points@, data.summary_series@.len())
            &&& are_complete(master_points@, data.summary_series@.len())
        },
    ensures
        is_dashboard::<A>(res, *data, artifact_points@, master_points@),
{
    let mut res: Response<A::Point> = Response {
        versions: Vec::new(),
        check: Cases::new(),
        debug: Cases::new(),
        opt: Cases::new(),
    };
    if data.artifact_data.len() == 0 {
        return res;
    }
    let of_artifacts: Ghost<Seq<Seq<A::Point>>> = add_averages::<A>(
        &mut res,
        &data.summary_series,
        artifact_points,
    );
    let of_master: Ghost<Seq<Seq<A::Point>>> = add_averages::<A>(
        &mut res,
        &data.summary_series,
        master_points,
    );
    let ghost whole = res;
    res.versions = list_versions(data);
    proof {
        let series = data.summary_series@;
        assert forall|profile: Profile, kind: Kind| #[trigger]
            res.of(profile, kind) == gathered(
                series,
                of_artifacts@,
                series.len() as int,
                profile,
                kind,
            ) + gathered(series, of_master@, series.len() as int, profile, kind) by {
            assert(res.of(profile, kind) == whole.of(profile, kind));
        }
        assert(shows_averages(res, series, of_artifacts@, of_master@));
    }
    res
}

} // verus!
