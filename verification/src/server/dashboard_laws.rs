//! What holds of dashboards: which benchmarks and versions they compare, and where every average
//! stands.
use crate::arithmetic::Arithmetic;
use crate::collector;
use crate::collector::BenchmarkName;
use crate::db::{Cache, Profile, Series};
use crate::load::{ArtifactData, InputData};
use crate::selection;
use crate::server::dashboard;
use crate::server::dashboard::{Kind, Response};
use vstd::prelude::*;
use vstd::string::*;
use vstd::utf8::*;

verus! {

/// The beta is the first artifact of that name; there is none only if no artifact has that name.
pub proof fn lemma_first_beta_counts(artifacts: Seq<ArtifactData>) -> (k: int)
    ensures
        0 <= k <= artifacts.len(),
        forall|j: int| 0 <= j < k ==> (#[trigger] artifacts[j]).id@ != "beta"@,
        k < artifacts.len() ==> artifacts[k].id@ == "beta"@ && dashboard::beta_from(artifacts, 0)
            == Some(k),
        k == artifacts.len() ==> dashboard::beta_from(artifacts, 0) is None,
{
    lemma_beta_from(artifacts, 0)
}

proof fn lemma_beta_from(artifacts: Seq<ArtifactData>, from: int) -> (k: int)
    requires
        0 <= from <= artifacts.len(),
    ensures
        from <= k <= artifacts.len(),
        forall|j: int| from <= j < k ==> (#[trigger] artifacts[j]).id@ != "beta"@,
        k < artifacts.len() ==> artifacts[k].id@ == "beta"@ && dashboard::beta_from(
            artifacts,
            from,
        ) == Some(k),
        k == artifacts.len() ==> dashboard::beta_from(artifacts, from) is None,
    decreases artifacts.len() - from,
{
    if from < artifacts.len() && artifacts[from].id@ != "beta"@ {
        lemma_beta_from(artifacts, from + 1)
    } else {
        from
    }
}

/// Which of the benchmarks could be run.
pub open spec fn ran(benchmarks: Seq<(BenchmarkName, bool)>) -> Seq<bool> {
    Seq::new(benchmarks.len(), |i: int| benchmarks[i].1)
}

/// The names of the benchmarks that could be run are those that are marked so, in their order.
pub proof fn lemma_runnable(benchmarks: Seq<(BenchmarkName, bool)>) -> (chosen: Seq<int>)
    ensures
        selection::is_selection(ran(benchmarks), chosen),
        dashboard::runnable(benchmarks).len() == chosen.len(),
        forall|j: int|
            0 <= j < chosen.len() ==> #[trigger] dashboard::runnable(benchmarks)[j]
                == benchmarks[chosen[j]].0@,
{
    let n = benchmarks.len() as int;
    assert(benchmarks.take(n) =~= benchmarks);
    assert(ran(benchmarks).take(n) =~= ran(benchmarks));
    lemma_first_runnable(benchmarks, n)
}

proof fn lemma_first_runnable(benchmarks: Seq<(BenchmarkName, bool)>, n: int) -> (chosen: Seq<int>)
    requires
        0 <= n <= benchmarks.len(),
    ensures
        selection::is_selection(ran(benchmarks).take(n), chosen),
        dashboard::runnable(benchmarks.take(n)).len() == chosen.len(),
        forall|j: int|
            0 <= j < chosen.len() ==> #[trigger] dashboard::runnable(benchmarks.take(n))[j]
                == benchmarks[chosen[j]].0@,
    decreases n,
{
    if n == 0 {
        Seq::empty()
    } else {
        let before = lemma_first_runnable(benchmarks, n - 1);
        selection::lemma_selection_goes_on(ran(benchmarks), n - 1, before);
        assert(benchmarks.take(n).drop_last() =~= benchmarks.take(n - 1));
        selection::extended(ran(benchmarks), n - 1, before)
    }
}

/// Which of `names` are among `others`.
pub open spec fn among(names: Seq<Seq<char>>, others: Seq<Seq<char>>) -> Seq<bool> {
    Seq::new(names.len(), |i: int| others.contains(names[i]))
}

/// The names that two lists have in common are those of the first that are among the second, in
/// their order.
pub proof fn lemma_common(names: Seq<Seq<char>>, others: Seq<Seq<char>>) -> (chosen: Seq<int>)
    ensures
        selection::is_selection(among(names, others), chosen),
        dashboard::common(names, others).len() == chosen.len(),
        forall|j: int|
            0 <= j < chosen.len() ==> #[trigger] dashboard::common(names, others)[j]
                == names[chosen[j]],
{
    let n = names.len() as int;
    assert(names.take(n) =~= names);
    assert(among(names, others).take(n) =~= among(names, others));
    lemma_first_common(names, others, n)
}

proof fn lemma_first_common(names: Seq<Seq<char>>, others: Seq<Seq<char>>, n: int) -> (chosen: Seq<
    int,
>)
    requires
        0 <= n <= names.len(),
    ensures
        selection::is_selection(among(names, others).take(n), chosen),
        dashboard::common(names.take(n), others).len() == chosen.len(),
        forall|j: int|
            0 <= j < chosen.len() ==> #[trigger] dashboard::common(names.take(n), others)[j]
                == names[chosen[j]],
    decreases n,
{
    if n == 0 {
        Seq::empty()
    } else {
        let before = lemma_first_common(names, others, n - 1);
        selection::lemma_selection_goes_on(among(names, others), n - 1, before);
        assert(names.take(n).drop_last() =~= names.take(n - 1));
        selection::extended(among(names, others), n - 1, before)
    }
}

/// Whether the artifact could run the benchmark `name`.
pub open spec fn could_run(artifact: ArtifactData, name: Seq<char>) -> bool {
    exists|i: int|
        0 <= i < artifact.benchmarks@.len() && (#[trigger] artifact.benchmarks@[i]).0@ == name
            && artifact.benchmarks@[i].1
}

/// A benchmark is compared if and only if the last commit has it and the first beta could run it.
pub proof fn lemma_shared_with_the_latest(data: InputData, beta: int, name: Seq<char>)
    requires
        data.data@.len() > 0,
        0 <= beta < data.artifact_data@.len(),
        data.artifact_data@[beta].id@ == "beta"@,
        forall|j: int| 0 <= j < beta ==> (#[trigger] data.artifact_data@[j]).id@ != "beta"@,
    ensures
        dashboard::shared_names(data).contains(name) <==> could_run(
            data.artifact_data@[beta],
            name,
        ) && exists|i: int|
            0 <= i < data.data@[data.data@.len() - 1].benchmarks@.len() && (
            #[trigger] data.data@[data.data@.len() - 1].benchmarks@[i])@ == name,
{
    let k = lemma_first_beta_counts(data.artifact_data@);
    assert(k == beta);
    let benchmarks = data.artifact_data@[beta].benchmarks@;
    let latest = data.data@[data.data@.len() - 1].benchmarks@;
    let names = collector::texts(latest);
    let others = dashboard::runnable(benchmarks);
    let picked = lemma_runnable(benchmarks);
    let shared = lemma_common(names, others);
    let res = dashboard::shared_names(data);
    if res.contains(name) {
        let j = choose|j: int| 0 <= j < res.len() && res[j] == name;
        assert(among(names, others)[shared[j]]);
        assert(latest[shared[j]]@ == name);
        assert(others.contains(name));
        let i = choose|i: int| 0 <= i < others.len() && others[i] == name;
        assert(ran(benchmarks)[picked[i]]);
        assert(benchmarks[picked[i]].0@ == name);
    }
    if could_run(data.artifact_data@[beta], name) && exists|i: int|
        0 <= i < latest.len() && (#[trigger] latest[i])@ == name {
        let b = choose|i: int|
            0 <= i < benchmarks.len() && (#[trigger] benchmarks[i]).0@ == name && benchmarks[i].1;
        assert(ran(benchmarks)[b]);
        assert(picked.contains(b));
        let p = choose|p: int| 0 <= p < picked.len() && picked[p] == b;
        assert(others[p] == name);
        let i = choose|i: int| 0 <= i < latest.len() && (#[trigger] latest[i])@ == name;
        assert(among(names, others)[i]);
        assert(shared.contains(i));
        let j = choose|j: int| 0 <= j < shared.len() && shared[j] == i;
        assert(res[j] == name);
    }
}

/// The commit and the beta can be compared if and only if there are both and as many benchmarks of
/// the last commit are among those that the first beta could run as it could run at all.
pub proof fn lemma_comparable(data: InputData) -> (chosen: (int, Seq<int>, Seq<int>))
    ensures
        ({
            let (k, of_beta, of_latest) = chosen;
            let artifacts = data.artifact_data@;
            &&& 0 <= k <= artifacts.len()
            &&& forall|j: int| 0 <= j < k ==> (#[trigger] artifacts[j]).id@ != "beta"@
            &&& k < artifacts.len() ==> artifacts[k].id@ == "beta"@
            &&& k < artifacts.len() && data.data@.len() > 0 ==> {
                &&& selection::is_selection(ran(artifacts[k].benchmarks@), of_beta)
                &&& selection::is_selection(
                    among(
                        collector::texts(data.data@[data.data@.len() - 1].benchmarks@),
                        Seq::new(
                            of_beta.len(),
                            |j: int| artifacts[k].benchmarks@[of_beta[j]].0@,
                        ),
                    ),
                    of_latest,
                )
            }
            &&& dashboard::is_comparable(data) <==> k < artifacts.len() && data.data@.len() > 0
                && of_beta.len() == of_latest.len()
        }),
{
    let k = lemma_first_beta_counts(data.artifact_data@);
    if k < data.artifact_data@.len() && data.data@.len() > 0 {
        let benchmarks = data.artifact_data@[k].benchmarks@;
        let of_beta = lemma_runnable(benchmarks);
        let others = Seq::new(of_beta.len(), |j: int| benchmarks[of_beta[j]].0@);
        assert(dashboard::runnable(benchmarks) =~= others);
        let of_latest = lemma_common(collector::texts(data.data@.last().benchmarks@), others);
        (k, of_beta, of_latest)
    } else {
        (k, Seq::empty(), Seq::empty())
    }
}

/// Of the commits only the last one counts: whatever stands in front of it, the same benchmarks
/// and versions are compared, if they can be.
pub proof fn lemma_only_the_latest_counts(a: InputData, b: InputData)
    requires
        a.artifact_data@ == b.artifact_data@,
        a.data@.len() > 0,
        b.data@.len() > 0,
        a.data@[a.data@.len() - 1] == b.data@[b.data@.len() - 1],
    ensures
        dashboard::shared_names(a) == dashboard::shared_names(b),
        dashboard::is_comparable(a) == dashboard::is_comparable(b),
        dashboard::version_names(a) == dashboard::version_names(b),
{
    assert(dashboard::version_names(a) =~= dashboard::version_names(b));
}

/// A commit's name is shortened to what its first eight bytes encode.
pub proof fn lemma_shortened(sha: Seq<char>)
    requires
        dashboard::can_be_shortened(sha),
    ensures
        encode_utf8(dashboard::shortened(sha)) == encode_utf8(sha).subrange(0, 8),
        is_ascii_chars(sha) ==> sha.len() >= 8 && dashboard::shortened(sha) == sha.take(8),
{
    broadcast use vstd::utf8::group_utf8_lib;

    let bytes = encode_utf8(sha);
    let first = bytes.subrange(0, 8);
    assert(valid_utf8(first));
    if is_ascii_chars(sha) {
        is_ascii_chars_encode_utf8(sha);
        assert(8 <= bytes.len());
        let short = sha.take(8);
        assert(is_ascii_chars(short));
        is_ascii_chars_encode_utf8(short);
        assert forall|i: int| 0 <= i < 8 implies encode_utf8(short)[i] == first[i] by {
            assert(short[i] == sha[i]);
        }
        assert(encode_utf8(short) =~= first);
    }
}

/// The versions are the artifacts, in their order, and behind them the last commit, by its short
/// name.
pub proof fn lemma_versions(data: InputData)
    requires
        data.data@.len() > 0,
        dashboard::can_be_shortened(data.data@[data.data@.len() - 1].commit.sha@),
    ensures
        dashboard::version_names(data).len() == data.artifact_data@.len() + 1,
        forall|i: int|
            0 <= i < data.artifact_data@.len() ==> #[trigger] dashboard::version_names(data)[i]
                == data.artifact_data@[i].id@,
        is_ascii_chars(data.data@[data.data@.len() - 1].commit.sha@)
            ==> dashboard::version_names(data)[data.artifact_data@.len() as int] == "master: "@
            + data.data@[data.data@.len() - 1].commit.sha@.take(8),
{
    lemma_shortened(data.data@[data.data@.len() - 1].commit.sha@);
}

/// Each average stands in the list of its profile and of what its compilation started from.
pub proof fn lemma_each_average_has_its_list<P>(response: Response<P>, patch: String)
    ensures
        response.of(Profile::Check, dashboard::kind_of(Cache::Empty))
            == response.check.clean_averages@,
        response.of(Profile::Check, dashboard::kind_of(Cache::IncrementalEmpty))
            == response.check.base_incr_averages@,
        response.of(Profile::Check, dashboard::kind_of(Cache::IncrementalFresh))
            == response.check.clean_incr_averages@,
        response.of(Profile::Check, dashboard::kind_of(Cache::IncrementalPatch(patch)))
            == response.check.println_incr_averages@,
        response.of(Profile::Debug, dashboard::kind_of(Cache::Empty))
            == response.debug.clean_averages@,
        response.of(Profile::Debug, dashboard::kind_of(Cache::IncrementalEmpty))
            == response.debug.base_incr_averages@,
        response.of(Profile::Debug, dashboard::kind_of(Cache::IncrementalFresh))
            == response.debug.clean_incr_averages@,
        response.of(Profile::Debug, dashboard::kind_of(Cache::IncrementalPatch(patch)))
            == response.debug.println_incr_averages@,
        response.of(Profile::Opt, dashboard::kind_of(Cache::Empty)) == response.opt.clean_averages@,
        response.of(Profile::Opt, dashboard::kind_of(Cache::IncrementalEmpty))
            == response.opt.base_incr_averages@,
        response.of(Profile::Opt, dashboard::kind_of(Cache::IncrementalFresh))
            == response.opt.clean_incr_averages@,
        response.of(Profile::Opt, dashboard::kind_of(Cache::IncrementalPatch(patch)))
            == response.opt.println_incr_averages@,
{
}

/// How many points those of the first `n` series have that `wanted` marks.
pub open spec fn points_before<P>(wanted: Seq<bool>, points: Seq<Seq<P>>, n: int) -> nat
    decreases n,
{
    if n <= 0 {
        0
    } else if wanted[n - 1] {
        points_before(wanted, points, n - 1) + points[n - 1].len()
    } else {
        points_before(wanted, points, n - 1)
    }
}

/// Which series have this profile and kind.
pub open spec fn belongs(series: Seq<Series>, profile: Profile, kind: Kind) -> Seq<bool> {
    Seq::new(
        series.len(),
        |i: int| series[i].profile == profile && dashboard::kind_of(series[i].cache) == kind,
    )
}

proof fn lemma_gathered_place<P>(
    series: Seq<Series>,
    points: Seq<Seq<P>>,
    n: int,
    profile: Profile,
    kind: Kind,
    i: int,
)
    requires
        0 <= i <= n <= series.len(),
        points.len() == series.len(),
    ensures
        dashboard::gathered(series, points, n, profile, kind).len() == points_before(
            belongs(series, profile, kind),
            points,
            n,
        ),
        points_before(belongs(series, profile, kind), points, i) <= points_before(
            belongs(series, profile, kind),
            points,
            n,
        ),
        i < n && belongs(series, profile, kind)[i] ==> points_before(
            belongs(series, profile, kind),
            points,
            i,
        ) + points[i].len() <= points_before(belongs(series, profile, kind), points, n)
            && dashboard::gathered(series, points, n, profile, kind).subrange(
            points_before(belongs(series, profile, kind), points, i) as int,
            (points_before(belongs(series, profile, kind), points, i) + points[i].len()) as int,
        ) == points[i],
    decreases n,
{
    if n > 0 {
        lemma_gathered_place(
            series,
            points,
            n - 1,
            profile,
            kind,
            if i < n {
                i
            } else {
                n - 1
            },
        );
        let at = points_before(belongs(series, profile, kind), points, i) as int;
        let now = dashboard::gathered(series, points, n, profile, kind);
        let before = dashboard::gathered(series, points, n - 1, profile, kind);
        if i < n && belongs(series, profile, kind)[i] {
            if i == n - 1 {
                assert(now.subrange(at, at + points[i].len()) =~= points[i]);
            } else {
                assert(now.subrange(at, at + points[i].len()) =~= before.subrange(
                    at,
                    at + points[i].len(),
                ));
            }
        }
    }
}

/// The list of a profile and kind holds the points of the series of that profile and kind: those
/// for the artifacts first, then those for the last commit, each series behind those in front of
/// it, and nothing else.
pub proof fn lemma_averages_stand_in_order<P>(
    response: Response<P>,
    series: Seq<Series>,
    of_artifacts: Seq<Seq<P>>,
    of_master: Seq<Seq<P>>,
    profile: Profile,
    kind: Kind,
    i: int,
)
    requires
        dashboard::shows_averages(response, series, of_artifacts, of_master),
        of_artifacts.len() == series.len(),
        of_master.len() == series.len(),
        0 <= i < series.len(),
        series[i].profile == profile,
        dashboard::kind_of(series[i].cache) == kind,
    ensures
        ({
            let wanted = belongs(series, profile, kind);
            let n = series.len() as int;
            let first = points_before(wanted, of_artifacts, i) as int;
            let half = points_before(wanted, of_artifacts, n) as int;
            let second = half + points_before(wanted, of_master, i) as int;
            let list = response.of(profile, kind);
            &&& list.len() == half + points_before(wanted, of_master, n)
            &&& first + of_artifacts[i].len() <= half
            &&& list.subrange(first, first + of_artifacts[i].len()) == of_artifacts[i]
            &&& second + of_master[i].len() <= list.len()
            &&& list.subrange(second, second + of_master[i].len()) == of_master[i]
        }),
{
    let n = series.len() as int;
    let wanted = belongs(series, profile, kind);
    lemma_gathered_place(series, of_artifacts, n, profile, kind, i);
    lemma_gathered_place(series, of_master, n, profile, kind, i);
    let list = response.of(profile, kind);
    let a = dashboard::gathered(series, of_artifacts, n, profile, kind);
    let b = dashboard::gathered(series, of_master, n, profile, kind);
    let first = points_before(wanted, of_artifacts, i) as int;
    let half = points_before(wanted, of_artifacts, n) as int;
    let at = points_before(wanted, of_master, i) as int;
    assert(list.subrange(first, first + of_artifacts[i].len()) =~= a.subrange(
        first,
        first + of_artifacts[i].len(),
    ));
    assert(list.subrange(half + at, half + at + of_master[i].len()) =~= b.subrange(
        at,
        at + of_master[i].len(),
    ));
}

/// Every point of a series is shown, for the artifacts and for the last commit: what stands at its
/// place in the list of the series is the point, rounded.
pub proof fn lemma_points_are_shown_rounded<A: Arithmetic>(
    response: Response<A::Point>,
    data: InputData,
    artifact_points: Seq<Vec<Option<A::Point>>>,
    master_points: Seq<Vec<Option<A::Point>>>,
    i: int,
) -> (at: (int, int))
    requires
        data.artifact_data@.len() > 0,
        dashboard::is_dashboard::<A>(response, data, artifact_points, master_points),
        artifact_points.len() == data.summary_series@.len(),
        master_points.len() == data.summary_series@.len(),
        0 <= i < data.summary_series@.len(),
    ensures
        ({
            let series = data.summary_series@[i];
            let list = response.of(series.profile, dashboard::kind_of(series.cache));
            &&& 0 <= at.0 <= at.0 + artifact_points[i]@.len() <= at.1
            &&& at.1 + master_points[i]@.len() <= list.len()
            &&& forall|k: int|
                #![trigger artifact_points[i]@[k]]
                0 <= k < artifact_points[i]@.len() ==> call_ensures(
                    A::round_to_tenth,
                    (artifact_points[i]@[k]->0,),
                    list[at.0 + k],
                )
            &&& forall|k: int|
                #![trigger master_points[i]@[k]]
                0 <= k < master_points[i]@.len() ==> call_ensures(
                    A::round_to_tenth,
                    (master_points[i]@[k]->0,),
                    list[at.1 + k],
                )
        }),
{
    let series = data.summary_series@;
    let (of_artifacts, of_master) = choose|
        of_artifacts: Seq<Seq<A::Point>>,
        of_master: Seq<Seq<A::Point>>,
    |
        {
            &&& dashboard::are_rounded::<A>(artifact_points, of_artifacts)
            &&& dashboard::are_rounded::<A>(master_points, of_master)
            &&& #[trigger] dashboard::shows_averages(response, series, of_artifacts, of_master)
        };
    let (profile, kind) = (series[i].profile, dashboard::kind_of(series[i].cache));
    lemma_averages_stand_in_order(response, series, of_artifacts, of_master, profile, kind, i);
    let wanted = belongs(series, profile, kind);
    let n = series.len() as int;
    let first = points_before(wanted, of_artifacts, i) as int;
    let second = points_before(wanted, of_artifacts, n) as int + points_before(
        wanted,
        of_master,
        i,
    ) as int;
    assert(dashboard::is_rounded::<A>(artifact_points[i]@, of_artifacts[i]));
    assert(dashboard::is_rounded::<A>(master_points[i]@, of_master[i]));
    let list = response.of(profile, kind);
    assert forall|k: int|
        #![trigger artifact_points[i]@[k]]
        0 <= k < artifact_points[i]@.len() implies call_ensures(
        A::round_to_tenth,
        (artifact_points[i]@[k]->0,),
        list[first + k],
    ) by {
        assert(list.subrange(first, first + of_artifacts[i].len())[k] == list[first + k]);
        assert(of_artifacts[i][k] == list[first + k]);
    }
    assert forall|k: int|
        #![trigger master_points[i]@[k]]
        0 <= k < master_points[i]@.len() implies call_ensures(
        A::round_to_tenth,
        (master_points[i]@[k]->0,),
        list[second + k],
    ) by {
        assert(list.subrange(second, second + of_master[i].len())[k] == list[second + k]);
        assert(of_master[i][k] == list[second + k]);
    }
    (first, second)
}

/// Without artifacts nothing is shown; with them the versions are the artifacts and the last commit.
pub proof fn lemma_dashboard_versions<A: Arithmetic>(
    response: Response<A::Point>,
    data: InputData,
    artifact_points: Seq<Vec<Option<A::Point>>>,
    master_points: Seq<Vec<Option<A::Point>>>,
)
    requires
        dashboard::is_dashboard::<A>(response, data, artifact_points, master_points),
        data.artifact_data@.len() > 0 ==> data.data@.len() > 0 && dashboard::can_be_shortened(
            data.data@[data.data@.len() - 1].commit.sha@,
        ),
    ensures
        data.artifact_data@.len() == 0 ==> response.versions@.len() == 0 && forall|
            profile: Profile,
            kind: Kind,
        | #[trigger]
            response.of(profile, kind).len() == 0,
        data.artifact_data@.len() > 0 ==> response.versions@.len() == data.artifact_data@.len() + 1,
        forall|i: int|
            0 <= i < data.artifact_data@.len() ==> (#[trigger] response.versions@[i])@
                == data.artifact_data@[i].id@,
        data.artifact_data@.len() > 0 && is_ascii_chars(
            data.data@[data.data@.len() - 1].commit.sha@,
        ) ==> response.versions@[data.artifact_data@.len() as int]@ == "master: "@
            + data.data@[data.data@.len() - 1].commit.sha@.take(8),
{
    if data.artifact_data@.len() > 0 {
        let names = collector::texts(response.versions@);
        lemma_versions(data);
        assert forall|i: int| 0 <= i < data.artifact_data@.len() implies (
        #[trigger] response.versions@[i])@ == data.artifact_data@[i].id@ by {
            assert(names[i] == dashboard::version_names(data)[i]);
        }
        assert(names.len() == data.artifact_data@.len() + 1);
        assert(names[data.artifact_data@.len() as int] == dashboard::version_names(
            data,
        )[data.artifact_data@.len() as int]);
    }
}

/// The series of the last commit are the summary series, one each and in their order, but about the
/// benchmarks that are compared.
pub proof fn lemma_master_series(data: InputData, res: Vec<Series>, i: int)
    requires
        call_ensures(dashboard::master_series, (&data,), res),
        0 <= i < data.summary_series@.len(),
    ensures
        res@.len() == data.summary_series@.len(),
        res@[i].profile == data.summary_series@[i].profile,
        res@[i].cache == data.summary_series@[i].cache,
        res@[i].krate is Several,
        collector::texts(res@[i].krate->Several_0@) == dashboard::shared_names(data),
{
    assert(res@[i].cache == data.summary_series@[i].cache);
}

/// Points are complete if there is a list for each series and nothing is missing in any of them.
pub proof fn lemma_complete<P>(points: Seq<Vec<Option<P>>>, n: nat)
    ensures
        dashboard::are_complete(points, n) <==> points.len() == n && !exists|i: int, k: int|
            0 <= i < points.len() && 0 <= k < points[i]@.len() && (
            #[trigger] points[i]@[k]) is None,
{
}

} // verus!
