//! Graphs of all series over a range of commits.
use crate::arithmetic::Arithmetic;
use crate::collector;
use crate::collector::{Commit, Sha};
use crate::db::{Cache, CrateSelector, Database, Interpolation, Interpolations, Profile, Series};
use crate::server::commit_idx;
use crate::server::commit_idx::CommitIdxCache;
use crate::server::graph_data;
use crate::server::graph_data::{GraphData, Measured};
use crate::table::Table;
use vstd::prelude::*;
use vstd::string::*;

verus! {

/// What is measured of one series over the range that is asked for.
pub struct SeriesPoints<P> {
    pub series: Series,
    /// What was measured of all benchmarks with the series' profile and nothing cached.
    pub baseline: Vec<Option<P>>,
    pub points: Vec<Measured<P>>,
}

/// The graphs of one benchmark: by profile, the graph of each cache.
pub type Graphs<V> = Table<String, Vec<(Cache, Vec<GraphData<V>>)>>;

/// The answer to a request for graphs.
pub struct Response<V> {
    /// The largest plotted value of each benchmark.
    pub max: Table<String, V>,
    pub benchmarks: Table<String, Graphs<V>>,
    pub colors: Vec<String>,
    /// The commits, each in the place of its number.
    pub commits: Vec<Sha>,
}

/// The name under which the graphs of a series are shown.
pub open spec fn shown_name(series: Series) -> Seq<char> {
    match series.krate {
        CrateSelector::Specific(name) => name@,
        _ => "Summary"@,
    }
}

/// The name under which the graphs of a profile are shown.
pub open spec fn profile_name(profile: Profile) -> Seq<char> {
    match profile {
        Profile::Opt => "opt"@,
        Profile::Check => "check"@,
        Profile::Debug => "debug"@,
    }
}

/// The first point from `from` on that was measured.
pub open spec fn first_measured<P>(points: Seq<Option<P>>, from: int) -> Option<P>
    decreases points.len() - from,
{
    if from < 0 || from >= points.len() {
        None
    } else if points[from] is Some {
        points[from]
    } else {
        first_measured(points, from + 1)
    }
}

/// Whether `baseline` is what the summaries of a row are related to.
pub open spec fn is_baseline<A: Arithmetic>(
    row: SeriesPoints<A::Point>,
    baseline: A::Point,
) -> bool {
    match first_measured(row.baseline@, 0) {
        Some(point) => baseline == point,
        None => call_ensures(A::zero, (), baseline),
    }
}

/// Whether `data` is the graph of a row, but for the numbers of the commits.
pub open spec fn is_graph_of_row<A: Arithmetic, D: Database>(
    data: Seq<GraphData<A::Plotted>>,
    row: SeriesPoints<A::Point>,
    is_absolute: bool,
    interpolated: Map<Seq<char>, Vec<Interpolation<D::Run>>>,
) -> bool {
    exists|baseline: A::Point|
        {
            &&& #[trigger] is_baseline::<A>(row, baseline)
            &&& graph_data::is_graph_of::<A, D>(
                data,
                graph_data::present(row.points@),
                row.series,
                baseline,
                is_absolute,
                interpolated,
            )
        }
}

/// The names of the commits of the first `n` rows at which something was measured.
pub open spec fn all_shas<P>(rows: Seq<SeriesPoints<P>>, n: int) -> Seq<Seq<char>>
    decreases n,
{
    if n <= 0 {
        Seq::empty()
    } else {
        all_shas(rows, n - 1) + graph_data::shas(graph_data::present(rows[n - 1].points@))
    }
}

/// Whether some of the first `n` rows are shown under `name`.
pub open spec fn is_shown<P>(rows: Seq<SeriesPoints<P>>, n: int, name: Seq<char>) -> bool
    decreases n,
{
    n > 0 && (is_shown(rows, n - 1, name) || shown_name(rows[n - 1].series) == name)
}

/// Those of the first `n` graphs that are shown under `name` and `profile`, each with its cache.
pub open spec fn grouped<P, V>(
    rows: Seq<SeriesPoints<P>>,
    graphs: Seq<Vec<GraphData<V>>>,
    n: int,
    name: Seq<char>,
    profile: Seq<char>,
) -> Seq<(Cache, Vec<GraphData<V>>)>
    decreases n,
{
    if n <= 0 {
        Seq::empty()
    } else {
        let before = grouped(rows, graphs, n - 1, name, profile);
        let series = rows[n - 1].series;
        if shown_name(series) == name && profile_name(series.profile) == profile {
            before.push((series.cache, graphs[n - 1]))
        } else {
            before
        }
    }
}

/// What a graph plots.
pub open spec fn heights<V>(data: Seq<GraphData<V>>) -> Seq<V> {
    Seq::new(data.len(), |i: int| data[i].y)
}

/// What those of the first `n` graphs plot that are shown under `name`.
pub open spec fn all_heights<P, V>(
    rows: Seq<SeriesPoints<P>>,
    graphs: Seq<Vec<GraphData<V>>>,
    n: int,
    name: Seq<char>,
) -> Seq<V>
    decreases n,
{
    if n <= 0 {
        Seq::empty()
    } else {
        let before = all_heights(rows, graphs, n - 1, name);
        if shown_name(rows[n - 1].series) == name {
            before + heights(graphs[n - 1]@)
        } else {
            before
        }
    }
}

/// Whether `steps` are the largest values met when going from `start` through `values`.
pub open spec fn climbs<A: Arithmetic>(
    start: A::Plotted,
    values: Seq<A::Plotted>,
    steps: Seq<A::Plotted>,
) -> bool {
    &&& steps.len() == values.len() + 1
    &&& steps[0] == start
    &&& forall|i: int|
        0 <= i < values.len() ==> call_ensures(
            A::larger,
            (steps[i], #[trigger] values[i]),
            steps[i + 1],
        )
}

/// Whether `max` is the largest of `start` and `values`, found by going through them in order.
pub open spec fn is_largest<A: Arithmetic>(
    start: A::Plotted,
    values: Seq<A::Plotted>,
    max: A::Plotted,
) -> bool {
    exists|steps: Seq<A::Plotted>| #[trigger]
        climbs::<A>(start, values, steps) && steps.last() == max
}

/// Whether `max` holds what it should under `name`, once the first `n` graphs are drawn.
pub open spec fn max_is_right<A: Arithmetic>(
    max: Table<String, A::Plotted>,
    rows: Seq<SeriesPoints<A::Point>>,
    graphs: Seq<Vec<GraphData<A::Plotted>>>,
    n: int,
    lowest: A::Plotted,
    name: Seq<char>,
) -> bool {
    &&& max@.contains_key(name) <==> is_shown(rows, n, name)
    &&& max@.contains_key(name) ==> is_largest::<A>(
        lowest,
        all_heights(rows, graphs, n, name),
        max@[name],
    )
}

/// Whether `benchmarks` holds what it should under `name` and `profile`, once the first `n`
/// graphs are drawn.
pub open spec fn graphs_are_right<A: Arithmetic>(
    benchmarks: Table<String, Graphs<A::Plotted>>,
    rows: Seq<SeriesPoints<A::Point>>,
    graphs: Seq<Vec<GraphData<A::Plotted>>>,
    n: int,
    name: Seq<char>,
    profile: Seq<char>,
) -> bool {
    &&& benchmarks@.contains_key(name) <==> is_shown(rows, n, name)
    &&& benchmarks@.contains_key(name) ==> {
        &&& benchmarks@[name].is_table()
        &&& benchmarks@[name]@.contains_key(profile) <==> grouped(
            rows,
            graphs,
            n,
            name,
            profile,
        ).len() > 0
        &&& benchmarks@[name]@.contains_key(profile) ==> benchmarks@[name]@[profile]@ == grouped(
            rows,
            graphs,
            n,
            name,
            profile,
        )
    }
}

/// Whether the first `n` of `graphs` are the graphs of the first `n` rows, with the numbers that
/// the commits have in `commits`.
pub open spec fn are_drawn<A: Arithmetic, D: Database>(
    rows: Seq<SeriesPoints<A::Point>>,
    graphs: Seq<Vec<GraphData<A::Plotted>>>,
    n: int,
    is_absolute: bool,
    interpolated: Map<Seq<char>, Vec<Interpolation<D::Run>>>,
    commits: Seq<Seq<char>>,
) -> bool {
    &&& graphs.len() == n
    &&& forall|k: int|
        0 <= k < n ==> is_graph_of_row::<A, D>(
            (#[trigger] graphs[k])@,
            rows[k],
            is_absolute,
            interpolated,
        )
    &&& forall|k: int|
        0 <= k < n ==> graph_data::are_numbers_of(
            (#[trigger] graphs[k])@,
            graph_data::present(rows[k].points@),
            commits,
        )
}

/// Whether `response` shows `graphs`.
pub open spec fn shows_graphs<A: Arithmetic, D: Database>(
    response: Response<A::Plotted>,
    rows: Seq<SeriesPoints<A::Point>>,
    graphs: Seq<Vec<GraphData<A::Plotted>>>,
    lowest: A::Plotted,
    is_absolute: bool,
    interpolated: Map<Seq<char>, Vec<Interpolation<D::Run>>>,
) -> bool {
    let n = rows.len() as int;
    &&& call_ensures(A::lowest, (), lowest)
    &&& are_drawn::<A, D>(
        rows,
        graphs,
        n,
        is_absolute,
        interpolated,
        collector::texts(response.commits@),
    )
    &&& collector::texts(response.commits@) == commit_idx::all_numbered(
        Seq::empty(),
        all_shas(rows, n),
    )
    &&& response.max.is_table()
    &&& forall|name: Seq<char>| #[trigger]
        max_is_right::<A>(response.max, rows, graphs, n, lowest, name)
    &&& response.benchmarks.is_table()
    &&& forall|name: Seq<char>, profile: Seq<char>| #[trigger]
        graphs_are_right::<A>(response.benchmarks, rows, graphs, n, name, profile)
    &&& collector::texts(response.colors@) == seq![""@, "#fcb0f1"@]
}

/// Whether `response` answers a request for the graphs of `rows`.
pub open spec fn is_graph_response<A: Arithmetic, D: Database>(
    response: Response<A::Plotted>,
    rows: Seq<SeriesPoints<A::Point>>,
    is_absolute: bool,
    interpolated: Map<Seq<char>, Vec<Interpolation<D::Run>>>,
) -> bool {
    exists|graphs: Seq<Vec<GraphData<A::Plotted>>>, lowest: A::Plotted| #[trigger]
        shows_graphs::<A, D>(response, rows, graphs, lowest, is_absolute, interpolated)
}

/// Whether every commit of `rows` can get a number, and its date can be told in milliseconds.
pub open spec fn can_be_drawn<P>(rows: Seq<SeriesPoints<P>>) -> bool {
    &&& commit_idx::all_numbered(Seq::empty(), all_shas(rows, rows.len() as int)).len()
        <= commit_idx::COMMIT_LIMIT
    &&& forall|k: int|
        0 <= k < rows.len() ==> graph_data::are_plottable(
            graph_data::present((#[trigger] rows[k]).points@),
        )
}

/// Every graph that is drawn is shown under its benchmark and profile, with its cache.
pub proof fn lemma_all_graphs_are_shown<P, V>(
    rows: Seq<SeriesPoints<P>>,
    graphs: Seq<Vec<GraphData<V>>>,
    n: int,
    k: int,
)
    requires
        0 <= k < n <= rows.len(),
        n <= graphs.len(),
    ensures
        grouped(
            rows,
            graphs,
            n,
            shown_name(rows[k].series),
            profile_name(rows[k].series.profile),
        ).contains((rows[k].series.cache, graphs[k])),
    decreases n,
{
    let name = shown_name(rows[k].series);
    let profile = profile_name(rows[k].series.profile);
    let before = grouped(rows, graphs, n - 1, name, profile);
    let now = grouped(rows, graphs, n, name, profile);
    let graph = (rows[k].series.cache, graphs[k]);
    if k == n - 1 {
        assert(now[before.len() as int] == graph);
    } else {
        lemma_all_graphs_are_shown(rows, graphs, n - 1, k);
        let at = choose|at: int| 0 <= at < before.len() && before[at] == graph;
        assert(now[at] == graph);
    }
}

/// An answer lists each commit once, and it lists the commits at which something was measured.
pub proof fn lemma_commits_are_listed_once<A: Arithmetic, D: Database>(
    response: Response<A::Plotted>,
    rows: Seq<SeriesPoints<A::Point>>,
    is_absolute: bool,
    interpolated: Map<Seq<char>, Vec<Interpolation<D::Run>>>,
    sha: Seq<char>,
)
    requires
        is_graph_response::<A, D>(response, rows, is_absolute, interpolated),
    ensures
        collector::texts(response.commits@).no_duplicates(),
        collector::texts(response.commits@).contains(sha) <==> all_shas(
            rows,
            rows.len() as int,
        ).contains(sha),
{
    let shas = all_shas(rows, rows.len() as int);
    commit_idx::lemma_numbers_are_unique(Seq::empty(), shas);
    commit_idx::lemma_all_get_numbers(Seq::empty(), shas, sha);
}

/// The series that the summaries with the profile of `series` are related to: all benchmarks,
/// with nothing cached.
pub open spec fn baseline_series(series: Series) -> Series {
    Series { krate: CrateSelector::All, profile: series.profile, cache: Cache::Empty }
}

/// The series that are drawn, each with the series that it is related to: first those of single
/// benchmarks, then the summaries.
pub fn drawn_series(all_series: Vec<Series>, summary_series: Vec<Series>) -> (res: Vec<
    (Series, Series),
>)
    ensures
        res@.len() == all_series@.len() + summary_series@.len(),
        forall|i: int|
            #![trigger res@[i]]
            0 <= i < res@.len() ==> res@[i].0 == (all_series@ + summary_series@)[i] && res@[i].1
                == baseline_series(res@[i].0),
{
    let ghost all = all_series@ + summary_series@;
    let mut series: Vec<Series> = all_series;
    let mut summaries: Vec<Series> = summary_series;
    series.append(&mut summaries);
    let mut res: Vec<(Series, Series)> = Vec::new();
    for one in it: series
        invariant
            it.seq() == all,
            res@.len() == it.index(),
            forall|i: int|
                #![trigger res@[i]]
                0 <= i < res@.len() ==> res@[i].0 == all[i] && res@[i].1 == baseline_series(
                    res@[i].0,
                ),
    {
        let baseline: Series = Series {
            krate: CrateSelector::All,
            profile: one.profile,
            cache: Cache::Empty,
        };
        res.push((one, baseline));
    }
    res
}

/// The name under which the graphs of a series are shown.
fn name_of(series: &Series) -> (name: String)
    ensures
        name@ == shown_name(*series),
{
    match series.krate.as_specific() {
        Some(name) => name.clone(),
        None => "Summary".to_string(),
    }
}

/// The name under which the graphs of a profile are shown.
fn name_of_profile(profile: Profile) -> (name: String)
    ensures
        name@ == profile_name(profile),
{
    match profile {
        Profile::Opt => "opt".to_string(),
        Profile::Check => "check".to_string(),
        Profile::Debug => "debug".to_string(),
    }
}

/// What the summaries of a row are related to.
fn baseline_of<A: Arithmetic>(row: &SeriesPoints<A::Point>) -> (baseline: A::Point)
    ensures
        is_baseline::<A>(*row, baseline),
{
    let mut i: usize = 0;
    while i < row.baseline.len()
        invariant
            i <= row.baseline@.len(),
            first_measured(row.baseline@, 0) == first_measured(row.baseline@, i as int),
        decreases row.baseline@.len() - i,
    {
        if let Some(point) = row.baseline[i] {
            return point;
        }
        i += 1;
    }
    A::zero()
}

/// The largest of `start` and what `data` plots.
fn largest<A: Arithmetic>(
    start: A::Plotted,
    data: &Vec<GraphData<A::Plotted>>,
    Ghost(lowest): Ghost<A::Plotted>,
    Ghost(before): Ghost<Seq<A::Plotted>>,
) -> (max: A::Plotted)
    requires
        is_largest::<A>(lowest, before, start),
    ensures
        is_largest::<A>(lowest, before + heights(data@), max),
{
    let mut max: A::Plotted = start;
    let ghost mut steps = choose|steps: Seq<A::Plotted>| #[trigger]
        climbs::<A>(lowest, before, steps) && steps.last() == start;
    let ghost all = before + heights(data@);
    for i in 0..data.len()
        invariant
            all == before + heights(data@),
            climbs::<A>(lowest, all.take(before.len() + i), steps),
            steps.last() == max,
    {
        max = A::larger(max, data[i].y);
        proof {
            steps = steps.push(max);
            let now = all.take(before.len() + i + 1);
            assert(forall|k: int|
                0 <= k < now.len() ==> call_ensures(
                    A::larger,
                    (steps[k], #[trigger] now[k]),
                    steps[k + 1],
                ));
        }
    }
    assert(all.take(all.len() as int) =~= all);
    max
}

/// What holds of the first `n` graphs still holds when another is drawn.
proof fn lemma_drawn_before<P, V>(
    rows: Seq<SeriesPoints<P>>,
    graphs: Seq<Vec<GraphData<V>>>,
    data: Vec<GraphData<V>>,
    n: int,
    name: Seq<char>,
    profile: Seq<char>,
)
    requires
        0 <= n <= graphs.len(),
    ensures
        grouped(rows, graphs.push(data), n, name, profile) == grouped(
            rows,
            graphs,
            n,
            name,
            profile,
        ),
        all_heights(rows, graphs.push(data), n, name) == all_heights(rows, graphs, n, name),
    decreases n,
{
    if n > 0 {
        lemma_drawn_before(rows, graphs, data, n - 1, name, profile);
    }
}

/// A profile under which graphs are grouped is that of a row that is shown.
pub proof fn lemma_grouped_is_shown<P, V>(
    rows: Seq<SeriesPoints<P>>,
    graphs: Seq<Vec<GraphData<V>>>,
    n: int,
    name: Seq<char>,
    profile: Seq<char>,
)
    ensures
        !is_shown(rows, n, name) ==> grouped(rows, graphs, n, name, profile).len() == 0
            && all_heights(rows, graphs, n, name).len() == 0,
    decreases n,
{
    if n > 0 {
        lemma_grouped_is_shown(rows, graphs, n - 1, name, profile);
    }
}

/// The commits of the rows in front stand in front of those of the rows behind them.
pub proof fn lemma_shas_grow<P>(rows: Seq<SeriesPoints<P>>, n: int, m: int)
    requires
        0 <= n <= m,
    ensures
        all_shas(rows, n).len() <= all_shas(rows, m).len(),
        all_shas(rows, m).take(all_shas(rows, n).len() as int) == all_shas(rows, n),
    decreases m,
{
    if n < m {
        lemma_shas_grow(rows, n, m - 1);
    }
}

/// Numbers the commits of `points`, as far as there are numbers; says whether there are enough,
/// and whether all dates can be told in milliseconds.
fn number_commits<P>(cc: &mut CommitIdxCache, points: &Vec<(Commit, P)>) -> (res: bool)
    requires
        old(cc).is_cache(),
    ensures
        final(cc).is_cache(),
        res ==> graph_data::are_plottable(points@) && final(cc)@ == commit_idx::all_numbered(
            old(cc)@,
            graph_data::shas(points@),
        ),
        !res ==> !graph_data::are_plottable(points@) || commit_idx::all_numbered(
            old(cc)@,
            graph_data::shas(points@),
        ).len() > commit_idx::COMMIT_LIMIT,
{
    let ghost seen = cc@;
    let ghost names = graph_data::shas(points@);
    for i in 0..points.len()
        invariant
            cc.is_cache(),
            seen == old(cc)@,
            names == graph_data::shas(points@),
            cc@ == commit_idx::all_numbered(seen, names.take(i as int)),
            forall|k: int|
                0 <= k < i ==> graph_data::is_plottable((#[trigger] points@[k]).0),
    {
        let commit: &Commit = &points[i].0;
        let seconds: i64 = commit.date.timestamp;
        if seconds < 0 || seconds as u64 > u64::MAX / 1000 {
            return false;
        }
        proof {
            assert(names.take(i + 1).drop_last() =~= names.take(i as int));
            commit_idx::lemma_numbers_are_kept(seen, names, i + 1);
        }
        if !cc.has_room(&commit.sha) {
            return false;
        }
        cc.lookup(&commit.sha);
    }
    assert(names.take(points@.len() as int) =~= names);
    true
}

/// Whether every commit of `rows` can get a number, and its date can be told in milliseconds.
pub fn can_draw<P: Copy>(rows: &Vec<SeriesPoints<P>>) -> (res: bool)
    ensures
        res == can_be_drawn(rows@),
{
    let mut cc: CommitIdxCache = CommitIdxCache::new();
    let mut n: usize = 0;
    while n < rows.len()
        invariant
            n <= rows@.len(),
            cc.is_cache(),
            cc@ == commit_idx::all_numbered(Seq::empty(), all_shas(rows@, n as int)),
            forall|k: int|
                0 <= k < n ==> graph_data::are_plottable(
                    graph_data::present((#[trigger] rows@[k]).points@),
                ),
        decreases rows@.len() - n,
    {
        let points: Vec<(Commit, P)> = graph_data::present_points(&rows[n].points);
        proof {
            commit_idx::lemma_numbering_continues(
                Seq::empty(),
                all_shas(rows@, n as int),
                graph_data::shas(points@),
            );
            lemma_shas_grow(rows@, n + 1, rows@.len() as int);
            commit_idx::lemma_numbers_are_kept(
                Seq::empty(),
                all_shas(rows@, rows@.len() as int),
                all_shas(rows@, n + 1).len() as int,
            );
        }
        if !number_commits(&mut cc, &points) {
            return false;
        }
        n += 1;
    }
    proof {
        cc.lemma_within_limit();
    }
    true
}

/// The graphs of all rows, or the message that says why there are no rows.
pub fn handle_graph<A: Arithmetic, D: Database>(
    absolute: bool,
    rows: Result<Vec<SeriesPoints<A::Point>>, String>,
    interpolated: &Interpolations<D::Run>,
) -> (res: Result<Response<A::Plotted>, String>)
    requires
        rows matches Ok(rows) ==> can_be_drawn(rows@),
    ensures
        match (rows, res) {
            (Ok(rows), Ok(response)) => is_graph_response::<A, D>(
                response,
                rows@,
                absolute,
                interpolated@,
            ),
            (Err(message), Err(e)) => e == message,
            _ => false,
        },
{
    let rows: Vec<SeriesPoints<A::Point>> = match rows {
        Ok(rows) => rows,
        Err(message) => {
            return Err(message);
        },
    };
    let mut cc: CommitIdxCache = CommitIdxCache::new();
    let mut max: Table<String, A::Plotted> = Table::new();
    let mut benchmarks: Table<String, Graphs<A::Plotted>> = Table::new();
    let lowest: A::Plotted = A::lowest();
    let ghost mut graphs: Seq<Vec<GraphData<A::Plotted>>> = Seq::empty();
    let mut n: usize = 0;
    proof {
        assert forall|name: Seq<char>| #[trigger]
            max_is_right::<A>(max, rows@, graphs, 0, lowest, name) by {}
        assert forall|name: Seq<char>, profile: Seq<char>| #[trigger]
            graphs_are_right::<A>(benchmarks, rows@, graphs, 0, name, profile) by {}
    }
    while n < rows.len()
        invariant
            n <= rows@.len(),
            can_be_drawn(rows@),
            cc.is_cache(),
            cc@ == commit_idx::all_numbered(Seq::empty(), all_shas(rows@, n as int)),
            are_drawn::<A, D>(rows@, graphs, n as int, absolute, interpolated@, cc@),
            max.is_table(),
            forall|name: Seq<char>| #[trigger]
                max_is_right::<A>(max, rows@, graphs, n as int, lowest, name),
            benchmarks.is_table(),
            forall|name: Seq<char>, profile: Seq<char>| #[trigger]
                graphs_are_right::<A>(benchmarks, rows@, graphs, n as int, name, profile),
        decreases rows@.len() - n,
    {
        let row: &SeriesPoints<A::Point> = &rows[n];
        let points: Vec<(Commit, A::Point)> = graph_data::present_points(&row.points);
        let ghost numbers_before = cc@;
        let ghost max_before = max;
        let ghost benchmarks_before = benchmarks;
        let ghost graphs_before = graphs;
        proof {
            let names = graph_data::shas(points@);
            commit_idx::lemma_numbering_continues(
                Seq::empty(),
                all_shas(rows@, n as int),
                names,
            );
            lemma_shas_grow(rows@, n + 1, rows@.len() as int);
            commit_idx::lemma_numbers_are_kept(
                Seq::empty(),
                all_shas(rows@, rows@.len() as int),
                all_shas(rows@, n + 1).len() as int,
            );
            commit_idx::lemma_numbers_are_kept(numbers_before, names, 0);
        }
        let baseline: A::Point = baseline_of::<A>(row);
        let data: Vec<GraphData<A::Plotted>> = graph_data::to_graph_data::<A, D>(
            interpolated,
            &mut cc,
            &row.series,
            absolute,
            baseline,
            &points,
        );
        let name: String = name_of(&row.series);
        let profile: String = name_of_profile(row.series.profile);
        proof {
            graphs = graphs.push(data);
            assert(max_is_right::<A>(max, rows@, graphs_before, n as int, lowest, name@));
            lemma_grouped_is_shown(rows@, graphs_before, n as int, name@, profile@);
            if !is_shown(rows@, n as int, name@) {
                assert(all_heights(rows@, graphs_before, n as int, name@) =~= Seq::empty());
                assert(climbs::<A>(lowest, Seq::empty(), seq![lowest]));
            }
        }
        let start: A::Plotted = match max.get(&name) {
            Some(start) => *start,
            None => lowest,
        };
        let height: A::Plotted = largest::<A>(
            start,
            &data,
            Ghost(lowest),
            Ghost(all_heights(rows@, graphs_before, n as int, name@)),
        );
        *max.entry(name.clone(), lowest) = height;
        proof {
            assert forall|other: Seq<char>| #[trigger]
                max_is_right::<A>(max, rows@, graphs, n + 1, lowest, other) by {
                assert(max_is_right::<A>(
                    max_before,
                    rows@,
                    graphs_before,
                    n as int,
                    lowest,
                    other,
                ));
                lemma_drawn_before(rows@, graphs_before, data, n as int, other, profile@);
            }
            assert(graphs_are_right::<A>(
                benchmarks,
                rows@,
                graphs_before,
                n as int,
                name@,
                profile@,
            ));
        }
        let by_profile: &mut Graphs<A::Plotted> = benchmarks.entry(name, Table::new());
        by_profile.entry(profile, Vec::new()).push((row.series.cache.clone(), data));
        proof {
            assert forall|other: Seq<char>, kind: Seq<char>| #[trigger]
                graphs_are_right::<A>(benchmarks, rows@, graphs, n + 1, other, kind) by {
                assert(graphs_are_right::<A>(
                    benchmarks_before,
                    rows@,
                    graphs_before,
                    n as int,
                    other,
                    kind,
                ));
                lemma_drawn_before(rows@, graphs_before, data, n as int, other, kind);
                lemma_grouped_is_shown(rows@, graphs_before, n as int, other, kind);
                let before = grouped(rows@, graphs_before, n as int, other, kind);
                if other == shown_name(row.series) && kind == profile_name(row.series.profile) {
                    assert(benchmarks@[other]@[kind]@ =~= before.push((row.series.cache, data)));
                }
            }
        }
        n += 1;
    }
    let mut colors: Vec<String> = Vec::new();
    colors.push(String::new());
    colors.push("#fcb0f1".to_string());
    proof {
        reveal_strlit("");
        assert(""@ =~= Seq::<char>::empty());
        assert(collector::texts(colors@) =~= seq![""@, "#fcb0f1"@]);
    }
    let response: Response<A::Plotted> = Response {
        max,
        benchmarks,
        colors,
        commits: cc.into_commits(),
    };
    assert(shows_graphs::<A, D>(response, rows@, graphs, lowest, absolute, interpolated@));
    Ok(response)
}

} // verus!
