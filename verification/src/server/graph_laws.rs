//! What holds of graphs: which points they show, what each point is related to, and where every
//! graph is shown.
use crate::arithmetic::Arithmetic;
use crate::collector;
use crate::collector::Commit;
use crate::db::{CrateSelector, Database, Interpolation, Interpolations, Profile, Series};
use crate::selection;
use crate::server::commit_idx;
use crate::server::graph;
use crate::server::graph::{Response, SeriesPoints};
use crate::server::graph_data;
use crate::server::graph_data::{GraphData, Measured};
use crate::table::Table;
use vstd::prelude::*;
use vstd::string::*;

verus! {

/// At which commits something was measured.
pub open spec fn measured_at<P>(points: Seq<Measured<P>>) -> Seq<bool> {
    Seq::new(points.len(), |i: int| points[i].point is Some)
}

/// A graph is about the commits at which something was measured, in their order, with what it was.
pub proof fn lemma_measured_points<P>(points: Seq<Measured<P>>) -> (chosen: Seq<int>)
    ensures
        selection::is_selection(measured_at(points), chosen),
        graph_data::present(points).len() == chosen.len(),
        forall|j: int|
            #![trigger graph_data::present(points)[j]]
            0 <= j < chosen.len() ==> graph_data::present(points)[j].0 == points[chosen[j]].commit
                && Some(graph_data::present(points)[j].1) == points[chosen[j]].point,
{
    let n = points.len() as int;
    assert(points.take(n) =~= points);
    assert(measured_at(points).take(n) =~= measured_at(points));
    lemma_first_measured_points(points, n)
}

proof fn lemma_first_measured_points<P>(points: Seq<Measured<P>>, n: int) -> (chosen: Seq<int>)
    requires
        0 <= n <= points.len(),
    ensures
        selection::is_selection(measured_at(points).take(n), chosen),
        graph_data::present(points.take(n)).len() == chosen.len(),
        forall|j: int|
            #![trigger graph_data::present(points.take(n))[j]]
            0 <= j < chosen.len() ==> graph_data::present(points.take(n))[j].0
                == points[chosen[j]].commit && Some(graph_data::present(points.take(n))[j].1)
                == points[chosen[j]].point,
    decreases n,
{
    if n == 0 {
        Seq::empty()
    } else {
        let before = lemma_first_measured_points(points, n - 1);
        selection::lemma_selection_goes_on(measured_at(points), n - 1, before);
        assert(points.take(n).drop_last() =~= points.take(n - 1));
        selection::extended(measured_at(points), n - 1, before)
    }
}

/// What the summaries of a row are related to is the first thing that was measured of the
/// baseline, or zero if nothing was.
pub proof fn lemma_first_baseline_counts<A: Arithmetic>(
    row: SeriesPoints<A::Point>,
    baseline: A::Point,
) -> (k: int)
    requires
        graph::is_baseline::<A>(row, baseline),
    ensures
        0 <= k <= row.baseline@.len(),
        forall|j: int| 0 <= j < k ==> (#[trigger] row.baseline@[j]) is None,
        k < row.baseline@.len() ==> row.baseline@[k] == Some(baseline),
        k == row.baseline@.len() ==> call_ensures(A::zero, (), baseline),
{
    lemma_measured_from(row.baseline@, 0)
}

proof fn lemma_measured_from<P>(points: Seq<Option<P>>, from: int) -> (k: int)
    requires
        0 <= from <= points.len(),
    ensures
        from <= k <= points.len(),
        forall|j: int| from <= j < k ==> (#[trigger] points[j]) is None,
        k < points.len() ==> points[k] is Some && graph::first_measured(points, from) == points[k],
        k == points.len() ==> graph::first_measured(points, from) is None,
    decreases points.len() - from,
{
    if from < points.len() && points[from] is None {
        lemma_measured_from(points, from + 1)
    } else {
        from
    }
}

/// Whether `shown` is what a graph of `series` shows of `point`: the point itself if the series is
/// about one benchmark, and its ratio to the baseline if not.
pub open spec fn stands_for<A: Arithmetic>(
    series: Series,
    baseline: A::Point,
    point: A::Point,
    shown: A::Point,
) -> bool {
    match series.krate {
        CrateSelector::Specific(_) => shown == point,
        _ => call_ensures(A::ratio, (point, baseline), shown),
    }
}

/// Whether `percent` is how a graph shows by how many percent `shown` differs from `first`.
pub open spec fn is_difference<A: Arithmetic>(
    shown: A::Point,
    first: A::Point,
    percent: A::Plotted,
) -> bool {
    exists|difference: A::Point| #[trigger]
        call_ensures(A::percent_change, (shown, first), difference) && call_ensures(
            A::narrow,
            (difference,),
            percent,
        )
}

/// Every point of a graph is related to one and the same point, the first one of the graph. It
/// stands at the date of its commit, in milliseconds, and what is plotted is its value if absolute
/// values are asked for, and its difference from the first point if not. It is marked as what was
/// filled in at its commit for the series says.
pub proof fn lemma_points_are_related_to_the_first<A: Arithmetic, D: Database>(
    data: Seq<GraphData<A::Plotted>>,
    points: Seq<(Commit, A::Point)>,
    series: Series,
    baseline: A::Point,
    is_absolute: bool,
    interpolated: Map<Seq<char>, Vec<Interpolation<D::Run>>>,
) -> (shown: Seq<A::Point>)
    requires
        graph_data::is_graph_of::<A, D>(
            data,
            points,
            series,
            baseline,
            is_absolute,
            interpolated,
        ),
    ensures
        data.len() == points.len(),
        shown.len() == points.len(),
        forall|k: int|
            0 <= k < points.len() ==> stands_for::<A>(
                series,
                baseline,
                points[k].1,
                #[trigger] shown[k],
            ),
        forall|k: int|
            #![trigger data[k]]
            0 <= k < points.len() ==> {
                &&& call_ensures(A::narrow, (shown[k],), data[k].absolute)
                &&& is_difference::<A>(shown[k], shown[0], data[k].percent)
                &&& is_absolute ==> data[k].y == data[k].absolute
                &&& !is_absolute ==> data[k].y == data[k].percent
                &&& data[k].x == points[k].0.date.timestamp * 1000
                &&& graph_data::is_filled_in::<D>(
                    series,
                    interpolated,
                    points[k].0.sha@,
                    data[k].is_interpolated,
                )
            },
{
    let (scaled, percents) = choose|scaled: Seq<A::Point>, percents: Seq<A::Point>| #[trigger]
        graph_data::shows_points::<A, D>(
            data,
            points,
            scaled,
            percents,
            series,
            baseline,
            is_absolute,
            interpolated,
        );
    assert forall|k: int| 0 <= k < points.len() implies stands_for::<A>(
        series,
        baseline,
        points[k].1,
        #[trigger] scaled[k],
    ) by {
        assert(graph_data::is_scaled::<A>(series, baseline, points[k].1, scaled[k]));
    }
    assert forall|k: int| #![trigger data[k]] 0 <= k < points.len() implies {
        &&& call_ensures(A::narrow, (scaled[k],), data[k].absolute)
        &&& is_difference::<A>(scaled[k], scaled[0], data[k].percent)
        &&& is_absolute ==> data[k].y == data[k].absolute
        &&& !is_absolute ==> data[k].y == data[k].percent
        &&& data[k].x == points[k].0.date.timestamp * 1000
        &&& graph_data::is_filled_in::<D>(
            series,
            interpolated,
            points[k].0.sha@,
            data[k].is_interpolated,
        )
    } by {
        assert(graph_data::shows_point::<A, D>(
            data[k],
            points[k].0,
            scaled[k],
            scaled[0],
            percents[k],
            is_absolute,
            series,
            interpolated,
        ));
    }
    scaled
}

/// Whether what a graph shows of a point depends on nothing but what it is computed from.
pub open spec fn plotting_is_fixed<A: Arithmetic>() -> bool {
    &&& forall|point: A::Point, baseline: A::Point, a: A::Point, b: A::Point|
        #[trigger] call_ensures(A::ratio, (point, baseline), a) && #[trigger] call_ensures(
            A::ratio,
            (point, baseline),
            b,
        ) ==> a == b
    &&& forall|point: A::Point, first: A::Point, a: A::Point, b: A::Point|
        #[trigger] call_ensures(A::percent_change, (point, first), a) && #[trigger] call_ensures(
            A::percent_change,
            (point, first),
            b,
        ) ==> a == b
    &&& forall|point: A::Point, a: A::Plotted, b: A::Plotted|
        #[trigger] call_ensures(A::narrow, (point,), a) && #[trigger] call_ensures(
            A::narrow,
            (point,),
            b,
        ) ==> a == b
}

/// Two graphs of one series that begin with the same value show equal values alike, wherever they
/// stand and whatever stands between them and the first: in one graph, too, and in one from which
/// points behind the first were dropped.
pub proof fn lemma_equal_values_are_shown_alike<A: Arithmetic, D: Database>(
    a: Seq<GraphData<A::Plotted>>,
    b: Seq<GraphData<A::Plotted>>,
    a_points: Seq<(Commit, A::Point)>,
    b_points: Seq<(Commit, A::Point)>,
    series: Series,
    baseline: A::Point,
    is_absolute: bool,
    interpolated: Map<Seq<char>, Vec<Interpolation<D::Run>>>,
    i: int,
    j: int,
)
    requires
        plotting_is_fixed::<A>(),
        graph_data::is_graph_of::<A, D>(
            a,
            a_points,
            series,
            baseline,
            is_absolute,
            interpolated,
        ),
        graph_data::is_graph_of::<A, D>(
            b,
            b_points,
            series,
            baseline,
            is_absolute,
            interpolated,
        ),
        0 <= i < a_points.len(),
        0 <= j < b_points.len(),
        a_points[0].1 == b_points[0].1,
        a_points[i].1 == b_points[j].1,
    ensures
        a[i].absolute == b[j].absolute,
        a[i].percent == b[j].percent,
        a[i].y == b[j].y,
{
    let x = lemma_points_are_related_to_the_first::<A, D>(
        a,
        a_points,
        series,
        baseline,
        is_absolute,
        interpolated,
    );
    let y = lemma_points_are_related_to_the_first::<A, D>(
        b,
        b_points,
        series,
        baseline,
        is_absolute,
        interpolated,
    );
    assert(stands_for::<A>(series, baseline, a_points[0].1, x[0]));
    assert(stands_for::<A>(series, baseline, b_points[0].1, y[0]));
    assert(stands_for::<A>(series, baseline, a_points[i].1, x[i]));
    assert(stands_for::<A>(series, baseline, b_points[j].1, y[j]));
    assert(x[0] == y[0] && x[i] == y[j]);
    assert(call_ensures(A::narrow, (x[i],), a[i].absolute));
    assert(call_ensures(A::narrow, (y[j],), b[j].absolute));
    let p = choose|p: A::Point| #[trigger]
        call_ensures(A::percent_change, (x[i], x[0]), p) && call_ensures(
            A::narrow,
            (p,),
            a[i].percent,
        );
    let q = choose|q: A::Point| #[trigger]
        call_ensures(A::percent_change, (y[j], y[0]), q) && call_ensures(
            A::narrow,
            (q,),
            b[j].percent,
        );
    assert(p == q);
}

/// Whether an interpolation may be about a series at all: it is about the benchmark of the series,
/// or the series is about more than one.
pub open spec fn may_concern<R>(series: Series, interpolation: Interpolation<R>) -> bool {
    match series.krate {
        CrateSelector::Specific(name) => name@ == interpolation.benchmark@,
        _ => true,
    }
}

/// A point is marked as filled in if anything was filled in at its commit for all runs of a
/// benchmark of the series, or for a run that matches its profile and what it started from; where
/// the entry stands does not matter.
pub proof fn lemma_filled_in_points_are_marked<D: Database>(
    series: Series,
    interpolated: Map<Seq<char>, Vec<Interpolation<D::Run>>>,
    sha: Seq<char>,
    marked: bool,
    i: int,
)
    requires
        graph_data::is_filled_in::<D>(series, interpolated, sha, marked),
        interpolated.contains_key(sha),
        0 <= i < interpolated[sha]@.len(),
        may_concern(series, interpolated[sha]@[i]),
        match interpolated[sha]@[i].run {
            None => true,
            Some(run) => !call_ensures(D::profile_matches, (series.profile, &run), false)
                && !call_ensures(D::cache_matches, (&series.cache, &run), false),
        },
    ensures
        marked,
{
    if !marked {
        assert(graph_data::concerns::<D>(series, interpolated[sha]@[i], false));
    }
}

/// A point is marked as filled in only if something was filled in at its commit for a benchmark of
/// the series: for all runs, or for one that matches its profile and what it started from.
pub proof fn lemma_marked_points_were_filled_in<D: Database>(
    series: Series,
    interpolated: Map<Seq<char>, Vec<Interpolation<D::Run>>>,
    sha: Seq<char>,
) -> (i: int)
    requires
        graph_data::is_filled_in::<D>(series, interpolated, sha, true),
    ensures
        interpolated.contains_key(sha),
        0 <= i < interpolated[sha]@.len(),
        may_concern(series, interpolated[sha]@[i]),
        interpolated[sha]@[i].run matches Some(run) ==> call_ensures(
            D::profile_matches,
            (series.profile, &run),
            true,
        ) && call_ensures(D::cache_matches, (&series.cache, &run), true),
{
    choose|i: int|
        0 <= i < interpolated[sha]@.len() && graph_data::concerns::<D>(
            series,
            #[trigger] interpolated[sha]@[i],
            true,
        )
}

/// Which rows are shown under this name and profile: those of the benchmark of that name, or, under
/// the name for summaries, those that are about more than one.
pub open spec fn belongs<P>(
    rows: Seq<SeriesPoints<P>>,
    name: Seq<char>,
    profile: Profile,
) -> Seq<bool> {
    Seq::new(
        rows.len(),
        |i: int|
            rows[i].series.profile == profile && match rows[i].series.krate {
                CrateSelector::Specific(krate) => krate@ == name,
                _ => name == "Summary"@,
            },
    )
}

/// How a profile is written in an answer.
pub open spec fn written(profile: Profile) -> Seq<char> {
    match profile {
        Profile::Check => "check"@,
        Profile::Debug => "debug"@,
        Profile::Opt => "opt"@,
    }
}

proof fn lemma_written(a: Profile, b: Profile)
    ensures
        graph::profile_name(a) == written(a),
        graph::profile_name(a) == graph::profile_name(b) ==> a == b,
{
    reveal_strlit("check");
    reveal_strlit("debug");
    reveal_strlit("opt");
    assert("check"@[0] == 'c' && "debug"@[0] == 'd' && "opt"@[0] == 'o');
}

proof fn lemma_first_grouped<P, V>(
    rows: Seq<SeriesPoints<P>>,
    graphs: Seq<Vec<GraphData<V>>>,
    n: int,
    name: Seq<char>,
    profile: Profile,
) -> (chosen: Seq<int>)
    requires
        0 <= n <= rows.len(),
        graphs.len() == rows.len(),
    ensures
        selection::is_selection(belongs(rows, name, profile).take(n), chosen),
        graph::grouped(rows, graphs, n, name, written(profile)).len() == chosen.len(),
        forall|j: int|
            0 <= j < chosen.len() ==> #[trigger] graph::grouped(
                rows,
                graphs,
                n,
                name,
                written(profile),
            )[j] == (rows[chosen[j]].series.cache, graphs[chosen[j]]),
    decreases n,
{
    if n == 0 {
        Seq::empty()
    } else {
        let before = lemma_first_grouped(rows, graphs, n - 1, name, profile);
        selection::lemma_selection_goes_on(belongs(rows, name, profile), n - 1, before);
        lemma_written(rows[n - 1].series.profile, profile);
        lemma_written(profile, profile);
        selection::extended(belongs(rows, name, profile), n - 1, before)
    }
}

/// Under the name of a benchmark, or under that of summaries, and under a profile stand the graphs
/// of the rows that belong there and no others, in the order of the rows, each with what its
/// compilation started from; and each is the graph of its row.
pub proof fn lemma_graphs_stand_where_they_belong<A: Arithmetic, D: Database>(
    response: Response<A::Plotted>,
    rows: Seq<SeriesPoints<A::Point>>,
    is_absolute: bool,
    interpolated: Map<Seq<char>, Vec<Interpolation<D::Run>>>,
    name: Seq<char>,
    profile: Profile,
) -> (chosen: Seq<int>)
    requires
        graph::is_graph_response::<A, D>(response, rows, is_absolute, interpolated),
    ensures
        selection::is_selection(belongs(rows, name, profile), chosen),
        chosen.len() > 0 <==> response.benchmarks@.contains_key(name)
            && response.benchmarks@[name]@.contains_key(written(profile)),
        chosen.len() > 0 ==> response.benchmarks@[name]@[written(profile)]@.len() == chosen.len(),
        forall|j: int|
            #![trigger response.benchmarks@[name]@[written(profile)]@[j]]
            0 <= j < chosen.len() ==> {
                let (cache, graph) = response.benchmarks@[name]@[written(profile)]@[j];
                let row = rows[chosen[j]];
                &&& cache == row.series.cache
                &&& graph::is_graph_of_row::<A, D>(graph@, row, is_absolute, interpolated)
                &&& forall|k: int|
                    #![trigger graph@[k]]
                    0 <= k < graph@.len() ==> graph@[k].commit < response.commits@.len()
                        && response.commits@[graph@[k].commit as int]@ == graph_data::present(
                        row.points@,
                    )[k].0.sha@
            },
{
    let n = rows.len() as int;
    let (graphs, lowest) = choose|
        graphs: Seq<Vec<GraphData<A::Plotted>>>,
        lowest: A::Plotted,
    | #[trigger]
        graph::shows_graphs::<A, D>(response, rows, graphs, lowest, is_absolute, interpolated);
    let chosen = lemma_first_grouped(rows, graphs, n, name, profile);
    assert(belongs(rows, name, profile).take(n) =~= belongs(rows, name, profile));
    assert(graph::graphs_are_right::<A>(
        response.benchmarks,
        rows,
        graphs,
        n,
        name,
        written(profile),
    ));
    graph::lemma_grouped_is_shown(rows, graphs, n, name, written(profile));
    let list = graph::grouped(rows, graphs, n, name, written(profile));
    assert forall|j: int|
        #![trigger response.benchmarks@[name]@[written(profile)]@[j]]
        0 <= j < chosen.len() implies {
        let (cache, graph) = response.benchmarks@[name]@[written(profile)]@[j];
        let row = rows[chosen[j]];
        &&& cache == row.series.cache
        &&& graph::is_graph_of_row::<A, D>(graph@, row, is_absolute, interpolated)
        &&& forall|k: int|
            #![trigger graph@[k]]
            0 <= k < graph@.len() ==> graph@[k].commit < response.commits@.len()
                && response.commits@[graph@[k].commit as int]@ == graph_data::present(
                row.points@,
            )[k].0.sha@
    } by {
        let i = chosen[j];
        assert(list[j] == (rows[i].series.cache, graphs[i]));
        assert(graph::is_graph_of_row::<A, D>(
            graphs[i]@,
            rows[i],
            is_absolute,
            interpolated,
        ));
        let names = collector::texts(response.commits@);
        assert(graph_data::are_numbers_of(
            graphs[i]@,
            graph_data::present(rows[i].points@),
            names,
        ));
        assert forall|k: int| #![trigger graphs[i]@[k]] 0 <= k < graphs[i]@.len() implies graphs[i]@[k].commit
            < response.commits@.len() && response.commits@[graphs[i]@[k].commit as int]@
            == graph_data::present(rows[i].points@)[k].0.sha@ by {
            assert(names[graphs[i]@[k].commit as int] == graph_data::present(
                rows[i].points@,
            )[k].0.sha@);
        }
    }
    chosen
}

/// Whether `le` is an order in which the larger of two plotted values is one of them and no
/// smaller than either.
pub open spec fn is_order_of<A: Arithmetic>(le: spec_fn(A::Plotted, A::Plotted) -> bool) -> bool {
    &&& forall|a: A::Plotted| #[trigger] le(a, a)
    &&& forall|a: A::Plotted, b: A::Plotted, c: A::Plotted| #[trigger]
        le(a, b) && #[trigger] le(b, c) ==> le(a, c)
    &&& forall|a: A::Plotted, b: A::Plotted, larger: A::Plotted| #[trigger]
        call_ensures(A::larger, (a, b), larger) ==> (larger == a || larger == b) && le(a, larger)
            && le(b, larger)
}

proof fn lemma_climb<A: Arithmetic>(
    start: A::Plotted,
    values: Seq<A::Plotted>,
    steps: Seq<A::Plotted>,
    n: int,
    le: spec_fn(A::Plotted, A::Plotted) -> bool,
)
    requires
        is_order_of::<A>(le),
        graph::climbs::<A>(start, values, steps),
        0 <= n <= values.len(),
    ensures
        le(start, steps[n]),
        forall|i: int| 0 <= i < n ==> le(#[trigger] values[i], steps[n]),
        steps[n] == start || exists|i: int| 0 <= i < n && #[trigger] values[i] == steps[n],
    decreases n,
{
    if n > 0 {
        lemma_climb::<A>(start, values, steps, n - 1, le);
        assert(call_ensures(A::larger, (steps[n - 1], values[n - 1]), steps[n - 1 + 1]));
        assert(le(steps[n - 1], steps[n]));
        assert forall|i: int| 0 <= i < n implies le(#[trigger] values[i], steps[n]) by {
            if i < n - 1 {
                assert(le(values[i], steps[n - 1]));
            }
        }
        if steps[n] != values[n - 1] && steps[n] != start {
            let i = choose|i: int| 0 <= i < n - 1 && #[trigger] values[i] == steps[n - 1];
            assert(values[i] == steps[n]);
        } else if steps[n] == values[n - 1] {
            assert(values[n - 1] == steps[n]);
        }
    }
}

/// What is plotted stands among all that is plotted under the name of its row.
proof fn lemma_height_is_counted<P, V>(
    rows: Seq<SeriesPoints<P>>,
    graphs: Seq<Vec<GraphData<V>>>,
    n: int,
    i: int,
    k: int,
) -> (at: int)
    requires
        0 <= i < n <= rows.len(),
        graphs.len() == rows.len(),
        0 <= k < graphs[i]@.len(),
    ensures
        0 <= at < graph::all_heights(rows, graphs, n, graph::shown_name(rows[i].series)).len(),
        graph::all_heights(rows, graphs, n, graph::shown_name(rows[i].series))[at]
            == graphs[i]@[k].y,
    decreases n,
{
    let name = graph::shown_name(rows[i].series);
    let before = graph::all_heights(rows, graphs, n - 1, name);
    if i == n - 1 {
        before.len() + k
    } else {
        lemma_height_is_counted(rows, graphs, n - 1, i, k)
    }
}

/// All that is plotted under a name is plotted in the graph of a row of that name.
proof fn lemma_counted_height<P, V>(
    rows: Seq<SeriesPoints<P>>,
    graphs: Seq<Vec<GraphData<V>>>,
    n: int,
    name: Seq<char>,
    at: int,
) -> (place: (int, int))
    requires
        0 <= n <= rows.len(),
        graphs.len() == rows.len(),
        0 <= at < graph::all_heights(rows, graphs, n, name).len(),
    ensures
        0 <= place.0 < n,
        graph::shown_name(rows[place.0].series) == name,
        0 <= place.1 < graphs[place.0]@.len(),
        graphs[place.0]@[place.1].y == graph::all_heights(rows, graphs, n, name)[at],
    decreases n,
{
    let before = graph::all_heights(rows, graphs, n - 1, name);
    if at < before.len() {
        lemma_counted_height(rows, graphs, n - 1, name, at)
    } else {
        (n - 1, at - before.len())
    }
}

proof fn lemma_none_is_larger<A: Arithmetic>(
    max: Table<String, A::Plotted>,
    rows: Seq<SeriesPoints<A::Point>>,
    graphs: Seq<Vec<GraphData<A::Plotted>>>,
    lowest: A::Plotted,
    le: spec_fn(A::Plotted, A::Plotted) -> bool,
    i: int,
    k: int,
)
    requires
        is_order_of::<A>(le),
        0 <= i < rows.len(),
        graphs.len() == rows.len(),
        0 <= k < graphs[i]@.len(),
        graph::max_is_right::<A>(
            max,
            rows,
            graphs,
            rows.len() as int,
            lowest,
            graph::shown_name(rows[i].series),
        ),
    ensures
        max@.contains_key(shown_under(rows[i].series)),
        le(graphs[i]@[k].y, max@[shown_under(rows[i].series)]),
{
    let n = rows.len() as int;
    let name = graph::shown_name(rows[i].series);
    lemma_is_shown(rows, n, i);
    let values = graph::all_heights(rows, graphs, n, name);
    let steps = choose|steps: Seq<A::Plotted>| #[trigger]
        graph::climbs::<A>(lowest, values, steps) && steps.last() == max@[name];
    let at = lemma_height_is_counted(rows, graphs, n, i, k);
    lemma_climb::<A>(lowest, values, steps, values.len() as int, le);
    assert(le(values[at], steps[values.len() as int]));
}

/// Under a name the largest plotted value is told: no value that is plotted there, in the graph of
/// any row of that name, is larger, and it is one of them, or the least value that can be plotted.
pub proof fn lemma_maximum<A: Arithmetic, D: Database>(
    response: Response<A::Plotted>,
    rows: Seq<SeriesPoints<A::Point>>,
    is_absolute: bool,
    interpolated: Map<Seq<char>, Vec<Interpolation<D::Run>>>,
    le: spec_fn(A::Plotted, A::Plotted) -> bool,
) -> (graphs: Seq<Vec<GraphData<A::Plotted>>>)
    requires
        graph::is_graph_response::<A, D>(response, rows, is_absolute, interpolated),
        is_order_of::<A>(le),
    ensures
        graphs.len() == rows.len(),
        forall|i: int|
            0 <= i < rows.len() ==> graph::is_graph_of_row::<A, D>(
                (#[trigger] graphs[i])@,
                rows[i],
                is_absolute,
                interpolated,
            ),
        forall|i: int, k: int|
            #![trigger graphs[i]@[k]]
            0 <= i < rows.len() && 0 <= k < graphs[i]@.len() ==> le(
                graphs[i]@[k].y,
                response.max@[shown_under(rows[i].series)],
            ),
        forall|i: int|
            #![trigger rows[i]]
            0 <= i < rows.len() ==> response.max@.contains_key(shown_under(rows[i].series)),
        forall|name: Seq<char>| #[trigger]
            response.max@.contains_key(name) ==> exists|i: int|
                0 <= i < rows.len() && shown_under((#[trigger] rows[i]).series) == name,
        forall|name: Seq<char>| #[trigger]
            response.max@.contains_key(name) ==> {
                ||| call_ensures(A::lowest, (), response.max@[name])
                ||| exists|i: int, k: int|
                    0 <= i < rows.len() && 0 <= k < graphs[i]@.len() && shown_under(rows[i].series)
                        == name && (#[trigger] graphs[i]@[k]).y == response.max@[name]
            },
{
    let n = rows.len() as int;
    let (graphs, lowest) = choose|
        graphs: Seq<Vec<GraphData<A::Plotted>>>,
        lowest: A::Plotted,
    | #[trigger]
        graph::shows_graphs::<A, D>(response, rows, graphs, lowest, is_absolute, interpolated);
    assert forall|i: int, k: int|
        #![trigger graphs[i]@[k]]
        0 <= i < rows.len() && 0 <= k < graphs[i]@.len() implies le(
        graphs[i]@[k].y,
        response.max@[shown_under(rows[i].series)],
    ) by {
        let name = graph::shown_name(rows[i].series);
        assert(graph::max_is_right::<A>(response.max, rows, graphs, n, lowest, name));
        lemma_none_is_larger::<A>(response.max, rows, graphs, lowest, le, i, k);
    }
    assert forall|i: int| #![trigger rows[i]] 0 <= i < rows.len() implies response.max@.contains_key(
        shown_under(rows[i].series),
    ) by {
        let name = graph::shown_name(rows[i].series);
        assert(graph::max_is_right::<A>(response.max, rows, graphs, n, lowest, name));
        lemma_is_shown(rows, n, i);
    }
    assert forall|name: Seq<char>| #[trigger] response.max@.contains_key(name) implies exists|i: int|
        0 <= i < rows.len() && shown_under((#[trigger] rows[i]).series) == name by {
        assert(graph::max_is_right::<A>(response.max, rows, graphs, n, lowest, name));
        let i = lemma_shown_row(rows, n, name);
        assert(shown_under(rows[i].series) == name);
    }
    assert forall|name: Seq<char>| #[trigger] response.max@.contains_key(name) implies {
        ||| call_ensures(A::lowest, (), response.max@[name])
        ||| exists|i: int, k: int|
            0 <= i < n && 0 <= k < graphs[i]@.len() && shown_under(rows[i].series) == name && (
            #[trigger] graphs[i]@[k]).y == response.max@[name]
    } by {
        assert(graph::max_is_right::<A>(response.max, rows, graphs, n, lowest, name));
        let values = graph::all_heights(rows, graphs, n, name);
        let steps = choose|steps: Seq<A::Plotted>| #[trigger]
            graph::climbs::<A>(lowest, values, steps) && steps.last() == response.max@[name];
        lemma_climb::<A>(lowest, values, steps, values.len() as int, le);
        if response.max@[name] != lowest {
            let at = choose|at: int|
                0 <= at < values.len() && #[trigger] values[at] == steps[values.len() as int];
            let place = lemma_counted_height(rows, graphs, n, name, at);
            assert(graphs[place.0]@[place.1].y == response.max@[name]);
        }
    }
    graphs
}

/// The name under which a series is shown: that of its benchmark, or that of summaries.
pub open spec fn shown_under(series: Series) -> Seq<char> {
    match series.krate {
        CrateSelector::Specific(name) => name@,
        CrateSelector::Several(_) => "Summary"@,
        CrateSelector::All => "Summary"@,
    }
}

proof fn lemma_is_shown<P>(rows: Seq<SeriesPoints<P>>, n: int, i: int)
    requires
        0 <= i < n,
    ensures
        graph::is_shown(rows, n, graph::shown_name(rows[i].series)),
    decreases n,
{
    if i < n - 1 {
        lemma_is_shown(rows, n - 1, i);
    }
}

proof fn lemma_shown_row<P>(rows: Seq<SeriesPoints<P>>, n: int, name: Seq<char>) -> (i: int)
    requires
        graph::is_shown(rows, n, name),
    ensures
        0 <= i < n,
        graph::shown_name(rows[i].series) == name,
    decreases n,
{
    if graph::is_shown(rows, n - 1, name) {
        lemma_shown_row(rows, n - 1, name)
    } else {
        n - 1
    }
}

/// A commit is listed if and only if something was measured at it, in any row; and each is listed
/// once.
pub proof fn lemma_listed_commits<A: Arithmetic, D: Database>(
    response: Response<A::Plotted>,
    rows: Seq<SeriesPoints<A::Point>>,
    is_absolute: bool,
    interpolated: Map<Seq<char>, Vec<Interpolation<D::Run>>>,
    sha: Seq<char>,
)
    requires
        graph::is_graph_response::<A, D>(response, rows, is_absolute, interpolated),
    ensures
        collector::texts(response.commits@).no_duplicates(),
        collector::texts(response.commits@).contains(sha) <==> exists|i: int, k: int|
            0 <= i < rows.len() && 0 <= k < rows[i].points@.len() && (
            #[trigger] rows[i].points@[k]).point is Some && rows[i].points@[k].commit.sha@ == sha,
{
    graph::lemma_commits_are_listed_once::<A, D>(
        response,
        rows,
        is_absolute,
        interpolated,
        sha,
    );
    lemma_all_shas(rows, rows.len() as int, sha);
}

proof fn lemma_all_shas<P>(rows: Seq<SeriesPoints<P>>, n: int, sha: Seq<char>)
    requires
        0 <= n <= rows.len(),
    ensures
        graph::all_shas(rows, n).contains(sha) <==> exists|i: int, k: int|
            0 <= i < n && 0 <= k < rows[i].points@.len() && (#[trigger] rows[i].points@[k]).point
                is Some && rows[i].points@[k].commit.sha@ == sha,
    decreases n,
{
    if n > 0 {
        lemma_all_shas(rows, n - 1, sha);
        let points = rows[n - 1].points@;
        let list = graph_data::present(points);
        let chosen = lemma_measured_points(points);
        let before = graph::all_shas(rows, n - 1);
        let now = graph::all_shas(rows, n);
        if now.contains(sha) {
            let at = choose|at: int| 0 <= at < now.len() && now[at] == sha;
            if at < before.len() {
                assert(before[at] == sha);
            } else {
                let j = at - before.len();
                assert(list[j].0.sha@ == sha);
                assert(measured_at(points)[chosen[j]]);
                assert(rows[n - 1].points@[chosen[j]].point is Some);
            }
        }
        if exists|i: int, k: int|
            0 <= i < n && 0 <= k < rows[i].points@.len() && (#[trigger] rows[i].points@[k]).point
                is Some && rows[i].points@[k].commit.sha@ == sha {
            let (i, k) = choose|i: int, k: int|
                0 <= i < n && 0 <= k < rows[i].points@.len() && (
                #[trigger] rows[i].points@[k]).point is Some && rows[i].points@[k].commit.sha@
                    == sha;
            if i < n - 1 {
                assert(before.contains(sha));
                let at = choose|at: int| 0 <= at < before.len() && before[at] == sha;
                assert(now[at] == sha);
            } else {
                assert(measured_at(points)[k]);
                assert(chosen.contains(k));
                let j = choose|j: int| 0 <= j < chosen.len() && chosen[j] == k;
                assert(list[j].0 == points[k].commit);
                assert(now[before.len() + j] == sha);
            }
        }
    }
}

/// Commits are numbered in the order of the rows, and within a row in the order of its measured
/// points: what stands at the place of a point in that order is the name of its commit.
pub proof fn lemma_numbering_order<P>(rows: Seq<SeriesPoints<P>>, n: int, i: int, k: int)
    requires
        0 <= i < n <= rows.len(),
        0 <= k < graph_data::present(rows[i].points@).len(),
    ensures
        graph::all_shas(rows, i).len() + k < graph::all_shas(rows, n).len(),
        graph::all_shas(rows, n)[graph::all_shas(rows, i).len() + k] == graph_data::present(
            rows[i].points@,
        )[k].0.sha@,
        graph::all_shas(rows, i + 1).len() == graph::all_shas(rows, i).len() + graph_data::present(
            rows[i].points@,
        ).len(),
    decreases n,
{
    if i < n - 1 {
        lemma_numbering_order(rows, n - 1, i, k);
    }
}

/// Rows that are added behind others change nothing in the numbers of the commits that are listed
/// for those in front.
pub proof fn lemma_numbers_come_in_order<P>(rows: Seq<SeriesPoints<P>>, n: int, m: int)
    requires
        0 <= n <= m <= rows.len(),
    ensures
        commit_idx::begins(
            commit_idx::all_numbered(Seq::empty(), graph::all_shas(rows, n)),
            commit_idx::all_numbered(Seq::empty(), graph::all_shas(rows, m)),
        ),
{
    graph::lemma_shas_grow(rows, n, m);
    commit_idx::lemma_numbers_are_kept(
        Seq::empty(),
        graph::all_shas(rows, m),
        graph::all_shas(rows, n).len() as int,
    );
}

/// The graph of a row shows its measured points and no others, in their order. Each is related to
/// the first one, and those of a summary before that to the first thing that was measured of the
/// baseline; it stands at the date of its commit, in milliseconds, and is plotted as was asked for.
/// `places` are the places of the points, `at` is that of the baseline, and `shown` is what is shown.
pub proof fn lemma_graph_of_row<A: Arithmetic, D: Database>(
    data: Seq<GraphData<A::Plotted>>,
    row: SeriesPoints<A::Point>,
    is_absolute: bool,
    interpolated: Map<Seq<char>, Vec<Interpolation<D::Run>>>,
) -> (found: (Seq<int>, int, A::Point, Seq<A::Point>))
    requires
        graph::is_graph_of_row::<A, D>(data, row, is_absolute, interpolated),
    ensures
        ({
            let (places, at, baseline, shown) = found;
            &&& selection::is_selection(measured_at(row.points@), places)
            &&& data.len() == places.len()
            &&& shown.len() == places.len()
            &&& 0 <= at <= row.baseline@.len()
            &&& forall|j: int| 0 <= j < at ==> (#[trigger] row.baseline@[j]) is None
            &&& at < row.baseline@.len() ==> row.baseline@[at] == Some(baseline)
            &&& at == row.baseline@.len() ==> call_ensures(A::zero, (), baseline)
            &&& forall|k: int|
                0 <= k < places.len() ==> stands_for::<A>(
                    row.series,
                    baseline,
                    row.points@[places[k]].point->0,
                    #[trigger] shown[k],
                )
            &&& forall|k: int|
                #![trigger data[k]]
                0 <= k < places.len() ==> {
                    let commit = row.points@[places[k]].commit;
                    &&& call_ensures(A::narrow, (shown[k],), data[k].absolute)
                    &&& is_difference::<A>(shown[k], shown[0], data[k].percent)
                    &&& is_absolute ==> data[k].y == data[k].absolute
                    &&& !is_absolute ==> data[k].y == data[k].percent
                    &&& data[k].x == commit.date.timestamp * 1000
                    &&& graph_data::is_filled_in::<D>(
                        row.series,
                        interpolated,
                        commit.sha@,
                        data[k].is_interpolated,
                    )
                }
        }),
{
    let points = graph_data::present(row.points@);
    let baseline = choose|baseline: A::Point|
        {
            &&& #[trigger] graph::is_baseline::<A>(row, baseline)
            &&& graph_data::is_graph_of::<A, D>(
                data,
                points,
                row.series,
                baseline,
                is_absolute,
                interpolated,
            )
        };
    let at = lemma_first_baseline_counts::<A>(row, baseline);
    let places = lemma_measured_points(row.points@);
    let shown = lemma_points_are_related_to_the_first::<A, D>(
        data,
        points,
        row.series,
        baseline,
        is_absolute,
        interpolated,
    );
    assert forall|k: int| 0 <= k < places.len() implies stands_for::<A>(
        row.series,
        baseline,
        row.points@[places[k]].point->0,
        #[trigger] shown[k],
    ) by {
        assert(Some(points[k].1) == row.points@[places[k]].point);
        assert(stands_for::<A>(row.series, baseline, points[k].1, shown[k]));
    }
    assert forall|k: int| #![trigger data[k]] 0 <= k < places.len() implies {
        let commit = row.points@[places[k]].commit;
        &&& call_ensures(A::narrow, (shown[k],), data[k].absolute)
        &&& is_difference::<A>(shown[k], shown[0], data[k].percent)
        &&& is_absolute ==> data[k].y == data[k].absolute
        &&& !is_absolute ==> data[k].y == data[k].percent
        &&& data[k].x == commit.date.timestamp * 1000
        &&& graph_data::is_filled_in::<D>(
            row.series,
            interpolated,
            commit.sha@,
            data[k].is_interpolated,
        )
    } by {
        assert(points[k].0 == row.points@[places[k]].commit);
    }
    (places, at, baseline, shown)
}

/// A request is answered with the graphs of its rows, as values if these are asked for and as
/// differences if not, or with the message that says why there are no rows.
pub proof fn lemma_graphs_are_as_asked_for<A: Arithmetic, D: Database>(
    absolute: bool,
    rows: Result<Vec<SeriesPoints<A::Point>>, String>,
    interpolated: Interpolations<D::Run>,
    res: Result<Response<A::Plotted>, String>,
)
    requires
        call_ensures(graph::handle_graph::<A, D>, (absolute, rows, &interpolated), res),
    ensures
        rows matches Err(message) ==> (res matches Err(e) && e@ == message@),
        rows matches Ok(rows) ==> (res matches Ok(response) && graph::is_graph_response::<A, D>(
            response,
            rows@,
            absolute,
            interpolated@,
        )),
{
}

/// The series that are drawn are those of single benchmarks and then the summaries, each related to
/// all benchmarks of its profile with nothing cached.
pub proof fn lemma_drawn_series(
    all_series: Vec<Series>,
    summary_series: Vec<Series>,
    res: Vec<(Series, Series)>,
    i: int,
)
    requires
        call_ensures(graph::drawn_series, (all_series, summary_series), res),
        0 <= i < all_series@.len() + summary_series@.len(),
    ensures
        res@.len() == all_series@.len() + summary_series@.len(),
        res@[i].0 == if i < all_series@.len() {
            all_series@[i]
        } else {
            summary_series@[i - all_series@.len()]
        },
        res@[i].1.krate is All,
        res@[i].1.profile == res@[i].0.profile,
        res@[i].1.cache is Empty,
{
    assert(res@[i].1 == graph::baseline_series(res@[i].0));
}

/// Rows can be drawn if and only if nothing was measured before 1970 or too late to be told in
/// milliseconds, and something was measured at no more commits than there are numbers of 16 bits.
/// `commits` are the commits at which something was measured.
pub proof fn lemma_what_can_be_drawn<P>(rows: Seq<SeriesPoints<P>>) -> (commits: Seq<Seq<char>>)
    ensures
        commits.no_duplicates(),
        forall|sha: Seq<char>| #[trigger]
            commits.contains(sha) <==> exists|i: int, k: int|
                0 <= i < rows.len() && 0 <= k < rows[i].points@.len() && (
                #[trigger] rows[i].points@[k]).point is Some && rows[i].points@[k].commit.sha@
                    == sha,
        graph::can_be_drawn(rows) <==> commits.len() <= 65536 && forall|i: int, k: int|
            0 <= i < rows.len() && 0 <= k < rows[i].points@.len() && (
            #[trigger] rows[i].points@[k]).point is Some ==> 0
                <= rows[i].points@[k].commit.date.timestamp * 1000 <= u64::MAX,
{
    let n = rows.len() as int;
    let shas = graph::all_shas(rows, n);
    let commits = commit_idx::all_numbered(Seq::empty(), shas);
    commit_idx::lemma_numbers_are_unique(Seq::empty(), shas);
    assert forall|sha: Seq<char>| #[trigger] commits.contains(sha) <==> exists|i: int, k: int|
        0 <= i < rows.len() && 0 <= k < rows[i].points@.len() && (
        #[trigger] rows[i].points@[k]).point is Some && rows[i].points@[k].commit.sha@ == sha by {
        commit_idx::lemma_all_get_numbers(Seq::empty(), shas, sha);
        lemma_all_shas(rows, n, sha);
    }
    if graph::can_be_drawn(rows) {
        assert forall|i: int, k: int|
            0 <= i < rows.len() && 0 <= k < rows[i].points@.len() && (
            #[trigger] rows[i].points@[k]).point is Some implies 0
            <= rows[i].points@[k].commit.date.timestamp * 1000 <= u64::MAX by {
            let points = rows[i].points@;
            let list = graph_data::present(points);
            let chosen = lemma_measured_points(points);
            assert(measured_at(points)[k]);
            assert(chosen.contains(k));
            let j = choose|j: int| 0 <= j < chosen.len() && chosen[j] == k;
            assert(graph_data::are_plottable(graph_data::present(rows[i].points@)));
            assert(graph_data::is_plottable(list[j].0));
        }
    }
    if commits.len() <= 65536 && forall|i: int, k: int|
        0 <= i < rows.len() && 0 <= k < rows[i].points@.len() && (
        #[trigger] rows[i].points@[k]).point is Some ==> 0
            <= rows[i].points@[k].commit.date.timestamp * 1000 <= u64::MAX {
        assert forall|i: int| 0 <= i < rows.len() implies graph_data::are_plottable(
            graph_data::present((#[trigger] rows[i]).points@),
        ) by {
            let points = rows[i].points@;
            let list = graph_data::present(points);
            let chosen = lemma_measured_points(points);
            assert forall|j: int| 0 <= j < list.len() implies graph_data::is_plottable(
                (#[trigger] list[j]).0,
            ) by {
                assert(list[j].0 == points[chosen[j]].commit);
                assert(rows[i].points@[chosen[j]].point is Some);
            }
        }
    }
    commits
}

} // verus!
