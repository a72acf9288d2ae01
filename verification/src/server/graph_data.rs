//! The points of one series, as a graph shows them.
use crate::arithmetic::Arithmetic;
use crate::collector::Commit;
use crate::db::{CrateSelector, Database, Interpolation, Interpolations, Series};
use crate::server::commit_idx;
use crate::server::commit_idx::CommitIdxCache;
use crate::text;
use vstd::prelude::*;
use vstd::string::*;

verus! {

/// What was measured at a commit, if anything was.
pub struct Measured<P> {
    pub commit: Commit,
    pub point: Option<P>,
}

/// One point of a graph.
#[derive(Debug, PartialEq)]
pub struct GraphData<V> {
    /// The number of the commit.
    pub commit: u16,
    pub absolute: V,
    /// The difference from the first point.
    pub percent: V,
    /// What is plotted: one of the two above.
    pub y: V,
    /// When the commit was made, in milliseconds since the beginning of 1970.
    pub x: u64,
    pub is_interpolated: bool,
}

/// The commits at which something was measured, with what it was.
pub open spec fn present<P>(points: Seq<Measured<P>>) -> Seq<(Commit, P)>
    decreases points.len(),
{
    if points.len() == 0 {
        Seq::empty()
    } else {
        match points.last().point {
            Some(point) => present(points.drop_last()).push((points.last().commit, point)),
            None => present(points.drop_last()),
        }
    }
}

/// Picks the commits at which something was measured.
pub fn present_points<P: Copy>(points: &Vec<Measured<P>>) -> (res: Vec<(Commit, P)>)
    ensures
        res@ == present(points@),
{
    let mut res: Vec<(Commit, P)> = Vec::new();
    for i in 0..points.len()
        invariant
            res@ == present(points@.take(i as int)),
    {
        assert(points@.take(i + 1).drop_last() =~= points@.take(i as int));
        if let Some(point) = points[i].point {
            res.push((points[i].commit.clone(), point));
        }
    }
    assert(points@.take(points@.len() as int) =~= points@);
    res
}

/// The names of the commits of some points.
pub open spec fn shas<P>(points: Seq<(Commit, P)>) -> Seq<Seq<char>> {
    Seq::new(points.len(), |i: int| points[i].0.sha@)
}

/// Whether the date of a commit can be told in milliseconds.
pub open spec fn is_plottable(commit: Commit) -> bool {
    0 <= commit.date.timestamp && commit.date.timestamp * 1000 <= u64::MAX
}

/// Whether the dates of all points can be told in milliseconds.
pub open spec fn are_plottable<P>(points: Seq<(Commit, P)>) -> bool {
    forall|i: int| 0 <= i < points.len() ==> is_plottable((#[trigger] points[i]).0)
}

/// Whether `scaled` is what `series` shows of `point`: a summary shows its ratio to the baseline.
pub open spec fn is_scaled<A: Arithmetic>(
    series: Series,
    baseline: A::Point,
    point: A::Point,
    scaled: A::Point,
) -> bool {
    if series.krate is Specific {
        scaled == point
    } else {
        call_ensures(A::ratio, (point, baseline), scaled)
    }
}

/// Whether `answer` says whether `interpolation` filled in a measurement of `series`.
pub open spec fn concerns<D: Database>(
    series: Series,
    interpolation: Interpolation<D::Run>,
    answer: bool,
) -> bool {
    if series.krate matches CrateSelector::Specific(krate) && krate@ != interpolation.benchmark@ {
        !answer
    } else {
        match interpolation.run {
            None => answer,
            Some(run) => if answer {
                &&& call_ensures(D::profile_matches, (series.profile, &run), true)
                &&& call_ensures(D::cache_matches, (&series.cache, &run), true)
            } else {
                ||| call_ensures(D::profile_matches, (series.profile, &run), false)
                ||| call_ensures(D::cache_matches, (&series.cache, &run), false)
            },
        }
    }
}

/// Whether `answer` says whether a measurement of `series` was filled in at the commit `sha`.
pub open spec fn is_filled_in<D: Database>(
    series: Series,
    interpolated: Map<Seq<char>, Vec<Interpolation<D::Run>>>,
    sha: Seq<char>,
    answer: bool,
) -> bool {
    if !interpolated.contains_key(sha) {
        !answer
    } else if answer {
        exists|i: int|
            0 <= i < interpolated[sha]@.len() && concerns::<D>(
                series,
                #[trigger] interpolated[sha]@[i],
                true,
            )
    } else {
        forall|i: int|
            0 <= i < interpolated[sha]@.len() ==> concerns::<D>(
                series,
                #[trigger] interpolated[sha]@[i],
                false,
            )
    }
}

/// Whether `data` shows the point `scaled` of `commit`, where `first` is the first point that is
/// shown and `percent` the difference from it.
pub open spec fn shows_point<A: Arithmetic, D: Database>(
    data: GraphData<A::Plotted>,
    commit: Commit,
    scaled: A::Point,
    first: A::Point,
    percent: A::Point,
    is_absolute: bool,
    series: Series,
    interpolated: Map<Seq<char>, Vec<Interpolation<D::Run>>>,
) -> bool {
    &&& call_ensures(A::percent_change, (scaled, first), percent)
    &&& call_ensures(A::narrow, (scaled,), data.absolute)
    &&& call_ensures(A::narrow, (percent,), data.percent)
    &&& data.y == if is_absolute {
        data.absolute
    } else {
        data.percent
    }
    &&& data.x == commit.date.timestamp * 1000
    &&& is_filled_in::<D>(series, interpolated, commit.sha@, data.is_interpolated)
}

/// Whether `data` shows `points`, whose scaled values are `scaled` and whose differences from the
/// first of them are `percents`.
pub open spec fn shows_points<A: Arithmetic, D: Database>(
    data: Seq<GraphData<A::Plotted>>,
    points: Seq<(Commit, A::Point)>,
    scaled: Seq<A::Point>,
    percents: Seq<A::Point>,
    series: Series,
    baseline: A::Point,
    is_absolute: bool,
    interpolated: Map<Seq<char>, Vec<Interpolation<D::Run>>>,
) -> bool {
    &&& scaled.len() == data.len()
    &&& percents.len() == data.len()
    &&& forall|i: int|
        0 <= i < data.len() ==> is_scaled::<A>(
            series,
            baseline,
            points[i].1,
            #[trigger] scaled[i],
        )
    &&& forall|i: int|
        0 <= i < data.len() ==> shows_point::<A, D>(
            #[trigger] data[i],
            points[i].0,
            scaled[i],
            scaled[0],
            percents[i],
            is_absolute,
            series,
            interpolated,
        )
}

/// Whether `data` is the graph of `points`, but for the numbers of the commits.
pub open spec fn is_graph_of<A: Arithmetic, D: Database>(
    data: Seq<GraphData<A::Plotted>>,
    points: Seq<(Commit, A::Point)>,
    series: Series,
    baseline: A::Point,
    is_absolute: bool,
    interpolated: Map<Seq<char>, Vec<Interpolation<D::Run>>>,
) -> bool {
    data.len() == points.len() && exists|scaled: Seq<A::Point>, percents: Seq<A::Point>| #[trigger]
        shows_points::<A, D>(
            data,
            points,
            scaled,
            percents,
            series,
            baseline,
            is_absolute,
            interpolated,
        )
}

/// Whether the numbers in `data` are those that the commits of `points` have in `commits`.
pub open spec fn are_numbers_of<V, P>(
    data: Seq<GraphData<V>>,
    points: Seq<(Commit, P)>,
    commits: Seq<Seq<char>>,
) -> bool {
    forall|i: int|
        #![trigger data[i]]
        0 <= i < data.len() ==> data[i].commit < commits.len() && commits[data[i].commit as int]
            == points[i].0.sha@
}

/// Whether `interpolation` filled in a measurement of `series`.
fn does_concern<D: Database>(series: &Series, interpolation: &Interpolation<D::Run>) -> (res: bool)
    ensures
        concerns::<D>(*series, *interpolation, res),
{
    if let CrateSelector::Specific(krate) = &series.krate {
        if !text::same_text(krate.as_str(), interpolation.benchmark.as_str()) {
            return false;
        }
    }
    match &interpolation.run {
        Some(run) => {
            D::profile_matches(series.profile, run) && D::cache_matches(&series.cache, run)
        },
        None => true,
    }
}

/// Whether a measurement of `series` was filled in at `commit`.
fn was_filled_in<D: Database>(
    series: &Series,
    interpolated: &Interpolations<D::Run>,
    commit: &Commit,
) -> (res: bool)
    ensures
        is_filled_in::<D>(*series, interpolated@, commit.sha@, res),
{
    let list: &Vec<Interpolation<D::Run>> = match interpolated.get(&commit.sha) {
        Some(list) => list,
        None => {
            return false;
        },
    };
    let mut i: usize = 0;
    while i < list.len()
        invariant
            i <= list@.len(),
            interpolated@.contains_key(commit.sha@),
            *list == interpolated@[commit.sha@],
            forall|k: int| 0 <= k < i ==> concerns::<D>(*series, #[trigger] list@[k], false),
        decreases list@.len() - i,
    {
        if does_concern::<D>(series, &list[i]) {
            return true;
        }
        i += 1;
    }
    false
}

/// The graph of `points`.
pub fn to_graph_data<A: Arithmetic, D: Database>(
    interpolated: &Interpolations<D::Run>,
    cc: &mut CommitIdxCache,
    series: &Series,
    is_absolute: bool,
    baseline_first: A::Point,
    points: &Vec<(Commit, A::Point)>,
) -> (res: Vec<GraphData<A::Plotted>>)
    requires
        old(cc).is_cache(),
        commit_idx::all_numbered(old(cc)@, shas(points@)).len() <= commit_idx::COMMIT_LIMIT,
        are_plottable(points@),
    ensures
        final(cc).is_cache(),
        final(cc)@ == commit_idx::all_numbered(old(cc)@, shas(points@)),
        is_graph_of::<A, D>(
            res@,
            points@,
            *series,
            baseline_first,
            is_absolute,
            interpolated@,
        ),
        are_numbers_of(res@, points@, final(cc)@),
{
    let ghost names = shas(points@);
    let ghost seen = cc@;
    let ghost mut scaled: Seq<A::Point> = Seq::empty();
    let ghost mut percents: Seq<A::Point> = Seq::empty();
    let mut res: Vec<GraphData<A::Plotted>> = Vec::new();
    let mut first: Option<A::Point> = None;
    for i in 0..points.len()
        invariant
            names == shas(points@),
            cc.is_cache(),
            cc@ == commit_idx::all_numbered(seen, names.take(i as int)),
            commit_idx::all_numbered(seen, names).len() <= commit_idx::COMMIT_LIMIT,
            are_plottable(points@),
            res@.len() == i,
            scaled.len() == i,
            percents.len() == i,
            first == if i == 0 {
                None
            } else {
                Some(scaled[0])
            },
            shows_points::<A, D>(
                res@,
                points@,
                scaled,
                percents,
                *series,
                baseline_first,
                is_absolute,
                interpolated@,
            ),
            are_numbers_of(res@, points@, cc@),
    {
        let commit: &Commit = &points[i].0;
        let point: A::Point = if series.krate.is_specific() {
            points[i].1
        } else {
            A::ratio(points[i].1, baseline_first)
        };
        let first_point: A::Point = match first {
            Some(first) => first,
            None => point,
        };
        first = Some(first_point);
        let percent: A::Point = A::percent_change(point, first_point);
        proof {
            commit_idx::lemma_numbers_are_kept(seen, names, i + 1);
            assert(names.take(i + 1).drop_last() =~= names.take(i as int));
            scaled = scaled.push(point);
            percents = percents.push(percent);
        }
        let absolute: A::Plotted = A::narrow(point);
        let percent: A::Plotted = A::narrow(percent);
        res.push(
            GraphData {
                commit: cc.lookup(&commit.sha),
                absolute,
                percent,
                y: if is_absolute {
                    absolute
                } else {
                    percent
                },
                x: commit.date.timestamp as u64 * 1000,
                is_interpolated: was_filled_in::<D>(series, interpolated, commit),
            },
        );
    }
    assert(names.take(points@.len() as int) =~= names);
    res
}

} // verus!
