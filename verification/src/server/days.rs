//! The measurements of two days, side by side.
use crate::arithmetic::Arithmetic;
use crate::collector::{BenchmarkName, Commit, Date, Sha};
use crate::db::{CrateSelector, Database, Profile, Series};
use crate::selection;
use crate::table::{Same, Table};
use crate::text;
use vstd::prelude::*;
use vstd::string::*;

verus! {

/// What is measured, as far as it matters in which unit.
#[derive(Copy, Clone, Debug, PartialEq, Eq, Structural)]
pub enum StatId {
    CpuClock,
    CpuClockUser,
    WallTime,
    /// Any other statistic.
    Other,
}

/// Whether a statistic is recorded in milliseconds and shown in seconds.
pub open spec fn is_clock(stat: StatId) -> bool {
    stat == StatId::CpuClock || stat == StatId::CpuClockUser
}

/// A benchmark and how it is compiled.
#[derive(Debug, PartialEq, Eq)]
pub struct StyledBenchmarkName {
    pub name: BenchmarkName,
    pub profile: Profile,
}

/// Which benchmark it is, and how it is compiled.
pub struct StyledName {
    pub name: Seq<char>,
    pub profile: Profile,
}

impl View for StyledBenchmarkName {
    type V = StyledName;

    open spec fn view(&self) -> StyledName {
        StyledName { name: self.name@, profile: self.profile }
    }
}

impl Same for StyledBenchmarkName {
    fn same(&self, other: &Self) -> (same: bool) {
        text::same_text(self.name.as_str(), other.name.as_str()) && self.profile == other.profile
    }
}

/// What was measured of one series at one commit.
pub struct DayPoint<P> {
    pub series: Series,
    /// The points of the series over the commit alone.
    pub points: Vec<Option<P>>,
}

impl<P: Copy> DayPoint<P> {
    /// The point of the series: the first one, if there is any and it was measured.
    pub open spec fn measured(self) -> Option<P> {
        if self.points@.len() > 0 {
            self.points@[0]
        } else {
            None
        }
    }

    /// The point of the series: the first one, if there is any and it was measured.
    pub fn point(&self) -> (point: Option<P>)
        ensures
            point == self.measured(),
    {
        if self.points.len() > 0 {
            self.points[0]
        } else {
            None
        }
    }
}

/// What was measured at one commit: for each benchmark, the points, each under the name of what
/// the compilation started from.
#[derive(Debug, PartialEq)]
pub struct DateData<P> {
    pub date: Date,
    pub commit: Sha,
    pub data: Table<StyledBenchmarkName, Vec<(String, P)>>,
}

/// A statistic, and what was measured of it at the first and at the second commit.
pub struct Measurements<P> {
    pub stat: StatId,
    pub a: Vec<DayPoint<P>>,
    pub b: Vec<DayPoint<P>>,
}

/// The answer to a request for two days.
#[derive(Debug, PartialEq)]
pub struct Response<P> {
    pub a: DateData<P>,
    pub b: DateData<P>,
}

/// Whether every series of which something was measured is about one benchmark.
pub open spec fn are_specific<P: Copy>(rows: Seq<DayPoint<P>>) -> bool {
    forall|i: int|
        #![trigger rows[i]]
        0 <= i < rows.len() && rows[i].measured() is Some ==> rows[i].series.krate is Specific
}

/// The benchmark of a series, and how it is compiled.
pub open spec fn key_of(series: Series) -> StyledName {
    StyledName { name: series.krate->Specific_0@, profile: series.profile }
}

/// Whether `shown` is how `point` of `series` is shown: under the name of what the compilation
/// started from, and in seconds if it is a clock.
pub open spec fn is_shown_as<A: Arithmetic, D: Database>(
    series: Series,
    point: A::Point,
    stat: StatId,
    shown: (String, A::Point),
) -> bool {
    &&& call_ensures(D::cache_name, (&series.cache,), shown.0)
    &&& if is_clock(stat) {
        call_ensures(A::to_seconds, (point,), shown.1)
    } else {
        shown.1 == point
    }
}

/// Whether `shown` is how the point of a row is shown, if there is one.
pub open spec fn is_shown<A: Arithmetic, D: Database>(
    row: DayPoint<A::Point>,
    stat: StatId,
    shown: Option<(String, A::Point)>,
) -> bool {
    match (row.measured(), shown) {
        (Some(point), Some(shown)) => is_shown_as::<A, D>(row.series, point, stat, shown),
        (None, None) => true,
        _ => false,
    }
}

/// Whether `shown` is how the points of all rows are shown.
pub open spec fn are_shown<A: Arithmetic, D: Database>(
    rows: Seq<DayPoint<A::Point>>,
    stat: StatId,
    shown: Seq<Option<(String, A::Point)>>,
) -> bool {
    &&& shown.len() == rows.len()
    &&& forall|i: int|
        0 <= i < rows.len() ==> is_shown::<A, D>(rows[i], stat, #[trigger] shown[i])
}

/// What is shown under `key` of the first `n` rows.
pub open spec fn grouped<P>(
    rows: Seq<DayPoint<P>>,
    shown: Seq<Option<(String, P)>>,
    n: int,
    key: StyledName,
) -> Seq<(String, P)>
    decreases n,
{
    if n <= 0 {
        Seq::empty()
    } else {
        let before = grouped(rows, shown, n - 1, key);
        if shown[n - 1] is Some && key_of(rows[n - 1].series) == key {
            before.push(shown[n - 1]->0)
        } else {
            before
        }
    }
}

/// Whether `data` holds under `key` what it should of the first `n` rows.
pub open spec fn is_grouped<P>(
    data: Table<StyledBenchmarkName, Vec<(String, P)>>,
    rows: Seq<DayPoint<P>>,
    shown: Seq<Option<(String, P)>>,
    n: int,
    key: StyledName,
) -> bool {
    &&& data@.contains_key(key) <==> grouped(rows, shown, n, key).len() > 0
    &&& data@.contains_key(key) ==> data@[key]@ == grouped(rows, shown, n, key)
}

/// Whether `day` shows the points `shown` of the rows, each under the benchmark of its row.
pub open spec fn shows_day<A: Arithmetic, D: Database>(
    day: DateData<A::Point>,
    commit: Commit,
    stat: StatId,
    rows: Seq<DayPoint<A::Point>>,
    shown: Seq<Option<(String, A::Point)>>,
) -> bool {
    &&& day.date == commit.date
    &&& day.commit@ == commit.sha@
    &&& are_shown::<A, D>(rows, stat, shown)
    &&& day.data.is_table()
    &&& forall|key: StyledName| #[trigger]
        is_grouped(day.data, rows, shown, rows.len() as int, key)
}

/// Whether `day` shows what was measured at `commit`.
pub open spec fn is_day<A: Arithmetic, D: Database>(
    day: DateData<A::Point>,
    commit: Commit,
    stat: StatId,
    rows: Seq<DayPoint<A::Point>>,
) -> bool {
    exists|shown: Seq<Option<(String, A::Point)>>| #[trigger]
        shows_day::<A, D>(day, commit, stat, rows, shown)
}

/// Every point that is shown stands under the benchmark of its row.
pub proof fn lemma_points_are_kept<P>(
    rows: Seq<DayPoint<P>>,
    shown: Seq<Option<(String, P)>>,
    n: int,
    i: int,
)
    requires
        0 <= i < n <= rows.len(),
        rows.len() == shown.len(),
        shown[i] is Some,
    ensures
        grouped(rows, shown, n, key_of(rows[i].series)).contains(shown[i]->0),
    decreases n,
{
    let key = key_of(rows[i].series);
    let before = grouped(rows, shown, n - 1, key);
    if i == n - 1 {
        assert(before.push(shown[i]->0).last() == shown[i]->0);
    } else {
        lemma_points_are_kept(rows, shown, n - 1, i);
        let at = choose|at: int| 0 <= at < before.len() && before[at] == shown[i]->0;
        assert(grouped(rows, shown, n, key)[at] == shown[i]->0);
    }
}

/// What is shown under a benchmark is the point of a row of that benchmark.
pub proof fn lemma_points_are_measured<P>(
    rows: Seq<DayPoint<P>>,
    shown: Seq<Option<(String, P)>>,
    n: int,
    key: StyledName,
    at: int,
) -> (i: int)
    requires
        n <= rows.len(),
        rows.len() == shown.len(),
        0 <= at < grouped(rows, shown, n, key).len(),
    ensures
        0 <= i < n,
        shown[i] == Some(grouped(rows, shown, n, key)[at]),
        key_of(rows[i].series) == key,
    decreases n,
{
    let before = grouped(rows, shown, n - 1, key);
    if at < before.len() {
        lemma_points_are_measured(rows, shown, n - 1, key, at)
    } else {
        n - 1
    }
}

/// Which rows have something to show, and are about this benchmark compiled in this way.
pub open spec fn belongs<P>(
    rows: Seq<DayPoint<P>>,
    shown: Seq<Option<(String, P)>>,
    key: StyledName,
) -> Seq<bool> {
    Seq::new(
        rows.len(),
        |i: int|
            shown[i] is Some && rows[i].series.profile == key.profile && (
            rows[i].series.krate matches CrateSelector::Specific(name) && name@ == key.name),
    )
}

/// Under a benchmark, compiled in one way, stand the points of its rows and no others, in the
/// order of the rows.
pub proof fn lemma_points_stand_in_order<P>(
    rows: Seq<DayPoint<P>>,
    shown: Seq<Option<(String, P)>>,
    key: StyledName,
) -> (chosen: Seq<int>)
    requires
        rows.len() == shown.len(),
        forall|i: int|
            #![trigger rows[i]]
            0 <= i < rows.len() && shown[i] is Some ==> rows[i].series.krate is Specific,
    ensures
        selection::is_selection(belongs(rows, shown, key), chosen),
        grouped(rows, shown, rows.len() as int, key).len() == chosen.len(),
        forall|j: int|
            0 <= j < chosen.len() ==> Some(
                #[trigger] grouped(rows, shown, rows.len() as int, key)[j],
            ) == shown[chosen[j]],
{
    let n = rows.len() as int;
    assert(belongs(rows, shown, key).take(n) =~= belongs(rows, shown, key));
    lemma_first_points(rows, shown, key, n)
}

proof fn lemma_first_points<P>(
    rows: Seq<DayPoint<P>>,
    shown: Seq<Option<(String, P)>>,
    key: StyledName,
    n: int,
) -> (chosen: Seq<int>)
    requires
        rows.len() == shown.len(),
        0 <= n <= rows.len(),
        forall|i: int|
            #![trigger rows[i]]
            0 <= i < rows.len() && shown[i] is Some ==> rows[i].series.krate is Specific,
    ensures
        selection::is_selection(belongs(rows, shown, key).take(n), chosen),
        grouped(rows, shown, n, key).len() == chosen.len(),
        forall|j: int|
            0 <= j < chosen.len() ==> Some(#[trigger] grouped(rows, shown, n, key)[j])
                == shown[chosen[j]],
    decreases n,
{
    if n == 0 {
        Seq::empty()
    } else {
        let before = lemma_first_points(rows, shown, key, n - 1);
        selection::lemma_selection_goes_on(belongs(rows, shown, key), n - 1, before);
        selection::extended(belongs(rows, shown, key), n - 1, before)
    }
}

/// A day holds a benchmark, compiled in one way, if and only if something was measured of it, and
/// under it one entry for each row of it that was measured, in their order: the name of what the
/// compilation started from, and the first point of the row, in seconds if it is a clock.
pub proof fn lemma_day_shows_what_was_measured<A: Arithmetic, D: Database>(
    day: DateData<A::Point>,
    commit: Commit,
    stat: StatId,
    rows: Seq<DayPoint<A::Point>>,
    key: StyledName,
) -> (chosen: Seq<int>)
    requires
        is_day::<A, D>(day, commit, stat, rows),
        are_specific(rows),
    ensures
        day.date == commit.date,
        day.commit@ == commit.sha@,
        selection::is_selection(
            Seq::new(
                rows.len(),
                |i: int|
                    rows[i].points@.len() > 0 && rows[i].points@[0] is Some && rows[i].series.profile
                        == key.profile && (rows[i].series.krate matches CrateSelector::Specific(
                        name,
                    ) && name@ == key.name),
            ),
            chosen,
        ),
        day.data@.contains_key(key) <==> chosen.len() > 0,
        chosen.len() > 0 ==> day.data@[key]@.len() == chosen.len(),
        forall|j: int|
            #![trigger day.data@[key]@[j]]
            0 <= j < chosen.len() ==> {
                let row = rows[chosen[j]];
                let entry = day.data@[key]@[j];
                &&& call_ensures(D::cache_name, (&row.series.cache,), entry.0)
                &&& if stat == StatId::CpuClock || stat == StatId::CpuClockUser {
                    call_ensures(A::to_seconds, (row.points@[0]->0,), entry.1)
                } else {
                    entry.1 == row.points@[0]->0
                }
            },
{
    let shown = choose|shown: Seq<Option<(String, A::Point)>>| #[trigger]
        shows_day::<A, D>(day, commit, stat, rows, shown);
    assert forall|i: int|
        #![trigger rows[i]]
        0 <= i < rows.len() && shown[i] is Some implies rows[i].series.krate is Specific by {
        assert(is_shown::<A, D>(rows[i], stat, shown[i]));
    }
    let chosen = lemma_points_stand_in_order(rows, shown, key);
    let wanted = Seq::new(
        rows.len(),
        |i: int|
            rows[i].points@.len() > 0 && rows[i].points@[0] is Some && rows[i].series.profile
                == key.profile && (rows[i].series.krate matches CrateSelector::Specific(name)
                && name@ == key.name),
    );
    assert forall|i: int| 0 <= i < rows.len() implies wanted[i] == belongs(rows, shown, key)[i] by {
        assert(is_shown::<A, D>(rows[i], stat, shown[i]));
    }
    assert(wanted =~= belongs(rows, shown, key));
    assert(is_grouped(day.data, rows, shown, rows.len() as int, key));
    let list = grouped(rows, shown, rows.len() as int, key);
    assert forall|j: int|
        #![trigger day.data@[key]@[j]]
        0 <= j < chosen.len() implies {
        let row = rows[chosen[j]];
        let entry = day.data@[key]@[j];
        &&& call_ensures(D::cache_name, (&row.series.cache,), entry.0)
        &&& if stat == StatId::CpuClock || stat == StatId::CpuClockUser {
            call_ensures(A::to_seconds, (row.points@[0]->0,), entry.1)
        } else {
            entry.1 == row.points@[0]->0
        }
    } by {
        assert(Some(list[j]) == shown[chosen[j]]);
        assert(is_shown::<A, D>(rows[chosen[j]], stat, shown[chosen[j]]));
    }
    chosen
}

proof fn lemma_grouped_before<P>(
    rows: Seq<DayPoint<P>>,
    shown: Seq<Option<(String, P)>>,
    more: Option<(String, P)>,
    n: int,
    key: StyledName,
)
    requires
        0 <= n <= shown.len(),
    ensures
        grouped(rows, shown.push(more), n, key) == grouped(rows, shown, n, key),
    decreases n,
{
    if n > 0 {
        lemma_grouped_before(rows, shown, more, n - 1, key);
    }
}

/// Whether every series of which something was measured is about one benchmark.
pub fn all_specific<P: Copy>(rows: &Vec<DayPoint<P>>) -> (res: bool)
    ensures
        res == are_specific(rows@),
{
    let mut i: usize = 0;
    while i < rows.len()
        invariant
            i <= rows@.len(),
            forall|k: int|
                #![trigger rows@[k]]
                0 <= k < i && rows@[k].measured() is Some ==> rows@[k].series.krate is Specific,
        decreases rows@.len() - i,
    {
        if rows[i].point().is_some() && !rows[i].series.krate.is_specific() {
            return false;
        }
        i += 1;
    }
    true
}

/// How the point of a series is shown.
fn show_point<A: Arithmetic, D: Database>(
    series: &Series,
    point: A::Point,
    stat: StatId,
) -> (shown: (String, A::Point))
    ensures
        is_shown_as::<A, D>(*series, point, stat, shown),
{
    let value: A::Point = if stat == StatId::CpuClock || stat == StatId::CpuClockUser {
        A::to_seconds(point)
    } else {
        point
    };
    (D::cache_name(&series.cache), value)
}

/// What was measured of `stat` at `commit`, by benchmark.
fn group_by_benchmark<A: Arithmetic, D: Database>(
    commit: &Commit,
    stat: StatId,
    rows: &Vec<DayPoint<A::Point>>,
) -> (res: DateData<A::Point>)
    requires
        are_specific(rows@),
    ensures
        is_day::<A, D>(res, *commit, stat, rows@),
{
    let mut data: Table<StyledBenchmarkName, Vec<(String, A::Point)>> = Table::new();
    let ghost mut shown: Seq<Option<(String, A::Point)>> = Seq::empty();
    let mut n: usize = 0;
    proof {
        assert forall|key: StyledName| #[trigger]
            is_grouped(data, rows@, shown, 0, key) by {}
    }
    while n < rows.len()
        invariant
            n <= rows@.len(),
            are_specific(rows@),
            shown.len() == n,
            forall|i: int|
                0 <= i < n ==> is_shown::<A, D>(rows@[i], stat, #[trigger] shown[i]),
            data.is_table(),
            forall|key: StyledName| #[trigger]
                is_grouped(data, rows@, shown, n as int, key),
        decreases rows@.len() - n,
    {
        let row: &DayPoint<A::Point> = &rows[n];
        let ghost data_before = data;
        let ghost shown_before = shown;
        let ghost mut more: Option<(String, A::Point)> = None;
        if let Some(point) = row.point() {
            if let CrateSelector::Specific(name) = &row.series.krate {
                let pair: (String, A::Point) = show_point::<A, D>(&row.series, point, stat);
                proof {
                    more = Some(pair);
                }
                let key: StyledBenchmarkName = StyledBenchmarkName {
                    name: name.clone(),
                    profile: row.series.profile,
                };
                data.entry(key, Vec::new()).push(pair);
            }
        }
        proof {
            shown = shown.push(more);
            assert forall|key: StyledName| #[trigger]
                is_grouped(data, rows@, shown, n + 1, key) by {
                assert(is_grouped(data_before, rows@, shown_before, n as int, key));
                lemma_grouped_before(rows@, shown_before, more, n as int, key);
                let before = grouped(rows@, shown_before, n as int, key);
                if more is Some && key == key_of(row.series) {
                    assert(data@[key]@ =~= before.push(more->0));
                }
            }
        }
        n += 1;
    }
    let res: DateData<A::Point> = DateData { date: commit.date, commit: commit.sha.clone(), data };
    assert(shows_day::<A, D>(res, *commit, stat, rows@, shown));
    res
}

impl<P: Copy> DateData<P> {
    /// What was measured of `stat` at `commit`, by benchmark.
    pub fn for_day<A: Arithmetic<Point = P>, D: Database>(
        commit: &Commit,
        stat: StatId,
        rows: &Vec<DayPoint<P>>,
    ) -> (res: DateData<P>)
        requires
            are_specific(rows@),
        ensures
            is_day::<A, D>(res, *commit, stat, rows@),
    {
        group_by_benchmark::<A, D>(commit, stat, rows)
    }
}

/// What is said when there is no commit for a bound.
pub open spec fn not_found(which: Seq<char>, bound: Seq<char>) -> Seq<char> {
    "could not find "@ + which + " commit for bound "@ + bound
}

/// What is said when there is no commit for a bound.
fn not_found_message(which: &str, bound: &str) -> (message: String)
    ensures
        message@ == not_found(which@, bound@),
{
    let mut message: String = "could not find ".to_string();
    message.append(which);
    message.append(" commit for bound ");
    message.append(bound);
    message
}

/// The measurements at the commits `a` and `b` that were found for the bounds `start` and `end`,
/// if they were found and the statistic is known.
pub fn handle_days<A: Arithmetic, D: Database>(
    start: &str,
    end: &str,
    a: Option<Commit>,
    b: Option<Commit>,
    measured: Result<Measurements<A::Point>, String>,
) -> (res: Result<Response<A::Point>, String>)
    requires
        a is Some && b is Some ==> (measured matches Ok(measured) ==> are_specific(measured.a@)
            && are_specific(measured.b@)),
    ensures
        match (a, b, measured) {
            (None, _, _) => res matches Err(e) && e@ == not_found("start"@, start@),
            (Some(_), None, _) => res matches Err(e) && e@ == not_found("end"@, end@),
            (Some(_), Some(_), Err(message)) => res matches Err(e) && e == message,
            (Some(a), Some(b), Ok(measured)) => {
                &&& res matches Ok(response) && is_day::<A, D>(
                    response.a,
                    a,
                    measured.stat,
                    measured.a@,
                ) && is_day::<A, D>(response.b, b, measured.stat, measured.b@)
            },
        },
{
    let a: Commit = match a {
        Some(a) => a,
        None => {
            return Err(not_found_message("start", start));
        },
    };
    let b: Commit = match b {
        Some(b) => b,
        None => {
            return Err(not_found_message("end", end));
        },
    };
    let measured: Measurements<A::Point> = match measured {
        Ok(measured) => measured,
        Err(message) => {
            return Err(message);
        },
    };
    Ok(
        Response {
            a: DateData::for_day::<A, D>(&a, measured.stat, &measured.a),
            b: DateData::for_day::<A, D>(&b, measured.stat, &measured.b),
        },
    )
}

/// The first day is that of the first bound and the second that of the second, each with what was
/// measured at its own commit. If a commit is missing, that of the first bound above all, or what
/// was measured, an error says so.
pub proof fn lemma_days_keep_their_sides<A: Arithmetic, D: Database>(
    start: &str,
    end: &str,
    a: Option<Commit>,
    b: Option<Commit>,
    measured: Result<Measurements<A::Point>, String>,
    res: Result<Response<A::Point>, String>,
)
    requires
        call_ensures(handle_days::<A, D>, (start, end, a, b, measured), res),
    ensures
        res is Ok <==> a is Some && b is Some && measured is Ok,
        res is Ok ==> {
            &&& res->Ok_0.a.commit@ == a->0.sha@
            &&& res->Ok_0.a.date == a->0.date
            &&& res->Ok_0.b.commit@ == b->0.sha@
            &&& res->Ok_0.b.date == b->0.date
            &&& is_day::<A, D>(res->Ok_0.a, a->0, measured->Ok_0.stat, measured->Ok_0.a@)
            &&& is_day::<A, D>(res->Ok_0.b, b->0, measured->Ok_0.stat, measured->Ok_0.b@)
        },
        a is None ==> res->Err_0@ == "could not find "@ + "start"@ + " commit for bound "@ + start@,
        a is Some && b is None ==> res->Err_0@ == "could not find "@ + "end"@
            + " commit for bound "@ + end@,
        a is Some && b is Some && measured is Err ==> res->Err_0@ == measured->Err_0@,
{
}

} // verus!
