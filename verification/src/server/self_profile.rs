//! The self profile of one benchmark run: where the compiler's queries spent their time.
use crate::arithmetic::Arithmetic;
use crate::order;
use crate::text;
use vstd::prelude::*;
use vstd::string::*;

verus! {

/// The longest span of time that can be told, in nanoseconds.
pub const LONGEST_SPAN: u128 = 18_446_744_073_709_551_615_999_999_999;

/// What a run recorded of one query. Times are in nanoseconds.
pub struct RecordedQuery {
    pub label: String,
    pub self_time: u128,
    pub number_of_cache_misses: u64,
    pub number_of_cache_hits: u64,
    pub invocation_count: u64,
    pub blocked_time: u128,
    pub incremental_load_time: u128,
}

/// One run of a benchmark.
pub struct Run<P> {
    /// Whether the run only checked the code.
    pub check: bool,
    /// Whether the run optimised the code.
    pub release: bool,
    /// The name of the state that the run started from.
    pub state: String,
    /// The run's `cpu-clock`, in milliseconds.
    pub cpu_clock: Option<P>,
    /// What the run recorded of its queries.
    pub self_profile: Option<Vec<RecordedQuery>>,
}

/// The runs of one benchmark at one commit.
pub struct Benchmark<P> {
    pub runs: Vec<Run<P>>,
}

/// What is shown of one query. Times are in nanoseconds.
pub struct QueryData<V> {
    pub label: String,
    pub self_time: u128,
    pub percent_total_time: V,
    pub number_of_cache_misses: u64,
    pub number_of_cache_hits: u64,
    pub invocation_count: u64,
    pub blocked_time: u128,
    pub incremental_load_time: u128,
}

impl<V: Copy> QueryData<V> {
    /// The same row once more.
    fn copied(&self) -> (res: Self)
        ensures
            res == *self,
    {
        QueryData {
            label: self.label.clone(),
            self_time: self.self_time,
            percent_total_time: self.percent_total_time,
            number_of_cache_misses: self.number_of_cache_misses,
            number_of_cache_hits: self.number_of_cache_hits,
            invocation_count: self.invocation_count,
            blocked_time: self.blocked_time,
            incremental_load_time: self.incremental_load_time,
        }
    }
}

/// The queries of one run, and their sums.
pub struct SelfProfile<V> {
    pub query_data: Vec<QueryData<V>>,
    pub totals: QueryData<V>,
}

/// A column of a profile that can be summed.
pub enum Measure {
    SelfTime,
    CacheMisses,
    CacheHits,
    Invocations,
    BlockedTime,
    LoadTime,
}

/// The value of one query in one column.
pub open spec fn measured(query: RecordedQuery, measure: Measure) -> nat {
    match measure {
        Measure::SelfTime => query.self_time as nat,
        Measure::CacheMisses => query.number_of_cache_misses as nat,
        Measure::CacheHits => query.number_of_cache_hits as nat,
        Measure::Invocations => query.invocation_count as nat,
        Measure::BlockedTime => query.blocked_time as nat,
        Measure::LoadTime => query.incremental_load_time as nat,
    }
}

/// The sum of a column.
pub open spec fn total(queries: Seq<RecordedQuery>, measure: Measure) -> nat
    decreases queries.len(),
{
    if queries.len() == 0 {
        0
    } else {
        total(queries.drop_last(), measure) + measured(queries.last(), measure)
    }
}

/// The largest sum that a column can show.
pub open spec fn limit(measure: Measure) -> nat {
    match measure {
        Measure::SelfTime | Measure::BlockedTime | Measure::LoadTime => LONGEST_SPAN as nat,
        Measure::CacheMisses | Measure::CacheHits | Measure::Invocations => u64::MAX as nat,
    }
}

/// Whether the sum of every column can be shown.
pub open spec fn sums_fit(queries: Seq<RecordedQuery>) -> bool {
    forall|measure: Measure| #[trigger] total(queries, measure) <= limit(measure)
}

proof fn lemma_total_grows(queries: Seq<RecordedQuery>, i: int, measure: Measure)
    requires
        0 <= i < queries.len(),
    ensures
        total(queries.take(i), measure) + measured(queries[i], measure) <= total(queries, measure),
        total(queries.take(i + 1), measure) == total(queries.take(i), measure) + measured(
            queries[i],
            measure,
        ),
    decreases queries.len(),
{
    assert(queries.take(i + 1).drop_last() =~= queries.take(i));
    if i + 1 < queries.len() {
        lemma_total_grows(queries.drop_last(), i, measure);
        assert(queries.drop_last().take(i) =~= queries.take(i));
    }
}

/// The sums of the columns, in nanoseconds and counts.
pub struct Sums {
    pub self_time: u128,
    pub cache_misses: u64,
    pub cache_hits: u64,
    pub invocations: u64,
    pub blocked_time: u128,
    pub load_time: u128,
}

/// Whether `sums` are the sums of `queries`.
pub open spec fn are_sums(sums: Sums, queries: Seq<RecordedQuery>) -> bool {
    &&& sums.self_time == total(queries, Measure::SelfTime)
    &&& sums.cache_misses == total(queries, Measure::CacheMisses)
    &&& sums.cache_hits == total(queries, Measure::CacheHits)
    &&& sums.invocations == total(queries, Measure::Invocations)
    &&& sums.blocked_time == total(queries, Measure::BlockedTime)
    &&& sums.load_time == total(queries, Measure::LoadTime)
}

/// The sum of two spans of time, where it can be told.
fn checked_span(a: u128, b: u128) -> (sum: Option<u128>)
    ensures
        match sum {
            Some(sum) => sum == a + b && sum <= LONGEST_SPAN,
            None => a + b > LONGEST_SPAN,
        },
{
    match a.checked_add(b) {
        Some(sum) => if sum <= LONGEST_SPAN {
            Some(sum)
        } else {
            None
        },
        None => None,
    }
}

/// The sums of every column, where all of them can be shown.
pub fn checked_sums(queries: &Vec<RecordedQuery>) -> (sums: Option<Sums>)
    ensures
        match sums {
            Some(sums) => sums_fit(queries@) && are_sums(sums, queries@),
            None => !sums_fit(queries@),
        },
{
    let mut sums: Sums = Sums {
        self_time: 0,
        cache_misses: 0,
        cache_hits: 0,
        invocations: 0,
        blocked_time: 0,
        load_time: 0,
    };
    for i in 0..queries.len()
        invariant
            are_sums(sums, queries@.take(i as int)),
            sums.self_time <= LONGEST_SPAN,
            sums.blocked_time <= LONGEST_SPAN,
            sums.load_time <= LONGEST_SPAN,
    {
        let query: &RecordedQuery = &queries[i];
        proof {
            lemma_total_grows(queries@, i as int, Measure::SelfTime);
            lemma_total_grows(queries@, i as int, Measure::CacheMisses);
            lemma_total_grows(queries@, i as int, Measure::CacheHits);
            lemma_total_grows(queries@, i as int, Measure::Invocations);
            lemma_total_grows(queries@, i as int, Measure::BlockedTime);
            lemma_total_grows(queries@, i as int, Measure::LoadTime);
        }
        match (
            checked_span(sums.self_time, query.self_time),
            sums.cache_misses.checked_add(query.number_of_cache_misses),
            sums.cache_hits.checked_add(query.number_of_cache_hits),
            sums.invocations.checked_add(query.invocation_count),
            checked_span(sums.blocked_time, query.blocked_time),
            checked_span(sums.load_time, query.incremental_load_time),
        ) {
            (
                Some(self_time),
                Some(cache_misses),
                Some(cache_hits),
                Some(invocations),
                Some(blocked_time),
                Some(load_time),
            ) => {
                sums =
                Sums {
                    self_time,
                    cache_misses,
                    cache_hits,
                    invocations,
                    blocked_time,
                    load_time,
                };
            },
            _ => {
                return None;
            },
        }
    }
    assert(queries@.take(queries@.len() as int) =~= queries@);
    Some(sums)
}

/// Whether `run` is the one that `bench_ty` and `run_name` ask for.
pub open spec fn is_asked_for<P>(run: Run<P>, bench_ty: Seq<char>, run_name: Seq<char>) -> bool {
    &&& run.check == (bench_ty == "check"@)
    &&& run.release == (bench_ty == "opt"@)
    &&& run.state@ == run_name
}

/// The place of the first run from `from` on that `bench_ty` and `run_name` ask for.
pub open spec fn run_index<P>(
    runs: Seq<Run<P>>,
    bench_ty: Seq<char>,
    run_name: Seq<char>,
    from: int,
) -> Option<int>
    decreases runs.len() - from,
{
    if from < 0 || from >= runs.len() {
        None
    } else if is_asked_for(runs[from], bench_ty, run_name) {
        Some(from)
    } else {
        run_index(runs, bench_ty, run_name, from + 1)
    }
}

/// The first run that `bench_ty` and `run_name` ask for.
fn find_run<P>(runs: &Vec<Run<P>>, bench_ty: &str, run_name: &str) -> (found: Option<usize>)
    ensures
        match found {
            Some(i) => i < runs@.len() && run_index(runs@, bench_ty@, run_name@, 0) == Some(
                i as int,
            ),
            None => run_index(runs@, bench_ty@, run_name@, 0) is None,
        },
{
    let check: bool = text::same_text(bench_ty, "check");
    let release: bool = text::same_text(bench_ty, "opt");
    let mut i: usize = 0;
    while i < runs.len()
        invariant
            i <= runs@.len(),
            check == (bench_ty@ == "check"@),
            release == (bench_ty@ == "opt"@),
            run_index(runs@, bench_ty@, run_name@, 0) == run_index(
                runs@,
                bench_ty@,
                run_name@,
                i as int,
            ),
        decreases runs@.len() - i,
    {
        let run: &Run<P> = &runs[i];
        if run.check == check && run.release == release && text::same_text(
            run.state.as_str(),
            run_name,
        ) {
            return Some(i);
        }
        i += 1;
    }
    None
}

/// What floating point makes of a run.
pub struct Figures<V> {
    /// The share that is shown beside the sum of all times.
    pub total_share: V,
    /// The share of each query.
    pub shares: Vec<V>,
    /// The rate of each query's cache hits, where rows are sorted by it.
    pub rates: Vec<u64>,
    /// The rank of each query's share, where rows are sorted by it.
    pub ranks: Vec<u64>,
}

/// The row that shows `query`, whose share is `share`.
pub open spec fn row_of<V>(query: RecordedQuery, share: V) -> QueryData<V> {
    QueryData {
        label: query.label,
        self_time: query.self_time,
        percent_total_time: share,
        number_of_cache_misses: query.number_of_cache_misses,
        number_of_cache_hits: query.number_of_cache_hits,
        invocation_count: query.invocation_count,
        blocked_time: query.blocked_time,
        incremental_load_time: query.incremental_load_time,
    }
}

/// The rows that show `queries`, one each and in their order.
pub open spec fn rows_of<V>(queries: Seq<RecordedQuery>, shares: Seq<V>) -> Seq<QueryData<V>> {
    Seq::new(queries.len(), |i: int| row_of(queries[i], shares[i]))
}

/// Whether `totals` is the row of sums of `queries`.
pub open spec fn is_totals<V>(
    totals: QueryData<V>,
    queries: Seq<RecordedQuery>,
    total_share: V,
) -> bool {
    &&& totals.label@ == "Totals"@
    &&& totals.self_time == total(queries, Measure::SelfTime)
    &&& totals.percent_total_time == total_share
    &&& totals.number_of_cache_misses == total(queries, Measure::CacheMisses)
    &&& totals.number_of_cache_hits == total(queries, Measure::CacheHits)
    &&& totals.invocation_count == total(queries, Measure::Invocations)
    &&& totals.blocked_time == total(queries, Measure::BlockedTime)
    &&& totals.incremental_load_time == total(queries, Measure::LoadTime)
}

/// The column that `sort_idx` names: its absolute value.
pub open spec fn column_of(sort_idx: int) -> int {
    if sort_idx < 0 {
        -sort_idx
    } else {
        sort_idx
    }
}

/// Whether `sort_idx` names a column that rows are sorted by.
pub open spec fn sorts(sort_idx: int) -> bool {
    1 <= column_of(sort_idx) <= 7 || 9 <= column_of(sort_idx) <= 10
}

/// The number that column `column` sorts `row` by, whose hits have this rate and whose share has
/// this rank.
pub open spec fn number_key<V>(column: int, row: QueryData<V>, rate: u64, rank: u64) -> u128 {
    if column == 2 {
        row.self_time
    } else if column == 3 {
        row.number_of_cache_misses as u128
    } else if column == 4 {
        row.number_of_cache_hits as u128
    } else if column == 5 {
        row.invocation_count as u128
    } else if column == 6 {
        row.blocked_time
    } else if column == 7 {
        row.incremental_load_time
    } else if column == 9 {
        rate as u128
    } else {
        rank as u128
    }
}

/// The numbers that column `column` sorts `rows` by.
pub open spec fn number_keys<V>(
    column: int,
    rows: Seq<QueryData<V>>,
    rates: Seq<u64>,
    ranks: Seq<u64>,
) -> Seq<u128> {
    Seq::new(rows.len(), |i: int| number_key(column, rows[i], rates[i], ranks[i]))
}

/// Whether `keys` are the labels of `rows`.
pub open spec fn are_labels<V>(rows: Seq<QueryData<V>>, keys: Seq<Vec<char>>) -> bool {
    keys.len() == rows.len() && forall|i: int|
        0 <= i < keys.len() ==> (#[trigger] keys[i])@ == rows[i].label@
}

/// Whether `order` is the order in which column `column` puts `rows`: the first one sorts them by
/// their labels, the others by numbers, and rows that are alike keep their order.
pub open spec fn is_order<V>(
    column: int,
    rows: Seq<QueryData<V>>,
    rates: Seq<u64>,
    ranks: Seq<u64>,
    order: Seq<usize>,
) -> bool {
    if column == 1 {
        exists|keys: Seq<Vec<char>>| #[trigger]
            are_labels(rows, keys) && order::is_stable_order(keys, 0, rows.len() as int, order)
    } else {
        order::is_stable_order(
            number_keys(column, rows, rates, ranks),
            0,
            rows.len() as int,
            order,
        )
    }
}

/// The rows of `before` in the order `order`, back to front if `reversed`.
pub open spec fn arranged<V>(
    before: Seq<QueryData<V>>,
    order: Seq<usize>,
    reversed: bool,
) -> Seq<QueryData<V>> {
    Seq::new(
        order.len(),
        |i: int| before[order[if reversed { order.len() - 1 - i } else { i }] as int],
    )
}

/// Whether `after` holds the rows of `before` as `sort_idx` asks for them: its absolute value
/// names the column, and a negative one turns the sorted rows round. Numbers that name no column
/// to sort by leave the rows as they are.
pub open spec fn sorted_rows<V>(
    sort_idx: int,
    rates: Seq<u64>,
    ranks: Seq<u64>,
    before: Seq<QueryData<V>>,
    after: Seq<QueryData<V>>,
) -> bool {
    if before.len() < 2 || !sorts(sort_idx) {
        after == before
    } else {
        exists|order: Seq<usize>| #[trigger]
            is_order(column_of(sort_idx), before, rates, ranks, order) && after == arranged(
                before,
                order,
                sort_idx < 0,
            )
    }
}

/// Whether the numbers are there that `sort_idx` sorts `n` rows by.
pub open spec fn has_keys(sort_idx: int, rates: Seq<u64>, ranks: Seq<u64>, n: nat) -> bool {
    n >= 2 ==> {
        &&& column_of(sort_idx) == 9 ==> rates.len() == n
        &&& column_of(sort_idx) == 10 ==> ranks.len() == n
    }
}

/// The rows in the order `order`, back to front if `reversed`.
fn arrange<V: Copy>(rows: &Vec<QueryData<V>>, order: &Vec<usize>, reversed: bool) -> (res: Vec<
    QueryData<V>,
>)
    requires
        forall|i: int| 0 <= i < order@.len() ==> #[trigger] order@[i] < rows@.len(),
    ensures
        res@ == arranged(rows@, order@, reversed),
{
    let mut res: Vec<QueryData<V>> = Vec::new();
    let n: usize = order.len();
    for i in 0..n
        invariant
            n == order@.len(),
            res@.len() == i,
            forall|k: int| 0 <= k < order@.len() ==> #[trigger] order@[k] < rows@.len(),
            forall|k: int| 0 <= k < i ==> #[trigger] res@[k] == arranged(rows@, order@, reversed)[k],
    {
        let at: usize = if reversed {
            n - 1 - i
        } else {
            i
        };
        res.push(rows[order[at]].copied());
    }
    res
}

/// The numbers that column `column` sorts `rows` by.
fn find_keys<V>(
    column: i32,
    rows: &Vec<QueryData<V>>,
    rates: &Vec<u64>,
    ranks: &Vec<u64>,
) -> (keys: Vec<u128>)
    requires
        column == 9 ==> rates@.len() == rows@.len(),
        column < 2 || column > 7 ==> column == 9 || ranks@.len() == rows@.len(),
    ensures
        keys@ == number_keys(column as int, rows@, rates@, ranks@),
{
    let mut keys: Vec<u128> = Vec::new();
    for i in 0..rows.len()
        invariant
            column == 9 ==> rates@.len() == rows@.len(),
            column < 2 || column > 7 ==> column == 9 || ranks@.len() == rows@.len(),
            keys@.len() == i,
            forall|k: int|
                0 <= k < i ==> #[trigger] keys@[k] == number_keys(
                    column as int,
                    rows@,
                    rates@,
                    ranks@,
                )[k],
    {
        let row: &QueryData<V> = &rows[i];
        let key: u128 = match column {
            2 => row.self_time,
            3 => row.number_of_cache_misses as u128,
            4 => row.number_of_cache_hits as u128,
            5 => row.invocation_count as u128,
            6 => row.blocked_time,
            7 => row.incremental_load_time,
            9 => rates[i] as u128,
            _ => ranks[i] as u128,
        };
        keys.push(key);
    }
    keys
}

/// Sorts the rows as `sort_idx` asks for them, given the numbers that are not in the rows.
pub fn sort_rows<V: Copy>(
    rows: Vec<QueryData<V>>,
    rates: &Vec<u64>,
    ranks: &Vec<u64>,
    sort_idx: i32,
) -> (res: Vec<QueryData<V>>)
    requires
        sort_idx != i32::MIN,
        has_keys(sort_idx as int, rates@, ranks@, rows@.len()),
    ensures
        sorted_rows(sort_idx as int, rates@, ranks@, rows@, res@),
{
    if rows.len() < 2 {
        return rows;
    }
    let column: i32 = if sort_idx < 0 {
        -sort_idx
    } else {
        sort_idx
    };
    if column == 1 {
        let mut keys: Vec<Vec<char>> = Vec::new();
        for i in 0..rows.len()
            invariant
                keys@.len() == i,
                forall|k: int| 0 <= k < i ==> (#[trigger] keys@[k])@ == rows@[k].label@,
        {
            keys.push(text::to_chars(rows[i].label.as_str()));
        }
        let order: Vec<usize> = order::stable_order(&keys);
        assert(are_labels(rows@, keys@));
        assert(is_order(1, rows@, rates@, ranks@, order@));
        arrange(&rows, &order, sort_idx < 0)
    } else if (2 <= column && column <= 7) || column == 9 || column == 10 {
        let keys: Vec<u128> = find_keys(column, &rows, rates, ranks);
        let order: Vec<usize> = order::stable_order(&keys);
        assert(is_order(column as int, rows@, rates@, ranks@, order@));
        arrange(&rows, &order, sort_idx < 0)
    } else {
        rows
    }
}

/// Whether `profile` shows `queries` and what floating point made of them, sorted as `sort_idx`
/// asks if it does.
pub open spec fn shows_profile<V>(
    profile: SelfProfile<V>,
    queries: Seq<RecordedQuery>,
    figures: Figures<V>,
    sort_idx: Option<i32>,
) -> bool {
    &&& is_totals(profile.totals, queries, figures.total_share)
    &&& match sort_idx {
        Some(sort_idx) => sorted_rows(
            sort_idx as int,
            figures.rates@,
            figures.ranks@,
            rows_of(queries, figures.shares@),
            profile.query_data@,
        ),
        None => profile.query_data@ == rows_of(queries, figures.shares@),
    }
}

/// The profile that shows `queries` and what floating point made of them.
pub fn show_profile<V: Copy>(
    queries: &Vec<RecordedQuery>,
    figures: &Figures<V>,
    sort_idx: Option<i32>,
) -> (profile: SelfProfile<V>)
    requires
        sums_fit(queries@),
        figures.shares@.len() == queries@.len(),
        sort_idx matches Some(sort_idx) ==> sort_idx != i32::MIN && has_keys(
            sort_idx as int,
            figures.rates@,
            figures.ranks@,
            queries@.len(),
        ),
    ensures
        shows_profile(profile, queries@, *figures, sort_idx),
{
    let sums: Sums = checked_sums(queries).unwrap();
    let totals: QueryData<V> = QueryData {
        label: "Totals".to_string(),
        self_time: sums.self_time,
        percent_total_time: figures.total_share,
        number_of_cache_misses: sums.cache_misses,
        number_of_cache_hits: sums.cache_hits,
        invocation_count: sums.invocations,
        blocked_time: sums.blocked_time,
        incremental_load_time: sums.load_time,
    };
    let mut rows: Vec<QueryData<V>> = Vec::new();
    for i in 0..queries.len()
        invariant
            figures.shares@.len() == queries@.len(),
            rows@.len() == i,
            forall|k: int|
                0 <= k < i ==> #[trigger] rows@[k] == rows_of(queries@, figures.shares@)[k],
    {
        let query: &RecordedQuery = &queries[i];
        rows.push(
            QueryData {
                label: query.label.clone(),
                self_time: query.self_time,
                percent_total_time: figures.shares[i],
                number_of_cache_misses: query.number_of_cache_misses,
                number_of_cache_hits: query.number_of_cache_hits,
                invocation_count: query.invocation_count,
                blocked_time: query.blocked_time,
                incremental_load_time: query.incremental_load_time,
            },
        );
    }
    assert(rows@ =~= rows_of(queries@, figures.shares@));
    let query_data: Vec<QueryData<V>> = match sort_idx {
        Some(sort_idx) => sort_rows(rows, &figures.rates, &figures.ranks, sort_idx),
        None => rows,
    };
    SelfProfile { query_data, totals }
}

/// Whether `sort_idx` sorts two or more of `n` rows by column `column`.
pub open spec fn is_sorted_by(sort_idx: Option<i32>, column: int, n: nat) -> bool {
    n >= 2 && (sort_idx matches Some(sort_idx) && column_of(sort_idx as int) == column)
}

/// Whether `figures` are what floating point makes of `queries`: each query's share is that of
/// its time in the sum of all times, and the sum's own share is that of the run's clock.
pub open spec fn are_figures<A: Arithmetic>(
    figures: Figures<A::Plotted>,
    queries: Seq<RecordedQuery>,
    cpu_clock: Option<A::Point>,
    sort_idx: Option<i32>,
) -> bool {
    let sum = total(queries, Measure::SelfTime) as u128;
    &&& match cpu_clock {
        Some(clock) => call_ensures(A::share_of_clock, (sum, clock), figures.total_share),
        None => call_ensures(A::unknown_share, (), figures.total_share),
    }
    &&& figures.shares@.len() == queries.len()
    &&& forall|i: int|
        0 <= i < queries.len() ==> call_ensures(
            A::share,
            (queries[i].self_time, sum),
            #[trigger] figures.shares@[i],
        )
    &&& is_sorted_by(sort_idx, 9, queries.len()) ==> figures.rates@.len() == queries.len()
        && forall|i: int|
        0 <= i < queries.len() ==> call_ensures(
            A::hit_rate,
            (queries[i].number_of_cache_hits, queries[i].invocation_count),
            #[trigger] figures.rates@[i],
        )
    &&& is_sorted_by(sort_idx, 10, queries.len()) ==> figures.ranks@.len() == queries.len()
        && forall|i: int|
        0 <= i < queries.len() ==> call_ensures(
            A::rank,
            (figures.shares@[i],),
            #[trigger] figures.ranks@[i],
        )
}

/// Whether the rows of `queries` can be sorted as `sort_idx` asks: its absolute value can be told,
/// and two or more rows are sorted by their shares only where there is some time to share. A share
/// of no time at all is not a number, and has no rank.
pub open spec fn can_be_sorted(queries: Seq<RecordedQuery>, sort_idx: Option<i32>) -> bool {
    &&& sort_idx != Some(i32::MIN)
    &&& (sort_idx == Some(10i32) || sort_idx == Some(-10i32)) && queries.len() >= 2 ==> total(
        queries,
        Measure::SelfTime,
    ) > 0
}

/// What floating point makes of `queries`.
fn find_figures<A: Arithmetic>(
    queries: &Vec<RecordedQuery>,
    cpu_clock: Option<A::Point>,
    sort_idx: Option<i32>,
) -> (figures: Figures<A::Plotted>)
    requires
        sums_fit(queries@),
        can_be_sorted(queries@, sort_idx),
    ensures
        are_figures::<A>(figures, queries@, cpu_clock, sort_idx),
{
    let sum: u128 = checked_sums(queries).unwrap().self_time;
    let total_share: A::Plotted = match cpu_clock {
        Some(clock) => A::share_of_clock(sum, clock),
        None => A::unknown_share(),
    };
    let by_rate: bool = queries.len() >= 2 && (sort_idx == Some(9) || sort_idx == Some(-9));
    let by_rank: bool = queries.len() >= 2 && (sort_idx == Some(10) || sort_idx == Some(-10));
    let mut shares: Vec<A::Plotted> = Vec::new();
    let mut rates: Vec<u64> = Vec::new();
    let mut ranks: Vec<u64> = Vec::new();
    for i in 0..queries.len()
        invariant
            shares@.len() == i,
            forall|k: int|
                0 <= k < i ==> call_ensures(
                    A::share,
                    (queries@[k].self_time, sum),
                    #[trigger] shares@[k],
                ),
            by_rate ==> rates@.len() == i && forall|k: int|
                0 <= k < i ==> call_ensures(
                    A::hit_rate,
                    (queries@[k].number_of_cache_hits, queries@[k].invocation_count),
                    #[trigger] rates@[k],
                ),
            by_rank ==> ranks@.len() == i && forall|k: int|
                0 <= k < i ==> call_ensures(A::rank, (shares@[k],), #[trigger] ranks@[k]),
    {
        let query: &RecordedQuery = &queries[i];
        let share: A::Plotted = A::share(query.self_time, sum);
        shares.push(share);
        if by_rate {
            rates.push(A::hit_rate(query.number_of_cache_hits, query.invocation_count));
        }
        if by_rank {
            ranks.push(A::rank(share));
        }
    }
    Figures { total_share, shares, rates, ranks }
}

/// Whether `profile` shows what a run recorded, sorted as `sort_idx` asks if it does.
pub open spec fn is_profile_of<A: Arithmetic>(
    profile: SelfProfile<A::Plotted>,
    queries: Seq<RecordedQuery>,
    cpu_clock: Option<A::Point>,
    sort_idx: Option<i32>,
) -> bool {
    exists|figures: Figures<A::Plotted>| #[trigger]
        are_figures::<A>(figures, queries, cpu_clock, sort_idx) && shows_profile(
            profile,
            queries,
            figures,
            sort_idx,
        )
}

/// What the run recorded of its queries that `bench_ty` and `run_name` ask for, if there is such
/// a run and it recorded them.
pub open spec fn asked_queries<P>(
    benchmark: Benchmark<P>,
    bench_ty: Seq<char>,
    run_name: Seq<char>,
) -> Option<Vec<RecordedQuery>> {
    match run_index(benchmark.runs@, bench_ty, run_name, 0) {
        Some(i) => benchmark.runs@[i].self_profile,
        None => None,
    }
}

/// Whether the profile of the run that is asked for, if there is one, can be summed and sorted.
pub open spec fn is_showable<P>(
    benchmark: Benchmark<P>,
    bench_ty: Seq<char>,
    run_name: Seq<char>,
    sort_idx: Option<i32>,
) -> bool {
    asked_queries(benchmark, bench_ty, run_name) matches Some(queries) ==> sums_fit(queries@)
        && can_be_sorted(queries@, sort_idx)
}

/// Whether there is a profile of the run that is asked for.
pub fn has_profile<P>(benchmark: &Benchmark<P>, bench_ty: &str, run_name: &str) -> (res: bool)
    ensures
        res == (asked_queries(*benchmark, bench_ty@, run_name@) is Some),
{
    match find_run(&benchmark.runs, bench_ty, run_name) {
        Some(i) => benchmark.runs[i].self_profile.is_some(),
        None => false,
    }
}

/// Whether the profile of the run that is asked for, if there is one, can be summed and sorted.
pub fn can_be_shown<P>(
    benchmark: &Benchmark<P>,
    bench_ty: &str,
    run_name: &str,
    sort_idx: Option<i32>,
) -> (res: bool)
    ensures
        res == is_showable(*benchmark, bench_ty@, run_name@, sort_idx),
{
    let queries: &Vec<RecordedQuery> = match find_run(&benchmark.runs, bench_ty, run_name) {
        Some(i) => match &benchmark.runs[i].self_profile {
            Some(queries) => queries,
            None => {
                return true;
            },
        },
        None => {
            return true;
        },
    };
    let by_rank: bool = queries.len() >= 2 && (sort_idx == Some(10) || sort_idx == Some(-10));
    match checked_sums(queries) {
        Some(sums) => sort_idx != Some(i32::MIN) && (!by_rank || sums.self_time > 0),
        None => false,
    }
}

/// What `get_self_profile_data` returns.
pub open spec fn answers_profile<A: Arithmetic>(
    res: Result<SelfProfile<A::Plotted>, String>,
    benchmark: Benchmark<A::Point>,
    bench_ty: Seq<char>,
    run_name: Seq<char>,
    sort_idx: Option<i32>,
) -> bool {
    match run_index(benchmark.runs@, bench_ty, run_name, 0) {
        None => res matches Err(e) && e@ == "No such run"@,
        Some(i) => match benchmark.runs@[i].self_profile {
            None => res matches Err(e) && e@ == "No self profile results for this commit"@,
            Some(queries) => res matches Ok(profile) && is_profile_of::<A>(
                profile,
                queries@,
                benchmark.runs@[i].cpu_clock,
                sort_idx,
            ),
        },
    }
}

/// The self profile of the run that `bench_ty` and `run_name` ask for.
pub fn get_self_profile_data<A: Arithmetic>(
    benchmark: &Benchmark<A::Point>,
    bench_ty: &str,
    run_name: &str,
    sort_idx: Option<i32>,
) -> (res: Result<SelfProfile<A::Plotted>, String>)
    requires
        is_showable(*benchmark, bench_ty@, run_name@, sort_idx),
    ensures
        answers_profile::<A>(res, *benchmark, bench_ty@, run_name@, sort_idx),
{
    let run: &Run<A::Point> = match find_run(&benchmark.runs, bench_ty, run_name) {
        Some(i) => &benchmark.runs[i],
        None => {
            return Err("No such run".to_string());
        },
    };
    let queries: &Vec<RecordedQuery> = match &run.self_profile {
        Some(queries) => queries,
        None => {
            return Err("No self profile results for this commit".to_string());
        },
    };
    let figures: Figures<A::Plotted> = find_figures::<A>(queries, run.cpu_clock, sort_idx);
    Ok(show_profile(queries, &figures, sort_idx))
}

} // verus!
