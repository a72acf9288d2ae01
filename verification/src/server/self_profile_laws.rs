//! What holds of self profiles however they are sorted.
use crate::arithmetic::Arithmetic;
use crate::order;
use crate::server::self_profile;
use crate::server::self_profile::{
    Benchmark, Figures, Measure, QueryData, RecordedQuery, Run, SelfProfile,
};
use vstd::prelude::*;

verus! {

/// Whether two rows show the same, but for their shares.
pub open spec fn same_but_share<V>(a: QueryData<V>, b: QueryData<V>) -> bool {
    &&& a.label@ == b.label@
    &&& a.self_time == b.self_time
    &&& a.number_of_cache_misses == b.number_of_cache_misses
    &&& a.number_of_cache_hits == b.number_of_cache_hits
    &&& a.invocation_count == b.invocation_count
    &&& a.blocked_time == b.blocked_time
    &&& a.incremental_load_time == b.incremental_load_time
}

/// Whether two rows show the same.
pub open spec fn same_row<V>(a: QueryData<V>, b: QueryData<V>) -> bool {
    same_but_share(a, b) && a.percent_total_time == b.percent_total_time
}

/// Whether two lists of rows show the same, row by row, but for the shares.
pub open spec fn same_rows_but_shares<V>(a: Seq<QueryData<V>>, b: Seq<QueryData<V>>) -> bool {
    &&& a.len() == b.len()
    &&& forall|i: int| 0 <= i < a.len() ==> same_but_share(#[trigger] a[i], b[i])
}

/// Rows that show the same but for their shares are put into the same order, where they are
/// sorted by the same numbers.
proof fn lemma_same_order<V>(
    column: int,
    a: Seq<QueryData<V>>,
    b: Seq<QueryData<V>>,
    a_rates: Seq<u64>,
    b_rates: Seq<u64>,
    a_ranks: Seq<u64>,
    b_ranks: Seq<u64>,
    a_order: Seq<usize>,
    b_order: Seq<usize>,
)
    requires
        self_profile::sorts(column),
        column > 0,
        same_rows_but_shares(a, b),
        column == 9 ==> a_rates == b_rates,
        column == 10 ==> a_ranks == b_ranks,
        self_profile::is_order(column, a, a_rates, a_ranks, a_order),
        self_profile::is_order(column, b, b_rates, b_ranks, b_order),
    ensures
        a_order == b_order,
{
    if column == 1 {
        let a_keys = choose|keys: Seq<Vec<char>>| #[trigger]
            self_profile::are_labels(a, keys) && order::is_stable_order(
                keys,
                0,
                a.len() as int,
                a_order,
            );
        let b_keys = choose|keys: Seq<Vec<char>>| #[trigger]
            self_profile::are_labels(b, keys) && order::is_stable_order(
                keys,
                0,
                b.len() as int,
                b_order,
            );
        assert forall|i: int, j: int| 0 <= i < j < b_order.len() implies order::stands_before(
            a_keys,
            #[trigger] b_order[i] as int,
            #[trigger] b_order[j] as int,
        ) by {
            assert(order::stands_before(b_keys, b_order[i] as int, b_order[j] as int));
        }
        order::lemma_stable_order_is_unique(a_keys, a_order, b_order);
    } else {
        let a_keys = self_profile::number_keys(column, a, a_rates, a_ranks);
        let b_keys = self_profile::number_keys(column, b, b_rates, b_ranks);
        assert(a_keys =~= b_keys);
        order::lemma_stable_order_is_unique(a_keys, a_order, b_order);
    }
}

/// Of rows that show the same but for their shares, those that are sorted by a column back to
/// front are those that are sorted by it, turned round, but for the shares.
proof fn lemma_both_ways<V>(
    column: int,
    a: Seq<QueryData<V>>,
    b: Seq<QueryData<V>>,
    a_rates: Seq<u64>,
    b_rates: Seq<u64>,
    a_ranks: Seq<u64>,
    b_ranks: Seq<u64>,
    forward: Seq<QueryData<V>>,
    backward: Seq<QueryData<V>>,
)
    requires
        self_profile::sorts(column),
        column > 0,
        same_rows_but_shares(a, b),
        column == 9 ==> a_rates == b_rates,
        column == 10 ==> a_ranks == b_ranks,
        self_profile::sorted_rows(column, a_rates, a_ranks, a, forward),
        self_profile::sorted_rows(-column, b_rates, b_ranks, b, backward),
    ensures
        same_rows_but_shares(backward, forward.reverse()),
        a == b ==> backward == forward.reverse(),
{
    if a.len() < 2 {
        assert(a =~= a.reverse());
    } else {
        let a_order = choose|order: Seq<usize>| #[trigger]
            self_profile::is_order(column, a, a_rates, a_ranks, order) && forward
                == self_profile::arranged(a, order, false);
        let b_order = choose|order: Seq<usize>| #[trigger]
            self_profile::is_order(column, b, b_rates, b_ranks, order) && backward
                == self_profile::arranged(b, order, true);
        lemma_same_order(
            column,
            a,
            b,
            a_rates,
            b_rates,
            a_ranks,
            b_ranks,
            a_order,
            b_order,
        );
        lemma_order_fits(column, a, a_rates, a_ranks, a_order);
        assert forall|i: int| 0 <= i < backward.len() implies same_but_share(
            #[trigger] backward[i],
            forward.reverse()[i],
        ) by {
            let at = a_order[a_order.len() - 1 - i] as int;
            assert(same_but_share(a[at], b[at]));
        }
    }
}

/// An order of rows lists every place of theirs once.
proof fn lemma_order_fits<V>(
    column: int,
    rows: Seq<QueryData<V>>,
    rates: Seq<u64>,
    ranks: Seq<u64>,
    order: Seq<usize>,
)
    requires
        self_profile::is_order(column, rows, rates, ranks, order),
    ensures
        order.len() == rows.len(),
        order.no_duplicates(),
        forall|i: int| 0 <= i < order.len() ==> #[trigger] order[i] < rows.len(),
        forall|p: usize| p < rows.len() ==> #[trigger] order.contains(p),
{
    if column == 1 {
        let keys = choose|keys: Seq<Vec<char>>| #[trigger]
            self_profile::are_labels(rows, keys) && order::is_stable_order(
                keys,
                0,
                rows.len() as int,
                order,
            );
        order::lemma_no_place_twice(keys, 0, rows.len() as int, order);
    } else {
        let keys = self_profile::number_keys(column, rows, rates, ranks);
        order::lemma_no_place_twice(keys, 0, rows.len() as int, order);
    }
}

/// Sorting keeps every row, as often as it was there.
pub proof fn lemma_rows_are_kept<V>(
    sort_idx: int,
    rates: Seq<u64>,
    ranks: Seq<u64>,
    before: Seq<QueryData<V>>,
    after: Seq<QueryData<V>>,
)
    requires
        before.len() <= usize::MAX,
        self_profile::sorted_rows(sort_idx, rates, ranks, before, after),
    ensures
        after.to_multiset() == before.to_multiset(),
{
    if before.len() >= 2 && self_profile::sorts(sort_idx) {
        let column = self_profile::column_of(sort_idx);
        let order = choose|order: Seq<usize>| #[trigger]
            self_profile::is_order(column, before, rates, ranks, order) && after
                == self_profile::arranged(before, order, sort_idx < 0);
        lemma_order_fits(column, before, rates, ranks, order);
        lemma_arranged_rows(before, order, sort_idx < 0);
    }
}

proof fn lemma_arranged_rows<V>(before: Seq<QueryData<V>>, order: Seq<usize>, reversed: bool)
    requires
        before.len() <= usize::MAX,
        order.len() == before.len(),
        order.no_duplicates(),
        forall|i: int| 0 <= i < order.len() ==> #[trigger] order[i] < before.len(),
        forall|p: usize| p < before.len() ==> #[trigger] order.contains(p),
    ensures
        self_profile::arranged(before, order, reversed).to_multiset() == before.to_multiset(),
{
    order::lemma_items_are_kept(before, order);
    let forward = Seq::new(order.len(), |i: int| before[order[i] as int]);
    if reversed {
        forward.lemma_reverse_to_multiset();
        assert(self_profile::arranged(before, order, reversed) =~= forward.reverse());
    } else {
        assert(self_profile::arranged(before, order, reversed) =~= forward);
    }
}

/// Sorting by a column back to front turns the rows round that sorting by it gives.
pub proof fn lemma_negative_turns_round<V>(
    column: int,
    rates: Seq<u64>,
    ranks: Seq<u64>,
    before: Seq<QueryData<V>>,
    forward: Seq<QueryData<V>>,
    backward: Seq<QueryData<V>>,
)
    requires
        column > 0,
        self_profile::sorts(column),
        self_profile::sorted_rows(column, rates, ranks, before, forward),
        self_profile::sorted_rows(-column, rates, ranks, before, backward),
    ensures
        backward == forward.reverse(),
{
    lemma_both_ways(column, before, before, rates, rates, ranks, ranks, forward, backward);
}

/// Whether of two rows the first may stand in front of the second when rows are sorted by column
/// `column`: by label, self time, cache misses, cache hits, invocations, blocked time or
/// incremental load time.
pub open spec fn in_order<V>(column: int, a: QueryData<V>, b: QueryData<V>) -> bool {
    &&& column == 1 ==> order::text_at_most(a.label@, b.label@)
    &&& column == 2 ==> a.self_time <= b.self_time
    &&& column == 3 ==> a.number_of_cache_misses <= b.number_of_cache_misses
    &&& column == 4 ==> a.number_of_cache_hits <= b.number_of_cache_hits
    &&& column == 5 ==> a.invocation_count <= b.invocation_count
    &&& column == 6 ==> a.blocked_time <= b.blocked_time
    &&& column == 7 ==> a.incremental_load_time <= b.incremental_load_time
}

/// Rows that are sorted by a column stand in the order of what they show in it, the smallest first,
/// or the largest if it is asked for back to front. Of two rows that show the same in it, the one
/// stands first that stood first before, or the other one back to front. `places` tells of each
/// sorted row where it stood before.
pub proof fn lemma_rows_are_in_order<V>(
    sort_idx: int,
    rates: Seq<u64>,
    ranks: Seq<u64>,
    before: Seq<QueryData<V>>,
    after: Seq<QueryData<V>>,
) -> (places: Seq<usize>)
    requires
        1 <= sort_idx <= 7 || -7 <= sort_idx <= -1,
        before.len() <= usize::MAX,
        self_profile::sorted_rows(sort_idx, rates, ranks, before, after),
    ensures
        after.len() == before.len(),
        places.len() == before.len(),
        places.no_duplicates(),
        forall|i: int|
            #![trigger after[i]]
            0 <= i < after.len() ==> places[i] < before.len() && after[i] == before[places[i] as int],
        forall|i: int, j: int|
            #![trigger after[i], after[j]]
            0 <= i < j < after.len() ==> if sort_idx > 0 {
                in_order(sort_idx, after[i], after[j]) && (in_order(sort_idx, after[j], after[i])
                    ==> places[i] < places[j])
            } else {
                in_order(-sort_idx, after[j], after[i]) && (in_order(-sort_idx, after[i], after[j])
                    ==> places[i] > places[j])
            },
{
    let column = self_profile::column_of(sort_idx);
    if before.len() < 2 {
        Seq::new(before.len(), |i: int| i as usize)
    } else {
        let order = choose|order: Seq<usize>| #[trigger]
            self_profile::is_order(column, before, rates, ranks, order) && after
                == self_profile::arranged(before, order, sort_idx < 0);
        lemma_order_fits(column, before, rates, ranks, order);
        let places = if sort_idx < 0 {
            order.reverse()
        } else {
            order
        };
        assert forall|p: int, q: int| 0 <= p < q < order.len() implies in_order(
            column,
            before[#[trigger] order[p] as int],
            before[#[trigger] order[q] as int],
        ) && (in_order(column, before[order[q] as int], before[order[p] as int]) ==> order[p]
            < order[q]) by {
            lemma_stands_in_order(column, before, rates, ranks, order, p, q);
        }
        places
    }
}

proof fn lemma_stands_in_order<V>(
    column: int,
    rows: Seq<QueryData<V>>,
    rates: Seq<u64>,
    ranks: Seq<u64>,
    order: Seq<usize>,
    p: int,
    q: int,
)
    requires
        1 <= column <= 7,
        self_profile::is_order(column, rows, rates, ranks, order),
        0 <= p < q < order.len(),
    ensures
        in_order(column, rows[order[p] as int], rows[order[q] as int]),
        in_order(column, rows[order[q] as int], rows[order[p] as int]) ==> order[p] < order[q],
{
    let (a, b) = (order[p] as int, order[q] as int);
    if column == 1 {
        let keys = choose|keys: Seq<Vec<char>>| #[trigger]
            self_profile::are_labels(rows, keys) && order::is_stable_order(
                keys,
                0,
                rows.len() as int,
                order,
            );
        assert(order::stands_before(keys, a, b));
        assert(keys[a]@ == rows[a].label@ && keys[b]@ == rows[b].label@);
    } else {
        let keys = self_profile::number_keys(column, rows, rates, ranks);
        assert(order::stands_before(keys, a, b));
        assert(keys[a] == self_profile::number_key(column, rows[a], rates[a], ranks[a]));
        assert(keys[b] == self_profile::number_key(column, rows[b], rates[b], ranks[b]));
    }
}

/// Rows that are sorted by the rate of their hits, or by the rank of their shares, stand in the
/// order of these, the smallest first, or the largest if they are asked for back to front.
pub proof fn lemma_rows_are_in_order_of_figures<V>(
    sort_idx: int,
    rates: Seq<u64>,
    ranks: Seq<u64>,
    before: Seq<QueryData<V>>,
    after: Seq<QueryData<V>>,
) -> (places: Seq<usize>)
    requires
        sort_idx == 9 || sort_idx == -9 || sort_idx == 10 || sort_idx == -10,
        2 <= before.len() <= usize::MAX,
        self_profile::sorted_rows(sort_idx, rates, ranks, before, after),
    ensures
        after.len() == before.len(),
        places.len() == before.len(),
        places.no_duplicates(),
        forall|i: int|
            #![trigger after[i]]
            0 <= i < after.len() ==> places[i] < before.len() && after[i] == before[places[i] as int],
        forall|i: int, j: int|
            #![trigger places[i], places[j]]
            0 <= i < j < after.len() ==> {
                let numbers = if sort_idx == 9 || sort_idx == -9 {
                    rates
                } else {
                    ranks
                };
                let (a, b) = (places[i] as int, places[j] as int);
                if sort_idx > 0 {
                    numbers[a] < numbers[b] || numbers[a] == numbers[b] && a < b
                } else {
                    numbers[a] > numbers[b] || numbers[a] == numbers[b] && a > b
                }
            },
{
    let column = self_profile::column_of(sort_idx);
    let order = choose|order: Seq<usize>| #[trigger]
        self_profile::is_order(column, before, rates, ranks, order) && after
            == self_profile::arranged(before, order, sort_idx < 0);
    lemma_order_fits(column, before, rates, ranks, order);
    let places = if sort_idx < 0 {
        order.reverse()
    } else {
        order
    };
    let numbers = if column == 9 {
        rates
    } else {
        ranks
    };
    let keys = self_profile::number_keys(column, before, rates, ranks);
    assert forall|p: int, q: int| 0 <= p < q < order.len() implies {
        let (a, b) = (#[trigger] order[p] as int, #[trigger] order[q] as int);
        numbers[a] < numbers[b] || numbers[a] == numbers[b] && a < b
    } by {
        assert(order::stands_before(keys, order[p] as int, order[q] as int));
    }
    places
}

/// The profile is that of the first run whose type and state are asked for: a run that only checks
/// for the type of that name, one that optimises for the type of that name, and one that does
/// neither for any other. Without such a run, or without a profile of it, an error says so.
pub proof fn lemma_first_asked_run_counts<A: Arithmetic>(
    res: Result<SelfProfile<A::Plotted>, String>,
    benchmark: Benchmark<A::Point>,
    bench_ty: Seq<char>,
    run_name: Seq<char>,
    sort_idx: Option<i32>,
) -> (k: int)
    requires
        self_profile::answers_profile::<A>(res, benchmark, bench_ty, run_name, sort_idx),
    ensures
        0 <= k <= benchmark.runs@.len(),
        forall|j: int|
            #![trigger benchmark.runs@[j]]
            0 <= j < k ==> {
                ||| benchmark.runs@[j].check != (bench_ty == "check"@)
                ||| benchmark.runs@[j].release != (bench_ty == "opt"@)
                ||| benchmark.runs@[j].state@ != run_name
            },
        k == benchmark.runs@.len() ==> (res matches Err(e) && e@ == "No such run"@),
        k == benchmark.runs@.len() ==> self_profile::asked_queries(
            benchmark,
            bench_ty,
            run_name,
        ) is None,
        k < benchmark.runs@.len() ==> {
            let run = benchmark.runs@[k];
            &&& run.check == (bench_ty == "check"@)
            &&& run.release == (bench_ty == "opt"@)
            &&& run.state@ == run_name
            &&& run.self_profile is None ==> (res matches Err(e) && e@
                == "No self profile results for this commit"@)
            &&& run.self_profile matches Some(queries) ==> (res matches Ok(profile)
                && self_profile::is_profile_of::<A>(profile, queries@, run.cpu_clock, sort_idx))
            &&& self_profile::asked_queries(benchmark, bench_ty, run_name) == run.self_profile
        },
{
    lemma_run_from(benchmark.runs@, bench_ty, run_name, 0)
}

proof fn lemma_run_from<P>(
    runs: Seq<Run<P>>,
    bench_ty: Seq<char>,
    run_name: Seq<char>,
    from: int,
) -> (k: int)
    requires
        0 <= from <= runs.len(),
    ensures
        from <= k <= runs.len(),
        forall|j: int|
            #![trigger runs[j]]
            from <= j < k ==> {
                ||| runs[j].check != (bench_ty == "check"@)
                ||| runs[j].release != (bench_ty == "opt"@)
                ||| runs[j].state@ != run_name
            },
        k < runs.len() ==> runs[k].check == (bench_ty == "check"@) && runs[k].release == (bench_ty
            == "opt"@) && runs[k].state@ == run_name && self_profile::run_index(
            runs,
            bench_ty,
            run_name,
            from,
        ) == Some(k),
        k == runs.len() ==> self_profile::run_index(runs, bench_ty, run_name, from) is None,
    decreases runs.len() - from,
{
    if from < runs.len() && !self_profile::is_asked_for(runs[from], bench_ty, run_name) {
        lemma_run_from(runs, bench_ty, run_name, from + 1)
    } else {
        from
    }
}

/// Every row that is shown is a recorded query with nothing changed, and its share is that of its
/// time in the time that the totals show; the share of the totals is that of the run's clock, or
/// says that there is none.
pub proof fn lemma_shares_are_of_the_total<A: Arithmetic>(
    profile: SelfProfile<A::Plotted>,
    queries: Vec<RecordedQuery>,
    cpu_clock: Option<A::Point>,
    sort_idx: Option<i32>,
    at: int,
) -> (i: int)
    requires
        self_profile::is_profile_of::<A>(profile, queries@, cpu_clock, sort_idx),
        0 <= at < profile.query_data@.len(),
    ensures
        0 <= i < queries@.len(),
        profile.query_data@[at].label == queries@[i].label,
        profile.query_data@[at].self_time == queries@[i].self_time,
        profile.query_data@[at].number_of_cache_misses == queries@[i].number_of_cache_misses,
        profile.query_data@[at].number_of_cache_hits == queries@[i].number_of_cache_hits,
        profile.query_data@[at].invocation_count == queries@[i].invocation_count,
        profile.query_data@[at].blocked_time == queries@[i].blocked_time,
        profile.query_data@[at].incremental_load_time == queries@[i].incremental_load_time,
        call_ensures(
            A::share,
            (profile.query_data@[at].self_time, profile.totals.self_time),
            profile.query_data@[at].percent_total_time,
        ),
        match cpu_clock {
            Some(clock) => call_ensures(
                A::share_of_clock,
                (profile.totals.self_time, clock),
                profile.totals.percent_total_time,
            ),
            None => call_ensures(A::unknown_share, (), profile.totals.percent_total_time),
        },
{
    broadcast use vstd::seq_lib::group_to_multiset_ensures;

    let figures = figures_of::<A>(profile, queries@, cpu_clock, sort_idx);
    let rows = self_profile::rows_of(queries@, figures.shares@);
    let row = profile.query_data@[at];
    if let Some(sort_idx) = sort_idx {
        assert(queries@.len() == queries.len());
        lemma_rows_are_kept(
            sort_idx as int,
            figures.rates@,
            figures.ranks@,
            rows,
            profile.query_data@,
        );
        assert(profile.query_data@.contains(row));
        assert(rows.to_multiset().count(row) > 0);
    }
    assert(rows.contains(row)) by {
        if sort_idx is None {
            assert(rows[at] == row);
        }
    }
    let i = choose|i: int| 0 <= i < rows.len() && rows[i] == row;
    assert(call_ensures(
        A::share,
        (
            queries@[i].self_time,
            self_profile::total(queries@, Measure::SelfTime) as u128,
        ),
        figures.shares@[i],
    ));
    i
}

/// Sums add up: that of two lists of queries is that of the first and that of the second, that of
/// one query is what the query has in that column, and that of none is nothing.
pub proof fn lemma_sums_add_up(a: Seq<RecordedQuery>, b: Seq<RecordedQuery>, query: RecordedQuery)
    ensures
        forall|measure: Measure| #[trigger]
            self_profile::total(a + b, measure) == self_profile::total(a, measure)
                + self_profile::total(b, measure),
        self_profile::total(seq![query], Measure::SelfTime) == query.self_time,
        self_profile::total(seq![query], Measure::CacheMisses) == query.number_of_cache_misses,
        self_profile::total(seq![query], Measure::CacheHits) == query.number_of_cache_hits,
        self_profile::total(seq![query], Measure::Invocations) == query.invocation_count,
        self_profile::total(seq![query], Measure::BlockedTime) == query.blocked_time,
        self_profile::total(seq![query], Measure::LoadTime) == query.incremental_load_time,
        forall|measure: Measure| #[trigger]
            self_profile::total(Seq::empty(), measure) == 0,
{
    assert forall|measure: Measure| #[trigger]
        self_profile::total(a + b, measure) == self_profile::total(a, measure)
            + self_profile::total(b, measure) by {
        lemma_sum_of_both(a, b, measure);
    }
    reveal_with_fuel(self_profile::total, 2);
    assert(seq![query].drop_last() =~= Seq::empty());
}

proof fn lemma_sum_of_both(a: Seq<RecordedQuery>, b: Seq<RecordedQuery>, measure: Measure)
    ensures
        self_profile::total(a + b, measure) == self_profile::total(a, measure)
            + self_profile::total(b, measure),
    decreases b.len(),
{
    if b.len() == 0 {
        assert(a + b =~= a);
    } else {
        lemma_sum_of_both(a, b.drop_last(), measure);
        assert((a + b).drop_last() =~= a + b.drop_last());
    }
}

/// What floating point made of a run being given, its totals are the same however its rows are
/// sorted.
pub proof fn lemma_shown_totals_ignore_sorting<V>(
    a: SelfProfile<V>,
    b: SelfProfile<V>,
    queries: Seq<RecordedQuery>,
    figures: Figures<V>,
    first: Option<i32>,
    second: Option<i32>,
)
    requires
        self_profile::shows_profile(a, queries, figures, first),
        self_profile::shows_profile(b, queries, figures, second),
    ensures
        same_row(a.totals, b.totals),
{
}

/// What floating point made of a run being given, a profile that is shown by a column back to
/// front shows the rows that it shows by that column, turned round.
pub proof fn lemma_shown_negative_turns_round<V>(
    forward: SelfProfile<V>,
    backward: SelfProfile<V>,
    queries: Seq<RecordedQuery>,
    figures: Figures<V>,
    column: i32,
)
    requires
        column > 0,
        self_profile::sorts(column as int),
        self_profile::shows_profile(forward, queries, figures, Some(column)),
        self_profile::shows_profile(backward, queries, figures, Some((-column) as i32)),
    ensures
        backward.query_data@ == forward.query_data@.reverse(),
{
    lemma_negative_turns_round(
        column as int,
        figures.rates@,
        figures.ranks@,
        self_profile::rows_of(queries, figures.shares@),
        forward.query_data@,
        backward.query_data@,
    );
}

/// What floating point made of a run being given, a profile that is shown by a number that names
/// no column to sort by, negative or not, shows the rows as they were recorded, as it does when no
/// sorting is asked for.
pub proof fn lemma_shown_unknown_columns_keep_the_order<V>(
    profile: SelfProfile<V>,
    recorded: SelfProfile<V>,
    queries: Seq<RecordedQuery>,
    figures: Figures<V>,
    sort_idx: i32,
)
    requires
        !self_profile::sorts(sort_idx as int),
        self_profile::shows_profile(profile, queries, figures, Some(sort_idx)),
        self_profile::shows_profile(recorded, queries, figures, None),
    ensures
        profile.query_data@ == recorded.query_data@,
        profile.query_data@ == self_profile::rows_of(queries, figures.shares@),
{
}

/// Whether there is a profile, and what is said if there is none, does not depend on how it is to
/// be sorted.
pub proof fn lemma_outcome_ignores_sorting<A: Arithmetic>(
    a: Result<SelfProfile<A::Plotted>, String>,
    b: Result<SelfProfile<A::Plotted>, String>,
    benchmark: Benchmark<A::Point>,
    bench_ty: Seq<char>,
    run_name: Seq<char>,
    first: Option<i32>,
    second: Option<i32>,
)
    requires
        self_profile::answers_profile::<A>(a, benchmark, bench_ty, run_name, first),
        self_profile::answers_profile::<A>(b, benchmark, bench_ty, run_name, second),
    ensures
        match (a, b) {
            (Ok(_), Ok(_)) => true,
            (Err(a), Err(b)) => a@ == b@,
            _ => false,
        },
{
}

/// The figures that a profile was shown with.
spec fn figures_of<A: Arithmetic>(
    profile: SelfProfile<A::Plotted>,
    queries: Seq<RecordedQuery>,
    cpu_clock: Option<A::Point>,
    sort_idx: Option<i32>,
) -> Figures<A::Plotted> {
    choose|figures: Figures<A::Plotted>| #[trigger]
        self_profile::are_figures::<A>(figures, queries, cpu_clock, sort_idx)
            && self_profile::shows_profile(profile, queries, figures, sort_idx)
}

/// The place of the run that is asked for.
spec fn asked_run<P>(benchmark: Benchmark<P>, bench_ty: Seq<char>, run_name: Seq<char>) -> int {
    self_profile::run_index(benchmark.runs@, bench_ty, run_name, 0)->0
}

/// Two answers for one run have the same label and the same sums in their totals, however their
/// rows are sorted.
pub proof fn lemma_sums_ignore_sorting<A: Arithmetic>(
    a: SelfProfile<A::Plotted>,
    b: SelfProfile<A::Plotted>,
    benchmark: Benchmark<A::Point>,
    bench_ty: Seq<char>,
    run_name: Seq<char>,
    first: Option<i32>,
    second: Option<i32>,
)
    requires
        self_profile::answers_profile::<A>(Ok(a), benchmark, bench_ty, run_name, first),
        self_profile::answers_profile::<A>(Ok(b), benchmark, bench_ty, run_name, second),
    ensures
        same_but_share(a.totals, b.totals),
{
}

/// Of two answers for one run, the one that is sorted back to front by a label or by a recorded
/// number shows the rows of the other, turned round, but for the shares, which each answer
/// computes anew.
pub proof fn lemma_answers_turn_round<A: Arithmetic>(
    forward: SelfProfile<A::Plotted>,
    backward: SelfProfile<A::Plotted>,
    benchmark: Benchmark<A::Point>,
    bench_ty: Seq<char>,
    run_name: Seq<char>,
    column: i32,
)
    requires
        1 <= column <= 7,
        self_profile::answers_profile::<A>(
            Ok(forward),
            benchmark,
            bench_ty,
            run_name,
            Some(column),
        ),
        self_profile::answers_profile::<A>(
            Ok(backward),
            benchmark,
            bench_ty,
            run_name,
            Some((-column) as i32),
        ),
    ensures
        same_rows_but_shares(backward.query_data@, forward.query_data@.reverse()),
{
    let queries = self_profile::asked_queries(benchmark, bench_ty, run_name)->0@;
    let clock = benchmark.runs@[asked_run(benchmark, bench_ty, run_name)].cpu_clock;
    let a = figures_of::<A>(forward, queries, clock, Some(column));
    let b = figures_of::<A>(backward, queries, clock, Some((-column) as i32));
    lemma_both_ways(
        column as int,
        self_profile::rows_of(queries, a.shares@),
        self_profile::rows_of(queries, b.shares@),
        a.rates@,
        b.rates@,
        a.ranks@,
        b.ranks@,
        forward.query_data@,
        backward.query_data@,
    );
}

/// An answer that is asked for by a number that names no column to sort by, negative or not, or
/// without sorting, shows the rows as they were recorded, but for the shares, which each answer
/// computes anew.
pub proof fn lemma_unsorted_answers_keep_the_order<A: Arithmetic>(
    profile: SelfProfile<A::Plotted>,
    recorded: SelfProfile<A::Plotted>,
    benchmark: Benchmark<A::Point>,
    bench_ty: Seq<char>,
    run_name: Seq<char>,
    sort_idx: Option<i32>,
)
    requires
        sort_idx matches Some(sort_idx) ==> !self_profile::sorts(sort_idx as int),
        self_profile::answers_profile::<A>(Ok(profile), benchmark, bench_ty, run_name, sort_idx),
        self_profile::answers_profile::<A>(Ok(recorded), benchmark, bench_ty, run_name, None),
    ensures
        same_rows_but_shares(profile.query_data@, recorded.query_data@),
        forall|shares: Seq<A::Plotted>| #[trigger]
            same_rows_but_shares(
                profile.query_data@,
                self_profile::rows_of(
                    self_profile::asked_queries(benchmark, bench_ty, run_name)->0@,
                    shares,
                ),
            ),
{
}

/// The rows of an answer that is sorted by a column never fall in what they show in that column
/// from one row to the next, or never rise if it is sorted back to front: column 1 shows labels, 2
/// self time, 3 cache misses, 4 cache hits, 5 invocations, 6 blocked time and 7 incremental load
/// time. Each row shows another recorded query, and of two that show the same in that column the
/// one stands first that was recorded first, or the other one back to front. `places` tells of
/// each row where its query was recorded.
pub proof fn lemma_answers_are_in_order<A: Arithmetic>(
    profile: SelfProfile<A::Plotted>,
    benchmark: Benchmark<A::Point>,
    bench_ty: Seq<char>,
    run_name: Seq<char>,
    sort_idx: i32,
) -> (places: Seq<usize>)
    requires
        1 <= sort_idx <= 7 || -7 <= sort_idx <= -1,
        self_profile::answers_profile::<A>(
            Ok(profile),
            benchmark,
            bench_ty,
            run_name,
            Some(sort_idx),
        ),
    ensures
        self_profile::asked_queries(benchmark, bench_ty, run_name) is Some,
        profile.query_data@.len() == self_profile::asked_queries(
            benchmark,
            bench_ty,
            run_name,
        )->0@.len(),
        forall|i: int|
            0 <= i < places.len() ==> #[trigger] places[i] < profile.query_data@.len(),
        forall|i: int|
            #![trigger profile.query_data@[i]]
            0 <= i < profile.query_data@.len() ==> {
                let queries = self_profile::asked_queries(benchmark, bench_ty, run_name)->0@;
                let row = profile.query_data@[i];
                let query = queries[places[i] as int];
                &&& row.label == query.label
                &&& row.self_time == query.self_time
                &&& row.number_of_cache_misses == query.number_of_cache_misses
                &&& row.number_of_cache_hits == query.number_of_cache_hits
                &&& row.invocation_count == query.invocation_count
                &&& row.blocked_time == query.blocked_time
                &&& row.incremental_load_time == query.incremental_load_time
            },
        places.len() == profile.query_data@.len(),
        places.no_duplicates(),
        forall|i: int, j: int|
            #![trigger profile.query_data@[i], profile.query_data@[j]]
            0 <= i <= j < profile.query_data@.len() ==> {
                let (a, b) = (profile.query_data@[i], profile.query_data@[j]);
                &&& sort_idx == 1 ==> order::text_at_most(a.label@, b.label@)
                &&& sort_idx == 2 ==> a.self_time <= b.self_time
                &&& sort_idx == 3 ==> a.number_of_cache_misses <= b.number_of_cache_misses
                &&& sort_idx == 4 ==> a.number_of_cache_hits <= b.number_of_cache_hits
                &&& sort_idx == 5 ==> a.invocation_count <= b.invocation_count
                &&& sort_idx == 6 ==> a.blocked_time <= b.blocked_time
                &&& sort_idx == 7 ==> a.incremental_load_time <= b.incremental_load_time
                &&& sort_idx == -1 ==> order::text_at_most(b.label@, a.label@)
                &&& sort_idx == -2 ==> a.self_time >= b.self_time
                &&& sort_idx == -3 ==> a.number_of_cache_misses >= b.number_of_cache_misses
                &&& sort_idx == -4 ==> a.number_of_cache_hits >= b.number_of_cache_hits
                &&& sort_idx == -5 ==> a.invocation_count >= b.invocation_count
                &&& sort_idx == -6 ==> a.blocked_time >= b.blocked_time
                &&& sort_idx == -7 ==> a.incremental_load_time >= b.incremental_load_time
            },
        forall|i: int, j: int|
            #![trigger profile.query_data@[i], profile.query_data@[j]]
            0 <= i < j < profile.query_data@.len() ==> {
                let (a, b) = (profile.query_data@[i], profile.query_data@[j]);
                let same = match sort_idx {
                    1 | -1 => a.label@ == b.label@,
                    2 | -2 => a.self_time == b.self_time,
                    3 | -3 => a.number_of_cache_misses == b.number_of_cache_misses,
                    4 | -4 => a.number_of_cache_hits == b.number_of_cache_hits,
                    5 | -5 => a.invocation_count == b.invocation_count,
                    6 | -6 => a.blocked_time == b.blocked_time,
                    _ => a.incremental_load_time == b.incremental_load_time,
                };
                same ==> if sort_idx > 0 {
                    places[i] < places[j]
                } else {
                    places[i] > places[j]
                }
            },
{
    let recorded = self_profile::asked_queries(benchmark, bench_ty, run_name)->0;
    let queries = recorded@;
    let clock = benchmark.runs@[asked_run(benchmark, bench_ty, run_name)].cpu_clock;
    let figures = figures_of::<A>(profile, queries, clock, Some(sort_idx));
    assert(queries.len() == recorded.len());
    let rows = self_profile::rows_of(queries, figures.shares@);
    let places = lemma_rows_are_in_order(
        sort_idx as int,
        figures.rates@,
        figures.ranks@,
        rows,
        profile.query_data@,
    );
    assert forall|i: int, j: int|
        #![trigger profile.query_data@[i], profile.query_data@[j]]
        0 <= i <= j < profile.query_data@.len() implies order::text_at_most(
        profile.query_data@[i].label@,
        profile.query_data@[i].label@,
    ) by {
        let label = profile.query_data@[i].label@;
        order::lemma_text_order(label, label, label.len() as int);
    }
    assert forall|i: int| 0 <= i < places.len() implies #[trigger] places[i]
        < profile.query_data@.len() by {
        assert(profile.query_data@[i] == rows[places[i] as int]);
    }
    assert forall|i: int|
        #![trigger profile.query_data@[i]]
        0 <= i < profile.query_data@.len() implies {
        let row = profile.query_data@[i];
        let query = queries[places[i] as int];
        &&& row.label == query.label
        &&& row.self_time == query.self_time
        &&& row.number_of_cache_misses == query.number_of_cache_misses
        &&& row.number_of_cache_hits == query.number_of_cache_hits
        &&& row.invocation_count == query.invocation_count
        &&& row.blocked_time == query.blocked_time
        &&& row.incremental_load_time == query.incremental_load_time
    } by {
        let at = places[i] as int;
        assert(profile.query_data@[i] == rows[at]);
        assert(rows[at] == self_profile::row_of(queries[at], figures.shares@[at]));
    }
    places
}

/// Of any two rows of an answer that is sorted by the rate of cache hits, the one in front has no
/// higher rate, or no lower one if it is sorted back to front; the rate is that of the hits in the
/// invocations that the row shows.
pub proof fn lemma_answers_are_in_order_of_rates<A: Arithmetic>(
    profile: SelfProfile<A::Plotted>,
    benchmark: Benchmark<A::Point>,
    bench_ty: Seq<char>,
    run_name: Seq<char>,
    sort_idx: i32,
    i: int,
    j: int,
) -> (rates: (u64, u64))
    requires
        sort_idx == 9 || sort_idx == -9,
        self_profile::answers_profile::<A>(
            Ok(profile),
            benchmark,
            bench_ty,
            run_name,
            Some(sort_idx),
        ),
        0 <= i < j < profile.query_data@.len(),
    ensures
        call_ensures(
            A::hit_rate,
            (
                profile.query_data@[i].number_of_cache_hits,
                profile.query_data@[i].invocation_count,
            ),
            rates.0,
        ),
        call_ensures(
            A::hit_rate,
            (
                profile.query_data@[j].number_of_cache_hits,
                profile.query_data@[j].invocation_count,
            ),
            rates.1,
        ),
        sort_idx == 9 ==> rates.0 <= rates.1,
        sort_idx == -9 ==> rates.0 >= rates.1,
{
    let recorded = self_profile::asked_queries(benchmark, bench_ty, run_name)->0;
    let queries = recorded@;
    let clock = benchmark.runs@[asked_run(benchmark, bench_ty, run_name)].cpu_clock;
    let figures = figures_of::<A>(profile, queries, clock, Some(sort_idx));
    assert(queries.len() == recorded.len());
    lemma_rows_are_kept(
        sort_idx as int,
        figures.rates@,
        figures.ranks@,
        self_profile::rows_of(queries, figures.shares@),
        profile.query_data@,
    );
    let places = lemma_rows_are_in_order_of_figures(
        sort_idx as int,
        figures.rates@,
        figures.ranks@,
        self_profile::rows_of(queries, figures.shares@),
        profile.query_data@,
    );
    (figures.rates@[places[i] as int], figures.rates@[places[j] as int])
}

/// Of any two rows of an answer that is sorted by share, the share of the one in front has no
/// higher rank, or no lower one if it is sorted back to front.
pub proof fn lemma_answers_are_in_order_of_ranks<A: Arithmetic>(
    profile: SelfProfile<A::Plotted>,
    benchmark: Benchmark<A::Point>,
    bench_ty: Seq<char>,
    run_name: Seq<char>,
    sort_idx: i32,
    i: int,
    j: int,
) -> (ranks: (u64, u64))
    requires
        sort_idx == 10 || sort_idx == -10,
        self_profile::answers_profile::<A>(
            Ok(profile),
            benchmark,
            bench_ty,
            run_name,
            Some(sort_idx),
        ),
        0 <= i < j < profile.query_data@.len(),
    ensures
        call_ensures(A::rank, (profile.query_data@[i].percent_total_time,), ranks.0),
        call_ensures(A::rank, (profile.query_data@[j].percent_total_time,), ranks.1),
        sort_idx == 10 ==> ranks.0 <= ranks.1,
        sort_idx == -10 ==> ranks.0 >= ranks.1,
{
    let recorded = self_profile::asked_queries(benchmark, bench_ty, run_name)->0;
    let queries = recorded@;
    let clock = benchmark.runs@[asked_run(benchmark, bench_ty, run_name)].cpu_clock;
    let figures = figures_of::<A>(profile, queries, clock, Some(sort_idx));
    assert(queries.len() == recorded.len());
    lemma_rows_are_kept(
        sort_idx as int,
        figures.rates@,
        figures.ranks@,
        self_profile::rows_of(queries, figures.shares@),
        profile.query_data@,
    );
    let places = lemma_rows_are_in_order_of_figures(
        sort_idx as int,
        figures.rates@,
        figures.ranks@,
        self_profile::rows_of(queries, figures.shares@),
        profile.query_data@,
    );
    (figures.ranks@[places[i] as int], figures.ranks@[places[j] as int])
}

/// An answer shows the queries in the order in which they were recorded if no sorting is asked for,
/// or one by 0, by 8, or by anything beyond 10, negative or not.
pub proof fn lemma_other_numbers_do_not_sort<A: Arithmetic>(
    profile: SelfProfile<A::Plotted>,
    benchmark: Benchmark<A::Point>,
    bench_ty: Seq<char>,
    run_name: Seq<char>,
    sort_idx: Option<i32>,
)
    requires
        sort_idx matches Some(n) ==> n == 0 || n == 8 || n == -8 || n > 10 || n < -10,
        self_profile::answers_profile::<A>(Ok(profile), benchmark, bench_ty, run_name, sort_idx),
    ensures
        self_profile::asked_queries(benchmark, bench_ty, run_name) matches Some(queries)
            && queries@.len() == profile.query_data@.len() && forall|i: int|
            #![trigger profile.query_data@[i]]
            0 <= i < profile.query_data@.len() ==> {
                let row = profile.query_data@[i];
                &&& row.label == queries@[i].label
                &&& row.self_time == queries@[i].self_time
                &&& row.number_of_cache_misses == queries@[i].number_of_cache_misses
                &&& row.number_of_cache_hits == queries@[i].number_of_cache_hits
                &&& row.invocation_count == queries@[i].invocation_count
                &&& row.blocked_time == queries@[i].blocked_time
                &&& row.incremental_load_time == queries@[i].incremental_load_time
            },
{
}

/// A profile can be shown if and only if no sum of times passes the longest span of seconds and
/// nanoseconds, no sum of counts passes 64 bits, the number to sort by can change its sign, and
/// rows are not to be sorted by their shares of no time.
pub proof fn lemma_what_can_be_shown<P>(
    benchmark: Benchmark<P>,
    bench_ty: Seq<char>,
    run_name: Seq<char>,
    sort_idx: Option<i32>,
    queries: Vec<RecordedQuery>,
)
    requires
        self_profile::asked_queries(benchmark, bench_ty, run_name) == Some(queries),
    ensures
        self_profile::is_showable(benchmark, bench_ty, run_name, sort_idx) <==> {
            let longest = u64::MAX * 1_000_000_000 + 999_999_999;
            &&& self_profile::total(queries@, Measure::SelfTime) <= longest
            &&& self_profile::total(queries@, Measure::BlockedTime) <= longest
            &&& self_profile::total(queries@, Measure::LoadTime) <= longest
            &&& self_profile::total(queries@, Measure::CacheMisses) <= u64::MAX
            &&& self_profile::total(queries@, Measure::CacheHits) <= u64::MAX
            &&& self_profile::total(queries@, Measure::Invocations) <= u64::MAX
            &&& sort_idx matches Some(n) ==> n != i32::MIN && ((n == 10 || n == -10)
                && queries@.len() >= 2 ==> exists|i: int|
                0 <= i < queries@.len() && (#[trigger] queries@[i]).self_time > 0)
        },
{
    lemma_some_time(queries@);
    let longest = u64::MAX * 1_000_000_000 + 999_999_999;
    if self_profile::sums_fit(queries@) {
        assert(self_profile::total(queries@, Measure::SelfTime) <= longest);
        assert(self_profile::total(queries@, Measure::BlockedTime) <= longest);
        assert(self_profile::total(queries@, Measure::LoadTime) <= longest);
        assert(self_profile::total(queries@, Measure::CacheMisses) <= u64::MAX);
        assert(self_profile::total(queries@, Measure::CacheHits) <= u64::MAX);
        assert(self_profile::total(queries@, Measure::Invocations) <= u64::MAX);
    }
}

proof fn lemma_some_time(queries: Seq<RecordedQuery>)
    ensures
        self_profile::total(queries, Measure::SelfTime) > 0 <==> exists|i: int|
            0 <= i < queries.len() && (#[trigger] queries[i]).self_time > 0,
    decreases queries.len(),
{
    if queries.len() > 0 {
        let rest = queries.drop_last();
        lemma_some_time(rest);
        if exists|i: int| 0 <= i < queries.len() && (#[trigger] queries[i]).self_time > 0 {
            let i = choose|i: int| 0 <= i < queries.len() && (#[trigger] queries[i]).self_time > 0;
            if i < rest.len() {
                assert(rest[i].self_time > 0);
            }
        }
        if self_profile::total(queries, Measure::SelfTime) > 0 {
            if self_profile::total(rest, Measure::SelfTime) > 0 {
                let i = choose|i: int| 0 <= i < rest.len() && (#[trigger] rest[i]).self_time > 0;
                assert(queries[i].self_time > 0);
            } else {
                assert(queries[queries.len() - 1].self_time > 0);
            }
        }
    }
}

/// Whether the rates and ranks that rows are sorted by depend on nothing but the row.
pub open spec fn ranks_are_fixed<A: Arithmetic>() -> bool {
    &&& forall|hits: u64, invocations: u64, a: u64, b: u64|
        #[trigger] call_ensures(A::hit_rate, (hits, invocations), a) && #[trigger] call_ensures(
            A::hit_rate,
            (hits, invocations),
            b,
        ) ==> a == b
    &&& forall|share: A::Plotted, a: u64, b: u64|
        #[trigger] call_ensures(A::rank, (share,), a) && #[trigger] call_ensures(
            A::rank,
            (share,),
            b,
        ) ==> a == b
}

/// Whether everything that a profile shows depends on nothing but what it is computed from.
pub open spec fn results_are_fixed<A: Arithmetic>() -> bool {
    &&& ranks_are_fixed::<A>()
    &&& forall|nanos: u128, total: u128, a: A::Plotted, b: A::Plotted|
        #[trigger] call_ensures(A::share, (nanos, total), a) && #[trigger] call_ensures(
            A::share,
            (nanos, total),
            b,
        ) ==> a == b
    &&& forall|nanos: u128, clock: A::Point, a: A::Plotted, b: A::Plotted|
        #[trigger] call_ensures(A::share_of_clock, (nanos, clock), a) && #[trigger] call_ensures(
            A::share_of_clock,
            (nanos, clock),
            b,
        ) ==> a == b
    &&& forall|a: A::Plotted, b: A::Plotted|
        #[trigger] call_ensures(A::unknown_share, (), a) && #[trigger] call_ensures(
            A::unknown_share,
            (),
            b,
        ) ==> a == b
}

/// Where results are fixed, two runs of floating point over the same queries give the same shares,
/// and the same numbers to sort by.
proof fn lemma_same_figures<A: Arithmetic>(
    a: Figures<A::Plotted>,
    b: Figures<A::Plotted>,
    queries: Seq<RecordedQuery>,
    cpu_clock: Option<A::Point>,
    first: Option<i32>,
    second: Option<i32>,
)
    requires
        results_are_fixed::<A>(),
        self_profile::are_figures::<A>(a, queries, cpu_clock, first),
        self_profile::are_figures::<A>(b, queries, cpu_clock, second),
    ensures
        a.total_share == b.total_share,
        self_profile::rows_of(queries, a.shares@) == self_profile::rows_of(queries, b.shares@),
        self_profile::is_sorted_by(first, 9, queries.len()) && self_profile::is_sorted_by(
            second,
            9,
            queries.len(),
        ) ==> a.rates@ == b.rates@,
        self_profile::is_sorted_by(first, 10, queries.len()) && self_profile::is_sorted_by(
            second,
            10,
            queries.len(),
        ) ==> a.ranks@ == b.ranks@,
{
}

/// Where results are fixed, the totals of a run are the same however its rows are sorted.
pub proof fn lemma_totals_ignore_sorting<A: Arithmetic>(
    a: SelfProfile<A::Plotted>,
    b: SelfProfile<A::Plotted>,
    benchmark: Benchmark<A::Point>,
    bench_ty: Seq<char>,
    run_name: Seq<char>,
    first: Option<i32>,
    second: Option<i32>,
)
    requires
        results_are_fixed::<A>(),
        self_profile::answers_profile::<A>(Ok(a), benchmark, bench_ty, run_name, first),
        self_profile::answers_profile::<A>(Ok(b), benchmark, bench_ty, run_name, second),
    ensures
        same_row(a.totals, b.totals),
{
    let queries = self_profile::asked_queries(benchmark, bench_ty, run_name)->0@;
    let clock = benchmark.runs@[asked_run(benchmark, bench_ty, run_name)].cpu_clock;
    lemma_same_figures::<A>(
        figures_of::<A>(a, queries, clock, first),
        figures_of::<A>(b, queries, clock, second),
        queries,
        clock,
        first,
        second,
    );
}

/// Where results are fixed, a profile that is asked for by a column back to front shows the rows
/// that it shows when it is asked for by that column, turned round.
pub proof fn lemma_negative_profile_turns_round<A: Arithmetic>(
    forward: SelfProfile<A::Plotted>,
    backward: SelfProfile<A::Plotted>,
    benchmark: Benchmark<A::Point>,
    bench_ty: Seq<char>,
    run_name: Seq<char>,
    column: i32,
)
    requires
        results_are_fixed::<A>(),
        column > 0,
        self_profile::sorts(column as int),
        self_profile::answers_profile::<A>(
            Ok(forward),
            benchmark,
            bench_ty,
            run_name,
            Some(column),
        ),
        self_profile::answers_profile::<A>(
            Ok(backward),
            benchmark,
            bench_ty,
            run_name,
            Some((-column) as i32),
        ),
    ensures
        backward.query_data@ == forward.query_data@.reverse(),
{
    let queries = self_profile::asked_queries(benchmark, bench_ty, run_name)->0@;
    let clock = benchmark.runs@[asked_run(benchmark, bench_ty, run_name)].cpu_clock;
    let back: Option<i32> = Some((-column) as i32);
    let a = figures_of::<A>(forward, queries, clock, Some(column));
    let b = figures_of::<A>(backward, queries, clock, back);
    lemma_same_figures::<A>(a, b, queries, clock, Some(column), back);
    let rows = self_profile::rows_of(queries, a.shares@);
    if queries.len() >= 2 {
        lemma_both_ways(
            column as int,
            rows,
            rows,
            a.rates@,
            b.rates@,
            a.ranks@,
            b.ranks@,
            forward.query_data@,
            backward.query_data@,
        );
    }
}

/// Where results are fixed, a profile that is asked for by a number that names no column to sort
/// by, negative or not, shows the rows that it shows when no sorting is asked for.
pub proof fn lemma_unknown_columns_keep_the_order<A: Arithmetic>(
    profile: SelfProfile<A::Plotted>,
    recorded: SelfProfile<A::Plotted>,
    benchmark: Benchmark<A::Point>,
    bench_ty: Seq<char>,
    run_name: Seq<char>,
    sort_idx: i32,
)
    requires
        results_are_fixed::<A>(),
        !self_profile::sorts(sort_idx as int),
        self_profile::answers_profile::<A>(
            Ok(profile),
            benchmark,
            bench_ty,
            run_name,
            Some(sort_idx),
        ),
        self_profile::answers_profile::<A>(Ok(recorded), benchmark, bench_ty, run_name, None),
    ensures
        profile.query_data@ == recorded.query_data@,
{
    let queries = self_profile::asked_queries(benchmark, bench_ty, run_name)->0@;
    let clock = benchmark.runs@[asked_run(benchmark, bench_ty, run_name)].cpu_clock;
    lemma_same_figures::<A>(
        figures_of::<A>(profile, queries, clock, Some(sort_idx)),
        figures_of::<A>(recorded, queries, clock, None),
        queries,
        clock,
        Some(sort_idx),
        None,
    );
}

/// The value of one row in one column.
pub open spec fn shown<V>(row: QueryData<V>, measure: Measure) -> nat {
    match measure {
        Measure::SelfTime => row.self_time as nat,
        Measure::CacheMisses => row.number_of_cache_misses as nat,
        Measure::CacheHits => row.number_of_cache_hits as nat,
        Measure::Invocations => row.invocation_count as nat,
        Measure::BlockedTime => row.blocked_time as nat,
        Measure::LoadTime => row.incremental_load_time as nat,
    }
}

/// The sum of a column over the rows.
pub open spec fn shown_total<V>(rows: Seq<QueryData<V>>, measure: Measure) -> nat
    decreases rows.len(),
{
    if rows.len() == 0 {
        0
    } else {
        shown_total(rows.drop_last(), measure) + shown(rows.last(), measure)
    }
}

/// However they are sorted, the totals are the sums of the rows that are shown, of which there is
/// one for each query.
pub proof fn lemma_totals_are_sums_of_rows<A: Arithmetic>(
    profile: SelfProfile<A::Plotted>,
    benchmark: Benchmark<A::Point>,
    bench_ty: Seq<char>,
    run_name: Seq<char>,
    sort_idx: Option<i32>,
    measure: Measure,
)
    requires
        self_profile::answers_profile::<A>(Ok(profile), benchmark, bench_ty, run_name, sort_idx),
    ensures
        profile.totals.label@ == "Totals"@,
        shown(profile.totals, measure) == shown_total(profile.query_data@, measure),
        profile.query_data@.len() == self_profile::asked_queries(
            benchmark,
            bench_ty,
            run_name,
        )->0@.len(),
{
    let queries = self_profile::asked_queries(benchmark, bench_ty, run_name)->0;
    let clock = benchmark.runs@[asked_run(benchmark, bench_ty, run_name)].cpu_clock;
    let figures = figures_of::<A>(profile, queries@, clock, sort_idx);
    let rows = self_profile::rows_of(queries@, figures.shares@);
    lemma_rows_sum_queries(queries@, figures.shares@, queries@.len() as int, measure);
    assert(rows.take(rows.len() as int) =~= rows);
    assert(queries@.take(queries@.len() as int) =~= queries@);
    if let Some(sort_idx) = sort_idx {
        assert(queries@.len() == queries.len());
        lemma_rows_are_kept(
            sort_idx as int,
            figures.rates@,
            figures.ranks@,
            rows,
            profile.query_data@,
        );
        lemma_sums_ignore_order(rows, profile.query_data@, measure);
    }
}

proof fn lemma_rows_sum_queries<V>(
    queries: Seq<RecordedQuery>,
    shares: Seq<V>,
    n: int,
    measure: Measure,
)
    requires
        0 <= n <= queries.len(),
    ensures
        shown_total(self_profile::rows_of(queries, shares).take(n), measure)
            == self_profile::total(queries.take(n), measure),
    decreases n,
{
    if n > 0 {
        let rows = self_profile::rows_of(queries, shares);
        lemma_rows_sum_queries(queries, shares, n - 1, measure);
        assert(rows.take(n).drop_last() =~= rows.take(n - 1));
        assert(queries.take(n).drop_last() =~= queries.take(n - 1));
    }
}

/// Rows have the same sums in whatever order they stand, and there are as many of them.
proof fn lemma_sums_ignore_order<V>(a: Seq<QueryData<V>>, b: Seq<QueryData<V>>, measure: Measure)
    requires
        a.to_multiset() == b.to_multiset(),
    ensures
        shown_total(a, measure) == shown_total(b, measure),
        a.len() == b.len(),
    decreases a.len(),
{
    broadcast use vstd::seq_lib::group_to_multiset_ensures;

    vstd::seq_lib::to_multiset_len(a);
    vstd::seq_lib::to_multiset_len(b);
    if a.len() > 0 {
        let row = a.last();
        assert(b.to_multiset().count(row) > 0);
        let at = choose|at: int| 0 <= at < b.len() && b[at] == row;
        assert(a.drop_last() =~= a.remove(a.len() - 1));
        lemma_sums_ignore_order(a.drop_last(), b.remove(at), measure);
        lemma_sum_without(b, at, measure);
    }
}

proof fn lemma_sum_without<V>(rows: Seq<QueryData<V>>, at: int, measure: Measure)
    requires
        0 <= at < rows.len(),
    ensures
        shown_total(rows, measure) == shown_total(rows.remove(at), measure) + shown(
            rows[at],
            measure,
        ),
    decreases rows.len(),
{
    if at < rows.len() - 1 {
        lemma_sum_without(rows.drop_last(), at, measure);
        assert(rows.remove(at).drop_last() =~= rows.drop_last().remove(at));
    }
}

} // verus!
