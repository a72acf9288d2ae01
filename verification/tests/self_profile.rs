use site::arithmetic::Arithmetic;
use site::server::self_profile::{
    can_be_shown, checked_sums, get_self_profile_data, has_profile, show_profile, sort_rows,
    Benchmark, Figures, QueryData, RecordedQuery, Run, LONGEST_SPAN,
};
use site::server::self_profile_request::{
    handle_self_profile, needs_base, self_profile_query, Request,
};

struct Floats;

impl Arithmetic for Floats {
    type Point = f64;
    type Plotted = f32;

    fn zero() -> f64 {
        0.0
    }

    fn lowest() -> f32 {
        f32::MIN
    }

    fn unknown_share() -> f32 {
        -100.0
    }

    fn round_to_tenth(point: f64) -> f64 {
        (point * 10.0).round() / 10.0
    }

    fn ratio(point: f64, baseline: f64) -> f64 {
        point / baseline
    }

    fn percent_change(point: f64, first: f64) -> f64 {
        (point - first) / first * 100.0
    }

    fn to_seconds(millis: f64) -> f64 {
        millis / 1000.0
    }

    fn narrow(point: f64) -> f32 {
        point as f32
    }

    fn larger(a: f32, b: f32) -> f32 {
        a.max(b)
    }

    fn share_of_clock(nanos: u128, clock: f64) -> f32 {
        (((nanos as f64 / 1000000.0) / clock) * 100.0) as f32
    }

    fn share(nanos: u128, total: u128) -> f32 {
        ((nanos as f64 / total as f64) * 100.0) as f32
    }

    fn hit_rate(hits: u64, invocations: u64) -> u64 {
        ((hits as f64 / invocations as f64) * 10_000.0) as u64
    }

    fn rank(share: f32) -> u64 {
        assert!(!share.is_nan(), "shares that are not numbers have no order");
        let bits = if share == 0.0 { 0 } else { share.to_bits() };
        u64::from(if bits >> 31 == 1 {
            !bits
        } else {
            bits | 0x8000_0000
        })
    }
}

fn query(label: &str, self_time: u128, misses: u64, hits: u64, calls: u64) -> RecordedQuery {
    RecordedQuery {
        label: label.to_string(),
        self_time,
        number_of_cache_misses: misses,
        number_of_cache_hits: hits,
        invocation_count: calls,
        blocked_time: 100 - self_time,
        incremental_load_time: 2 * self_time,
    }
}

fn run(check: bool, release: bool, state: &str, clock: Option<f64>) -> Run<f64> {
    Run {
        check,
        release,
        state: state.to_string(),
        cpu_clock: clock,
        self_profile: Some(vec![
            query("b", 20, 1, 9, 10),
            query("a", 50, 3, 1, 4),
            query("c", 30, 1, 3, 4),
        ]),
    }
}

fn benchmark() -> Benchmark<f64> {
    let mut empty = run(false, true, "full", None);
    empty.self_profile = None;
    Benchmark {
        runs: vec![
            run(true, false, "full", Some(0.0002)),
            run(false, false, "full", None),
            empty,
        ],
    }
}

fn labels(rows: &[QueryData<f32>]) -> Vec<String> {
    rows.iter().map(|row| row.label.clone()).collect()
}

fn sorted(sort_idx: Option<i32>) -> Vec<String> {
    let profile = get_self_profile_data::<Floats>(&benchmark(), "check", "full", sort_idx);
    labels(&profile.ok().unwrap().query_data)
}

fn request(benchmark: &str, sort_idx: &str, base: bool) -> Request {
    Request {
        commit: "c".to_string(),
        base_commit: if base { Some("d".to_string()) } else { None },
        benchmark: benchmark.to_string(),
        run_name: "full".to_string(),
        sort_idx: sort_idx.to_string(),
    }
}

#[test]
fn totals_are_sums() {
    let profile = get_self_profile_data::<Floats>(&benchmark(), "check", "full", None);
    let profile = profile.ok().unwrap();
    let totals = profile.totals;
    assert_eq!(totals.label, "Totals");
    assert_eq!(totals.self_time, 100);
    assert_eq!(totals.number_of_cache_misses, 5);
    assert_eq!(totals.number_of_cache_hits, 13);
    assert_eq!(totals.invocation_count, 18);
    assert_eq!(totals.blocked_time, 200);
    assert_eq!(totals.incremental_load_time, 200);
    assert_eq!(totals.percent_total_time, 50.0);
}

#[test]
fn rows_show_their_share() {
    let profile = get_self_profile_data::<Floats>(&benchmark(), "check", "full", None);
    let rows = profile.ok().unwrap().query_data;
    assert_eq!(labels(&rows), ["b", "a", "c"]);
    assert_eq!(rows[0].percent_total_time, 20.0);
    assert_eq!(rows[1].percent_total_time, 50.0);
    assert_eq!(rows[2].percent_total_time, 30.0);
    assert_eq!(rows[1].self_time, 50);
    assert_eq!(rows[1].blocked_time, 50);
    assert_eq!(rows[1].incremental_load_time, 100);
}

#[test]
fn share_of_an_unknown_clock_is_marked() {
    let profile = get_self_profile_data::<Floats>(&benchmark(), "debug", "full", None);
    assert_eq!(profile.ok().unwrap().totals.percent_total_time, -100.0);
}

#[test]
fn rows_are_sorted_by_column() {
    assert_eq!(sorted(Some(1)), ["a", "b", "c"]);
    assert_eq!(sorted(Some(2)), ["b", "c", "a"]);
    assert_eq!(sorted(Some(3)), ["b", "c", "a"]);
    assert_eq!(sorted(Some(4)), ["a", "c", "b"]);
    assert_eq!(sorted(Some(5)), ["a", "c", "b"]);
    assert_eq!(sorted(Some(6)), ["a", "c", "b"]);
    assert_eq!(sorted(Some(7)), ["b", "c", "a"]);
    assert_eq!(sorted(Some(9)), ["a", "c", "b"]);
    assert_eq!(sorted(Some(10)), ["b", "c", "a"]);
}

#[test]
fn negative_column_turns_the_rows_round() {
    for column in [1, 2, 3, 4, 5, 6, 7, 9, 10] {
        let mut rows = sorted(Some(column));
        rows.reverse();
        assert_eq!(sorted(Some(-column)), rows);
    }
}

#[test]
fn unknown_column_leaves_the_rows() {
    for column in [0, 8, -8, 11, -11, i32::MAX, -i32::MAX] {
        assert_eq!(sorted(Some(column)), ["b", "a", "c"]);
    }
}

#[test]
fn single_row_stays() {
    let row = QueryData {
        label: "x".to_string(),
        self_time: 1,
        percent_total_time: 100.0,
        number_of_cache_misses: 0,
        number_of_cache_hits: 0,
        invocation_count: 0,
        blocked_time: 0,
        incremental_load_time: 0,
    };
    assert_eq!(labels(&sort_rows(vec![row], &vec![], &vec![], -2)), ["x"]);
}

#[test]
fn run_must_be_there() {
    let get = |ty, name| get_self_profile_data::<Floats>(&benchmark(), ty, name, None).err();
    assert_eq!(get("check", "empty"), Some("No such run".to_string()));
    assert_eq!(
        get("opt", "full"),
        Some("No self profile results for this commit".to_string())
    );
    assert_eq!(get("anything", "full"), None);
}

#[test]
fn sums_that_cannot_be_told_are_found() {
    let mut queries = vec![query("a", 1, u64::MAX, 0, 0), query("b", 1, 0, 0, 0)];
    assert_eq!(checked_sums(&queries).unwrap().cache_misses, u64::MAX);
    queries[1].number_of_cache_misses = 1;
    assert!(checked_sums(&queries).is_none());
    queries[1].number_of_cache_misses = 0;
    queries[1].blocked_time = LONGEST_SPAN;
    assert!(checked_sums(&queries).is_none());
    let mut benchmark = benchmark();
    benchmark.runs[0].self_profile = Some(queries);
    assert!(!can_be_shown(&benchmark, "check", "full", None));
    assert!(can_be_shown(&benchmark, "debug", "full", None));
    assert!(can_be_shown(&benchmark, "debug", "nowhere", None));
}

#[test]
fn shares_of_no_time_cannot_be_sorted() {
    let mut benchmark = benchmark();
    let idle = |label| query(label, 0, 0, 0, 0);
    benchmark.runs[0].self_profile = Some(vec![idle("b"), idle("a")]);
    let showable = |sort_idx| can_be_shown(&benchmark, "check", "full", sort_idx);
    assert!(!showable(Some(10)));
    assert!(!showable(Some(-10)));
    assert!(showable(Some(9)) && showable(Some(-i32::MAX)) && showable(None));
    let profile = get_self_profile_data::<Floats>(&benchmark, "check", "full", Some(1));
    assert_eq!(labels(&profile.ok().unwrap().query_data), ["a", "b"]);
    benchmark.runs[0].self_profile = Some(vec![idle("a")]);
    assert!(can_be_shown(&benchmark, "check", "full", Some(10)));
    let profile = get_self_profile_data::<Floats>(&benchmark, "check", "full", Some(10));
    assert_eq!(labels(&profile.ok().unwrap().query_data), ["a"]);
}

#[test]
fn number_without_absolute_value_cannot_be_sorted_by() {
    assert!(!can_be_shown(&benchmark(), "check", "full", Some(i32::MIN)));
    assert!(can_be_shown(&benchmark(), "opt", "full", Some(i32::MIN)));
    assert!(can_be_shown(&benchmark(), "check", "empty", Some(i32::MIN)));
}

#[test]
fn given_figures_are_shown() {
    let queries = vec![
        query("b", 20, 1, 9, 10),
        query("a", 50, 3, 1, 4),
        query("c", 30, 1, 3, 4),
    ];
    let figures = Figures {
        total_share: 'T',
        shares: vec!['x', 'y', 'z'],
        rates: vec![7, 5, 7],
        ranks: vec![1, 3, 2],
    };
    let shown = |sort_idx| {
        let profile = show_profile(&queries, &figures, sort_idx);
        assert_eq!(profile.totals.percent_total_time, 'T');
        assert_eq!(profile.totals.self_time, 100);
        let shares: Vec<char> = profile.query_data.iter().map(|r| r.percent_total_time).collect();
        shares
    };
    assert_eq!(shown(None), ['x', 'y', 'z']);
    assert_eq!(shown(Some(-8)), ['x', 'y', 'z']);
    assert_eq!(shown(Some(1)), ['y', 'x', 'z']);
    assert_eq!(shown(Some(9)), ['y', 'x', 'z']);
    assert_eq!(shown(Some(-9)), ['z', 'x', 'y']);
    assert_eq!(shown(Some(10)), ['x', 'z', 'y']);
    assert_eq!(shown(Some(-10)), ['y', 'z', 'x']);
}

#[test]
fn totals_do_not_depend_on_the_sorting() {
    for sort_idx in [None, Some(0), Some(2), Some(-10), Some(8), Some(-11)] {
        let profile = get_self_profile_data::<Floats>(&benchmark(), "check", "full", sort_idx);
        let profile = profile.ok().unwrap();
        assert_eq!(profile.totals.label, "Totals");
        assert_eq!(profile.totals.percent_total_time, 50.0);
        let times: u128 = profile.query_data.iter().map(|row| row.self_time).sum();
        assert_eq!(profile.totals.self_time, times);
        let calls: u64 = profile.query_data.iter().map(|row| row.invocation_count).sum();
        assert_eq!(profile.totals.invocation_count, calls);
    }
}

#[test]
fn base_is_looked_up_only_beside_a_profile() {
    assert!(has_profile(&benchmark(), "check", "full"));
    assert!(!has_profile(&benchmark(), "opt", "full"));
    assert!(!has_profile(&benchmark(), "check", "empty"));
    let found = Ok(benchmark());
    assert!(needs_base(&request("x-check", "1", true), &found));
    assert!(!needs_base(&request("x-check", "1", false), &found));
    assert!(!needs_base(&request("x-opt", "1", true), &found));
    assert!(!needs_base(&request("x", "1", true), &found));
    let gone: Result<Benchmark<f64>, String> = Err("no data".to_string());
    assert!(!needs_base(&request("x-check", "1", true), &gone));
    assert_eq!(
        handle_self_profile::<Floats>(&request("x-check", "1", true), gone, None).err(),
        Some("no data".to_string())
    );
}

#[test]
fn request_is_split_at_the_last_dash() {
    let query = self_profile_query(&request("regex-1.0-check", "-2", false));
    let query = query.ok().unwrap();
    assert_eq!(query.bench_name, "regex-1.0");
    assert_eq!(query.bench_ty, "check");
    assert_eq!(query.sort_idx, -2);
}

#[test]
fn broken_requests_are_refused() {
    let refusal = |benchmark, sort_idx| self_profile_query(&request(benchmark, sort_idx, false)).err();
    assert_eq!(refusal("regex", "1"), Some("no benchmark name".to_string()));
    assert_eq!(refusal("", "x"), Some("no benchmark name".to_string()));
    for sort_idx in ["", "x", "1.0", "2147483648", " 1", "+", "-"] {
        assert_eq!(
            refusal("regex-check", sort_idx),
            Some("sort_idx needs to be i32".to_string())
        );
    }
    assert_eq!(refusal("regex-check", "+7"), None);
    assert_eq!(refusal("regex-check", "-2147483648"), None);
}

#[test]
fn base_profile_stands_unsorted_beside() {
    let response = handle_self_profile::<Floats>(
        &request("x-check", "1", true),
        Ok(benchmark()),
        Some(Ok(benchmark())),
    );
    let response = response.ok().unwrap();
    assert_eq!(labels(&response.profile.query_data), ["a", "b", "c"]);
    assert_eq!(
        labels(&response.base_profile.unwrap().query_data),
        ["b", "a", "c"]
    );
}

#[test]
fn profile_without_base_has_none() {
    let response = handle_self_profile::<Floats>(&request("x-check", "1", false), Ok(benchmark()), None);
    assert!(response.ok().unwrap().base_profile.is_none());
}

#[test]
fn missing_benchmarks_are_told() {
    let gone = || Err("no data".to_string());
    let handle = |base, benchmark, base_benchmark| {
        handle_self_profile::<Floats>(&request("x-check", "1", base), benchmark, base_benchmark).err()
    };
    assert_eq!(handle(false, gone(), None), Some("no data".to_string()));
    assert_eq!(
        handle(true, Ok(benchmark()), Some(gone())),
        Some("no data".to_string())
    );
    assert_eq!(
        handle_self_profile::<Floats>(&request("x", "1", false), Ok(benchmark()), None).err(),
        Some("no benchmark name".to_string())
    );
}
