use site::arithmetic::Arithmetic;
use site::collector::{Commit, Date};
use site::db::{Cache, CrateSelector, Database, Profile, Series};
use site::server::days::{
    all_specific, handle_days, DateData, DayPoint, Measurements, StatId, StyledBenchmarkName,
};

struct Floats;

impl Arithmetic for Floats {
    type Point = f64;
    type Plotted = f32;

    fn zero() -> f64 {
        0.0
    }

    fn lowest() -> f32 {
        f32::MIN
    }

    fn unknown_share() -> f32 {
        -100.0
    }

    fn round_to_tenth(point: f64) -> f64 {
        (point * 10.0).round() / 10.0
    }

    fn ratio(point: f64, baseline: f64) -> f64 {
        point / baseline
    }

    fn percent_change(point: f64, first: f64) -> f64 {
        (point - first) / first * 100.0
    }

    fn to_seconds(millis: f64) -> f64 {
        millis / 1000.0
    }

    fn narrow(point: f64) -> f32 {
        point as f32
    }

    fn larger(a: f32, b: f32) -> f32 {
        a.max(b)
    }

    fn share_of_clock(nanos: u128, clock: f64) -> f32 {
        (((nanos as f64 / 1000000.0) / clock) * 100.0) as f32
    }

    fn share(nanos: u128, total: u128) -> f32 {
        ((nanos as f64 / total as f64) * 100.0) as f32
    }

    fn hit_rate(hits: u64, invocations: u64) -> u64 {
        ((hits as f64 / invocations as f64) * 10_000.0) as u64
    }

    fn rank(share: f32) -> u64 {
        assert!(!share.is_nan(), "shares that are not numbers have no order");
        let bits = if share == 0.0 { 0 } else { share.to_bits() };
        u64::from(if bits >> 31 == 1 {
            !bits
        } else {
            bits | 0x8000_0000
        })
    }
}

struct Store;

impl Database for Store {
    type Run = ();

    fn profile_matches(_: Profile, _: &()) -> bool {
        true
    }

    fn cache_matches(_: &Cache, _: &()) -> bool {
        true
    }

    fn cache_name(cache: &Cache) -> String {
        match cache {
            Cache::Empty => "full".to_string(),
            _ => "incr".to_string(),
        }
    }
}

fn point(name: &str, profile: Profile, cache: Cache, point: Option<f64>) -> DayPoint<f64> {
    DayPoint {
        series: Series {
            krate: CrateSelector::Specific(name.to_string()),
            profile,
            cache,
        },
        points: vec![point],
    }
}

fn points() -> Vec<DayPoint<f64>> {
    vec![
        point("x", Profile::Check, Cache::Empty, Some(1500.0)),
        point("y", Profile::Check, Cache::Empty, None),
        point("x", Profile::Opt, Cache::Empty, Some(20.0)),
        point("x", Profile::Check, Cache::IncrementalFresh, Some(30.0)),
    ]
}

fn commit(sha: &str) -> Commit {
    Commit {
        sha: sha.to_string(),
        date: Date { timestamp: 3, nanos: 0 },
    }
}

fn key(name: &str, profile: Profile) -> StyledBenchmarkName {
    StyledBenchmarkName {
        name: name.to_string(),
        profile,
    }
}

fn handle(
    a: Option<Commit>,
    b: Option<Commit>,
    measured: Result<Measurements<f64>, String>,
) -> Result<(DateData<f64>, DateData<f64>), String> {
    handle_days::<Floats, Store>("Commit(\"s\")", "None", a, b, measured).map(|r| (r.a, r.b))
}

#[test]
fn points_stand_under_their_benchmark() {
    let day = DateData::for_day::<Floats, Store>(&commit("c"), StatId::WallTime, &points());
    assert_eq!(day.date, Date { timestamp: 3, nanos: 0 });
    assert_eq!(day.commit, "c");
    assert_eq!(
        day.data.get(&key("x", Profile::Check)),
        Some(&vec![("full".to_string(), 1500.0), ("incr".to_string(), 30.0)])
    );
    assert_eq!(
        day.data.get(&key("x", Profile::Opt)),
        Some(&vec![("full".to_string(), 20.0)])
    );
    assert_eq!(day.data.get(&key("y", Profile::Check)), None);
    assert_eq!(day.data.get(&key("x", Profile::Debug)), None);
}

#[test]
fn clocks_are_shown_in_seconds() {
    for stat in [StatId::CpuClock, StatId::CpuClockUser] {
        let day = DateData::for_day::<Floats, Store>(&commit("c"), stat, &points());
        assert_eq!(
            day.data.get(&key("x", Profile::Check)).unwrap()[0],
            ("full".to_string(), 1.5)
        );
    }
    let day = DateData::for_day::<Floats, Store>(&commit("c"), StatId::Other, &points());
    assert_eq!(day.data.get(&key("x", Profile::Check)).unwrap()[0].1, 1500.0);
}

#[test]
fn two_days_stand_side_by_side() {
    let measured = Measurements {
        stat: StatId::CpuClock,
        a: points(),
        b: vec![point("z", Profile::Debug, Cache::Empty, Some(1000.0))],
    };
    let (a, b) = handle(Some(commit("a")), Some(commit("b")), Ok(measured)).unwrap();
    assert_eq!(a.commit, "a");
    assert_eq!(b.commit, "b");
    assert_eq!(b.data.get(&key("z", Profile::Debug)).unwrap()[0].1, 1.0);
    assert_eq!(b.data.get(&key("x", Profile::Check)), None);
}

#[test]
fn missing_commits_and_statistics_are_told_in_order() {
    let unknown = || Err("unknown statistic".to_string());
    assert_eq!(
        handle(None, None, unknown()).err(),
        Some("could not find start commit for bound Commit(\"s\")".to_string())
    );
    assert_eq!(
        handle(Some(commit("a")), None, unknown()).err(),
        Some("could not find end commit for bound None".to_string())
    );
    assert_eq!(
        handle(Some(commit("a")), Some(commit("b")), unknown()).err(),
        Some("unknown statistic".to_string())
    );
}

#[test]
fn first_point_of_a_series_counts() {
    let mut rows = points();
    rows[0].points = vec![Some(1.0), Some(2.0)];
    rows[2].points = Vec::new();
    rows[3].points = vec![None, Some(3.0)];
    let day = DateData::for_day::<Floats, Store>(&commit("c"), StatId::WallTime, &rows);
    assert_eq!(
        day.data.get(&key("x", Profile::Check)),
        Some(&vec![("full".to_string(), 1.0)])
    );
    assert_eq!(day.data.get(&key("x", Profile::Opt)), None);
}

#[test]
fn summaries_are_not_days() {
    let mut rows = points();
    assert!(all_specific(&rows));
    rows[1].series.krate = CrateSelector::All;
    assert!(all_specific(&rows));
    rows[0].series.krate = CrateSelector::All;
    assert!(!all_specific(&rows));
}
