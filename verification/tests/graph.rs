use site::arithmetic::Arithmetic;
use site::collector::{Commit, Date};
use site::db::{Cache, CrateSelector, Database, Interpolation, Interpolations, Profile, Series};
use site::server::commit_idx::CommitIdxCache;
use site::server::graph::{can_draw, drawn_series, handle_graph, Response, SeriesPoints};
use site::server::graph_data::Measured;

struct Floats;

impl Arithmetic for Floats {
    type Point = f64;
    type Plotted = f32;

    fn zero() -> f64 {
        0.0
    }

    fn lowest() -> f32 {
        f32::MIN
    }

    fn unknown_share() -> f32 {
        -100.0
    }

    fn round_to_tenth(point: f64) -> f64 {
        (point * 10.0).round() / 10.0
    }

    fn ratio(point: f64, baseline: f64) -> f64 {
        point / baseline
    }

    fn percent_change(point: f64, first: f64) -> f64 {
        (point - first) / first * 100.0
    }

    fn to_seconds(millis: f64) -> f64 {
        millis / 1000.0
    }

    fn narrow(point: f64) -> f32 {
        point as f32
    }

    fn larger(a: f32, b: f32) -> f32 {
        a.max(b)
    }

    fn share_of_clock(nanos: u128, clock: f64) -> f32 {
        (((nanos as f64 / 1000000.0) / clock) * 100.0) as f32
    }

    fn share(nanos: u128, total: u128) -> f32 {
        ((nanos as f64 / total as f64) * 100.0) as f32
    }

    fn hit_rate(hits: u64, invocations: u64) -> u64 {
        ((hits as f64 / invocations as f64) * 10_000.0) as u64
    }

    fn rank(share: f32) -> u64 {
        assert!(!share.is_nan(), "shares that are not numbers have no order");
        let bits = if share == 0.0 { 0 } else { share.to_bits() };
        u64::from(if bits >> 31 == 1 {
            !bits
        } else {
            bits | 0x8000_0000
        })
    }
}

struct Store;

impl Database for Store {
    type Run = (Profile, Cache);

    fn profile_matches(profile: Profile, run: &(Profile, Cache)) -> bool {
        profile == run.0
    }

    fn cache_matches(cache: &Cache, run: &(Profile, Cache)) -> bool {
        *cache == run.1
    }

    fn cache_name(cache: &Cache) -> String {
        format!("{:?}", cache)
    }
}

fn row(krate: Option<&str>, cache: Cache, points: &[(&str, i64, Option<f64>)]) -> SeriesPoints<f64> {
    SeriesPoints {
        series: Series {
            krate: match krate {
                Some(name) => CrateSelector::Specific(name.to_string()),
                None => CrateSelector::All,
            },
            profile: Profile::Check,
            cache,
        },
        baseline: vec![None, Some(4.0), Some(8.0)],
        points: points
            .iter()
            .map(|(sha, timestamp, point)| Measured {
                commit: Commit {
                    sha: sha.to_string(),
                    date: Date {
                        timestamp: *timestamp,
                        nanos: 999_999_999,
                    },
                },
                point: *point,
            })
            .collect(),
    }
}

fn rows() -> Vec<SeriesPoints<f64>> {
    vec![
        row(
            Some("regex"),
            Cache::Empty,
            &[("a", 1, Some(2.0)), ("b", 2, None), ("c", 3, Some(3.0))],
        ),
        row(
            Some("regex"),
            Cache::IncrementalFresh,
            &[("b", 2, Some(10.0)), ("c", 3, Some(5.0))],
        ),
        row(
            None,
            Cache::Empty,
            &[("a", 1, Some(4.0)), ("b", 2, Some(6.0))],
        ),
    ]
}

fn draw(absolute: bool, interpolated: &Interpolations<(Profile, Cache)>) -> Response<f32> {
    let rows = rows();
    assert!(can_draw(&rows));
    handle_graph::<Floats, Store>(absolute, Ok(rows), interpolated)
        .ok()
        .unwrap()
}

#[test]
fn commits_are_numbered_as_they_come() {
    let response = draw(true, &Interpolations::new());
    assert_eq!(response.commits, ["a", "c", "b"]);
    assert_eq!(response.colors, ["", "#fcb0f1"]);
    let graphs = response.benchmarks.get(&"regex".to_string()).unwrap();
    let graphs = graphs.get(&"check".to_string()).unwrap();
    assert_eq!(graphs.len(), 2);
    assert_eq!(graphs[0].0, Cache::Empty);
    let numbers: Vec<u16> = graphs[0].1.iter().map(|p| p.commit).collect();
    assert_eq!(numbers, [0, 1]);
    assert_eq!(graphs[1].0, Cache::IncrementalFresh);
    let numbers: Vec<u16> = graphs[1].1.iter().map(|p| p.commit).collect();
    assert_eq!(numbers, [2, 1]);
}

#[test]
fn points_are_absolute_and_relative() {
    let response = draw(true, &Interpolations::new());
    let graphs = response.benchmarks.get(&"regex".to_string()).unwrap();
    let points = &graphs.get(&"check".to_string()).unwrap()[0].1;
    assert_eq!((points[0].absolute, points[0].percent), (2.0, 0.0));
    assert_eq!((points[1].absolute, points[1].percent), (3.0, 50.0));
    assert_eq!(points[1].y, 3.0);
    assert_eq!(points[1].x, 3000);
    let response = draw(false, &Interpolations::new());
    let graphs = response.benchmarks.get(&"regex".to_string()).unwrap();
    let points = &graphs.get(&"check".to_string()).unwrap()[0].1;
    assert_eq!(points[1].y, 50.0);
}

#[test]
fn summaries_are_related_to_the_first_baseline() {
    let response = draw(true, &Interpolations::new());
    let graphs = response.benchmarks.get(&"Summary".to_string()).unwrap();
    let points = &graphs.get(&"check".to_string()).unwrap()[0].1;
    assert_eq!(points[0].absolute, 1.0);
    assert_eq!(points[1].absolute, 1.5);
    assert_eq!(points[1].percent, 50.0);
}

#[test]
fn largest_values_are_found() {
    let response = draw(true, &Interpolations::new());
    assert_eq!(response.max.get(&"regex".to_string()), Some(&10.0));
    assert_eq!(response.max.get(&"Summary".to_string()), Some(&1.5));
    assert_eq!(response.max.get(&"other".to_string()), None);
    let response = draw(false, &Interpolations::new());
    assert_eq!(response.max.get(&"regex".to_string()), Some(&50.0));
}

#[test]
fn series_without_points_has_the_least_maximum() {
    let rows = vec![row(Some("none"), Cache::Empty, &[("a", 1, None)])];
    let response = handle_graph::<Floats, Store>(true, Ok(rows), &Interpolations::new());
    let response = response.ok().unwrap();
    assert_eq!(response.max.get(&"none".to_string()), Some(&f32::MIN));
    assert!(response.commits.is_empty());
}

#[test]
fn profiles_have_their_names() {
    let mut rows = rows();
    rows[0].series.profile = Profile::Opt;
    rows[1].series.profile = Profile::Debug;
    let response = handle_graph::<Floats, Store>(true, Ok(rows), &Interpolations::new());
    let response = response.ok().unwrap();
    let graphs = response.benchmarks.get(&"regex".to_string()).unwrap();
    assert!(graphs.get(&"opt".to_string()).is_some());
    assert!(graphs.get(&"debug".to_string()).is_some());
    assert!(graphs.get(&"check".to_string()).is_none());
}

#[test]
fn filled_in_points_are_marked() {
    let filled = |benchmark: &str, run| Interpolation {
        benchmark: benchmark.to_string(),
        run,
    };
    let marks = |interpolation| {
        let mut interpolated = Interpolations::new();
        interpolated.insert("c".to_string(), vec![interpolation]);
        let response = draw(true, &interpolated);
        let graphs = response.benchmarks.get(&"regex".to_string()).unwrap();
        let graphs = graphs.get(&"check".to_string()).unwrap();
        assert!(!graphs[0].1[0].is_interpolated);
        (graphs[0].1[1].is_interpolated, graphs[1].1[1].is_interpolated)
    };
    assert_eq!(marks(filled("regex", None)), (true, true));
    assert_eq!(marks(filled("serde", None)), (false, false));
    assert_eq!(
        marks(filled("regex", Some((Profile::Check, Cache::Empty)))),
        (true, false)
    );
    assert_eq!(
        marks(filled("regex", Some((Profile::Opt, Cache::Empty)))),
        (false, false)
    );
    let mut interpolated = Interpolations::new();
    interpolated.insert("a".to_string(), vec![filled("serde", None)]);
    let response = draw(true, &interpolated);
    let graphs = response.benchmarks.get(&"Summary".to_string()).unwrap();
    assert!(graphs.get(&"check".to_string()).unwrap()[0].1[0].is_interpolated);
}

#[test]
fn unknown_statistic_is_told() {
    let response =
        handle_graph::<Floats, Store>(true, Err("unknown".to_string()), &Interpolations::new());
    assert_eq!(response.err(), Some("unknown".to_string()));
}

#[test]
fn rows_that_cannot_be_drawn_are_found() {
    assert!(!can_draw(&vec![row(Some("x"), Cache::Empty, &[("a", -1, Some(1.0))])]));
    assert!(can_draw(&vec![row(Some("x"), Cache::Empty, &[("a", -1, None)])]));
    assert!(!can_draw(&vec![row(Some("x"), Cache::Empty, &[("a", i64::MAX, Some(1.0))])]));
    let names: Vec<String> = (0..65537).map(|i| format!("{}", i)).collect();
    let many: Vec<(&str, i64, Option<f64>)> =
        names.iter().map(|name| (name.as_str(), 1, Some(1.0))).collect();
    assert!(!can_draw(&vec![row(Some("x"), Cache::Empty, &many)]));
    assert!(can_draw(&vec![row(Some("x"), Cache::Empty, &many[..65536])]));
}

#[test]
fn numbers_are_kept() {
    let mut cc = CommitIdxCache::new();
    assert_eq!(cc.lookup(&"x".to_string()), 0);
    assert_eq!(cc.lookup(&"y".to_string()), 1);
    assert_eq!(cc.lookup(&"x".to_string()), 0);
    assert!(cc.has_room(&"z".to_string()));
    assert_eq!(cc.into_commits(), ["x", "y"]);
}

#[test]
fn summaries_are_drawn_behind_the_benchmarks() {
    let series = |krate, profile| Series {
        krate,
        profile,
        cache: Cache::IncrementalFresh,
    };
    let specific = || CrateSelector::Specific("x".to_string());
    let drawn = drawn_series(
        vec![series(specific(), Profile::Opt)],
        vec![series(CrateSelector::All, Profile::Debug)],
    );
    let baseline = |profile| Series {
        krate: CrateSelector::All,
        profile,
        cache: Cache::Empty,
    };
    assert_eq!(
        drawn,
        vec![
            (series(specific(), Profile::Opt), baseline(Profile::Opt)),
            (series(CrateSelector::All, Profile::Debug), baseline(Profile::Debug)),
        ]
    );
}
