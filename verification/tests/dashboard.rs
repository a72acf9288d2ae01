use site::arithmetic::Arithmetic;
use site::collector::{Commit, Date};
use site::db::{Cache, CrateSelector, Profile, Series};
use site::load::{ArtifactData, CommitData, InputData};
use site::server::dashboard::{
    can_compare, handle_dashboard, is_complete, master_series, shared_benchmarks,
};

struct Floats;

impl Arithmetic for Floats {
    type Point = f64;
    type Plotted = f32;

    fn zero() -> f64 {
        0.0
    }

    fn lowest() -> f32 {
        f32::MIN
    }

    fn unknown_share() -> f32 {
        -100.0
    }

    fn round_to_tenth(point: f64) -> f64 {
        (point * 10.0).round() / 10.0
    }

    fn ratio(point: f64, baseline: f64) -> f64 {
        point / baseline
    }

    fn percent_change(point: f64, first: f64) -> f64 {
        (point - first) / first * 100.0
    }

    fn to_seconds(millis: f64) -> f64 {
        millis / 1000.0
    }

    fn narrow(point: f64) -> f32 {
        point as f32
    }

    fn larger(a: f32, b: f32) -> f32 {
        a.max(b)
    }

    fn share_of_clock(nanos: u128, clock: f64) -> f32 {
        (((nanos as f64 / 1000000.0) / clock) * 100.0) as f32
    }

    fn share(nanos: u128, total: u128) -> f32 {
        ((nanos as f64 / total as f64) * 100.0) as f32
    }

    fn hit_rate(hits: u64, invocations: u64) -> u64 {
        ((hits as f64 / invocations as f64) * 10_000.0) as u64
    }

    fn rank(share: f32) -> u64 {
        assert!(!share.is_nan(), "shares that are not numbers have no order");
        let bits = if share == 0.0 { 0 } else { share.to_bits() };
        u64::from(if bits >> 31 == 1 {
            !bits
        } else {
            bits | 0x8000_0000
        })
    }
}

fn series(profile: Profile, cache: Cache) -> Series {
    Series {
        krate: CrateSelector::All,
        profile,
        cache,
    }
}

fn artifact(id: &str, benchmarks: &[(&str, bool)]) -> ArtifactData {
    ArtifactData {
        id: id.to_string(),
        benchmarks: benchmarks
            .iter()
            .map(|(name, ok)| (name.to_string(), *ok))
            .collect(),
    }
}

fn data() -> InputData {
    InputData {
        stats_list: Vec::new(),
        last_date: None,
        artifact_data: vec![
            artifact("1.0.0", &[("x", true)]),
            artifact("beta", &[("x", true), ("y", false), ("z", true)]),
        ],
        data: vec![CommitData {
            commit: Commit {
                sha: "0123456789abcdef".to_string(),
                date: Date { timestamp: 1, nanos: 0 },
            },
            benchmarks: vec!["z".to_string(), "y".to_string(), "x".to_string()],
        }],
        commits: Vec::new(),
        errors: Vec::new(),
        summary_series: vec![
            series(Profile::Check, Cache::Empty),
            series(Profile::Opt, Cache::IncrementalPatch("println".to_string())),
            series(Profile::Debug, Cache::IncrementalEmpty),
            series(Profile::Check, Cache::IncrementalFresh),
            series(Profile::Check, Cache::Empty),
        ],
    }
}

#[test]
fn averages_are_rounded_and_gathered() {
    let data = data();
    assert!(can_compare(&data));
    let artifacts = vec![
        vec![Some(1.04), Some(1.05)],
        vec![Some(2.0)],
        vec![Some(3.0)],
        vec![Some(4.0)],
        vec![Some(5.55)],
    ];
    let master = vec![
        vec![Some(6.0)],
        vec![Some(7.0)],
        vec![Some(8.0)],
        vec![],
        vec![Some(9.0)],
    ];
    assert!(is_complete(&artifacts, 5) && is_complete(&master, 5));
    let response = handle_dashboard::<Floats>(&data, &artifacts, &master);
    assert_eq!(response.versions, ["1.0.0", "beta", "master: 01234567"]);
    assert_eq!(response.check.clean_averages, [1.0, 1.1, 5.6, 6.0, 9.0]);
    assert_eq!(response.check.clean_incr_averages, [4.0]);
    assert!(response.check.base_incr_averages.is_empty());
    assert!(response.check.println_incr_averages.is_empty());
    assert_eq!(response.debug.base_incr_averages, [3.0, 8.0]);
    assert_eq!(response.opt.println_incr_averages, [2.0, 7.0]);
    assert!(response.opt.clean_averages.is_empty());
}

#[test]
fn dashboard_without_artifacts_is_empty() {
    let mut data = data();
    data.artifact_data.clear();
    let response = handle_dashboard::<Floats>(&data, &vec![], &vec![]);
    assert!(response.versions.is_empty());
    assert!(response.check.clean_averages.is_empty());
    assert!(response.opt.println_incr_averages.is_empty());
}

#[test]
fn latest_commit_is_asked_for_what_the_beta_can_run() {
    let data = data();
    assert_eq!(shared_benchmarks(&data), ["z", "x"]);
    let series = master_series(&data);
    assert_eq!(series.len(), 5);
    assert_eq!(
        series[1].krate,
        CrateSelector::Several(vec!["z".to_string(), "x".to_string()])
    );
    assert_eq!(series[1].profile, Profile::Opt);
    assert_eq!(series[1].cache, Cache::IncrementalPatch("println".to_string()));
}

#[test]
fn commit_that_lacks_a_benchmark_cannot_be_compared() {
    let mut lacking = data();
    lacking.data[0].benchmarks.pop();
    assert!(!can_compare(&lacking));
    let mut stable = data();
    stable.artifact_data.pop();
    assert!(!can_compare(&stable));
    let mut empty = data();
    empty.data.clear();
    assert!(!can_compare(&empty));
}

#[test]
fn missing_points_are_found() {
    assert!(!is_complete(&vec![vec![Some(1.0), None]], 1));
    assert!(!is_complete(&vec![vec![Some(1.0)]], 2));
    assert!(is_complete::<f64>(&vec![], 0));
}
