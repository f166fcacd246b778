use lolbench::date::Date;
use lolbench::error::Error;
use lolbench::plan::{plan_benchmarks, select_benchmarks, BenchOpts, Benchmark};
use lolbench::toolchain::{resolve_toolchains, Toolchain, ToolchainSpec};

fn day(y: i32, m: u32, d: u32) -> Date {
    Date::from_ymd(y, m, d).unwrap()
}

fn bench(name: &str, runner: Option<&str>) -> Benchmark {
    Benchmark { name: name.to_string(), runner: runner.map(|r| r.to_string()) }
}

#[test]
fn range_resolves_to_every_day_in_order() {
    let spec = ToolchainSpec::Range(day(2024, 2, 27), day(2024, 3, 2));
    let got = resolve_toolchains(&spec);
    let want = vec![
        Toolchain::Nightly(day(2024, 2, 27)),
        Toolchain::Nightly(day(2024, 2, 28)),
        Toolchain::Nightly(day(2024, 2, 29)),
        Toolchain::Nightly(day(2024, 3, 1)),
        Toolchain::Nightly(day(2024, 3, 2)),
    ];
    assert_eq!(got, want);
}

#[test]
fn range_of_one_day_and_backwards_range() {
    let d = day(2024, 1, 1);
    assert_eq!(resolve_toolchains(&ToolchainSpec::Range(d, d)), vec![Toolchain::Nightly(d)]);
    let back = ToolchainSpec::Range(day(2024, 1, 2), day(2024, 1, 1));
    assert!(resolve_toolchains(&back).is_empty());
}

#[test]
fn nightlies_since_until_today() {
    let spec = ToolchainSpec::from_selection(None, Some(day(2024, 1, 1)), day(2024, 1, 3)).unwrap();
    let labels: Vec<String> =
        resolve_toolchains(&spec).iter().map(|t| t.label().unwrap()).collect();
    assert_eq!(labels, vec!["nightly-2024-01-01", "nightly-2024-01-02", "nightly-2024-01-03"]);
}

#[test]
fn selection_needs_exactly_one_kind() {
    let today = day(2024, 1, 3);
    let both = ToolchainSpec::from_selection(Some("stable".to_string()), Some(today), today);
    assert_eq!(both.unwrap_err(), Error::Config);
    let neither = ToolchainSpec::from_selection(None, None, today);
    assert_eq!(neither.unwrap_err(), Error::Config);
    match ToolchainSpec::from_selection(Some("beta".to_string()), None, today).unwrap() {
        ToolchainSpec::Single(name) => assert_eq!(name, "beta"),
        other => panic!("unexpected {:?}", other),
    }
}

#[test]
fn single_toolchain_plan_has_one_entry() {
    let registry = vec![bench("a", None), bench("b", Some("r1")), bench("c", Some("r2"))];
    let opts = BenchOpts {
        toolchains: ToolchainSpec::Single("stable".to_string()),
        runner: None,
        shield_spec: None,
    };
    let plan = plan_benchmarks(&opts, &registry);
    assert_eq!(plan.toolchains, vec![Toolchain::Named("stable".to_string())]);
    let names: Vec<&str> = plan.benchmarks.iter().map(|b| b.name.as_str()).collect();
    assert_eq!(names, vec!["a", "b", "c"]);
}

#[test]
fn runner_filter_keeps_assigned_benchmarks() {
    let registry =
        vec![bench("a", None), bench("b", Some("r1")), bench("c", Some("r2")), bench("d", Some("r1"))];
    let got = select_benchmarks(&registry, &Some("r1".to_string()));
    let names: Vec<&str> = got.iter().map(|b| b.name.as_str()).collect();
    assert_eq!(names, vec!["b", "d"]);
    assert!(select_benchmarks(&registry, &Some("r9".to_string())).is_empty());
}

#[test]
fn dates_are_consecutive_day_numbers() {
    assert_eq!(day(1, 1, 1).day, 1);
    assert_eq!(day(1970, 1, 1).day, 719_163);
    assert_eq!(day(2024, 3, 1).day - day(2024, 2, 28).day, 2);
    assert!(Date::from_ymd(2023, 2, 29).is_none());
    assert!(Date::from_ymd(2024, 13, 1).is_none());
    assert_eq!(day(2024, 1, 2).iso_text().unwrap(), "2024-01-02");
    assert_eq!(Toolchain::Named("stable".to_string()).label().unwrap(), "stable");
}
