use lolbench::collector::{encode_body, StoredRecord};
use lolbench::date::Date;
use lolbench::engine::{Action, Event, Session};
use lolbench::error::Error;
use lolbench::measure::{prepare_measure, MeasureArgs};
use lolbench::plan::Benchmark;
use lolbench::toolchain::Toolchain;

struct Driver {
    log: Vec<String>,
    store: Vec<StoredRecord>,
    failing: Vec<String>,
    bad_installs: Vec<String>,
    stop_after: Option<usize>,
    kthreads_move: bool,
}

impl Driver {
    fn new() -> Driver {
        Driver { log: vec![], store: vec![], failing: vec![], bad_installs: vec![], stop_after: None, kthreads_move: true }
    }

    /// Drives the session; `None` when the process is cut off mid-way.
    fn drive(&mut self, s: &mut Session) -> Option<Result<(), Error>> {
        let mut event = Event::Start;
        loop {
            assert!(s.accepts(&event));
            match s.step(event) {
                Action::Install(l) => {
                    self.log.push(format!("install {}", l));
                    event = Event::Installed(!self.bad_installs.contains(&l));
                }
                Action::AcquireShield => {
                    self.log.push("acquire".to_string());
                    event = Event::ShieldAcquired(true);
                }
                Action::MoveKthreads => {
                    self.log.push("move kthreads".to_string());
                    event = Event::KthreadsMoved(self.kthreads_move);
                }
                Action::Run(t, b) => {
                    self.log.push(format!("run {} {}", t, b));
                    event = if self.failing.contains(&b) {
                        Event::Ran(None)
                    } else {
                        Event::Ran(Some(format!("{}:{}", t, b).into_bytes()))
                    };
                }
                Action::Persist(rec) => {
                    self.log.push(format!("persist {} {} {}", rec.toolchain, rec.benchmark, rec.success));
                    self.store.push(StoredRecord {
                        toolchain: rec.toolchain.clone(),
                        benchmark: rec.benchmark.clone(),
                        body: encode_body(rec.success, &rec.payload),
                    });
                    if Some(self.store.len()) == self.stop_after {
                        return None;
                    }
                    event = Event::Persisted;
                }
                Action::ReleaseShield => {
                    self.log.push("release".to_string());
                    event = Event::Released;
                }
                Action::Finish(r) => return Some(r),
            }
        }
    }

    fn runs(&self) -> Vec<String> {
        self.log.iter().filter(|l| l.starts_with("run ")).cloned().collect()
    }
}

fn day(y: i32, m: u32, d: u32) -> Date {
    Date::from_ymd(y, m, d).unwrap()
}

fn registry() -> Vec<Benchmark> {
    ["a", "b", "c"].iter().map(|n| Benchmark { name: n.to_string(), runner: None }).collect()
}

fn stable_args() -> MeasureArgs {
    MeasureArgs {
        cpu_pattern: None,
        move_kernel_threads: false,
        runner: None,
        single_toolchain: Some("stable".to_string()),
        nightlies_since: None,
        keep_going: false,
    }
}

fn shielded_args() -> MeasureArgs {
    MeasureArgs { cpu_pattern: Some("0-1".to_string()), ..stable_args() }
}

#[test]
fn single_stable_with_three_benchmarks_on_empty_store() {
    let m = prepare_measure(&stable_args(), day(2024, 1, 3), 4, &registry(), &vec![]).unwrap();
    let mut s = m.session;
    assert_eq!(s.toolchains, vec![Toolchain::Named("stable".to_string())]);
    assert_eq!(s.names, vec!["a", "b", "c"]);
    let mut d = Driver::new();
    assert_eq!(d.drive(&mut s), Some(Ok(())));
    assert_eq!(d.log.iter().filter(|l| l.starts_with("install")).count(), 1);
    assert_eq!(d.log[0], "install stable");
    assert_eq!(d.store.len(), 3);
    assert_eq!(s.collector.records().len(), 3);
}

#[test]
fn nightlies_install_in_date_order() {
    let args = MeasureArgs { single_toolchain: None, nightlies_since: Some(day(2024, 1, 1)), ..stable_args() };
    let one = vec![Benchmark { name: "a".to_string(), runner: None }];
    let mut s = prepare_measure(&args, day(2024, 1, 3), 4, &one, &vec![]).unwrap().session;
    let mut d = Driver::new();
    assert_eq!(d.drive(&mut s), Some(Ok(())));
    let installs: Vec<&String> = d.log.iter().filter(|l| l.starts_with("install")).collect();
    assert_eq!(
        installs,
        vec!["install nightly-2024-01-01", "install nightly-2024-01-02", "install nightly-2024-01-03"]
    );
}

#[test]
fn recorded_benchmark_is_not_run_again() {
    let store = vec![StoredRecord {
        toolchain: "stable".to_string(),
        benchmark: "b".to_string(),
        body: b"ok\nold".to_vec(),
    }];
    let mut s = prepare_measure(&stable_args(), day(2024, 1, 3), 4, &registry(), &store).unwrap().session;
    let mut d = Driver::new();
    assert_eq!(d.drive(&mut s), Some(Ok(())));
    assert_eq!(d.runs(), vec!["run stable a", "run stable c"]);
    let kept = s.collector.records().iter().find(|r| r.benchmark == "b").unwrap();
    assert_eq!(kept.payload, b"old".to_vec());
}

#[test]
fn resume_after_interruption_runs_the_rest() {
    let mut first = prepare_measure(&stable_args(), day(2024, 1, 3), 4, &registry(), &vec![]).unwrap().session;
    let mut d = Driver::new();
    d.stop_after = Some(1);
    assert_eq!(d.drive(&mut first), None);
    let store = d.store.clone();
    let mut again = prepare_measure(&stable_args(), day(2024, 1, 3), 4, &registry(), &store).unwrap().session;
    let mut d2 = Driver::new();
    assert_eq!(d2.drive(&mut again), Some(Ok(())));
    assert_eq!(d2.runs(), vec!["run stable b", "run stable c"]);
}

#[test]
fn shield_is_released_around_every_benchmark() {
    let m = prepare_measure(&shielded_args(), day(2024, 1, 3), 4, &registry(), &vec![]).unwrap();
    assert_eq!(m.cpus, Some(vec![0, 1]));
    let mut s = m.session;
    let mut d = Driver::new();
    assert_eq!(d.drive(&mut s), Some(Ok(())));
    assert_eq!(d.log.iter().filter(|l| *l == "acquire").count(), 3);
    assert_eq!(d.log.iter().filter(|l| *l == "release").count(), 3);
    assert_eq!(d.log.last().unwrap(), "release");
    assert!(!s.shield_held);
}

#[test]
fn shield_is_released_when_a_benchmark_fails() {
    let mut s = prepare_measure(&shielded_args(), day(2024, 1, 3), 4, &registry(), &vec![]).unwrap().session;
    let mut d = Driver::new();
    d.failing = vec!["b".to_string()];
    assert_eq!(d.drive(&mut s), Some(Err(Error::BenchmarkExecution("b".to_string()))));
    assert_eq!(d.log.last().unwrap(), "release");
    assert!(!s.shield_held);
    assert_eq!(d.store.len(), 1);
}

#[test]
fn failed_install_ends_the_session_without_a_held_shield() {
    let mut s = prepare_measure(&shielded_args(), day(2024, 1, 3), 4, &registry(), &vec![]).unwrap().session;
    let mut d = Driver::new();
    d.bad_installs = vec!["stable".to_string()];
    assert_eq!(
        d.drive(&mut s),
        Some(Err(Error::Install(Toolchain::Named("stable".to_string()))))
    );
    assert!(!s.shield_held);
    assert!(d.runs().is_empty());
}

#[test]
fn keep_going_records_failures_and_continues() {
    let args = MeasureArgs { keep_going: true, ..stable_args() };
    let mut s = prepare_measure(&args, day(2024, 1, 3), 4, &registry(), &vec![]).unwrap().session;
    let mut d = Driver::new();
    d.failing = vec!["a".to_string()];
    assert_eq!(d.drive(&mut s), Some(Ok(())));
    assert_eq!(d.store.len(), 3);
    assert_eq!(d.store[0].body, b"failed\n".to_vec());
}

#[test]
fn bad_selection_fails_before_the_store_is_read() {
    let corrupt = vec![StoredRecord {
        toolchain: "stable".to_string(),
        benchmark: "a".to_string(),
        body: b"??".to_vec(),
    }];
    let both = MeasureArgs { nightlies_since: Some(day(2024, 1, 1)), ..stable_args() };
    assert_eq!(prepare_measure(&both, day(2024, 1, 3), 4, &registry(), &corrupt).err(), Some(Error::Config));
    let neither = MeasureArgs { single_toolchain: None, ..stable_args() };
    assert_eq!(prepare_measure(&neither, day(2024, 1, 3), 4, &registry(), &corrupt).err(), Some(Error::Config));
    assert_eq!(
        prepare_measure(&stable_args(), day(2024, 1, 3), 4, &registry(), &corrupt).err(),
        Some(Error::StoreCorrupt)
    );
}

#[test]
fn missing_cpus_make_the_shield_unavailable() {
    let args = MeasureArgs { cpu_pattern: Some("0-9".to_string()), ..stable_args() };
    assert_eq!(
        prepare_measure(&args, day(2024, 1, 3), 4, &registry(), &vec![]).err(),
        Some(Error::ShieldUnavailable)
    );
}

#[test]
fn empty_range_finishes_without_installing() {
    let args = MeasureArgs { single_toolchain: None, nightlies_since: Some(day(2024, 1, 5)), ..stable_args() };
    let mut s = prepare_measure(&args, day(2024, 1, 3), 4, &registry(), &vec![]).unwrap().session;
    let mut d = Driver::new();
    assert_eq!(d.drive(&mut s), Some(Ok(())));
    assert!(d.log.is_empty());
}

#[test]
fn every_owed_benchmark_runs_under_every_toolchain() {
    let args = MeasureArgs { single_toolchain: None, nightlies_since: Some(day(2024, 1, 1)), ..shielded_args() };
    let store = vec![StoredRecord {
        toolchain: "nightly-2024-01-02".to_string(),
        benchmark: "a".to_string(),
        body: b"ok\n".to_vec(),
    }];
    let mut s = prepare_measure(&args, day(2024, 1, 2), 4, &registry(), &store).unwrap().session;
    let mut d = Driver::new();
    assert_eq!(d.drive(&mut s), Some(Ok(())));
    assert_eq!(
        d.runs(),
        vec![
            "run nightly-2024-01-01 a",
            "run nightly-2024-01-01 b",
            "run nightly-2024-01-01 c",
            "run nightly-2024-01-02 b",
            "run nightly-2024-01-02 c",
        ]
    );
    assert_eq!(s.collector.records().len(), 6);
}

#[test]
fn failed_kthread_move_is_only_a_warning() {
    let args = MeasureArgs { move_kernel_threads: true, ..shielded_args() };
    let mut s = prepare_measure(&args, day(2024, 1, 3), 4, &registry(), &vec![]).unwrap().session;
    let mut d = Driver::new();
    d.kthreads_move = false;
    assert_eq!(d.drive(&mut s), Some(Ok(())));
    assert_eq!(d.log.iter().filter(|l| *l == "move kthreads").count(), 3);
    assert_eq!(d.runs().len(), 3);
    assert_eq!(d.store.len(), 3);
    assert!(!s.shield_held);
}

#[test]
fn kthreads_are_not_moved_without_a_shield() {
    let args = MeasureArgs { move_kernel_threads: true, ..stable_args() };
    let mut s = prepare_measure(&args, day(2024, 1, 3), 4, &registry(), &vec![]).unwrap().session;
    let mut d = Driver::new();
    assert_eq!(d.drive(&mut s), Some(Ok(())));
    assert!(!d.log.iter().any(|l| l == "acquire" || l == "move kthreads"));
}

#[test]
fn corrupt_store_is_reported_before_a_bad_mask() {
    let corrupt = vec![StoredRecord {
        toolchain: "stable".to_string(),
        benchmark: "a".to_string(),
        body: b"??".to_vec(),
    }];
    let args = MeasureArgs { cpu_pattern: Some("0-9".to_string()), ..stable_args() };
    assert_eq!(prepare_measure(&args, day(2024, 1, 3), 4, &registry(), &corrupt).err(), Some(Error::StoreCorrupt));
    let args = MeasureArgs { cpu_pattern: Some("x".to_string()), ..stable_args() };
    assert_eq!(prepare_measure(&args, day(2024, 1, 3), 4, &registry(), &corrupt).err(), Some(Error::StoreCorrupt));
}
