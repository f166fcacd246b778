use vstd::prelude::*;
use crate::toolchain::{Toolchain, ToolchainSpec, spec_toolchains, resolve_toolchains};

verus! {

/// A registered benchmark: its name and the runner it is assigned to, if any.
#[derive(Debug, Clone)]
pub struct Benchmark {
    pub name: String,
    pub runner: Option<String>,
}

/// A request to isolate CPUs: the CPU pattern (`0,1,2` or `0-2,4`) and whether
/// kernel threads should also be moved off those CPUs.
#[derive(Debug, Clone)]
pub struct ShieldSpec {
    pub cpu_mask: String,
    pub kthread_on: bool,
}

/// Everything that planning reads.
#[derive(Debug, Clone)]
pub struct BenchOpts {
    pub toolchains: ToolchainSpec,
    pub runner: Option<String>,
    pub shield_spec: Option<ShieldSpec>,
}

/// The ordered work of a session: every toolchain, in order, paired with the
/// same list of benchmarks.
#[derive(Debug, Clone)]
pub struct RunPlan {
    pub toolchains: Vec<Toolchain>,
    pub benchmarks: Vec<Benchmark>,
}

/// Whether a benchmark passes the runner filter.
pub open spec fn runs_on(b: Benchmark, runner: Option<String>) -> bool {
    match runner {
        None => true,
        Some(r) => b.runner matches Some(t) && t@ == r@,
    }
}

/// The benchmarks among the first `n` of `all` that pass the runner filter, in order.
pub open spec fn selected_prefix(all: Seq<Benchmark>, runner: Option<String>, n: nat) -> Seq<Benchmark>
    decreases n,
{
    if n == 0 || n > all.len() {
        Seq::empty()
    } else {
        let rest = selected_prefix(all, runner, (n - 1) as nat);
        if runs_on(all[n - 1], runner) {
            rest.push(all[n - 1])
        } else {
            rest
        }
    }
}

/// The benchmarks of `all` that pass the runner filter, in registration order.
pub open spec fn selected(all: Seq<Benchmark>, runner: Option<String>) -> Seq<Benchmark> {
    selected_prefix(all, runner, all.len())
}

impl RunPlan {
    /// The plan as the ordered pairs of toolchain and benchmark list.
    pub open spec fn entries(&self) -> Seq<(Toolchain, Seq<Benchmark>)> {
        self.toolchains@.map_values(|t: Toolchain| (t, self.benchmarks@))
    }
}

fn copy_runner(r: &Option<String>) -> (c: Option<String>)
    ensures
        c == *r,
{
    match r {
        Some(s) => Some(s.clone()),
        None => None,
    }
}

fn copy_benchmark(b: &Benchmark) -> (c: Benchmark)
    ensures
        c == *b,
{
    Benchmark { name: b.name.clone(), runner: copy_runner(&b.runner) }
}

/// Whether `b` passes the runner filter.
pub fn benchmark_runs_on(b: &Benchmark, runner: &Option<String>) -> (r: bool)
    ensures
        r == runs_on(*b, *runner),
{
    match runner {
        None => true,
        Some(want) => match &b.runner {
            Some(t) => *t == *want,
            None => false,
        },
    }
}

/// The registered benchmarks assigned to `runner` (all of them when no runner
/// is given), in registration order.
pub fn select_benchmarks(all: &Vec<Benchmark>, runner: &Option<String>) -> (r: Vec<Benchmark>)
    ensures
        r@ == selected(all@, *runner),
{
    let mut out: Vec<Benchmark> = Vec::new();
    let mut i: usize = 0;
    while i < all.len()
        invariant
            i <= all@.len(),
            out@ == selected_prefix(all@, *runner, i as nat),
        decreases all.len() - i,
    {
        if benchmark_runs_on(&all[i], runner) {
            out.push(copy_benchmark(&all[i]));
        }
        i = i + 1;
    }
    out
}

/// Resolves the toolchain selection and attaches the filtered benchmark list
/// to every toolchain, in resolution order.
pub fn plan_benchmarks(opts: &BenchOpts, registry: &Vec<Benchmark>) -> (r: RunPlan)
    ensures
        r.toolchains@ == spec_toolchains(opts.toolchains),
        r.benchmarks@ == selected(registry@, opts.runner),
        r.entries().len() == spec_toolchains(opts.toolchains).len(),
        forall|i: int|
            0 <= i < r.entries().len() ==> #[trigger] r.entries()[i] == (
            spec_toolchains(opts.toolchains)[i],
            selected(registry@, opts.runner),
            ),
{
    let toolchains = resolve_toolchains(&opts.toolchains);
    let benchmarks = select_benchmarks(registry, &opts.runner);
    RunPlan { toolchains, benchmarks }
}

} // verus!
