use vstd::prelude::*;
use crate::collector::{Collector, StoredRecord, all_decodable, stored_keys};
use crate::date::Date;
use crate::engine::{Phase, Session};
use crate::error::Error;
use crate::plan::{BenchOpts, Benchmark, ShieldSpec, plan_benchmarks, selected};
use crate::shield::{shield_cpus, spec_shield_cpus, cpu_view};
use crate::toolchain::{ToolchainSpec, spec_selection, spec_toolchains};
use vstd::utf8::encode_utf8;

verus! {

/// What a `measure` invocation asks for.
#[derive(Debug, Clone)]
pub struct MeasureArgs {
    pub cpu_pattern: Option<String>,
    pub move_kernel_threads: bool,
    pub runner: Option<String>,
    pub single_toolchain: Option<String>,
    pub nightlies_since: Option<Date>,
    pub keep_going: bool,
}

/// A session ready to be driven, with the CPUs it reserves (none when no
/// shield was asked for) and whether kernel threads should leave them.
pub struct Measurement {
    pub session: Session,
    pub shield: Option<ShieldSpec>,
    pub cpus: Option<Vec<u32>>,
}

/// Builds the session of a `measure` invocation from its arguments, today's
/// date, the host's CPU count, the registered benchmarks and what the store
/// holds. The toolchain selection is checked first, before the store is read;
/// then the store; then the CPU mask.
pub fn prepare_measure(
    args: &MeasureArgs,
    today: Date,
    n_cpus: u32,
    registry: &Vec<Benchmark>,
    stored: &Vec<StoredRecord>,
) -> (r: Result<Measurement, Error>)
    ensures
        spec_selection(args.single_toolchain, args.nightlies_since, today) is Err ==> r == Err::<
            Measurement,
            Error,
        >(Error::Config),
        (spec_selection(args.single_toolchain, args.nightlies_since, today) is Ok
            && all_decodable(stored@) && args.cpu_pattern is Some && spec_shield_cpus(
            encode_utf8(args.cpu_pattern->Some_0@),
            n_cpus as nat,
        ) is Err) ==> r is Err && r->Err_0 == spec_shield_cpus(
            encode_utf8(args.cpu_pattern->Some_0@),
            n_cpus as nat,
        )->Err_0,
        (spec_selection(args.single_toolchain, args.nightlies_since, today) is Ok
            && !all_decodable(stored@)) ==> r == Err::<Measurement, Error>(Error::StoreCorrupt),
        r is Ok <==> (spec_selection(args.single_toolchain, args.nightlies_since, today) is Ok && (
        args.cpu_pattern matches Some(m) ==> spec_shield_cpus(encode_utf8(m@), n_cpus as nat) is Ok)
            && all_decodable(stored@)),
        r matches Ok(mm) ==> {
            &&& mm.session.wf()
            &&& mm.session.phase == Phase::Start
            &&& !mm.session.shield_held
            &&& mm.session.shielded == args.cpu_pattern is Some
            &&& mm.session.move_kthreads == (args.cpu_pattern is Some && args.move_kernel_threads)
            &&& mm.session.keep_going == args.keep_going
            &&& mm.session.collector.known() == stored_keys(stored@)
            &&& mm.session.toolchains@ == spec_toolchains(
                spec_selection(args.single_toolchain, args.nightlies_since, today)->Ok_0,
            )
            &&& mm.session.names@.len() == selected(registry@, args.runner).len()
            &&& forall|i: int|
                0 <= i < mm.session.names@.len() ==> #[trigger] mm.session.names@[i] == selected(
                    registry@,
                    args.runner,
                )[i].name
            &&& (mm.cpus matches Some(c) ==> args.cpu_pattern matches Some(m) && spec_shield_cpus(
                encode_utf8(m@),
                n_cpus as nat,
            ) == Ok::<Seq<nat>, Error>(cpu_view(c@)))
            &&& (mm.cpus is Some <==> args.cpu_pattern is Some)
            &&& (mm.shield is Some <==> args.cpu_pattern is Some)
            &&& (mm.shield matches Some(sh) ==> sh.cpu_mask == args.cpu_pattern->Some_0
                && sh.kthread_on == args.move_kernel_threads)
        },
{
    let single = match &args.single_toolchain {
        Some(s) => Some(s.clone()),
        None => None,
    };
    let toolchains = match ToolchainSpec::from_selection(single, args.nightlies_since, today) {
        Ok(t) => t,
        Err(e) => {
            return Err(e);
        },
    };
    let collector = match Collector::rehydrate(stored) {
        Ok(c) => c,
        Err(e) => {
            return Err(e);
        },
    };
    let (shield, cpus) = match &args.cpu_pattern {
        Some(m) => {
            match shield_cpus(m.as_str(), n_cpus) {
                Ok(c) => (Some(ShieldSpec { cpu_mask: m.clone(), kthread_on: args.move_kernel_threads }), Some(c)),
                Err(e) => {
                    return Err(e);
                },
            }
        },
        None => (None, None),
    };
    let runner = match &args.runner {
        Some(s) => Some(s.clone()),
        None => None,
    };
    let opts = BenchOpts { toolchains, runner, shield_spec: shield };
    let plan = plan_benchmarks(&opts, registry);
    let session = Session::new(
        plan,
        collector,
        cpus.is_some(),
        cpus.is_some() && args.move_kernel_threads,
        args.keep_going,
    );
    Ok(Measurement { session, shield: opts.shield_spec, cpus })
}

} // verus!
