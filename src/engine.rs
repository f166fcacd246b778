use vstd::prelude::*;
use crate::collector::{Collector, Key, Record, key_of, spec_after_record};
use crate::error::Error;
use crate::plan::RunPlan;
use crate::toolchain::{Toolchain, spec_label, copy_toolchain};

verus! {

/// The benchmarks, in order, that a session still runs under the toolchain
/// `label` when `known` holds the keys already recorded: a benchmark is run
/// unless its key is recorded, and once run its key counts as recorded.
pub open spec fn pending(label: Seq<char>, names: Seq<Seq<char>>, known: Set<Key>) -> Seq<Seq<char>>
    decreases names.len(),
{
    if names.len() == 0 {
        Seq::empty()
    } else if known.contains((label, names[0])) {
        pending(label, names.drop_first(), known)
    } else {
        seq![names[0]] + pending(label, names.drop_first(), known.insert((label, names[0])))
    }
}

/// No benchmark that a session owes under a toolchain is already recorded
/// for it.
pub proof fn lemma_pending_not_recorded(label: Seq<char>, names: Seq<Seq<char>>, known: Set<Key>)
    ensures
        forall|i: int|
            0 <= i < pending(label, names, known).len() ==> !known.contains(
                (label, #[trigger] pending(label, names, known)[i]),
            ),
    decreases names.len(),
{
    if names.len() > 0 {
        let x = names[0];
        if known.contains((label, x)) {
            lemma_pending_not_recorded(label, names.drop_first(), known);
        } else {
            let known1 = known.insert((label, x));
            lemma_pending_not_recorded(label, names.drop_first(), known1);
            let q = pending(label, names.drop_first(), known1);
            let p = pending(label, names, known);
            assert(p == seq![x] + q);
            assert forall|i: int| 0 <= i < p.len() implies !known.contains((label, #[trigger] p[i])) by {
                if i > 0 {
                    assert(p[i] == q[i - 1]);
                    assert(!known1.contains((label, q[i - 1])));
                }
            }
        }
    }
}

/// `known` together with the keys of the benchmarks in `done` under `label`.
pub open spec fn with_done(known: Set<Key>, label: Seq<char>, done: Seq<Seq<char>>) -> Set<Key> {
    Set::new(|k: Key| known.contains(k) || (k.0 == label && done.contains(k.1)))
}

pub open spec fn name_views(v: Seq<String>) -> Seq<Seq<char>> {
    v.map_values(|s: String| s@)
}

/// After the first `n` benchmarks that a session owes under a toolchain have
/// been recorded, a fresh session on the same records owes exactly the rest,
/// in the same order.
pub proof fn lemma_resume_runs_the_rest(
    label: Seq<char>,
    names: Seq<Seq<char>>,
    known: Set<Key>,
    n: nat,
)
    requires
        n <= pending(label, names, known).len(),
    ensures
        pending(label, names, with_done(known, label, pending(label, names, known).take(n as int)))
            == pending(label, names, known).skip(n as int),
    decreases names.len(),
{
    let p = pending(label, names, known);
    let k2 = with_done(known, label, p.take(n as int));
    if names.len() == 0 {
        assert(p.skip(n as int) =~= Seq::<Seq<char>>::empty());
    } else if n == 0 {
        assert(k2 =~= known);
        assert(p.skip(0) =~= p);
    } else if known.contains((label, names[0])) {
        lemma_resume_runs_the_rest(label, names.drop_first(), known, n);
        assert(k2.contains((label, names[0])));
    } else {
        let x = names[0];
        let known1 = known.insert((label, x));
        let q = pending(label, names.drop_first(), known1);
        assert(p == seq![x] + q);
        lemma_resume_runs_the_rest(label, names.drop_first(), known1, (n - 1) as nat);
        assert forall|k: Key| #[trigger] k2.contains(k) == with_done(
            known1,
            label,
            q.take(n - 1),
        ).contains(k) by {
            assert(p.take(n as int) =~= seq![x] + q.take(n - 1));
            assert(p.take(n as int)[0] == x);
            if k == (label, x) {
                assert(p.take(n as int).contains(x));
            }
            if q.take(n - 1).contains(k.1) {
                let j = choose|j: int| 0 <= j < q.take(n - 1).len() && #[trigger] q.take(n - 1)[j] == k.1;
                assert(p.take(n as int)[j + 1] == k.1);
            }
            if p.take(n as int).contains(k.1) {
                let j = choose|j: int|
                    0 <= j < p.take(n as int).len() && #[trigger] p.take(n as int)[j] == k.1;
                if j > 0 {
                    assert(q.take(n - 1)[j - 1] == k.1);
                }
            }
        }
        assert(k2 =~= with_done(known1, label, q.take(n - 1)));
        assert(k2.contains((label, x))) by {
            assert(p.take(n as int)[0] == x);
        }
        assert(p.skip(n as int) =~= q.skip(n - 1));
    }
}

fn contains_name(v: &Vec<String>, name: &String) -> (r: bool)
    ensures
        r == name_views(v@).contains(name@),
{
    let mut i: usize = 0;
    while i < v.len()
        invariant
            i <= v@.len(),
            forall|j: int| 0 <= j < i ==> (#[trigger] v@[j])@ != name@,
        decreases v.len() - i,
    {
        if v[i] == *name {
            proof {
                assert(name_views(v@)[i as int] == name@);
            }
            return true;
        }
        i = i + 1;
    }
    proof {
        if name_views(v@).contains(name@) {
            let j = choose|j: int| 0 <= j < name_views(v@).len() && name_views(v@)[j] == name@;
            assert(v@[j]@ == name@);
        }
    }
    false
}

/// The benchmarks, in order, that are still owed under the toolchain `label`
/// given what `collector` has recorded.
pub fn remaining_benchmarks(collector: &Collector, label: &String, names: &Vec<String>) -> (r: Vec<
    String,
>)
    ensures
        name_views(r@) == pending(label@, name_views(names@), collector.known()),
{
    let ghost known = collector.known();
    let ghost all = name_views(names@);
    let mut out: Vec<String> = Vec::new();
    let mut i: usize = 0;
    proof {
        assert(all.skip(0) =~= all);
        assert(with_done(known, label@, name_views(out@)) =~= known);
        assert(name_views(out@) =~= Seq::<Seq<char>>::empty());
        assert(Seq::<Seq<char>>::empty() + pending(label@, all, known) =~= pending(label@, all, known));
    }
    while i < names.len()
        invariant
            i <= names@.len(),
            all == name_views(names@),
            known == collector.known(),
            name_views(out@) + pending(label@, all.skip(i as int), with_done(known, label@, name_views(out@)))
                == pending(label@, all, known),
        decreases names.len() - i,
    {
        let ghost k2 = with_done(known, label@, name_views(out@));
        let ghost ov = name_views(out@);
        let ghost rest = all.skip(i as int);
        proof {
            assert(rest[0] == names@[i as int]@);
            assert(rest.drop_first() =~= all.skip(i + 1));
        }
        let seen = collector.is_recorded(label, &names[i]) || contains_name(&out, &names[i]);
        if !seen {
            out.push(names[i].clone());
            proof {
                let x = names@[i as int]@;
                assert(!k2.contains((label@, x)));
                assert(name_views(out@) =~= ov.push(x));
                assert forall|y: Seq<char>| #[trigger] ov.push(x).contains(y) == (ov.contains(y) || y
                    == x) by {
                    if ov.contains(y) {
                        let j = choose|j: int| 0 <= j < ov.len() && ov[j] == y;
                        assert(ov.push(x)[j] == y);
                    }
                    if y == x {
                        assert(ov.push(x)[ov.len() as int] == y);
                    }
                }
                assert(with_done(known, label@, name_views(out@)) =~= k2.insert((label@, x)));
                assert(ov.push(x) + pending(label@, all.skip(i + 1), k2.insert((label@, x))) =~= ov
                    + (seq![x] + pending(label@, all.skip(i + 1), k2.insert((label@, x)))));
            }
        } else {
            proof {
                assert(k2.contains((label@, names@[i as int]@)));
            }
        }
        i = i + 1;
    }
    proof {
        assert(all.skip(i as int) =~= Seq::<Seq<char>>::empty());
        assert(name_views(out@) + Seq::<Seq<char>>::empty() =~= name_views(out@));
    }
    out
}

/// A session that has finished, whatever its outcome, holds no CPU
/// reservation: every reservation it made has been released.
pub proof fn lemma_finished_session_holds_no_shield(s: Session)
    requires
        s.wf(),
        s.phase == Phase::Done,
    ensures
        !s.shield_held,
{
}

/// What the driver of a session is asked to do next.
#[derive(Debug)]
pub enum Action {
    /// Install the toolchain with this label, then report `Installed`.
    Install(String),
    /// Reserve the requested CPUs, then report `ShieldAcquired`.
    AcquireShield,
    /// Ask the host to move its movable kernel threads off the reserved CPUs,
    /// then report `KthreadsMoved`. This is best-effort.
    MoveKthreads,
    /// Run the benchmark (second) under the toolchain (first), then report `Ran`.
    Run(String, String),
    /// Write this record durably to the store, then report `Persisted`.
    Persist(Record),
    /// Give the reserved CPUs back, then report `Released`.
    ReleaseShield,
    /// The session is over, with this outcome.
    Finish(Result<(), Error>),
}

/// What the driver reports back.
#[derive(Debug)]
pub enum Event {
    Start,
    /// Whether the installation succeeded.
    Installed(bool),
    /// Whether the reservation was obtained.
    ShieldAcquired(bool),
    /// Whether the kernel threads were moved off the reserved CPUs.
    KthreadsMoved(bool),
    /// The benchmark's payload, or `None` when it failed.
    Ran(Option<Vec<u8>>),
    Persisted,
    Released,
}

#[derive(Debug, Clone, Copy, PartialEq, Eq, Structural)]
pub enum Phase {
    Start,
    Installing,
    Acquiring,
    Relocating,
    Running,
    Persisting,
    Releasing,
    Done,
}

/// Whether a session in `phase` takes `event` next.
pub open spec fn accepts_spec(phase: Phase, event: Event) -> bool {
    match event {
        Event::Start => phase == Phase::Start,
        Event::Installed(_) => phase == Phase::Installing,
        Event::ShieldAcquired(_) => phase == Phase::Acquiring,
        Event::KthreadsMoved(_) => phase == Phase::Relocating,
        Event::Ran(_) => phase == Phase::Running,
        Event::Persisted => phase == Phase::Persisting,
        Event::Released => phase == Phase::Releasing,
    }
}

/// The decisions of one measuring session: which toolchain to install, which
/// benchmarks are still owed, when to reserve and release CPUs, what to record,
/// and when to stop. Toolchains are taken in plan order; a failed install, an
/// unavailable shield, or (unless `keep_going`) a failed benchmark ends it.
pub struct Session {
    pub toolchains: Vec<Toolchain>,
    pub names: Vec<String>,
    pub collector: Collector,
    pub shielded: bool,
    pub move_kthreads: bool,
    pub keep_going: bool,
    pub ti: usize,
    pub label: String,
    pub queue: Vec<String>,
    pub qi: usize,
    pub phase: Phase,
    pub shield_held: bool,
    pub unsaved: Option<Record>,
    pub failure: Option<Error>,
    pub install_known: Ghost<Set<Key>>,
}

fn copy_error(e: &Error) -> (r: Error)
    ensures
        r == *e,
{
    match e {
        Error::Config => Error::Config,
        Error::ShieldUnavailable => Error::ShieldUnavailable,
        Error::Install(t) => Error::Install(copy_toolchain(t)),
        Error::BenchmarkExecution(b) => Error::BenchmarkExecution(b.clone()),
        Error::StoreCorrupt => Error::StoreCorrupt,
    }
}

fn copy_bytes(v: &Vec<u8>) -> (r: Vec<u8>)
    ensures
        r@ == v@,
{
    let mut out: Vec<u8> = Vec::new();
    let mut i: usize = 0;
    while i < v.len()
        invariant
            i <= v@.len(),
            out@ == v@.subrange(0, i as int),
        decreases v.len() - i,
    {
        out.push(v[i]);
        i = i + 1;
        proof {
            assert(out@ =~= v@.subrange(0, i as int));
        }
    }
    proof {
        assert(out@ =~= v@);
    }
    out
}

/// The benchmarks that a session owes under a toolchain are pairwise distinct.
pub proof fn lemma_pending_distinct(label: Seq<char>, names: Seq<Seq<char>>, known: Set<Key>)
    ensures
        forall|i: int, j: int|
            0 <= i < j < pending(label, names, known).len() ==> #[trigger] pending(
                label,
                names,
                known,
            )[i] != #[trigger] pending(label, names, known)[j],
    decreases names.len(),
{
    if names.len() > 0 {
        let x = names[0];
        if known.contains((label, x)) {
            lemma_pending_distinct(label, names.drop_first(), known);
            assert(pending(label, names, known) == pending(label, names.drop_first(), known));
        } else {
            let known1 = known.insert((label, x));
            lemma_pending_distinct(label, names.drop_first(), known1);
            lemma_pending_not_recorded(label, names.drop_first(), known1);
            let q = pending(label, names.drop_first(), known1);
            let p = pending(label, names, known);
            assert(p == seq![x] + q);
            assert forall|i: int, j: int| 0 <= i < j < p.len() implies #[trigger] p[i]
                != #[trigger] p[j] by {
                assert(p[j] == q[j - 1]);
                if i == 0 {
                    assert(!known1.contains((label, q[j - 1])));
                } else {
                    assert(p[i] == q[i - 1]);
                }
            }
        }
    }
}

/// The benchmark at position `i` of what a session owes is recorded neither
/// before the session nor by the runs before it.
pub proof fn lemma_pending_fresh(label: Seq<char>, names: Seq<Seq<char>>, known: Set<Key>, i: int)
    requires
        0 <= i < pending(label, names, known).len(),
    ensures
        !with_done(known, label, pending(label, names, known).take(i)).contains(
            (label, pending(label, names, known)[i]),
        ),
{
    let p = pending(label, names, known);
    lemma_pending_not_recorded(label, names, known);
    lemma_pending_distinct(label, names, known);
    if p.take(i).contains(p[i]) {
        let j = choose|j: int| 0 <= j < p.take(i).len() && #[trigger] p.take(i)[j] == p[i];
        assert(p[j] == p[i]);
    }
}

/// How a session starts the toolchain at index `i` of `ts`: it installs it by
/// its label; past the last toolchain it finishes with success; a toolchain
/// without a label cannot be installed.
pub open spec fn starts_toolchain(ts: Seq<Toolchain>, i: int, r: Action) -> bool {
    if i >= ts.len() {
        r == Action::Finish(Ok(()))
    } else {
        match spec_label(ts[i]) {
            Some(l) => r matches Action::Install(x) && x@ == l,
            None => r == Action::Finish(Err(Error::Install(ts[i]))),
        }
    }
}

/// How a session moves on once the first `qi` benchmarks of `queue`, what it
/// owes under toolchain `ti`, are done: it takes the next one (reserving the
/// CPUs first when shielded), or starts the next toolchain. `next_ti` is the
/// toolchain index afterwards.
pub open spec fn moves_on(
    ts: Seq<Toolchain>,
    ti: int,
    label: Seq<char>,
    queue: Seq<Seq<char>>,
    qi: int,
    shielded: bool,
    r: Action,
    next_ti: int,
) -> bool {
    if qi < queue.len() {
        next_ti == ti && if shielded {
            r is AcquireShield
        } else {
            r matches Action::Run(t, b) && t@ == label && b@ == queue[qi]
        }
    } else {
        next_ti == ti + 1 && starts_toolchain(ts, ti + 1, r)
    }
}

impl Session {
    pub open spec fn in_toolchain(&self) -> bool {
        self.phase != Phase::Start && self.phase != Phase::Done
    }

    pub open spec fn in_benchmark(&self) -> bool {
        self.phase == Phase::Acquiring || self.phase == Phase::Relocating || self.phase
            == Phase::Running || self.phase == Phase::Persisting || self.phase == Phase::Releasing
    }

    pub open spec fn wf(&self) -> bool {
        &&& self.collector.wf()
        &&& self.ti <= self.toolchains@.len()
        &&& self.qi <= self.queue@.len()
        &&& self.phase == Phase::Start ==> self.ti == 0
        &&& self.in_toolchain() ==> self.ti < self.toolchains@.len() && spec_label(
            self.toolchains@[self.ti as int],
        ) == Some(self.label@)
        &&& (self.phase == Phase::Done && self.failure is None) ==> self.ti
            == self.toolchains@.len()
        &&& (self.phase != Phase::Done && self.phase != Phase::Releasing) ==> self.failure is None
        &&& self.phase == Phase::Done ==> !self.shield_held
        &&& self.phase == Phase::Acquiring ==> self.shielded
        &&& self.in_benchmark() ==> name_views(self.queue@) == pending(
            self.label@,
            name_views(self.names@),
            self.install_known@,
        )
        &&& self.in_benchmark() ==> self.collector.known() == with_done(
            self.install_known@,
            self.label@,
            name_views(self.queue@).take(self.qi as int),
        )
        &&& (self.phase == Phase::Acquiring || self.phase == Phase::Relocating || self.phase
            == Phase::Running || self.phase == Phase::Persisting) ==> self.qi < self.queue@.len()
        &&& self.phase == Phase::Relocating ==> self.shield_held && self.move_kthreads
        &&& (self.phase == Phase::Running || self.phase == Phase::Persisting) && self.shielded
            ==> self.shield_held
        &&& self.shield_held ==> self.shielded && (self.phase == Phase::Relocating || self.phase
            == Phase::Running || self.phase == Phase::Persisting || self.phase == Phase::Releasing)
        &&& (self.phase == Phase::Persisting) == (self.unsaved is Some)
        &&& self.unsaved matches Some(rec) ==> rec.toolchain@ == self.label@ && rec.benchmark@
            == self.queue@[self.qi as int]@
    }

    /// A session over `plan` that resumes from what `collector` has recorded.
    /// With `shielded`, each benchmark runs inside its own CPU reservation;
    /// with `move_kthreads` too, kernel threads are asked to leave those CPUs.
    pub fn new(
        plan: RunPlan,
        collector: Collector,
        shielded: bool,
        move_kthreads: bool,
        keep_going: bool,
    ) -> (r: Session)
        requires
            collector.wf(),
        ensures
            r.wf(),
            r.phase == Phase::Start,
            r.ti == 0,
            !r.shield_held,
            r.toolchains@ == plan.toolchains@,
            r.collector == collector,
            r.shielded == shielded,
            r.move_kthreads == move_kthreads,
            r.keep_going == keep_going,
            r.names@.len() == plan.benchmarks@.len(),
            forall|i: int| 0 <= i < r.names@.len() ==> #[trigger] r.names@[i] == plan.benchmarks@[i].name,
    {
        let mut names: Vec<String> = Vec::new();
        let mut i: usize = 0;
        while i < plan.benchmarks.len()
            invariant
                i <= plan.benchmarks@.len(),
                names@.len() == i,
                forall|j: int| 0 <= j < i ==> #[trigger] names@[j] == plan.benchmarks@[j].name,
            decreases plan.benchmarks.len() - i,
        {
            names.push(plan.benchmarks[i].name.clone());
            i = i + 1;
        }
        let label = String::new();
        let queue: Vec<String> = Vec::new();
        Session {
            toolchains: plan.toolchains,
            names,
            collector,
            shielded,
            move_kthreads,
            keep_going,
            ti: 0,
            label,
            queue,
            qi: 0,
            phase: Phase::Start,
            shield_held: false,
            unsaved: None,
            failure: None,
            install_known: Ghost(Set::empty()),
        }
    }

    /// Whether the session takes `event` in its present phase.
    pub fn accepts(&self, event: &Event) -> (r: bool)
        ensures
            r == accepts_spec(self.phase, *event),
    {
        match event {
            Event::Start => self.phase == Phase::Start,
            Event::Installed(_) => self.phase == Phase::Installing,
            Event::ShieldAcquired(_) => self.phase == Phase::Acquiring,
            Event::KthreadsMoved(_) => self.phase == Phase::Relocating,
            Event::Ran(_) => self.phase == Phase::Running,
            Event::Persisted => self.phase == Phase::Persisting,
            Event::Released => self.phase == Phase::Releasing,
        }
    }

    /// Starts the toolchain at `ti`, or ends the session after the last.
    fn begin_toolchain(&mut self) -> (r: Action)
        requires
            old(self).collector.wf(),
            old(self).ti <= old(self).toolchains@.len(),
            old(self).qi <= old(self).queue@.len(),
            old(self).ti == 0 || old(self).phase == Phase::Done,
            !old(self).shield_held,
            old(self).unsaved is None,
            old(self).failure is None,
        ensures
            final(self).wf(),
            !final(self).shield_held,
            starts_toolchain(old(self).toolchains@, old(self).ti as int, r),
            final(self).ti == old(self).ti,
            final(self).collector == old(self).collector,
            final(self).toolchains == old(self).toolchains,
            final(self).names == old(self).names,
            final(self).shielded == old(self).shielded,
            final(self).move_kthreads == old(self).move_kthreads,
            final(self).keep_going == old(self).keep_going,
            r is Finish <==> final(self).phase == Phase::Done,
            r is Install <==> final(self).phase == Phase::Installing,
            r is Install || r is Finish,
    {
        if self.ti < self.toolchains.len() {
            match self.toolchains[self.ti].label() {
                Some(l) => {
                    self.label = l.clone();
                    self.phase = Phase::Installing;
                    Action::Install(l)
                },
                None => {
                    self.phase = Phase::Done;
                    let t = copy_toolchain(&self.toolchains[self.ti]);
                    self.failure = Some(Error::Install(t));
                    Action::Finish(Err(Error::Install(copy_toolchain(&self.toolchains[self.ti]))))
                },
            }
        } else {
            self.phase = Phase::Done;
            Action::Finish(Ok(()))
        }
    }

    /// Moves on to the next owed benchmark of the current toolchain, or to
    /// the next toolchain once none is owed.
    fn next_benchmark(&mut self) -> (r: Action)
        requires
            old(self).wf(),
            old(self).in_toolchain(),
            !old(self).shield_held,
            old(self).unsaved is None,
            old(self).failure is None,
            name_views(old(self).queue@) == pending(
                old(self).label@,
                name_views(old(self).names@),
                old(self).install_known@,
            ),
            old(self).collector.known() == with_done(
                old(self).install_known@,
                old(self).label@,
                name_views(old(self).queue@).take(old(self).qi as int),
            ),
        ensures
            final(self).wf(),
            !final(self).shield_held,
            moves_on(
                old(self).toolchains@,
                old(self).ti as int,
                old(self).label@,
                name_views(old(self).queue@),
                old(self).qi as int,
                old(self).shielded,
                r,
                final(self).ti as int,
            ),
            final(self).collector == old(self).collector,
            final(self).toolchains == old(self).toolchains,
            final(self).names == old(self).names,
            final(self).shielded == old(self).shielded,
            final(self).move_kthreads == old(self).move_kthreads,
            final(self).keep_going == old(self).keep_going,
            r is Finish <==> final(self).phase == Phase::Done,
            r is AcquireShield ==> final(self).phase == Phase::Acquiring,
            r is Install ==> final(self).phase == Phase::Installing,
            r is Run ==> final(self).phase == Phase::Running,
            (r is Run || r is AcquireShield) ==> final(self).label == old(self).label
                && final(self).queue == old(self).queue && final(self).qi == old(self).qi,
            r is Run || r is AcquireShield || r is Install || r is Finish,
    {
        if self.qi < self.queue.len() {
            if self.shielded {
                self.phase = Phase::Acquiring;
                Action::AcquireShield
            } else {
                self.phase = Phase::Running;
                Action::Run(self.label.clone(), self.queue[self.qi].clone())
            }
        } else {
            self.phase = Phase::Done;
            if self.ti < self.toolchains.len() {
                self.ti = self.ti + 1;
            }
            self.begin_toolchain()
        }
    }

    /// Takes the driver's report of the last action and decides the next one.
    pub fn step(&mut self, event: Event) -> (r: Action)
        requires
            old(self).wf(),
            accepts_spec(old(self).phase, event),
        ensures
            final(self).wf(),
            final(self).toolchains == old(self).toolchains,
            final(self).names == old(self).names,
            final(self).shielded == old(self).shielded,
            final(self).move_kthreads == old(self).move_kthreads,
            final(self).keep_going == old(self).keep_going,
            r is Finish ==> final(self).phase == Phase::Done && !final(self).shield_held,
            (r is Finish && r->Finish_0 is Ok) ==> final(self).ti == final(self).toolchains@.len(),
            r is Install ==> !final(self).shield_held && final(self).phase == Phase::Installing
                && spec_label(final(self).toolchains@[final(self).ti as int]) == Some(
                r->Install_0@,
            ),
            r is AcquireShield ==> final(self).shielded && final(self).phase == Phase::Acquiring,
            r is Run ==> final(self).phase == Phase::Running && (final(self).shielded
                ==> final(self).shield_held),
            r is Persist ==> final(self).phase == Phase::Persisting,
            old(self).shield_held && !final(self).shield_held ==> event is Released,
            old(self).shield_held && (event is Ran || event is Persisted) ==> (r is Persist
                || r is ReleaseShield),
            r matches Action::Run(t, b) ==> t@ == final(self).label@ && final(self).qi < final(
                self).queue@.len() && b@ == final(self).queue@[final(self).qi as int]@,
            r matches Action::Run(t, b) ==> !final(self).collector.known().contains((t@, b@)),
            r matches Action::Persist(rec) ==> !final(self).collector.known().contains(
                key_of(rec),
            ),
            event is Start ==> final(self).ti == 0 && starts_toolchain(old(self).toolchains@, 0, r),
            (event is Installed && event->Installed_0) ==> moves_on(
                old(self).toolchains@,
                old(self).ti as int,
                old(self).label@,
                pending(old(self).label@, name_views(old(self).names@), old(self).collector.known()),
                0,
                old(self).shielded,
                r,
                final(self).ti as int,
            ),
            (event is Installed && !event->Installed_0) ==> r == Action::Finish(
                Err(Error::Install(old(self).toolchains@[old(self).ti as int])),
            ),
            (event is ShieldAcquired && !event->ShieldAcquired_0) ==> r == Action::Finish(
                Err(Error::ShieldUnavailable),
            ),
            (event is ShieldAcquired && event->ShieldAcquired_0) ==> final(self).shield_held && (
            if old(self).move_kthreads {
                r is MoveKthreads
            } else {
                r == Action::Run(old(self).label, old(self).queue@[old(self).qi as int])
            }),
            r is MoveKthreads ==> final(self).shield_held && final(self).move_kthreads,
            event is KthreadsMoved ==> r == Action::Run(
                old(self).label,
                old(self).queue@[old(self).qi as int],
            ) && final(self).shield_held && final(self).ti == old(self).ti && final(self).qi
                == old(self).qi && final(self).collector == old(self).collector
                && final(self).failure == old(self).failure,
            (event is Ran && (event->Ran_0 is Some || old(self).keep_going)) ==> (
            r matches Action::Persist(rec) && rec.toolchain@ == old(self).label@ && rec.benchmark@
                == old(self).queue@[old(self).qi as int]@ && rec.success == (event->Ran_0 is Some)
                && (event->Ran_0 matches Some(p) ==> rec.payload@ == p@) && (event->Ran_0 is None
                ==> rec.payload@.len() == 0)),
            (event is Ran && event->Ran_0 is None && !old(self).keep_going) ==> (final(self).failure
                == Some(Error::BenchmarkExecution(old(self).queue@[old(self).qi as int])) && (
            if old(self).shield_held {
                r is ReleaseShield
            } else {
                r == Action::Finish(
                    Err(Error::BenchmarkExecution(old(self).queue@[old(self).qi as int])),
                )
            })),
            event is Persisted ==> final(self).collector.view_records() == spec_after_record(
                old(self).collector.view_records(),
                old(self).unsaved->Some_0,
            ) && !old(self).collector.known().contains(key_of(old(self).unsaved->Some_0))
                && final(self).collector.known() == old(self).collector.known().insert(
                key_of(old(self).unsaved->Some_0),
            ),
            (event is Persisted && old(self).shield_held) ==> r is ReleaseShield && final(self).qi
                == old(self).qi + 1,
            (event is Persisted && !old(self).shield_held) ==> moves_on(
                old(self).toolchains@,
                old(self).ti as int,
                old(self).label@,
                name_views(old(self).queue@),
                old(self).qi + 1,
                old(self).shielded,
                r,
                final(self).ti as int,
            ),
            (event is Released && old(self).failure is None) ==> moves_on(
                old(self).toolchains@,
                old(self).ti as int,
                old(self).label@,
                name_views(old(self).queue@),
                old(self).qi as int,
                old(self).shielded,
                r,
                final(self).ti as int,
            ),
            (event is Released && old(self).failure is Some) ==> r == Action::Finish(
                Err(old(self).failure->Some_0),
            ),
            !(event is Persisted) ==> final(self).collector == old(self).collector,
    {
        let r = self.step_inner(event);
        proof {
            if r is Run || r is Persist {
                lemma_pending_fresh(
                    self.label@,
                    name_views(self.names@),
                    self.install_known@,
                    self.qi as int,
                );
            }
        }
        r
    }

    fn step_inner(&mut self, event: Event) -> (r: Action)
        requires
            old(self).wf(),
            accepts_spec(old(self).phase, event),
        ensures
            final(self).wf(),
            final(self).toolchains == old(self).toolchains,
            final(self).names == old(self).names,
            final(self).shielded == old(self).shielded,
            final(self).move_kthreads == old(self).move_kthreads,
            final(self).keep_going == old(self).keep_going,
            r is Finish ==> final(self).phase == Phase::Done && !final(self).shield_held,
            (r is Finish && r->Finish_0 is Ok) ==> final(self).ti == final(self).toolchains@.len(),
            r is Install ==> !final(self).shield_held && final(self).phase == Phase::Installing
                && spec_label(final(self).toolchains@[final(self).ti as int]) == Some(
                r->Install_0@,
            ),
            r is AcquireShield ==> final(self).shielded && final(self).phase == Phase::Acquiring,
            r is Run ==> final(self).phase == Phase::Running && (final(self).shielded
                ==> final(self).shield_held),
            r is Persist ==> final(self).phase == Phase::Persisting,
            old(self).shield_held && !final(self).shield_held ==> event is Released,
            old(self).shield_held && (event is Ran || event is Persisted) ==> (r is Persist
                || r is ReleaseShield),
            r matches Action::Run(t, b) ==> t@ == final(self).label@ && final(self).qi < final(
                self).queue@.len() && b@ == final(self).queue@[final(self).qi as int]@,
            event is Ran ==> final(self).label == old(self).label && final(self).queue == old(
                self).queue && final(self).qi == old(self).qi && final(self).install_known
                == old(self).install_known,
            event is Start ==> final(self).ti == 0 && starts_toolchain(old(self).toolchains@, 0, r),
            (event is Installed && event->Installed_0) ==> moves_on(
                old(self).toolchains@,
                old(self).ti as int,
                old(self).label@,
                pending(old(self).label@, name_views(old(self).names@), old(self).collector.known()),
                0,
                old(self).shielded,
                r,
                final(self).ti as int,
            ),
            (event is Installed && !event->Installed_0) ==> r == Action::Finish(
                Err(Error::Install(old(self).toolchains@[old(self).ti as int])),
            ),
            (event is ShieldAcquired && !event->ShieldAcquired_0) ==> r == Action::Finish(
                Err(Error::ShieldUnavailable),
            ),
            (event is ShieldAcquired && event->ShieldAcquired_0) ==> final(self).shield_held && (
            if old(self).move_kthreads {
                r is MoveKthreads
            } else {
                r == Action::Run(old(self).label, old(self).queue@[old(self).qi as int])
            }),
            r is MoveKthreads ==> final(self).shield_held && final(self).move_kthreads,
            event is KthreadsMoved ==> r == Action::Run(
                old(self).label,
                old(self).queue@[old(self).qi as int],
            ) && final(self).shield_held && final(self).ti == old(self).ti && final(self).qi
                == old(self).qi && final(self).collector == old(self).collector
                && final(self).failure == old(self).failure,
            (event is Ran && (event->Ran_0 is Some || old(self).keep_going)) ==> (
            r matches Action::Persist(rec) && rec.toolchain@ == old(self).label@ && rec.benchmark@
                == old(self).queue@[old(self).qi as int]@ && rec.success == (event->Ran_0 is Some)
                && (event->Ran_0 matches Some(p) ==> rec.payload@ == p@) && (event->Ran_0 is None
                ==> rec.payload@.len() == 0)),
            (event is Ran && event->Ran_0 is None && !old(self).keep_going) ==> (final(self).failure
                == Some(Error::BenchmarkExecution(old(self).queue@[old(self).qi as int])) && (
            if old(self).shield_held {
                r is ReleaseShield
            } else {
                r == Action::Finish(
                    Err(Error::BenchmarkExecution(old(self).queue@[old(self).qi as int])),
                )
            })),
            event is Persisted ==> final(self).collector.view_records() == spec_after_record(
                old(self).collector.view_records(),
                old(self).unsaved->Some_0,
            ) && !old(self).collector.known().contains(key_of(old(self).unsaved->Some_0))
                && final(self).collector.known() == old(self).collector.known().insert(
                key_of(old(self).unsaved->Some_0),
            ),
            (event is Persisted && old(self).shield_held) ==> r is ReleaseShield && final(self).qi
                == old(self).qi + 1,
            (event is Persisted && !old(self).shield_held) ==> moves_on(
                old(self).toolchains@,
                old(self).ti as int,
                old(self).label@,
                name_views(old(self).queue@),
                old(self).qi + 1,
                old(self).shielded,
                r,
                final(self).ti as int,
            ),
            (event is Released && old(self).failure is None) ==> moves_on(
                old(self).toolchains@,
                old(self).ti as int,
                old(self).label@,
                name_views(old(self).queue@),
                old(self).qi as int,
                old(self).shielded,
                r,
                final(self).ti as int,
            ),
            (event is Released && old(self).failure is Some) ==> r == Action::Finish(
                Err(old(self).failure->Some_0),
            ),
            !(event is Persisted) ==> final(self).collector == old(self).collector,
    {
        match event {
            Event::Start => self.begin_toolchain(),

            Event::Installed(ok) => {
                if ok {
                    self.queue = remaining_benchmarks(&self.collector, &self.label, &self.names);
                    self.qi = 0;
                    self.install_known = Ghost(self.collector.known());
                    proof {
                        assert(with_done(
                            self.install_known@,
                            self.label@,
                            name_views(self.queue@).take(0),
                        ) =~= self.collector.known());
                    }
                    self.next_benchmark()
                } else {
                    self.phase = Phase::Done;
                    self.failure = Some(Error::Install(copy_toolchain(&self.toolchains[self.ti])));
                    Action::Finish(Err(Error::Install(copy_toolchain(&self.toolchains[self.ti]))))
                }
            },
            Event::ShieldAcquired(ok) => {
                if ok {
                    self.shield_held = true;
                    if self.move_kthreads {
                        self.phase = Phase::Relocating;
                        Action::MoveKthreads
                    } else {
                        self.phase = Phase::Running;
                        Action::Run(self.label.clone(), self.queue[self.qi].clone())
                    }
                } else {
                    self.phase = Phase::Done;
                    self.failure = Some(Error::ShieldUnavailable);
                    Action::Finish(Err(Error::ShieldUnavailable))
                }
            },
            Event::KthreadsMoved(_) => {
                self.phase = Phase::Running;
                Action::Run(self.label.clone(), self.queue[self.qi].clone())
            },
            Event::Ran(out) => {
                let name = self.queue[self.qi].clone();
                match out {
                    Some(p) => {
                        let kept = Record {
                            toolchain: self.label.clone(),
                            benchmark: name.clone(),
                            success: true,
                            payload: copy_bytes(&p),
                        };
                        self.unsaved = Some(kept);
                        self.phase = Phase::Persisting;
                        Action::Persist(
                            Record { toolchain: self.label.clone(), benchmark: name, success: true, payload: p },
                        )
                    },
                    None => {
                        if self.keep_going {
                            let kept = Record {
                                toolchain: self.label.clone(),
                                benchmark: name.clone(),
                                success: false,
                                payload: Vec::new(),
                            };
                            self.unsaved = Some(kept);
                            self.phase = Phase::Persisting;
                            Action::Persist(
                                Record {
                                    toolchain: self.label.clone(),
                                    benchmark: name,
                                    success: false,
                                    payload: Vec::new(),
                                },
                            )
                        } else {
                            self.failure = Some(Error::BenchmarkExecution(name.clone()));
                            if self.shield_held {
                                self.phase = Phase::Releasing;
                                Action::ReleaseShield
                            } else {
                                self.phase = Phase::Done;
                                Action::Finish(Err(Error::BenchmarkExecution(name)))
                            }
                        }
                    },
                }
            },
            Event::Persisted => {
                let ghost nv = name_views(self.queue@);
                let ghost k0 = self.install_known@;
                proof {
                    lemma_pending_fresh(self.label@, name_views(self.names@), k0, self.qi as int);
                }
                let u = self.unsaved.take();
                match u {
                    Some(rec) => {
                        self.collector.record(rec);
                    },
                    None => {},
                }
                proof {
                    let l = self.label@;
                    let x = nv[self.qi as int];
                    let before = nv.take(self.qi as int);
                    let after = nv.take(self.qi + 1);
                    assert(after =~= before.push(x));
                    assert forall|k: Key| #[trigger] with_done(k0, l, after).contains(k) == with_done(
                        k0,
                        l,
                        before,
                    ).insert((l, x)).contains(k) by {
                        if before.contains(k.1) {
                            let j = choose|j: int| 0 <= j < before.len() && before[j] == k.1;
                            assert(after[j] == k.1);
                        }
                        if after.contains(k.1) {
                            let j = choose|j: int| 0 <= j < after.len() && after[j] == k.1;
                            if j < before.len() {
                                assert(before[j] == k.1);
                            }
                        }
                        assert(after[self.qi as int] == x);
                    }
                    assert(with_done(k0, l, after) =~= with_done(k0, l, before).insert((l, x)));
                }
                if self.qi < self.queue.len() {
                    self.qi = self.qi + 1;
                }
                if self.shield_held {
                    self.phase = Phase::Releasing;
                    Action::ReleaseShield
                } else {
                    self.phase = Phase::Installing;
                    self.next_benchmark()
                }
            },
            Event::Released => {
                self.shield_held = false;
                match &self.failure {
                    Some(e) => {
                        let e2 = copy_error(e);
                        self.phase = Phase::Done;
                        Action::Finish(Err(e2))
                    },
                    None => self.next_benchmark(),
                }
            },
        }
    }

}

} // verus!
