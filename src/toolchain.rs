use vstd::prelude::*;
use crate::date::{Date, iso_text_of};
use crate::error::Error;

verus! {

/// Which toolchains a session measures: one named toolchain, or the nightly
/// of every day from `start` to `end`, both included.
#[derive(Debug, Clone)]
pub enum ToolchainSpec {
    Single(String),
    Range(Date, Date),
}

/// A resolved, installable toolchain: a named channel (`stable`, `beta`, ...)
/// or the nightly build of one day.
#[derive(Debug, Clone, PartialEq, Eq)]
pub enum Toolchain {
    Named(String),
    Nightly(Date),
}

/// The selection rule: exactly one of a toolchain name and a first nightly
/// date must be given; a range of nightlies ends at `today`.
pub open spec fn spec_selection(single: Option<String>, since: Option<Date>, today: Date) -> Result<
    ToolchainSpec,
    Error,
> {
    match (single, since) {
        (Some(name), None) => Ok(ToolchainSpec::Single(name)),
        (None, Some(start)) => Ok(ToolchainSpec::Range(start, today)),
        _ => Err(Error::Config),
    }
}

/// Number of days from `start` to `end`, both included (zero when `end` comes first).
pub open spec fn range_len(start: Date, end: Date) -> nat {
    if start.day <= end.day {
        (end.day - start.day + 1) as nat
    } else {
        0
    }
}

/// The toolchains that a selection stands for, in the order they are measured.
pub open spec fn spec_toolchains(spec: ToolchainSpec) -> Seq<Toolchain> {
    match spec {
        ToolchainSpec::Single(name) => seq![Toolchain::Named(name)],
        ToolchainSpec::Range(start, end) => Seq::new(
            range_len(start, end),
            |i: int| Toolchain::Nightly(Date { day: (start.day + i) as i32 }),
        ),
    }
}

/// The text by which a toolchain is installed and by which its results are
/// keyed: the channel's name, or `nightly-` followed by the ISO date.
pub open spec fn spec_label(t: Toolchain) -> Option<Seq<char>> {
    match t {
        Toolchain::Named(name) => Some(name@),
        Toolchain::Nightly(d) => match iso_text_of(d.day as int) {
            Some(s) => Some("nightly-"@ + s),
            None => None,
        },
    }
}

/// Giving both a toolchain name and a first nightly date, or neither, is
/// always a configuration error.
pub proof fn lemma_selection_needs_exactly_one(
    single: Option<String>,
    since: Option<Date>,
    today: Date,
)
    requires
        (single is Some) == (since is Some),
    ensures
        spec_selection(single, since, today) == Err::<ToolchainSpec, Error>(Error::Config),
{
}

impl ToolchainSpec {
    /// Builds the selection from the two optional inputs; giving both or
    /// neither is a configuration error.
    pub fn from_selection(single: Option<String>, since: Option<Date>, today: Date) -> (r: Result<
        ToolchainSpec,
        Error,
    >)
        ensures
            r == spec_selection(single, since, today),
    {
        match (single, since) {
            (Some(name), None) => Ok(ToolchainSpec::Single(name)),
            (None, Some(start)) => Ok(ToolchainSpec::Range(start, today)),
            _ => Err(Error::Config),
        }
    }
}

/// Expands a selection into its ordered sequence of toolchains.
pub fn resolve_toolchains(spec: &ToolchainSpec) -> (r: Vec<Toolchain>)
    ensures
        r@ == spec_toolchains(*spec),
{
    match spec {
        ToolchainSpec::Single(name) => {
            let mut v: Vec<Toolchain> = Vec::new();
            v.push(Toolchain::Named(name.clone()));
            proof {
                assert(v@ =~= spec_toolchains(*spec));
            }
            v
        },
        ToolchainSpec::Range(start, end) => {
            let mut v: Vec<Toolchain> = Vec::new();
            let mut d: i64 = start.day as i64;
            while d <= end.day as i64
                invariant
                    start.day <= d <= end.day as int + 1 || (d == start.day && start.day > end.day),
                    v@.len() == d - start.day,
                    forall|i: int|
                        0 <= i < v@.len() ==> v@[i] == Toolchain::Nightly(
                            Date { day: (start.day + i) as i32 },
                        ),
                decreases end.day + 1 - d,
            {
                v.push(Toolchain::Nightly(Date { day: d as i32 }));
                d = d + 1;
            }
            proof {
                assert(v@ =~= spec_toolchains(*spec));
            }
            v
        },
    }
}

/// Every range of nightlies resolves to the ascending daily sequence from its
/// first day to its last, both included, with no gaps and no repeats.
pub proof fn lemma_range_is_daily_sequence(start: Date, end: Date)
    requires
        start.day <= end.day,
    ensures
        spec_toolchains(ToolchainSpec::Range(start, end)).len() == end.day - start.day + 1,
        spec_toolchains(ToolchainSpec::Range(start, end))[0] == Toolchain::Nightly(start),
        spec_toolchains(ToolchainSpec::Range(start, end)).last() == Toolchain::Nightly(end),
        forall|i: int|
            0 <= i <= end.day - start.day ==> #[trigger] spec_toolchains(
                ToolchainSpec::Range(start, end),
            )[i] == Toolchain::Nightly(Date { day: (start.day + i) as i32 }),
{
}

pub(crate) fn copy_toolchain(t: &Toolchain) -> (r: Toolchain)
    ensures
        r == *t,
{
    match t {
        Toolchain::Named(name) => Toolchain::Named(name.clone()),
        Toolchain::Nightly(d) => Toolchain::Nightly(*d),
    }
}

impl Toolchain {
    /// The toolchain's label; `None` only for a nightly whose day lies outside
    /// the calendar that dates can be written in.
    pub fn label(&self) -> (r: Option<String>)
        ensures
            r matches Some(s) ==> spec_label(*self) == Some(s@),
            r is None ==> spec_label(*self) is None,
    {
        match self {
            Toolchain::Named(name) => Some(name.clone()),
            Toolchain::Nightly(d) => match d.iso_text() {
                Some(s) => {
                    let prefix = String::from_str("nightly-");
                    Some(prefix.concat(s.as_str()))
                },
                None => None,
            },
        }
    }
}

} // verus!
