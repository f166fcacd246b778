use vstd::prelude::*;
use crate::error::Error;
use vstd::string::StringSliceAdditionalSpecFns;

verus! {

/// A CPU id in a mask is read as at most this value: a larger id names no
/// CPU of any host (a CPU count is a `u32`), and so does this one.
pub const ID_BOUND: u64 = 4_294_967_296;

/// Where reading a CPU mask stands after a prefix of it: the ranges closed so
/// far, the first id of an open range (after `-`), and the id being read with
/// whether any of its digits was read.
pub struct MaskScan {
    pub ranges: Seq<(nat, nat)>,
    pub first: Option<nat>,
    pub cur: nat,
    pub seen: bool,
}

pub open spec fn is_digit(c: u8) -> bool {
    48 <= c <= 57
}

/// Closes the item being read: a single id, or a range whose first id is not
/// above its last. `None` when no id was read or the range runs backwards.
pub open spec fn close_item(st: MaskScan) -> Option<Seq<(nat, nat)>> {
    if !st.seen {
        None
    } else {
        match st.first {
            None => Some(st.ranges.push((st.cur, st.cur))),
            Some(f) => if f <= st.cur {
                Some(st.ranges.push((f, st.cur)))
            } else {
                None
            },
        }
    }
}

/// Reads one more byte of a mask. An id is read up to `ID_BOUND`: any larger
/// id is read as `ID_BOUND`, which no host has.
pub open spec fn scan_byte(st: MaskScan, c: u8) -> Option<MaskScan> {
    if is_digit(c) {
        let next = st.cur * 10 + (c - 48) as nat;
        Some(MaskScan { cur: if next >= ID_BOUND { ID_BOUND as nat } else { next }, seen: true, ..st })
    } else if c == 45 {
        if st.seen && st.first is None {
            Some(MaskScan { first: Some(st.cur), cur: 0, seen: false, ..st })
        } else {
            None
        }
    } else if c == 44 {
        match close_item(st) {
            Some(rs) => Some(MaskScan { ranges: rs, first: None, cur: 0, seen: false }),
            None => None,
        }
    } else {
        None
    }
}

/// Reads the bytes of a mask from the left.
pub open spec fn scan_mask(s: Seq<u8>) -> Option<MaskScan>
    decreases s.len(),
{
    if s.len() == 0 {
        Some(MaskScan { ranges: Seq::empty(), first: None, cur: 0, seen: false })
    } else {
        match scan_mask(s.drop_last()) {
            Some(st) => scan_byte(st, s.last()),
            None => None,
        }
    }
}

/// The ranges that a mask names, `None` when it is not of the form
/// `item,item,...` where an item is an id (`4`) or a range of ids (`0-2`).
pub open spec fn mask_ranges(s: Seq<u8>) -> Option<Seq<(nat, nat)>> {
    match scan_mask(s) {
        Some(st) => close_item(st),
        None => None,
    }
}

/// The CPU ids that the ranges name, range by range, each in ascending order.
pub open spec fn cpus_of(rs: Seq<(nat, nat)>) -> Seq<nat>
    decreases rs.len(),
{
    if rs.len() == 0 {
        Seq::empty()
    } else {
        let last = rs.last();
        cpus_of(rs.drop_last()) + Seq::new((last.1 - last.0 + 1) as nat, |i: int| (last.0 + i) as nat)
    }
}

/// Whether every range stays below `n_cpus`.
pub open spec fn ranges_exist(rs: Seq<(nat, nat)>, n_cpus: nat) -> bool {
    forall|i: int| 0 <= i < rs.len() ==> (#[trigger] rs[i]).1 < n_cpus
}

/// The outcome of reading a mask on a host with `n_cpus` CPUs.
pub open spec fn spec_shield_cpus(s: Seq<u8>, n_cpus: nat) -> Result<Seq<nat>, Error> {
    match mask_ranges(s) {
        None => Err(Error::Config),
        Some(rs) => if ranges_exist(rs, n_cpus) {
            Ok(cpus_of(rs))
        } else {
            Err(Error::ShieldUnavailable)
        },
    }
}

struct ExecScan {
    ranges: Vec<(u64, u64)>,
    first: Option<u64>,
    cur: u64,
    seen: bool,
}

pub open spec fn ranges_view(v: Seq<(u64, u64)>) -> Seq<(nat, nat)> {
    v.map_values(|p: (u64, u64)| (p.0 as nat, p.1 as nat))
}

impl ExecScan {
    spec fn view_scan(&self) -> MaskScan {
        MaskScan {
            ranges: ranges_view(self.ranges@),
            first: match self.first {
                Some(f) => Some(f as nat),
                None => None,
            },
            cur: self.cur as nat,
            seen: self.seen,
        }
    }

    spec fn small(&self) -> bool {
        &&& self.cur <= ID_BOUND
        &&& self.first matches Some(f) ==> f <= ID_BOUND
        &&& forall|i: int| 0 <= i < self.ranges@.len() ==> (#[trigger] self.ranges@[i]).1 <= ID_BOUND
            && self.ranges@[i].0 <= self.ranges@[i].1
    }
}

fn exec_close_item(st: &ExecScan) -> (r: Option<Vec<(u64, u64)>>)
    requires
        st.small(),
    ensures
        r matches Some(v) ==> close_item(st.view_scan()) == Some(ranges_view(v@)) && forall|i: int|
            0 <= i < v@.len() ==> (#[trigger] v@[i]).1 <= ID_BOUND && v@[i].0 <= v@[i].1,
        r is None ==> close_item(st.view_scan()) is None,
{
    if !st.seen {
        return None;
    }
    let hi = st.cur;
    let lo = match st.first {
        None => hi,
        Some(f) => {
            if f > hi {
                return None;
            }
            f
        },
    };
    let mut v: Vec<(u64, u64)> = Vec::new();
    let mut i: usize = 0;
    while i < st.ranges.len()
        invariant
            i <= st.ranges@.len(),
            v@ == st.ranges@.subrange(0, i as int),
        decreases st.ranges.len() - i,
    {
        v.push(st.ranges[i]);
        i = i + 1;
        proof {
            assert(v@ =~= st.ranges@.subrange(0, i as int));
        }
    }
    v.push((lo, hi));
    proof {
        assert(st.ranges@.subrange(0, i as int) =~= st.ranges@);
        assert(ranges_view(v@) =~= ranges_view(st.ranges@).push((lo as nat, hi as nat)));
    }
    Some(v)
}

proof fn lemma_scan_none_extends(s: Seq<u8>, i: int)
    requires
        0 <= i <= s.len(),
        scan_mask(s.subrange(0, i)) is None,
    ensures
        scan_mask(s) is None,
    decreases s.len() - i,
{
    if i < s.len() {
        assert(s.subrange(0, i + 1).drop_last() =~= s.subrange(0, i));
        lemma_scan_none_extends(s, i + 1);
    } else {
        assert(s.subrange(0, i) =~= s);
    }
}

/// Reads a CPU mask (`0,1,2` or `0-2,4`) into its ranges of ids, first and
/// last included; `None` when the mask is malformed.
pub fn mask_ranges_of(bytes: &[u8]) -> (r: Option<Vec<(u64, u64)>>)
    ensures
        r matches Some(v) ==> mask_ranges(bytes@) == Some(ranges_view(v@)) && forall|i: int|
            0 <= i < v@.len() ==> (#[trigger] v@[i]).1 <= ID_BOUND && v@[i].0 <= v@[i].1,
        r is None ==> mask_ranges(bytes@) is None,
{
    let mut st = ExecScan { ranges: Vec::new(), first: None, cur: 0, seen: false };
    let mut i: usize = 0;
    proof {
        assert(bytes@.subrange(0, 0) =~= Seq::<u8>::empty());
        assert(st.view_scan().ranges =~= Seq::<(nat, nat)>::empty());
    }
    while i < bytes.len()
        invariant
            i <= bytes@.len(),
            st.small(),
            scan_mask(bytes@.subrange(0, i as int)) == Some(st.view_scan()),
        decreases bytes.len() - i,
    {
        let c = bytes[i];
        let ghost before = st.view_scan();
        proof {
            assert(bytes@.subrange(0, i + 1).drop_last() =~= bytes@.subrange(0, i as int));
            assert(bytes@.subrange(0, i + 1).last() == c);
        }
        if c >= 48 && c <= 57 {
            let next = st.cur * 10 + (c - 48) as u64;
            st.cur = if next >= ID_BOUND {
                ID_BOUND
            } else {
                next
            };
            st.seen = true;
        } else if c == 45 {
            if st.seen && st.first.is_none() {
                st.first = Some(st.cur);
                st.cur = 0;
                st.seen = false;
            } else {
                proof {
                    lemma_scan_none_extends(bytes@, i + 1);
                }
                return None;
            }
        } else if c == 44 {
            match exec_close_item(&st) {
                Some(v) => {
                    st = ExecScan { ranges: v, first: None, cur: 0, seen: false };
                },
                None => {
                    proof {
                        lemma_scan_none_extends(bytes@, i + 1);
                    }
                    return None;
                },
            }
        } else {
            proof {
                lemma_scan_none_extends(bytes@, i + 1);
            }
            return None;
        }
        proof {
            assert(scan_byte(before, c) == Some(st.view_scan()));
        }
        i = i + 1;
    }
    proof {
        assert(bytes@.subrange(0, i as int) =~= bytes@);
    }
    exec_close_item(&st)
}

pub open spec fn cpu_view(v: Seq<u32>) -> Seq<nat> {
    v.map_values(|c: u32| c as nat)
}

/// The CPUs that a shield reserves on a host with `n_cpus` CPUs: the ids that
/// `mask` names, range by range. A malformed mask is a configuration error; a
/// mask that names a CPU the host lacks makes the shield unavailable.
pub fn shield_cpus(mask: &str, n_cpus: u32) -> (r: Result<Vec<u32>, Error>)
    ensures
        r matches Ok(v) ==> spec_shield_cpus(mask.spec_bytes(), n_cpus as nat) == Ok::<
            Seq<nat>,
            Error,
        >(cpu_view(v@)),
        r matches Err(e) ==> spec_shield_cpus(mask.spec_bytes(), n_cpus as nat) == Err::<
            Seq<nat>,
            Error,
        >(e),
{
    let bytes = mask.as_bytes();
    let ranges = match mask_ranges_of(bytes) {
        None => {
            return Err(Error::Config);
        },
        Some(v) => v,
    };
    let ghost rv = ranges_view(ranges@);
    let mut out: Vec<u32> = Vec::new();
    let mut k: usize = 0;
    proof {
        assert(rv.subrange(0, 0) =~= Seq::<(nat, nat)>::empty());
        assert(cpu_view(out@) =~= Seq::<nat>::empty());
    }
    while k < ranges.len()
        invariant
            k <= ranges@.len(),
            rv == ranges_view(ranges@),
            mask_ranges(bytes@) == Some(rv),
            bytes@ == mask.spec_bytes(),
            forall|j: int| 0 <= j < k ==> (#[trigger] rv[j]).1 < n_cpus,
            cpu_view(out@) == cpus_of(rv.subrange(0, k as int)),
            forall|j: int| 0 <= j < ranges@.len() ==> (#[trigger] ranges@[j]).0 <= ranges@[j].1,
        decreases ranges.len() - k,
    {
        let (lo, hi) = ranges[k];
        if hi >= n_cpus as u64 {
            proof {
                assert(rv[k as int].1 >= n_cpus);
                assert(!ranges_exist(rv, n_cpus as nat));
                assert(bytes@ == mask.spec_bytes());
            }
            return Err(Error::ShieldUnavailable);
        }
        let ghost base = cpu_view(out@);
        let mut c: u64 = lo;
        proof {
            assert(base + Seq::new(0, |i: int| (lo + i) as nat) =~= base);
        }
        while c <= hi
            invariant
                lo <= c <= hi + 1,
                hi < n_cpus,
                cpu_view(out@) == base + Seq::new((c - lo) as nat, |i: int| (lo + i) as nat),
            decreases hi + 1 - c,
        {
            let ghost prev = out@;
            out.push(c as u32);
            proof {
                assert(cpu_view(out@) =~= cpu_view(prev).push(c as nat));
                assert(cpu_view(out@) =~= base + Seq::new((c + 1 - lo) as nat, |i: int| (lo + i) as nat));
            }
            c = c + 1;
        }
        proof {
            let sub = rv.subrange(0, k + 1);
            assert(sub.drop_last() =~= rv.subrange(0, k as int));
            assert(sub.last() == (lo as nat, hi as nat));
        }
        k = k + 1;
    }
    proof {
        assert(rv.subrange(0, k as int) =~= rv);
    }
    Ok(out)
}

} // verus!
