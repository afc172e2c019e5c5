use crate::text::{lemma_lex_total, lemma_lex_trans, lex_lt, push_decimal, push_str, str_eq, str_lt};
use vstd::prelude::*;

verus! {

/// One simulator as `simctl list` reports it.
#[derive(Debug)]
pub struct Device {
    pub udid: String,
    pub name: String,
    pub state: String,
    pub is_available: bool,
    pub device_type_identifier: Option<String>,
    pub runtime: String,
}

impl Clone for Device {
    fn clone(&self) -> (r: Self)
        ensures
            r == *self,
    {
        Device {
            udid: self.udid.clone(),
            name: self.name.clone(),
            state: self.state.clone(),
            is_available: self.is_available,
            device_type_identifier: match &self.device_type_identifier {
                Some(t) => Some(t.clone()),
                None => None,
            },
            runtime: self.runtime.clone(),
        }
    }
}

/// The devices whose UDID or name is `id`.
pub open spec fn matching(ds: Seq<Device>, id: Seq<char>) -> Seq<Device> {
    ds.filter(|d: Device| d.udid@ == id || d.name@ == id)
}

/// The devices that are booted.
pub open spec fn booted(ds: Seq<Device>) -> Seq<Device> {
    ds.filter(|d: Device| d.state@ == "Booted"@)
}

/// Why no single simulator could be chosen.
#[derive(Debug)]
pub enum SelectError {
    NoMatch(String),
    Ambiguous(String),
    Unspecified,
}

impl SelectError {
    /// The error as text.
    pub fn message(&self) -> (r: String)
        ensures
            match self {
                SelectError::NoMatch(id) => r@ == "No available iOS simulator matches "@ + id@,
                SelectError::Ambiguous(id) => r@ == "Several simulators match "@ + id@
                    + "; specify a UDID"@,
                SelectError::Unspecified => r@
                    == "Choose a simulator with --device <UDID>; use `mx devices` to list available devices"@,
            },
    {
        match self {
            SelectError::NoMatch(id) => {
                let mut s = String::from_str("No available iOS simulator matches ");
                push_str(&mut s, id.as_str());
                s
            },
            SelectError::Ambiguous(id) => {
                let mut s = String::from_str("Several simulators match ");
                push_str(&mut s, id.as_str());
                push_str(&mut s, "; specify a UDID");
                s
            },
            SelectError::Unspecified => String::from_str(
                "Choose a simulator with --device <UDID>; use `mx devices` to list available devices",
            ),
        }
    }
}

/// Counts the devices that satisfy a test and finds the first of them.
fn count_first(devices: &[Device], id: Option<&str>) -> (r: (usize, usize))
    ensures
        ({
            let f = match id {
                Some(i) => matching(devices@, i@),
                None => booted(devices@),
            };
            &&& r.0 == f.len()
            &&& r.0 > 0 ==> r.1 < devices.len() && f[0] == devices@[r.1 as int]
        }),
{
    let ghost pred: spec_fn(Device) -> bool = match id {
        Some(i) => |d: Device| d.udid@ == i@ || d.name@ == i@,
        None => |d: Device| d.state@ == "Booted"@,
    };
    let mut count: usize = 0;
    let mut first: usize = 0;
    let mut i: usize = 0;
    proof {
        reveal(Seq::filter);
        assert(devices@.take(0) =~= Seq::<Device>::empty());
        assert(devices@.take(0).filter(pred) =~= Seq::<Device>::empty());
    }
    while i < devices.len()
        invariant
            i <= devices.len(),
            pred == (match id {
                Some(x) => |d: Device| d.udid@ == x@ || d.name@ == x@,
                None => |d: Device| d.state@ == "Booted"@,
            }),
            count == devices@.take(i as int).filter(pred).len(),
            count > 0 ==> first < i && devices@.take(i as int).filter(pred)[0] == devices@[first as int],
        decreases devices.len() - i,
    {
        let hit = match id {
            Some(x) => str_eq(devices[i].udid.as_str(), x) || str_eq(devices[i].name.as_str(), x),
            None => str_eq(devices[i].state.as_str(), "Booted"),
        };
        proof {
            assert(devices@.take(i + 1) =~= devices@.take(i as int).push(devices@[i as int]));
            devices@.take(i as int).lemma_filter_push(devices@[i as int], pred);
            assert(hit == pred(devices@[i as int]));
        }
        if hit {
            if count == 0 {
                first = i;
            }
            count += 1;
        }
        i += 1;
    }
    proof {
        assert(devices@.take(devices.len() as int) =~= devices@);
    }
    (count, first)
}

/// Chooses the simulator to act on: the one device whose UDID or name is
/// `requested`; otherwise the one booted device; otherwise the only device.
pub fn select(devices: &[Device], requested: Option<&str>) -> (r: Result<Device, SelectError>)
    ensures
        match requested {
            Some(id) => {
                let m = matching(devices@, id@);
                &&& m.len() == 1 ==> r == Ok::<Device, SelectError>(m[0])
                &&& m.len() == 0 ==> (r matches Err(SelectError::NoMatch(x)) && x@ == id@)
                &&& m.len() > 1 ==> (r matches Err(SelectError::Ambiguous(x)) && x@ == id@)
            },
            None => {
                let b = booted(devices@);
                &&& b.len() == 1 ==> r == Ok::<Device, SelectError>(b[0])
                &&& b.len() != 1 && devices.len() == 1 ==> r == Ok::<Device, SelectError>(
                    devices@[0],
                )
                &&& b.len() != 1 && devices.len() != 1 ==> r matches Err(
                    SelectError::Unspecified,
                )
            },
        },
{
    match requested {
        Some(id) => {
            let (count, first) = count_first(devices, Some(id));
            if count == 1 {
                Ok(devices[first].clone())
            } else if count == 0 {
                Err(SelectError::NoMatch(String::from_str(id)))
            } else {
                Err(SelectError::Ambiguous(String::from_str(id)))
            }
        },
        None => {
            let (count, first) = count_first(devices, None);
            if count == 1 {
                Ok(devices[first].clone())
            } else if devices.len() == 1 {
                Ok(devices[0].clone())
            } else {
                Err(SelectError::Unspecified)
            }
        },
    }
}

/// Number of bytes in a MiB.
pub const MIB: u64 = 1048576;

/// Host memory the simulators may use, and the reserve for the next boot.
#[derive(Debug, Clone, Copy)]
pub struct MemoryBudget {
    pub limit_mib: u64,
    /// Reserve for this next device including boot peaks; use measured peaks, not idle means.
    pub next_device_mib: u64,
}

/// Why a boot is not admitted.
#[derive(Debug, Clone, Copy, PartialEq, Eq)]
pub enum BudgetError {
    Invalid,
    Exceeded { needed_mib: u64, limit_mib: u64 },
}

impl BudgetError {
    /// The error as text.
    pub fn message(&self) -> (r: String)
        ensures
            match self {
                BudgetError::Invalid => r@ == "Invalid memory budget"@,
                BudgetError::Exceeded { needed_mib, limit_mib } => r@
                    == "Simulator memory budget exceeded: current plus next-device reserve is "@
                    + crate::text::decimal(*needed_mib as nat) + " MiB, budget "@
                    + crate::text::decimal(*limit_mib as nat) + " MiB"@,
            },
    {
        match self {
            BudgetError::Invalid => String::from_str("Invalid memory budget"),
            BudgetError::Exceeded { needed_mib, limit_mib } => {
                let mut s = String::from_str(
                    "Simulator memory budget exceeded: current plus next-device reserve is ",
                );
                push_decimal(&mut s, *needed_mib);
                push_str(&mut s, " MiB, budget ");
                push_decimal(&mut s, *limit_mib);
                push_str(&mut s, " MiB");
                s
            },
        }
    }
}

/// `a + b`, or `u64::MAX` when that does not fit.
pub open spec fn sat_add(a: int, b: int) -> int {
    if a + b > u64::MAX {
        u64::MAX as int
    } else {
        a + b
    }
}

/// `a * b`, or `u64::MAX` when that does not fit.
pub open spec fn sat_mul(a: int, b: int) -> int {
    if a * b > u64::MAX {
        u64::MAX as int
    } else {
        a * b
    }
}

/// `a * b`, saturating at `u64::MAX`.
pub fn saturating_mul(a: u64, b: u64) -> (r: u64)
    ensures
        r == sat_mul(a as int, b as int),
{
    match a.checked_mul(b) {
        Some(p) => p,
        None => u64::MAX,
    }
}

impl MemoryBudget {
    /// Whether a budget is usable: both sizes positive and the limit at most
    /// one TiB.
    pub open spec fn valid(self) -> bool {
        self.limit_mib > 0 && self.next_device_mib > 0 && self.limit_mib <= 1024 * 1024
    }

    /// Bytes the simulators would hold after the next boot.
    pub open spec fn needed(self, current_bytes: u64) -> int {
        sat_add(current_bytes as int, sat_mul(self.next_device_mib as int, MIB as int))
    }

    /// Admits a boot when the booted simulators' footprint plus the next
    /// device's reserve stays within the limit.
    pub fn allows(&self, current_bytes: u64) -> (r: Result<(), BudgetError>)
        ensures
            !self.valid() ==> r == Err::<(), BudgetError>(BudgetError::Invalid),
            self.valid() && self.needed(current_bytes) <= self.limit_mib * MIB ==> r is Ok,
            self.valid() && self.needed(current_bytes) > self.limit_mib * MIB ==> r == Err::<
                (),
                BudgetError,
            >(
                BudgetError::Exceeded {
                    needed_mib: (self.needed(current_bytes) / 1024 / 1024) as u64,
                    limit_mib: self.limit_mib,
                },
            ),
    {
        if !(self.limit_mib > 0 && self.next_device_mib > 0 && self.limit_mib <= 1024 * 1024) {
            return Err(BudgetError::Invalid);
        }
        let reserve = saturating_mul(self.next_device_mib, MIB);
        let needed = current_bytes.saturating_add(reserve);
        assert(self.limit_mib * MIB <= 1024 * 1024 * MIB) by (nonlinear_arith)
            requires
                self.limit_mib <= 1024 * 1024,
        ;
        let limit = self.limit_mib * MIB;
        if needed <= limit {
            Ok(())
        } else {
            Err(BudgetError::Exceeded { needed_mib: needed / 1024 / 1024, limit_mib: self.limit_mib })
        }
    }
}

/// Device type of the compact iPhone that profiles are measured on.
pub open spec fn compact_device_type() -> Seq<char> {
    "com.apple.CoreSimulator.SimDeviceType.iPhone-SE-3rd-generation"@
}

/// Device type of the compact iPhone that profiles are measured on.
pub const COMPACT_DEVICE_TYPE: &'static str = "com.apple.CoreSimulator.SimDeviceType.iPhone-SE-3rd-generation";

/// Reserve for a profiled device of the compact type.
pub const COMPACT_PROFILED_RESERVE_MIB: u64 = 1344;

/// Reserve for any other profiled device.
pub const GENERAL_PROFILED_RESERVE_MIB: u64 = 1536;

/// Reserve for a device without a profile.
pub const UNPROFILED_RESERVE_MIB: u64 = 4608;

/// The next-device reserve of a profiled device of type `device_type`.
pub fn profiled_reserve_mib(device_type: Option<&str>) -> (r: u64)
    ensures
        r == (if device_type matches Some(t) && t@ == compact_device_type() {
            COMPACT_PROFILED_RESERVE_MIB
        } else {
            GENERAL_PROFILED_RESERVE_MIB
        }),
{
    match device_type {
        Some(t) => {
            if str_eq(t, "com.apple.CoreSimulator.SimDeviceType.iPhone-SE-3rd-generation") {
                COMPACT_PROFILED_RESERVE_MIB
            } else {
                GENERAL_PROFILED_RESERVE_MIB
            }
        },
        None => GENERAL_PROFILED_RESERVE_MIB,
    }
}

/// The default budget on a host with `memsize` bytes of memory: half of it,
/// with the profiled or unprofiled next-device reserve.
pub fn budget_for_host(memsize: u64, profiled: bool, device_type: Option<&str>) -> (r:
    MemoryBudget)
    ensures
        r.limit_mib == memsize / 1024 / 1024 / 2,
        r.next_device_mib == (if profiled {
            if device_type matches Some(t) && t@ == compact_device_type() {
                COMPACT_PROFILED_RESERVE_MIB
            } else {
                GENERAL_PROFILED_RESERVE_MIB
            }
        } else {
            UNPROFILED_RESERVE_MIB
        }),
{
    MemoryBudget {
        limit_mib: memsize / 1024 / 1024 / 2,
        next_device_mib: if profiled {
            profiled_reserve_mib(device_type)
        } else {
            UNPROFILED_RESERVE_MIB
        },
    }
}

/// How many more devices fit: with the budget's reserve, and with the
/// compact reserve.
pub fn capacity_estimate(budget: &MemoryBudget, current_bytes: u64) -> (r: (u64, u64))
    requires
        budget.next_device_mib > 0,
    ensures
        ({
            let remaining = (sat_mul(budget.limit_mib as int, MIB as int) - current_bytes) as int;
            let rem = if remaining < 0 { 0 } else { remaining };
            &&& r.0 == rem / sat_mul(budget.next_device_mib as int, MIB as int)
            &&& r.1 == rem / (COMPACT_PROFILED_RESERVE_MIB * MIB) as int
        }),
{
    let limit_bytes = saturating_mul(budget.limit_mib, MIB);
    let remaining = limit_bytes.saturating_sub(current_bytes);
    let per = saturating_mul(budget.next_device_mib, MIB);
    assert(per > 0) by (nonlinear_arith)
        requires
            budget.next_device_mib > 0,
            per == sat_mul(budget.next_device_mib as int, MIB as int),
    ;
    (remaining / per, remaining / (COMPACT_PROFILED_RESERVE_MIB * MIB))
}

/// Whether another device may boot while `booted_count` are running.
pub fn admits_boot(booted_count: usize, max_booted: usize) -> (r: bool)
    ensures
        r == (booted_count < max_booted),
{
    booted_count < max_booted
}

/// The runtime key of an iOS simulator group in `simctl list --json`.
pub open spec fn ios_runtime_prefix() -> Seq<char> {
    "com.apple.CoreSimulator.SimRuntime.iOS-"@
}

/// Whether a `simctl` runtime key names an iOS runtime.
pub open spec fn is_ios_runtime(runtime: Seq<char>) -> bool {
    runtime.len() >= ios_runtime_prefix().len() && runtime.take(ios_runtime_prefix().len() as int)
        == ios_runtime_prefix()
}

/// The available devices of one runtime group, tagged with the runtime.
pub open spec fn group_devices(runtime: String, ds: Seq<Device>) -> Seq<Device>
    decreases ds.len(),
{
    if ds.len() == 0 {
        seq![]
    } else if ds.last().is_available {
        group_devices(runtime, ds.drop_last()).push(Device { runtime: runtime, ..ds.last() })
    } else {
        group_devices(runtime, ds.drop_last())
    }
}

/// The available devices of the iOS runtime groups, in inventory order.
pub open spec fn ios_devices(groups: Seq<(String, Vec<Device>)>) -> Seq<Device>
    decreases groups.len(),
{
    if groups.len() == 0 {
        seq![]
    } else if is_ios_runtime(groups.last().0@) {
        ios_devices(groups.drop_last()) + group_devices(groups.last().0, groups.last().1@)
    } else {
        ios_devices(groups.drop_last())
    }
}

/// Keeps the available devices of iOS runtimes, each tagged with its
/// runtime, in inventory order.
pub fn available_ios(groups: &Vec<(String, Vec<Device>)>) -> (r: Vec<Device>)
    ensures
        r@ == ios_devices(groups@),
{
    let mut out: Vec<Device> = Vec::new();
    let prefix = crate::text::chars_of("com.apple.CoreSimulator.SimRuntime.iOS-");
    let mut g: usize = 0;
    proof {
        assert(groups@.take(0) =~= Seq::<(String, Vec<Device>)>::empty());
    }
    while g < groups.len()
        invariant
            g <= groups.len(),
            prefix@ == ios_runtime_prefix(),
            out@ == ios_devices(groups@.take(g as int)),
        decreases groups.len() - g,
    {
        let runtime = &groups[g].0;
        let rc = crate::text::chars_of(runtime.as_str());
        let starts = crate::text::starts_with_chars(&rc, &prefix);
        let ghost before = out@;
        proof {
            let t = groups@.take(g + 1);
            assert(t.drop_last() =~= groups@.take(g as int));
            assert(t.last() == groups@[g as int]);
        }
        if starts {
            let devices = &groups[g].1;
            let mut d: usize = 0;
            proof {
                assert(devices@.take(0) =~= Seq::<Device>::empty());
                assert(before + group_devices(*runtime, devices@.take(0)) =~= before);
            }
            while d < devices.len()
                invariant
                    g < groups.len(),
                    devices == groups@[g as int].1,
                    runtime == groups@[g as int].0,
                    d <= devices.len(),
                    out@ == before + group_devices(*runtime, devices@.take(d as int)),
                decreases devices.len() - d,
            {
                proof {
                    let t = devices@.take(d + 1);
                    assert(t.drop_last() =~= devices@.take(d as int));
                    assert(t.last() == devices@[d as int]);
                }
                if devices[d].is_available {
                    let mut device = devices[d].clone();
                    device.runtime = runtime.clone();
                    let ghost mid = out@;
                    out.push(device);
                    assert(out@ =~= before + group_devices(*runtime, devices@.take(d + 1)));
                }
                d += 1;
            }
            proof {
                assert(devices@.take(devices.len() as int) =~= devices@);
            }
        }
        g += 1;
    }
    proof {
        assert(groups@.take(groups.len() as int) =~= groups@);
    }
    out
}


/// Whether `a` comes before `b` in the inventory order: by name, then by
/// identifier.
pub open spec fn device_before(a: Device, b: Device) -> bool {
    lex_lt(a.name@, b.name@) || (a.name@ == b.name@ && lex_lt(a.udid@, b.udid@))
}

/// No device comes before one listed ahead of it.
pub open spec fn devices_sorted(s: Seq<Device>) -> bool {
    forall|i: int, j: int| 0 <= i < j < s.len() ==> !device_before(#[trigger] s[j], #[trigger] s[i])
}

proof fn lemma_device_before_trans(a: Device, b: Device, c: Device)
    requires
        device_before(a, b),
        device_before(b, c),
    ensures
        device_before(a, c),
{
    if lex_lt(a.name@, b.name@) && lex_lt(b.name@, c.name@) {
        lemma_lex_trans(a.name@, b.name@, c.name@);
    } else if lex_lt(a.name@, b.name@) {
    } else if lex_lt(b.name@, c.name@) {
    } else {
        lemma_lex_trans(a.udid@, b.udid@, c.udid@);
    }
}

fn before(a: &Device, b: &Device) -> (r: bool)
    ensures
        r == device_before(*a, *b),
{
    if str_lt(a.name.as_str(), b.name.as_str()) {
        true
    } else if str_eq(a.name.as_str(), b.name.as_str()) {
        str_lt(a.udid.as_str(), b.udid.as_str())
    } else {
        false
    }
}

/// Whether two devices share their name and identifier.
pub open spec fn same_key(a: Device, b: Device) -> bool {
    a.name@ == b.name@ && a.udid@ == b.udid@
}

/// `out` lists the devices of `input` in the order `perm` gives (each index
/// of `input` once), and devices with the same name and identifier keep
/// their relative order.
pub open spec fn stable_arrangement(input: Seq<Device>, out: Seq<Device>, perm: Seq<int>) -> bool {
    &&& perm.len() == out.len() == input.len()
    &&& forall|i: int| 0 <= i < out.len() ==> 0 <= #[trigger] perm[i] < input.len() && out[i] == input[perm[i]]
    &&& forall|i: int, j: int| 0 <= i < j < out.len() ==> #[trigger] perm[i] != #[trigger] perm[j]
    &&& forall|i: int, j: int|
        0 <= i < j < out.len() && same_key(#[trigger] out[i], #[trigger] out[j]) ==> perm[i] < perm[j]
}

proof fn lemma_device_total(a: Device, b: Device)
    ensures
        device_before(a, b) || device_before(b, a) || same_key(a, b),
        !(device_before(a, b) && same_key(a, b)),
{
    lemma_lex_total(a.name@, b.name@);
    lemma_lex_total(a.udid@, b.udid@);
}

/// Orders devices by name, then identifier; devices with the same name and
/// identifier keep their order.
pub fn sort_devices(devices: Vec<Device>) -> (r: Vec<Device>)
    ensures
        r@.to_multiset() == devices@.to_multiset(),
        devices_sorted(r@),
        exists|perm: Seq<int>| stable_arrangement(devices@, r@, perm),
{
    let mut out: Vec<Device> = Vec::new();
    let mut k: usize = 0;
    let ghost mut perm: Seq<int> = seq![];
    assert(devices@.take(0) =~= out@);
    while k < devices.len()
        invariant
            k <= devices.len(),
            out@.to_multiset() == devices@.take(k as int).to_multiset(),
            devices_sorted(out@),
            stable_arrangement(devices@.take(k as int), out@, perm),
        decreases devices.len() - k,
    {
        let x = devices[k].clone();
        let mut p: usize = 0;
        while p < out.len() && !before(&x, &out[p])
            invariant
                p <= out.len(),
                forall|i: int| 0 <= i < p ==> !device_before(x, #[trigger] out@[i]),
            decreases out.len() - p,
        {
            p += 1;
        }
        let ghost old_out = out@;
        let ghost old_perm = perm;
        let ghost prefix = devices@.take(k as int);
        let ghost next = devices@.take(k + 1);
        out.insert(p, x);
        proof {
            assert(out@ == old_out.insert(p as int, x));
            assert(x == devices@[k as int]);
            assert(next =~= prefix.push(x));
            perm = old_perm.insert(p as int, k as int);
            assert forall|i: int, j: int| 0 <= i < j < out@.len() implies !device_before(
                #[trigger] out@[j],
                #[trigger] out@[i],
            ) by {
                if j < p {
                } else if j == p {
                } else if i < p {
                    assert(out@[j] == old_out[j - 1]);
                } else if i == p {
                    assert(out@[j] == old_out[j - 1]);
                    assert(device_before(x, old_out[p as int]));
                    if device_before(old_out[j - 1], x) {
                        lemma_device_before_trans(old_out[j - 1], x, old_out[p as int]);
                    }
                } else {
                    assert(out@[i] == old_out[i - 1]);
                    assert(out@[j] == old_out[j - 1]);
                }
            }
            assert forall|i: int| 0 <= i < out@.len() implies 0 <= #[trigger] perm[i] < next.len()
                && out@[i] == next[perm[i]] by {
                if i < p {
                    assert(perm[i] == old_perm[i]);
                    assert(out@[i] == old_out[i]);
                } else if i > p {
                    assert(perm[i] == old_perm[i - 1]);
                    assert(out@[i] == old_out[i - 1]);
                }
            }
            assert forall|i: int, j: int| 0 <= i < j < out@.len() implies #[trigger] perm[i]
                != #[trigger] perm[j] by {
                if i != p && j != p {
                    let oi = if i < p { i } else { i - 1 };
                    let oj = if j < p { j } else { j - 1 };
                    assert(perm[i] == old_perm[oi]);
                    assert(perm[j] == old_perm[oj]);
                } else if i == p {
                    assert(perm[j] == old_perm[j - 1]);
                } else {
                    let oi = if i < p { i } else { i - 1 };
                    assert(perm[i] == old_perm[oi]);
                }
            }
            assert forall|i: int, j: int|
                0 <= i < j < out@.len() && same_key(#[trigger] out@[i], #[trigger] out@[j]) implies perm[i]
                < perm[j] by {
                if i != p && j != p {
                    let oi = if i < p { i } else { i - 1 };
                    let oj = if j < p { j } else { j - 1 };
                    assert(perm[i] == old_perm[oi]);
                    assert(perm[j] == old_perm[oj]);
                    assert(out@[i] == old_out[oi]);
                    assert(out@[j] == old_out[oj]);
                } else if j == p {
                    let oi = i;
                    assert(perm[i] == old_perm[oi]);
                } else {
                    assert(i == p);
                    assert(out@[j] == old_out[j - 1]);
                    assert(device_before(x, old_out[p as int]));
                    lemma_device_total(old_out[p as int], old_out[j - 1]);
                    if j - 1 > p {
                        if device_before(old_out[p as int], old_out[j - 1]) {
                            lemma_device_before_trans(x, old_out[p as int], old_out[j - 1]);
                        } else {
                            assert(!device_before(old_out[j - 1], old_out[p as int]));
                            assert(same_key(old_out[p as int], old_out[j - 1]));
                        }
                    }
                    lemma_device_total(x, out@[j]);
                }
            }
            vstd::seq_lib::to_multiset_insert(old_out, p as int, x);
            vstd::seq_lib::to_multiset_build(prefix, x);
        }
        k += 1;
    }
    proof {
        assert(devices@.take(devices.len() as int) =~= devices@);
        assert(stable_arrangement(devices@, out@, perm));
    }
    out
}

/// The devices of a decoded `simctl list devices --json` inventory, given
/// as its runtime groups in key order: the available devices of iOS
/// runtimes, tagged with their runtime, ordered by name and identifier.
pub fn parse_devices(groups: &Vec<(String, Vec<Device>)>) -> (r: Vec<Device>)
    ensures
        r@.to_multiset() == ios_devices(groups@).to_multiset(),
        devices_sorted(r@),
        exists|perm: Seq<int>| stable_arrangement(ios_devices(groups@), r@, perm),
{
    sort_devices(available_ios(groups))
}

} // verus!
