use crate::text::{
    chars_of, contains_seq, is_ws, parse_u32, parse_u32_spec, str_contains, strict_subrange_eq,
};
use vstd::prelude::*;

verus! {

/// Resource use of one process.
#[derive(Debug)]
pub struct Usage {
    pub pid: u32,
    pub name: String,
    pub start_time: u64,
    pub physical_bytes: u64,
    pub rss_bytes: u64,
    pub cpu_ns: u64,
    pub reaped_children_cpu_ns: u64,
    pub lifetime_peak_physical_bytes: u64,
}

/// Start of the first word at or after `i` (`str::split_whitespace`).
pub open spec fn word_start(s: Seq<char>, i: int) -> int
    decreases s.len() - i,
{
    if i < 0 || i >= s.len() || !is_ws(s[i]) {
        i
    } else {
        word_start(s, i + 1)
    }
}

/// End of the word that starts at `i`.
pub open spec fn word_end(s: Seq<char>, i: int) -> int
    decreases s.len() - i,
{
    if i < 0 || i >= s.len() || is_ws(s[i]) {
        i
    } else {
        word_end(s, i + 1)
    }
}

/// The bounds of the word after index `i`, if there is one.
pub open spec fn next_word(s: Seq<char>, i: int) -> Option<(int, int)> {
    let a = word_start(s, i);
    if a >= s.len() {
        None
    } else {
        Some((a, word_end(s, a)))
    }
}

/// What one line of `ps -axo pid=,ppid=,command=` gives: the pid, the
/// parent pid, and whether it is the simulator's `launchd_sim` (its command
/// is `launchd_sim` and the line names the device). Lines whose first two
/// words are not numbers give nothing.
pub open spec fn ps_entry(line: Seq<char>, udid: Seq<char>) -> Option<(u32, u32, bool)> {
    match next_word(line, 0) {
        None => None,
        Some((a1, e1)) => match parse_u32_spec(line.subrange(a1, e1)) {
            None => None,
            Some(pid) => match next_word(line, e1) {
                None => None,
                Some((a2, e2)) => match parse_u32_spec(line.subrange(a2, e2)) {
                    None => None,
                    Some(parent) => Some(
                        (
                            pid,
                            parent,
                            (next_word(line, e2) matches Some((a3, e3)) && line.subrange(a3, e3)
                                == "launchd_sim"@) && contains_seq(line, udid),
                        ),
                    ),
                },
            },
        },
    }
}

proof fn lemma_word_bounds(s: Seq<char>, i: int)
    requires
        0 <= i <= s.len(),
    ensures
        i <= word_start(s, i) <= s.len(),
        word_start(s, i) <= word_end(s, word_start(s, i)) <= s.len(),
        word_start(s, i) < s.len() ==> word_start(s, i) < word_end(s, word_start(s, i)),
    decreases s.len() - i,
{
    if i < s.len() && is_ws(s[i]) {
        lemma_word_bounds(s, i + 1);
    } else {
        lemma_word_end(s, i);
        if i < s.len() {
            lemma_word_end(s, i + 1);
        }
    }
}

proof fn lemma_word_end(s: Seq<char>, i: int)
    requires
        0 <= i <= s.len(),
    ensures
        i <= word_end(s, i) <= s.len(),
    decreases s.len() - i,
{
    if i < s.len() && !is_ws(s[i]) {
        lemma_word_end(s, i + 1);
    }
}

pub(crate) fn find_word(v: &Vec<char>, i: usize) -> (r: Option<(usize, usize)>)
    requires
        i <= v.len(),
    ensures
        match next_word(v@, i as int) {
            None => r is None,
            Some((a, e)) => r matches Some((x, y)) && x as int == a && y as int == e,
        },
        r matches Some((x, y)) ==> i <= x <= y <= v.len(),
{
    proof {
        lemma_word_bounds(v@, i as int);
    }
    let mut a = i;
    while a < v.len() && crate::text::char_is_ws(v[a])
        invariant
            i <= a <= v.len(),
            word_start(v@, i as int) == word_start(v@, a as int),
        decreases v.len() - a,
    {
        a += 1;
    }
    if a >= v.len() {
        return None;
    }
    proof {
        lemma_word_end(v@, a as int);
    }
    let mut e = a;
    while e < v.len() && !crate::text::char_is_ws(v[e])
        invariant
            a <= e <= v.len(),
            word_end(v@, a as int) == word_end(v@, e as int),
        decreases v.len() - e,
    {
        e += 1;
    }
    Some((a, e))
}

/// Reads one line of `ps` output.
pub fn parse_ps_line(line: &str, udid: &str) -> (r: Option<(u32, u32, bool)>)
    ensures
        r == ps_entry(line@, udid@),
{
    let v = chars_of(line);
    let (a1, e1) = find_word(&v, 0)?;
    let pid = parse_u32(&v, a1, e1)?;
    let (a2, e2) = find_word(&v, e1)?;
    let parent = parse_u32(&v, a2, e2)?;
    let is_launchd = match find_word(&v, e2) {
        Some((a3, e3)) => strict_subrange_eq(&v, a3, e3, "launchd_sim"),
        None => false,
    };
    let root = is_launchd && str_contains(line, udid);
    Some((pid, parent, root))
}

/// The parent of each process, the last report of a pid winning.
pub open spec fn parent_map(es: Seq<(u32, u32)>) -> Map<u32, u32>
    decreases es.len(),
{
    if es.len() == 0 {
        Map::empty()
    } else {
        parent_map(es.drop_last()).insert(es.last().0, es.last().1)
    }
}

/// The processes whose parent is in `s`.
pub open spec fn children_of(m: Map<u32, u32>, s: Set<u32>) -> Set<u32> {
    Set::new(|p: u32| m.dom().contains(p) && s.contains(m[p]))
}

/// `root` and its descendants up to `k` generations down.
pub open spec fn reach(m: Map<u32, u32>, root: u32, k: nat) -> Set<u32>
    decreases k,
{
    if k == 0 {
        set![root]
    } else {
        reach(m, root, (k - 1) as nat).union(children_of(m, reach(m, root, (k - 1) as nat)))
    }
}

/// `root` and all its descendants: the processes of one simulator.
pub open spec fn is_process_tree(r: Set<u32>, m: Map<u32, u32>, root: u32) -> bool {
    exists|k: nat| r == #[trigger] reach(m, root, k) && reach(m, root, k + 1) == reach(m, root, k)
}

fn position_of(v: &Vec<(u32, u32)>, pid: u32) -> (r: Option<usize>)
    ensures
        r matches Some(i) ==> i < v.len() && v@[i as int].0 == pid,
        r is None ==> forall|i: int| 0 <= i < v.len() ==> v@[i].0 != pid,
{
    let mut i: usize = 0;
    while i < v.len()
        invariant
            i <= v.len(),
            forall|j: int| 0 <= j < i ==> v@[j].0 != pid,
        decreases v.len() - i,
    {
        if v[i].0 == pid {
            return Some(i);
        }
        i += 1;
    }
    None
}

/// The map as a list with one entry per pid.
pub open spec fn map_of_unique(v: Seq<(u32, u32)>) -> Map<u32, u32> {
    Map::new(
        |p: u32| exists|i: int| 0 <= i < v.len() && v[i].0 == p,
        |p: u32| v[choose|i: int| 0 <= i < v.len() && v[i].0 == p].1,
    )
}

/// Whether no pid occurs twice.
pub open spec fn unique_pids(v: Seq<(u32, u32)>) -> bool {
    forall|i: int, j: int| 0 <= i < j < v.len() ==> v[i].0 != v[j].0
}

fn dedup_parents(es: &Vec<(u32, u32)>) -> (r: Vec<(u32, u32)>)
    ensures
        unique_pids(r@),
        map_of_unique(r@) == parent_map(es@),
{
    let mut out: Vec<(u32, u32)> = Vec::new();
    let mut i: usize = 0;
    proof {
        assert(es@.take(0) =~= Seq::<(u32, u32)>::empty());
        assert(map_of_unique(out@) =~= Map::<u32, u32>::empty());
    }
    while i < es.len()
        invariant
            i <= es.len(),
            unique_pids(out@),
            map_of_unique(out@) == parent_map(es@.take(i as int)),
        decreases es.len() - i,
    {
        let (p, q) = es[i];
        let ghost before = out@;
        proof {
            let t = es@.take(i + 1);
            assert(t.drop_last() =~= es@.take(i as int));
            assert(t.last() == (p, q));
        }
        match position_of(&out, p) {
            Some(k) => {
                out.set(k, (p, q));
                proof {
                    assert forall|x: u32| #[trigger] map_of_unique(out@).dom().contains(x)
                        == map_of_unique(before).insert(p, q).dom().contains(x) by {
                        if map_of_unique(before).dom().contains(x) {
                            let j = choose|j: int| 0 <= j < before.len() && before[j].0 == x;
                            assert(out@[j].0 == x);
                        }
                        if map_of_unique(out@).dom().contains(x) {
                            let j = choose|j: int| 0 <= j < out@.len() && out@[j].0 == x;
                            if j != k {
                                assert(before[j].0 == x);
                            }
                        }
                    }
                    assert forall|x: u32| #[trigger] map_of_unique(out@).dom().contains(x)
                        implies map_of_unique(out@)[x] == map_of_unique(before).insert(p, q)[x] by {
                        let j = choose|j: int| 0 <= j < out@.len() && out@[j].0 == x;
                        if x == p {
                            assert(j == k);
                        } else {
                            let j2 = choose|j2: int| 0 <= j2 < before.len() && before[j2].0 == x;
                            assert(j2 == j);
                        }
                    }
                    assert(map_of_unique(out@) =~= map_of_unique(before).insert(p, q));
                }
            },
            None => {
                out.push((p, q));
                proof {
                    assert forall|x: u32| #[trigger] map_of_unique(out@).dom().contains(x)
                        == map_of_unique(before).insert(p, q).dom().contains(x) by {
                        if map_of_unique(before).dom().contains(x) {
                            let j = choose|j: int| 0 <= j < before.len() && before[j].0 == x;
                            assert(out@[j].0 == x);
                        }
                        if map_of_unique(out@).dom().contains(x) && x != p {
                            let j = choose|j: int| 0 <= j < out@.len() && out@[j].0 == x;
                            assert(before[j].0 == x);
                        }
                        if x == p {
                            assert(out@[before.len() as int].0 == p);
                        }
                    }
                    assert forall|x: u32| #[trigger] map_of_unique(out@).dom().contains(x)
                        implies map_of_unique(out@)[x] == map_of_unique(before).insert(p, q)[x] by {
                        let j = choose|j: int| 0 <= j < out@.len() && out@[j].0 == x;
                        if x == p {
                            assert(j == before.len());
                        } else {
                            let j2 = choose|j2: int| 0 <= j2 < before.len() && before[j2].0 == x;
                            assert(j2 == j);
                        }
                    }
                    assert(map_of_unique(out@) =~= map_of_unique(before).insert(p, q));
                }
            },
        }
        i += 1;
    }
    assert(es@.take(es.len() as int) =~= es@);
    out
}

fn contains_pid(v: &Vec<u32>, p: u32) -> (r: bool)
    ensures
        r == v@.contains(p),
{
    let mut i: usize = 0;
    while i < v.len()
        invariant
            i <= v.len(),
            forall|j: int| 0 <= j < i ==> v@[j] != p,
        decreases v.len() - i,
    {
        if v[i] == p {
            return true;
        }
        i += 1;
    }
    false
}

/// The processes of one simulator: its `launchd_sim` and every process
/// below it, given each process's parent.
pub fn process_tree(parents: &Vec<(u32, u32)>, root: u32) -> (r: Vec<u32>)
    ensures
        is_process_tree(r@.to_set(), parent_map(parents@), root),
        r@.no_duplicates(),
{
    let m = dedup_parents(parents);
    let ghost pm = parent_map(parents@);
    let mut pids: Vec<u32> = vec![root];
    let ghost mut k: nat = 0;
    proof {
        assert(pids@.to_set() =~= set![root]);
    }
    let mut growing = true;
    while growing
        invariant
            unique_pids(m@),
            map_of_unique(m@) == pm,
            pids@.to_set() == reach(pm, root, k),
            pids@.no_duplicates(),
            forall|i: int| 0 <= i < pids.len() ==> pids@[i] == root || pm.dom().contains(#[trigger] pids@[i]),
            !growing ==> reach(pm, root, k + 1) == reach(pm, root, k),
        decreases m.len() + 1 - pids.len() + (if growing { 1int } else { 0int }),
    {
        proof {
            lemma_pids_bounded(m@, pids@, root);
        }
        let mut added: Vec<u32> = Vec::new();
        let mut j: usize = 0;
        while j < m.len()
            invariant
                j <= m.len(),
                unique_pids(m@),
                map_of_unique(m@) == pm,
                pids@.to_set() == reach(pm, root, k),
                added@.no_duplicates(),
                forall|x: int| 0 <= x < added.len() ==> !pids@.contains(#[trigger] added@[x]) && pm.dom().contains(added@[x]) && pids@.contains(pm[added@[x]]),
                forall|x: int| 0 <= x < j ==> (pids@.contains(#[trigger] m@[x].1) && !pids@.contains(m@[x].0)) ==> added@.contains(m@[x].0),
                forall|x: int| 0 <= x < added.len() ==> exists|y: int| 0 <= y < j && m@[y].0 == #[trigger] added@[x],
            decreases m.len() - j,
        {
            let (p, q) = m[j];
            proof {
                assert(pm.dom().contains(p) && pm[p] == q) by {
                    assert(map_of_unique(m@).dom().contains(p));
                    let c = choose|c: int| 0 <= c < m@.len() && m@[c].0 == p;
                    assert(c == j);
                }
            }
            if contains_pid(&pids, q) && !contains_pid(&pids, p) {
                proof {
                    assert forall|x: int| 0 <= x < added.len() implies added@[x] != p by {
                        let y = choose|y: int| 0 <= y < j && m@[y].0 == added@[x];
                    }
                }
                let ghost old_added = added@;
                added.push(p);
                proof {
                    assert(added@[old_added.len() as int] == p);
                    assert forall|y: u32| old_added.contains(y) implies added@.contains(y) by {
                        let c = choose|c: int| 0 <= c < old_added.len() && old_added[c] == y;
                        assert(added@[c] == y);
                    }
                    assert forall|x: int| 0 <= x < added.len() implies exists|y: int|
                        0 <= y < j + 1 && m@[y].0 == #[trigger] added@[x] by {
                        if x < old_added.len() {
                            let y = choose|y: int| 0 <= y < j && m@[y].0 == old_added[x];
                            assert(m@[y].0 == added@[x]);
                        } else {
                            assert(m@[j as int].0 == added@[x]);
                        }
                    }
                    assert forall|x: int| 0 <= x < added.len() implies !pids@.contains(
                        #[trigger] added@[x],
                    ) && pm.dom().contains(added@[x]) && pids@.contains(pm[added@[x]]) by {
                        if x < old_added.len() {
                            assert(added@[x] == old_added[x]);
                        }
                    }
                }
            }
            j += 1;
        }
        proof {
            assert forall|x: u32| #[trigger] children_of(pm, reach(pm, root, k)).contains(x)
                implies pids@.contains(x) || added@.contains(x) by {
                let c = choose|c: int| 0 <= c < m@.len() && m@[c].0 == x;
            }
        }
        if added.len() == 0 {
            proof {
                assert(reach(pm, root, k + 1) =~= reach(pm, root, k));
            }
            growing = false;
        } else {
            let ghost before = pids@;
            let mut t: usize = 0;
            while t < added.len()
                invariant
                    t <= added.len(),
                    added@.no_duplicates(),
                    forall|x: int| 0 <= x < added.len() ==> !before.contains(#[trigger] added@[x]) && pm.dom().contains(added@[x]),
                    pids@ == before + added@.take(t as int),
                    before.no_duplicates(),
                decreases added.len() - t,
            {
                pids.push(added[t]);
                t += 1;
                assert(pids@ =~= before + added@.take(t as int));
            }
            proof {
                assert(added@.take(added.len() as int) =~= added@);
                let rk = reach(pm, root, k);
                assert(reach(pm, root, k + 1) == rk.union(children_of(pm, rk)));
                assert(before.to_set() == rk);
                assert(pids@.to_set() =~= reach(pm, root, k + 1)) by {
                    assert forall|x: u32| pids@.to_set().contains(x) == reach(pm, root, k + 1).contains(x) by {
                        if pids@.contains(x) {
                            let i = choose|i: int| 0 <= i < pids.len() && pids@[i] == x;
                            if i >= before.len() {
                                assert(added@[i - before.len()] == x);
                                assert(pm.dom().contains(x) && before.contains(pm[x]));
                                assert(children_of(pm, rk).contains(x));
                            } else {
                                assert(before[i] == x);
                                assert(before.to_set().contains(x));
                            }
                        }
                        if rk.contains(x) {
                            assert(before.to_set().contains(x));
                            let i = choose|i: int| 0 <= i < before.len() && before[i] == x;
                            assert(pids@[i] == x);
                        }
                        if children_of(pm, rk).contains(x) {
                            if before.contains(x) {
                                let i = choose|i: int| 0 <= i < before.len() && before[i] == x;
                                assert(pids@[i] == x);
                            } else {
                                assert(added@.contains(x));
                                let i = choose|i: int| 0 <= i < added.len() && added@[i] == x;
                                assert(pids@[before.len() + i] == x);
                            }
                        }
                    }
                }
                assert(pids@.no_duplicates()) by {
                    assert forall|a: int, b: int| 0 <= a < pids.len() && 0 <= b < pids.len() && a != b implies pids@[a] != pids@[b] by {
                        if a >= before.len() && b >= before.len() {
                        } else if a < before.len() && b >= before.len() {
                            assert(before.contains(pids@[a]));
                            assert(pids@[b] == added@[b - before.len()]);
                        } else if b < before.len() && a >= before.len() {
                            assert(before.contains(pids@[b]));
                            assert(pids@[a] == added@[a - before.len()]);
                        }
                    }
                }
                assert forall|i: int| 0 <= i < pids.len() implies pids@[i] == root
                    || pm.dom().contains(#[trigger] pids@[i]) by {
                    if i >= before.len() {
                        assert(pids@[i] == added@[i - before.len()]);
                    } else {
                        assert(pids@[i] == before[i]);
                    }
                }
                lemma_pids_bounded(m@, pids@, root);
                k = k + 1;
            }
        }
    }
    proof {
        assert(is_process_tree(pids@.to_set(), pm, root));
    }
    pids
}

proof fn lemma_pids_bounded(m: Seq<(u32, u32)>, pids: Seq<u32>, root: u32)
    requires
        unique_pids(m),
        pids.no_duplicates(),
        forall|i: int| 0 <= i < pids.len() ==> pids[i] == root || map_of_unique(m).dom().contains(#[trigger] pids[i]),
    ensures
        pids.len() <= m.len() + 1,
{
    let keys = m.map_values(|e: (u32, u32)| e.0).to_set().insert(root);
    assert forall|x: u32| pids.to_set().contains(x) implies keys.contains(x) by {
        let i = choose|i: int| 0 <= i < pids.len() && pids[i] == x;
        if x != root {
            let j = choose|j: int| 0 <= j < m.len() && m[j].0 == x;
            assert(m.map_values(|e: (u32, u32)| e.0)[j] == x);
        }
    }
    m.map_values(|e: (u32, u32)| e.0).lemma_cardinality_of_set();
    vstd::seq_lib::seq_to_set_is_finite(m.map_values(|e: (u32, u32)| e.0));
    vstd::set_lib::lemma_len_subset(pids.to_set(), keys);
    pids.unique_seq_to_set();
}

/// Accepts a `mx_top` limit of 1 to 100 processes.
pub fn valid_top_limit(limit: usize) -> (r: bool)
    ensures
        r == (1 <= limit <= 100),
{
    1 <= limit && limit <= 100
}


/// The summed physical footprint of processes.
pub open spec fn footprint_sum(us: Seq<Usage>) -> int
    decreases us.len(),
{
    if us.len() == 0 {
        0
    } else {
        footprint_sum(us.drop_last()) + us.last().physical_bytes
    }
}

proof fn lemma_footprint_sum_monotone(us: Seq<Usage>, k: int)
    requires
        0 <= k <= us.len(),
    ensures
        0 <= footprint_sum(us.take(k)) <= footprint_sum(us),
    decreases us.len() - k,
{
    if k < us.len() {
        lemma_footprint_sum_monotone(us, k + 1);
        assert(us.take(k + 1).drop_last() =~= us.take(k));
    } else {
        assert(us.take(k) =~= us);
    }
    lemma_footprint_sum_nonnegative(us.take(k));
}

proof fn lemma_footprint_sum_nonnegative(us: Seq<Usage>)
    ensures
        footprint_sum(us) >= 0,
    decreases us.len(),
{
    if us.len() > 0 {
        lemma_footprint_sum_nonnegative(us.drop_last());
    }
}

/// The summed physical footprint of the processes of a simulator.
pub fn total_footprint(usages: &Vec<Usage>) -> (r: u64)
    requires
        footprint_sum(usages@) <= u64::MAX,
    ensures
        r == footprint_sum(usages@),
{
    let mut total: u64 = 0;
    let mut i: usize = 0;
    while i < usages.len()
        invariant
            i <= usages.len(),
            footprint_sum(usages@) <= u64::MAX,
            total == footprint_sum(usages@.take(i as int)),
        decreases usages.len() - i,
    {
        proof {
            assert(usages@.take(i + 1).drop_last() =~= usages@.take(i as int));
            lemma_footprint_sum_monotone(usages@, i + 1);
        }
        total = total + usages[i].physical_bytes;
        i += 1;
    }
    assert(usages@.take(usages.len() as int) =~= usages@);
    total
}

/// Processes ordered by physical footprint, largest first.
pub open spec fn by_footprint(s: Seq<Usage>) -> bool {
    forall|i: int, j: int|
        0 <= i < j < s.len() ==> (#[trigger] s[i]).physical_bytes >= (#[trigger] s[j]).physical_bytes
}

/// `out` lists the processes of `input` in the order `perm` gives (each
/// index of `input` once), and processes with the same footprint keep their
/// relative order.
pub open spec fn stable_by_footprint(input: Seq<Usage>, out: Seq<Usage>, perm: Seq<int>) -> bool {
    &&& perm.len() == out.len() == input.len()
    &&& forall|i: int| 0 <= i < out.len() ==> 0 <= #[trigger] perm[i] < input.len() && out[i] == input[perm[i]]
    &&& forall|i: int, j: int| 0 <= i < j < out.len() ==> #[trigger] perm[i] != #[trigger] perm[j]
    &&& forall|i: int, j: int|
        0 <= i < j < out.len() && (#[trigger] out[i]).physical_bytes == (#[trigger] out[j]).physical_bytes
            ==> perm[i] < perm[j]
}

/// Orders processes by physical footprint, largest first; processes with
/// the same footprint keep their order.
pub fn sort_by_footprint(usages: Vec<Usage>) -> (r: Vec<Usage>)
    ensures
        r@.to_multiset() == usages@.to_multiset(),
        by_footprint(r@),
        exists|perm: Seq<int>| stable_by_footprint(usages@, r@, perm),
{
    let ghost original = usages@;
    let mut rest = usages;
    let mut out: Vec<Usage> = Vec::new();
    let ghost mut perm: Seq<int> = seq![];
    assert(original.take(0) =~= out@);
    while rest.len() > 0
        invariant
            rest@ == original.skip(original.len() - rest@.len()),
            rest@.len() <= original.len(),
            out@.to_multiset() == original.take(original.len() - rest@.len()).to_multiset(),
            by_footprint(out@),
            stable_by_footprint(original.take(original.len() - rest@.len()), out@, perm),
        decreases rest@.len(),
    {
        let ghost k = original.len() - rest@.len();
        let u = rest.remove(0);
        proof {
            assert(u == original[k]);
            assert(rest@ =~= original.skip(k + 1));
        }
        let mut p: usize = 0;
        while p < out.len() && out[p].physical_bytes >= u.physical_bytes
            invariant
                p <= out.len(),
                forall|i: int| 0 <= i < p ==> (#[trigger] out@[i]).physical_bytes >= u.physical_bytes,
            decreases out.len() - p,
        {
            p += 1;
        }
        let ghost before = out@;
        let ghost old_perm = perm;
        let ghost prefix = original.take(k);
        let ghost next = original.take(k + 1);
        out.insert(p, u);
        proof {
            assert(out@ == before.insert(p as int, u));
            assert(next =~= prefix.push(u));
            perm = old_perm.insert(p as int, k);
            assert forall|i: int, j: int| 0 <= i < j < out@.len() implies (#[trigger] out@[i]).physical_bytes
                >= (#[trigger] out@[j]).physical_bytes by {
                if j < p {
                } else if j == p {
                } else if i < p {
                    assert(out@[j] == before[j - 1]);
                } else if i == p {
                    assert(out@[j] == before[j - 1]);
                    assert(before[p as int].physical_bytes < u.physical_bytes);
                    if j - 1 > p {
                        assert(before[p as int].physical_bytes >= before[j - 1].physical_bytes);
                    }
                } else {
                    assert(out@[i] == before[i - 1]);
                    assert(out@[j] == before[j - 1]);
                }
            }
            assert forall|i: int| 0 <= i < out@.len() implies 0 <= #[trigger] perm[i] < next.len()
                && out@[i] == next[perm[i]] by {
                if i < p {
                    assert(perm[i] == old_perm[i]);
                    assert(out@[i] == before[i]);
                } else if i > p {
                    assert(perm[i] == old_perm[i - 1]);
                    assert(out@[i] == before[i - 1]);
                }
            }
            assert forall|i: int, j: int| 0 <= i < j < out@.len() implies #[trigger] perm[i]
                != #[trigger] perm[j] by {
                if i != p && j != p {
                    let oi = if i < p { i } else { i - 1 };
                    let oj = if j < p { j } else { j - 1 };
                    assert(perm[i] == old_perm[oi]);
                    assert(perm[j] == old_perm[oj]);
                } else if i == p {
                    assert(perm[j] == old_perm[j - 1]);
                } else {
                    let oi = if i < p { i } else { i - 1 };
                    assert(perm[i] == old_perm[oi]);
                }
            }
            assert forall|i: int, j: int|
                0 <= i < j < out@.len() && (#[trigger] out@[i]).physical_bytes == (#[trigger] out@[j]).physical_bytes
                    implies perm[i] < perm[j] by {
                if i != p && j != p {
                    let oi = if i < p { i } else { i - 1 };
                    let oj = if j < p { j } else { j - 1 };
                    assert(perm[i] == old_perm[oi]);
                    assert(perm[j] == old_perm[oj]);
                    assert(out@[i] == before[oi]);
                    assert(out@[j] == before[oj]);
                } else if j == p {
                    assert(perm[i] == old_perm[i]);
                } else {
                    assert(out@[j] == before[j - 1]);
                    assert(before[p as int].physical_bytes < u.physical_bytes);
                    if j - 1 > p {
                        assert(before[p as int].physical_bytes >= before[j - 1].physical_bytes);
                    }
                }
            }
            vstd::seq_lib::to_multiset_insert(before, p as int, u);
            vstd::seq_lib::to_multiset_build(prefix, u);
        }
    }
    proof {
        assert(original.take(original.len() as int) =~= original);
    }
    out
}

} // verus!
