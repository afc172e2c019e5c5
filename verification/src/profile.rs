use crate::engine::catalog::{retained_spec, select_labels, PlanError, Registry};
use crate::engine::planner::{self, candidates, Policy};
use crate::process::{contains_string, str_views, strs};
use crate::sim::Device;
use crate::text::{
    chars_of, find, find_pattern, insert_sorted, is_char, lemma_find_from_bounds, lines,
    next_line, str_contains, str_eq, strict_subrange_eq, strictly_sorted, string_of,
    strip_char_bounds, strip_end, strip_end_bounds, strip_start, trim_bounds, trim_spec,
};
use vstd::prelude::*;

verus! {

/// What a profile request does.
#[derive(Clone, Copy, Debug, PartialEq, Eq)]
pub enum Operation {
    Plan,
    Apply,
    Restore,
    Verify,
}

/// Which services a profile disables.
#[derive(Clone, Copy, Debug, PartialEq, Eq)]
pub enum Preset {
    Balanced,
    Slim,
}

impl Default for Preset {
    fn default() -> (r: Self)
        ensures
            r == Preset::Slim,
    {
        Preset::Slim
    }
}

/// A profile request for one device.
#[derive(Debug)]
pub struct Request {
    pub device: String,
    pub operation: Operation,
    pub keep: Vec<String>,
    pub preset: Preset,
}

/// The record of an applied profile: the labels it disabled and the
/// capabilities it kept.
#[derive(Debug)]
pub struct Receipt {
    pub device: String,
    pub changed: Vec<String>,
    pub keep: Vec<String>,
}

/// The planner policy of a preset.
pub open spec fn policy_of(preset: Preset) -> Policy {
    match preset {
        Preset::Balanced => Policy::Balanced,
        Preset::Slim => Policy::Optimized,
    }
}

/// The labels a profile disables for `keep` under `preset`.
pub fn plan(registry: &Registry, keep: &[String], preset: Preset) -> (r: Result<
    Vec<String>,
    PlanError,
>)
    requires
        registry.wf(),
    ensures
        match retained_spec(registry.label_seq(), registry.catalog_spec(), strs(keep@)) {
            Ok(kept) => r matches Ok(v) && strs(v@) == select_labels(
                registry.label_seq(),
                candidates(registry.label_seq(), policy_of(preset)).difference(kept),
            ),
            Err(e) => r matches Err(PlanError::UnknownCapability(c)) && c@ == e,
        },
{
    planner::plan(
        registry,
        keep,
        match preset {
            Preset::Balanced => Policy::Balanced,
            Preset::Slim => Policy::Optimized,
        },
    )
}

/// Whether `keep` names a capability that is one of `words`.
pub open spec fn keeps_any(keep: Seq<Seq<char>>, words: Seq<Seq<char>>) -> bool {
    exists|i: int| 0 <= i < keep.len() && #[trigger] words.contains(keep[i])
}

fn keeps_any_exec(keep: &[String], words: &Vec<&str>) -> (r: bool)
    ensures
        r == keeps_any(strs(keep@), str_views(words@)),
{
    let mut i: usize = 0;
    while i < keep.len()
        invariant
            i <= keep.len(),
            forall|j: int| 0 <= j < i ==> !str_views(words@).contains(#[trigger] strs(keep@)[j]),
        decreases keep.len() - i,
    {
        let mut w: usize = 0;
        while w < words.len()
            invariant
                i < keep.len(),
                w <= words.len(),
                forall|j: int| 0 <= j < w ==> str_views(words@)[j] != keep@[i as int]@,
            decreases words.len() - w,
        {
            if str_eq(keep[i].as_str(), words[w]) {
                assert(str_views(words@)[w as int] == strs(keep@)[i as int]);
                assert(str_views(words@).contains(strs(keep@)[i as int]));
                return true;
            }
            w += 1;
        }
        i += 1;
    }
    false
}

/// Whether Spotlight is terminated after boot: unless search or spotlight
/// is kept.
pub fn should_trim_spotlight(keep: &[String]) -> (r: bool)
    ensures
        r == !keeps_any(strs(keep@), seq!["search"@, "spotlight"@]),
{
    let words = vec!["search", "spotlight"];
    assert(str_views(words@) =~= seq!["search"@, "spotlight"@]);
    !keeps_any_exec(keep, &words)
}

/// Whether the Watch user agents are booted out after boot: unless watch is
/// kept.
pub fn should_trim_watch_agents(keep: &[String]) -> (r: bool)
    ensures
        r == !keeps_any(strs(keep@), seq!["watch"@]),
{
    let words = vec!["watch"];
    assert(str_views(words@) =~= seq!["watch"@]);
    !keeps_any_exec(keep, &words)
}

/// The optional Watch synchronization agents.
pub open spec fn watch_user_agents_spec() -> Seq<Seq<char>> {
    seq![
        "com.apple.NPKCompanionAgent"@,
        "com.apple.addressbooksyncd"@,
        "com.apple.appconduitd"@,
        "com.apple.brook.brookcompaniond"@,
        "com.apple.bulletindistributord"@,
        "com.apple.companionappd"@,
        "com.apple.eventkitsyncd"@,
        "com.apple.nanoprefsyncd"@,
        "com.apple.nanoregistryd"@,
        "com.apple.nanoregistrylaunchd"@,
    ]
}

/// The optional Watch synchronization agents.
pub fn watch_user_agents() -> (r: Vec<&'static str>)
    ensures
        str_views(r@) == watch_user_agents_spec(),
{
    let r = vec![
        "com.apple.NPKCompanionAgent",
        "com.apple.addressbooksyncd",
        "com.apple.appconduitd",
        "com.apple.brook.brookcompaniond",
        "com.apple.bulletindistributord",
        "com.apple.companionappd",
        "com.apple.eventkitsyncd",
        "com.apple.nanoprefsyncd",
        "com.apple.nanoregistryd",
        "com.apple.nanoregistrylaunchd",
    ];
    assert(str_views(r@) =~= watch_user_agents_spec());
    r
}

/// Whether a failed Spotlight termination only says that it was not
/// running.
pub fn spotlight_already_gone(message: &str) -> (r: bool)
    ensures
        r == crate::text::contains_seq(message@, "found nothing to terminate"@),
{
    str_contains(message, "found nothing to terminate")
}

/// The file name of a device's profile receipt.
pub fn receipt_file_name(device: &str) -> (r: String)
    ensures
        r@ == device@ + ".profile.json"@,
{
    let mut s = String::from_str(device);
    s.append(".profile.json");
    s
}

/// `=>`, between a label and its state in `launchctl print-disabled`.
pub open spec fn arrow() -> Seq<char> {
    seq!['=', '>']
}

/// The label a `launchctl print-disabled` line reports disabled, if any:
/// the line is split at its first `=>`, the state trimmed and stripped of
/// trailing commas must be `true` or `disabled`, and the label is trimmed
/// and stripped of quotes.
pub open spec fn disabled_label(line: Seq<char>) -> Option<Seq<char>> {
    match find(line, arrow()) {
        None => None,
        Some(i) => {
            let state = strip_end(trim_spec(line.skip(i + 2)), is_char(','));
            if state == "true"@ || state == "disabled"@ {
                Some(strip_end(strip_start(trim_spec(line.take(i)), is_char('"')), is_char('"')))
            } else {
                None
            }
        },
    }
}

/// The labels that the lines report disabled, in order.
pub open spec fn disabled_of_lines(ls: Seq<Seq<char>>) -> Seq<Seq<char>>
    decreases ls.len(),
{
    if ls.len() == 0 {
        seq![]
    } else {
        match disabled_label(ls[0]) {
            Some(l) => seq![l] + disabled_of_lines(ls.skip(1)),
            None => disabled_of_lines(ls.skip(1)),
        }
    }
}

fn disabled_line(line: &Vec<char>) -> (r: Option<String>)
    ensures
        match disabled_label(line@) {
            Some(l) => r matches Some(s) && s@ == l,
            None => r is None,
        },
{
    let arrow_chars = chars_of("=>");
    proof {
        reveal_strlit("=>");
        assert(arrow_chars@ =~= arrow());
        lemma_find_from_bounds(line@, arrow_chars@, 0);
    }
    match find_pattern(line, &arrow_chars, 0) {
        None => None,
        Some(i) => {
            let (a, b) = trim_bounds(line, i + 2, line.len());
            let e = strip_end_bounds(line, a, b, ',');
            proof {
                assert(line@.subrange(i + 2, line.len() as int) =~= line@.skip(i + 2));
            }
            let accepted = strict_subrange_eq(line, a, e, "true") || strict_subrange_eq(
                line,
                a,
                e,
                "disabled",
            );
            if accepted {
                let (c, d) = trim_bounds(line, 0, i);
                let (x, y) = strip_char_bounds(line, c, d, '"');
                proof {
                    assert(line@.subrange(0, i as int) =~= line@.take(i as int));
                }
                Some(string_of(line, x, y))
            } else {
                None
            }
        },
    }
}

proof fn lemma_disabled_cons(l: Seq<char>, rest: Seq<Seq<char>>)
    ensures
        disabled_of_lines(seq![l] + rest) == (match disabled_label(l) {
            Some(x) => seq![x] + disabled_of_lines(rest),
            None => disabled_of_lines(rest),
        }),
{
    assert((seq![l] + rest).skip(1) =~= rest);
    assert((seq![l] + rest)[0] == l);
}

/// The labels that `launchctl print-disabled` output reports disabled, as a
/// sorted set.
pub fn disabled(output: &str) -> (r: Vec<String>)
    ensures
        strictly_sorted(strs(r@)),
        strs(r@).to_set() == disabled_of_lines(lines(output@)).to_set(),
{
    let v = chars_of(output);
    let mut out: Vec<String> = Vec::new();
    let mut pos: usize = 0;
    proof {
        assert(v@.skip(0) =~= v@);
        assert(strs(out@).to_set() =~= Set::<Seq<char>>::empty());
        assert(disabled_of_lines(lines(v@)).to_set() =~= Set::<Seq<char>>::empty().union(
            disabled_of_lines(lines(v@.skip(0))).to_set(),
        ));
    }
    while pos < v.len()
        invariant
            pos <= v.len(),
            v@ == output@,
            strictly_sorted(strs(out@)),
            disabled_of_lines(lines(v@)).to_set() == strs(out@).to_set().union(
                disabled_of_lines(lines(v@.skip(pos as int))).to_set(),
            ),
        decreases v.len() - pos,
    {
        let (line, next) = next_line(&v, pos);
        let found = disabled_line(&line);
        proof {
            lemma_disabled_cons(line@, lines(v@.skip(next as int)));
        }
        let ghost before = strs(out@).to_set();
        let ghost rest = disabled_of_lines(lines(v@.skip(next as int))).to_set();
        match found {
            Some(l) => {
                insert_sorted(&mut out, &l);
                proof {
                    crate::text::lemma_cons_to_set(l@, disabled_of_lines(lines(v@.skip(next as int))));
                    assert(before.union(rest.insert(l@)) =~= before.insert(l@).union(rest));
                }
            },
            None => {},
        }
        pos = next;
    }
    proof {
        assert(v@.skip(pos as int) =~= Seq::<char>::empty());
        assert(lines(v@.skip(pos as int)) =~= Seq::<Seq<char>>::empty());
        assert(disabled_of_lines(Seq::<Seq<char>>::empty()).to_set() =~= Set::<
            Seq<char>,
        >::empty());
        assert(strs(out@).to_set().union(Set::<Seq<char>>::empty()) =~= strs(out@).to_set());
    }
    out
}

/// Why a profile operation stops.
#[derive(Debug)]
pub enum ProfileError {
    Plan(PlanError),
    /// After reboot some disables are missing or a retained service is
    /// disabled.
    Drift { missing: usize, broken: Vec<String> },
    /// The receipt was made for another device or other capabilities.
    CapabilitiesChanged,
    /// The receipt disabled services outside this preset.
    PresetChanged,
    /// A retained service is disabled already.
    RequiredDisabled,
    /// The device runs another runtime than the tested one.
    UntestedRuntime,
    /// The device is not booted.
    NotBooted,
    /// An app session is running on the device.
    SessionActive,
}

/// The labels of `labels` that `set` does not hold, in order.
pub open spec fn not_in_set(labels: Seq<Seq<char>>, set: Seq<Seq<char>>) -> Seq<Seq<char>> {
    labels.filter(|l: Seq<char>| !set.contains(l))
}

/// The labels of `labels` that `set` holds, in order.
pub open spec fn in_set(labels: Seq<Seq<char>>, set: Seq<Seq<char>>) -> Seq<Seq<char>> {
    labels.filter(|l: Seq<char>| set.contains(l))
}

/// Filters `labels` by membership in `set`: those it holds when `inside`,
/// else those it does not hold.
fn filter_by(labels: &[String], set: &[String], inside: bool) -> (r: Vec<String>)
    ensures
        strs(r@) == (if inside {
            in_set(strs(labels@), strs(set@))
        } else {
            not_in_set(strs(labels@), strs(set@))
        }),
{
    let ghost pred: spec_fn(Seq<char>) -> bool = if inside {
        |l: Seq<char>| strs(set@).contains(l)
    } else {
        |l: Seq<char>| !strs(set@).contains(l)
    };
    let mut out: Vec<String> = Vec::new();
    let mut i: usize = 0;
    proof {
        reveal(Seq::filter);
        assert(strs(labels@).take(0) =~= Seq::<Seq<char>>::empty());
        assert(strs(labels@).take(0).filter(pred) =~= Seq::<Seq<char>>::empty());
        assert(strs(out@) =~= Seq::<Seq<char>>::empty());
    }
    while i < labels.len()
        invariant
            i <= labels.len(),
            pred == (if inside {
                |l: Seq<char>| strs(set@).contains(l)
            } else {
                |l: Seq<char>| !strs(set@).contains(l)
            }),
            strs(out@) == strs(labels@).take(i as int).filter(pred),
        decreases labels.len() - i,
    {
        let held = contains_string(set, labels[i].as_str());
        let ghost before = strs(out@);
        proof {
            assert(strs(labels@).take(i + 1) =~= strs(labels@).take(i as int).push(
                labels@[i as int]@,
            ));
            strs(labels@).take(i as int).lemma_filter_push(labels@[i as int]@, pred);
        }
        if held == inside {
            out.push(labels[i].clone());
            assert(strs(out@) =~= before.push(labels@[i as int]@));
        }
        i += 1;
    }
    assert(strs(labels@).take(labels.len() as int) =~= strs(labels@));
    out
}

/// Checks a device's disabled services after reboot: every planned label is
/// disabled and no service that `keep` retains is.
pub fn verify(registry: &Registry, current: &[String], labels: &[String], keep: &[String]) -> (r:
    Result<(), ProfileError>)
    requires
        registry.wf(),
    ensures
        match retained_spec(registry.label_seq(), registry.catalog_spec(), strs(keep@)) {
            Err(e) => r matches Err(ProfileError::Plan(PlanError::UnknownCapability(c))) && c@
                == e,
            Ok(kept) => {
                let missing = not_in_set(strs(labels@), strs(current@));
                let broken = in_set(select_labels(registry.label_seq(), kept), strs(current@));
                &&& (missing.len() == 0 && broken.len() == 0) ==> r is Ok
                &&& !(missing.len() == 0 && broken.len() == 0) ==> (r matches Err(
                    ProfileError::Drift { missing: m, broken: b },
                ) && m == missing.len() && strs(b@) == broken)
            },
        },
{
    let missing = filter_by(labels, current, false);
    let retained = match planner::retained_labels(registry, keep) {
        Ok(v) => v,
        Err(e) => {
            return Err(ProfileError::Plan(e));
        },
    };
    let broken = filter_by(retained.as_slice(), current, true);
    if missing.len() == 0 && broken.len() == 0 {
        Ok(())
    } else {
        Err(ProfileError::Drift { missing: missing.len(), broken })
    }
}

/// Whether `a` and `b` hold equal strings in the same order.
pub fn same_strings(a: &[String], b: &[String]) -> (r: bool)
    ensures
        r == (strs(a@) == strs(b@)),
{
    if a.len() != b.len() {
        assert(strs(a@).len() != strs(b@).len());
        return false;
    }
    let mut i: usize = 0;
    while i < a.len()
        invariant
            i <= a.len() == b.len(),
            forall|j: int| 0 <= j < i ==> a@[j]@ == b@[j]@,
        decreases a.len() - i,
    {
        if a[i] != b[i] {
            assert(strs(a@)[i as int] != strs(b@)[i as int]);
            return false;
        }
        i += 1;
    }
    assert(strs(a@) =~= strs(b@));
    true
}

/// `changed` with each label of `delta` appended that it does not hold yet.
pub open spec fn append_missing(changed: Seq<Seq<char>>, delta: Seq<Seq<char>>) -> Seq<Seq<char>>
    decreases delta.len(),
{
    if delta.len() == 0 {
        changed
    } else {
        let c = append_missing(changed, delta.drop_last());
        if c.contains(delta.last()) {
            c
        } else {
            c.push(delta.last())
        }
    }
}

/// Whether every element of `xs` is in `ys`.
pub open spec fn all_in(xs: Seq<Seq<char>>, ys: Seq<Seq<char>>) -> bool {
    forall|i: int| 0 <= i < xs.len() ==> ys.contains(#[trigger] xs[i])
}

fn all_in_exec(xs: &[String], ys: &[String]) -> (r: bool)
    ensures
        r == all_in(strs(xs@), strs(ys@)),
{
    let mut i: usize = 0;
    while i < xs.len()
        invariant
            i <= xs.len(),
            forall|j: int| 0 <= j < i ==> strs(ys@).contains(#[trigger] strs(xs@)[j]),
        decreases xs.len() - i,
    {
        if !contains_string(ys, xs[i].as_str()) {
            assert(!strs(ys@).contains(strs(xs@)[i as int]));
            return false;
        }
        i += 1;
    }
    true
}

fn any_in_exec(xs: &[String], ys: &[String]) -> (r: bool)
    ensures
        r == exists|i: int| 0 <= i < xs.len() && strs(ys@).contains(#[trigger] strs(xs@)[i]),
{
    let mut i: usize = 0;
    while i < xs.len()
        invariant
            i <= xs.len(),
            forall|j: int| 0 <= j < i ==> !strs(ys@).contains(#[trigger] strs(xs@)[j]),
        decreases xs.len() - i,
    {
        if contains_string(ys, xs[i].as_str()) {
            assert(strs(ys@).contains(strs(xs@)[i as int]));
            return true;
        }
        i += 1;
    }
    false
}

fn clone_strings(v: &[String]) -> (r: Vec<String>)
    ensures
        r@ == v@,
{
    let mut out: Vec<String> = Vec::new();
    let mut i: usize = 0;
    while i < v.len()
        invariant
            i <= v.len(),
            out@ == v@.take(i as int),
        decreases v.len() - i,
    {
        out.push(v[i].clone());
        i += 1;
        assert(out@ =~= v@.take(i as int));
    }
    assert(v@.take(v.len() as int) =~= v@);
    out
}

/// Prepares a profile application: checks a previous receipt against the
/// request, refuses when a retained service is disabled already, and
/// returns the receipt to write before any change with the labels to
/// disable now (the planned labels not disabled yet).
pub fn prepare_apply(
    previous: Option<Receipt>,
    udid: &str,
    keep: &[String],
    labels: &[String],
    existing: &[String],
    retained: &[String],
) -> (r: Result<(Receipt, Vec<String>), ProfileError>)
    ensures
        match previous {
            Some(p) => {
                &&& !(p.device@ == udid@ && strs(p.keep@) == strs(keep@)) ==> (r matches Err(
                    ProfileError::CapabilitiesChanged,
                ))
                &&& (p.device@ == udid@ && strs(p.keep@) == strs(keep@) && !all_in(
                    strs(p.changed@),
                    strs(labels@),
                )) ==> (r matches Err(ProfileError::PresetChanged))
            },
            None => true,
        },
        (match previous {
            Some(p) => p.device@ == udid@ && strs(p.keep@) == strs(keep@) && all_in(
                strs(p.changed@),
                strs(labels@),
            ),
            None => true,
        }) ==> {
            let required_disabled = exists|i: int|
                0 <= i < retained.len() && strs(existing@).contains(#[trigger] strs(retained@)[i]);
            let delta = not_in_set(strs(labels@), strs(existing@));
            let base = match previous {
                Some(p) => strs(p.changed@),
                None => seq![],
            };
            &&& required_disabled ==> (r matches Err(ProfileError::RequiredDisabled))
            &&& !required_disabled ==> (r matches Ok((receipt, d)) && receipt.device@ == udid@
                && strs(receipt.keep@) == strs(keep@) && strs(d@) == delta && strs(
                receipt.changed@,
            ) == append_missing(base, delta))
        },
{
    let mut receipt = match previous {
        Some(p) => {
            if !(str_eq(p.device.as_str(), udid) && same_strings(p.keep.as_slice(), keep)) {
                return Err(ProfileError::CapabilitiesChanged);
            }
            if !all_in_exec(p.changed.as_slice(), labels) {
                return Err(ProfileError::PresetChanged);
            }
            p
        },
        None => Receipt { device: String::from_str(udid), changed: Vec::new(), keep: clone_strings(keep) },
    };
    if any_in_exec(retained, existing) {
        return Err(ProfileError::RequiredDisabled);
    }
    let delta = filter_by(labels, existing, false);
    let ghost base = strs(receipt.changed@);
    let mut i: usize = 0;
    proof {
        assert(strs(delta@).take(0) =~= Seq::<Seq<char>>::empty());
    }
    while i < delta.len()
        invariant
            i <= delta.len(),
            strs(receipt.changed@) == append_missing(base, strs(delta@).take(i as int)),
            receipt.device@ == udid@,
            strs(receipt.keep@) == strs(keep@),
        decreases delta.len() - i,
    {
        proof {
            let t = strs(delta@).take(i + 1);
            assert(t.drop_last() =~= strs(delta@).take(i as int));
            assert(t.last() == delta@[i as int]@);
        }
        if !contains_string(receipt.changed.as_slice(), delta[i].as_str()) {
            let ghost before = receipt.changed@;
            receipt.changed.push(delta[i].clone());
            assert(strs(receipt.changed@) =~= strs(before).push(delta@[i as int]@));
        }
        i += 1;
    }
    proof {
        assert(strs(delta@).take(delta.len() as int) =~= strs(delta@));
        assert(strs(delta@) == not_in_set(strs(labels@), strs(existing@)));
        assert(base == match previous {
            Some(p) => strs(p.changed@),
            None => seq![],
        });
    }
    Ok((receipt, delta))
}

/// What appending the missing labels of `delta` to `changed` holds: both.
pub proof fn lemma_append_missing(changed: Seq<Seq<char>>, delta: Seq<Seq<char>>, x: Seq<char>)
    ensures
        append_missing(changed, delta).contains(x) <==> (changed.contains(x) || delta.contains(x)),
    decreases delta.len(),
{
    if delta.len() > 0 {
        lemma_append_missing(changed, delta.drop_last(), x);
        let c = append_missing(changed, delta.drop_last());
        assert(delta.contains(x) <==> (delta.drop_last().contains(x) || delta.last() == x)) by {
            if delta.contains(x) {
                let k = choose|k: int| 0 <= k < delta.len() && delta[k] == x;
                if k < delta.len() - 1 {
                    assert(delta.drop_last()[k] == x);
                }
            }
            if delta.drop_last().contains(x) {
                let k = choose|k: int| 0 <= k < delta.drop_last().len() && delta.drop_last()[k] == x;
                assert(delta[k] == x);
            }
            if delta.last() == x {
                assert(delta[delta.len() - 1] == x);
            }
        }
        if !c.contains(delta.last()) {
            assert(c.push(delta.last()).contains(x) <==> (c.contains(x) || delta.last() == x)) by {
                if c.push(delta.last()).contains(x) {
                    let k = choose|k: int| 0 <= k < c.len() + 1 && c.push(delta.last())[k] == x;
                    if k < c.len() {
                        assert(c[k] == x);
                    }
                }
                if c.contains(x) {
                    let k = choose|k: int| 0 <= k < c.len() && c[k] == x;
                    assert(c.push(delta.last())[k] == x);
                }
                if delta.last() == x {
                    assert(c.push(delta.last())[c.len() as int] == x);
                }
            }
        }
    }
}

/// Profiles are reversible: a first application records in its receipt
/// exactly the services it disables, and none of them was disabled before,
/// so restoring the receipt enables only what the profile turned off.
pub proof fn lemma_first_receipt_is_reversible(labels: Seq<Seq<char>>, existing: Seq<Seq<char>>, x: Seq<char>)
    ensures
        append_missing(seq![], not_in_set(labels, existing)).contains(x) <==> not_in_set(
            labels,
            existing,
        ).contains(x),
        append_missing(seq![], not_in_set(labels, existing)).contains(x) ==> labels.contains(x)
            && !existing.contains(x),
{
    let delta = not_in_set(labels, existing);
    lemma_append_missing(seq![], delta, x);
    assert(!Seq::<Seq<char>>::empty().contains(x));
    if delta.contains(x) {
        let k = choose|k: int| 0 <= k < delta.len() && delta[k] == x;
        let p = |l: Seq<char>| !existing.contains(l);
        assert(delta == labels.filter(p));
        labels.lemma_filter_pred(p, k);
        labels.lemma_filter_contains_rev(p, x);
    }
}

/// The runtime that profiles were tested on.
pub open spec fn tested_runtime() -> Seq<char> {
    "com.apple.CoreSimulator.SimRuntime.iOS-26-5"@
}

/// Checks that a device may have its profile changed: it runs the tested
/// runtime, it is booted, and no app session is active on it.
pub fn check_target(device: &Device, session_active: Option<bool>) -> (r: Result<(), ProfileError>)
    ensures
        device.runtime@ != tested_runtime() ==> (r matches Err(ProfileError::UntestedRuntime)),
        device.runtime@ == tested_runtime() && device.state@ != "Booted"@ ==> (r matches Err(
            ProfileError::NotBooted,
        )),
        device.runtime@ == tested_runtime() && device.state@ == "Booted"@ ==> (r is Ok
            <==> session_active != Some(true)),
        device.runtime@ == tested_runtime() && device.state@ == "Booted"@ && session_active
            == Some(true) ==> (r matches Err(ProfileError::SessionActive)),
{
    if !str_eq(device.runtime.as_str(), "com.apple.CoreSimulator.SimRuntime.iOS-26-5") {
        return Err(ProfileError::UntestedRuntime);
    }
    if !str_eq(device.state.as_str(), "Booted") {
        return Err(ProfileError::NotBooted);
    }
    if session_active == Some(true) {
        return Err(ProfileError::SessionActive);
    }
    Ok(())
}

/// Whether a restore survived reboot: no label of the receipt is still
/// disabled.
pub fn restore_survived(changed: &[String], actual: &[String]) -> (r: bool)
    ensures
        r == !exists|i: int| 0 <= i < changed.len() && strs(actual@).contains(#[trigger] strs(changed@)[i]),
{
    !any_in_exec(changed, actual)
}

} // verus!
