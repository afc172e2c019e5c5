use crate::engine::catalog::{
    all_indexes, indexes_of, lemma_unique, retained_spec, select_labels, select_prefix, PlanError,
    Registry,
};
use crate::text::{lex_lt, strictly_sorted};
use crate::process::{str_views, strs};
use vstd::prelude::*;

verus! {

/// Which services a plan may disable.
#[derive(Clone, Copy, Debug, PartialEq, Eq)]
pub enum Policy {
    /// Only the listed heavy background services.
    Balanced,
    /// Every service of the catalog.
    Optimized,
}

/// The services the balanced policy may disable.
pub open spec fn balanced_services() -> Seq<Seq<char>> {
    seq![
        "com.apple.assistantd"@,
        "com.apple.corespeechd"@,
        "com.apple.searchd"@,
        "com.apple.searchtoold"@,
        "com.apple.assetsd"@,
        "com.apple.photoanalysisd"@,
        "com.apple.cloudd"@,
        "com.apple.healthd"@,
        "com.apple.homed"@,
        "com.apple.chronod"@,
        "com.apple.liveactivitiesd"@,
    ]
}

fn balanced_list() -> (r: Vec<&'static str>)
    ensures
        str_views(r@) == balanced_services(),
{
    let r = vec![
        "com.apple.assistantd",
        "com.apple.corespeechd",
        "com.apple.searchd",
        "com.apple.searchtoold",
        "com.apple.assetsd",
        "com.apple.photoanalysisd",
        "com.apple.cloudd",
        "com.apple.healthd",
        "com.apple.homed",
        "com.apple.chronod",
        "com.apple.liveactivitiesd",
    ];
    assert(str_views(r@) =~= balanced_services());
    r
}

/// The positions a policy may disable.
pub open spec fn candidates(labels: Seq<Seq<char>>, policy: Policy) -> Set<int> {
    match policy {
        Policy::Balanced => indexes_of(labels, balanced_services()),
        Policy::Optimized => all_indexes(labels.len() as int),
    }
}

/// The labels to disable: the policy's candidates less every service that
/// the capabilities in `keep` retain, in label order.
pub fn plan(registry: &Registry, keep: &[String], policy: Policy) -> (r: Result<
    Vec<String>,
    PlanError,
>)
    requires
        registry.wf(),
    ensures
        match retained_spec(registry.label_seq(), registry.catalog_spec(), strs(keep@)) {
            Ok(kept) => r matches Ok(v) && strs(v@) == select_labels(
                registry.label_seq(),
                candidates(registry.label_seq(), policy).difference(kept),
            ),
            Err(e) => r matches Err(PlanError::UnknownCapability(c)) && c@ == e,
        },
{
    let candidates = match policy {
        Policy::Balanced => {
            let list = balanced_list();
            registry.mask_for_labels(list.as_slice())
        },
        Policy::Optimized => registry.all(),
    };
    let kept = registry.retained(keep)?;
    Ok(registry.labels(candidates.difference(kept)))
}

/// The labels that the capabilities in `keep` retain, in label order.
pub fn retained_labels(registry: &Registry, keep: &[String]) -> (r: Result<Vec<String>, PlanError>)
    requires
        registry.wf(),
    ensures
        match retained_spec(registry.label_seq(), registry.catalog_spec(), strs(keep@)) {
            Ok(kept) => r matches Ok(v) && strs(v@) == select_labels(registry.label_seq(), kept),
            Err(e) => r matches Err(PlanError::UnknownCapability(c)) && c@ == e,
        },
{
    let kept = registry.retained(keep)?;
    Ok(registry.labels(kept))
}

/// A label is selected from a mask exactly when its position is in the mask,
/// provided the labels are distinct.
pub proof fn lemma_select_contains(labels: Seq<Seq<char>>, m: Set<int>, n: int, l: Seq<char>)
    requires
        0 <= n <= labels.len(),
        labels.no_duplicates(),
    ensures
        select_prefix(labels, m, n).contains(l) <==> exists|i: int|
            0 <= i < n && m.contains(i) && labels[i] == l,
    decreases n,
{
    if n > 0 {
        lemma_select_contains(labels, m, n - 1, l);
        if select_prefix(labels, m, n).contains(l) && !select_prefix(labels, m, n - 1).contains(
            l,
        ) {
            assert(m.contains(n - 1) && labels[n - 1] == l);
        }
        if exists|i: int| 0 <= i < n && m.contains(i) && labels[i] == l {
            let i = choose|i: int| 0 <= i < n && m.contains(i) && labels[i] == l;
            if i == n - 1 {
                assert(select_prefix(labels, m, n) == select_prefix(labels, m, n - 1).push(l));
                assert(select_prefix(labels, m, n)[select_prefix(labels, m, n - 1).len() as int]
                    == l);
            } else {
                assert(exists|j: int| 0 <= j < n - 1 && m.contains(j) && labels[j] == l);
                let s = select_prefix(labels, m, n - 1);
                let k = choose|k: int| 0 <= k < s.len() && s[k] == l;
                if m.contains(n - 1) {
                    assert(select_prefix(labels, m, n)[k] == l);
                }
            }
        }
    }
}

/// A plan never disables a service that a kept capability retains, and it
/// disables every candidate service that no kept capability retains.
pub proof fn lemma_plan_respects_kept(
    labels: Seq<Seq<char>>,
    cands: Set<int>,
    kept: Set<int>,
    l: Seq<char>,
)
    requires
        labels.no_duplicates(),
    ensures
        select_labels(labels, cands.difference(kept)).contains(l) <==> exists|i: int|
            0 <= i < labels.len() && labels[i] == l && cands.contains(i) && !kept.contains(i),
{
    lemma_select_contains(labels, cands.difference(kept), labels.len() as int, l);
}


/// A selection from strictly sorted labels is strictly sorted.
pub proof fn lemma_select_sorted(labels: Seq<Seq<char>>, m: Set<int>, n: int)
    requires
        0 <= n <= labels.len(),
        strictly_sorted(labels),
    ensures
        strictly_sorted(select_prefix(labels, m, n)),
    decreases n,
{
    if n > 0 {
        lemma_select_sorted(labels, m, n - 1);
        if m.contains(n - 1) {
            let s = select_prefix(labels, m, n - 1);
            let t = s.push(labels[n - 1]);
            lemma_unique(labels);
            assert forall|i: int, j: int| 0 <= i < j < t.len() implies lex_lt(
                #[trigger] t[i],
                #[trigger] t[j],
            ) by {
                if j == s.len() {
                    assert(s.contains(s[i]));
                    lemma_select_contains(labels, m, n - 1, s[i]);
                    let k = choose|k: int| 0 <= k < n - 1 && m.contains(k) && labels[k] == s[i];
                    assert(lex_lt(labels[k], labels[n - 1]));
                } else {
                    assert(t[i] == s[i] && t[j] == s[j]);
                }
            }
        }
    }
}

proof fn lemma_select_split_len(labels: Seq<Seq<char>>, kept: Set<int>, n: int)
    requires
        0 <= n <= labels.len(),
    ensures
        select_prefix(labels, all_indexes(labels.len() as int).difference(kept), n).len()
            + select_prefix(labels, kept, n).len() == n,
    decreases n,
{
    if n > 0 {
        lemma_select_split_len(labels, kept, n - 1);
        assert(all_indexes(labels.len() as int).contains(n - 1));
    }
}

/// The services an optimized plan disables and the services the kept
/// capabilities retain split the catalog between them: each list is
/// strictly ascending, no label is in both, every catalog label is in one
/// of them, and their lengths add up to the number of labels.
pub proof fn lemma_plan_and_retained_partition(registry: &Registry, keep: Seq<Seq<char>>)
    requires
        registry.wf(),
        retained_spec(registry.label_seq(), registry.catalog_spec(), keep) is Ok,
    ensures
        ({
            let labels = registry.label_seq();
            let kept = retained_spec(labels, registry.catalog_spec(), keep)->Ok_0;
            let planned = select_labels(labels, candidates(labels, Policy::Optimized).difference(kept));
            let retained = select_labels(labels, kept);
            &&& strictly_sorted(planned)
            &&& strictly_sorted(retained)
            &&& forall|l: Seq<char>| #[trigger] planned.contains(l) ==> !retained.contains(l)
            &&& forall|l: Seq<char>| #[trigger] labels.contains(l) <==> (planned.contains(l)
                || retained.contains(l))
            &&& planned.len() + retained.len() == labels.len()
        }),
{
    registry.lemma_wf();
    let labels = registry.label_seq();
    let kept = retained_spec(labels, registry.catalog_spec(), keep)->Ok_0;
    let all = all_indexes(labels.len() as int);
    let planned = select_labels(labels, all.difference(kept));
    let retained = select_labels(labels, kept);
    lemma_unique(labels);
    lemma_select_sorted(labels, all.difference(kept), labels.len() as int);
    lemma_select_sorted(labels, kept, labels.len() as int);
    lemma_select_split_len(labels, kept, labels.len() as int);
    assert forall|l: Seq<char>| #[trigger] planned.contains(l) implies !retained.contains(l) by {
        lemma_select_contains(labels, all.difference(kept), labels.len() as int, l);
        lemma_select_contains(labels, kept, labels.len() as int, l);
        let i = choose|i: int|
            0 <= i < labels.len() && all.difference(kept).contains(i) && labels[i] == l;
        if retained.contains(l) {
            let j = choose|j: int| 0 <= j < labels.len() && kept.contains(j) && labels[j] == l;
            assert(i == j);
        }
    }
    assert forall|l: Seq<char>| #[trigger] labels.contains(l) <==> (planned.contains(l)
        || retained.contains(l)) by {
        lemma_select_contains(labels, all.difference(kept), labels.len() as int, l);
        lemma_select_contains(labels, kept, labels.len() as int, l);
        if labels.contains(l) {
            let i = choose|i: int| 0 <= i < labels.len() && labels[i] == l;
            assert(all.contains(i));
        }
    }
}

} // verus!
