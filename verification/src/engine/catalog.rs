use crate::engine::mask::{ServiceMask, MAX_SERVICES};
use crate::process::{contains_string, str_views, strs};
use crate::text::{insert_sorted, lemma_lex_total, str_eq, strictly_sorted};
use vstd::prelude::*;

verus! {

/// The runtime service catalog: launchd labels grouped by category, and
/// named capabilities that retain a set of labels.
#[derive(Debug)]
pub struct Catalog {
    pub catalog_id: String,
    pub tested_runtime: String,
    pub categories: Vec<Category>,
    pub features: Vec<Feature>,
}

/// A group of launchd labels that one capability id retains.
#[derive(Debug)]
pub struct Category {
    pub id: String,
    pub labels: Vec<String>,
    pub downside: Option<String>,
}

/// A capability that retains labels taken from the categories.
#[derive(Debug)]
pub struct Feature {
    pub id: String,
    pub labels: Vec<String>,
}

/// All category labels, category by category, in catalog order.
pub open spec fn flat_labels(cats: Seq<Category>) -> Seq<Seq<char>>
    decreases cats.len(),
{
    if cats.len() == 0 {
        seq![]
    } else {
        flat_labels(cats.drop_last()) + strs(cats.last().labels@)
    }
}

/// The set of labels that the categories of a catalog name.
pub open spec fn catalog_labels(cats: Seq<Category>) -> Set<Seq<char>> {
    flat_labels(cats).to_set()
}

/// Whether every label a feature names is a category label.
pub open spec fn features_known(c: Catalog) -> bool {
    forall|f: int, j: int|
        0 <= f < c.features@.len() && 0 <= j < c.features@[f].labels@.len() ==> catalog_labels(
            c.categories@,
        ).contains(#[trigger] c.features@[f].labels@[j]@)
}

/// The positions of `labels` whose label `names` holds.
pub open spec fn indexes_of(labels: Seq<Seq<char>>, names: Seq<Seq<char>>) -> Set<int> {
    Set::new(|i: int| 0 <= i < labels.len() && names.contains(labels[i]))
}

/// The positions `0..n`.
pub open spec fn all_indexes(n: int) -> Set<int> {
    Set::new(|i: int| 0 <= i < n)
}

/// The labels of `labels[0..n]` whose position `m` holds, in order.
pub open spec fn select_prefix(labels: Seq<Seq<char>>, m: Set<int>, n: int) -> Seq<Seq<char>>
    decreases n,
{
    if n <= 0 {
        seq![]
    } else if m.contains(n - 1) {
        select_prefix(labels, m, n - 1).push(labels[n - 1])
    } else {
        select_prefix(labels, m, n - 1)
    }
}

/// The labels whose position `m` holds, in order.
pub open spec fn select_labels(labels: Seq<Seq<char>>, m: Set<int>) -> Seq<Seq<char>> {
    select_prefix(labels, m, labels.len() as int)
}

/// The position of the last category with id `id`.
pub open spec fn last_category(cats: Seq<Category>, id: Seq<char>) -> Option<int>
    decreases cats.len(),
{
    if cats.len() == 0 {
        None
    } else if cats.last().id@ == id {
        Some(cats.len() - 1)
    } else {
        last_category(cats.drop_last(), id)
    }
}

/// The position of the last feature with id `id`.
pub open spec fn last_feature(fs: Seq<Feature>, id: Seq<char>) -> Option<int>
    decreases fs.len(),
{
    if fs.len() == 0 {
        None
    } else if fs.last().id@ == id {
        Some(fs.len() - 1)
    } else {
        last_feature(fs.drop_last(), id)
    }
}

/// The positions a capability id retains: those of the last category with
/// that id, else those of the last feature with it.
pub open spec fn capability_mask(labels: Seq<Seq<char>>, c: Catalog, id: Seq<char>) -> Option<
    Set<int>,
> {
    match last_category(c.categories@, id) {
        Some(i) => Some(indexes_of(labels, strs(c.categories@[i].labels@))),
        None => match last_feature(c.features@, id) {
            Some(i) => Some(indexes_of(labels, strs(c.features@[i].labels@))),
            None => None,
        },
    }
}

/// The capability that is always retained and names no labels.
pub open spec fn network_word() -> Seq<char> {
    seq!['n', 'e', 't', 'w', 'o', 'r', 'k']
}

/// The positions that a list of capabilities retains, or the first
/// capability that the catalog does not know.
pub open spec fn retained_spec(labels: Seq<Seq<char>>, c: Catalog, keep: Seq<Seq<char>>) -> Result<
    Set<int>,
    Seq<char>,
>
    decreases keep.len(),
{
    if keep.len() == 0 {
        Ok(Set::empty())
    } else {
        match retained_spec(labels, c, keep.drop_last()) {
            Err(e) => Err(e),
            Ok(m) => if keep.last() == network_word() {
                Ok(m)
            } else {
                match capability_mask(labels, c, keep.last()) {
                    Some(s) => Ok(m.union(s)),
                    None => Err(keep.last()),
                }
            },
        }
    }
}

/// Why a catalog cannot index its services.
#[derive(Debug)]
pub enum CatalogError {
    /// More distinct labels than a service mask can hold.
    TooManyServices,
    /// A feature names a label that no category holds.
    UnknownServiceLabel(String),
}

/// Why a plan cannot be made.
#[derive(Debug)]
pub enum PlanError {
    UnknownCapability(String),
}

impl PlanError {
    /// The error as text.
    pub fn message(&self) -> (r: String)
        ensures
            match self {
                PlanError::UnknownCapability(c) => r@ == "Unknown capability "@ + c@,
            },
    {
        match self {
            PlanError::UnknownCapability(c) => {
                let mut s = String::from_str("Unknown capability ");
                s.append(c.as_str());
                s
            },
        }
    }
}

/// The catalog with its labels sorted and numbered, and a service mask for
/// each category and feature.
#[derive(Debug)]
pub struct Registry {
    catalog: Catalog,
    labels: Vec<String>,
    category_masks: Vec<ServiceMask>,
    feature_masks: Vec<ServiceMask>,
    all: ServiceMask,
}

impl Registry {
    /// The registry's internal invariant.
    pub closed spec fn wf(self) -> bool {
        &&& self.labels.len() <= MAX_SERVICES
        &&& strictly_sorted(strs(self.labels@))
        &&& strs(self.labels@).to_set() == catalog_labels(self.catalog.categories@)
        &&& features_known(self.catalog)
        &&& self.category_masks.len() == self.catalog.categories.len()
        &&& forall|c: int|
            0 <= c < self.category_masks.len() ==> (#[trigger] self.category_masks@[c]).members()
                == indexes_of(strs(self.labels@), strs(self.catalog.categories@[c].labels@))
        &&& self.feature_masks.len() == self.catalog.features.len()
        &&& forall|f: int|
            0 <= f < self.feature_masks.len() ==> (#[trigger] self.feature_masks@[f]).members()
                == indexes_of(strs(self.labels@), strs(self.catalog.features@[f].labels@))
        &&& self.all.members() == all_indexes(self.labels.len() as int)
    }

    /// The labels, numbered by position.
    pub closed spec fn label_seq(self) -> Seq<Seq<char>> {
        strs(self.labels@)
    }

    /// The catalog the registry was made from.
    pub closed spec fn catalog_spec(self) -> Catalog {
        self.catalog
    }

    /// What every registry keeps.
    pub proof fn lemma_wf(self)
        requires
            self.wf(),
        ensures
            self.label_seq().len() <= MAX_SERVICES,
            strictly_sorted(self.label_seq()),
            self.label_seq().to_set() == catalog_labels(self.catalog_spec().categories@),
            features_known(self.catalog_spec()),
    {
    }

    /// Numbers the labels of `catalog` in sorted order and builds the masks
    /// of its categories and features.
    pub fn from_catalog(catalog: Catalog) -> (r: Result<Registry, CatalogError>)
        ensures
            r is Ok <==> catalog_labels(catalog.categories@).len() <= MAX_SERVICES
                && features_known(catalog),
            r is Err && catalog_labels(catalog.categories@).len() > MAX_SERVICES ==> r matches Err(
                CatalogError::TooManyServices,
            ),
            r matches Err(CatalogError::UnknownServiceLabel(l)) ==> !catalog_labels(
                catalog.categories@,
            ).contains(l@) && exists|f: int, j: int|
                0 <= f < catalog.features@.len() && 0 <= j < catalog.features@[f].labels@.len()
                    && #[trigger] catalog.features@[f].labels@[j]@ == l@,
            r matches Ok(reg) ==> {
                &&& reg.wf()
                &&& reg.catalog_spec() == catalog
                &&& strictly_sorted(reg.label_seq())
                &&& reg.label_seq().to_set() == catalog_labels(catalog.categories@)
            },
    {
        let labels = sorted_labels(&catalog.categories);
        proof {
            lemma_unique(strs(labels@));
            strs(labels@).unique_seq_to_set();
        }
        if labels.len() > MAX_SERVICES {
            return Err(CatalogError::TooManyServices);
        }
        let mut f: usize = 0;
        while f < catalog.features.len()
            invariant
                f <= catalog.features.len(),
                forall|g: int, j: int|
                    0 <= g < f && 0 <= j < catalog.features@[g].labels@.len() ==> catalog_labels(
                        catalog.categories@,
                    ).contains(#[trigger] catalog.features@[g].labels@[j]@),
                strs(labels@).to_set() == catalog_labels(catalog.categories@),
                catalog_labels(catalog.categories@).len() <= MAX_SERVICES,
            decreases catalog.features.len() - f,
        {
            let names = &catalog.features[f].labels;
            let mut j: usize = 0;
            while j < names.len()
                invariant
                    f < catalog.features.len(),
                    names == catalog.features@[f as int].labels,
                    j <= names.len(),
                    forall|g: int, k: int|
                        0 <= g < f && 0 <= k < catalog.features@[g].labels@.len()
                            ==> catalog_labels(catalog.categories@).contains(
                            #[trigger] catalog.features@[g].labels@[k]@,
                        ),
                    forall|k: int|
                        0 <= k < j ==> catalog_labels(catalog.categories@).contains(
                            #[trigger] names@[k]@,
                        ),
                    strs(labels@).to_set() == catalog_labels(catalog.categories@),
                    catalog_labels(catalog.categories@).len() <= MAX_SERVICES,
                decreases names.len() - j,
            {
                if !contains_string(labels.as_slice(), names[j].as_str()) {
                    assert(!strs(labels@).to_set().contains(names@[j as int]@));
                    assert(catalog.features@[f as int].labels@[j as int]@ == names@[j as int]@);
                    assert(!features_known(catalog));
                    return Err(CatalogError::UnknownServiceLabel(names[j].clone()));
                }
                j += 1;
            }
            f += 1;
        }
        let mut category_masks: Vec<ServiceMask> = Vec::new();
        let mut c: usize = 0;
        while c < catalog.categories.len()
            invariant
                c <= catalog.categories.len(),
                labels.len() <= MAX_SERVICES,
                category_masks.len() == c,
                forall|k: int|
                    0 <= k < c ==> (#[trigger] category_masks@[k]).members() == indexes_of(
                        strs(labels@),
                        strs(catalog.categories@[k].labels@),
                    ),
            decreases catalog.categories.len() - c,
        {
            let m = mask_of(&labels, &catalog.categories[c].labels);
            category_masks.push(m);
            c += 1;
        }
        let mut feature_masks: Vec<ServiceMask> = Vec::new();
        let mut f: usize = 0;
        while f < catalog.features.len()
            invariant
                f <= catalog.features.len(),
                labels.len() <= MAX_SERVICES,
                feature_masks.len() == f,
                forall|k: int|
                    0 <= k < f ==> (#[trigger] feature_masks@[k]).members() == indexes_of(
                        strs(labels@),
                        strs(catalog.features@[k].labels@),
                    ),
            decreases catalog.features.len() - f,
        {
            let m = mask_of(&labels, &catalog.features[f].labels);
            feature_masks.push(m);
            f += 1;
        }
        let mut all = ServiceMask::new();
        let mut i: usize = 0;
        while i < labels.len()
            invariant
                i <= labels.len() <= MAX_SERVICES,
                all.members() == all_indexes(i as int),
            decreases labels.len() - i,
        {
            all.insert(i);
            assert(all.members() =~= all_indexes(i + 1));
            i += 1;
        }
        Ok(Registry { catalog, labels, category_masks, feature_masks, all })
    }

    /// The catalog the registry was made from.
    pub fn catalog(&self) -> (r: &Catalog)
        requires
            self.wf(),
        ensures
            *r == self.catalog_spec(),
    {
        &self.catalog
    }

    /// Number of distinct service labels.
    pub fn service_count(&self) -> (r: usize)
        requires
            self.wf(),
        ensures
            r == self.label_seq().len(),
    {
        self.labels.len()
    }

    /// The mask of every service.
    pub fn all(&self) -> (r: ServiceMask)
        requires
            self.wf(),
        ensures
            r.members() == all_indexes(self.label_seq().len() as int),
    {
        self.all
    }

    /// The mask of the services among `names`; unknown names are ignored.
    pub fn mask_for_labels(&self, names: &[&str]) -> (r: ServiceMask)
        requires
            self.wf(),
        ensures
            r.members() == indexes_of(self.label_seq(), str_views(names@)),
    {
        let owned = crate::process::strings(names);
        mask_of(&self.labels, &owned)
    }

    /// The mask that a capability id retains, if the catalog knows it.
    pub fn capability(&self, id: &str) -> (r: Option<ServiceMask>)
        requires
            self.wf(),
        ensures
            match capability_mask(self.label_seq(), self.catalog_spec(), id@) {
                Some(s) => r matches Some(m) && m.members() == s,
                None => r is None,
            },
    {
        match find_last_category(&self.catalog.categories, id) {
            Some(i) => {
                let m = self.category_masks[i];
                assert(m.members() == indexes_of(
                    strs(self.labels@),
                    strs(self.catalog.categories@[i as int].labels@),
                ));
                Some(m)
            },
            None => match find_last_feature(&self.catalog.features, id) {
                Some(i) => {
                    let m = self.feature_masks[i];
                    assert(m.members() == indexes_of(
                        strs(self.labels@),
                        strs(self.catalog.features@[i as int].labels@),
                    ));
                    Some(m)
                },
                None => None,
            },
        }
    }

    /// The mask of the services that the capabilities in `keep` retain.
    pub fn retained(&self, keep: &[String]) -> (r: Result<ServiceMask, PlanError>)
        requires
            self.wf(),
        ensures
            match retained_spec(self.label_seq(), self.catalog_spec(), strs(keep@)) {
                Ok(s) => r matches Ok(m) && m.members() == s,
                Err(e) => r matches Err(PlanError::UnknownCapability(c)) && c@ == e,
            },
    {
        let mut retained = ServiceMask::new();
        let mut i: usize = 0;
        proof {
            assert(strs(keep@).take(0) =~= Seq::<Seq<char>>::empty());
        }
        while i < keep.len()
            invariant
                self.wf(),
                i <= keep.len(),
                retained_spec(self.label_seq(), self.catalog_spec(), strs(keep@).take(i as int))
                    == Ok::<Set<int>, Seq<char>>(retained.members()),
            decreases keep.len() - i,
        {
            let ghost prefix = strs(keep@).take(i + 1);
            proof {
                assert(prefix.drop_last() =~= strs(keep@).take(i as int));
                assert(prefix.last() == keep@[i as int]@);
            }
            if str_eq(keep[i].as_str(), "network") {
                proof {
                    reveal_strlit("network");
                    assert("network"@ =~= network_word());
                }
            } else {
                proof {
                    reveal_strlit("network");
                    assert("network"@ =~= network_word());
                }
                match self.capability(keep[i].as_str()) {
                    Some(m) => {
                        retained = retained.union(m);
                    },
                    None => {
                        proof {
                            assert(retained_spec(self.label_seq(), self.catalog_spec(), prefix)
                                == Err::<Set<int>, Seq<char>>(keep@[i as int]@));
                            lemma_retained_err_persists(
                                self.label_seq(),
                                self.catalog_spec(),
                                strs(keep@),
                                i + 1,
                            );
                            assert(strs(keep@).take(keep.len() as int) =~= strs(keep@));
                        }
                        return Err(PlanError::UnknownCapability(keep[i].clone()));
                    },
                }
            }
            i += 1;
        }
        proof {
            assert(strs(keep@).take(keep.len() as int) =~= strs(keep@));
        }
        Ok(retained)
    }

    /// The labels of the services in `mask`, in label order.
    pub fn labels(&self, mask: ServiceMask) -> (r: Vec<String>)
        requires
            self.wf(),
        ensures
            strs(r@) == select_labels(self.label_seq(), mask.members()),
    {
        let mut out: Vec<String> = Vec::new();
        let mut i: usize = 0;
        while i < self.labels.len()
            invariant
                i <= self.labels.len(),
                strs(out@) == select_prefix(strs(self.labels@), mask.members(), i as int),
            decreases self.labels.len() - i,
        {
            if mask.contains(i) {
                let ghost before = out@;
                out.push(self.labels[i].clone());
                assert(strs(out@) =~= strs(before).push(self.labels@[i as int]@));
            }
            i += 1;
        }
        out
    }
}

/// Once a prefix of `keep` names an unknown capability, every longer prefix
/// reports that same capability.
pub proof fn lemma_retained_err_persists(
    labels: Seq<Seq<char>>,
    c: Catalog,
    keep: Seq<Seq<char>>,
    n: int,
)
    requires
        0 <= n <= keep.len(),
        retained_spec(labels, c, keep.take(n)) is Err,
    ensures
        retained_spec(labels, c, keep) == retained_spec(labels, c, keep.take(n)),
    decreases keep.len() - n,
{
    if n < keep.len() {
        assert(keep.take(n + 1).drop_last() =~= keep.take(n));
        lemma_retained_err_persists(labels, c, keep, n + 1);
    } else {
        assert(keep.take(n) =~= keep);
    }
}

/// Strictly sorted labels are distinct.
pub proof fn lemma_unique(s: Seq<Seq<char>>)
    requires
        strictly_sorted(s),
    ensures
        s.no_duplicates(),
{
    assert forall|i: int, j: int| 0 <= i < s.len() && 0 <= j < s.len() && i != j implies s[i]
        != s[j] by {
        if i < j {
            lemma_lex_total(s[i], s[j]);
        } else {
            lemma_lex_total(s[j], s[i]);
        }
    }
}

/// The mask of the positions of `labels` that `names` holds.
fn mask_of(labels: &Vec<String>, names: &Vec<String>) -> (m: ServiceMask)
    requires
        labels.len() <= MAX_SERVICES,
    ensures
        m.members() == indexes_of(strs(labels@), strs(names@)),
{
    let mut m = ServiceMask::new();
    let mut i: usize = 0;
    while i < labels.len()
        invariant
            i <= labels.len() <= MAX_SERVICES,
            m.members() == Set::new(
                |k: int| 0 <= k < i && strs(names@).contains(strs(labels@)[k]),
            ),
        decreases labels.len() - i,
    {
        if contains_string(names.as_slice(), labels[i].as_str()) {
            m.insert(i);
        }
        i += 1;
        assert(m.members() =~= Set::new(
            |k: int| 0 <= k < i && strs(names@).contains(strs(labels@)[k]),
        ));
    }
    assert(m.members() =~= indexes_of(strs(labels@), strs(names@)));
    m
}

fn find_last_category(cats: &Vec<Category>, id: &str) -> (r: Option<usize>)
    ensures
        match last_category(cats@, id@) {
            Some(i) => r matches Some(k) && k as int == i,
            None => r is None,
        },
        r matches Some(i) ==> i < cats.len(),
{
    let mut i = cats.len();
    assert(cats@.take(i as int) =~= cats@);
    while i > 0
        invariant
            i <= cats.len(),
            last_category(cats@, id@) == last_category(cats@.take(i as int), id@),
        decreases i,
    {
        let ghost t = cats@.take(i as int);
        assert(t.drop_last() =~= cats@.take(i - 1));
        if str_eq(cats[i - 1].id.as_str(), id) {
            return Some(i - 1);
        }
        i -= 1;
    }
    None
}

fn find_last_feature(fs: &Vec<Feature>, id: &str) -> (r: Option<usize>)
    ensures
        match last_feature(fs@, id@) {
            Some(i) => r matches Some(k) && k as int == i,
            None => r is None,
        },
        r matches Some(i) ==> i < fs.len(),
{
    let mut i = fs.len();
    assert(fs@.take(i as int) =~= fs@);
    while i > 0
        invariant
            i <= fs.len(),
            last_feature(fs@, id@) == last_feature(fs@.take(i as int), id@),
        decreases i,
    {
        let ghost t = fs@.take(i as int);
        assert(t.drop_last() =~= fs@.take(i - 1));
        if str_eq(fs[i - 1].id.as_str(), id) {
            return Some(i - 1);
        }
        i -= 1;
    }
    None
}

/// The distinct labels of all categories, sorted.
fn sorted_labels(cats: &Vec<Category>) -> (r: Vec<String>)
    ensures
        strictly_sorted(strs(r@)),
        strs(r@).to_set() == catalog_labels(cats@),
{
    let mut labels: Vec<String> = Vec::new();
    let mut c: usize = 0;
    proof {
        assert(cats@.take(0) =~= Seq::<Category>::empty());
        assert(strs(labels@).to_set() =~= flat_labels(cats@.take(0)).to_set());
    }
    while c < cats.len()
        invariant
            c <= cats.len(),
            strictly_sorted(strs(labels@)),
            strs(labels@).to_set() == flat_labels(cats@.take(c as int)).to_set(),
        decreases cats.len() - c,
    {
        let names = &cats[c].labels;
        let ghost base = flat_labels(cats@.take(c as int));
        let mut j: usize = 0;
        proof {
            assert(base + strs(names@).take(0) =~= base);
        }
        while j < names.len()
            invariant
                c < cats.len(),
                names == cats@[c as int].labels,
                base == flat_labels(cats@.take(c as int)),
                j <= names.len(),
                strictly_sorted(strs(labels@)),
                strs(labels@).to_set() == (base + strs(names@).take(j as int)).to_set(),
            decreases names.len() - j,
        {
            insert_sorted(&mut labels, &names[j]);
            proof {
                let t = base + strs(names@).take(j as int);
                assert(base + strs(names@).take(j + 1) =~= t + seq![names@[j as int]@]);
                Seq::lemma_to_set_insert_commutes(t, names@[j as int]@);
            }
            j += 1;
        }
        proof {
            let t = cats@.take(c + 1);
            assert(t.drop_last() =~= cats@.take(c as int));
            assert(t.last() == cats@[c as int]);
            assert(strs(names@).take(names.len() as int) =~= strs(names@));
        }
        c += 1;
    }
    proof {
        assert(cats@.take(cats.len() as int) =~= cats@);
    }
    labels
}

} // verus!
