use crate::text::push_str;
use vstd::prelude::*;

verus! {

/// One capability check run against a profiled simulator.
#[derive(Debug, Clone, Copy, PartialEq, Eq, PartialOrd, Ord, Hash, Structural)]
pub enum Probe {
    Build,
    Install,
    Launch,
    SemanticInspection,
    UnicodeInput,
    Assertion,
    Screenshot,
    Logs,
    Networking,
}

/// The probes every profile must pass, in the order they are checked.
pub open spec fn required_spec() -> Seq<Probe> {
    seq![
        Probe::Build,
        Probe::Install,
        Probe::Launch,
        Probe::SemanticInspection,
        Probe::UnicodeInput,
        Probe::Assertion,
        Probe::Screenshot,
        Probe::Logs,
        Probe::Networking,
    ]
}

impl Probe {
    /// The probes every profile must pass, in the order they are checked.
    pub const REQUIRED: [Probe; 9] = [
        Probe::Build,
        Probe::Install,
        Probe::Launch,
        Probe::SemanticInspection,
        Probe::UnicodeInput,
        Probe::Assertion,
        Probe::Screenshot,
        Probe::Logs,
        Probe::Networking,
    ];

    /// The probe's name.
    pub open spec fn name_spec(self) -> Seq<char> {
        match self {
            Probe::Build => "Build"@,
            Probe::Install => "Install"@,
            Probe::Launch => "Launch"@,
            Probe::SemanticInspection => "SemanticInspection"@,
            Probe::UnicodeInput => "UnicodeInput"@,
            Probe::Assertion => "Assertion"@,
            Probe::Screenshot => "Screenshot"@,
            Probe::Logs => "Logs"@,
            Probe::Networking => "Networking"@,
        }
    }

    /// The probe's name.
    pub fn name(&self) -> (r: &'static str)
        ensures
            r@ == self.name_spec(),
    {
        match self {
            Probe::Build => "Build",
            Probe::Install => "Install",
            Probe::Launch => "Launch",
            Probe::SemanticInspection => "SemanticInspection",
            Probe::UnicodeInput => "UnicodeInput",
            Probe::Assertion => "Assertion",
            Probe::Screenshot => "Screenshot",
            Probe::Logs => "Logs",
            Probe::Networking => "Networking",
        }
    }
}

/// The outcome of one probe.
#[derive(Debug)]
pub struct ProbeResult {
    pub passed: bool,
    pub detail: Option<String>,
    pub artifact_ids: Vec<String>,
}

/// Probe outcomes keyed by probe; a later outcome of a probe replaces an
/// earlier one.
#[derive(Debug)]
pub struct ProbeResults {
    entries: Vec<(Probe, ProbeResult)>,
}

/// Whether `p` passed in the last entry for it, if there is one.
pub open spec fn lookup(es: Seq<(Probe, ProbeResult)>, p: Probe) -> Option<bool>
    decreases es.len(),
{
    if es.len() == 0 {
        None
    } else if es.last().0 == p {
        Some(es.last().1.passed)
    } else {
        lookup(es.drop_last(), p)
    }
}

proof fn lemma_lookup_remove(es: Seq<(Probe, ProbeResult)>, i: int, q: Probe)
    requires
        0 <= i < es.len(),
        es[i].0 != q,
    ensures
        lookup(es.remove(i), q) == lookup(es, q),
    decreases es.len(),
{
    if i == es.len() - 1 {
        assert(es.remove(i) =~= es.drop_last());
    } else {
        assert(es.remove(i).last() == es.last());
        assert(es.remove(i).drop_last() =~= es.drop_last().remove(i));
        lemma_lookup_remove(es.drop_last(), i, q);
    }
}

proof fn lemma_lookup_absent(es: Seq<(Probe, ProbeResult)>, q: Probe)
    requires
        forall|k: int| 0 <= k < es.len() ==> es[k].0 != q,
    ensures
        lookup(es, q) is None,
    decreases es.len(),
{
    if es.len() > 0 {
        lemma_lookup_absent(es.drop_last(), q);
    }
}

impl ProbeResults {
    /// Whether each probe passed, if it was run.
    pub closed spec fn outcome(self, p: Probe) -> Option<bool> {
        lookup(self.entries@, p)
    }

    /// No results yet.
    pub fn new() -> (r: Self)
        ensures
            forall|p: Probe| r.outcome(p) is None,
    {
        ProbeResults { entries: Vec::new() }
    }

    /// Records the outcome of `probe`, replacing an earlier one.
    pub fn insert(&mut self, probe: Probe, result: ProbeResult)
        ensures
            final(self).outcome(probe) == Some(result.passed),
            forall|q: Probe| q != probe ==> final(self).outcome(q) == old(self).outcome(q),
    {
        let ghost before = self.entries@;
        self.entries.push((probe, result));
        assert(self.entries@.drop_last() =~= before);
    }

    /// Forgets the outcome of `probe`.
    pub fn remove(&mut self, probe: Probe)
        ensures
            final(self).outcome(probe) is None,
            forall|q: Probe| q != probe ==> final(self).outcome(q) == old(self).outcome(q),
    {
        let mut i = self.entries.len();
        while i > 0
            invariant
                i <= self.entries.len(),
                forall|k: int| i <= k < self.entries.len() ==> self.entries@[k].0 != probe,
                forall|q: Probe| q != probe ==> lookup(self.entries@, q) == lookup(
                    old(self).entries@,
                    q,
                ),
            decreases i,
        {
            i -= 1;
            if self.entries[i].0 == probe {
                let ghost before = self.entries@;
                self.entries.remove(i);
                proof {
                    assert forall|q: Probe| q != probe implies lookup(self.entries@, q) == lookup(
                        before,
                        q,
                    ) by {
                        lemma_lookup_remove(before, i as int, q);
                    }
                    assert forall|k: int| i <= k < self.entries.len() implies self.entries@[k].0
                        != probe by {
                        assert(self.entries@[k] == before[k + 1]);
                    }
                }
            }
        }
        proof {
            lemma_lookup_absent(self.entries@, probe);
        }
    }

    /// Whether `probe` passed, if it was run.
    pub fn passed(&self, probe: Probe) -> (r: Option<bool>)
        ensures
            r == self.outcome(probe),
    {
        let mut i = self.entries.len();
        assert(self.entries@.take(i as int) =~= self.entries@);
        while i > 0
            invariant
                i <= self.entries.len(),
                lookup(self.entries@, probe) == lookup(self.entries@.take(i as int), probe),
            decreases i,
        {
            let ghost t = self.entries@.take(i as int);
            assert(t.drop_last() =~= self.entries@.take(i - 1));
            if self.entries[i - 1].0 == probe {
                return Some(self.entries[i - 1].1.passed);
            }
            i -= 1;
        }
        None
    }
}

/// Why a profile is not accepted.
#[derive(Debug, Clone, Copy, PartialEq, Eq)]
pub enum ProbeError {
    Missing(Probe),
    Failed(Probe),
}

impl ProbeError {
    /// The error as text.
    pub fn message(&self) -> (r: String)
        ensures
            match self {
                ProbeError::Missing(p) => r@ == "missing required "@ + p.name_spec()
                    + " probe"@,
                ProbeError::Failed(p) => r@ == "required "@ + p.name_spec() + " probe failed"@,
            },
    {
        match self {
            ProbeError::Missing(p) => {
                let mut s = String::from_str("missing required ");
                push_str(&mut s, p.name());
                push_str(&mut s, " probe");
                s
            },
            ProbeError::Failed(p) => {
                let mut s = String::from_str("required ");
                push_str(&mut s, p.name());
                push_str(&mut s, " probe failed");
                s
            },
        }
    }
}

/// Whether `p` was run and passed.
pub open spec fn probe_ok(r: ProbeResults, p: Probe) -> bool {
    r.outcome(p) == Some(true)
}

/// Accepts results in which every required probe was run and passed;
/// otherwise names the first required probe that is missing or failed.
pub fn validate_required(results: &ProbeResults) -> (r: Result<(), ProbeError>)
    ensures
        r is Ok <==> forall|k: int|
            0 <= k < required_spec().len() ==> probe_ok(*results, #[trigger] required_spec()[k]),
        r matches Err(e) ==> exists|k: int|
            0 <= k < required_spec().len() && (forall|j: int|
                0 <= j < k ==> probe_ok(*results, #[trigger] required_spec()[j]))
                && !probe_ok(*results, required_spec()[k]) && e == (if results.outcome(required_spec()[k]) is Some {
                ProbeError::Failed(required_spec()[k])
            } else {
                ProbeError::Missing(required_spec()[k])
            }),
{
    let required = Probe::REQUIRED;
    assert(required@ =~= required_spec());
    let mut k: usize = 0;
    while k < 9
        invariant
            k <= 9,
            required@ == required_spec(),
            forall|j: int| 0 <= j < k ==> probe_ok(*results, #[trigger] required_spec()[j]),
        decreases 9 - k,
    {
        let probe = required[k];
        match results.passed(probe) {
            None => {
                return Err(ProbeError::Missing(probe));
            },
            Some(false) => {
                return Err(ProbeError::Failed(probe));
            },
            Some(true) => {},
        }
        k += 1;
    }
    Ok(())
}

} // verus!
