use crate::text::{is_blank, trim_spec};
use vstd::prelude::*;

verus! {

/// Version of the experiment manifest layout.
pub const SCHEMA_VERSION: u32 = 1;

/// Samples per state that the measurement contract asks for.
pub const REQUIRED_SAMPLES: usize = 30;

/// A/B/A cycles that the measurement contract asks for.
pub const REQUIRED_CYCLES: usize = 3;

/// The machine an experiment was measured on.
#[derive(Debug)]
pub struct ReferenceEnvironment {
    pub macos: String,
    pub architecture: String,
    pub xcode: String,
    pub runtime: String,
    pub device_type: String,
}

/// What an experiment measured and with which inputs.
#[derive(Debug)]
pub struct ExperimentManifest {
    pub schema_version: u32,
    pub experiment_id: String,
    pub candidate_id: String,
    pub source_revision: String,
    pub mx_sha256: String,
    pub catalog_sha256: String,
    pub app_build_identity: String,
    pub task_script_sha256: String,
    pub sample_count: usize,
    pub cycle_count: usize,
    pub environment: ReferenceEnvironment,
}

/// A text field of the manifest that must not be blank.
#[derive(Debug, Clone, Copy, PartialEq, Eq)]
pub enum ManifestField {
    ExperimentId,
    CandidateId,
    SourceRevision,
    MxSha256,
    CatalogSha256,
    AppBuildIdentity,
    TaskScriptSha256,
}

impl ManifestField {
    /// The field's name in the manifest.
    pub fn name(self) -> (r: &'static str)
        ensures
            r@ == match self {
                ManifestField::ExperimentId => "experiment_id"@,
                ManifestField::CandidateId => "candidate_id"@,
                ManifestField::SourceRevision => "source_revision"@,
                ManifestField::MxSha256 => "mx_sha256"@,
                ManifestField::CatalogSha256 => "catalog_sha256"@,
                ManifestField::AppBuildIdentity => "app_build_identity"@,
                ManifestField::TaskScriptSha256 => "task_script_sha256"@,
            },
    {
        match self {
            ManifestField::ExperimentId => "experiment_id",
            ManifestField::CandidateId => "candidate_id",
            ManifestField::SourceRevision => "source_revision",
            ManifestField::MxSha256 => "mx_sha256",
            ManifestField::CatalogSha256 => "catalog_sha256",
            ManifestField::AppBuildIdentity => "app_build_identity",
            ManifestField::TaskScriptSha256 => "task_script_sha256",
        }
    }
}

/// Why a manifest or environment is refused.
#[derive(Debug, Clone, Copy, PartialEq, Eq)]
pub enum EvidenceError {
    UnsupportedSchema(u32),
    EmptyField(ManifestField),
    SampleCount,
    CycleCount,
    EnvironmentMismatch,
}

/// Whether a text is empty once white space is trimmed.
pub open spec fn blank(s: Seq<char>) -> bool {
    trim_spec(s).len() == 0
}

/// The first field that is blank, if any.
pub open spec fn first_blank(fs: Seq<(ManifestField, Seq<char>)>) -> Option<ManifestField>
    decreases fs.len(),
{
    if fs.len() == 0 {
        None
    } else if blank(fs[0].1) {
        Some(fs[0].0)
    } else {
        first_blank(fs.skip(1))
    }
}

impl ExperimentManifest {
    /// The text fields that must not be blank, in the order they are
    /// checked.
    pub open spec fn fields(self) -> Seq<(ManifestField, Seq<char>)> {
        seq![
            (ManifestField::ExperimentId, self.experiment_id@),
            (ManifestField::CandidateId, self.candidate_id@),
            (ManifestField::SourceRevision, self.source_revision@),
            (ManifestField::MxSha256, self.mx_sha256@),
            (ManifestField::CatalogSha256, self.catalog_sha256@),
            (ManifestField::AppBuildIdentity, self.app_build_identity@),
            (ManifestField::TaskScriptSha256, self.task_script_sha256@),
        ]
    }

    /// Accepts a manifest of the current schema whose text fields are not
    /// blank and whose counts are those of the measurement contract.
    pub fn validate(&self) -> (r: Result<(), EvidenceError>)
        ensures
            self.schema_version != SCHEMA_VERSION ==> r == Err::<(), EvidenceError>(
                EvidenceError::UnsupportedSchema(self.schema_version),
            ),
            self.schema_version == SCHEMA_VERSION ==> match first_blank(self.fields()) {
                Some(field) => r == Err::<(), EvidenceError>(EvidenceError::EmptyField(field)),
                None => {
                    &&& self.sample_count != REQUIRED_SAMPLES ==> r == Err::<(), EvidenceError>(
                        EvidenceError::SampleCount,
                    )
                    &&& self.sample_count == REQUIRED_SAMPLES && self.cycle_count
                        != REQUIRED_CYCLES ==> r == Err::<(), EvidenceError>(
                        EvidenceError::CycleCount,
                    )
                    &&& self.sample_count == REQUIRED_SAMPLES && self.cycle_count
                        == REQUIRED_CYCLES ==> r is Ok
                },
            },
    {
        if self.schema_version != SCHEMA_VERSION {
            return Err(EvidenceError::UnsupportedSchema(self.schema_version));
        }
        let ghost f = self.fields();
        proof {
            reveal_with_fuel(first_blank, 8);
            assert(f.skip(1).skip(1).skip(1).skip(1).skip(1).skip(1).skip(1).len() == 0);
        }
        if is_blank(self.experiment_id.as_str()) {
            return Err(EvidenceError::EmptyField(ManifestField::ExperimentId));
        }
        if is_blank(self.candidate_id.as_str()) {
            return Err(EvidenceError::EmptyField(ManifestField::CandidateId));
        }
        if is_blank(self.source_revision.as_str()) {
            return Err(EvidenceError::EmptyField(ManifestField::SourceRevision));
        }
        if is_blank(self.mx_sha256.as_str()) {
            return Err(EvidenceError::EmptyField(ManifestField::MxSha256));
        }
        if is_blank(self.catalog_sha256.as_str()) {
            return Err(EvidenceError::EmptyField(ManifestField::CatalogSha256));
        }
        if is_blank(self.app_build_identity.as_str()) {
            return Err(EvidenceError::EmptyField(ManifestField::AppBuildIdentity));
        }
        if is_blank(self.task_script_sha256.as_str()) {
            return Err(EvidenceError::EmptyField(ManifestField::TaskScriptSha256));
        }
        if self.sample_count != REQUIRED_SAMPLES {
            return Err(EvidenceError::SampleCount);
        }
        if self.cycle_count != REQUIRED_CYCLES {
            return Err(EvidenceError::CycleCount);
        }
        Ok(())
    }

    /// Accepts the environment the manifest was recorded in.
    pub fn matches_environment(&self, actual: &ReferenceEnvironment) -> (r: Result<
        (),
        EvidenceError,
    >)
        ensures
            r is Ok <==> (self.environment.macos@ == actual.macos@
                && self.environment.architecture@ == actual.architecture@
                && self.environment.xcode@ == actual.xcode@ && self.environment.runtime@
                == actual.runtime@ && self.environment.device_type@ == actual.device_type@),
            r is Err ==> r == Err::<(), EvidenceError>(EvidenceError::EnvironmentMismatch),
    {
        let e = &self.environment;
        if e.macos == actual.macos && e.architecture == actual.architecture && e.xcode
            == actual.xcode && e.runtime == actual.runtime && e.device_type == actual.device_type {
            Ok(())
        } else {
            Err(EvidenceError::EnvironmentMismatch)
        }
    }
}


/// Position of the nearest-rank 95th percentile among `count` sorted
/// samples: the `ceil(count * 95 / 100)`-th sample, counted from one.
pub fn p95_index(count: usize) -> (r: usize)
    requires
        count * 95 + 99 <= usize::MAX,
    ensures
        r == (if count == 0 {
            0
        } else {
            (count * 95 + 99) / 100 - 1
        }),
        count > 0 ==> r < count,
{
    let rank = (count * 95 + 99) / 100;
    if rank == 0 {
        0
    } else {
        rank - 1
    }
}

/// Positions of the samples whose mean is the median of `count` sorted
/// samples: the two middle ones when `count` is even, else the middle one
/// twice.
pub fn median_positions(count: usize) -> (r: (usize, usize))
    requires
        count > 0,
    ensures
        count % 2 == 0 ==> r == (((count / 2 - 1) as usize, (count / 2) as usize)),
        count % 2 == 1 ==> r == (((count / 2) as usize, (count / 2) as usize)),
        r.0 <= r.1 < count,
{
    if count % 2 == 0 {
        (count / 2 - 1, count / 2)
    } else {
        (count / 2, count / 2)
    }
}

} // verus!
