use mx::engine::catalog::{Catalog, CatalogError, Category, Feature, PlanError, Registry};
use mx::engine::evidence::{
    median_positions, p95_index, EvidenceError, ExperimentManifest, ManifestField, ReferenceEnvironment, SCHEMA_VERSION,
};
use mx::engine::experiment::{validate_cycle, validate_cycle_indexes, ExperimentError, MemorySample, State, StateMeasurement};
use mx::engine::mask::ServiceMask;
use mx::engine::planner::{self, Policy};
use mx::engine::probe::{validate_required, Probe, ProbeError, ProbeResult, ProbeResults};
use mx::engine::transaction::{bootout_script, script, valid_label, BatchResult, TransactionError, Transition, batch_of};
use mx::profile::{
    disabled, plan, prepare_apply, should_trim_spotlight, should_trim_watch_agents, verify, Preset,
    ProfileError, Receipt,
};
use std::sync::OnceLock;

fn strings(values: &[&str]) -> Vec<String> {
    values.iter().map(|value| value.to_string()).collect()
}

/// A runtime catalog with the shape of the shipped one: 172 distinct labels,
/// with the capabilities the scenarios below keep.
fn fixture_catalog() -> Catalog {
    let mut fillers = Vec::new();
    for index in 0..155 {
        fillers.push(format!("com.apple.fixture.service{index:03}"));
    }
    let category = |id: &str, labels: Vec<String>| Category {
        id: id.to_string(),
        labels,
        downside: None,
    };
    Catalog {
        catalog_id: "mx-runtime-ios-26.5-v1".into(),
        tested_runtime: "iOS-26-5".into(),
        categories: vec![
            category(
                "push",
                strings(&["com.apple.apsd", "com.apple.pushproxyd", "com.apple.notifyd-extra"]),
            ),
            category(
                "photos",
                strings(&[
                    "com.apple.assetsd",
                    "com.apple.photoanalysisd",
                    "com.apple.mediaanalysisd",
                    "com.apple.photolibraryd",
                    "com.apple.cloudphotod",
                    "com.apple.mediastream.mstreamd",
                ]),
            ),
            category(
                "storekit",
                strings(&[
                    "com.apple.storekitd",
                    "com.apple.amsaccountsd",
                    "com.apple.passd",
                    "com.apple.financed",
                ]),
            ),
            category("universal-links", strings(&["com.apple.swcd"])),
            category(
                "device-management",
                strings(&["com.apple.dmd", "com.apple.remotemanagementd"]),
            ),
            category("springboard-extras", strings(&["com.apple.PosterBoard"])),
            category("other", fillers),
        ],
        features: vec![
            Feature {
                id: "watch".into(),
                labels: Vec::new(),
            },
            Feature {
                id: "shared-photos".into(),
                labels: strings(&["com.apple.assetsd"]),
            },
        ],
    }
}

fn registry() -> &'static Registry {
    static REGISTRY: OnceLock<Registry> = OnceLock::new();
    REGISTRY.get_or_init(|| Registry::from_catalog(fixture_catalog()).unwrap())
}

#[test]
fn native_catalog_is_initialized_once_and_has_stable_ids() {
    let first = registry();
    let second = registry();
    assert!(std::ptr::eq(first, second));
    assert_eq!(first.catalog().catalog_id, "mx-runtime-ios-26.5-v1");
    assert_eq!(first.service_count(), 172);
}

#[test]
fn fixed_mask_handles_word_boundaries_and_set_operations() {
    let mut left = ServiceMask::default();
    left.insert(0);
    left.insert(64);
    left.insert(191);
    let mut right = ServiceMask::default();
    right.insert(64);
    right.insert(130);

    let union = left.union(right);
    assert!(union.contains(0) && union.contains(64) && union.contains(130));
    assert!(union.contains(191));
    let difference = union.difference(right);
    assert!(difference.contains(0) && difference.contains(191));
    assert!(!difference.contains(64) && !difference.contains(130));
}

#[test]
fn optimized_policy_uses_fixed_masks_for_capabilities() {
    let plan = planner::plan(registry(), &["push".into(), "photos".into()], Policy::Optimized).unwrap();
    assert_eq!(plan.len(), 163);
    assert!(!plan.iter().any(|label| matches!(
        label.as_str(),
        "com.apple.apsd" | "com.apple.assetsd" | "com.apple.photoanalysisd"
    )));
}

#[test]
fn requires_every_probe_to_pass() {
    let mut results = ProbeResults::new();
    for probe in Probe::REQUIRED {
        results.insert(
            probe,
            ProbeResult {
                passed: true,
                detail: None,
                artifact_ids: Vec::new(),
            },
        );
    }
    validate_required(&results).unwrap();
    results.remove(Probe::Networking);
    assert!(validate_required(&results)
        .unwrap_err()
        .message()
        .contains("Networking"));
}

#[test]
fn batch_script_restores_simulator_dyld_context_and_rejects_shell_input() {
    let labels = vec!["com.apple.example-service".to_owned()];
    let batch_script = script(Transition::Disable, &labels).unwrap();
    assert!(batch_script.contains("DYLD_ROOT_PATH=\"$SIMULATOR_ROOT\""));
    assert!(batch_script.contains("$SIMULATOR_ROOT/bin/launchctl"));
    assert!(batch_script.contains("com.apple.example-service"));
    assert!(script(Transition::Enable, &vec!["com.apple.ok; reboot".into()]).is_err());
}

#[test]
fn user_agent_cleanup_rejects_shell_input() {
    assert!(!valid_label("com.apple.ok; reboot"));
}

#[test]
fn capability_plan_keeps_dependencies() {
    let labels = plan(registry(), &["photos".into(), "network".into()], Preset::Slim).unwrap();
    assert!(!labels
        .iter()
        .any(|s| s.contains("assetsd") || s.contains("photoanalysisd")));
    assert!(plan(registry(), &["typo".into()], Preset::Slim).is_err());
    assert!(should_trim_spotlight(&[]));
    assert!(!should_trim_spotlight(&["spotlight".into()]));
    assert!(!should_trim_spotlight(&["search".into()]));
    assert!(should_trim_watch_agents(&[]));
    assert!(!should_trim_watch_agents(&["watch".into()]));
    assert_eq!(plan(registry(), &["watch".into()], Preset::Slim).unwrap().len(), 172);
}

#[test]
fn preserves_existing_disabled_services() {
    assert_eq!(
        disabled("\t\"com.apple.cloudd\" => disabled\n\"com.apple.homed\" => enabled"),
        vec!["com.apple.cloudd".to_string()]
    );
}

#[test]
fn slim_catalog_excludes_core_services_and_keeps_shared_store_dependencies() {
    let all = plan(registry(), &[], Preset::Slim).unwrap();
    assert_eq!(all.len(), 172);
    assert!(all.iter().any(|s| s == "com.apple.PosterBoard"));
    assert!(all.iter().any(|s| s == "com.apple.dmd"));
    for core in [
        "com.apple.sharingd",
        "com.apple.SpringBoard",
        "com.apple.backboardd",
        "com.apple.runningboardd",
        "com.apple.lsd",
        "com.apple.logd",
    ] {
        assert!(!all.iter().any(|s| s == core));
    }
    let kept = plan(
        registry(),
        &["storekit".into(), "push".into(), "universal-links".into()],
        Preset::Slim,
    )
    .unwrap();
    for service in [
        "com.apple.storekitd",
        "com.apple.amsaccountsd",
        "com.apple.passd",
        "com.apple.financed",
        "com.apple.apsd",
        "com.apple.swcd",
    ] {
        assert!(!kept.iter().any(|s| s == service));
    }
    let device_management = plan(registry(), &["device-management".into()], Preset::Slim).unwrap();
    assert!(!device_management.iter().any(|service| matches!(
        service.as_str(),
        "com.apple.dmd" | "com.apple.remotemanagementd"
    )));
}

#[test]
fn reboot_verification_rejects_missing_overrides_and_disabled_requirements() {
    let labels = plan(registry(), &["push".into()], Preset::Slim).unwrap();
    let mut actual: Vec<String> = labels.iter().cloned().collect();
    assert!(verify(registry(), &actual, &labels, &["push".into()]).is_ok());
    actual.push("com.apple.apsd".into());
    assert!(verify(registry(), &actual, &labels, &["push".into()]).is_err());
    assert!(verify(registry(), &[], &labels, &[]).is_err());
}

#[test]
fn catalog_labels_are_sorted_and_deduplicated() {
    let catalog = Catalog {
        catalog_id: "c".into(),
        tested_runtime: "r".into(),
        categories: vec![
            Category { id: "b".into(), labels: strings(&["zeta", "alpha"]), downside: None },
            Category { id: "a".into(), labels: strings(&["alpha", "beta"]), downside: Some("d".into()) },
        ],
        features: vec![Feature { id: "f".into(), labels: strings(&["beta"]) }],
    };
    let registry = Registry::from_catalog(catalog).unwrap();
    assert_eq!(registry.service_count(), 3);
    assert_eq!(registry.labels(registry.all()), strings(&["alpha", "beta", "zeta"]));
    assert_eq!(registry.labels(registry.mask_for_labels(&["zeta", "missing"])), strings(&["zeta"]));
    let kept = registry.retained(&["f".into(), "network".into()]).unwrap();
    assert_eq!(registry.labels(kept), strings(&["beta"]));
}

#[test]
fn catalog_refuses_unknown_feature_labels_and_overflow() {
    let unknown = Catalog {
        catalog_id: "c".into(),
        tested_runtime: "r".into(),
        categories: vec![Category { id: "a".into(), labels: strings(&["x"]), downside: None }],
        features: vec![Feature { id: "f".into(), labels: strings(&["y"]) }],
    };
    match Registry::from_catalog(unknown) {
        Err(CatalogError::UnknownServiceLabel(label)) => assert_eq!(label, "y"),
        other => panic!("unexpected {other:?}"),
    }
    let labels: Vec<String> = (0..193).map(|i| format!("s{i:03}")).collect();
    let large = Catalog {
        catalog_id: "c".into(),
        tested_runtime: "r".into(),
        categories: vec![Category { id: "a".into(), labels, downside: None }],
        features: Vec::new(),
    };
    assert!(matches!(Registry::from_catalog(large), Err(CatalogError::TooManyServices)));
}

#[test]
fn plan_never_disables_a_kept_service() {
    let kept = planner::retained_labels(registry(), &["photos".into()]).unwrap();
    let disabled_plan = plan(registry(), &["photos".into()], Preset::Slim).unwrap();
    assert_eq!(kept.len(), 6);
    assert!(kept.iter().all(|label| !disabled_plan.contains(label)));
    assert_eq!(kept.len() + disabled_plan.len(), 172);
    match plan(registry(), &["push".into(), "nope".into(), "also".into()], Preset::Slim) {
        Err(PlanError::UnknownCapability(name)) => assert_eq!(name, "nope"),
        other => panic!("unexpected {other:?}"),
    }
    assert_eq!(
        PlanError::UnknownCapability("nope".into()).message(),
        "Unknown capability nope"
    );
}

#[test]
fn optimized_plan_and_retained_labels_split_the_catalog() {
    let keep: Vec<String> = vec!["push".into(), "photos".into()];
    let planned = planner::plan(registry(), &keep, Policy::Optimized).unwrap();
    let retained = planner::retained_labels(registry(), &keep).unwrap();
    assert!(planned.windows(2).all(|w| w[0] < w[1]));
    assert!(retained.windows(2).all(|w| w[0] < w[1]));
    assert!(retained.iter().all(|label| !planned.contains(label)));
    assert_eq!(planned.len() + retained.len(), 172);
    assert_eq!(planner::retained_labels(registry(), &["network".into()]).unwrap(), Vec::<String>::new());
}

#[test]
fn balanced_policy_only_touches_listed_services() {
    let plan = planner::plan(registry(), &[], Policy::Balanced).unwrap();
    assert_eq!(
        plan,
        strings(&["com.apple.assetsd", "com.apple.photoanalysisd"])
    );
}

#[test]
fn disabled_parser_trims_quotes_and_commas() {
    let output = "disabled services = {\n\t\"com.apple.b\" => true,\n\t\"com.apple.a\" => disabled\r\n\t\"com.apple.c\" => false\n\t\"com.apple.a\" => true\n}";
    assert_eq!(disabled(output), strings(&["com.apple.a", "com.apple.b"]));
    assert!(disabled("").is_empty());
}

#[test]
fn apply_receipt_appends_only_new_disables() {
    let labels = strings(&["a", "b", "c"]);
    let existing = strings(&["b"]);
    let (receipt, delta) =
        prepare_apply(None, "dev", &["push".into()], &labels, &existing, &strings(&["r"])).unwrap();
    assert_eq!(delta, strings(&["a", "c"]));
    assert_eq!(receipt.changed, strings(&["a", "c"]));
    assert_eq!(receipt.device, "dev");
    let previous = Receipt {
        device: "dev".into(),
        changed: strings(&["c"]),
        keep: strings(&["push"]),
    };
    let (receipt, _) =
        prepare_apply(Some(previous), "dev", &["push".into()], &labels, &existing, &[]).unwrap();
    assert_eq!(receipt.changed, strings(&["c", "a"]));
    let other = Receipt { device: "dev".into(), changed: Vec::new(), keep: Vec::new() };
    assert!(matches!(
        prepare_apply(Some(other), "dev", &["push".into()], &labels, &existing, &[]),
        Err(ProfileError::CapabilitiesChanged)
    ));
    let outside = Receipt { device: "dev".into(), changed: strings(&["z"]), keep: strings(&["push"]) };
    assert!(matches!(
        prepare_apply(Some(outside), "dev", &["push".into()], &labels, &existing, &[]),
        Err(ProfileError::PresetChanged)
    ));
    assert!(matches!(
        prepare_apply(None, "dev", &[], &labels, &existing, &strings(&["b"])),
        Err(ProfileError::RequiredDisabled)
    ));
}

#[test]
fn bootout_script_lists_labels_and_refuses_unsafe_ones() {
    assert_eq!(bootout_script(&[]).unwrap(), None);
    let text = bootout_script(&["com.apple.a", "com.apple.b"]).unwrap().unwrap();
    assert!(text.starts_with("set -u\nfor label in com.apple.a com.apple.b; do\n"));
    assert!(text.contains("bootout \"user/501/$label\""));
    assert_eq!(bootout_script(&["bad label"]), Err(TransactionError::UnsafeLabel));
    let many: Vec<String> = (0..1200).map(|i| format!("com.apple.service.number{i:04}")).collect();
    assert_eq!(script(Transition::Disable, &many), Err(TransactionError::TooLarge));
    assert_eq!(batch_of(0), BatchResult { transitions: 0, batches: 0 });
    assert_eq!(batch_of(3), BatchResult { transitions: 3, batches: 1 });
    assert_eq!(Transition::Enable.command(), "enable");
}

fn manifest() -> ExperimentManifest {
    ExperimentManifest {
        schema_version: SCHEMA_VERSION,
        experiment_id: "ram".into(),
        candidate_id: "candidate".into(),
        source_revision: "revision".into(),
        mx_sha256: "mx".into(),
        catalog_sha256: "catalog".into(),
        app_build_identity: "app".into(),
        task_script_sha256: "task".into(),
        sample_count: 30,
        cycle_count: 3,
        environment: ReferenceEnvironment {
            macos: "macOS".into(),
            architecture: "arm64".into(),
            xcode: "26.5".into(),
            runtime: "iOS 26.5".into(),
            device_type: "iPhone 17 Pro".into(),
        },
    }
}

#[test]
fn manifest_validation_names_the_first_problem() {
    assert_eq!(manifest().validate(), Ok(()));
    let mut blank = manifest();
    blank.candidate_id = " \t".into();
    blank.mx_sha256 = String::new();
    assert_eq!(blank.validate(), Err(EvidenceError::EmptyField(ManifestField::CandidateId)));
    assert_eq!(ManifestField::CandidateId.name(), "candidate_id");
    let mut version = manifest();
    version.schema_version = 2;
    assert_eq!(version.validate(), Err(EvidenceError::UnsupportedSchema(2)));
    let mut samples = manifest();
    samples.sample_count = 29;
    assert_eq!(samples.validate(), Err(EvidenceError::SampleCount));
    let mut cycles = manifest();
    cycles.cycle_count = 2;
    assert_eq!(cycles.validate(), Err(EvidenceError::CycleCount));
    let env = manifest().environment;
    assert_eq!(manifest().matches_environment(&env), Ok(()));
    let other = ReferenceEnvironment { xcode: "26.4".into(), ..env };
    assert_eq!(manifest().matches_environment(&other), Err(EvidenceError::EnvironmentMismatch));
}

fn measurements(samples: usize) -> Vec<StateMeasurement> {
    State::ORDER
        .into_iter()
        .map(|state| StateMeasurement {
            state,
            samples: vec![
                MemorySample { physical_bytes: 100, process_count: 10, compressor_bytes: 0, swap_bytes: 0 };
                samples
            ],
        })
        .collect()
}

#[test]
fn cycle_structure_follows_the_aba_contract() {
    let mut probes = ProbeResults::new();
    for probe in Probe::REQUIRED {
        probes.insert(probe, ProbeResult { passed: true, detail: None, artifact_ids: Vec::new() });
    }
    assert_eq!(validate_cycle(1, &measurements(30), 30, &probes), Ok(()));
    assert_eq!(validate_cycle(0, &measurements(30), 30, &probes), Err(ExperimentError::ZeroIndex));
    let mut swapped = measurements(30);
    swapped.swap(0, 1);
    assert_eq!(validate_cycle(1, &swapped, 30, &probes), Err(ExperimentError::StateOrder));
    assert_eq!(
        validate_cycle(1, &measurements(29), 30, &probes),
        Err(ExperimentError::SampleCount { state: State::BaselineBefore, samples: 29 })
    );
    probes.insert(Probe::Logs, ProbeResult { passed: false, detail: None, artifact_ids: Vec::new() });
    assert_eq!(
        validate_cycle(1, &measurements(30), 30, &probes),
        Err(ExperimentError::Probe(ProbeError::Failed(Probe::Logs)))
    );
    assert_eq!(validate_cycle_indexes(&[1, 2, 3], 3), Ok(()));
    assert_eq!(validate_cycle_indexes(&[1, 2], 3), Err(ExperimentError::IncompleteCycles));
    assert_eq!(validate_cycle_indexes(&[1, 3, 2], 3), Err(ExperimentError::NonContiguous));
}

#[test]
fn uses_nearest_rank_for_p95_and_standard_median() {
    let values = (1..=30).map(f64::from).collect::<Vec<_>>();
    let (low, high) = median_positions(values.len());
    assert_eq!((values[low] + values[high]) / 2.0, 15.5);
    assert_eq!(values[p95_index(values.len())], 29.0);
    assert_eq!(median_positions(5), (2, 2));
    assert_eq!(p95_index(1), 0);
    assert_eq!(p95_index(0), 0);
    assert_eq!(p95_index(100), 94);
}
