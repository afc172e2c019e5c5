use mx::diagnostics::{contains_diagnostic, diff, parse, Diagnostic};
use mx::fleet::{check_boot_limit, created_udid, owned_file_name, owned_name, validate_name, FleetError};
use mx::flow::{check_request, plan_flow, plan_state, validate_name as valid_state_name, CaptureState, FlowError};
use mx::interaction::{
    accept_compared, cache_reusable, check_unique_target, same_screen, reference_selector, settle_next, validate_request,
    ActionError, PollBackoff, SettleNext,
};
use mx::logs::{Entry, LogBuffer, LogError};
use mx::mcp::{check_bound, BindingError, Bindings};
use mx::metrics::{parse_ps_line, process_tree, sort_by_footprint, total_footprint, valid_top_limit, Usage};
use mx::process::{pump_take, strings, tail_start, ProcessCounters};
use mx::runtime::{app_is_already_stopped, launch_pid, screenshot_file_name, tail_lines, valid_log_seconds};
use mx::session::{check_foreground, key, update, Session, SessionError};
use mx::sim::{
    available_ios, budget_for_host, parse_devices, profiled_reserve_mib, select, BudgetError, Device, MemoryBudget,
    SelectError, COMPACT_DEVICE_TYPE,
};
use mx::ui::{elements_of_tree, parse_elements, tap_target, Element, FrameBits, Json, Screen, Selector, SelectorError, TapError, TreeError};
use mx::xcode::{app_from_settings, app_from_targets, schemes_in_listing, ListingError, SettingsError, choose_container, project_args, select_scheme, DiscoverError, TargetSettings};

fn element(role: &str, identifier: Option<&str>, label: Option<&str>) -> Element {
    Element {
        role: role.into(),
        reference: None,
        identifier: identifier.map(str::to_owned),
        label: label.map(str::to_owned),
        value: None,
        index: None,
        frame: None,
    }
}

fn screen(elements: Vec<Element>, hash: Option<&str>) -> Screen {
    Screen {
        device: "d".into(),
        pid: Some(1),
        width_bits: 390.0_f64.to_bits(),
        height_bits: 844.0_f64.to_bits(),
        hash: hash.map(str::to_owned),
        elements,
    }
}

fn session() -> Session {
    Session {
        id: "s".into(),
        device: "d".into(),
        project: String::new(),
        scheme: "s".into(),
        bundle_id: "b".into(),
        pid: 1,
        active: true,
        revision: 0,
        next_reference: 1,
        screen: None,
    }
}

#[test]
fn parses_paths_with_spaces_and_colons() {
    let result = parse(
        "/tmp/a:b/App File.swift:12:4: error: missing type\nld: warning: ignored option",
    );
    assert_eq!(result[0].file.as_deref(), Some("/tmp/a:b/App File.swift"));
    assert_eq!(result[0].line, Some(12));
    assert_eq!(result[1].severity, "warning");
}

#[test]
fn parse_keeps_location_only_when_line_and_column_are_numbers() {
    let result = parse("main.swift:x:4: note: see here\r\nplain line\nfile:7: warning: w");
    assert_eq!(result.len(), 2);
    assert_eq!(result[0].severity, "note");
    assert_eq!(result[0].file, None);
    assert_eq!(result[0].line, None);
    assert_eq!(result[0].column, Some(4));
    assert_eq!(result[0].message, "see here");
    assert_eq!(result[1].line, None);
    assert_eq!(result[1].column, Some(7));
    let many = "a.swift:1:1: error: e\n".repeat(250);
    assert_eq!(parse(&many).len(), 200);
}

#[test]
fn diff_reports_added_and_resolved_diagnostics() {
    let before = parse("a.swift:1:1: error: old\na.swift:2:1: warning: same");
    let after = parse("a.swift:2:1: warning: same\na.swift:3:1: error: new");
    let delta = diff(&before, &after);
    assert_eq!(delta.added.len(), 1);
    assert_eq!(delta.added[0].message, "new");
    assert_eq!(delta.resolved.len(), 1);
    assert_eq!(delta.resolved[0].message, "old");
    assert!(contains_diagnostic(&after, &before[1]));
    let same: Vec<Diagnostic> = after.iter().cloned().collect();
    assert!(diff(&same, &after).added.is_empty());
}

fn device(udid: &str, name: &str, state: &str) -> Device {
    Device {
        udid: udid.into(),
        name: name.into(),
        state: state.into(),
        is_available: true,
        device_type_identifier: None,
        runtime: "iOS".into(),
    }
}

#[test]
fn excludes_unavailable_and_non_ios() {
    let mut old = device("2", "Old", "Shutdown");
    old.is_available = false;
    let groups = vec![
        (
            "com.apple.CoreSimulator.SimRuntime.iOS-26-5".to_string(),
            vec![device("1", "Phone", "Booted"), old],
        ),
        (
            "com.apple.CoreSimulator.SimRuntime.watchOS-26-5".to_string(),
            vec![device("3", "Watch", "Booted")],
        ),
    ];
    let devices = available_ios(&groups);
    assert_eq!(devices.len(), 1);
    assert_eq!(devices[0].runtime, "com.apple.CoreSimulator.SimRuntime.iOS-26-5");
    assert_eq!(select(&devices, None).unwrap().udid, "1");
}

#[test]
fn duplicate_names_require_udid() {
    let a = device("1", "Phone", "Shutdown");
    let mut b = a.clone();
    b.udid = "2".into();
    assert!(select(&[a.clone(), b.clone()], Some("Phone")).is_err());
    assert!(select(&[a.clone(), b.clone()], None).is_err());
    assert_eq!(select(&[a, b], Some("2")).unwrap().udid, "2");
}

#[test]
fn select_errors_name_the_request() {
    let devices = vec![device("1", "Phone", "Shutdown"), device("2", "Pad", "Booted")];
    assert_eq!(select(&devices, None).unwrap().udid, "2");
    match select(&devices, Some("nothing")) {
        Err(error) => assert_eq!(error.message(), "No available iOS simulator matches nothing"),
        Ok(_) => panic!("expected an error"),
    }
    assert!(matches!(select(&[], None), Err(SelectError::Unspecified)));
}

#[test]
fn admission_reserves_next_devices_peak_and_rejects_invalid_budgets() {
    let budget = MemoryBudget {
        limit_mib: 4096,
        next_device_mib: 1500,
    };
    assert!(budget.allows(2000 * 1024 * 1024).is_ok());
    assert!(budget.allows(3000 * 1024 * 1024).is_err());
    assert!(MemoryBudget {
        limit_mib: 0,
        next_device_mib: 1
    }
    .allows(0)
    .is_err());
    assert_eq!(profiled_reserve_mib(Some(COMPACT_DEVICE_TYPE)), 1344);
    assert_eq!(profiled_reserve_mib(None), 1536);
}

#[test]
fn budget_errors_report_mebibytes() {
    let budget = MemoryBudget { limit_mib: 4096, next_device_mib: 1500 };
    let error = budget.allows(3000 * 1024 * 1024).unwrap_err();
    assert_eq!(error, BudgetError::Exceeded { needed_mib: 4500, limit_mib: 4096 });
    assert_eq!(
        error.message(),
        "Simulator memory budget exceeded: current plus next-device reserve is 4500 MiB, budget 4096 MiB"
    );
    assert!(MemoryBudget { limit_mib: 4096, next_device_mib: u64::MAX }.allows(0).is_err());
    let host = budget_for_host(16 * 1024 * 1024 * 1024, false, None);
    assert_eq!((host.limit_mib, host.next_device_mib), (8192, 4608));
}

#[test]
fn selectors_require_one_target() {
    assert!(Selector {
        identifier: None,
        label: None,
        role: None
    }
    .validate()
    .is_err());
    assert!(Selector {
        identifier: Some("x".into()),
        label: Some("y".into()),
        role: None
    }
    .validate()
    .is_err());
}

#[test]
fn selectors_refuse_blank_fields_and_match_exactly() {
    let blank = Selector { identifier: Some("x".into()), label: None, role: Some("  ".into()) };
    assert_eq!(blank.validate(), Err(SelectorError::Empty));
    let by_label = Selector { identifier: None, label: Some("OK".into()), role: Some("Button".into()) };
    assert_eq!(by_label.validate(), Ok(()));
    assert!(by_label.matches(&element("Button", None, Some("OK"))));
    assert!(!by_label.matches(&element("Text", None, Some("OK"))));
    assert!(!by_label.matches(&element("Button", None, Some("ok"))));
}

#[test]
fn scheme_ambiguity_is_explicit() {
    assert!(select_scheme(&["A".into(), "B".into()], None).is_err());
    assert!(select_scheme(&["A".into()], Some("B")).is_err());
    assert_eq!(select_scheme(&["A".into()], None).unwrap(), "A");
}

#[test]
fn scheme_errors_list_the_available_schemes() {
    let error = select_scheme(&["A".into(), "B".into()], Some("C")).unwrap_err();
    assert_eq!(error.message(), "Unknown scheme C; available: A, B");
    let error = select_scheme(&[], None).unwrap_err();
    assert_eq!(error.message(), "Specify --scheme; available: ");
}

#[test]
fn selects_app_not_extension() {
    let targets = vec![
        TargetSettings {
            product_type: Some("com.apple.product-type.app-extension".into()),
            target_build_dir: Some("/tmp".into()),
            full_product_name: Some("Widget.appex".into()),
        },
        TargetSettings {
            product_type: Some("com.apple.product-type.application".into()),
            target_build_dir: Some("/tmp/Build Products".into()),
            full_product_name: Some("Demo.app".into()),
        },
    ];
    assert_eq!(app_from_targets(&targets).unwrap(), "/tmp/Build Products/Demo.app");
    assert!(app_from_targets(&[]).is_err());
}

#[test]
fn project_arguments_follow_the_container_kind() {
    assert_eq!(project_args("/p/App.xcworkspace"), vec!["-workspace".to_string(), "/p/App.xcworkspace".into()]);
    assert_eq!(project_args("/p/App.xcworkspace/"), vec!["-workspace".to_string(), "/p/App.xcworkspace/".into()]);
    assert_eq!(project_args("/p/App.xcodeproj"), vec!["-project".to_string(), "/p/App.xcodeproj".into()]);
    assert_eq!(project_args("/p/.xcworkspace"), vec!["-project".to_string(), "/p/.xcworkspace".into()]);
    assert_eq!(
        choose_container(vec!["a.xcodeproj".into()], vec!["b.xcworkspace".into()]),
        Ok("b.xcworkspace".to_string())
    );
    assert_eq!(choose_container(Vec::new(), Vec::new()), Err(DiscoverError::NoProject));
    assert_eq!(
        choose_container(vec!["a".into(), "b".into()], Vec::new()),
        Err(DiscoverError::MultipleProjects)
    );
}

#[test]
fn unsafe_identifiers_are_rejected() {
    assert!(key("../bad").is_err());
}

#[test]
fn identifiers_allow_letters_digits_and_dashes() {
    assert_eq!(key("ABC-123"), Ok("ABC-123"));
    assert_eq!(key(""), Err(SessionError::InvalidKey));
    assert_eq!(key(&"a".repeat(129)), Err(SessionError::InvalidKey));
}

#[test]
fn foreground_checks_follow_the_reported_pid() {
    let bound = session();
    let mut shown = screen(Vec::new(), None);
    assert_eq!(check_foreground(&bound, &shown, false), Ok(()));
    shown.pid = Some(2);
    assert_eq!(check_foreground(&bound, &shown, true), Err(SessionError::ForegroundChanged));
    shown.pid = None;
    assert_eq!(check_foreground(&bound, &shown, true), Ok(()));
    assert_eq!(check_foreground(&bound, &shown, false), Err(SessionError::ForegroundChanged));
}

#[test]
fn stable_references_and_delta_follow_identifier_across_label_change() {
    let mut session = session();
    let mut screen = screen(vec![element("StaticText", Some("counter"), Some("0"))], None);
    let first = update(&mut session, screen.clone(), None);
    screen.elements[0].label = Some("1".into());
    let changed = update(&mut session, screen.clone(), Some(first.revision));
    assert_eq!(changed.changed[0].reference, first.added[0].reference);
    assert!(changed.full.is_none());
    let unchanged = update(&mut session, screen, Some(changed.revision));
    assert!(
        unchanged.added.is_empty()
            && unchanged.changed.is_empty()
            && unchanged.removed.is_empty()
    );
    assert_eq!(unchanged.revision, changed.revision);
}

#[test]
fn update_numbers_new_elements_and_reports_removed_references() {
    let mut session = session();
    let first = update(
        &mut session,
        screen(vec![element("Button", None, Some("A")), element("Button", None, Some("A"))], None),
        None,
    );
    assert_eq!(first.revision, 1);
    assert!(first.full.is_some());
    assert_eq!(first.added.iter().map(|e| e.reference).collect::<Vec<_>>(), vec![Some(1), Some(2)]);
    let second = update(&mut session, screen(vec![element("Button", None, Some("A"))], None), Some(1));
    assert_eq!(second.removed, vec![2]);
    assert!(second.added.is_empty());
    assert_eq!(second.revision, 2);
    assert_eq!(session.next_reference, 3);
    let third = update(&mut session, screen(vec![element("Button", None, Some("B"))], None), Some(0));
    assert_eq!(third.added[0].reference, Some(3));
    assert_eq!(third.removed, vec![1]);
    assert!(third.full.is_some());
}

#[test]
fn poll_backoff_starts_fast_and_caps() {
    let mut waits = Vec::new();
    let mut backoff = PollBackoff::new(50, 300);
    for _ in 0..14 {
        waits.push(backoff.next_ms.min(backoff.cap_ms));
        backoff.next_ms = backoff.next_ms * 3 / 2;
    }
    assert_eq!(&waits[..6], &[50, 75, 112, 168, 252, 300]);
    assert!(waits[6..].iter().all(|ms| *ms == 300));
}

#[test]
fn poll_backoff_methods_follow_the_same_schedule() {
    let mut backoff = PollBackoff::new(50, 300);
    let mut waits = Vec::new();
    for _ in 0..8 {
        waits.push(backoff.delay_ms());
        backoff.advance();
    }
    assert_eq!(waits, vec![50, 75, 112, 168, 252, 300, 300, 300]);
    let mut huge = PollBackoff::new(u64::MAX, 10);
    huge.advance();
    assert_eq!(huge.delay_ms(), 10);
}

#[test]
fn action_requests_are_bounded() {
    assert_eq!(validate_request(0, 1000), Err(ActionError::ActionCount));
    assert_eq!(validate_request(33, 1000), Err(ActionError::ActionCount));
    assert_eq!(validate_request(1, 99), Err(ActionError::Timeout));
    assert_eq!(validate_request(32, 60000), Ok(()));
    assert_eq!(validate_request(1, 100), Ok(()));
    assert_eq!(validate_request(1, 60001), Err(ActionError::Timeout));
    assert_eq!(validate_request(0, 5), Err(ActionError::ActionCount));
}

fn framed(role: &str, label: &str, x: f64) -> Element {
    let mut e = element(role, None, Some(label));
    e.frame = Some(FrameBits {
        x: x.to_bits(),
        y: 10.0_f64.to_bits(),
        width: 100.0_f64.to_bits(),
        height: 44.0_f64.to_bits(),
    });
    e
}

#[test]
fn ambiguous_tap_does_not_send_input() {
    let current = screen(vec![framed("Button", "Continue", 0.0), framed("Button", "Continue", 200.0)], None);
    let by_label = Selector { identifier: None, label: Some("Continue".into()), role: None };
    let refused = tap_target(&current, &by_label).unwrap_err();
    assert_eq!(refused, TapError::Matched(2));
    assert!(refused.message().contains("matched 2 elements"));
    let missing = Selector { identifier: None, label: Some("Stop".into()), role: None };
    assert_eq!(tap_target(&current, &missing), Err(TapError::Matched(0)));
    let both = Selector { identifier: Some("a".into()), label: Some("Continue".into()), role: None };
    assert_eq!(tap_target(&current, &both), Err(TapError::Selector(SelectorError::NotExactlyOne)));
}

#[test]
fn unique_tap_reaches_the_one_matching_frame() {
    let current = screen(vec![framed("Text", "Continue", 0.0), framed("Button", "Continue", 200.0)], None);
    let selector = Selector { identifier: None, label: Some("Continue".into()), role: Some("Button".into()) };
    let frame = tap_target(&current, &selector).unwrap().unwrap();
    assert_eq!(f64::from_bits(frame.x), 200.0);
    let unframed = screen(vec![element("Button", Some("go"), None)], None);
    let by_id = Selector { identifier: Some("go".into()), label: None, role: None };
    assert_eq!(tap_target(&unframed, &by_id), Ok(None));
}

#[test]
fn references_resolve_only_on_the_current_revision() {
    let mut session = session();
    update(&mut session, screen(vec![element("Button", Some("go"), Some("Go"))], None), None);
    assert_eq!(reference_selector(&session, 1, 0).unwrap_err(), ActionError::StaleRevision);
    assert_eq!(reference_selector(&session, 9, 1).unwrap_err(), ActionError::UnknownReference);
    let (selector, previous) = reference_selector(&session, 1, 1).unwrap();
    assert_eq!(selector.identifier.as_deref(), Some("go"));
    assert_eq!(selector.label, None);
    assert_eq!(selector.role.as_deref(), Some("Button"));
    let current = screen(vec![element("Button", Some("go"), Some("Go"))], None);
    assert_eq!(check_unique_target(&current, &selector, &previous), Ok(()));
    let relabeled = screen(vec![element("Button", Some("go"), Some("Stop"))], None);
    assert_eq!(check_unique_target(&relabeled, &selector, &previous), Err(ActionError::ReferenceChanged));
    assert_eq!(reference_selector(&self::session(), 1, 0).unwrap_err(), ActionError::NotObserved);
}

#[test]
fn settling_follows_hashes_and_labels() {
    let ready = screen(vec![element("Text", None, Some("Done"))], Some("h1"));
    assert_eq!(settle_next(&ready, Some("Done"), Some("h1")), SettleNext::Settled);
    assert_eq!(settle_next(&ready, Some("Done"), Some("h2")), SettleNext::Reinspect);
    assert_eq!(settle_next(&ready, Some("Done"), None), SettleNext::PauseThenCompare);
    assert_eq!(settle_next(&ready, Some("Other"), Some("h1")), SettleNext::Recheck);
    assert_eq!(settle_next(&ready, Some("Other"), None), SettleNext::PauseThenReinspect);
    let unhashed = screen(vec![element("Text", None, Some("Done"))], None);
    assert!(accept_compared(&ready, &unhashed, Some("Done")));
    assert!(accept_compared(&ready, &ready, None));
    let moved = screen(vec![element("Text", None, Some("Done"))], Some("h3"));
    assert!(!accept_compared(&ready, &moved, Some("Done")));
}

#[test]
fn recognizes_simctl_already_stopped_response() {
    let absent = anyhow::Error::msg("Simulator failed: found nothing to terminate");
    let other = anyhow::Error::msg("Simulator failed: permission denied");
    assert!(app_is_already_stopped(&absent.to_string()));
    assert!(!app_is_already_stopped(&other.to_string()));
}

#[test]
fn launch_pid_is_read_after_the_last_colon() {
    assert_eq!(launch_pid("com.example.app: 4242\n"), Some(4242));
    assert_eq!(launch_pid("a:b: 7"), Some(7));
    assert_eq!(launch_pid("no pid"), None);
    assert_eq!(launch_pid("app: x"), None);
}

#[test]
fn screenshot_names_and_log_seconds_are_checked() {
    assert_eq!(screenshot_file_name(1700, "iPhone 17 Pro"), "1700-iPhone-17-Pro.png");
    assert_eq!(screenshot_file_name(5, "a/b c"), "5-a-b-c.png");
    assert!(valid_log_seconds(1) && valid_log_seconds(300));
    assert!(!valid_log_seconds(0) && !valid_log_seconds(301));
}

#[test]
fn recent_logs_keep_the_newest_lines_within_limits() {
    let text = (0..250).map(|i| format!("line{i}")).collect::<Vec<_>>().join("\n");
    let (lines, truncated) = tail_lines(&text);
    assert_eq!(lines.len(), 200);
    assert_eq!(lines[0], "line50");
    assert_eq!(lines[199], "line249");
    assert!(truncated);
    let big = format!("{}\n{}\nlast", "x".repeat(40000), "y".repeat(30000));
    let (lines, truncated) = tail_lines(&big);
    assert_eq!(lines.len(), 2);
    assert_eq!(lines[1], "last");
    assert!(truncated);
    assert_eq!(tail_lines("a\nb"), (vec!["a".to_string(), "b".to_string()], false));
}

#[test]
fn recent_logs_count_the_newlines_that_join_them() {
    let wide = (0..200).map(|_| "z".repeat(327)).collect::<Vec<_>>().join("\n");
    let (lines, truncated) = tail_lines(&wide);
    assert_eq!(lines.len(), 199);
    assert!(truncated);
    assert!(lines.join("\n").len() <= 65536);
    let exact = format!("{}\n{}", "a".repeat(32767), "b".repeat(32768));
    let (lines, truncated) = tail_lines(&exact);
    assert_eq!(lines.len(), 2);
    assert_eq!(lines.join("\n").len(), 65536);
    assert!(!truncated);
    let over = format!("{}\n{}", "a".repeat(32768), "b".repeat(32768));
    let (lines, truncated) = tail_lines(&over);
    assert_eq!(lines.len(), 1);
    assert!(truncated);
}

#[test]
fn log_cursor_gaps_and_batch_limits_on_a_filled_buffer() {
    let mut buffer = LogBuffer::new();
    for _ in 0..100 {
        buffer.push("x".repeat(16 * 1024));
    }
    buffer.push("x".repeat(16 * 1024));
    for _ in 0..9 {
        buffer.push("x".repeat(16 * 1024));
    }
    let first = buffer.read(0).unwrap();
    assert!(first.dropped);
    assert_eq!(first.entries.len(), 4);
    assert_eq!(first.entries[0].sequence, 47);
    assert_eq!(first.cursor, 50);
    assert!(!buffer.read(first.cursor).unwrap().dropped);
    assert_eq!(buffer.read(111).unwrap_err(), LogError::CursorAhead);
    buffer.finish(Some("stopped".into()));
    let last = buffer.read(110).unwrap();
    assert!(last.entries.is_empty() && last.done);
    assert_eq!(last.cursor, 110);
    assert_eq!(last.error.as_deref(), Some("stopped"));
}

#[test]
fn log_buffer_keeps_at_most_a_thousand_entries() {
    let mut buffer = LogBuffer::new();
    for i in 0..1005 {
        buffer.push(format!("{i}"));
    }
    let batch = buffer.read(0).unwrap();
    assert_eq!(batch.entries[0].sequence, 6);
    assert!(batch.dropped);
    let entry = Entry { sequence: 1, text: "t".into() };
    assert_eq!(entry.clone().text, "t");
}

fn state(name: &str, from: Option<&str>) -> CaptureState {
    CaptureState {
        name: name.into(),
        from: from.map(str::to_owned),
        transition: None,
        actions: Vec::new(),
        expect_label: None,
    }
}

#[test]
fn flow_plans_numbered_screenshots_and_parents() {
    let planned = plan_flow(&vec![state("home", None), state("detail", None), state("back", Some("home"))], 1000).unwrap();
    assert_eq!(planned[0].screenshot_file, "01-home.png");
    assert_eq!(planned[1].from.as_deref(), Some("home"));
    assert_eq!(planned[2].from.as_deref(), Some("home"));
    assert_eq!(planned[2].screenshot_file, "03-back.png");
    assert_eq!(plan_flow(&Vec::new(), 1000).unwrap_err(), FlowError::StateCount);
    assert_eq!(plan_flow(&vec![state("a", None)], 50).unwrap_err(), FlowError::Timeout);
    assert_eq!(plan_flow(&vec![state("a b", None)], 1000).unwrap_err(), FlowError::InvalidName);
    assert_eq!(plan_flow(&vec![state("a", Some("b")), state("b", None)], 1000).unwrap_err(), FlowError::ParentAfterChild);
    assert_eq!(plan_flow(&vec![state("a", None), state("a", None)], 1000).unwrap_err(), FlowError::DuplicateName);
    assert!(valid_state_name("step_1-a") && !valid_state_name(&"a".repeat(81)));
}

#[test]
fn fleet_names_and_udids_are_checked() {
    assert_eq!(validate_name("Phone"), Ok(()));
    assert_eq!(validate_name("  "), Err(FleetError::InvalidName));
    assert_eq!(validate_name(&"n".repeat(100)), Err(FleetError::InvalidName));
    assert_eq!(owned_name("Phone"), "Mx Phone");
    assert_eq!(owned_file_name("AB-12").unwrap(), "AB-12.owned.json");
    assert_eq!(owned_file_name("../x"), Err(FleetError::InvalidDevice));
    assert_eq!(
        created_udid(" 550E8400-e29b-41d4-a716-446655440000\n").unwrap(),
        "550E8400-e29b-41d4-a716-446655440000"
    );
    assert_eq!(
        created_udid("{550e8400-e29b-41d4-a716-446655440000}").unwrap(),
        "{550e8400-e29b-41d4-a716-446655440000}"
    );
    assert!(created_udid("URN:uuid:550e8400-e29b-41d4-a716-446655440000").is_ok());
    assert!(created_udid("550e8400e29b41d4a716446655440000").is_ok());
    assert_eq!(created_udid("error: nope"), Err(FleetError::UnexpectedUdid));
    assert_eq!(check_boot_limit(0), Err(FleetError::InvalidBootLimit));
    assert_eq!(check_boot_limit(64), Ok(()));
}

#[test]
fn process_tree_collects_descendants_of_launchd_sim() {
    let output = "  1     0 /sbin/launchd\n 50     1 launchd_sim /Devices/ABC/data\n 60    50 SpringBoard\n 70    60 helper\n 80     1 other\nbad line\n";
    let mut parents = Vec::new();
    let mut root = None;
    for line in output.lines() {
        if let Some((pid, parent, is_root)) = parse_ps_line(line, "ABC") {
            parents.push((pid, parent));
            if is_root {
                root = Some(pid);
            }
        }
    }
    assert_eq!(root, Some(50));
    let mut tree = process_tree(&parents, 50);
    tree.sort();
    assert_eq!(tree, vec![50, 60, 70]);
    assert_eq!(parse_ps_line("12 x cmd", "ABC"), None);
    assert_eq!(parse_ps_line("12 3 launchd_sim", "ABC"), Some((12, 3, false)));
    assert!(valid_top_limit(100) && !valid_top_limit(0));
}

#[test]
fn process_counters_track_the_peak() {
    let mut counters = ProcessCounters::default();
    counters.record_spawn();
    counters.record_spawn();
    counters.record_exit();
    counters.record_spawn();
    assert_eq!(counters.spawn_count(), 3);
    assert_eq!(counters.peak_active_count(), 2);
    assert_eq!(strings(&["a", "b"]), vec!["a".to_string(), "b".to_string()]);
    assert_eq!(tail_start(10_000), 10_000 - 4096);
    assert_eq!(tail_start(10), 0);
    assert_eq!(pump_take(b"ab\ncd", 0), 3);
    assert_eq!(pump_take(b"abcd", 16383), 1);
}

#[test]
fn bindings_remember_aliases() {
    let mut bindings = Bindings::new();
    bindings.remember("UDID-1", Some("Phone"), "session-a");
    assert_eq!(bindings.lookup("Phone"), Some(("UDID-1".to_string(), "session-a".to_string())));
    bindings.remember("UDID-1", None, "session-b");
    assert_eq!(bindings.lookup("UDID-1"), Some(("UDID-1".to_string(), "session-b".to_string())));
    assert_eq!(bindings.lookup("Pad"), None);
    assert_eq!(check_bound("a", "a"), Ok(()));
    assert_eq!(check_bound("a", "b"), Err(BindingError::Replaced));
}

#[test]
fn parsed_devices_are_ordered_by_name_then_udid() {
    let groups = vec![
        (
            "com.apple.CoreSimulator.SimRuntime.iOS-26-5".to_string(),
            vec![device("9", "iPhone", "Shutdown"), device("3", "iPad", "Booted"), device("1", "iPhone", "Booted")],
        ),
        (
            "com.apple.CoreSimulator.SimRuntime.iOS-18-0".to_string(),
            vec![device("2", "Apple TV? no, iPhone", "Shutdown")],
        ),
    ];
    let devices = parse_devices(&groups);
    let order: Vec<&str> = devices.iter().map(|d| d.udid.as_str()).collect();
    assert_eq!(order, vec!["2", "3", "1", "9"]);
}

fn elements_of(text: &str) -> Result<Vec<Element>, TreeError> {
    parse_elements(text)
}

#[test]
fn compacts_hierarchy_and_preserves_scalar_values() {
    let elements = elements_of(r#"[{"type":"Application","children":[{"type":"Switch","AXLabel":"Enabled","AXValue":true,"AXUniqueId":"toggle"},{"type":"TextField","AXLabel":"Name","AXValue":"Paul","frame":{"x":1}}]}]"#).unwrap();
    assert_eq!(elements.len(), 2);
    assert_eq!(elements[0].value.as_deref(), Some("true"));
    assert_eq!(elements[0].identifier.as_deref(), Some("toggle"));
    assert_eq!(elements[0].role, "Switch");
    assert_eq!(elements[1].label.as_deref(), Some("Name"));
    assert!(elements.iter().all(|e| e.frame.is_none()));
}

#[test]
fn malformed_hierarchies_fail_instead_of_returning_empty_success() {
    assert_eq!(elements_of("{}").unwrap_err(), TreeError::RootsNotArray);
    assert_eq!(elements_of(r#"[{"children":5}]"#).unwrap_err(), TreeError::ChildrenNotArray);
    assert_eq!(elements_of("[3]").unwrap_err(), TreeError::NotObject);
    assert_eq!(elements_of("[{").unwrap_err(), TreeError::InvalidJson);
    assert_eq!(TreeError::InvalidJson.message(), "Guest returned invalid accessibility JSON");
}

#[test]
fn decoded_trees_give_the_same_elements_as_their_text() {
    let tree = Json::Array(vec![Json::Object(vec![
        ("AXLabel".to_string(), Json::Str("Go".into())),
        ("AXValue".to_string(), Json::Number("12".into())),
        ("children".to_string(), Json::Null),
    ])]);
    let from_tree = elements_of_tree(&tree).unwrap();
    let from_text = parse_elements(r#"[{"AXLabel":"Go","AXValue":12,"children":null}]"#).unwrap();
    assert_eq!(from_tree.len(), 1);
    assert!(from_tree[0].same_as(&from_text[0]));
    assert_eq!(from_text[0].value.as_deref(), Some("12"));
}

#[test]
fn xcode_listings_name_workspace_then_project_schemes() {
    let listing = r#"{"workspace":{"name":"W","schemes":["App",3,"Tests"]}}"#;
    assert_eq!(schemes_in_listing(listing).unwrap(), vec!["App".to_string(), "Tests".into()]);
    let project = r#"{"project":{"schemes":["Demo"]}}"#;
    assert_eq!(schemes_in_listing(project).unwrap(), vec!["Demo".to_string()]);
    assert_eq!(schemes_in_listing(r#"{"workspace":{"schemes":"App"},"project":{"schemes":["Demo"]}}"#), Err(ListingError::NoSchemes));
    assert_eq!(schemes_in_listing(r#"{"workspace":{},"project":{"schemes":["Demo"]}}"#).unwrap(), vec!["Demo".to_string()]);
    assert_eq!(schemes_in_listing("{}"), Err(ListingError::NoSchemes));
    assert_eq!(schemes_in_listing("not json"), Err(ListingError::InvalidJson));
    assert_eq!(ListingError::NoSchemes.message(), "Xcode returned no schemes");
}

#[test]
fn build_settings_name_the_one_application() {
    let json = r#"[{"buildSettings":{"PRODUCT_TYPE":"com.apple.product-type.app-extension","TARGET_BUILD_DIR":"/tmp","FULL_PRODUCT_NAME":"Widget.appex"}},{"buildSettings":{"PRODUCT_TYPE":"com.apple.product-type.application","TARGET_BUILD_DIR":"/tmp/Build Products","FULL_PRODUCT_NAME":"Demo.app"}}]"#;
    assert_eq!(app_from_settings(json).unwrap(), "/tmp/Build Products/Demo.app");
    assert_eq!(app_from_settings("[]"), Err(SettingsError::AppCount(0)));
    assert_eq!(app_from_settings("{}"), Err(SettingsError::InvalidJson));
    assert_eq!(app_from_settings("["), Err(SettingsError::InvalidJson));
    let two = r#"[{"buildSettings":{"PRODUCT_TYPE":"com.apple.product-type.application","TARGET_BUILD_DIR":"/a","FULL_PRODUCT_NAME":"A.app"}},{"buildSettings":{"PRODUCT_TYPE":"com.apple.product-type.application","TARGET_BUILD_DIR":"/b","FULL_PRODUCT_NAME":"B.app"}}]"#;
    assert_eq!(app_from_settings(two), Err(SettingsError::AppCount(2)));
    assert_eq!(
        SettingsError::AppCount(2).message(),
        "Expected one application target, found 2; choose an app scheme"
    );
}

#[test]
fn element_fields_fall_back_in_order_and_blank_strings_are_absent() {
    let elements = elements_of(
        r#"[{"label":"  ","AXIdentifier":"a","identifier":"b","value":7,"role":"Button","children":null},{"AXLabel":" "}]"#,
    )
    .unwrap();
    assert_eq!(elements.len(), 1);
    assert_eq!(elements[0].label, None);
    assert_eq!(elements[0].identifier.as_deref(), Some("a"));
    assert_eq!(elements[0].value.as_deref(), Some("7"));
    assert_eq!(elements[0].role, "Button");
    let unknown = elements_of(r#"[{"AXValue":false}]"#).unwrap();
    assert_eq!(unknown[0].role, "Unknown");
    assert_eq!(unknown[0].value.as_deref(), Some("false"));
}

fn usage(pid: u32, bytes: u64) -> Usage {
    Usage {
        pid,
        name: format!("p{pid}"),
        start_time: 0,
        physical_bytes: bytes,
        rss_bytes: bytes,
        cpu_ns: 0,
        reaped_children_cpu_ns: 0,
        lifetime_peak_physical_bytes: 0,
    }
}

#[test]
fn processes_are_listed_largest_first_and_summed() {
    let sorted = sort_by_footprint(vec![usage(1, 10), usage(2, 30), usage(3, 10), usage(4, 20)]);
    let pids: Vec<u32> = sorted.iter().map(|u| u.pid).collect();
    assert_eq!(pids, vec![2, 4, 1, 3]);
    assert_eq!(total_footprint(&sorted), 70);
    assert_eq!(total_footprint(&Vec::new()), 0);
}

#[test]
fn screens_compare_coordinates_as_floats() {
    let zero = screen(vec![framed("Button", "Go", 0.0)], Some("h"));
    let negative_zero = screen(vec![framed("Button", "Go", -0.0)], Some("h"));
    assert!(same_screen(&zero, &negative_zero));
    assert!(zero.elements[0].same_as(&negative_zero.elements[0]));
    assert!(cache_reusable(10, &zero, &negative_zero, Some("Go")));
    let nan = screen(vec![framed("Button", "Go", f64::NAN)], Some("h"));
    assert!(!same_screen(&nan, &nan));
    assert!(!nan.elements[0].same_as(&nan.elements[0]));
    assert!(!cache_reusable(10, &nan, &nan, None));
    let moved = screen(vec![framed("Button", "Go", 1.0)], Some("h"));
    assert!(!same_screen(&zero, &moved));
    assert!(mx::ui::same_float(0.0_f64.to_bits(), (-0.0_f64).to_bits()));
    assert!(!mx::ui::same_float(f64::NAN.to_bits(), f64::NAN.to_bits()));
    assert!(!mx::ui::same_float(1.0_f64.to_bits(), 2.0_f64.to_bits()));
}

#[test]
fn updates_number_new_references_upward_and_compare_frames_as_floats() {
    let mut s = session();
    s.next_reference = 7;
    let first = update(&mut s, screen(vec![framed("Button", "A", 0.0), framed("Button", "B", 1.0)], None), None);
    let refs: Vec<_> = first.added.iter().map(|e| e.reference).collect();
    assert_eq!(refs, vec![Some(7), Some(8)]);
    assert_eq!(s.next_reference, 9);
    assert_eq!(s.revision, 1);
    let again = update(&mut s, screen(vec![framed("Button", "A", -0.0), framed("Button", "B", 1.0)], None), Some(1));
    assert!(again.added.is_empty() && again.changed.is_empty() && again.removed.is_empty());
    assert_eq!(again.revision, 1);
    assert!(again.full.is_none());
    let nan = screen(vec![framed("Button", "A", f64::NAN)], None);
    let _ = update(&mut s, nan, None);
    let nan_again = update(&mut s, screen(vec![framed("Button", "A", f64::NAN)], None), None);
    assert_eq!(nan_again.changed.len(), 1);
    assert_eq!(nan_again.base_revision + 1, nan_again.revision);
}

#[test]
fn flow_states_are_checked_when_their_turn_comes() {
    let states = vec![state("home", None), state("detail", None), state("home", None), state("bad name", None)];
    assert_eq!(plan_state(&states, 0).unwrap().screenshot_file, "01-home.png");
    let second = plan_state(&states, 1).unwrap();
    assert_eq!(second.from.as_deref(), Some("home"));
    assert_eq!(plan_state(&states, 2).unwrap_err(), FlowError::DuplicateName);
    assert_eq!(plan_state(&states, 3).unwrap_err(), FlowError::InvalidName);
    let orphan = vec![state("a", Some("later")), state("later", None)];
    assert_eq!(plan_state(&orphan, 0).unwrap_err(), FlowError::ParentAfterChild);
    assert_eq!(check_request(0, 1000), Err(FlowError::StateCount));
    assert_eq!(check_request(65, 1000), Err(FlowError::StateCount));
    assert_eq!(check_request(3, 99), Err(FlowError::Timeout));
    assert_eq!(check_request(64, 60000), Ok(()));
    assert_eq!(FlowError::DuplicateName.message(), "Duplicate flow state name");
    assert_eq!(FlowError::InvalidName.message(), "Flow state names must contain only letters, numbers, '-' or '_'");
}
