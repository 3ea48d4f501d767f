use rust_mcp_gateway::name_map::{NameMap, NameSet};
use rust_mcp_gateway::policy::{
    active_profile_name, artifact_enabled, drain_deadline, load, permitted, profile_changed,
    request_budget, response_guard_limits, route_limits, scheduler_limits, validate,
    validate_catalog, Artifacts, Backoff, CatalogError, Child, Circuit, ClassDefaults, ClassLimits,
    Config, Drain, EmptyProfile, Limits, LoadError, Mode, Payload, PolicyError, PolicySource,
    Restart, RestartMode, Tool, ToolClass,
};
use rust_mcp_gateway::span::Span;

fn classes(read: usize, others: usize) -> ClassDefaults {
    ClassDefaults {
        read: Some(ClassLimits { concurrency: read }),
        mutation: Some(ClassLimits { concurrency: others }),
        long_running: Some(ClassLimits { concurrency: others }),
        control: Some(ClassLimits { concurrency: others }),
    }
}

fn profiles(names: &[&str]) -> NameMap<EmptyProfile> {
    let mut map = NameMap::new();
    for name in names {
        map.insert((*name).into(), EmptyProfile {});
    }
    map
}

fn tool(concurrency: usize) -> Tool {
    Tool {
        class: ToolClass::Read,
        profiles: vec!["inspect".into(), "develop".into()],
        concurrency,
    }
}

fn child() -> Child {
    let mut tools = NameMap::new();
    tools.insert("read_text_file".into(), tool(4));
    Child {
        concurrency: 4,
        restart: Restart {
            policy: RestartMode::OnFailure,
            max_attempts: 3,
            stability_window_ms: 30_000,
            backoff: Backoff { initial_ms: 500, max_ms: 30_000 },
            circuit: Circuit { cooldown_ms: 60_000, half_open_attempts: 1 },
        },
        tools,
    }
}

fn config() -> Config {
    let mut children = NameMap::new();
    children.insert("filesystem".into(), child());
    Config {
        schema_version: 1,
        active_profile: "develop".into(),
        limits: Limits {
            global_active: 16,
            global_queue: 64,
            queue_wait_ms: 30_000,
            default_child_active: 4,
        },
        tool_class_defaults: classes(4, 1),
        drain: Drain { deadline_ms: 60_000, allow_safe_reads: false },
        payload: Payload {
            request_bytes: 1,
            response_bytes: 2,
            text_preview_bytes: 1,
            structured_bytes: 1,
            binary_bytes: 1,
        },
        artifacts: Artifacts {
            enabled: false,
            ttl_seconds: 1,
            max_item_bytes: 1,
            max_total_bytes: 1,
        },
        profiles: profiles(&["inspect", "develop"]),
        children,
    }
}

fn small_config(limits: Limits, read: usize) -> Config {
    Config {
        limits,
        tool_class_defaults: classes(read, 1),
        drain: Drain { deadline_ms: 1, allow_safe_reads: false },
        payload: Payload {
            request_bytes: 1,
            response_bytes: 1,
            text_preview_bytes: 1,
            structured_bytes: 1,
            binary_bytes: 1,
        },
        profiles: profiles(&["develop"]),
        children: NameMap::new(),
        ..config()
    }
}

fn sets(entries: &[(&str, &[&str])]) -> NameMap<NameSet> {
    let mut map = NameMap::new();
    for (child, names) in entries {
        let list: Vec<String> = names.iter().map(|name| (*name).into()).collect();
        map.insert((*child).into(), NameSet::from_list(&list));
    }
    map
}

#[test]
fn strict_policy_sets_scheduler_limits() {
    let config = small_config(
        Limits { global_active: 3, global_queue: 7, queue_wait_ms: 42, default_child_active: 2 },
        2,
    );
    assert_eq!(
        scheduler_limits(&Mode::Strict(Box::new(config))),
        (3, 7, Span::from_millis(42))
    );
}

#[test]
fn profile_identity_distinguishes_legacy_and_named_profiles() {
    let strict = small_config(
        Limits { global_active: 1, global_queue: 1, queue_wait_ms: 1, default_child_active: 1 },
        1,
    );
    assert_eq!(active_profile_name(&Mode::LegacyCompat), None);
    assert_eq!(active_profile_name(&Mode::Strict(Box::new(strict))), Some("develop"));
}

#[test]
fn valid_policy_is_accepted() {
    validate(&config()).unwrap();
}

#[test]
fn unknown_fields_and_invalid_limits_fail_closed() {
    let mut invalid = config();
    invalid.limits.global_active = 0;
    assert!(validate(&invalid).is_err());
}

#[test]
fn catalog_validation_rejects_unexposed_tools() {
    let children = sets(&[("filesystem", &["read_text_file"])]);
    let allowlists = sets(&[("filesystem", &[])]);
    validate_catalog(&config(), &children, &allowlists).unwrap();
    let blocked = sets(&[("filesystem", &["other"])]);
    assert!(validate_catalog(&config(), &children, &blocked).is_err());
}

#[test]
fn each_fault_of_a_policy_is_told() {
    let fault = |change: &dyn Fn(&mut Config)| {
        let mut bad = config();
        change(&mut bad);
        validate(&bad).unwrap_err()
    };
    let error = fault(&|c| c.schema_version = 2);
    assert_eq!(error, PolicyError::UnsupportedSchema(2));
    assert_eq!(error.message(), "unsupported Gateway policy schema_version 2");
    for change in [
        (&|c: &mut Config| c.active_profile = "other".into()) as &dyn Fn(&mut Config),
        &|c: &mut Config| c.profiles = NameMap::new(),
        &|c: &mut Config| {
            c.profiles.insert("bad name".into(), EmptyProfile {});
        },
    ] {
        assert_eq!(fault(change), PolicyError::ActiveProfile);
    }
    for change in [
        (&|c: &mut Config| c.limits.global_active = 0) as &dyn Fn(&mut Config),
        &|c: &mut Config| c.limits.global_queue = 0,
        &|c: &mut Config| c.limits.queue_wait_ms = 0,
        &|c: &mut Config| c.limits.default_child_active = 0,
    ] {
        assert_eq!(fault(change), PolicyError::SchedulerLimits);
    }
    let error = fault(&|c| c.tool_class_defaults.long_running = None);
    assert_eq!(error, PolicyError::MissingClass(ToolClass::LongRunning));
    assert_eq!(error.message(), "Gateway policy lacks a default limit for LongRunning");
    let error = fault(&|c| c.tool_class_defaults.mutation = Some(ClassLimits { concurrency: 17 }));
    assert_eq!(error, PolicyError::ClassLimit(ToolClass::Mutation));
    assert_eq!(error.message(), "Gateway class limit for Mutation is out of bounds");
    for change in [
        (&|c: &mut Config| c.drain.deadline_ms = 0) as &dyn Fn(&mut Config),
        &|c: &mut Config| c.payload.request_bytes = 0,
        &|c: &mut Config| c.payload.response_bytes = 0,
        &|c: &mut Config| c.payload.text_preview_bytes = 0,
        &|c: &mut Config| c.payload.structured_bytes = 0,
        &|c: &mut Config| c.payload.binary_bytes = 0,
        &|c: &mut Config| c.artifacts.ttl_seconds = 0,
        &|c: &mut Config| c.artifacts.max_item_bytes = 0,
        &|c: &mut Config| c.artifacts.max_item_bytes = 2,
    ] {
        assert_eq!(fault(change), PolicyError::Bounds);
    }
    let error = fault(&|c| {
        let mut bad = child();
        bad.restart.backoff.initial_ms = 30_001;
        c.children.insert("filesystem".into(), bad);
    });
    assert_eq!(error, PolicyError::Child("filesystem".into()));
    assert_eq!(error.message(), "Gateway child policy for filesystem is invalid");
    let error = fault(&|c| {
        let mut bad = child();
        bad.tools.insert("write".into(), Tool { profiles: vec!["none".into()], ..tool(1) });
        c.children.insert("filesystem".into(), bad);
    });
    assert_eq!(error, PolicyError::Tool("filesystem".into(), "write".into()));
    assert_eq!(error.message(), "Gateway tool policy for filesystem.write is invalid");
}

#[test]
fn each_misfit_of_a_policy_is_told() {
    let none = sets(&[]);
    let error = validate_catalog(&config(), &none, &none).unwrap_err();
    assert_eq!(error, CatalogError::UnknownChild("filesystem".into()));
    assert_eq!(error.message(), "Gateway policy references unknown child filesystem");
    let other = sets(&[("filesystem", &["other"])]);
    let error = validate_catalog(&config(), &other, &none).unwrap_err();
    assert_eq!(
        error.message(),
        "Gateway policy references unknown tool filesystem.read_text_file"
    );
    let offered = sets(&[("filesystem", &["other", "read_text_file"])]);
    let error = validate_catalog(&config(), &offered, &other).unwrap_err();
    assert_eq!(
        error.message(),
        "Gateway policy exposes tool excluded by child allowlist: filesystem.read_text_file"
    );
}

#[test]
fn a_policy_of_offered_tools_fits() {
    let offered = sets(&[("filesystem", &["other", "read_text_file"]), ("git", &["status"])]);
    for allowed in [
        sets(&[]),
        sets(&[("filesystem", &[])]),
        sets(&[("filesystem", &["read_text_file"]), ("git", &["log"])]),
    ] {
        assert_eq!(validate_catalog(&config(), &offered, &allowed), Ok(()));
    }
}

#[test]
fn modes_differ_in_what_they_allow() {
    let legacy = Mode::LegacyCompat;
    let mut governed = config();
    governed.artifacts.enabled = true;
    let strict = Mode::Strict(Box::new(governed));

    assert_eq!(scheduler_limits(&legacy), (16, 64, Span::from_secs(30)));
    assert_eq!(route_limits(&legacy, "any", "tool"), Some((4, 4)));
    assert_eq!(route_limits(&strict, "filesystem", "read_text_file"), Some((4, 4)));
    assert_eq!(route_limits(&strict, "filesystem", "write"), None);
    assert_eq!(route_limits(&strict, "git", "read_text_file"), None);
    assert_eq!(request_budget(&legacy), usize::MAX);
    assert_eq!(request_budget(&strict), 1);
    assert!(response_guard_limits(&legacy).is_none());
    let (payload, artifacts) = response_guard_limits(&strict).unwrap();
    assert_eq!(payload.response_bytes, 2);
    assert_eq!(artifacts.ttl, Span::from_secs(1));
    assert!(!artifact_enabled(&legacy));
    assert!(artifact_enabled(&strict));
    assert_eq!(drain_deadline(&legacy), Span::from_secs(60));
    assert_eq!(drain_deadline(&strict), Span::from_millis(60_000));
    assert_eq!(legacy.schema_version(), None);
    assert_eq!(strict.schema_version(), Some(1));
    assert!(permitted(&legacy, "git", "push"));
    assert!(!permitted(&strict, "git", "push"));
    assert!(profile_changed(&legacy, &strict));
    assert!(!profile_changed(&legacy, &legacy));
}

#[test]
fn a_tool_runs_within_the_limits_of_its_class() {
    let mut governed = config();
    let mut many = child();
    many.tools.insert("read_text_file".into(), tool(9));
    governed.children.insert("filesystem".into(), many);
    governed.tool_class_defaults = classes(2, 1);
    let strict = Mode::Strict(Box::new(governed));
    assert_eq!(route_limits(&strict, "filesystem", "read_text_file"), Some((4, 2)));
}

#[test]
fn a_profile_sees_only_its_tools() {
    let mut governed = config();
    let mut only = child();
    only.tools.insert(
        "inspect_only".into(),
        Tool { profiles: vec!["inspect".into()], ..tool(1) },
    );
    governed.children.insert("filesystem".into(), only);
    let strict = Mode::Strict(Box::new(governed));
    assert!(permitted(&strict, "filesystem", "read_text_file"));
    assert!(!permitted(&strict, "filesystem", "inspect_only"));
    assert_eq!(route_limits(&strict, "filesystem", "inspect_only"), None);
}

#[test]
fn a_policy_file_decides_on_the_mode() {
    assert_eq!(load(PolicySource::Missing), Ok(Mode::LegacyCompat));
    let strict = load(PolicySource::Parsed(Box::new(config()))).unwrap();
    assert_eq!(active_profile_name(&strict), Some("develop"));
    let mut bad = config();
    bad.schema_version = 9;
    let error = load(PolicySource::Parsed(Box::new(bad))).unwrap_err();
    assert_eq!(error, LoadError::Invalid(PolicyError::UnsupportedSchema(9)));
    let told = |source| load(source).unwrap_err().message("/etc/gateway.yaml");
    assert_eq!(
        told(PolicySource::Irregular),
        "Gateway policy must be a regular non-symlink file: /etc/gateway.yaml"
    );
    assert_eq!(told(PolicySource::NoParent), "Gateway config directory has no parent");
    assert_eq!(
        told(PolicySource::Uninspected("io".into())),
        "cannot inspect /etc/gateway.yaml: io"
    );
    assert_eq!(told(PolicySource::Unreadable("io".into())), "cannot read /etc/gateway.yaml: io");
    assert_eq!(
        told(PolicySource::Malformed("bad".into())),
        "invalid Gateway policy /etc/gateway.yaml: bad"
    );
}
