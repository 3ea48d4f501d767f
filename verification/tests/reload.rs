use rust_mcp_gateway::catalog::{builtin_schema, builtin_tools, ChildTool, Snapshot};
use rust_mcp_gateway::config::{ChildConfig, RestartConfig, RestartPolicy};
use rust_mcp_gateway::config_files::{CommandSignature, LoadedConfig};
use rust_mcp_gateway::gateway::GatewayCore;
use rust_mcp_gateway::name_map::{NameMap, NameSet};
use rust_mcp_gateway::policy::{
    Artifacts, Backoff, Child, Circuit, ClassDefaults, ClassLimits, Config, Drain, EmptyProfile,
    Limits, Mode, Payload, Restart, RestartMode, Tool, ToolClass,
};
use rust_mcp_gateway::recovery::State;
use rust_mcp_gateway::reload::{
    cancel_snapshot_except, plan_child, Arrival, Plan, Reload, Started,
};
use rust_mcp_gateway::telemetry::Observation;
use serde_json::Value;

fn item(name: &str) -> LoadedConfig {
    LoadedConfig {
        source: format!("/servers.d/{name}.yaml"),
        config: ChildConfig {
            name: name.into(),
            enabled: true,
            command: format!("/bin/{name}"),
            args: vec![],
            env: NameMap::new(),
            tool_prefix: None,
            tool_allowlist: vec![],
            timeout_ms: 1_000,
            restart: RestartConfig::default(),
        },
    }
}

fn signature() -> CommandSignature {
    CommandSignature {
        canonical_path: b"/bin/x".to_vec(),
        len: 1,
        modified: None,
        device: 1,
        inode: 2,
    }
}

fn tools(names: &[&str]) -> Vec<ChildTool> {
    names
        .iter()
        .map(|name| ChildTool { name: (*name).into(), description: Some(format!("does {name}")) })
        .collect()
}

fn arrive(names: &[&str]) -> Arrival {
    Arrival::Started(Started { command_signature: Some(signature()), tools: tools(names) })
}

fn policy(tools: &[(&str, &[&str])]) -> Mode {
    policy_of("develop", "git", tools)
}

fn policy_of(profile: &str, child: &str, tools: &[(&str, &[&str])]) -> Mode {
    let mut entries = NameMap::new();
    for (name, profiles) in tools {
        entries.insert(
            (*name).into(),
            Tool {
                class: ToolClass::Read,
                profiles: profiles.iter().map(|profile| (*profile).into()).collect(),
                concurrency: 1,
            },
        );
    }
    let mut children = NameMap::new();
    children.insert(
        child.into(),
        Child {
            concurrency: 1,
            restart: Restart {
                policy: RestartMode::OnFailure,
                max_attempts: 2,
                stability_window_ms: 30_000,
                backoff: Backoff { initial_ms: 500, max_ms: 30_000 },
                circuit: Circuit { cooldown_ms: 60_000, half_open_attempts: 1 },
            },
            tools: entries,
        },
    );
    let mut profiles = NameMap::new();
    profiles.insert("develop".into(), EmptyProfile {});
    profiles.insert("inspect".into(), EmptyProfile {});
    let one = Some(ClassLimits { concurrency: 1 });
    Mode::Strict(Box::new(Config {
        schema_version: 1,
        active_profile: profile.into(),
        limits: Limits {
            global_active: 1,
            global_queue: 1,
            queue_wait_ms: 1,
            default_child_active: 1,
        },
        tool_class_defaults: ClassDefaults {
            read: one,
            mutation: one,
            long_running: one,
            control: one,
        },
        drain: Drain { deadline_ms: 1, allow_safe_reads: false },
        payload: Payload {
            request_bytes: 1,
            response_bytes: 1,
            text_preview_bytes: 1,
            structured_bytes: 1,
            binary_bytes: 1,
        },
        artifacts: Artifacts {
            enabled: false,
            ttl_seconds: 1,
            max_item_bytes: 1,
            max_total_bytes: 1,
        },
        profiles,
        children,
    }))
}

fn tool_names(snapshot: &Snapshot) -> Vec<&str> {
    snapshot.tools[4..].iter().map(|tool| tool.name.as_str()).collect()
}

fn running(children: Vec<(LoadedConfig, Vec<&str>)>, mode: Mode) -> Snapshot {
    let mut previous = Snapshot::default();
    let mut reload = Reload::new(mode);
    let mut loaded = Vec::new();
    for (item, names) in children {
        reload = reload.step_at(&mut previous, &item, arrive(&names), false, 10).unwrap().0;
        loaded.push(item);
    }
    reload.finish(&loaded).unwrap().next
}

#[test]
fn a_catalog_starts_with_the_gateways_own_tools() {
    let names: Vec<String> = builtin_tools().into_iter().map(|tool| tool.name).collect();
    assert_eq!(
        names,
        vec![
            "gateway_list_servers",
            "gateway_reload",
            "gateway_set_server_enabled",
            "gateway_read_artifact"
        ]
    );
    let ready = Reload::new(Mode::LegacyCompat).finish(&vec![]).unwrap();
    assert_eq!(ready.next.tools.len(), 4);
    assert!(ready.next.routes.is_empty());
}

fn object(members: Vec<(&str, Value)>) -> Value {
    Value::Object(members.into_iter().map(|(name, value)| (name.to_owned(), value)).collect())
}

fn schema(properties: Vec<(&str, Value)>, required: Option<Vec<&str>>) -> Value {
    let mut members = vec![
        ("type", Value::from("object")),
        ("properties", object(properties)),
        ("additionalProperties", Value::from(false)),
    ];
    if let Some(required) = required {
        members.push(("required", Value::from(required)));
    }
    object(members)
}

#[test]
fn own_tools_tell_what_they_take() {
    let told = |name| serde_json::from_str::<Value>(builtin_schema(name).unwrap()).unwrap();
    assert_eq!(told("gateway_list_servers"), schema(vec![], None));
    assert_eq!(told("gateway_reload"), schema(vec![], None));
    assert_eq!(
        told("gateway_set_server_enabled"),
        schema(
            vec![
                ("name", object(vec![("type", "string".into()), ("minLength", 1.into())])),
                ("enabled", object(vec![("type", "boolean".into())])),
            ],
            Some(vec!["name", "enabled"]),
        )
    );
    assert_eq!(
        told("gateway_read_artifact"),
        schema(
            vec![
                ("id", object(vec![("type", "string".into()), ("format", "uuid".into())])),
                ("offset", object(vec![("type", "integer".into()), ("minimum", 0.into())])),
                ("max_bytes", object(vec![("type", "integer".into()), ("minimum", 1.into())])),
            ],
            Some(vec!["id", "max_bytes"]),
        )
    );
    assert_eq!(builtin_schema("status"), None);
    for tool in builtin_tools() {
        assert!(builtin_schema(&tool.name).is_some());
    }
}

#[test]
fn started_children_are_exposed_under_their_names() {
    let mut prefixed = item("git");
    prefixed.config.tool_prefix = Some("g_".into());
    let snapshot = running(
        vec![(prefixed, vec!["status"]), (item("fs"), vec!["read", "write"])],
        Mode::LegacyCompat,
    );
    assert_eq!(tool_names(&snapshot), vec!["g_status", "read", "write"]);
    assert_eq!(snapshot.tools[4].description, "[git] does status");
    assert_eq!(snapshot.tools[4].child.as_deref(), Some("git"));
    let route = snapshot.routes.get("g_status").unwrap();
    assert_eq!((route.child.as_str(), route.original_name.as_str()), ("git", "status"));
    let status = snapshot.statuses.get("fs").unwrap();
    assert!(status.running);
    assert_eq!(status.tool_count, 2);
    assert_eq!(status.generation, 1);
    assert_eq!(status.recovery_state, State::Healthy);
}

#[test]
fn tools_without_description_get_one() {
    let mut previous = Snapshot::default();
    let bare = Arrival::Started(Started {
        command_signature: None,
        tools: vec![ChildTool { name: "t".into(), description: None }],
    });
    let (reload, kept) =
        Reload::new(Mode::LegacyCompat).step(&mut previous, &item("git"), bare, false).unwrap();
    assert!(kept);
    let ready = reload.finish(&vec![item("git")]).unwrap();
    assert_eq!(ready.next.tools[4].description, "[git] Child MCP tool");
}

#[test]
fn children_are_planned_by_what_is_known_of_them() {
    let previous = running(vec![(item("git"), vec!["status"])], Mode::LegacyCompat);
    let config = item("git").config;
    let now = Some(signature());
    assert_eq!(plan_child(&previous, &config, &now, false), Plan::Reuse);
    assert_eq!(plan_child(&previous, &config, &now, true), Plan::Start);
    assert_eq!(plan_child(&previous, &config, &None, false), Plan::Start);
    let mut replaced = signature();
    replaced.inode = 3;
    assert_eq!(plan_child(&previous, &config, &Some(replaced), false), Plan::Start);
    let mut changed = item("git").config;
    changed.timeout_ms = 2_000;
    assert_eq!(plan_child(&previous, &changed, &now, false), Plan::Start);
    let mut off = item("git").config;
    off.enabled = false;
    assert_eq!(plan_child(&previous, &off, &now, false), Plan::Skip);
    assert_eq!(plan_child(&previous, &item("fs").config, &now, false), Plan::Start);
}

#[test]
fn disabled_children_are_only_noted() {
    let mut previous = Snapshot::default();
    let mut off = item("git");
    off.config.enabled = false;
    let (reload, kept) = Reload::new(Mode::LegacyCompat)
        .step(&mut previous, &off, Arrival::Skipped, false)
        .unwrap();
    assert!(!kept);
    let ready = reload.finish(&vec![]).unwrap();
    let status = ready.next.statuses.get("git").unwrap();
    assert!(!status.enabled && !status.running);
    assert_eq!(status.recovery_state, State::Restarting);
    assert!(ready.next.children.is_empty());
}

#[test]
fn an_allowlist_hides_tools_and_must_name_offered_ones() {
    let mut filtered = item("git");
    filtered.config.tool_allowlist = vec!["status".into()];
    let snapshot = running(vec![(filtered, vec!["status", "push"])], Mode::LegacyCompat);
    assert_eq!(tool_names(&snapshot), vec!["status"]);
    assert!(!snapshot.routes.contains_key("push"));

    let mut wrong = item("git");
    wrong.config.tool_allowlist = vec!["status".into(), "gone".into()];
    let mut previous = Snapshot::default();
    let (reload, kept) = Reload::new(Mode::LegacyCompat)
        .step(&mut previous, &wrong, arrive(&["status"]), false)
        .unwrap();
    assert!(!kept);
    let ready = reload.finish(&vec![]).unwrap();
    let status = ready.next.statuses.get("git").unwrap();
    assert_eq!(
        status.error.as_deref(),
        Some("tool_allowlist references unknown child tool 'gone'")
    );
    assert!(!status.running);
    assert!(ready.next.children.is_empty());
}

#[test]
fn profile_reload_hides_disallowed_tool_and_notifies_tool_list_change() {
    let mode = policy(&[("inspect", &["develop", "inspect"]), ("mutate", &["inspect"])]);
    let snapshot = running(vec![(item("git"), vec!["mutate", "inspect", "other"])], mode);
    assert_eq!(tool_names(&snapshot), vec!["inspect"]);

    let under = |profile| policy_of(profile, "profile", &[("mutate", &["develop"])]);
    let mut core = GatewayCore::new(under("develop"), 7);
    let (reload, _) = Reload::new(under("develop"))
        .step(&mut core.state, &item("profile"), arrive(&["mutate"]), false)
        .unwrap();
    core.commit(reload.finish(&vec![item("profile")]).unwrap());
    assert_eq!(tool_names(&core.state), vec!["mutate"]);
    assert!(core.state.routes.contains_key("mutate"));
    assert_eq!((core.catalog_generation, core.profile_generation), (1, 1));

    let (reload, kept) = Reload::new(under("inspect"))
        .step(&mut core.state, &item("profile"), Arrival::Reused, false)
        .unwrap();
    assert!(kept);
    let (summary, cancel) = core.commit(reload.finish(&vec![item("profile")]).unwrap());
    assert!(cancel.is_empty());
    assert_eq!((summary.running_servers, summary.exposed_child_tools), (1, 0));
    assert!(tool_names(&core.state).is_empty());
    assert!(!core.state.routes.contains_key("mutate"));
    assert_eq!((core.catalog_generation, core.profile_generation), (2, 2));
}

#[test]
fn names_that_clash_or_are_no_names_end_a_reload() {
    let mut previous = Snapshot::default();
    let (reload, _) = Reload::new(Mode::LegacyCompat)
        .step(&mut previous, &item("a"), arrive(&["status"]), false)
        .unwrap();
    let abandoned =
        reload.step(&mut previous, &item("b"), arrive(&["log", "status"]), false).unwrap_err();
    assert_eq!(
        abandoned.error.message(),
        "duplicate exposed tool name 'status'; set tool_prefix on one child"
    );
    assert_eq!(abandoned.cancel, vec!["a"]);

    let abandoned = Reload::new(Mode::LegacyCompat)
        .step(&mut previous, &item("a"), arrive(&["bad tool"]), false)
        .unwrap_err();
    assert_eq!(
        abandoned.error.message(),
        "child 'a' produced invalid exposed tool name 'bad tool'"
    );
    let abandoned = Reload::new(Mode::LegacyCompat)
        .step(&mut previous, &item("a"), arrive(&["gateway_reload"]), false)
        .unwrap_err();
    assert!(abandoned.error.message().starts_with("duplicate exposed tool name 'gateway_reload'"));
}

#[test]
fn repeated_failed_child_catalog_refreshes_retain_last_known_good_generation() {
    let mut core = GatewayCore::new(Mode::LegacyCompat, 7);
    let (reload, _) = Reload::new(Mode::LegacyCompat)
        .step(&mut core.state, &item("catalog"), arrive(&["mutate"]), false)
        .unwrap();
    core.commit(reload.finish(&vec![item("catalog")]).unwrap());
    let before = core.catalog_generation;
    assert_eq!(tool_names(&core.state), vec!["mutate"]);
    for round in 1..=32 {
        let mut changed = item("catalog");
        changed.config.command = "missing-m7-catalog-child".into();
        assert_eq!(plan_child(&core.state, &changed.config, &None, false), Plan::Start);
        let (reload, kept) = Reload::new(Mode::LegacyCompat)
            .step(&mut core.state, &changed, Arrival::Failed("no such file".into()), false)
            .unwrap();
        assert!(kept);
        let (_, cancel) = core.commit(reload.finish(&vec![changed]).unwrap());
        assert!(cancel.is_empty());
        assert_eq!(core.catalog_generation, before + round);
        assert_eq!(tool_names(&core.state), vec!["mutate"]);
        let route = core.state.routes.get("mutate").unwrap();
        assert_eq!((route.child.as_str(), route.original_name.as_str()), ("catalog", "mutate"));
        let status = core.state.statuses.get("catalog").unwrap();
        assert!(status.running);
        assert_eq!(status.generation, 1);
        assert_eq!(status.command, "/bin/catalog");
        assert_eq!(
            status.error.as_deref(),
            Some("candidate replacement failed; retaining last known good generation: no such file")
        );
    }
    assert_eq!(core.catalog_generation, before + 32);
}

#[test]
fn children_serve_on_beside_one_whose_replacement_fails() {
    let prefixed = || {
        let mut git = item("git");
        git.config.tool_prefix = Some("g_".into());
        git
    };
    let mut state = running(
        vec![(item("fs"), vec!["read", "write"]), (prefixed(), vec!["status"])],
        Mode::LegacyCompat,
    );
    let mut off = item("old");
    off.config.enabled = false;
    let configured = vec![item("fs"), prefixed(), off];
    for failing in ["fs", "git", "fs"] {
        let mut reload = Reload::new(Mode::LegacyCompat);
        for child in &configured {
            let arrival = if !child.config.enabled {
                Arrival::Skipped
            } else if child.config.name == failing {
                Arrival::Failed("boom".into())
            } else {
                Arrival::Reused
            };
            reload = reload.step(&mut state, child, arrival, false).unwrap().0;
        }
        state = reload.finish(&configured).unwrap().next;
        assert_eq!(tool_names(&state), vec!["read", "write", "g_status"]);
        let route = state.routes.get("g_status").unwrap();
        assert_eq!((route.child.as_str(), route.original_name.as_str()), ("git", "status"));
        for child in ["fs", "git"] {
            let status = state.statuses.get(child).unwrap();
            assert!(status.running);
            assert_eq!(status.error.is_some(), child == failing);
        }
        assert!(!state.statuses.get("old").unwrap().running);
    }
}

#[test]
fn a_retained_child_gives_way_to_names_that_are_taken() {
    let mut state = running(vec![(item("git"), vec!["status"])], Mode::LegacyCompat);
    let (reload, _) = Reload::new(Mode::LegacyCompat)
        .step(&mut state, &item("a"), arrive(&["status"]), false)
        .unwrap();
    let abandoned = reload
        .step(&mut state, &item("git"), Arrival::Failed("x".into()), false)
        .unwrap_err();
    assert_eq!(
        abandoned.error.message(),
        "cannot retain last known good child 'git' after candidate failure"
    );
    assert_eq!(abandoned.cancel, vec!["a"]);
}

#[test]
fn a_stopped_child_counts_its_failures() {
    let mode = policy(&[("status", &["develop"])]);
    let mut state = running(vec![(item("git"), vec!["status"])], mode.clone());
    let (reload, kept) = Reload::new(mode.clone())
        .step_at(&mut state, &item("git"), Arrival::Failed("boom".into()), true, 1_000)
        .unwrap();
    assert!(!kept);
    let child = state.children.get("git").unwrap();
    assert_eq!(child.recovery.consecutive_failures(), 1);
    assert_eq!(child.recovery.retry_at_ms(), Some(1_500));
    let abandoned = reload.finish(&vec![item("git")]).unwrap_err();
    assert_eq!(
        abandoned.error.message(),
        "Gateway policy references unknown child git"
    );

    let (reload, _) = Reload::new(mode)
        .step_at(&mut state, &item("git"), arrive(&["status"]), true, 2_000)
        .unwrap();
    let ready = reload.finish(&vec![item("git")]).unwrap();
    let status = ready.next.statuses.get("git").unwrap();
    assert_eq!(status.generation, 2);
    assert_eq!(status.consecutive_failures, 1);
}

#[test]
fn a_reused_child_serves_on_under_the_new_policy() {
    let mut state = running(vec![(item("git"), vec!["status"])], Mode::LegacyCompat);
    assert!(state.children.get("git").unwrap().recovery_policy.is_none());
    let (reload, kept) = Reload::new(policy(&[("status", &["develop"])]))
        .step(&mut state, &item("git"), Arrival::Reused, false)
        .unwrap();
    assert!(kept);
    let ready = reload.finish(&vec![item("git")]).unwrap();
    assert!(ready.reused.contains("git"));
    assert_eq!(
        ready.next.children.get("git").unwrap().recovery_policy.unwrap().max_attempts,
        2
    );
    assert!(state.children.get("git").unwrap().recovery_policy.is_some());
    assert_eq!(ready.next.statuses.get("git").unwrap().generation, 1);
    assert!(cancel_snapshot_except(&state.children, &ready.reused).is_empty());
    assert_eq!(cancel_snapshot_except(&state.children, &NameSet::new()), vec!["git"]);
}

#[test]
fn a_new_catalog_takes_the_place_of_the_last() {
    let mut core = GatewayCore::new(Mode::LegacyCompat, 7);
    let (reload, _) = Reload::new(Mode::LegacyCompat)
        .step(&mut core.state, &item("git"), arrive(&["status"]), false)
        .unwrap();
    let mut failed = item("fs");
    failed.config.restart.policy = RestartPolicy::Never;
    let (reload, _) = reload
        .step(&mut core.state, &failed, Arrival::Failed("boom".into()), false)
        .unwrap();
    let ready = reload.finish(&vec![item("git"), failed]).unwrap();
    let (summary, cancel) = core.commit(ready);
    assert!(cancel.is_empty());
    assert_eq!(summary.configured_servers, 2);
    assert_eq!(summary.enabled_servers, 2);
    assert_eq!(summary.running_servers, 1);
    assert_eq!(summary.exposed_child_tools, 1);
    assert_eq!(summary.failed_servers, vec!["fs"]);
    assert_eq!((core.catalog_generation, core.profile_generation), (1, 1));
    let batch = core.telemetry.after(0);
    match &batch.events[0].observation {
        Observation::Catalog {
            catalog_generation,
            catalog_fingerprint,
            profile_fingerprint,
            ..
        } => {
            assert_eq!(*catalog_generation, 1);
            assert_eq!(
                catalog_fingerprint,
                &rust_mcp_gateway::digest::sha256_hex(b"status\0git\0status\n")
            );
            assert_eq!(
                profile_fingerprint,
                "c49fea7425fa7f8699897a97c159c6690267d9003bb78c53fafa8fc15c325d84",
            );
        }
        other => panic!("unexpected {other:?}"),
    }

    let ready = Reload::new(policy(&[])).finish(&vec![]).unwrap_err();
    assert_eq!(ready.error.message(), "Gateway policy references unknown child git");
    let ready = Reload::new(Mode::LegacyCompat).finish(&vec![]).unwrap();
    let (_, cancel) = core.commit(ready);
    assert_eq!(cancel, vec!["git"]);
    assert!(core.state.routes.is_empty());
    assert_eq!((core.catalog_generation, core.profile_generation), (2, 1));
}
