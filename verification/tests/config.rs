use rust_mcp_gateway::config::{
    default_timeout_ms, default_true, exposed_tool_name, same_config, tool_is_exposed,
    validate_config, ChildConfig, ConfigError, RestartConfig, RestartPolicy,
};
use rust_mcp_gateway::config_files::{
    config_signature, configs_changed, is_config_name, load_configs, set_enabled, temporary_name,
    CommandSignature, ConfigFile, EnableError, FileRead, FilesError, SignatureFile, SignatureRow,
};
use rust_mcp_gateway::name_map::NameMap;
use rust_mcp_gateway::names::{valid_name, valid_tool_name, validate_child_name};
use rust_mcp_gateway::start::{check_start, StartError};
use rust_mcp_gateway::supervisor::{reload_reason, remembered_signature};

fn config() -> ChildConfig {
    ChildConfig {
        name: "git".into(),
        enabled: true,
        command: "/tmp/git-mcp".into(),
        args: vec![],
        env: NameMap::new(),
        tool_prefix: None,
        tool_allowlist: Vec::new(),
        timeout_ms: 30_000,
        restart: RestartConfig::default(),
    }
}

fn named(name: &str) -> ChildConfig {
    let mut config = config();
    config.name = name.into();
    config
}

fn file(name: &str, read: FileRead) -> ConfigFile {
    ConfigFile { name: name.into(), source: format!("/servers.d/{name}"), read }
}

#[test]
fn keeps_child_tool_name_without_prefix() {
    assert_eq!(exposed_tool_name(&config(), "git_status"), "git_status");
}

#[test]
fn prefixes_child_tool_name_when_configured() {
    let mut config = config();
    config.tool_prefix = Some("other_".into());
    assert_eq!(exposed_tool_name(&config, "status"), "other_status".to_owned());
}

#[test]
fn validates_child_names() {
    assert!(validate_child_name("filesystem").is_ok());
    assert!(validate_child_name("repo.tools-v2").is_ok());
    assert!(validate_child_name("../escape").is_err());
    assert!(validate_child_name("bad name").is_err());
}

#[test]
fn validates_tool_prefixes() {
    let mut config = config();
    config.tool_prefix = Some("safe_".into());
    assert!(validate_config(&config).is_ok());
    config.tool_prefix = Some("bad prefix/".into());
    assert!(validate_config(&config).is_err());
}

#[test]
fn filters_tools_by_allowlist() {
    let mut config = config();
    assert!(tool_is_exposed(&config, "git_status"));
    config.tool_allowlist = vec!["git_status".into(), "git_log".into()];
    assert!(tool_is_exposed(&config, "git_status"));
    assert!(tool_is_exposed(&config, "git_log"));
    assert!(!tool_is_exposed(&config, "git_push"));
}

#[test]
fn validates_tool_allowlist() {
    let mut config = config();
    config.tool_allowlist = vec!["git_status".into(), "git_status".into()];
    assert!(validate_config(&config).is_err());

    config.tool_allowlist = vec!["bad tool".into()];
    assert!(validate_config(&config).is_err());

    config.tool_allowlist = vec!["git_status".into(), "git_log".into()];
    assert!(validate_config(&config).is_ok());
}

#[test]
fn command_signature_detects_atomic_replacement() {
    let first = CommandSignature {
        canonical_path: b"/tmp/child".to_vec(),
        len: 2,
        modified: Some(1),
        device: 7,
        inode: 11,
    };
    let mut second = first.clone();
    assert!(first.same_as(&second));
    second.inode = 12;
    assert!(!first.same_as(&second));
    let mut touched = first.clone();
    touched.modified = Some(2);
    assert!(!first.same_as(&touched));
}

#[test]
fn defaults_are_those_of_a_bare_definition() {
    assert!(default_true());
    assert_eq!(default_timeout_ms(), 30_000);
    assert_eq!(RestartConfig::default().policy, RestartPolicy::OnFailure);
    assert_eq!(RestartPolicy::default(), RestartPolicy::OnFailure);
}

#[test]
fn names_are_bounded() {
    assert!(validate_child_name(&"a".repeat(128)).is_ok());
    assert!(validate_child_name(&"a".repeat(129)).is_err());
    assert!(validate_child_name("").is_err());
    assert!(valid_name(&"a".repeat(128)));
    assert!(!valid_name(&"a".repeat(129)));
    assert!(valid_tool_name(&"a".repeat(256)));
    assert!(!valid_tool_name(&"a".repeat(257)));
    assert!(!valid_tool_name("naïve"));
    assert_eq!(
        validate_child_name("").unwrap_err().message(),
        "child name may contain only ASCII letters, digits, '_', '-' and '.'"
    );
}

#[test]
fn the_first_fault_of_a_configuration_is_told() {
    let mut bad = named("no/slash");
    bad.command = "".into();
    assert_eq!(validate_config(&bad), Err(ConfigError::Name));

    for command in ["", " \t\u{3000}", "a\0b"] {
        let mut bad = config();
        bad.command = command.into();
        bad.timeout_ms = 0;
        assert_eq!(validate_config(&bad), Err(ConfigError::Command));
    }
    for timeout in [0, 600_001] {
        let mut bad = config();
        bad.timeout_ms = timeout;
        bad.tool_prefix = Some("".into());
        assert_eq!(validate_config(&bad), Err(ConfigError::Timeout));
    }
    let mut edge = config();
    edge.timeout_ms = 600_000;
    assert_eq!(validate_config(&edge), Ok(()));

    let mut bad = config();
    bad.tool_prefix = Some("".into());
    assert_eq!(validate_config(&bad), Err(ConfigError::Prefix));

    let mut bad = config();
    bad.tool_allowlist = (0..257).map(|i| format!("tool{i}")).collect();
    assert_eq!(validate_config(&bad), Err(ConfigError::AllowlistLength));
    bad.tool_allowlist.pop();
    assert_eq!(validate_config(&bad), Ok(()));

    let mut bad = config();
    bad.tool_allowlist = vec!["a".into(), "b c".into(), "a".into()];
    let error = validate_config(&bad).unwrap_err();
    assert_eq!(error, ConfigError::InvalidTool("b c".into()));
    assert_eq!(error.message(), "tool_allowlist contains invalid tool name 'b c'");
    bad.tool_allowlist = vec!["a".into(), "b".into(), "a".into()];
    let error = validate_config(&bad).unwrap_err();
    assert_eq!(error, ConfigError::DuplicateTool("a".into()));
    assert_eq!(error.message(), "tool_allowlist contains duplicate tool name 'a'");
}

#[test]
fn configurations_are_the_same_by_what_they_say() {
    let mut a = config();
    a.env.insert("PATH".into(), "/bin".into());
    a.args = vec!["--root".into()];
    let mut b = a.clone();
    assert!(same_config(&a, &b));
    b.env.insert("PATH".into(), "/usr/bin".into());
    assert!(!same_config(&a, &b));
    let mut c = a.clone();
    c.args.push("/x".into());
    assert!(!same_config(&a, &c));
    let mut d = a.clone();
    d.tool_prefix = Some("p_".into());
    assert!(!same_config(&a, &d));
    let mut e = a.clone();
    e.restart.policy = RestartPolicy::Never;
    assert!(!same_config(&a, &e));
}

#[test]
fn only_yaml_files_configure_children() {
    assert!(is_config_name("git.yaml"));
    assert!(is_config_name("git.yml"));
    assert!(is_config_name("a.b.yaml"));
    assert!(!is_config_name("git.yaml.candidate"));
    assert!(!is_config_name(".yaml"));
    assert!(is_config_name("..yaml"));
    assert!(!is_config_name("yaml"));
    assert!(!is_config_name("git.YAML"));
    assert!(!is_config_name(""));
}

#[test]
fn files_count_in_the_order_of_their_names() {
    let files = vec![
        file("b.yaml", FileRead::Config(named("second"))),
        file("notes.txt", FileRead::Config(named("second"))),
        file("a.yml", FileRead::Config(named("first"))),
        file("c.yaml", FileRead::NotAFile),
        file("d.txt", FileRead::Malformed("not read".into())),
    ];
    let loaded = load_configs(files).unwrap();
    let names: Vec<&str> = loaded.iter().map(|item| item.config.name.as_str()).collect();
    assert_eq!(names, vec!["first", "second"]);
    assert_eq!(loaded[0].source, "/servers.d/a.yml");
}

#[test]
fn the_first_fault_of_the_files_is_told() {
    let error = load_configs(vec![
        file("b.yaml", FileRead::Malformed("bad".into())),
        file("a.yaml", FileRead::Config(named("x"))),
        file("c.yaml", FileRead::Config(named("x"))),
    ])
    .unwrap_err();
    assert_eq!(error.message(), "invalid YAML in /servers.d/b.yaml: bad");

    let error = load_configs(vec![
        file("a.yaml", FileRead::Config(named("x"))),
        file("c.yaml", FileRead::Config(named("x"))),
    ])
    .unwrap_err();
    assert!(matches!(&error, FilesError::Duplicate(name) if name == "x"));
    assert_eq!(error.message(), "duplicate child MCP name 'x'");

    let error = load_configs(vec![file("a.yaml", FileRead::Config(named("bad name")))]).unwrap_err();
    assert_eq!(
        error.message(),
        "invalid child config /servers.d/a.yaml: child name may contain only ASCII letters, digits, '_', '-' and '.'"
    );
    let error = load_configs(vec![file("a.yaml", FileRead::Link)]).unwrap_err();
    assert_eq!(error.message(), "child MCP config must not be a symlink: /servers.d/a.yaml");
    let error = load_configs(vec![file("a.yaml", FileRead::Unreadable("denied".into()))]).unwrap_err();
    assert_eq!(error.message(), "cannot read /servers.d/a.yaml: denied");
    let error = load_configs(vec![file("a.txt", FileRead::Failed("gone".into()))]).unwrap_err();
    assert_eq!(error.message(), "gone");
}

#[test]
fn enabling_changes_one_child_only() {
    let files = || {
        vec![
            file("a.yaml", FileRead::Config(named("first"))),
            file("b.yaml", FileRead::Config(named("second"))),
        ]
    };
    let target = set_enabled(load_configs(files()).unwrap(), "second", false).unwrap();
    assert_eq!(target.source, "/servers.d/b.yaml");
    assert!(!target.config.enabled);
    let mut expected = named("second");
    expected.enabled = false;
    assert!(same_config(&target.config, &expected));

    let error = set_enabled(load_configs(files()).unwrap(), "third", true).unwrap_err();
    assert!(matches!(error, EnableError::Unknown(_)));
    assert_eq!(error.message(), "unknown child MCP 'third'");
    let error = set_enabled(load_configs(files()).unwrap(), "../x", true).unwrap_err();
    assert!(matches!(error, EnableError::Name));
}

#[test]
fn configurations_are_written_aside_first() {
    assert_eq!(temporary_name("git.yaml", 4711), ".git.yaml.4711.tmp");
}

fn row(name: &str, bytes: u64, modified: Option<i128>) -> SignatureRow {
    SignatureRow { name: name.into(), bytes, modified }
}

fn seen(is_file: bool, row: SignatureRow) -> SignatureFile {
    SignatureFile { is_file, row }
}

#[test]
fn the_signature_shows_changes_of_configurations_only() {
    let first = Some(config_signature(vec![
        seen(true, row("a.yaml", 1, Some(5))),
        seen(true, row("b.yaml", 2, None)),
    ]));
    let reordered = Some(config_signature(vec![
        seen(true, row("b.yaml", 2, None)),
        seen(true, row("notes.txt", 9, None)),
        seen(false, row("dir.yaml", 3, None)),
        seen(true, row("a.yaml", 1, Some(5))),
    ]));
    assert!(!configs_changed(&first, &reordered));
    let touched = Some(config_signature(vec![
        seen(true, row("a.yaml", 1, Some(6))),
        seen(true, row("b.yaml", 2, None)),
    ]));
    assert!(configs_changed(&first, &touched));
    assert!(configs_changed(&first, &None));
    assert!(!configs_changed(&None, &None));
}

#[test]
fn children_are_started_only_in_order() {
    assert!(check_start(&config()).is_ok());
    let mut bad = config();
    bad.timeout_ms = 0;
    assert_eq!(
        check_start(&bad).unwrap_err().message(&bad),
        "timeout_ms must be between 1 and 600000"
    );
    assert_eq!(
        StartError::Spawn("no such file".into()).message(&config()),
        "failed to spawn '/tmp/git-mcp': no such file"
    );
    assert_eq!(
        StartError::Handshake("eof".into()).message(&config()),
        "MCP initialize handshake failed for child 'git': eof"
    );
    assert_eq!(
        StartError::ListFailed("boom".into()).message(&config()),
        "tools/list failed for 'git': boom"
    );
    assert_eq!(
        StartError::ListTimedOut.message(&config()),
        "tools/list timed out for 'git' after 30000 ms"
    );
}

#[test]
fn a_change_is_seen_until_a_reload_succeeds() {
    let look = |bytes| Some(config_signature(vec![seen(true, row("a.yaml", bytes, None))]));
    let mut last = look(1);
    for _ in 0..3 {
        assert!(configs_changed(&last, &look(2)));
        assert_eq!(reload_reason(true, false), Some("config changed"));
        last = remembered_signature(last, look(2), false);
    }
    assert!(!configs_changed(&last, &look(1)));
    last = remembered_signature(last, look(2), true);
    assert!(!configs_changed(&last, &look(2)));
    last = remembered_signature(last, None, true);
    assert!(last.is_none());
    assert!(configs_changed(&last, &look(2)));
}
