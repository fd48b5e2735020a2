use pc::config::{
    apply_overrides, config_home, config_path, database_path, default_home,
    generate_oauth_password, load_or_create, looks_like_windows_path, misreads_backslashes,
    parse_config, repair_windows_workspace_yaml, sandbox_path, settle, ConfigOverrides, PcConfig,
    SecurityConfig, SecurityMode,
};

/// What a configuration file says, with the defaults where it says nothing.
fn read(text: &str) -> PcConfig {
    let value: serde_yaml::Value = serde_yaml::from_str(text).expect("parse config");
    let mut config = PcConfig::default();
    if let Some(workspace) = value.get("workspace").and_then(|v| v.as_str()) {
        config.workspace = workspace.to_string();
    }
    if let Some(secs) = value.get("task_log_retention_secs").and_then(|v| v.as_u64()) {
        config.task_log_retention_secs = secs;
    }
    config
}

#[test]
fn accepts_common_double_quoted_windows_workspace_path() {
    let raw = "workspace: \"E:\\project\"\n";
    let repaired = repair_windows_workspace_yaml(raw).expect("repair");
    let config = read(&repaired);
    assert_eq!(config.workspace, r"E:\project");
}

#[test]
fn old_config_defaults_task_log_retention_to_two_hours() {
    let config = read("workspace: /tmp\n");
    assert_eq!(config.task_log_retention_secs, 2 * 60 * 60);
}

#[test]
fn generated_oauth_password_is_self_contained() {
    let password = generate_oauth_password();
    assert_eq!(password.len(), 64);
    assert!(password.bytes().all(|byte| byte.is_ascii_hexdigit()));
}

#[test]
fn generated_passwords_differ() {
    assert_ne!(generate_oauth_password(), generate_oauth_password());
}

#[test]
fn repair_keeps_everything_else() {
    let raw = "production: true\n  workspace:   \"C:\\a\\b\" # here\r\nsecurity:\n  mode: safe";
    assert_eq!(
        repair_windows_workspace_yaml(raw).unwrap(),
        "production: true\n  workspace:   \"C:\\\\a\\\\b\" # here\r\nsecurity:\n  mode: safe"
    );
    assert_eq!(
        repair_windows_workspace_yaml("workspace: \"\\\\server\\share\"\n").unwrap(),
        "workspace: \"\\\\\\\\server\\\\share\"\n"
    );
}

#[test]
fn repair_leaves_other_files_alone() {
    for raw in [
        "",
        "workspace: E:\\project\n",
        "workspace: \"/home/u\"\n",
        "workspace: \"E:\n",
        "other: \"E:\\project\"\n",
        "workspace: \"E:/project\"\n",
        "workspace: \"\"\n",
    ] {
        assert_eq!(repair_windows_workspace_yaml(raw), None, "{raw:?}");
    }
}

#[test]
fn windows_paths_are_recognized() {
    assert!(looks_like_windows_path("E:\\project"));
    assert!(looks_like_windows_path("\\\\server"));
    assert!(!looks_like_windows_path("E:"));
    assert!(!looks_like_windows_path("1:\\x"));
    assert!(!looks_like_windows_path("/home"));
    assert!(!looks_like_windows_path("\u{e9}:\\"));
}

#[test]
fn defaults_are_open_and_not_production() {
    let config = PcConfig::default();
    assert_eq!(config.workspace, ".");
    assert_eq!(config.oauth_password, None);
    assert_eq!(config.public_url, None);
    assert!(!config.production);
    assert!(config.allowed_redirect_hosts.is_empty());
    assert_eq!(config.task_log_retention_secs, 7200);
    assert_eq!(
        config.security,
        SecurityConfig { mode: SecurityMode::Full, network: true, protect_secrets: true }
    );
    assert_eq!(SecurityMode::default(), SecurityMode::Full);
}

#[test]
fn overrides_replace_only_what_they_name() {
    let mut config = PcConfig::default();
    config.public_url = Some("https://a".to_string());
    apply_overrides(&mut config, &ConfigOverrides::default());
    assert_eq!(config.workspace, ".");
    assert_eq!(config.public_url.as_deref(), Some("https://a"));
    apply_overrides(
        &mut config,
        &ConfigOverrides {
            workspace: Some("/w".to_string()),
            oauth_password: Some("p".to_string()),
            production: Some(true),
            allowed_redirect_hosts: Some(vec!["h".to_string()]),
            task_log_retention_secs: Some(5),
            security_mode: Some(SecurityMode::Safe),
            security_network: Some(false),
            security_protect_secrets: Some(false),
            ..ConfigOverrides::default()
        },
    );
    assert_eq!(config.workspace, "/w");
    assert_eq!(config.oauth_password.as_deref(), Some("p"));
    assert_eq!(config.public_url.as_deref(), Some("https://a"));
    assert!(config.production);
    assert_eq!(config.allowed_redirect_hosts, ["h"]);
    assert_eq!(config.task_log_retention_secs, 5);
    assert_eq!(
        config.security,
        SecurityConfig { mode: SecurityMode::Safe, network: false, protect_secrets: false }
    );
}

#[test]
fn default_home_prefers_home() {
    let some = |s: &str| Some(s.to_string());
    assert_eq!(default_home(&some("/h"), &some("C:\\u")), Ok("/h/.config/pc".to_string()));
    assert_eq!(default_home(&some(""), &some("/u")), Ok("/u/.config/pc".to_string()));
    assert_eq!(
        default_home(&None, &some("")),
        Err("cannot determine pc config directory: set PC_HOME, HOME, or USERPROFILE".to_string())
    );
    assert_eq!(config_path("/h/.config/pc"), "/h/.config/pc/config.yaml");
}

#[test]
fn missing_file_or_password_is_written() {
    let none = ConfigOverrides::default();
    let (config, written) = settle(None, &none, "pw".to_string());
    assert_eq!(config.oauth_password.as_deref(), Some("pw"));
    assert_eq!(written.unwrap().oauth_password.as_deref(), Some("pw"));
    let (again, written) = settle(Some(config), &none, "other".to_string());
    assert!(written.is_none());
    assert_eq!(again.oauth_password.as_deref(), Some("pw"));
    let mut empty = PcConfig::default();
    empty.oauth_password = Some(String::new());
    let (config, written) = settle(Some(empty), &none, "new".to_string());
    assert_eq!(config.oauth_password.as_deref(), Some("new"));
    assert_eq!(written.unwrap().oauth_password.as_deref(), Some("new"));

    let (config, written) = load_or_create(None, &none);
    let password = config.oauth_password.unwrap();
    assert_eq!(password.len(), 64);
    assert_eq!(written.unwrap().oauth_password, Some(password));
}

#[test]
fn repaired_file_stands_in_for_a_broken_one() {
    let good = || PcConfig::default();
    assert!(parse_config(Ok(good()), None, false, "c").is_ok());
    assert!(parse_config(Err("bad".to_string()), Some(good()), false, "c").is_ok());
    for misread in [false, true] {
        assert_eq!(
            parse_config(Err("bad".to_string()), None, misread, "/h/config.yaml").unwrap_err(),
            "parse /h/config.yaml: bad"
        );
        assert!(parse_config(Ok(good()), None, misread, "c").is_ok());
    }
}

#[test]
fn overrides_are_not_written_to_a_file_that_is_there() {
    let mut overrides = ConfigOverrides::default();
    overrides.workspace = Some("/elsewhere".to_string());
    overrides.production = Some(true);
    overrides.security_mode = Some(SecurityMode::Full);
    let file = || {
        let mut config = PcConfig::default();
        config.workspace = "/project".to_string();
        config.security.mode = SecurityMode::Readonly;
        config
    };

    let (config, written) = load_or_create(Some(file()), &overrides);
    assert_eq!(config.workspace, "/elsewhere");
    assert!(config.production);
    assert_eq!(config.security.mode, SecurityMode::Full);
    let written = written.expect("the password is written");
    assert_eq!(written.oauth_password, config.oauth_password);
    assert_eq!(written.workspace, "/project");
    assert!(!written.production);
    assert_eq!(written.security.mode, SecurityMode::Readonly);

    // Read back with the same overrides, nothing is left to write.
    let (again, more) = settle(Some(written), &overrides, "other".to_string());
    assert!(more.is_none());
    assert_eq!(again.workspace, "/elsewhere");
    assert_eq!(again.oauth_password, config.oauth_password);

    // A password that is overridden is not missing.
    overrides.oauth_password = Some("pw".to_string());
    let (config, written) = load_or_create(Some(file()), &overrides);
    assert_eq!(config.oauth_password.as_deref(), Some("pw"));
    assert!(written.is_none());
}

/// What the file gives, as the program reads it.
fn load(text: &str) -> String {
    let first = Ok(read(text));
    let misread = misreads_backslashes(text);
    let from_repaired =
        if misread { repair_windows_workspace_yaml(text).map(|text| read(&text)) } else { None };
    parse_config(first, from_repaired, misread, "c").unwrap().workspace
}

#[test]
fn windows_paths_are_not_read_as_escapes() {
    assert_eq!(load("workspace: \"E:\\temp\"\n"), r"E:\temp");
    assert_eq!(load("workspace: \"E:\\new\\bin\" # here\n"), r"E:\new\bin");
    assert_eq!(load("workspace: \"E:\\\\temp\\\\new\"\n"), r"E:\temp\new");
    assert_eq!(load("workspace: E:\\temp\n"), r"E:\temp");
    assert_eq!(load("workspace: \"\\\\\\\\host\\\\temp\"\n"), r"\\host\temp");
    assert!(misreads_backslashes("a: 1\n  workspace: \"E:\\temp\"\n"));
    assert!(misreads_backslashes("workspace: \"E:\\temp\\\\a\""));
    assert!(misreads_backslashes("workspace: \"\\\\host\\temp\""));
    assert!(misreads_backslashes("workspace: \"E:\\\\a\\\\\\\""));
    assert!(!misreads_backslashes("workspace: \"E:\\\\temp\"\n"));
    assert!(!misreads_backslashes("workspace: \"/tmp\\t\"\n"));
    assert!(!misreads_backslashes("workspace: 'E:\\temp'\n"));
    assert!(!misreads_backslashes("other: \"E:\\temp\"\n"));
}

#[test]
fn explicit_home_comes_first() {
    let some = |s: &str| Some(s.to_string());
    assert_eq!(config_home(&some("/srv/pc"), &some("/h"), &None), Ok("/srv/pc".to_string()));
    assert_eq!(config_home(&some(""), &some("/h"), &None), Ok(String::new()));
    assert_eq!(config_home(&None, &some("/h"), &some("/u")), Ok("/h/.config/pc".to_string()));
    assert_eq!(config_home(&None, &None, &some("/u")), Ok("/u/.config/pc".to_string()));
    assert!(config_home(&None, &None, &None).is_err());
    assert_eq!(database_path("/app/data"), "/app/data/pc.db");
    assert_eq!(database_path("/app/data/"), "/app/data/pc.db");
    assert_eq!(sandbox_path("/app/data"), "/app/data/tmp");
}
