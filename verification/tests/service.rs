use pc::service::{
    applies, parse_uid, render_launchd_plist, render_systemd_unit, run, systemd_escape,
    temporary_name, validate_line_value, xml_escape, Deed, Guard, Host, Platform, ServiceAction,
    ServiceSpec,
};

fn spec() -> ServiceSpec {
    ServiceSpec {
        binary: "/Users/dev/bin/pc".to_string(),
        user_home: "/Users/dev".to_string(),
        environment: vec![
            ("PC_HOME".to_string(), "/Users/dev/.config/pc".to_string()),
            ("PATH".to_string(), "/opt/homebrew/bin:/usr/bin:/bin".to_string()),
        ],
    }
}

fn host(platform: Platform) -> Host {
    Host {
        platform,
        binary: Some("/home/u/bin/pc".to_string()),
        current_dir: Some("/work".to_string()),
        home: Some("/home/u".to_string()),
        user_profile: None,
        path: Some("/usr/bin".to_string()),
        rustup_home: None,
        cargo_home: Some("/home/u/.cargo".to_string()),
        developer_dir: Some(String::new()),
        xdg_config_home: None,
        uid: Ok("501".to_string()),
    }
}

#[test]
fn systemd_unit_is_user_scoped_and_restarts_on_failure() {
    let unit = render_systemd_unit(&spec());
    assert!(unit.contains("ExecStart=\"/Users/dev/bin/pc\""));
    assert!(unit.contains("WorkingDirectory=\"/Users/dev\""));
    assert!(unit.contains("Environment=\"PC_HOME=/Users/dev/.config/pc\""));
    assert!(unit.contains("Restart=on-failure"));
    assert!(unit.contains("WantedBy=default.target"));
    assert!(!unit.contains("PC_OAUTH_PASSWORD"));
}

#[test]
fn launchd_plist_uses_modern_user_agent_shape() {
    let plist = render_launchd_plist(&spec());
    assert!(plist.contains("<string>io.github.darkautism.pc</string>"));
    assert!(plist.contains("<string>/Users/dev/bin/pc</string>"));
    assert!(plist.contains("<key>RunAtLoad</key>"));
    assert!(plist.contains("<key>SuccessfulExit</key>"));
    assert!(plist.contains("<key>PC_HOME</key>"));
    assert!(!plist.contains("PC_OAUTH_PASSWORD"));
}

#[test]
fn launchd_xml_escapes_paths() {
    let mut spec = spec();
    spec.binary = "/tmp/a&b/pc".to_string();
    let plist = render_launchd_plist(&spec);
    assert!(plist.contains("/tmp/a&amp;b/pc"));
}

#[test]
fn systemd_escapes_percent_specifiers() {
    let mut spec = spec();
    spec.binary = "/tmp/pc%20/bin".to_string();
    let unit = render_systemd_unit(&spec);
    assert!(unit.contains("/tmp/pc%%20/bin"));
}

#[test]
fn systemd_unit_is_rendered_exactly() {
    assert_eq!(
        render_systemd_unit(&spec()),
        "[Unit]\nDescription=pc MCP server\nAfter=network-online.target\nWants=network-online.target\n\n[Service]\nType=simple\nExecStart=\"/Users/dev/bin/pc\"\nWorkingDirectory=\"/Users/dev\"\nRestart=on-failure\nRestartSec=3\nEnvironment=\"PC_HOME=/Users/dev/.config/pc\"\nEnvironment=\"PATH=/opt/homebrew/bin:/usr/bin:/bin\"\n\n[Install]\nWantedBy=default.target\n"
    );
}

#[test]
fn launchd_plist_is_rendered_exactly() {
    let expected = r#"<?xml version="1.0" encoding="UTF-8"?>
<!DOCTYPE plist PUBLIC "-//Apple//DTD PLIST 1.0//EN" "http://www.apple.com/DTDs/PropertyList-1.0.dtd">
<plist version="1.0">
<dict>
    <key>Label</key>
    <string>io.github.darkautism.pc</string>
    <key>ProgramArguments</key>
    <array>
        <string>/Users/dev/bin/pc</string>
    </array>
    <key>WorkingDirectory</key>
    <string>/Users/dev</string>
    <key>EnvironmentVariables</key>
    <dict>
        <key>PC_HOME</key>
        <string>/Users/dev/.config/pc</string>
        <key>PATH</key>
        <string>/opt/homebrew/bin:/usr/bin:/bin</string>
    </dict>
    <key>RunAtLoad</key>
    <true/>
    <key>KeepAlive</key>
    <dict>
        <key>SuccessfulExit</key>
        <false/>
    </dict>
    <key>ThrottleInterval</key>
    <integer>3</integer>
</dict>
</plist>
"#;
    assert_eq!(render_launchd_plist(&spec()), expected);
}

#[test]
fn escapes_every_special_character() {
    assert_eq!(systemd_escape(r#"a\b"c%d"#), r#"a\\b\"c%%d"#);
    assert_eq!(xml_escape("<a href=\"x\">'&'</a>"), "&lt;a href=&quot;x&quot;&gt;&apos;&amp;&apos;&lt;/a&gt;");
    assert_ne!(xml_escape("<"), xml_escape("&lt;"));
}

#[test]
fn control_characters_are_refused_by_name() {
    assert_eq!(validate_line_value("HOME", "/home/u"), Ok(()));
    for bad in ["a\nb", "a\rb", "a\0b"] {
        assert_eq!(
            validate_line_value("HOME", bad),
            Err("HOME contains unsupported control characters".to_string())
        );
    }
}

#[test]
fn service_is_resolved_from_the_host() {
    let spec = ServiceSpec::resolve(&host(Platform::Linux), &None).unwrap();
    assert_eq!(spec.binary, "/home/u/bin/pc");
    assert_eq!(spec.user_home, "/home/u");
    assert_eq!(
        spec.environment,
        vec![
            ("PC_HOME".to_string(), "/home/u/.config/pc".to_string()),
            ("PATH".to_string(), "/usr/bin".to_string()),
            ("CARGO_HOME".to_string(), "/home/u/.cargo".to_string()),
        ]
    );
    let spec = ServiceSpec::resolve(&host(Platform::Linux), &Some("conf".to_string())).unwrap();
    assert_eq!(spec.environment[0].1, "/work/conf");
    let mut bare = host(Platform::MacOs);
    bare.path = None;
    let spec = ServiceSpec::resolve(&bare, &None).unwrap();
    assert_eq!(
        spec.environment[1].1,
        "/opt/homebrew/bin:/usr/local/bin:/usr/bin:/bin:/usr/sbin:/sbin"
    );
    bare.platform = Platform::Linux;
    let spec = ServiceSpec::resolve(&bare, &None).unwrap();
    assert_eq!(spec.environment[1].1, "/usr/local/bin:/usr/bin:/bin");
}

#[test]
fn service_resolution_says_what_is_missing() {
    let mut h = host(Platform::Linux);
    h.binary = None;
    assert_eq!(
        ServiceSpec::resolve(&h, &None).unwrap_err(),
        "resolve current pc executable"
    );
    let mut h = host(Platform::Linux);
    h.home = Some(String::new());
    assert_eq!(
        ServiceSpec::resolve(&h, &None).unwrap_err(),
        "HOME is required for user service installation"
    );
    let mut h = host(Platform::Linux);
    h.current_dir = None;
    assert_eq!(
        ServiceSpec::resolve(&h, &Some("conf".to_string())).unwrap_err(),
        "resolve current directory"
    );
    let mut h = host(Platform::Linux);
    h.cargo_home = Some("a\nb".to_string());
    assert_eq!(
        ServiceSpec::resolve(&h, &None).unwrap_err(),
        "CARGO_HOME contains unsupported control characters"
    );
    let mut h = host(Platform::Linux);
    h.binary = Some("/bin/p\rc".to_string());
    assert_eq!(
        ServiceSpec::resolve(&h, &None).unwrap_err(),
        "pc executable contains unsupported control characters"
    );
}

#[test]
fn systemd_install_and_uninstall_are_laid_out() {
    let steps = run(ServiceAction::Install, &None, &host(Platform::Linux)).unwrap().steps;
    assert_eq!(steps.len(), 4);
    match &steps[0].deed {
        Deed::Write { dir, name, content } => {
            assert_eq!(dir, "/home/u/.config/systemd/user");
            assert_eq!(name, "pc.service");
            assert!(content.contains("ExecStart=\"/home/u/bin/pc\""));
        }
        other => panic!("{other:?}"),
    }
    match &steps[2].deed {
        Deed::Run { program, args, description } => {
            assert_eq!(*program, "systemctl");
            assert_eq!(args, &["--user", "enable", "--now", "pc.service"]);
            assert_eq!(description, "systemctl --user enable --now pc.service");
        }
        other => panic!("{other:?}"),
    }
    match &steps[3].deed {
        Deed::Say { text } => assert_eq!(
            text,
            "installed and started /home/u/.config/systemd/user/pc.service"
        ),
        other => panic!("{other:?}"),
    }

    let steps = run(ServiceAction::Uninstall, &None, &host(Platform::Linux)).unwrap().steps;
    assert_eq!(steps.len(), 5);
    assert_eq!(steps[1].when, Guard::Installed);
    match &steps[1].deed {
        Deed::Remove { path } => {
            assert_eq!(path, "/home/u/.config/systemd/user/pc.service")
        }
        other => panic!("{other:?}"),
    }
    match &steps[3].deed {
        Deed::RunQuietly { args, .. } => {
            assert_eq!(args, &["--user", "reset-failed", "pc.service"])
        }
        other => panic!("{other:?}"),
    }

    let mut h = host(Platform::Linux);
    h.xdg_config_home = Some("/xdg".to_string());
    let plan = run(ServiceAction::Install, &None, &h).unwrap();
    assert_eq!(plan.definition, "/xdg/systemd/user/pc.service");
    assert_eq!(plan.target, None);
    let steps = plan.steps;
    match &steps[0].deed {
        Deed::Write { dir, .. } => assert_eq!(dir, "/xdg/systemd/user"),
        other => panic!("{other:?}"),
    }
}

#[test]
fn systemd_simple_actions_run_one_command() {
    for (action, line) in [
        (ServiceAction::Start, "systemctl --user start pc.service"),
        (ServiceAction::Stop, "systemctl --user stop pc.service"),
        (ServiceAction::Restart, "systemctl --user restart pc.service"),
        (
            ServiceAction::Status,
            "systemctl --user status --no-pager --full pc.service",
        ),
    ] {
        let steps = run(action, &None, &host(Platform::Linux)).unwrap().steps;
        assert_eq!(steps.len(), 1);
        match &steps[0].deed {
            Deed::Run { description, .. } => assert_eq!(description, line),
            other => panic!("{other:?}"),
        }
    }
}

#[test]
fn launchd_actions_are_laid_out() {
    let plan = run(ServiceAction::Start, &None, &host(Platform::MacOs)).unwrap();
    assert_eq!(
        plan.definition,
        "/home/u/Library/LaunchAgents/io.github.darkautism.pc.plist"
    );
    assert_eq!(plan.target.as_deref(), Some("gui/501/io.github.darkautism.pc"));
    let steps = plan.steps;
    assert_eq!(steps.len(), 4);
    assert_eq!(steps[0].when, Guard::NeitherLoadedNorInstalled);
    match &steps[0].deed {
        Deed::Fail { message } => assert_eq!(
            message,
            "pc service is not installed; run 'pc service install'"
        ),
        other => panic!("{other:?}"),
    }
    match &steps[1].deed {
        Deed::Run { args, description, .. } => {
            assert_eq!(
                args,
                &[
                    "bootstrap",
                    "gui/501",
                    "/home/u/Library/LaunchAgents/io.github.darkautism.pc.plist"
                ]
            );
            assert_eq!(
                description,
                "launchctl bootstrap gui/501 /home/u/Library/LaunchAgents/io.github.darkautism.pc.plist"
            );
        }
        other => panic!("{other:?}"),
    }
    let steps = run(ServiceAction::Stop, &None, &host(Platform::MacOs)).unwrap().steps;
    match &steps[0].deed {
        Deed::Fail { message } => assert_eq!(message, "pc service is not running or loaded"),
        other => panic!("{other:?}"),
    }
    let steps = run(ServiceAction::Install, &None, &host(Platform::MacOs)).unwrap().steps;
    assert_eq!(steps.len(), 6);
    assert_eq!(steps[1].when, Guard::Loaded);
    match &steps[4].deed {
        Deed::Run { args, .. } => assert_eq!(
            args,
            &["kickstart", "-k", "gui/501/io.github.darkautism.pc"]
        ),
        other => panic!("{other:?}"),
    }
    assert_eq!(
        run(ServiceAction::Restart, &None, &host(Platform::MacOs)).unwrap().steps.len(),
        5
    );
    assert_eq!(
        run(ServiceAction::Status, &None, &host(Platform::MacOs)).unwrap().steps.len(),
        1
    );
    assert_eq!(
        run(ServiceAction::Uninstall, &None, &host(Platform::MacOs)).unwrap().steps.len(),
        3
    );
}

#[test]
fn unsupported_platforms_and_unknown_users_are_refused() {
    assert_eq!(
        run(ServiceAction::Start, &None, &host(Platform::Other)).unwrap_err(),
        "pc service management currently supports Linux systemd and macOS launchd"
    );
    let mut h = host(Platform::MacOs);
    h.uid = Err("run id -u".to_string());
    assert_eq!(run(ServiceAction::Start, &None, &h).unwrap_err(), "run id -u");
}

#[test]
fn guards_apply_as_they_say() {
    assert!(applies(Guard::Always, false, false));
    assert!(applies(Guard::Loaded, true, false) && !applies(Guard::Loaded, false, true));
    assert!(applies(Guard::NotLoaded, false, true) && !applies(Guard::NotLoaded, true, true));
    assert!(applies(Guard::Installed, false, true) && !applies(Guard::Installed, true, false));
    assert!(applies(Guard::NotInstalled, true, false));
    assert!(applies(Guard::NeitherLoadedNorInstalled, false, false));
    assert!(!applies(Guard::NeitherLoadedNorInstalled, true, false));
    assert!(!applies(Guard::NeitherLoadedNorInstalled, false, true));
}

#[test]
fn user_identifier_is_read() {
    assert_eq!(parse_uid(b" 501\n".to_vec()), Ok("501".to_string()));
    assert_eq!(
        parse_uid(b"\n".to_vec()),
        Err("id -u returned an empty uid".to_string())
    );
    assert_eq!(
        parse_uid(b"5\"01".to_vec()),
        Err("id -u returned invalid uid \"5\\\"01\"".to_string())
    );
    assert_eq!(
        parse_uid(vec![0xff]),
        Err("id -u returned non-UTF-8 output".to_string())
    );
}

#[test]
fn temporary_files_stay_hidden() {
    assert_eq!(temporary_name("pc.service", 42), ".pc.service.tmp-42");
}
