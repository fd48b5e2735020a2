use pc::sandbox::helper::{
    apply_policy, check_filter, denied_calls, denylist_program, helper_steps, id_map_line, judge_landlock,
    map_gid_after, maybe_handle_entrypoint, policy_steps, prepare_gid_mapping,
    root_in_noninitial_user_namespace, rootless_steps, DenyOutcome, Enforcement, GidMapping,
    HelperStep, LandlockVerdict, PolicyProblem, PolicyStep, RootlessStep, NOT_LINUX,
};
use pc::sandbox::namespace::{
    bind_destination, bind_shape, check_read_only, plan_namespace, NamespaceStep,
};
use pc::sandbox::{
    check_exposure, check_outcome, devices, passed_variables, private_dirs, reading,
    rustup_location, search_dirs, search_path, secrets_of, system_locations, writing, CommandHost,
    Findings, SafeSandbox, SandboxSpec, PROBING,
};

fn some(s: &str) -> Option<String> {
    Some(s.to_string())
}

fn list(items: &[&str]) -> Vec<String> {
    items.iter().map(|s| s.to_string()).collect()
}

fn findings() -> Findings {
    Findings {
        workspace: "/home/u/work".to_string(),
        temp_dir: "/home/u/.config/pc/tmp".to_string(),
        path: "/usr/bin:/home/u/bin".to_string(),
        system: list(&["/usr", "/usr/bin", "/usr/lib", "/etc/hosts"]),
        search_dirs: list(&["/usr/bin", "/home/u/bin", "/home/u", "/home", "/"]),
        home: some("/home/u"),
        rustup_home: some("/home/u/.rustup"),
        secrets: list(&["/home/u/.ssh", "/home/u/.netrc"]),
    }
}

fn host() -> CommandHost {
    CommandHost {
        devices: list(&["/dev/null"]),
        passed: vec![("LANG".to_string(), "C".to_string())],
    }
}

#[test]
fn sandbox_reads_what_was_found() {
    let command = SafeSandbox::start(findings(), true, true).probe(&host());
    assert_eq!(
        command.spec.read_only,
        ["/etc/hosts", "/home/u/.rustup", "/home/u/bin", "/usr", "/usr/bin", "/usr/lib"]
    );
    let command = SafeSandbox::start(findings(), true, false).probe(&host());
    assert_eq!(
        command.spec.read_only,
        [
            "/etc/hosts",
            "/home/u/.netrc",
            "/home/u/.rustup",
            "/home/u/.ssh",
            "/home/u/bin",
            "/usr",
            "/usr/bin",
            "/usr/lib"
        ]
    );
    let mut homeless = findings();
    homeless.home = None;
    homeless.rustup_home = None;
    let command = SafeSandbox::start(homeless, true, false).probe(&host());
    assert_eq!(
        command.spec.read_only,
        ["/", "/etc/hosts", "/home", "/home/u", "/home/u/bin", "/usr", "/usr/bin", "/usr/lib"]
    );
}

#[test]
fn commands_run_in_the_workspace() {
    let sandbox = SafeSandbox::start(findings(), false, true);
    assert_eq!(sandbox.temp_dir(), "/home/u/.config/pc/tmp");
    assert_eq!(sandbox.visible_path("a/b"), "/home/u/work/a/b");
    assert_eq!(sandbox.visible_path("/a/b"), "/a/b");
    let command = sandbox.bash_command(&host(), "echo hi");
    assert_eq!(command.args, ["__pc-sandbox-exec", "/bin/bash", "-lc", "echo hi"]);
    assert_eq!(command.current_dir, "/home/u/work");
    let env: Vec<(&str, &str)> =
        command.env.iter().map(|(k, v)| (k.as_str(), v.as_str())).collect();
    assert_eq!(
        env,
        [
            ("PATH", "/usr/bin:/home/u/bin"),
            ("HOME", "/home/u/.config/pc/tmp/home"),
            ("TMPDIR", "/home/u/.config/pc/tmp"),
            ("GIT_TERMINAL_PROMPT", "0"),
            ("GIT_ASKPASS", "/bin/false"),
            ("SSH_ASKPASS", "/bin/false"),
            ("RUSTUP_HOME", "/home/u/.rustup"),
            ("LANG", "C"),
        ]
    );
    assert_eq!(
        command.spec.read_write,
        ["/home/u/work", "/home/u/.config/pc/tmp", "/home/u/.config/pc/tmp/home", "/dev/null"]
    );
    assert_eq!(command.spec.working_dir, "/home/u/work");
    assert_eq!(command.spec.namespace_root_base, "/home/u/.config/pc/tmp/sandbox-roots");
    assert!(!command.spec.network);
    assert_eq!(
        sandbox.read_file(&host(), "a").args,
        ["__pc-sandbox-exec", "/bin/cat", "--", "/home/u/work/a"]
    );
    assert_eq!(
        sandbox.write_file(&host(), "/x").args,
        [
            "__pc-sandbox-exec",
            "/bin/sh",
            "-c",
            "mkdir -p -- \"$(dirname -- \"$1\")\" && cat > \"$1\"",
            "pc-write",
            "/x"
        ]
    );
    assert_eq!(sandbox.command(&host(), "/bin/ls").args, ["__pc-sandbox-exec", "/bin/ls"]);
    assert_eq!(sandbox.probe(&host()).args, ["__pc-sandbox-exec", "/bin/true"]);
}

#[test]
fn sandbox_knows_where_to_look() {
    assert_eq!(system_locations().len(), 11);
    assert_eq!(search_path(&None), "/usr/local/bin:/usr/bin:/bin");
    assert_eq!(search_path(&some("/a")), "/a");
    assert_eq!(search_dirs("/a:/b::c"), ["/a", "/b", "", "c"]);
    assert_eq!(rustup_location(&some("/r"), &some("/h")), some("/r"));
    assert_eq!(rustup_location(&None, &some("/h")), some("/h/.rustup"));
    assert_eq!(rustup_location(&None, &None), None);
    assert_eq!(secrets_of("/h")[0], "/h/.ssh");
    assert_eq!(secrets_of("/h").len(), 9);
    assert_eq!(private_dirs("/t"), ("/t/home".to_string(), "/t/sandbox-roots".to_string()));
    assert_eq!(devices().len(), 5);
    assert_eq!(passed_variables()[0], "LANG");
    assert_eq!(passed_variables().len(), 7);
}

#[test]
fn failures_carry_what_was_printed() {
    assert_eq!(check_outcome(true, "x", &b"warning".to_vec()), Ok(()));
    assert_eq!(
        check_outcome(false, &reading("/a"), &b" cat: no\xff \n".to_vec()),
        Err("sandbox read /a: cat: no\u{fffd}".to_string())
    );
    assert_eq!(writing("/a"), "sandbox write /a");
    assert_eq!(
        check_outcome(false, PROBING, &vec![]),
        Err("pc safe sandbox unavailable (fail-closed): ".to_string())
    );
}

#[test]
fn helper_is_entered_by_its_marker() {
    let enter = |args: &[&str]| maybe_handle_entrypoint(&list(args));
    assert!(enter(&[]).is_none());
    assert!(enter(&["pc"]).is_none());
    assert!(enter(&["pc", "service", "__pc-sandbox-exec"]).is_none());
    assert_eq!(
        enter(&["pc", "__pc-sandbox-exec"]).unwrap().unwrap_err(),
        "pc sandbox helper missing program"
    );
    let task = enter(&["pc", "__pc-sandbox-exec", "/bin/sh", "-c", "x"]).unwrap().unwrap();
    assert_eq!(task.program, "/bin/sh");
    assert_eq!(task.args, ["-c", "x"]);
}

#[test]
fn helper_restricts_itself_in_order() {
    assert_eq!(
        helper_steps(true, false),
        [
            HelperStep::IsolateNetwork,
            HelperStep::NoNewPrivileges,
            HelperStep::ApplyPolicy,
            HelperStep::DropCapabilities
        ]
    );
    assert_eq!(helper_steps(true, true).len(), 3);
    assert_eq!(helper_steps(false, true), [HelperStep::Refuse]);
    assert_eq!(NOT_LINUX, "pc safe sandbox requires Linux; refusing to run unsandboxed");
    assert_eq!(judge_landlock(Enforcement::Whole, true), LandlockVerdict::Enforced);
    assert_eq!(judge_landlock(Enforcement::Whole, false), LandlockVerdict::Refuse);
    assert_eq!(judge_landlock(Enforcement::Nothing, false), LandlockVerdict::UseNamespace);
    assert_eq!(judge_landlock(Enforcement::Partial, true), LandlockVerdict::Refuse);
}

#[test]
fn user_namespaces_are_recognized() {
    assert!(root_in_noninitial_user_namespace(0, "         0       1000          1\n"));
    assert!(root_in_noninitial_user_namespace(0, "0 0 1"));
    assert!(!root_in_noninitial_user_namespace(0, "0 0 4294967295\n"));
    assert!(!root_in_noninitial_user_namespace(1000, "0 1000 1\n"));
    assert!(!root_in_noninitial_user_namespace(0, "1 1000 1\n"));
    assert!(!root_in_noninitial_user_namespace(0, "0 1000\n1"));
    assert!(!root_in_noninitial_user_namespace(0, ""));
    assert_eq!(id_map_line(1000), "0 1000 1\n");
    assert_eq!(prepare_gid_mapping(&None, "c"), Ok(GidMapping::Mappable));
    assert_eq!(prepare_gid_mapping(&some("deny\n"), "c"), Ok(GidMapping::Mappable));
    assert_eq!(prepare_gid_mapping(&some("allow"), "c"), Ok(GidMapping::DenySetgroups));
    assert_eq!(
        prepare_gid_mapping(&some(" odd "), "c"),
        Err("unexpected setgroups state for c: odd".to_string())
    );
    assert_eq!(map_gid_after(DenyOutcome::Done), Some(true));
    assert_eq!(map_gid_after(DenyOutcome::NotPermitted), Some(false));
    assert_eq!(map_gid_after(DenyOutcome::Failed), None);
    assert_eq!(rootless_steps(true).len(), 4);
    assert_eq!(rootless_steps(false), [RootlessStep::MapUser, RootlessStep::BecomeRootUser]);
}

#[test]
fn system_calls_are_denied() {
    assert_eq!(denied_calls().len(), 17);
    let program = denylist_program(&vec![165, 62, 165], 1, "x86_64").unwrap();
    let expected: seccompiler::BpfProgram = seccompiler::SeccompFilter::new(
        vec![(62, vec![]), (165, vec![])].into_iter().collect(),
        seccompiler::SeccompAction::Allow,
        seccompiler::SeccompAction::Errno(1),
        seccompiler::TargetArch::x86_64,
    )
    .unwrap()
    .try_into()
    .unwrap();
    assert_eq!(program.len(), expected.len());
    for (a, b) in program.iter().zip(&expected) {
        assert_eq!(*a, (b.code, b.jt, b.jf, b.k));
    }
    assert_eq!(
        denylist_program(&vec![165], 1, "pdp11"),
        Err("unsupported seccomp architecture pdp11".to_string())
    );
    assert_eq!(check_filter(Some(Err("e".to_string())), "x"), Err("e".to_string()));
}

fn spec(read_only: &[&str], read_write: &[&str]) -> SandboxSpec {
    SandboxSpec {
        read_only: list(read_only),
        read_write: list(read_write),
        working_dir: "/w".to_string(),
        namespace_root_base: "/t/roots".to_string(),
        network: true,
    }
}

#[test]
fn namespace_is_planned() {
    let steps = plan_namespace(&spec(&["/usr"], &["/w", "/dev/null"]), 7).unwrap();
    assert_eq!(steps.len(), 6 + 3 + 4 + 7);
    assert!(matches!(&steps[0], NamespaceStep::EnterUserNamespace));
    assert!(matches!(&steps[1], NamespaceStep::Clear(p) if p == "/t/roots/7"));
    assert!(matches!(&steps[5], NamespaceStep::MountRoot(p) if p == "/t/roots/7"));
    assert!(matches!(
        &steps[6],
        NamespaceStep::Bind { source, destination, read_only: true }
            if source == "/usr" && destination == "/t/roots/7/usr"
    ));
    assert!(matches!(
        &steps[8],
        NamespaceStep::Bind { source, destination, read_only: false }
            if source == "/dev/null" && destination == "/t/roots/7/dev/null"
    ));
    assert!(matches!(
        &steps[9],
        NamespaceStep::MirrorLink { host, destination }
            if host == "/bin" && destination == "/t/roots/7/bin"
    ));
    assert!(matches!(&steps[13], NamespaceStep::MakeDir(p) if p == "/t/roots/7/.oldroot"));
    assert!(matches!(&steps[15], NamespaceStep::PivotRoot));
    assert!(matches!(&steps[17], NamespaceStep::Detach(p) if p == "/.oldroot"));
    assert!(matches!(&steps[19], NamespaceStep::ChangeDir(p) if p == "/w"));
}

#[test]
fn namespace_needs_absolute_paths() {
    assert_eq!(
        plan_namespace(&spec(&["/usr", "lib"], &["x"]), 7).unwrap_err(),
        "sandbox path must be absolute: lib"
    );
    assert_eq!(
        plan_namespace(&spec(&["/usr"], &["x"]), 7).unwrap_err(),
        "sandbox path must be absolute: x"
    );
    assert_eq!(bind_destination("/r", "//a/b"), Ok("/r/a/b".to_string()));
    assert!(bind_destination("/r", "a").is_err());
    assert!(bind_shape(true).directory && bind_shape(true).recursive);
    assert!(!bind_shape(false).directory && !bind_shape(false).recursive);
    assert_eq!(check_read_only("/a", true, true), Ok(()));
    assert_eq!(check_read_only("/a", false, false), Ok(()));
    assert_eq!(
        check_read_only("/a", false, true),
        Err("read-only sandbox path is writable by pc: /a".to_string())
    );
}

#[test]
fn filter_is_installed_last() {
    assert_eq!(policy_steps(LandlockVerdict::Enforced), [PolicyStep::InstallFilter]);
    assert_eq!(
        policy_steps(LandlockVerdict::UseNamespace),
        [PolicyStep::EnterNamespace, PolicyStep::InstallFilter]
    );
    assert_eq!(policy_steps(LandlockVerdict::Refuse), [PolicyStep::Refuse]);
}

#[test]
fn workspace_must_not_expose_credentials() {
    assert!(check_exposure(&findings(), true).is_ok());
    let with = |dir: &str| Findings { workspace: dir.to_string(), ..findings() };
    for dir in
        ["/home/u", "/home", "/", "/home/u/.ssh", "/home/u/.config", "/home/u/.ssh/x"]
    {
        assert_eq!(
            check_exposure(&with(dir), true),
            Err(format!("protect_secrets cannot hide the credentials under {dir}"))
        );
        assert!(check_exposure(&with(dir), false).is_ok());
    }
    let temp = Findings { temp_dir: "/home/u/".to_string(), ..findings() };
    assert_eq!(
        check_exposure(&temp, true),
        Err("protect_secrets cannot hide the credentials under /home/u/".to_string())
    );
    let elsewhere = Findings {
        workspace: "/keys".to_string(),
        secrets: list(&["/keys/ssh"]),
        ..findings()
    };
    assert!(check_exposure(&elsewhere, true).is_err());
    let homeless = Findings { home: None, ..with("/home/u") };
    assert!(check_exposure(&homeless, true).is_ok());
}

#[test]
fn readable_paths_must_not_expose_credentials() {
    let refused = |found: Findings, path: &str| {
        assert_eq!(
            check_exposure(&found, true),
            Err(format!("protect_secrets cannot hide the credentials under {path}"))
        );
        assert!(check_exposure(&found, false).is_ok());
    };
    refused(Findings { system: list(&["/usr", "/home"]), ..findings() }, "/home");
    refused(
        Findings { search_dirs: list(&["/", "/home/u/.config"]), ..findings() },
        "/home/u/.config",
    );
    refused(Findings { rustup_home: some("/home/u"), ..findings() }, "/home/u");
    refused(
        Findings { search_dirs: list(&["/home/u/.config/gcloud/bin"]), ..findings() },
        "/home/u/.config/gcloud/bin",
    );
    let harmless = Findings { search_dirs: list(&["/", "/home/u/bin"]), ..findings() };
    assert!(check_exposure(&harmless, true).is_ok());
}

#[test]
fn policy_needs_a_complete_sandbox() {
    let whole = Some((Enforcement::Whole, true));
    let nothing = Some((Enforcement::Nothing, true));
    assert_eq!(apply_policy(true, whole, false, true), Ok(()));
    assert_eq!(apply_policy(true, nothing, true, true), Ok(()));
    assert_eq!(apply_policy(true, Some((Enforcement::Nothing, false)), true, true), Ok(()));
    assert_eq!(apply_policy(false, whole, true, true), Err(PolicyProblem::NotLinux));
    assert_eq!(apply_policy(true, None, true, true), Err(PolicyProblem::Landlock));
    assert_eq!(apply_policy(true, nothing, false, true), Err(PolicyProblem::Namespace));
    assert_eq!(apply_policy(true, whole, true, false), Err(PolicyProblem::Filter));
    assert_eq!(apply_policy(true, nothing, true, false), Err(PolicyProblem::Filter));
    for unclear in [(Enforcement::Whole, false), (Enforcement::Partial, true)] {
        assert_eq!(apply_policy(true, Some(unclear), true, true), Err(PolicyProblem::Ambiguous));
    }
}
