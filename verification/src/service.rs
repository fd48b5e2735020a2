//! Running pc as a native per-user background service.
//!
//! The service definition is rendered here, and an action of the service manager is laid out
//! as a list of steps. Each step says when it applies and what to do.

use vstd::prelude::*;
use vstd::utf8::decode_utf8;
use vstd::utf8::valid_utf8;

use crate::config::config_dir_in;
use crate::config::default_home;
use crate::config::set_value;
use crate::escape::escape;
use crate::escape::escaped;
use crate::escape::Escape;
use crate::outside::debug_form;
use crate::outside::debug_text;
use crate::outside::utf8_text;
use crate::paths::absolute;
use crate::paths::is_absolute;
use crate::paths::join;
use crate::paths::joined_path;
use crate::text::all_digits;
use crate::text::chars_of;
use crate::text::concat;
use crate::text::concat3;
use crate::text::decimal;
use crate::text::has_char;
use crate::text::is_digit;
use crate::text::join_from;
use crate::text::joined;
use crate::text::numeral;
use crate::text::pairs;
use crate::text::texts;
use crate::text::trim;
use crate::text::trimmed;
use crate::text::words1;
use crate::text::words2;
use crate::text::words3;
use crate::text::words4;

verus! {

/// The name of the systemd unit.
pub const SYSTEMD_UNIT: &'static str = "pc.service";

/// The label of the launchd agent.
pub const LAUNCHD_LABEL: &'static str = "io.github.darkautism.pc";

/// What to do with the user service.
#[derive(Debug, Clone, Copy, PartialEq, Eq, Structural)]
pub enum ServiceAction {
    /// Install or update the user service and start it.
    Install,
    /// Start the installed user service.
    Start,
    /// Stop the installed user service.
    Stop,
    /// Restart the installed user service.
    Restart,
    /// Show native service-manager status.
    Status,
    /// Stop and remove the user service.
    Uninstall,
}

/// What the service definition is made of: the program, the user's home directory and the
/// environment.
#[derive(Debug)]
pub struct ServiceSpec {
    pub binary: String,
    pub user_home: String,
    pub environment: Vec<(String, String)>,
}

/// What the service definition is made of, as a mathematical value.
pub struct Service {
    pub binary: Seq<char>,
    pub user_home: Seq<char>,
    pub environment: Seq<(Seq<char>, Seq<char>)>,
}

impl View for ServiceSpec {
    type V = Service;

    open spec fn view(&self) -> Service {
        Service {
            binary: self.binary@,
            user_home: self.user_home@,
            environment: pairs(self.environment@),
        }
    }
}

// ---------------------------------------------------------------------------------------
// Service definitions

/// Escapes a value for a systemd unit.
pub fn systemd_escape(value: &str) -> (r: String)
    ensures
        r@ == escaped(Escape::Systemd, value@),
{
    escape(Escape::Systemd, value)
}

/// Escapes a value for an XML file.
pub fn xml_escape(value: &str) -> (r: String)
    ensures
        r@ == escaped(Escape::Xml, value@),
{
    escape(Escape::Xml, value)
}

/// The `Environment` lines of a systemd unit.
pub open spec fn unit_environment(env: Seq<(Seq<char>, Seq<char>)>) -> Seq<char>
    decreases env.len(),
{
    if env.len() == 0 {
        Seq::<char>::empty()
    } else {
        unit_environment(env.drop_last()) + "Environment=\""@ + escaped(
            Escape::Systemd,
            env.last().0,
        ) + "="@ + escaped(Escape::Systemd, env.last().1) + "\"\n"@
    }
}

/// The systemd unit of a service.
pub open spec fn systemd_unit(s: Service) -> Seq<char> {
    "[Unit]\nDescription=pc MCP server\nAfter=network-online.target\nWants=network-online.target\n\n[Service]\nType=simple\nExecStart=\""@
        + escaped(Escape::Systemd, s.binary) + "\"\nWorkingDirectory=\""@ + escaped(
        Escape::Systemd,
        s.user_home,
    ) + "\"\nRestart=on-failure\nRestartSec=3\n"@ + unit_environment(s.environment)
        + "\n[Install]\nWantedBy=default.target\n"@
}

/// Renders the systemd unit of a service.
pub fn render_systemd_unit(spec: &ServiceSpec) -> (r: String)
    ensures
        r@ == systemd_unit(spec@),
{
    let mut unit =
        "[Unit]\nDescription=pc MCP server\nAfter=network-online.target\nWants=network-online.target\n\n[Service]\nType=simple\nExecStart=\"".to_owned();
    let binary = systemd_escape(spec.binary.as_str());
    unit.push_str(binary.as_str());
    unit.push_str("\"\nWorkingDirectory=\"");
    let home = systemd_escape(spec.user_home.as_str());
    unit.push_str(home.as_str());
    unit.push_str("\"\nRestart=on-failure\nRestartSec=3\n");
    let ghost head = unit@;
    let ghost env = pairs(spec.environment@);
    let mut i: usize = 0;
    assert(env.take(0) =~= Seq::empty());
    assert(unit@ =~= head + unit_environment(env.take(0)));
    while i < spec.environment.len()
        invariant
            i <= spec.environment@.len(),
            env == pairs(spec.environment@),
            unit@ == head + unit_environment(env.take(i as int)),
        decreases spec.environment@.len() - i,
    {
        let ghost before = unit@;
        let key = systemd_escape(spec.environment[i].0.as_str());
        let value = systemd_escape(spec.environment[i].1.as_str());
        unit.push_str("Environment=\"");
        unit.push_str(key.as_str());
        unit.push_str("=");
        unit.push_str(value.as_str());
        unit.push_str("\"\n");
        i += 1;
        proof {
            let now = env.take(i as int);
            assert(now.drop_last() =~= env.take(i - 1));
            assert(now.last() == env[i - 1]);
            assert(unit@ =~= head + unit_environment(now));
        }
    }
    assert(env.take(env.len() as int) =~= env);
    unit.push_str("\n[Install]\nWantedBy=default.target\n");
    unit
}

/// The `EnvironmentVariables` entries of a launchd property list.
pub open spec fn plist_environment(env: Seq<(Seq<char>, Seq<char>)>) -> Seq<char>
    decreases env.len(),
{
    if env.len() == 0 {
        Seq::<char>::empty()
    } else {
        plist_environment(env.drop_last()) + "        <key>"@ + escaped(Escape::Xml, env.last().0)
            + "</key>\n        <string>"@ + escaped(Escape::Xml, env.last().1) + "</string>\n"@
    }
}

/// The launchd property list of a service.
pub open spec fn launchd_plist(s: Service) -> Seq<char> {
    "<?xml version=\"1.0\" encoding=\"UTF-8\"?>\n<!DOCTYPE plist PUBLIC \"-//Apple//DTD PLIST 1.0//EN\" \"http://www.apple.com/DTDs/PropertyList-1.0.dtd\">\n<plist version=\"1.0\">\n<dict>\n    <key>Label</key>\n    <string>"@
        + LAUNCHD_LABEL@
        + "</string>\n    <key>ProgramArguments</key>\n    <array>\n        <string>"@ + escaped(
        Escape::Xml,
        s.binary,
    ) + "</string>\n    </array>\n    <key>WorkingDirectory</key>\n    <string>"@ + escaped(
        Escape::Xml,
        s.user_home,
    ) + "</string>\n    <key>EnvironmentVariables</key>\n    <dict>\n"@ + plist_environment(
        s.environment,
    )
        + "    </dict>\n    <key>RunAtLoad</key>\n    <true/>\n    <key>KeepAlive</key>\n    <dict>\n        <key>SuccessfulExit</key>\n        <false/>\n    </dict>\n    <key>ThrottleInterval</key>\n    <integer>3</integer>\n</dict>\n</plist>\n"@
}

/// Renders the launchd property list of a service.
pub fn render_launchd_plist(spec: &ServiceSpec) -> (r: String)
    ensures
        r@ == launchd_plist(spec@),
{
    let mut plist =
        "<?xml version=\"1.0\" encoding=\"UTF-8\"?>\n<!DOCTYPE plist PUBLIC \"-//Apple//DTD PLIST 1.0//EN\" \"http://www.apple.com/DTDs/PropertyList-1.0.dtd\">\n<plist version=\"1.0\">\n<dict>\n    <key>Label</key>\n    <string>".to_owned();
    plist.push_str(LAUNCHD_LABEL);
    plist.push_str(
        "</string>\n    <key>ProgramArguments</key>\n    <array>\n        <string>",
    );
    let binary = xml_escape(spec.binary.as_str());
    plist.push_str(binary.as_str());
    plist.push_str("</string>\n    </array>\n    <key>WorkingDirectory</key>\n    <string>");
    let home = xml_escape(spec.user_home.as_str());
    plist.push_str(home.as_str());
    plist.push_str("</string>\n    <key>EnvironmentVariables</key>\n    <dict>\n");
    let ghost head = plist@;
    let ghost env = pairs(spec.environment@);
    let mut i: usize = 0;
    assert(env.take(0) =~= Seq::empty());
    assert(plist@ =~= head + plist_environment(env.take(0)));
    while i < spec.environment.len()
        invariant
            i <= spec.environment@.len(),
            env == pairs(spec.environment@),
            plist@ == head + plist_environment(env.take(i as int)),
        decreases spec.environment@.len() - i,
    {
        let key = xml_escape(spec.environment[i].0.as_str());
        let value = xml_escape(spec.environment[i].1.as_str());
        plist.push_str("        <key>");
        plist.push_str(key.as_str());
        plist.push_str("</key>\n        <string>");
        plist.push_str(value.as_str());
        plist.push_str("</string>\n");
        i += 1;
        proof {
            let now = env.take(i as int);
            assert(now.drop_last() =~= env.take(i - 1));
            assert(now.last() == env[i - 1]);
            assert(plist@ =~= head + plist_environment(now));
        }
    }
    assert(env.take(env.len() as int) =~= env);
    plist.push_str(
        "    </dict>\n    <key>RunAtLoad</key>\n    <true/>\n    <key>KeepAlive</key>\n    <dict>\n        <key>SuccessfulExit</key>\n        <false/>\n    </dict>\n    <key>ThrottleInterval</key>\n    <integer>3</integer>\n</dict>\n</plist>\n",
    );
    plist
}

// ---------------------------------------------------------------------------------------
// What a service definition is made of

/// The operating systems with a service manager that is supported, and the others.
#[derive(Debug, Clone, Copy, PartialEq, Eq, Structural)]
pub enum Platform {
    Linux,
    MacOs,
    Other,
}

/// What is known of the host: its system, the running program, the current directory, some
/// environment variables and, on macOS, the user's numeric identifier or why it is not known.
#[derive(Debug)]
pub struct Host {
    pub platform: Platform,
    pub binary: Option<String>,
    pub current_dir: Option<String>,
    pub home: Option<String>,
    pub user_profile: Option<String>,
    pub path: Option<String>,
    pub rustup_home: Option<String>,
    pub cargo_home: Option<String>,
    pub developer_dir: Option<String>,
    pub xdg_config_home: Option<String>,
    pub uid: Result<String, String>,
}

/// The search path of a service where none is set.
pub open spec fn default_path(platform: Platform) -> Seq<char> {
    if platform == Platform::MacOs {
        "/opt/homebrew/bin:/usr/local/bin:/usr/bin:/bin:/usr/sbin:/sbin"@
    } else {
        "/usr/local/bin:/usr/bin:/bin"@
    }
}

/// The environment with one variable more, where it is set and not empty.
pub open spec fn with_entry(
    env: Seq<(Seq<char>, Seq<char>)>,
    key: Seq<char>,
    value: Option<Seq<char>>,
) -> Seq<(Seq<char>, Seq<char>)> {
    match set_value(value) {
        Some(v) => env.push((key, v)),
        None => env,
    }
}

/// The environment of a service: the configuration directory, the search path and the
/// locations of development tools. Nothing else of the caller's environment goes into it.
pub open spec fn environment_of(host: Host, pc_home: Seq<char>) -> Seq<(Seq<char>, Seq<char>)> {
    let base = seq![
        ("PC_HOME"@, pc_home),
        (
            "PATH"@,
            match host.path.deep_view() {
                Some(path) => path,
                None => default_path(host.platform),
            },
        ),
    ];
    with_entry(
        with_entry(
            with_entry(base, "RUSTUP_HOME"@, host.rustup_home.deep_view()),
            "CARGO_HOME"@,
            host.cargo_home.deep_view(),
        ),
        "DEVELOPER_DIR"@,
        host.developer_dir.deep_view(),
    )
}

/// Adds a variable to the environment, where it is set and not empty.
fn push_entry(env: &mut Vec<(String, String)>, key: &str, value: &Option<String>)
    ensures
        pairs(final(env)@) == with_entry(pairs(old(env)@), key@, value.deep_view()),
{
    if let Some(v) = value {
        if !v.as_str().is_empty() {
            env.push((key.to_owned(), v.clone()));
            assert(pairs(env@) =~= pairs(old(env)@).push((key@, v@)));
        }
    }
}

/// The environment of a service.
pub fn service_environment(host: &Host, pc_home: &str) -> (r: Vec<(String, String)>)
    ensures
        pairs(r@) == environment_of(*host, pc_home@),
{
    let mut env: Vec<(String, String)> = Vec::new();
    env.push(("PC_HOME".to_owned(), pc_home.to_owned()));
    let path = match &host.path {
        Some(path) => path.clone(),
        None => if host.platform == Platform::MacOs {
            "/opt/homebrew/bin:/usr/local/bin:/usr/bin:/bin:/usr/sbin:/sbin".to_owned()
        } else {
            "/usr/local/bin:/usr/bin:/bin".to_owned()
        },
    };
    let ghost shown = path@;
    env.push(("PATH".to_owned(), path));
    assert(pairs(env@) =~= seq![("PC_HOME"@, pc_home@), ("PATH"@, shown)]);
    push_entry(&mut env, "RUSTUP_HOME", &host.rustup_home);
    push_entry(&mut env, "CARGO_HOME", &host.cargo_home);
    push_entry(&mut env, "DEVELOPER_DIR", &host.developer_dir);
    env
}

/// Whether the value holds a character that a line of a service definition cannot hold.
pub open spec fn has_control(value: Seq<char>) -> bool {
    value.contains('\n') || value.contains('\r') || value.contains('\0')
}

/// The message for a value with such a character.
pub open spec fn control_problem(name: Seq<char>) -> Seq<char> {
    name + " contains unsupported control characters"@
}

/// Refuses a value with a character that a line of a service definition cannot hold.
pub fn validate_line_value(name: &str, value: &str) -> (r: Result<(), String>)
    ensures
        match r {
            Ok(()) => !has_control(value@),
            Err(m) => has_control(value@) && m@ == control_problem(name@),
        },
{
    if has_char(value, '\n') || has_char(value, '\r') || has_char(value, '\0') {
        Err(concat(name, " contains unsupported control characters"))
    } else {
        Ok(())
    }
}

/// What is wrong with the first of the named values, from position `from` on, with which
/// anything is.
pub open spec fn first_control_problem(
    values: Seq<(Seq<char>, Seq<char>)>,
    from: int,
) -> Option<Seq<char>>
    decreases values.len() - from,
{
    if from < 0 || from >= values.len() {
        None
    } else if has_control(values[from].1) {
        Some(control_problem(values[from].0))
    } else {
        first_control_problem(values, from + 1)
    }
}

/// Refuses named values of which one has a character that a line cannot hold.
fn validate_pairs(values: &Vec<(String, String)>) -> (r: Result<(), String>)
    ensures
        match r {
            Ok(()) => first_control_problem(pairs(values@), 0) is None,
            Err(m) => first_control_problem(pairs(values@), 0) == Some(m@),
        },
{
    let mut i: usize = 0;
    while i < values.len()
        invariant
            i <= values@.len(),
            first_control_problem(pairs(values@), 0) == first_control_problem(
                pairs(values@),
                i as int,
            ),
        decreases values@.len() - i,
    {
        let name = values[i].0.as_str();
        let value = values[i].1.as_str();
        assert(pairs(values@)[i as int] == (name@, value@));
        match validate_line_value(name, value) {
            Ok(()) => {},
            Err(m) => {
                return Err(m);
            },
        }
        i += 1;
    }
    Ok(())
}

/// An absolute form of a path, where the current directory is known or not needed.
pub open spec fn absolute_form(path: Seq<char>, current_dir: Option<Seq<char>>) -> Option<
    Seq<char>,
> {
    if absolute(path) {
        Some(path)
    } else {
        match current_dir {
            Some(dir) => Some(joined_path(dir, path)),
            None => None,
        }
    }
}

/// An absolute form of a path.
pub fn absolute_path(path: String, current_dir: &Option<String>) -> (r: Result<String, String>)
    ensures
        match absolute_form(path@, current_dir.deep_view()) {
            Some(p) => r matches Ok(s) && s@ == p,
            None => r matches Err(m) && m@ == "resolve current directory"@,
        },
{
    if is_absolute(path.as_str()) {
        return Ok(path);
    }
    match current_dir {
        Some(dir) => Ok(join(dir.as_str(), path.as_str())),
        None => Err("resolve current directory".to_owned()),
    }
}

/// What is wrong with the values that go into a service definition, if anything is.
pub open spec fn service_problem(s: Service, pc_home: Seq<char>) -> Option<Seq<char>> {
    first_control_problem(
        seq![("pc executable"@, s.binary), ("PC_HOME"@, pc_home), ("HOME"@, s.user_home)]
            + s.environment,
        0,
    )
}

/// What the service definition is made of on the given host, or why there can be none.
pub open spec fn resolved(host: Host, explicit_home: Option<Seq<char>>) -> Result<
    Service,
    Seq<char>,
> {
    match (host.binary.deep_view(), set_value(host.home.deep_view())) {
        (None, _) => Err("resolve current pc executable"@),
        (Some(_), None) => Err("HOME is required for user service installation"@),
        (Some(binary), Some(user_home)) => {
            let raw = match explicit_home {
                Some(dir) => dir,
                None => config_dir_in(user_home),
            };
            match absolute_form(raw, host.current_dir.deep_view()) {
                None => Err("resolve current directory"@),
                Some(pc_home) => {
                    let s = Service {
                        binary,
                        user_home,
                        environment: environment_of(host, pc_home),
                    };
                    match service_problem(s, pc_home) {
                        Some(m) => Err(m),
                        None => Ok(s),
                    }
                },
            }
        },
    }
}

impl ServiceSpec {
    /// What the service definition is made of on the given host, or why there can be none.
    pub fn resolve(host: &Host, explicit_home: &Option<String>) -> (r: Result<Self, String>)
        ensures
            match resolved(*host, explicit_home.deep_view()) {
                Ok(s) => r matches Ok(spec) && spec@ == s,
                Err(m) => r matches Err(e) && e@ == m,
            },
    {
        let binary = match &host.binary {
            Some(binary) => binary.clone(),
            None => {
                return Err("resolve current pc executable".to_owned());
            },
        };
        let user_home = match &host.home {
            Some(home) => home.clone(),
            None => {
                return Err("HOME is required for user service installation".to_owned());
            },
        };
        if user_home.as_str().is_empty() {
            return Err("HOME is required for user service installation".to_owned());
        }
        let raw = match explicit_home {
            Some(dir) => dir.clone(),
            None => {
                match default_home(&host.home, &host.user_profile) {
                    Ok(dir) => dir,
                    Err(m) => {
                        return Err(m);
                    },
                }
            },
        };
        let pc_home = match absolute_path(raw, &host.current_dir) {
            Ok(pc_home) => pc_home,
            Err(m) => {
                return Err(m);
            },
        };
        let environment = service_environment(host, pc_home.as_str());
        let mut values: Vec<(String, String)> = Vec::new();
        values.push(("pc executable".to_owned(), binary.clone()));
        values.push(("PC_HOME".to_owned(), pc_home.clone()));
        values.push(("HOME".to_owned(), user_home.clone()));
        let ghost head = seq![
            ("pc executable"@, binary@),
            ("PC_HOME"@, pc_home@),
            ("HOME"@, user_home@),
        ];
        assert(pairs(values@) =~= head);
        let ghost env = pairs(environment@);
        let mut i: usize = 0;
        assert(head + env.take(0) =~= head);
        while i < environment.len()
            invariant
                i <= environment@.len(),
                env == pairs(environment@),
                pairs(values@) == head + env.take(i as int),
            decreases environment@.len() - i,
        {
            let ghost before = pairs(values@);
            values.push((environment[i].0.clone(), environment[i].1.clone()));
            i += 1;
            assert(pairs(values@) =~= before.push(env[i - 1]));
            assert(head + env.take(i as int) =~= (head + env.take(i - 1)).push(env[i - 1]));
        }
        assert(env.take(env.len() as int) =~= env);
        match validate_pairs(&values) {
            Ok(()) => Ok(ServiceSpec { binary, user_home, environment }),
            Err(m) => Err(m),
        }
    }
}

/// The only variables that go into a service definition are those for the configuration
/// directory, the search path and the locations of development tools.
pub proof fn lemma_environment_is_limited(host: Host, pc_home: Seq<char>, i: int)
    requires
        0 <= i < environment_of(host, pc_home).len(),
    ensures
        ({
            let key = environment_of(host, pc_home)[i].0;
            key == "PC_HOME"@ || key == "PATH"@ || key == "RUSTUP_HOME"@ || key == "CARGO_HOME"@
                || key == "DEVELOPER_DIR"@
        }),
{
}

proof fn lemma_no_control(values: Seq<(Seq<char>, Seq<char>)>, from: int, i: int)
    requires
        0 <= from <= i < values.len(),
        first_control_problem(values, from) is None,
    ensures
        !has_control(values[i].1),
    decreases i - from,
{
    if from < i {
        lemma_no_control(values, from + 1, i);
    }
}

/// No value of a service definition can break out of its line.
pub proof fn lemma_values_stay_on_their_lines(host: Host, explicit_home: Option<Seq<char>>, i: int)
    requires
        resolved(host, explicit_home) is Ok,
    ensures
        ({
            let s = resolved(host, explicit_home)->Ok_0;
            &&& !has_control(s.binary)
            &&& !has_control(s.user_home)
            &&& 0 <= i < s.environment.len() ==> !has_control(s.environment[i].1)
        }),
{
    let s = resolved(host, explicit_home)->Ok_0;
    let raw = match explicit_home {
        Some(dir) => dir,
        None => config_dir_in(s.user_home),
    };
    let pc_home = absolute_form(raw, host.current_dir.deep_view())->0;
    let values = seq![("pc executable"@, s.binary), ("PC_HOME"@, pc_home), ("HOME"@, s.user_home)]
        + s.environment;
    lemma_no_control(values, 0, 0);
    lemma_no_control(values, 0, 2);
    assert(values[0].1 == s.binary && values[2].1 == s.user_home);
    if 0 <= i < s.environment.len() {
        lemma_no_control(values, 0, i + 3);
        assert(values[i + 3] == s.environment[i]);
    }
}

// ---------------------------------------------------------------------------------------
// Steps

/// When a step applies: always, or depending on whether the service definition is installed
/// and, on macOS, whether the agent is loaded.
#[derive(Debug, Clone, Copy, PartialEq, Eq, Structural)]
pub enum Guard {
    Always,
    Installed,
    NotInstalled,
    Loaded,
    NotLoaded,
    NeitherLoadedNorInstalled,
}

/// What a step does.
#[derive(Debug)]
pub enum Deed {
    /// Write a file, first under a temporary name in the same directory.
    Write { dir: String, name: String, content: String },
    /// Run a program, which has to succeed.
    Run { program: &'static str, args: Vec<String>, description: String },
    /// Run a program, whatever comes of it.
    RunQuietly { program: &'static str, args: Vec<String> },
    /// Remove a file.
    Remove { path: String },
    /// Tell the user something.
    Say { text: String },
    /// Give up.
    Fail { message: String },
}

/// One step of an action.
#[derive(Debug)]
pub struct Step {
    pub when: Guard,
    pub deed: Deed,
}

/// What a step does, as a mathematical value.
pub enum Act {
    Write { dir: Seq<char>, name: Seq<char>, content: Seq<char> },
    Run { program: Seq<char>, args: Seq<Seq<char>>, description: Seq<char> },
    RunQuietly { program: Seq<char>, args: Seq<Seq<char>> },
    Remove { path: Seq<char> },
    Say { text: Seq<char> },
    Fail { message: Seq<char> },
}

/// What a deed does, as a mathematical value.
pub open spec fn act_of(deed: Deed) -> Act {
    match deed {
        Deed::Write { dir, name, content } => Act::Write {
            dir: dir@,
            name: name@,
            content: content@,
        },
        Deed::Run { program, args, description } => Act::Run {
            program: program@,
            args: texts(args@),
            description: description@,
        },
        Deed::RunQuietly { program, args } => Act::RunQuietly {
            program: program@,
            args: texts(args@),
        },
        Deed::Remove { path } => Act::Remove { path: path@ },
        Deed::Say { text } => Act::Say { text: text@ },
        Deed::Fail { message } => Act::Fail { message: message@ },
    }
}

impl View for Step {
    type V = (Guard, Act);

    open spec fn view(&self) -> (Guard, Act) {
        (self.when, act_of(self.deed))
    }
}

/// The views of a list of steps.
pub open spec fn steps_view(steps: Seq<Step>) -> Seq<(Guard, Act)> {
    steps.map_values(|s: Step| s@)
}

/// Whether a step with the guard applies.
pub fn applies(when: Guard, loaded: bool, installed: bool) -> (r: bool)
    ensures
        r == match when {
            Guard::Always => true,
            Guard::Installed => installed,
            Guard::NotInstalled => !installed,
            Guard::Loaded => loaded,
            Guard::NotLoaded => !loaded,
            Guard::NeitherLoadedNorInstalled => !loaded && !installed,
        },
{
    match when {
        Guard::Always => true,
        Guard::Installed => installed,
        Guard::NotInstalled => !installed,
        Guard::Loaded => loaded,
        Guard::NotLoaded => !loaded,
        Guard::NeitherLoadedNorInstalled => !loaded && !installed,
    }
}

/// The name that a file is written under before it takes its place.
pub fn temporary_name(name: &str, pid: u32) -> (r: String)
    ensures
        r@ == "."@ + name@ + ".tmp-"@ + numeral(pid as nat),
{
    let mut out = concat3(".", name, ".tmp-");
    let digits = decimal(pid as u64);
    out.push_str(digits.as_str());
    out
}

/// The step that runs `systemctl` for the user's services.
pub open spec fn systemctl_act(args: Seq<Seq<char>>) -> Act {
    Act::Run {
        program: "systemctl"@,
        args: seq!["--user"@] + args,
        description: "systemctl --user "@ + joined(args, " "@),
    }
}

/// The step that runs `systemctl` for the user's services, whatever comes of it.
pub open spec fn quiet_systemctl_act(args: Seq<Seq<char>>) -> Act {
    Act::RunQuietly { program: "systemctl"@, args: seq!["--user"@] + args }
}

/// The steps of an action with systemd. The unit goes into the given directory.
pub open spec fn systemd_steps(action: ServiceAction, dir: Seq<char>, s: Service) -> Seq<
    (Guard, Act),
> {
    let path = joined_path(dir, SYSTEMD_UNIT@);
    match action {
        ServiceAction::Install => seq![
            (
                Guard::Always,
                Act::Write { dir, name: SYSTEMD_UNIT@, content: systemd_unit(s) },
            ),
            (Guard::Always, systemctl_act(seq!["daemon-reload"@])),
            (Guard::Always, systemctl_act(seq!["enable"@, "--now"@, SYSTEMD_UNIT@])),
            (Guard::Always, Act::Say { text: "installed and started "@ + path }),
        ],
        ServiceAction::Start => seq![
            (Guard::Always, systemctl_act(seq!["start"@, SYSTEMD_UNIT@])),
        ],
        ServiceAction::Stop => seq![
            (Guard::Always, systemctl_act(seq!["stop"@, SYSTEMD_UNIT@])),
        ],
        ServiceAction::Restart => seq![
            (Guard::Always, systemctl_act(seq!["restart"@, SYSTEMD_UNIT@])),
        ],
        ServiceAction::Status => seq![
            (
                Guard::Always,
                systemctl_act(seq!["status"@, "--no-pager"@, "--full"@, SYSTEMD_UNIT@]),
            ),
        ],
        ServiceAction::Uninstall => seq![
            (Guard::Always, quiet_systemctl_act(seq!["disable"@, "--now"@, SYSTEMD_UNIT@])),
            (Guard::Installed, Act::Remove { path }),
            (Guard::Always, systemctl_act(seq!["daemon-reload"@])),
            (Guard::Always, quiet_systemctl_act(seq!["reset-failed"@, SYSTEMD_UNIT@])),
            (Guard::Always, Act::Say { text: "uninstalled "@ + path }),
        ],
    }
}

/// A step that always applies.
fn always(deed: Deed) -> (r: Step)
    ensures
        r@ == (Guard::Always, act_of(deed)),
{
    Step { when: Guard::Always, deed }
}

/// The arguments with `--user` before them.
fn user_args(args: &Vec<String>) -> (r: Vec<String>)
    ensures
        texts(r@) == seq!["--user"@] + texts(args@),
{
    let mut out: Vec<String> = Vec::new();
    out.push("--user".to_owned());
    let mut i: usize = 0;
    assert(texts(out@) =~= seq!["--user"@] + texts(args@).take(0));
    while i < args.len()
        invariant
            i <= args@.len(),
            texts(out@) == seq!["--user"@] + texts(args@).take(i as int),
        decreases args@.len() - i,
    {
        let ghost before = texts(out@);
        out.push(args[i].clone());
        i += 1;
        assert(texts(out@) =~= before.push(args@[i - 1]@));
        assert(texts(args@).take(i as int) =~= texts(args@).take(i - 1).push(args@[i - 1]@));
    }
    assert(texts(args@).take(args@.len() as int) =~= texts(args@));
    out
}

/// Runs `systemctl` for the user's services.
fn systemctl(words: Vec<String>) -> (r: Step)
    ensures
        r@ == (Guard::Always, systemctl_act(texts(words@))),
{
    let line = join_from(&words, 0, " ");
    assert(texts(words@).skip(0) =~= texts(words@));
    let description = concat("systemctl --user ", line.as_str());
    always(Deed::Run { program: "systemctl", args: user_args(&words), description })
}

/// Runs `systemctl` for the user's services, whatever comes of it.
fn quiet_systemctl(words: Vec<String>) -> (r: Step)
    ensures
        r@ == (Guard::Always, quiet_systemctl_act(texts(words@))),
{
    always(Deed::RunQuietly { program: "systemctl", args: user_args(&words) })
}

/// Lays out an action with systemd.
fn plan_systemd(action: ServiceAction, dir: &str, spec: &ServiceSpec) -> (r: Vec<Step>)
    ensures
        steps_view(r@) == systemd_steps(action, dir@, spec@),
{
    let path = join(dir, SYSTEMD_UNIT);
    let mut steps: Vec<Step> = Vec::new();
    match action {
        ServiceAction::Install => {
            let content = render_systemd_unit(spec);
            steps.push(
                always(
                    Deed::Write { dir: dir.to_owned(), name: SYSTEMD_UNIT.to_owned(), content },
                ),
            );
            steps.push(systemctl(words1("daemon-reload")));
            steps.push(systemctl(words3("enable", "--now", SYSTEMD_UNIT)));
            let text = concat("installed and started ", path.as_str());
            steps.push(always(Deed::Say { text }));
        },
        ServiceAction::Start => {
            steps.push(systemctl(words2("start", SYSTEMD_UNIT)));
        },
        ServiceAction::Stop => {
            steps.push(systemctl(words2("stop", SYSTEMD_UNIT)));
        },
        ServiceAction::Restart => {
            steps.push(systemctl(words2("restart", SYSTEMD_UNIT)));
        },
        ServiceAction::Status => {
            steps.push(systemctl(words4("status", "--no-pager", "--full", SYSTEMD_UNIT)));
        },
        ServiceAction::Uninstall => {
            steps.push(quiet_systemctl(words3("disable", "--now", SYSTEMD_UNIT)));
            steps.push(
                Step { when: Guard::Installed, deed: Deed::Remove { path: path.clone() } },
            );
            steps.push(systemctl(words1("daemon-reload")));
            steps.push(quiet_systemctl(words2("reset-failed", SYSTEMD_UNIT)));
            let text = concat("uninstalled ", path.as_str());
            steps.push(always(Deed::Say { text }));
        },
    }
    assert(steps_view(steps@) =~= systemd_steps(action, dir@, spec@));
    steps
}

/// The directory for a user's systemd units.
pub open spec fn unit_dir(host: Host, user_home: Seq<char>) -> Seq<char> {
    let config = match set_value(host.xdg_config_home.deep_view()) {
        Some(dir) => dir,
        None => joined_path(user_home, ".config"@),
    };
    joined_path(joined_path(config, "systemd"@), "user"@)
}

/// The directory for a user's systemd units.
fn systemd_user_dir(host: &Host, user_home: &str) -> (r: String)
    ensures
        r@ == unit_dir(*host, user_home@),
{
    let mut config = join(user_home, ".config");
    if let Some(dir) = &host.xdg_config_home {
        if !dir.as_str().is_empty() {
            config = dir.clone();
        }
    }
    let systemd = join(config.as_str(), "systemd");
    join(systemd.as_str(), "user")
}

/// The file name of the launchd property list.
pub open spec fn plist_name() -> Seq<char> {
    LAUNCHD_LABEL@ + ".plist"@
}

/// The directory for a user's launchd agents.
pub open spec fn agents_dir(user_home: Seq<char>) -> Seq<char> {
    joined_path(joined_path(user_home, "Library"@), "LaunchAgents"@)
}

/// The launchd domain of a user.
pub open spec fn launchd_domain(uid: Seq<char>) -> Seq<char> {
    "gui/"@ + uid
}

/// The launchd target of the service.
pub open spec fn launchd_target(uid: Seq<char>) -> Seq<char> {
    launchd_domain(uid) + "/"@ + LAUNCHD_LABEL@
}

/// The step that runs `launchctl`.
pub open spec fn launchctl_act(args: Seq<Seq<char>>) -> Act {
    Act::Run {
        program: "launchctl"@,
        args,
        description: "launchctl "@ + joined(args, " "@),
    }
}

/// What is said where the service is not installed.
pub const NOT_INSTALLED: &'static str = "pc service is not installed; run 'pc service install'";

/// What is said where the agent is not loaded.
pub const NOT_LOADED: &'static str = "pc service is not running or loaded";

/// The steps of an action with launchd, for the user with the given identifier.
pub open spec fn launchd_steps(action: ServiceAction, uid: Seq<char>, s: Service) -> Seq<
    (Guard, Act),
> {
    let dir = agents_dir(s.user_home);
    let path = joined_path(dir, plist_name());
    let target = launchd_target(uid);
    let bootout = Act::RunQuietly { program: "launchctl"@, args: seq!["bootout"@, target] };
    let bootstrap = launchctl_act(seq!["bootstrap"@, launchd_domain(uid), path]);
    let enable = launchctl_act(seq!["enable"@, target]);
    let kickstart = launchctl_act(seq!["kickstart"@, "-k"@, target]);
    match action {
        ServiceAction::Install => seq![
            (Guard::Always, Act::Write { dir, name: plist_name(), content: launchd_plist(s) }),
            (Guard::Loaded, bootout),
            (Guard::Always, bootstrap),
            (Guard::Always, enable),
            (Guard::Always, kickstart),
            (Guard::Always, Act::Say { text: "installed and started "@ + path }),
        ],
        ServiceAction::Start => seq![
            (Guard::NeitherLoadedNorInstalled, Act::Fail { message: NOT_INSTALLED@ }),
            (Guard::NotLoaded, bootstrap),
            (Guard::Always, enable),
            (Guard::Always, kickstart),
        ],
        ServiceAction::Stop => seq![
            (Guard::NotLoaded, Act::Fail { message: NOT_LOADED@ }),
            (Guard::Always, launchctl_act(seq!["bootout"@, target])),
        ],
        ServiceAction::Restart => seq![
            (Guard::NotInstalled, Act::Fail { message: NOT_INSTALLED@ }),
            (Guard::Loaded, bootout),
            (Guard::Always, bootstrap),
            (Guard::Always, enable),
            (Guard::Always, kickstart),
        ],
        ServiceAction::Status => seq![
            (Guard::Always, launchctl_act(seq!["print"@, target])),
        ],
        ServiceAction::Uninstall => seq![
            (Guard::Loaded, bootout),
            (Guard::Installed, Act::Remove { path }),
            (Guard::Always, Act::Say { text: "uninstalled "@ + path }),
        ],
    }
}

/// Runs `launchctl`.
fn launchctl(when: Guard, args: Vec<String>) -> (r: Step)
    ensures
        r@ == (when, launchctl_act(texts(args@))),
{
    let line = join_from(&args, 0, " ");
    assert(texts(args@).skip(0) =~= texts(args@));
    let description = concat("launchctl ", line.as_str());
    Step { when, deed: Deed::Run { program: "launchctl", args, description } }
}

/// Gives up with a message.
fn fail(when: Guard, message: &str) -> (r: Step)
    ensures
        r@ == (when, Act::Fail { message: message@ }),
{
    Step { when, deed: Deed::Fail { message: message.to_owned() } }
}

/// Unloads the agent where it is loaded, whatever comes of it.
fn bootout_if_loaded(target: &str) -> (r: Step)
    ensures
        r@ == (
            Guard::Loaded,
            Act::RunQuietly { program: "launchctl"@, args: seq!["bootout"@, target@] },
        ),
{
    Step {
        when: Guard::Loaded,
        deed: Deed::RunQuietly { program: "launchctl", args: words2("bootout", target) },
    }
}

/// The directory for a user's launchd agents.
fn launchd_user_dir(user_home: &str) -> (r: String)
    ensures
        r@ == agents_dir(user_home@),
{
    let library = join(user_home, "Library");
    join(library.as_str(), "LaunchAgents")
}

/// Lays out an action with launchd.
fn plan_launchd(action: ServiceAction, uid: &str, spec: &ServiceSpec) -> (r: Vec<Step>)
    ensures
        steps_view(r@) == launchd_steps(action, uid@, spec@),
{
    let dir = launchd_user_dir(spec.user_home.as_str());
    let name = concat(LAUNCHD_LABEL, ".plist");
    let path = join(dir.as_str(), name.as_str());
    let domain = concat("gui/", uid);
    let target = concat3(domain.as_str(), "/", LAUNCHD_LABEL);
    let mut steps: Vec<Step> = Vec::new();
    match action {
        ServiceAction::Install => {
            let content = render_launchd_plist(spec);
            steps.push(always(Deed::Write { dir, name, content }));
            steps.push(bootout_if_loaded(target.as_str()));
            steps.push(
                launchctl(
                    Guard::Always,
                    words3("bootstrap", domain.as_str(), path.as_str()),
                ),
            );
            steps.push(launchctl(Guard::Always, words2("enable", target.as_str())));
            steps.push(launchctl(Guard::Always, words3("kickstart", "-k", target.as_str())));
            let text = concat("installed and started ", path.as_str());
            steps.push(always(Deed::Say { text }));
        },
        ServiceAction::Start => {
            steps.push(fail(Guard::NeitherLoadedNorInstalled, NOT_INSTALLED));
            steps.push(
                launchctl(
                    Guard::NotLoaded,
                    words3("bootstrap", domain.as_str(), path.as_str()),
                ),
            );
            steps.push(launchctl(Guard::Always, words2("enable", target.as_str())));
            steps.push(launchctl(Guard::Always, words3("kickstart", "-k", target.as_str())));
        },
        ServiceAction::Stop => {
            steps.push(fail(Guard::NotLoaded, NOT_LOADED));
            steps.push(launchctl(Guard::Always, words2("bootout", target.as_str())));
        },
        ServiceAction::Restart => {
            steps.push(fail(Guard::NotInstalled, NOT_INSTALLED));
            steps.push(bootout_if_loaded(target.as_str()));
            steps.push(
                launchctl(
                    Guard::Always,
                    words3("bootstrap", domain.as_str(), path.as_str()),
                ),
            );
            steps.push(launchctl(Guard::Always, words2("enable", target.as_str())));
            steps.push(launchctl(Guard::Always, words3("kickstart", "-k", target.as_str())));
        },
        ServiceAction::Status => {
            steps.push(launchctl(Guard::Always, words2("print", target.as_str())));
        },
        ServiceAction::Uninstall => {
            steps.push(bootout_if_loaded(target.as_str()));
            steps.push(
                Step { when: Guard::Installed, deed: Deed::Remove { path: path.clone() } },
            );
            let text = concat("uninstalled ", path.as_str());
            steps.push(always(Deed::Say { text }));
        },
    }
    assert(steps_view(steps@) =~= launchd_steps(action, uid@, spec@));
    steps
}

/// The user's numeric identifier in what `id -u` printed, or what is wrong with it.
pub fn parse_uid(output: Vec<u8>) -> (r: Result<String, String>)
    ensures
        if !valid_utf8(output@) {
            r matches Err(m) && m@ == "id -u returned non-UTF-8 output"@
        } else {
            let uid = trimmed(decode_utf8(output@));
            if uid.len() == 0 {
                r matches Err(m) && m@ == "id -u returned an empty uid"@
            } else if !all_digits(uid) {
                r matches Err(m) && m@ == "id -u returned invalid uid "@ + debug_form(uid)
            } else {
                r matches Ok(s) && s@ == uid
            }
        },
{
    let text = match utf8_text(output) {
        Some(text) => text,
        None => {
            return Err("id -u returned non-UTF-8 output".to_owned());
        },
    };
    let uid = trim(text.as_str());
    if uid.as_str().is_empty() {
        return Err("id -u returned an empty uid".to_owned());
    }
    if !only_digits(uid.as_str()) {
        let shown = debug_text(uid.as_str());
        return Err(concat("id -u returned invalid uid ", shown.as_str()));
    }
    Ok(uid)
}

/// Whether the text is made of decimal digits.
fn only_digits(s: &str) -> (r: bool)
    ensures
        r == all_digits(s@),
{
    let v = chars_of(s);
    let mut i: usize = 0;
    while i < v.len()
        invariant
            i <= v@.len(),
            v@ == s@,
            forall|j: int| 0 <= j < i ==> is_digit(#[trigger] v@[j]),
        decreases v@.len() - i,
    {
        if !('0' <= v[i] && v[i] <= '9') {
            assert(!is_digit(s@[i as int]));
            return false;
        }
        i += 1;
    }
    true
}

/// What is said on systems without a supported service manager.
pub const UNSUPPORTED: &'static str =
    "pc service management currently supports Linux systemd and macOS launchd";

/// How an action is performed: its steps, where the service definition stands and, on macOS, the
/// target under which launchd knows the agent.
#[derive(Debug)]
pub struct Plan {
    pub steps: Vec<Step>,
    pub definition: String,
    pub target: Option<String>,
}

/// How an action is performed, as a mathematical value.
pub struct Layout {
    pub steps: Seq<(Guard, Act)>,
    pub definition: Seq<char>,
    pub target: Option<Seq<char>>,
}

impl View for Plan {
    type V = Layout;

    open spec fn view(&self) -> Layout {
        Layout {
            steps: steps_view(self.steps@),
            definition: self.definition@,
            target: self.target.deep_view(),
        }
    }
}

/// How an action is performed on the given host, or why it cannot be.
pub open spec fn planned(
    action: ServiceAction,
    explicit_home: Option<Seq<char>>,
    host: Host,
) -> Result<Layout, Seq<char>> {
    match resolved(host, explicit_home) {
        Err(m) => Err(m),
        Ok(s) => match host.platform {
            Platform::Linux => Ok(
                Layout {
                    steps: systemd_steps(action, unit_dir(host, s.user_home), s),
                    definition: joined_path(unit_dir(host, s.user_home), SYSTEMD_UNIT@),
                    target: None,
                },
            ),
            Platform::MacOs => match host.uid {
                Ok(uid) => Ok(
                    Layout {
                        steps: launchd_steps(action, uid@, s),
                        definition: joined_path(agents_dir(s.user_home), plist_name()),
                        target: Some(launchd_target(uid@)),
                    },
                ),
                Err(m) => Err(m@),
            },
            Platform::Other => Err(UNSUPPORTED@),
        },
    }
}

/// Lays out an action on the user service.
pub fn run(action: ServiceAction, explicit_home: &Option<String>, host: &Host) -> (r: Result<
    Plan,
    String,
>)
    ensures
        match planned(action, explicit_home.deep_view(), *host) {
            Ok(layout) => r matches Ok(plan) && plan@ == layout,
            Err(m) => r matches Err(e) && e@ == m,
        },
{
    let spec = match ServiceSpec::resolve(host, explicit_home) {
        Ok(spec) => spec,
        Err(m) => {
            return Err(m);
        },
    };
    match host.platform {
        Platform::Linux => {
            let dir = systemd_user_dir(host, spec.user_home.as_str());
            let steps = plan_systemd(action, dir.as_str(), &spec);
            let definition = join(dir.as_str(), SYSTEMD_UNIT);
            Ok(Plan { steps, definition, target: None })
        },
        Platform::MacOs => match &host.uid {
            Ok(uid) => {
                let steps = plan_launchd(action, uid.as_str(), &spec);
                let dir = launchd_user_dir(spec.user_home.as_str());
                let name = concat(LAUNCHD_LABEL, ".plist");
                let definition = join(dir.as_str(), name.as_str());
                let domain = concat("gui/", uid.as_str());
                let target = concat3(domain.as_str(), "/", LAUNCHD_LABEL);
                Ok(Plan { steps, definition, target: Some(target) })
            },
            Err(m) => Err(m.clone()),
        },
        Platform::Other => Err(UNSUPPORTED.to_owned()),
    }
}

/// Uninstalling removes the file that installing wrote, and that is the service definition.
pub proof fn lemma_uninstall_removes_what_install_wrote(
    explicit_home: Option<Seq<char>>,
    host: Host,
)
    requires
        planned(ServiceAction::Install, explicit_home, host) is Ok,
    ensures
        planned(ServiceAction::Uninstall, explicit_home, host) is Ok,
        ({
            let install = planned(ServiceAction::Install, explicit_home, host)->Ok_0;
            let uninstall = planned(ServiceAction::Uninstall, explicit_home, host)->Ok_0;
            &&& install.steps[0] matches (Guard::Always, Act::Write { dir, name, .. })
            &&& joined_path(dir, name) == install.definition
            &&& uninstall.steps[1] == (
                Guard::Installed,
                Act::Remove { path: install.definition },
            )
            &&& uninstall.definition == install.definition
        }),
{
}

// ---------------------------------------------------------------------------------------
// What is written, run and refused

/// Each variable of the environment has a line of its own in a unit, in the order of the
/// environment, with its name and its value escaped.
pub proof fn lemma_every_variable_is_in_the_unit(
    before: Seq<(Seq<char>, Seq<char>)>,
    name: Seq<char>,
    value: Seq<char>,
    after: Seq<(Seq<char>, Seq<char>)>,
)
    ensures
        unit_environment(Seq::empty()) == Seq::<char>::empty(),
        unit_environment(before + seq![(name, value)] + after) == unit_environment(before)
            + ("Environment=\""@ + escaped(Escape::Systemd, name) + "="@ + escaped(
            Escape::Systemd,
            value,
        ) + "\"\n"@) + unit_environment(after),
    decreases after.len(),
{
    let all = before + seq![(name, value)] + after;
    let (n, v) = (escaped(Escape::Systemd, name), escaped(Escape::Systemd, value));
    let head = unit_environment(before);
    let line = "Environment=\""@ + n + "="@ + v + "\"\n"@;
    if after.len() == 0 {
        assert(all.drop_last() =~= before);
        assert(all.last() == (name, value));
        lemma_regrouped(head, "Environment=\""@, n, "="@, v, "\"\n"@);
        assert(head + line + Seq::<char>::empty() =~= head + line);
    } else {
        let init = after.drop_last();
        lemma_every_variable_is_in_the_unit(before, name, value, init);
        assert(all.drop_last() =~= before + seq![(name, value)] + init);
        assert(all.last() == after.last());
        let (x, y) = (
            escaped(Escape::Systemd, after.last().0),
            escaped(Escape::Systemd, after.last().1),
        );
        let rest = unit_environment(init);
        lemma_regrouped(head + line + rest, "Environment=\""@, x, "="@, y, "\"\n"@);
        lemma_regrouped(rest, "Environment=\""@, x, "="@, y, "\"\n"@);
        let last = "Environment=\""@ + x + "="@ + y + "\"\n"@;
        assert(head + line + rest + last =~= head + line + (rest + last));
    }
}

/// Each variable of the environment has a key and a value in a property list, in the order of the
/// environment, both escaped.
pub proof fn lemma_every_variable_is_in_the_property_list(
    before: Seq<(Seq<char>, Seq<char>)>,
    name: Seq<char>,
    value: Seq<char>,
    after: Seq<(Seq<char>, Seq<char>)>,
)
    ensures
        plist_environment(Seq::empty()) == Seq::<char>::empty(),
        plist_environment(before + seq![(name, value)] + after) == plist_environment(before) + (
        "        <key>"@ + escaped(Escape::Xml, name) + "</key>\n        <string>"@ + escaped(
            Escape::Xml,
            value,
        ) + "</string>\n"@) + plist_environment(after),
    decreases after.len(),
{
    let all = before + seq![(name, value)] + after;
    let (n, v) = (escaped(Escape::Xml, name), escaped(Escape::Xml, value));
    let (k, m, e) = ("        <key>"@, "</key>\n        <string>"@, "</string>\n"@);
    let head = plist_environment(before);
    let entry = k + n + m + v + e;
    if after.len() == 0 {
        assert(all.drop_last() =~= before);
        assert(all.last() == (name, value));
        lemma_regrouped(head, k, n, m, v, e);
        assert(head + entry + Seq::<char>::empty() =~= head + entry);
    } else {
        let init = after.drop_last();
        lemma_every_variable_is_in_the_property_list(before, name, value, init);
        assert(all.drop_last() =~= before + seq![(name, value)] + init);
        assert(all.last() == after.last());
        let (x, y) = (
            escaped(Escape::Xml, after.last().0),
            escaped(Escape::Xml, after.last().1),
        );
        let rest = plist_environment(init);
        lemma_regrouped(head + entry + rest, k, x, m, y, e);
        lemma_regrouped(rest, k, x, m, y, e);
        let last = k + x + m + y + e;
        assert(head + entry + rest + last =~= head + entry + (rest + last));
    }
}

proof fn lemma_regrouped(
    head: Seq<char>,
    a: Seq<char>,
    b: Seq<char>,
    c: Seq<char>,
    d: Seq<char>,
    e: Seq<char>,
)
    ensures
        head + a + b + c + d + e == head + (a + b + c + d + e),
{
    assert(head + a + b =~= head + (a + b));
    assert(head + (a + b) + c =~= head + (a + b + c));
    assert(head + (a + b + c) + d =~= head + (a + b + c + d));
    assert(head + (a + b + c + d) + e =~= head + (a + b + c + d + e));
}

/// What a unit says: it runs the program in the home directory, with the environment, again after
/// a failure, and with the user's session.
pub proof fn lemma_what_a_unit_says(s: Service)
    ensures
        ({
            let head = "[Unit]\nDescription=pc MCP server\nAfter=network-online.target\nWants=network-online.target\n\n[Service]\nType=simple\n"@;
            let runs = "ExecStart=\""@ + escaped(Escape::Systemd, s.binary) + "\"\n"@;
            let place = "WorkingDirectory=\""@ + escaped(Escape::Systemd, s.user_home) + "\"\n"@;
            let again = "Restart=on-failure\nRestartSec=3\n"@;
            let wanted = "\n[Install]\nWantedBy=default.target\n"@;
            systemd_unit(s) == head + runs + place + again + unit_environment(s.environment)
                + wanted
        }),
        SYSTEMD_UNIT@ == "pc.service"@,
{
    reveal_strlit("[Unit]\nDescription=pc MCP server\nAfter=network-online.target\nWants=network-online.target\n\n[Service]\nType=simple\nExecStart=\"");
    reveal_strlit("[Unit]\nDescription=pc MCP server\nAfter=network-online.target\nWants=network-online.target\n\n[Service]\nType=simple\n");
    reveal_strlit("ExecStart=\"");
    reveal_strlit("\"\nWorkingDirectory=\"");
    reveal_strlit("\"\n");
    reveal_strlit("WorkingDirectory=\"");
    reveal_strlit("\"\nRestart=on-failure\nRestartSec=3\n");
    reveal_strlit("Restart=on-failure\nRestartSec=3\n");
    let start = "[Unit]\nDescription=pc MCP server\nAfter=network-online.target\nWants=network-online.target\n\n[Service]\nType=simple\nExecStart=\""@;
    let head = "[Unit]\nDescription=pc MCP server\nAfter=network-online.target\nWants=network-online.target\n\n[Service]\nType=simple\n"@;
    let binary = escaped(Escape::Systemd, s.binary);
    let home = escaped(Escape::Systemd, s.user_home);
    assert(start =~= head + "ExecStart=\""@);
    assert("\"\nWorkingDirectory=\""@ =~= "\"\n"@ + "WorkingDirectory=\""@);
    assert("\"\nRestart=on-failure\nRestartSec=3\n"@ =~= "\"\n"@
        + "Restart=on-failure\nRestartSec=3\n"@);
    assert(start + binary + "\"\nWorkingDirectory=\""@ + home
        + "\"\nRestart=on-failure\nRestartSec=3\n"@ =~= head + ("ExecStart=\""@ + binary
        + "\"\n"@) + ("WorkingDirectory=\""@ + home + "\"\n"@)
        + "Restart=on-failure\nRestartSec=3\n"@);
}

/// What a property list says: it runs the program in the home directory, with the environment,
/// when it is loaded and again after a failure.
pub proof fn lemma_what_a_property_list_says(s: Service)
    ensures
        launchd_plist(s) ==
            "<?xml version=\"1.0\" encoding=\"UTF-8\"?>\n<!DOCTYPE plist PUBLIC \"-//Apple//DTD PLIST 1.0//EN\" \"http://www.apple.com/DTDs/PropertyList-1.0.dtd\">\n<plist version=\"1.0\">\n<dict>\n    <key>Label</key>\n    <string>"@
            + "io.github.darkautism.pc"@
            + "</string>\n    <key>ProgramArguments</key>\n    <array>\n        <string>"@
            + escaped(Escape::Xml, s.binary)
            + "</string>\n    </array>\n    <key>WorkingDirectory</key>\n    <string>"@ + escaped(
            Escape::Xml,
            s.user_home,
        ) + "</string>\n    <key>EnvironmentVariables</key>\n    <dict>\n"@ + plist_environment(
            s.environment,
        )
            + "    </dict>\n    <key>RunAtLoad</key>\n    <true/>\n    <key>KeepAlive</key>\n    <dict>\n        <key>SuccessfulExit</key>\n        <false/>\n    </dict>\n    <key>ThrottleInterval</key>\n    <integer>3</integer>\n</dict>\n</plist>\n"@,
{
}

/// The environment of a service: the configuration directory and the search path always, and the
/// locations of development tools where they are set and not empty. The search path is that of
/// the user, or the platform's where the user has none.
pub proof fn lemma_environment_of_a_service(host: Host, pc_home: Seq<char>)
    ensures
        ({
            let env = environment_of(host, pc_home);
            let path = match host.path {
                Some(path) => path@,
                None => if host.platform == Platform::MacOs {
                    "/opt/homebrew/bin:/usr/local/bin:/usr/bin:/bin:/usr/sbin:/sbin"@
                } else {
                    "/usr/local/bin:/usr/bin:/bin"@
                },
            };
            let rustup = host.rustup_home matches Some(v) && v@.len() > 0;
            let cargo = host.cargo_home matches Some(v) && v@.len() > 0;
            let developer = host.developer_dir matches Some(v) && v@.len() > 0;
            let tools = (if rustup {
                seq![("RUSTUP_HOME"@, host.rustup_home->0@)]
            } else {
                Seq::empty()
            }) + (if cargo {
                seq![("CARGO_HOME"@, host.cargo_home->0@)]
            } else {
                Seq::empty()
            }) + (if developer {
                seq![("DEVELOPER_DIR"@, host.developer_dir->0@)]
            } else {
                Seq::empty()
            });
            env == seq![("PC_HOME"@, pc_home), ("PATH"@, path)] + tools
        }),
{
    let env = environment_of(host, pc_home);
    let path = match host.path.deep_view() {
        Some(path) => path,
        None => default_path(host.platform),
    };
    let base = seq![("PC_HOME"@, pc_home), ("PATH"@, path)];
    let nothing = Seq::<(Seq<char>, Seq<char>)>::empty();
    let a = with_entry(nothing, "RUSTUP_HOME"@, host.rustup_home.deep_view());
    let b = with_entry(nothing, "CARGO_HOME"@, host.cargo_home.deep_view());
    let c = with_entry(nothing, "DEVELOPER_DIR"@, host.developer_dir.deep_view());
    assert(env =~= base + (a + b + c));
}

/// Which values are refused: those with a line feed, a carriage return or a null character in
/// them, and no others. The first one is named.
pub proof fn lemma_which_values_are_refused(
    before: Seq<(Seq<char>, Seq<char>)>,
    name: Seq<char>,
    value: Seq<char>,
    after: Seq<(Seq<char>, Seq<char>)>,
)
    requires
        forall|i: int| #![trigger before[i]]
            0 <= i < before.len() ==> !before[i].1.contains('\n') && !before[i].1.contains('\r')
                && !before[i].1.contains('\0'),
    ensures
        first_control_problem(before, 0) is None,
        value.contains('\n') || value.contains('\r') || value.contains('\0')
            ==> first_control_problem(before + seq![(name, value)] + after, 0) == Some(
            name + " contains unsupported control characters"@,
        ),
{
    lemma_refused_from(before, name, value, after, 0);
}

proof fn lemma_refused_from(
    before: Seq<(Seq<char>, Seq<char>)>,
    name: Seq<char>,
    value: Seq<char>,
    after: Seq<(Seq<char>, Seq<char>)>,
    from: int,
)
    requires
        0 <= from <= before.len(),
        forall|i: int| #![trigger before[i]] 0 <= i < before.len() ==> !has_control(before[i].1),
    ensures
        first_control_problem(before, from) is None,
        has_control(value) ==> first_control_problem(before + seq![(name, value)] + after, from)
            == Some(control_problem(name)),
    decreases before.len() - from,
{
    let all = before + seq![(name, value)] + after;
    if from < before.len() {
        lemma_refused_from(before, name, value, after, from + 1);
        assert(all[from] == before[from]);
    } else {
        assert(all[from] == (name, value));
    }
}

/// What a service is resolved to: the program that is running, the home directory, and an
/// environment for the configuration directory, made absolute. Without any of them, and with a
/// value that does not fit on a line, there is none.
pub proof fn lemma_what_a_service_is_resolved_to(
    host: Host,
    explicit: Option<Seq<char>>,
    home: Seq<char>,
)
    ensures
        host.binary is None ==> resolved(host, explicit) == Err::<Service, Seq<char>>(
            "resolve current pc executable"@,
        ),
        host.binary is Some && (host.home is None || host.home->0@.len() == 0) ==> resolved(
            host,
            explicit,
        ) == Err::<Service, Seq<char>>("HOME is required for user service installation"@),
        host.binary is Some && host.home.deep_view() == Some(home) && home.len() > 0 ==> {
            let raw = match explicit {
                Some(dir) => dir,
                None => config_dir_in(home),
            };
            let rooted = raw.len() > 0 && raw[0] == '/';
            let pc_home = if rooted {
                raw
            } else {
                joined_path(host.current_dir->0@, raw)
            };
            let s = Service {
                binary: host.binary->0@,
                user_home: home,
                environment: environment_of(host, pc_home),
            };
            let values = seq![
                ("pc executable"@, s.binary),
                ("PC_HOME"@, pc_home),
                ("HOME"@, s.user_home),
            ] + s.environment;
            &&& !rooted && host.current_dir is None ==> resolved(host, explicit) == Err::<
                Service,
                Seq<char>,
            >("resolve current directory"@)
            &&& rooted || host.current_dir is Some ==> {
                &&& first_control_problem(values, 0) is None ==> resolved(host, explicit) == Ok::<
                    Service,
                    Seq<char>,
                >(s)
                &&& first_control_problem(values, 0) matches Some(m) ==> resolved(host, explicit)
                    == Err::<Service, Seq<char>>(m)
            }
        },
{
}

proof fn lemma_two_words(a: Seq<char>, b: Seq<char>)
    ensures
        joined(seq![a, b], " "@) == a + " "@ + b,
        seq!["--user"@] + seq![a, b] == seq!["--user"@, a, b],
{
    reveal_with_fuel(joined, 2);
    assert(seq![a, b].drop_last() =~= seq![a]);
    assert(seq!["--user"@] + seq![a, b] =~= seq!["--user"@, a, b]);
}

proof fn lemma_three_words(a: Seq<char>, b: Seq<char>, c: Seq<char>)
    ensures
        joined(seq![a, b, c], " "@) == a + " "@ + b + " "@ + c,
        seq!["--user"@] + seq![a, b, c] == seq!["--user"@, a, b, c],
{
    lemma_two_words(a, b);
    assert(seq![a, b, c].drop_last() =~= seq![a, b]);
    assert(seq!["--user"@] + seq![a, b, c] =~= seq!["--user"@, a, b, c]);
}

/// What is run to start, stop, restart and show the service with systemd: one command each, on the
/// one unit, for the user's services.
pub proof fn lemma_commands_for_systemd(dir: Seq<char>, s: Service)
    ensures
        systemd_steps(ServiceAction::Start, dir, s) == seq![
            (
                Guard::Always,
                Act::Run {
                    program: "systemctl"@,
                    args: seq!["--user"@, "start"@, "pc.service"@],
                    description: "systemctl --user "@ + ("start"@ + " "@ + "pc.service"@),
                },
            ),
        ],
        systemd_steps(ServiceAction::Stop, dir, s) == seq![
            (
                Guard::Always,
                Act::Run {
                    program: "systemctl"@,
                    args: seq!["--user"@, "stop"@, "pc.service"@],
                    description: "systemctl --user "@ + ("stop"@ + " "@ + "pc.service"@),
                },
            ),
        ],
        systemd_steps(ServiceAction::Restart, dir, s) == seq![
            (
                Guard::Always,
                Act::Run {
                    program: "systemctl"@,
                    args: seq!["--user"@, "restart"@, "pc.service"@],
                    description: "systemctl --user "@ + ("restart"@ + " "@ + "pc.service"@),
                },
            ),
        ],
        systemd_steps(ServiceAction::Status, dir, s) == seq![
            (
                Guard::Always,
                Act::Run {
                    program: "systemctl"@,
                    args: seq!["--user"@, "status"@, "--no-pager"@, "--full"@, "pc.service"@],
                    description: "systemctl --user "@ + ("status"@ + " "@ + "--no-pager"@ + " "@
                        + "--full"@ + " "@ + "pc.service"@),
                },
            ),
        ],
{
    let unit = "pc.service"@;
    lemma_two_words("start"@, unit);
    lemma_two_words("stop"@, unit);
    lemma_two_words("restart"@, unit);
    lemma_three_words("status"@, "--no-pager"@, "--full"@);
    let four = seq!["status"@, "--no-pager"@, "--full"@, unit];
    assert(four.drop_last() =~= seq!["status"@, "--no-pager"@, "--full"@]);
    assert(seq!["--user"@] + four =~= seq![
        "--user"@,
        "status"@,
        "--no-pager"@,
        "--full"@,
        unit,
    ]);
}

/// What is done to install and to uninstall the service with systemd. Installing writes the unit
/// before anything is run, and uninstalling stops the service before its unit is removed.
pub proof fn lemma_installing_with_systemd(dir: Seq<char>, s: Service)
    ensures
        ({
            let path = joined_path(dir, "pc.service"@);
            let reload = Act::Run {
                program: "systemctl"@,
                args: seq!["--user"@, "daemon-reload"@],
                description: "systemctl --user "@ + "daemon-reload"@,
            };
            &&& systemd_steps(ServiceAction::Install, dir, s) == seq![
                (
                    Guard::Always,
                    Act::Write { dir, name: "pc.service"@, content: systemd_unit(s) },
                ),
                (Guard::Always, reload),
                (
                    Guard::Always,
                    Act::Run {
                        program: "systemctl"@,
                        args: seq!["--user"@, "enable"@, "--now"@, "pc.service"@],
                        description: "systemctl --user "@ + ("enable"@ + " "@ + "--now"@ + " "@
                            + "pc.service"@),
                    },
                ),
                (Guard::Always, Act::Say { text: "installed and started "@ + path }),
            ]
            &&& systemd_steps(ServiceAction::Uninstall, dir, s) == seq![
                (
                    Guard::Always,
                    Act::RunQuietly {
                        program: "systemctl"@,
                        args: seq!["--user"@, "disable"@, "--now"@, "pc.service"@],
                    },
                ),
                (Guard::Installed, Act::Remove { path }),
                (Guard::Always, reload),
                (
                    Guard::Always,
                    Act::RunQuietly {
                        program: "systemctl"@,
                        args: seq!["--user"@, "reset-failed"@, "pc.service"@],
                    },
                ),
                (Guard::Always, Act::Say { text: "uninstalled "@ + path }),
            ]
        }),
{
    let unit = "pc.service"@;
    lemma_two_words("reset-failed"@, unit);
    lemma_three_words("enable"@, "--now"@, unit);
    lemma_three_words("disable"@, "--now"@, unit);
    assert(joined(seq!["daemon-reload"@], " "@) == "daemon-reload"@);
    assert(seq!["--user"@] + seq!["daemon-reload"@] =~= seq!["--user"@, "daemon-reload"@]);
}

/// What is done with launchd, for the agent of the user. A service that is loaded is unloaded
/// before it is loaded anew, and one that is not installed is neither started nor restarted.
pub proof fn lemma_commands_for_launchd(uid: Seq<char>, s: Service)
    ensures
        ({
            let dir = joined_path(joined_path(s.user_home, "Library"@), "LaunchAgents"@);
            let name = "io.github.darkautism.pc"@ + ".plist"@;
            let path = joined_path(dir, name);
            let domain = "gui/"@ + uid;
            let target = "gui/"@ + uid + "/"@ + "io.github.darkautism.pc"@;
            let unload = Act::RunQuietly {
                program: "launchctl"@,
                args: seq!["bootout"@, target],
            };
            let load = Act::Run {
                program: "launchctl"@,
                args: seq!["bootstrap"@, domain, path],
                description: "launchctl "@ + ("bootstrap"@ + " "@ + domain + " "@ + path),
            };
            let enable = Act::Run {
                program: "launchctl"@,
                args: seq!["enable"@, target],
                description: "launchctl "@ + ("enable"@ + " "@ + target),
            };
            let kick = Act::Run {
                program: "launchctl"@,
                args: seq!["kickstart"@, "-k"@, target],
                description: "launchctl "@ + ("kickstart"@ + " "@ + "-k"@ + " "@ + target),
            };
            &&& launchd_steps(ServiceAction::Install, uid, s) == seq![
                (Guard::Always, Act::Write { dir, name, content: launchd_plist(s) }),
                (Guard::Loaded, unload),
                (Guard::Always, load),
                (Guard::Always, enable),
                (Guard::Always, kick),
                (Guard::Always, Act::Say { text: "installed and started "@ + path }),
            ]
            &&& launchd_steps(ServiceAction::Start, uid, s) == seq![
                (
                    Guard::NeitherLoadedNorInstalled,
                    Act::Fail {
                        message: "pc service is not installed; run 'pc service install'"@,
                    },
                ),
                (Guard::NotLoaded, load),
                (Guard::Always, enable),
                (Guard::Always, kick),
            ]
            &&& launchd_steps(ServiceAction::Stop, uid, s) == seq![
                (
                    Guard::NotLoaded,
                    Act::Fail { message: "pc service is not running or loaded"@ },
                ),
                (
                    Guard::Always,
                    Act::Run {
                        program: "launchctl"@,
                        args: seq!["bootout"@, target],
                        description: "launchctl "@ + ("bootout"@ + " "@ + target),
                    },
                ),
            ]
            &&& launchd_steps(ServiceAction::Restart, uid, s) == seq![
                (
                    Guard::NotInstalled,
                    Act::Fail {
                        message: "pc service is not installed; run 'pc service install'"@,
                    },
                ),
                (Guard::Loaded, unload),
                (Guard::Always, load),
                (Guard::Always, enable),
                (Guard::Always, kick),
            ]
            &&& launchd_steps(ServiceAction::Status, uid, s) == seq![
                (
                    Guard::Always,
                    Act::Run {
                        program: "launchctl"@,
                        args: seq!["print"@, target],
                        description: "launchctl "@ + ("print"@ + " "@ + target),
                    },
                ),
            ]
            &&& launchd_steps(ServiceAction::Uninstall, uid, s) == seq![
                (Guard::Loaded, unload),
                (Guard::Installed, Act::Remove { path }),
                (Guard::Always, Act::Say { text: "uninstalled "@ + path }),
            ]
        }),
{
    let target = launchd_target(uid);
    let path = joined_path(agents_dir(s.user_home), plist_name());
    lemma_three_words("bootstrap"@, launchd_domain(uid), path);
    lemma_two_words("enable"@, target);
    lemma_three_words("kickstart"@, "-k"@, target);
    lemma_two_words("bootout"@, target);
    lemma_two_words("print"@, target);
}

/// Where the definition of a service goes: into the directory for the user's units on Linux, which
/// `XDG_CONFIG_HOME` may move, and into the user's agents on macOS. Elsewhere, and without a
/// service, nothing is planned.
pub proof fn lemma_where_a_service_is_defined(
    action: ServiceAction,
    explicit: Option<Seq<char>>,
    host: Host,
)
    ensures
        ({
            let plan = planned(action, explicit, host);
            match resolved(host, explicit) {
                Err(m) => plan == Err::<Layout, Seq<char>>(m),
                Ok(s) => {
                    let moved = host.xdg_config_home matches Some(d) && d@.len() > 0;
                    let config = if moved {
                        host.xdg_config_home->0@
                    } else {
                        joined_path(s.user_home, ".config"@)
                    };
                    let units = joined_path(joined_path(config, "systemd"@), "user"@);
                    let agents = joined_path(joined_path(s.user_home, "Library"@), "LaunchAgents"@);
                    &&& host.platform == Platform::Linux ==> plan == Ok::<Layout, Seq<char>>(
                        Layout {
                            steps: systemd_steps(action, units, s),
                            definition: joined_path(units, "pc.service"@),
                            target: None,
                        },
                    )
                    &&& host.platform == Platform::MacOs ==> match host.uid {
                        Err(m) => plan == Err::<Layout, Seq<char>>(m@),
                        Ok(uid) => plan == Ok::<Layout, Seq<char>>(
                            Layout {
                                steps: launchd_steps(action, uid@, s),
                                definition: joined_path(
                                    agents,
                                    "io.github.darkautism.pc"@ + ".plist"@,
                                ),
                                target: Some(
                                    "gui/"@ + uid@ + "/"@ + "io.github.darkautism.pc"@,
                                ),
                            },
                        ),
                    }
                    &&& host.platform == Platform::Other ==> plan is Err
                },
            }
        }),
{
}

/// What a plan and its steps stand for, one for one.
pub proof fn lemma_what_a_plan_says(
    spec: ServiceSpec,
    plan: Plan,
    step: Step,
    i: int,
    a: String,
    b: String,
    c: String,
    program: &'static str,
    args: Vec<String>,
)
    ensures
        spec@.binary == spec.binary@,
        spec@.user_home == spec.user_home@,
        spec@.environment == pairs(spec.environment@),
        plan@.definition == plan.definition@,
        plan@.target == plan.target.deep_view(),
        plan@.steps.len() == plan.steps@.len(),
        0 <= i < plan.steps@.len() ==> plan@.steps[i] == plan.steps@[i]@,
        step@ == (step.when, act_of(step.deed)),
        act_of(Deed::Write { dir: a, name: b, content: c }) == (Act::Write {
            dir: a@,
            name: b@,
            content: c@,
        }),
        act_of(Deed::Run { program, args, description: a }) == (Act::Run {
            program: program@,
            args: texts(args@),
            description: a@,
        }),
        act_of(Deed::RunQuietly { program, args }) == (Act::RunQuietly {
            program: program@,
            args: texts(args@),
        }),
        act_of(Deed::Remove { path: a }) == (Act::Remove { path: a@ }),
        act_of(Deed::Say { text: a }) == (Act::Say { text: a@ }),
        act_of(Deed::Fail { message: a }) == (Act::Fail { message: a@ }),
{
}

} // verus!
