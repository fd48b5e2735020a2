//! Running shell commands.
//!
//! A command that takes longer than a moment goes on in the background, with its output in a
//! log. Its process can be looked at later under its identifier.

use vstd::prelude::*;

use crate::config::SecurityMode;
use crate::outside::hyphenated_text;
use crate::outside::hyphenated_uuid;
use crate::paths::join;
use crate::paths::joined_path;
use crate::text::concat;
use crate::text::decimal;
use crate::text::numeral;
use crate::text::signed_decimal;
use crate::text::signed_numeral;
use crate::tools::access::disabled;
use crate::tools::access::ensure_writable;
use crate::tools::logs::is_log_name;
use crate::tools::registry::running;
use crate::tools::registry::ProcessEntry;
use crate::tools::registry::ProcessState;

verus! {

/// How long a call waits for a command to end, in seconds.
pub const SYNC_WAIT_SECS: u64 = 2;

/// The arguments of the bash tool: a command to run or a process to look at.
#[derive(Debug)]
pub struct BashParams {
    pub command: Option<String>,
    pub pid: Option<u32>,
}

/// What the bash tool reports.
#[derive(Debug)]
pub struct BashResult {
    pub status: &'static str,
    pub pid: u32,
    pub exit_code: Option<i32>,
    pub output: String,
    pub full_output_path: Option<String>,
    pub truncated: bool,
    pub instruction: Option<&'static str>,
}

/// What a caller wants of the bash tool.
#[derive(Debug)]
pub enum BashRequest {
    /// Run a command.
    Start(String),
    /// Look at a process.
    Attach(u32),
}

/// The message where not exactly one argument is given.
pub const ONE_ARGUMENT: &'static str = "provide exactly one of command or pid";

/// What a caller wants, or why the call is refused.
pub fn bash_request(mode: SecurityMode, input: BashParams) -> (r: Result<BashRequest, String>)
    ensures
        if mode == SecurityMode::Readonly {
            r matches Err(m) && m@ == disabled("bash"@)
        } else {
            match (input.command, input.pid) {
                (Some(c), None) => r == Ok::<BashRequest, String>(BashRequest::Start(c)),
                (None, Some(p)) => r == Ok::<BashRequest, String>(BashRequest::Attach(p)),
                _ => r matches Err(m) && m@ == ONE_ARGUMENT@,
            }
        },
{
    match ensure_writable(mode, "bash") {
        Ok(()) => {},
        Err(m) => {
            return Err(m);
        },
    }
    match (input.command, input.pid) {
        (Some(command), None) => Ok(BashRequest::Start(command)),
        (None, Some(pid)) => Ok(BashRequest::Attach(pid)),
        _ => Err(ONE_ARGUMENT.to_owned()),
    }
}

/// The program and the arguments that run a command.
#[derive(Debug)]
pub struct ShellCommand {
    pub program: &'static str,
    pub args: Vec<String>,
}

/// The arguments that run a command in the host's shell.
pub open spec fn shell_args(windows: bool, command: Seq<char>) -> Seq<Seq<char>> {
    if windows {
        seq!["/D"@, "/S"@, "/C"@, command]
    } else {
        seq!["-lc"@, command]
    }
}

/// The host's shell.
pub open spec fn shell_program(windows: bool) -> Seq<char> {
    if windows {
        "cmd.exe"@
    } else {
        "bash"@
    }
}

/// How a command is run in the host's shell: Bash on Unix and `cmd.exe` on Windows.
pub fn native_shell_command(command: &str, windows: bool) -> (r: ShellCommand)
    ensures
        r.program@ == shell_program(windows),
        crate::text::texts(r.args@) == shell_args(windows, command@),
{
    let mut args: Vec<String> = Vec::new();
    if windows {
        args.push("/D".to_owned());
        args.push("/S".to_owned());
        args.push("/C".to_owned());
        args.push(command.to_owned());
        assert(crate::text::texts(args@) =~= shell_args(windows, command@));
        ShellCommand { program: "cmd.exe", args }
    } else {
        args.push("-lc".to_owned());
        args.push(command.to_owned());
        assert(crate::text::texts(args@) =~= shell_args(windows, command@));
        ShellCommand { program: "bash", args }
    }
}

/// The directory for command logs in a directory for temporary files.
pub open spec fn tasks_in(temp: Seq<char>) -> Seq<char> {
    joined_path(joined_path(temp, "pc"@), "tasks"@)
}

/// The directory for command logs: in the sandbox's own directory for temporary files where
/// there is a sandbox, else in the host's.
pub fn task_log_dir(sandbox_temp: &Option<String>, host_temp: &str) -> (r: String)
    ensures
        r@ == tasks_in(
            match sandbox_temp.deep_view() {
                Some(dir) => dir,
                None => host_temp@,
            },
        ),
{
    let temp = match sandbox_temp {
        Some(dir) => dir.as_str(),
        None => host_temp,
    };
    let pc = join(temp, "pc");
    join(pc.as_str(), "tasks")
}

/// A name for the log of a new command.
pub fn new_log_name() -> (r: String)
    ensures
        exists|id: Seq<char>| hyphenated_text(id) && r@ == #[trigger] (id + ".log"@),
        is_log_name(r@),
{
    let id = hyphenated_uuid();
    let r = concat(id.as_str(), ".log");
    proof {
        reveal_strlit(".log");
        assert(r@ == id@ + ".log"@);
        assert(r@.skip(r@.len() - 4) =~= ".log"@);
    }
    r
}

/// A command that has just been started.
pub fn new_entry(pid: u32, log_path: String) -> (r: ProcessEntry)
    ensures
        r.pid == pid,
        r.log_path == log_path,
        r.visible_log_path == log_path,
        r.state == running(),
{
    let visible_log_path = log_path.clone();
    ProcessEntry {
        pid,
        log_path,
        visible_log_path,
        state: ProcessState { finished: false, exit_code: None },
    }
}

pub const STATUS_RUNNING: &'static str = "running";

pub const STATUS_EXITED: &'static str = "exited";

/// What a caller is told while a command is running.
pub const STILL_RUNNING: &'static str =
    "Still running. Continue other work and attach this pid later.";

/// What the bash tool reports of a process and the end of its log.
pub fn process_result(entry: &ProcessEntry, output: String, truncated: bool) -> (r: BashResult)
    ensures
        r.pid == entry.pid,
        r.output == output,
        r.full_output_path == Some(entry.visible_log_path),
        r.truncated == truncated,
        if entry.state.finished {
            r.status@ == STATUS_EXITED@ && r.exit_code == entry.state.exit_code && r.instruction is None
        } else {
            r.status@ == STATUS_RUNNING@ && r.exit_code is None && (r.instruction matches Some(i)
                && i@ == STILL_RUNNING@)
        },
{
    if entry.state.finished {
        BashResult {
            status: STATUS_EXITED,
            pid: entry.pid,
            exit_code: entry.state.exit_code,
            output,
            full_output_path: Some(entry.visible_log_path.clone()),
            truncated,
            instruction: None,
        }
    } else {
        BashResult {
            status: STATUS_RUNNING,
            pid: entry.pid,
            exit_code: None,
            output,
            full_output_path: Some(entry.visible_log_path.clone()),
            truncated,
            instruction: Some(STILL_RUNNING),
        }
    }
}

/// The exit code in a summary.
pub open spec fn exit_part(exit_code: Option<i32>) -> Seq<char> {
    match exit_code {
        Some(code) => " exit_code="@ + signed_numeral(code as int),
        None => Seq::<char>::empty(),
    }
}

/// The one line that sums up a report. The output itself is not in it.
pub open spec fn summary_of(
    status: Seq<char>,
    pid: u32,
    exit_code: Option<i32>,
    path: Option<Seq<char>>,
) -> Seq<char> {
    status + " pid="@ + numeral(pid as nat) + exit_part(exit_code) + " log="@ + (match path {
        Some(p) => p,
        None => "-"@,
    })
}

/// The one line that sums up a report.
pub fn bash_summary(value: &BashResult) -> (r: String)
    ensures
        r@ == summary_of(
            value.status@,
            value.pid,
            value.exit_code,
            value.full_output_path.deep_view(),
        ),
{
    let mut out = value.status.to_owned();
    out.push_str(" pid=");
    let pid = decimal(value.pid as u64);
    out.push_str(pid.as_str());
    let ghost before = out@;
    match value.exit_code {
        Some(code) => {
            let code = signed_decimal(code);
            out.push_str(" exit_code=");
            out.push_str(code.as_str());
        },
        None => {},
    }
    assert(out@ =~= before + exit_part(value.exit_code));
    out.push_str(" log=");
    match &value.full_output_path {
        Some(path) => out.push_str(path.as_str()),
        None => out.push_str("-"),
    }
    out
}

/// How a command is run: it is handed to the shell whole, as the last argument, behind the
/// options of that shell.
pub proof fn lemma_how_a_command_is_run(command: Seq<char>)
    ensures
        shell_program(false) == "bash"@,
        shell_args(false, command) == seq!["-lc"@, command],
        shell_program(true) == "cmd.exe"@,
        shell_args(true, command) == seq!["/D"@, "/S"@, "/C"@, command],
{
}

/// Where the logs of commands are: in `pc/tasks` in the directory for temporary files.
pub proof fn lemma_where_logs_are(temp: Seq<char>)
    requires
        temp.len() > 0,
        temp.last() != '/',
    ensures
        tasks_in(temp) == temp + "/pc/tasks"@,
{
    reveal_strlit("pc");
    reveal_strlit("tasks");
    reveal_strlit("/");
    reveal_strlit("/pc/tasks");
    let pc = temp + "/"@ + "pc"@;
    assert(pc.last() == 'c');
    assert(pc + "/"@ + "tasks"@ =~= temp + "/pc/tasks"@);
}

/// What a report is summed up as: how the process is, its identifier, how it ended where that is
/// known, and where its log is.
pub proof fn lemma_summary(status: Seq<char>, pid: u32, code: i32, path: Seq<char>)
    ensures
        summary_of(status, pid, Some(code), Some(path)) == status + " pid="@ + numeral(pid as nat)
            + " exit_code="@ + signed_numeral(code as int) + " log="@ + path,
        summary_of(status, pid, None, Some(path)) == status + " pid="@ + numeral(pid as nat)
            + " log="@ + path,
        summary_of(status, pid, None, None) == status + " pid="@ + numeral(pid as nat) + " log="@
            + "-"@,
        summary_of(status, pid, Some(code), None) == status + " pid="@ + numeral(pid as nat)
            + " exit_code="@ + signed_numeral(code as int) + " log="@ + "-"@,
{
    let head = status + " pid="@ + numeral(pid as nat);
    let exit = signed_numeral(code as int);
    assert(head + Seq::<char>::empty() =~= head);
    assert(head + (" exit_code="@ + exit) =~= head + " exit_code="@ + exit);
}

/// What a process is said to be, and how long a call waits for a command: two seconds.
pub proof fn lemma_words_for_processes()
    ensures
        STATUS_RUNNING@ == "running"@,
        STATUS_EXITED@ == "exited"@,
        SYNC_WAIT_SECS == 2,
        ONE_ARGUMENT@ == "provide exactly one of command or pid"@,
        STILL_RUNNING@ == "Still running. Continue other work and attach this pid later."@,
{
}

} // verus!
