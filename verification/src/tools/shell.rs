//! The `run_command` tool: a shell command run with its working directory under
//! the workspace root.
//!
//! The working directory is confined to the workspace; the command itself is not:
//! it is arbitrary code. The library checks the arguments and the directory and
//! writes the answer; the caller runs the process, waits at most
//! [`DEFAULT_TIMEOUT_SECS`] seconds, and hands in what it printed.

use vstd::prelude::*;

use crate::error::{is_failure, is_invalid_args, ToolError};
use crate::json::{entries_model, items_model, Json, JsonValue};
use crate::text::{decimal_text, push_decimal, trim, trim_spec};
use crate::tool::{ToolSchema, ToolSchemaModel};
use crate::tools::fs::{
    lexical_target, string_property, within, EntryKind, FsConfig, Probe, Resolved, MAX_READ_BYTES,
};

verus! {

/// Wall-clock limit of one command, in seconds.
pub const DEFAULT_TIMEOUT_SECS: u64 = 120;

/// Bytes kept of each output stream; the same limit as [`MAX_READ_BYTES`].
pub const MAX_OUTPUT_BYTES: usize = MAX_READ_BYTES;

/// Runs shell commands in the workspace.
#[derive(Debug)]
pub struct RunCommand {
    config: FsConfig,
}

/// The arguments of a `run_command` call.
#[derive(Debug)]
pub struct CommandArgs {
    pub command: String,
    pub cwd: String,
}

/// The command and working directory a call gives, or the message refusing it:
/// the command, trimmed, must not be empty; the directory, trimmed, defaults to `.`.
pub open spec fn command_arguments(args: Json) -> Result<(Seq<char>, Seq<char>), Seq<char>> {
    match args.str_field("command"@) {
        None => Err("missing or empty required field: command"@),
        Some(c) => if trim_spec(c).len() == 0 {
            Err("missing or empty required field: command"@)
        } else {
            let cwd = match args.str_field("cwd"@) {
                Some(d) => if trim_spec(d).len() == 0 {
                    "."@
                } else {
                    trim_spec(d)
                },
                None => "."@,
            };
            Ok((trim_spec(c), cwd))
        },
    }
}

/// How `String::from_utf8_lossy` reads bytes: invalid sequences become U+FFFD.
pub uninterp spec fn lossy_text(bytes: Seq<u8>) -> Seq<char>;

/// `String::from_utf8_lossy`. Valid UTF-8 is read as it is.
#[verifier::external_body]
fn utf8_lossy(bytes: &[u8]) -> (r: String)
    ensures
        r@ == lossy_text(bytes@),
        vstd::utf8::valid_utf8(bytes@) ==> r@ == vstd::utf8::decode_utf8(bytes@),
{
    String::from_utf8_lossy(bytes).into_owned()
}

/// One output stream as shown: the first `limit` bytes read leniently as UTF-8,
/// with a notice when more was printed.
pub open spec fn stream_text(bytes: Seq<u8>, limit: nat) -> Seq<char> {
    if bytes.len() <= limit {
        lossy_text(bytes)
    } else {
        lossy_text(bytes.take(limit as int)) + "\n[truncated at "@ + decimal_text(limit)
            + " bytes]"@
    }
}

/// The decimal numeral of an integer, with `-` when negative.
pub open spec fn int_text(n: int) -> Seq<char> {
    if n < 0 {
        seq!['-'] + decimal_text((-n) as nat)
    } else {
        decimal_text(n as nat)
    }
}

/// The answer for a command that finished: its exit code (`null` when a signal
/// ended it), then both streams.
pub open spec fn output_text(exit_code: Option<i32>, stdout: Seq<char>, stderr: Seq<char>) -> Seq<
    char,
> {
    let code = match exit_code {
        Some(c) => int_text(c as int),
        None => "null"@,
    };
    "exit_code: "@ + code + "\nstdout:\n"@ + stdout + "\nstderr:\n"@ + stderr
}

/// The answer for a command killed at the time limit.
pub open spec fn timed_out_text(stdout: Seq<u8>, stderr: Seq<u8>) -> Seq<char> {
    "exit_code: null\ntimed_out: true\nstdout:\n"@ + stream_text(stdout, MAX_OUTPUT_BYTES as nat)
        + "\nstderr:\n"@ + stream_text(stderr, MAX_OUTPUT_BYTES as nat)
}

/// One output stream as shown: at most `limit` bytes, read leniently as UTF-8,
/// and a notice when the stream was longer.
pub fn truncate_stream(bytes: &[u8], limit: usize) -> (r: String)
    ensures
        r@ == stream_text(bytes@, limit as nat),
{
    if bytes.len() <= limit {
        return utf8_lossy(bytes);
    }
    let (head, _) = bytes.split_at(limit);
    let mut text = utf8_lossy(head);
    text.append("\n[truncated at ");
    push_decimal(&mut text, limit as u64);
    text.append(" bytes]");
    text
}

fn push_int(s: &mut String, n: i32)
    ensures
        final(s)@ == old(s)@ + int_text(n as int),
{
    proof {
        reveal_strlit("-");
    }
    if n < 0 {
        s.append("-");
        let m: i64 = -(n as i64);
        push_decimal(s, m as u64);
        assert(final(s)@ =~= old(s)@ + int_text(n as int));
    } else {
        push_decimal(s, n as u64);
    }
}

/// The answer for a finished command: exit code and both streams.
pub fn format_output(exit_code: Option<i32>, stdout: &str, stderr: &str) -> (r: String)
    ensures
        r@ == output_text(exit_code, stdout@, stderr@),
{
    let mut out = String::from_str("exit_code: ");
    match exit_code {
        Some(code) => push_int(&mut out, code),
        None => out.append("null"),
    }
    out.append("\nstdout:\n");
    out.append(stdout);
    out.append("\nstderr:\n");
    out.append(stderr);
    out
}

/// The answer for a command killed at the time limit.
pub fn format_timed_out(stdout: &[u8], stderr: &[u8]) -> (r: String)
    ensures
        r@ == timed_out_text(stdout@, stderr@),
{
    let mut out = String::from_str("exit_code: null\ntimed_out: true\nstdout:\n");
    let o = truncate_stream(stdout, MAX_OUTPUT_BYTES);
    out.append(o.as_str());
    out.append("\nstderr:\n");
    let e = truncate_stream(stderr, MAX_OUTPUT_BYTES);
    out.append(e.as_str());
    out
}

/// The tool error for a process that could not be started: the I/O error's
/// message, as execution failure.
pub fn map_spawn_error(message: String) -> (e: ToolError)
    ensures
        e == ToolError::ExecutionFailed(message),
{
    ToolError::ExecutionFailed(message)
}

/// The parameters schema of `run_command`.
pub open spec fn command_parameters() -> Json {
    Json::Object(
        seq![
            ("type"@, Json::Str("object"@)),
            (
                "properties"@,
                Json::Object(
                    seq![
                        (
                            "command"@,
                            Json::Object(
                                seq![
                                    ("type"@, Json::Str("string"@)),
                                    (
                                        "description"@,
                                        Json::Str(
                                            "Shell command string, e.g. \"cargo test\" or \"dir /b\""@,
                                        ),
                                    ),
                                ],
                            ),
                        ),
                        (
                            "cwd"@,
                            Json::Object(
                                seq![
                                    ("type"@, Json::Str("string"@)),
                                    (
                                        "description"@,
                                        Json::Str(
                                            "Working directory relative to workspace root. Default \".\""@,
                                        ),
                                    ),
                                ],
                            ),
                        ),
                    ],
                ),
            ),
            ("required"@, Json::Array(seq![Json::Str("command"@)])),
        ],
    )
}

impl View for RunCommand {
    type V = Seq<char>;

    /// The workspace root.
    closed spec fn view(&self) -> Seq<char> {
        self.config@
    }
}

impl RunCommand {
    pub fn new(config: FsConfig) -> (r: RunCommand)
        ensures
            r@ == config@,
    {
        RunCommand { config }
    }

    /// The workspace the commands run in.
    pub fn config(&self) -> (r: &FsConfig)
        ensures
            r@ == self@,
    {
        &self.config
    }

    /// The declaration handed to the model: `run_command`, taking a `command`
    /// and an optional `cwd`.
    pub fn schema(&self) -> (r: ToolSchema)
        ensures
            r@ == (ToolSchemaModel {
                name: "run_command"@,
                description: "Run a shell command in the workspace. Uses sh on Unix and cmd on Windows. Returns exit_code, stdout, and stderr."@,
                parameters: command_parameters(),
            }),
    {
        let command = string_property("Shell command string, e.g. \"cargo test\" or \"dir /b\"");
        let cwd = string_property("Working directory relative to workspace root. Default \".\"");
        let props = vec![JsonValue::entry("command", command), JsonValue::entry("cwd", cwd)];
        assert(entries_model(props@) =~= seq![("command"@, command@), ("cwd"@, cwd@)]);
        let properties = JsonValue::object(props);
        let req = vec![JsonValue::string("command")];
        assert(items_model(req@) =~= seq![Json::Str("command"@)]);
        let required = JsonValue::array(req);
        let entries = vec![
            JsonValue::entry("type", JsonValue::string("object")),
            JsonValue::entry("properties", properties),
            JsonValue::entry("required", required),
        ];
        assert(entries_model(entries@) =~= seq![
            ("type"@, Json::Str("object"@)),
            ("properties"@, properties@),
            ("required"@, required@),
        ]);
        ToolSchema {
            name: String::from_str("run_command"),
            description: String::from_str(
                "Run a shell command in the workspace. Uses sh on Unix and cmd on Windows. Returns exit_code, stdout, and stderr.",
            ),
            parameters: JsonValue::object(entries),
        }
    }

    /// The command and working directory of a call.
    pub fn parse_args(args: &JsonValue) -> (r: Result<CommandArgs, ToolError>)
        ensures
            match r {
                Ok(a) => command_arguments(args@) == Ok::<(Seq<char>, Seq<char>), Seq<char>>(
                    (a.command@, a.cwd@),
                ),
                Err(e) => command_arguments(args@) matches Err(m) && is_invalid_args(e, m),
            },
    {
        let command = match args.get_str("command") {
            Some(c) => trim(c),
            None => {
                return Err(
                    ToolError::InvalidArgs(
                        String::from_str("missing or empty required field: command"),
                    ),
                );
            },
        };
        if command.as_str().is_empty() {
            return Err(
                ToolError::InvalidArgs(String::from_str("missing or empty required field: command")),
            );
        }
        let cwd = match args.get_str("cwd") {
            Some(d) => {
                let t = trim(d);
                if t.as_str().is_empty() {
                    String::from_str(".")
                } else {
                    t
                }
            },
            None => String::from_str("."),
        };
        Ok(CommandArgs { command, cwd })
    }

    /// Refuses a working directory that is not a directory.
    pub fn check_cwd(cwd: &str, target: &Resolved) -> (r: Result<(), ToolError>)
        ensures
            r is Ok <==> target.kind == Some(EntryKind::Dir),
            r matches Err(e) ==> is_failure(e, "not a directory: "@ + cwd@),
    {
        match target.kind {
            Some(EntryKind::Dir) => Ok(()),
            _ => {
                let mut m = String::from_str("not a directory: ");
                m.append(cwd);
                Err(ToolError::ExecutionFailed(m))
            },
        }
    }
}

impl RunCommand {
    /// The first step of a call: its arguments are read and its working
    /// directory found by its text. The caller then probes the returned path and
    /// settles it with [`Self::settle_cwd`].
    pub fn start_run(&self, args: &JsonValue) -> (r: Result<(CommandArgs, String), ToolError>)
        ensures
            match command_arguments(args@) {
                Err(m) => r matches Err(e) && is_invalid_args(e, m),
                Ok((c, d)) => match lexical_target(self@, d) {
                    Err(m) => r matches Err(e) && is_invalid_args(e, m),
                    Ok(t) => r matches Ok((a, q)) && a.command@ == c && a.cwd@ == d && q@ == t,
                },
            },
    {
        let call = match RunCommand::parse_args(args) {
            Ok(a) => a,
            Err(e) => {
                return Err(e);
            },
        };
        match self.config().resolve_lexical(call.cwd.as_str()) {
            Ok(q) => Ok((call, q)),
            Err(e) => Err(e),
        }
    }

    /// Settles the working directory of `call` once the file system has said what
    /// `candidate` is: the directory the command runs in, which lies under the
    /// root, or the error that refuses the call.
    pub fn settle_cwd(&self, call: &CommandArgs, candidate: String, probe: Probe) -> (r: Result<
        String,
        ToolError,
    >)
        ensures
            match probe {
                Probe::Missing => r matches Err(e) && is_failure(e, "not a directory: "@ + call.cwd@),
                Probe::Failed(m) => r matches Err(e) && is_failure(e, m@),
                Probe::Found { canonical, kind } => if !within(canonical@, self@) {
                    r matches Err(e) && is_invalid_args(e, "path outside workspace"@)
                } else if kind != EntryKind::Dir {
                    r matches Err(e) && is_failure(e, "not a directory: "@ + call.cwd@)
                } else {
                    r matches Ok(d) && d@ == canonical@
                },
            },
            r matches Ok(d) ==> within(d@, self@),
    {
        let target = match self.config().settle(candidate, probe) {
            Ok(t) => t,
            Err(e) => {
                return Err(e);
            },
        };
        match RunCommand::check_cwd(call.cwd.as_str(), &target) {
            Ok(()) => Ok(target.path),
            Err(e) => Err(e),
        }
    }
}

impl Clone for RunCommand {
    fn clone(&self) -> (r: Self)
        ensures
            r@ == self@,
    {
        RunCommand { config: self.config.duplicate() }
    }
}

/// What the caller saw when it last polled the running command.
#[derive(Debug)]
pub enum WaitEvent {
    /// The command has exited.
    Exited,
    /// The command still runs, this many milliseconds after it started.
    Running { elapsed_ms: u64 },
    /// Polling failed, with the I/O error's message.
    Failed(String),
}

/// What the caller does next while a command runs.
#[derive(Debug)]
pub enum WaitAction {
    /// Collect the output of the finished command.
    Collect,
    /// Kill the command (the time limit is reached), then collect its output.
    KillAndCollect,
    /// Sleep for the poll interval, then poll again.
    Sleep,
    /// Give up with this error.
    Fail(ToolError),
}

/// The error for a failed wait on the command.
pub fn wait_failed(message: &str) -> (e: ToolError)
    ensures
        is_failure(e, "wait failed: "@ + message@),
{
    let mut m = String::from_str("wait failed: ");
    m.append(message);
    ToolError::ExecutionFailed(m)
}

/// One step of waiting for a command: collect once it has exited, kill it once
/// [`DEFAULT_TIMEOUT_SECS`] seconds have passed, otherwise sleep and poll again.
pub fn next_wait_action(event: WaitEvent) -> (r: WaitAction)
    ensures
        match event {
            WaitEvent::Exited => r is Collect,
            WaitEvent::Running { elapsed_ms } => if elapsed_ms >= DEFAULT_TIMEOUT_SECS * 1000 {
                r is KillAndCollect
            } else {
                r is Sleep
            },
            WaitEvent::Failed(m) => r matches WaitAction::Fail(e) && is_failure(
                e,
                "wait failed: "@ + m@,
            ),
        },
{
    match event {
        WaitEvent::Exited => WaitAction::Collect,
        WaitEvent::Running { elapsed_ms } => {
            if elapsed_ms >= DEFAULT_TIMEOUT_SECS * 1000 {
                WaitAction::KillAndCollect
            } else {
                WaitAction::Sleep
            }
        },
        WaitEvent::Failed(m) => WaitAction::Fail(wait_failed(m.as_str())),
    }
}

/// The answer for a command once its output is collected: the time-out report
/// when it was killed, else its exit code and both streams, each cut at
/// [`MAX_OUTPUT_BYTES`].
pub fn command_report(timed_out: bool, exit_code: Option<i32>, stdout: &[u8], stderr: &[u8]) -> (r:
    String)
    ensures
        timed_out ==> r@ == timed_out_text(stdout@, stderr@),
        !timed_out ==> r@ == output_text(
            exit_code,
            stream_text(stdout@, MAX_OUTPUT_BYTES as nat),
            stream_text(stderr@, MAX_OUTPUT_BYTES as nat),
        ),
{
    if timed_out {
        return format_timed_out(stdout, stderr);
    }
    let o = truncate_stream(stdout, MAX_OUTPUT_BYTES);
    let e = truncate_stream(stderr, MAX_OUTPUT_BYTES);
    format_output(exit_code, o.as_str(), e.as_str())
}

} // verus!
