//! The tools that an agent can call to act on the PC: running PowerShell, opening applications.
//!
//! A tool is called in three steps. Its start is announced, something outside is run, and from
//! what came of it the tool makes its reply: what the agent gets and what is announced.

use vstd::prelude::*;
use crate::http::{concat, result_view};
use crate::json::{member, text, tree_of, Json, JsonTree, Members};
use crate::text::{
    begins_with, finishes_with, from_utf8_lossy, lossy, reads_true, signed_decimal,
    signed_decimal_of, trim, trimmed, views,
};

verus! {

// ---------------------------------------------------------------------------------------------
// Announcements
// ---------------------------------------------------------------------------------------------

/// What is announced of a tool call: which tool, on what, how far it is, and what came out.
pub open spec fn tool_event(
    tool: Seq<char>,
    input: Seq<char>,
    status: Seq<char>,
    output: Option<Seq<char>>,
) -> JsonTree {
    let base = seq![
        member("tool"@, JsonTree::Text(tool)),
        member("input"@, JsonTree::Text(input)),
        member("status"@, JsonTree::Text(status)),
    ];
    JsonTree::Object(
        match output {
            Some(out) => base.push(member("output"@, JsonTree::Text(out))),
            None => base,
        },
    )
}

/// What is announced of a tool call.
pub fn emit_tool_event(tool: &str, input: &str, status: &str, output: Option<&str>) -> (j: Json)
    ensures
        j@ == tool_event(
            tool@,
            input@,
            status@,
            match output {
                Some(out) => Some(out@),
                None => None,
            },
        ),
{
    let base = Members::new().with("tool", text(tool)).with("input", text(input)).with(
        "status",
        text(status),
    );
    assert(base@ == tool_event(tool@, input@, status@, None)->Object_0);
    match output {
        Some(out) => base.with("output", text(out)).object(),
        None => base.object(),
    }
}

/// The tools.
#[derive(Debug, Clone, Copy, PartialEq, Eq, Structural)]
pub enum Tool {
    RunPowershell,
    OpenApp,
    ListSkills,
    CreateSkill,
    UseSkill,
    WebFetch,
    WebSearch,
}

/// The name of a tool.
pub open spec fn tool_name(tool: Tool) -> Seq<char> {
    match tool {
        Tool::RunPowershell => "run_powershell"@,
        Tool::OpenApp => "open_app"@,
        Tool::ListSkills => "list_skills"@,
        Tool::CreateSkill => "create_skill"@,
        Tool::UseSkill => "use_skill"@,
        Tool::WebFetch => "web_fetch"@,
        Tool::WebSearch => "web_search"@,
    }
}

/// What is announced when a tool is called: that the call has started.
pub fn tool_started(tool: Tool, input: &str) -> (j: Json)
    ensures
        j@ == tool_event(tool_name(tool), input@, "start"@, None),
{
    let name = match tool {
        Tool::RunPowershell => "run_powershell",
        Tool::OpenApp => "open_app",
        Tool::ListSkills => "list_skills",
        Tool::CreateSkill => "create_skill",
        Tool::UseSkill => "use_skill",
        Tool::WebFetch => "web_fetch",
        Tool::WebSearch => "web_search",
    };
    emit_tool_event(name, input, "start", None)
}

/// What a tool makes of its call.
#[derive(Debug, PartialEq)]
pub struct ToolReply {
    /// What is announced, if anything.
    pub event: Option<Json>,
    /// What the agent gets.
    pub result: Result<String, String>,
}

/// The model of a reply.
#[verifier::ext_equal]
pub struct ToolReplyView {
    pub event: Option<JsonTree>,
    pub result: Result<Seq<char>, Seq<char>>,
}

impl View for ToolReply {
    type V = ToolReplyView;

    open spec fn view(&self) -> ToolReplyView {
        ToolReplyView { event: tree_of(self.event), result: result_view(self.result) }
    }
}

/// The reply of a tool whose outcome is announced: as done or as an error.
pub open spec fn announced(
    tool: Seq<char>,
    input: Seq<char>,
    result: Result<Seq<char>, Seq<char>>,
) -> ToolReplyView {
    ToolReplyView {
        event: Some(
            match result {
                Ok(out) => tool_event(tool, input, "done"@, Some(out)),
                Err(e) => tool_event(tool, input, "error"@, Some(e)),
            },
        ),
        result,
    }
}

/// The reply of a tool that fails without an announcement.
pub open spec fn silent_failure(error: Seq<char>) -> ToolReplyView {
    ToolReplyView { event: None, result: Err(error) }
}

/// The reply of a tool whose outcome is announced.
pub fn announce(tool: &str, input: &str, result: Result<String, String>) -> (r: ToolReply)
    ensures
        r@ == announced(tool@, input@, result_view(result)),
{
    let event = match &result {
        Ok(out) => emit_tool_event(tool, input, "done", Some(out.as_str())),
        Err(e) => emit_tool_event(tool, input, "error", Some(e.as_str())),
    };
    ToolReply { event: Some(event), result }
}

/// The reply of a tool that fails without an announcement.
pub fn fail_silently(error: String) -> (r: ToolReply)
    ensures
        r@ == silent_failure(error@),
{
    ToolReply { event: None, result: Err(error) }
}

// ---------------------------------------------------------------------------------------------
// Programs
// ---------------------------------------------------------------------------------------------

/// A program to run and its arguments.
#[derive(Debug, PartialEq)]
pub struct Program {
    pub name: String,
    pub args: Vec<String>,
}

/// What came of running a program.
#[derive(Debug, PartialEq)]
pub enum Outcome {
    /// It could not be started; the system's message.
    NotRun(String),
    /// It ended.
    Ended { success: bool, code: Option<i32>, stdout: Vec<u8>, stderr: Vec<u8> },
}

/// The arguments with which PowerShell runs a command.
pub open spec fn powershell_args(command: Seq<char>) -> Seq<Seq<char>> {
    seq!["-NoProfile"@, "-NonInteractive"@, "-Command"@, command]
}

/// The program that runs a PowerShell command.
pub fn powershell(command: &str) -> (p: Program)
    ensures
        p.name@ == "powershell"@,
        views(p.args@) == powershell_args(command@),
{
    let mut args: Vec<String> = Vec::new();
    args.push("-NoProfile".to_owned());
    args.push("-NonInteractive".to_owned());
    args.push("-Command".to_owned());
    args.push(command.to_owned());
    assert(views(args@) == powershell_args(command@));
    Program { name: "powershell".to_owned(), args }
}

/// What a program printed, for the agent to read: the two outputs without the white space around
/// them, the error output marked as such.
pub open spec fn printed(stdout: Seq<char>, stderr: Seq<char>) -> Seq<char> {
    let out = trimmed(stdout);
    let err = trimmed(stderr);
    if out.len() == 0 && err.len() == 0 {
        "Done (no output)."@
    } else if out.len() == 0 {
        "(stderr) "@ + err
    } else if err.len() == 0 {
        out
    } else {
        out + "\n(stderr) "@ + err
    }
}

/// What a program printed, for the agent to read.
pub fn printed_text(stdout: &str, stderr: &str) -> (s: String)
    ensures
        s@ == printed(stdout@, stderr@),
{
    let out = trim(stdout);
    let err = trim(stderr);
    if out.as_str().is_empty() && err.as_str().is_empty() {
        "Done (no output).".to_owned()
    } else if out.as_str().is_empty() {
        concat("(stderr) ", err.as_str())
    } else if err.as_str().is_empty() {
        out
    } else {
        let mut s = out;
        s.append("\n(stderr) ");
        s.append(err.as_str());
        s
    }
}

// ---------------------------------------------------------------------------------------------
// run_powershell
// ---------------------------------------------------------------------------------------------

/// Why a command failed: its error output, else its exit code with its output, else its exit code.
/// A command without an exit code counts as one with the code -1.
pub open spec fn command_error(
    code: Option<i32>,
    stdout: Seq<char>,
    stderr: Seq<char>,
) -> Seq<char> {
    let number = signed_decimal(
        match code {
            Some(c) => c as int,
            None => -1,
        },
    );
    if trimmed(stderr).len() > 0 {
        trimmed(stderr)
    } else if trimmed(stdout).len() > 0 {
        "Exit code "@ + number + ": "@ + trimmed(stdout)
    } else {
        "Command failed with exit code "@ + number
    }
}

/// What a command that ended brings.
pub open spec fn command_result(
    success: bool,
    code: Option<i32>,
    stdout: Seq<char>,
    stderr: Seq<char>,
) -> Result<Seq<char>, Seq<char>> {
    if success {
        Ok(printed(stdout, stderr))
    } else {
        Err(command_error(code, stdout, stderr))
    }
}

/// What a command that ended brings, from what it printed.
pub fn command_reply(success: bool, code: Option<i32>, stdout: &str, stderr: &str) -> (r: Result<
    String,
    String,
>)
    ensures
        result_view(r) == command_result(success, code, stdout@, stderr@),
{
    if success {
        return Ok(printed_text(stdout, stderr));
    }
    let number = signed_decimal_of(
        match code {
            Some(c) => c,
            None => -1,
        },
    );
    let err = trim(stderr);
    let out = trim(stdout);
    Err(
        if !err.as_str().is_empty() {
            err
        } else if !out.as_str().is_empty() {
            let mut s = concat("Exit code ", number.as_str());
            s.append(": ");
            s.append(out.as_str());
            s
        } else {
            concat("Command failed with exit code ", number.as_str())
        },
    )
}

/// The reply of the tool that runs a PowerShell command.
pub fn run_powershell(command: &str, outcome: Outcome) -> (r: ToolReply)
    ensures
        r@ == announced(
            "run_powershell"@,
            command@,
            match outcome {
                Outcome::NotRun(e) => Err(e@),
                Outcome::Ended { success, code, stdout, stderr } => command_result(
                    success,
                    code,
                    lossy(stdout@),
                    lossy(stderr@),
                ),
            },
        ),
        outcome matches Outcome::Ended { stdout, stderr, .. } ==> reads_true(stdout@) && reads_true(
            stderr@,
        ),
{
    let result = match outcome {
        Outcome::NotRun(e) => Err(e),
        Outcome::Ended { success, code, stdout, stderr } => {
            let stdout = from_utf8_lossy(stdout.as_slice());
            let stderr = from_utf8_lossy(stderr.as_slice());
            command_reply(success, code, stdout.as_str(), stderr.as_str())
        },
    };
    announce("run_powershell", command, result)
}

// ---------------------------------------------------------------------------------------------
// open_app
// ---------------------------------------------------------------------------------------------

/// What is opened, in words: the application and the address, if there is one.
pub open spec fn opened_label(app: Seq<char>, url: Seq<char>) -> Seq<char> {
    if url.len() == 0 {
        app
    } else {
        app + " "@ + url
    }
}

/// The arguments with which the command interpreter opens an application. The empty one is the
/// title of the window, so that an address is never taken for it.
pub open spec fn open_args(app: Seq<char>, url: Seq<char>) -> Seq<Seq<char>> {
    let base = seq!["/c"@, "start"@, ""@, app];
    if url.len() == 0 {
        base
    } else {
        base.push(url)
    }
}

/// What is opened, in words.
pub fn open_label(app: &str, url: &str) -> (label: String)
    ensures
        label@ == opened_label(app@, url@),
{
    if url.is_empty() {
        app.to_owned()
    } else {
        let mut label = concat(app, " ");
        label.append(url);
        label
    }
}

/// The program that opens an application, with an address where one is given.
pub fn open_program(app: &str, url: &str) -> (p: Program)
    ensures
        p.name@ == "cmd"@,
        views(p.args@) == open_args(app@, url@),
{
    let mut args: Vec<String> = Vec::new();
    args.push("/c".to_owned());
    args.push("start".to_owned());
    args.push("".to_owned());
    args.push(app.to_owned());
    assert(views(args@) == seq!["/c"@, "start"@, ""@, app@]);
    if !url.is_empty() {
        args.push(url.to_owned());
        assert(views(args@) == seq!["/c"@, "start"@, ""@, app@].push(url@));
    }
    Program { name: "cmd".to_owned(), args }
}

/// What opening an application brings. It has failed only where something was said about it.
pub open spec fn open_result(
    label: Seq<char>,
    success: bool,
    stderr: Seq<char>,
) -> Result<Seq<char>, Seq<char>> {
    if !success && trimmed(stderr).len() > 0 {
        Err(trimmed(stderr))
    } else {
        Ok("Opened: "@ + label)
    }
}

/// What opening an application brings, from what was said about it.
pub fn open_reply(label: &str, success: bool, stderr: &str) -> (r: Result<String, String>)
    ensures
        result_view(r) == open_result(label@, success, stderr@),
{
    let err = trim(stderr);
    if !success && !err.as_str().is_empty() {
        Err(err)
    } else {
        Ok(concat("Opened: ", label))
    }
}

/// The reply of the tool that opens an application.
pub fn open_app(app: &str, url: &str, outcome: Outcome) -> (r: ToolReply)
    ensures
        r@ == announced(
            "open_app"@,
            opened_label(app@, url@),
            match outcome {
                Outcome::NotRun(e) => Err(e@),
                Outcome::Ended { success, code, stdout, stderr } => open_result(
                    opened_label(app@, url@),
                    success,
                    lossy(stderr@),
                ),
            },
        ),
        outcome matches Outcome::Ended { stderr, .. } ==> reads_true(stderr@),
{
    let label = open_label(app, url);
    let result = match outcome {
        Outcome::NotRun(e) => Err(e),
        Outcome::Ended { success, code: _, stdout: _, stderr } => {
            let stderr = from_utf8_lossy(stderr.as_slice());
            open_reply(label.as_str(), success, stderr.as_str())
        },
    };
    announce("open_app", label.as_str(), result)
}

// ---------------------------------------------------------------------------------------------
// Laws
// ---------------------------------------------------------------------------------------------

/// An announcement says of a tool call what the agent gets: the same words, as the output of a call
/// that is done or of one that failed.
pub proof fn law_the_announcement_is_the_result(
    tool: Seq<char>,
    input: Seq<char>,
    result: Result<Seq<char>, Seq<char>>,
)
    ensures
        ({
            let event = announced(tool, input, result).event->Some_0;
            &&& event.member_text("tool"@) == Some(tool)
            &&& event.member_text("input"@) == Some(input)
            &&& event.member_text("status"@) == Some(
                if result is Ok {
                    "done"@
                } else {
                    "error"@
                },
            )
            &&& event.member_text("output"@) == Some(
                match result {
                    Ok(out) => out,
                    Err(e) => e,
                },
            )
        }),
{
    reveal_strlit("tool");
    reveal_strlit("input");
    reveal_strlit("status");
    reveal_strlit("output");
    let event = announced(tool, input, result).event->Some_0;
    let all = event->Object_0;
    assert("tool"@[0] != "input"@[0]);
    assert("tool"@[0] != "status"@[0]);
    assert("tool"@[0] != "output"@[0]);
    assert("input"@[0] != "status"@[0]);
    assert("input"@[0] != "output"@[0]);
    assert("status"@[0] != "output"@[0]);
    reveal_with_fuel(crate::json::named, 5);
    assert(all.drop_first()[0] == all[1]);
    assert(all.drop_first().drop_first()[0] == all[2]);
    assert(all.drop_first().drop_first().drop_first()[0] == all[3]);
}

/// The announcement of a start says which tool is called on what, and nothing of an output.
pub proof fn law_a_start_names_the_call(tool: Tool, input: Seq<char>)
    ensures
        ({
            let event = tool_event(tool_name(tool), input, "start"@, None);
            &&& event.member_text("tool"@) == Some(tool_name(tool))
            &&& event.member_text("input"@) == Some(input)
            &&& event.member_text("status"@) == Some("start"@)
            &&& event.member("output"@) is None
        }),
{
    reveal_strlit("tool");
    reveal_strlit("input");
    reveal_strlit("status");
    reveal_strlit("output");
    let all = tool_event(tool_name(tool), input, "start"@, None)->Object_0;
    assert("tool"@[0] != "input"@[0]);
    assert("tool"@[0] != "status"@[0]);
    assert("tool"@[0] != "output"@[0]);
    assert("input"@[0] != "status"@[0]);
    assert("input"@[0] != "output"@[0]);
    assert("status"@[0] != "output"@[0]);
    reveal_with_fuel(crate::json::named, 5);
    assert(all.drop_first()[0] == all[1]);
    assert(all.drop_first().drop_first()[0] == all[2]);
}

/// The agent sees what a command printed and its warnings: the one at the beginning of the answer,
/// the others at its end.
pub proof fn law_output_and_warnings_are_shown(stdout: Seq<char>, stderr: Seq<char>)
    ensures
        trimmed(stdout).len() > 0 ==> begins_with(printed(stdout, stderr), trimmed(stdout)),
        trimmed(stderr).len() > 0 ==> finishes_with(printed(stdout, stderr), trimmed(stderr)),
{
    let all = printed(stdout, stderr);
    let out = trimmed(stdout);
    let err = trimmed(stderr);
    if out.len() > 0 {
        assert(all.take(out.len() as int) == out);
    }
    if err.len() > 0 {
        assert(all.skip(all.len() - err.len()) == err);
    }
}

/// An address is never taken for the title of a window: the title is there and empty, the
/// application follows it, and the address comes last.
pub proof fn law_an_address_is_no_title(app: Seq<char>, url: Seq<char>)
    ensures
        open_args(app, url)[2] == ""@,
        open_args(app, url)[3] == app,
        url.len() > 0 ==> open_args(app, url).len() == 5 && open_args(app, url)[4] == url,
        url.len() == 0 ==> open_args(app, url).len() == 4,
        ""@.len() == 0,
{
    reveal_strlit("");
}

/// The agent never gets an empty answer from a command that succeeded or failed.
pub proof fn law_commands_never_answer_with_nothing(
    success: bool,
    code: Option<i32>,
    stdout: Seq<char>,
    stderr: Seq<char>,
)
    ensures
        match command_result(success, code, stdout, stderr) {
            Ok(s) => s.len() > 0,
            Err(e) => e.len() > 0,
        },
{
    reveal_strlit("Done (no output).");
    reveal_strlit("(stderr) ");
    reveal_strlit("Exit code ");
    reveal_strlit("Command failed with exit code ");
}

/// What a command answers: all that it printed, without the white space around it, with its
/// warnings marked; or, where it failed, its error output, else its exit code and its output.
pub proof fn law_what_a_command_answers(code: Option<i32>, stdout: Seq<char>, stderr: Seq<char>)
    ensures
        ({
            let out = trimmed(stdout);
            let err = trimmed(stderr);
            let done = command_result(true, code, stdout, stderr);
            let failed = command_result(false, code, stdout, stderr);
            let number = signed_decimal(if code is Some { code->Some_0 as int } else { -1 });
            &&& out.len() > 0 && err.len() == 0 ==> done == Ok::<Seq<char>, Seq<char>>(out)
            &&& out.len() == 0 && err.len() > 0 ==> done == Ok::<Seq<char>, Seq<char>>(
                "(stderr) "@ + err,
            )
            &&& out.len() > 0 && err.len() > 0 ==> done == Ok::<Seq<char>, Seq<char>>(
                out + (seq!['\n'] + "(stderr) "@ + err),
            )
            &&& out.len() == 0 && err.len() == 0 ==> done is Ok
            &&& err.len() > 0 ==> failed == Err::<Seq<char>, Seq<char>>(err)
            &&& err.len() == 0 && out.len() > 0 ==> failed == Err::<Seq<char>, Seq<char>>(
                "Exit code "@ + number + (seq![':', ' '] + out),
            )
            &&& err.len() == 0 && out.len() == 0 ==> failed == Err::<Seq<char>, Seq<char>>(
                "Command failed with exit code "@ + number,
            )
        }),
{
    reveal_strlit("\n(stderr) ");
    reveal_strlit("(stderr) ");
    reveal_strlit(": ");
    let out = trimmed(stdout);
    let err = trimmed(stderr);
    assert(out + "\n(stderr) "@ + err == out + (seq!['\n'] + "(stderr) "@ + err));
    let number = signed_decimal(if code is Some { code->Some_0 as int } else { -1 });
    assert("Exit code "@ + number + ": "@ + out == "Exit code "@ + number + (seq![':', ' '] + out));
}

/// PowerShell gets the command whole, as its last argument, and neither a profile nor a prompt.
pub proof fn law_powershell_gets_the_command(command: Seq<char>)
    ensures
        powershell_args(command).len() == 4,
        powershell_args(command)[0] == "-NoProfile"@,
        powershell_args(command)[1] == "-NonInteractive"@,
        powershell_args(command)[2] == "-Command"@,
        powershell_args(command)[3] == command,
{
}

/// What opening an application answers: the words of the failure if there are any, and otherwise
/// what was opened, the application and the address whole.
pub proof fn law_what_opening_answers(
    app: Seq<char>,
    url: Seq<char>,
    success: bool,
    stderr: Seq<char>,
)
    ensures
        open_args(app, url)[0] == "/c"@,
        open_args(app, url)[1] == "start"@,
        url.len() == 0 ==> opened_label(app, url) == app,
        url.len() > 0 ==> opened_label(app, url) == app + (seq![' '] + url),
        success || trimmed(stderr).len() == 0 ==> open_result(app, success, stderr) == Ok::<
            Seq<char>,
            Seq<char>,
        >("Opened: "@ + app),
        !success && trimmed(stderr).len() > 0 ==> open_result(app, success, stderr) == Err::<
            Seq<char>,
            Seq<char>,
        >(trimmed(stderr)),
{
    reveal_strlit(" ");
    assert(app + " "@ + url == app + (seq![' '] + url));
}

/// A reply hands on what came out, and a silent failure announces nothing.
pub proof fn law_replies_hand_on_what_came_out(
    tool: Seq<char>,
    input: Seq<char>,
    result: Result<Seq<char>, Seq<char>>,
    error: Seq<char>,
)
    ensures
        announced(tool, input, result).result == result,
        announced(tool, input, result).event is Some,
        silent_failure(error).event is None,
        silent_failure(error).result == Err::<Seq<char>, Seq<char>>(error),
{
}

/// The model of a reply holds what is announced and what the agent gets.
pub proof fn law_replies_hold_everything(r: ToolReply)
    ensures
        match r.event {
            Some(j) => r@.event == Some(j@),
            None => r@.event is None,
        },
        match r.result {
            Ok(s) => r@.result == Ok::<Seq<char>, Seq<char>>(s@),
            Err(e) => r@.result == Err::<Seq<char>, Seq<char>>(e@),
        },
{
}

} // verus!
