use glidewin::json::{text, Json};
use glidewin::tools::{
    command_reply, emit_tool_event, fail_silently, open_app, open_label, open_program, open_reply,
    powershell, printed_text, run_powershell, tool_started, Outcome, Tool,
};

fn ended(success: bool, code: Option<i32>, stdout: &[u8], stderr: &[u8]) -> Outcome {
    Outcome::Ended { success, code, stdout: stdout.to_vec(), stderr: stderr.to_vec() }
}

fn event(tool: &str, input: &str, status: &str, output: Option<&str>) -> Json {
    let mut members = vec![
        ("tool".to_string(), text(tool)),
        ("input".to_string(), text(input)),
        ("status".to_string(), text(status)),
    ];
    if let Some(out) = output {
        members.push(("output".to_string(), text(out)));
    }
    Json::Object(members)
}

#[test]
fn announcements_name_the_call() {
    assert_eq!(emit_tool_event("t", "i", "start", None), event("t", "i", "start", None));
    assert_eq!(emit_tool_event("t", "i", "done", Some("o")), event("t", "i", "done", Some("o")));
}

#[test]
fn silent_failures_announce_nothing() {
    let r = fail_silently("e".to_string());
    assert_eq!(r.event, None);
    assert_eq!(r.result, Err("e".to_string()));
}

#[test]
fn powershell_runs_without_a_profile() {
    let p = powershell("Get-Process");
    assert_eq!(p.name, "powershell");
    assert_eq!(p.args, ["-NoProfile", "-NonInteractive", "-Command", "Get-Process"]);
}

#[test]
fn output_and_warnings_are_shown() {
    assert_eq!(printed_text(" \n", ""), "Done (no output).");
    assert_eq!(printed_text("", " warn "), "(stderr) warn");
    assert_eq!(printed_text(" out\n", "\n"), "out");
    assert_eq!(printed_text("out\n", "warn\n"), "out\n(stderr) warn");
}

#[test]
fn a_command_that_fails_says_why() {
    let fail = |code, out: &str, err: &str| command_reply(false, code, out, err);
    assert_eq!(fail(Some(2), "out", " bad "), Err("bad".to_string()));
    assert_eq!(fail(Some(2), " out ", " "), Err("Exit code 2: out".to_string()));
    assert_eq!(fail(Some(-5), "", ""), Err("Command failed with exit code -5".to_string()));
    assert_eq!(fail(None, "", ""), Err("Command failed with exit code -1".to_string()));
    assert_eq!(fail(None, "x", ""), Err("Exit code -1: x".to_string()));
    assert_eq!(command_reply(true, Some(0), "x", ""), Ok("x".to_string()));
}

#[test]
fn a_command_is_announced_as_the_agent_gets_it() {
    let r = run_powershell("dir", ended(true, Some(0), b"files\r\n", b""));
    assert_eq!(r.result, Ok("files".to_string()));
    assert_eq!(r.event, Some(event("run_powershell", "dir", "done", Some("files"))));

    let r = run_powershell("dir", ended(false, Some(1), b"", b"denied\n"));
    assert_eq!(r.result, Err("denied".to_string()));
    assert_eq!(r.event, Some(event("run_powershell", "dir", "error", Some("denied"))));

    let r = run_powershell("dir", Outcome::NotRun("not found".to_string()));
    assert_eq!(r.result, Err("not found".to_string()));
    assert_eq!(r.event, Some(event("run_powershell", "dir", "error", Some("not found"))));
}

#[test]
fn commands_never_answer_with_nothing() {
    for success in [true, false] {
        for out in ["", " ", "o"] {
            for err in ["", "\t", "e"] {
                let s = match command_reply(success, None, out, err) {
                    Ok(s) => s,
                    Err(e) => e,
                };
                assert!(!s.is_empty());
            }
        }
    }
}

#[test]
fn output_that_is_not_utf8_is_read_as_well_as_can_be() {
    let r = run_powershell("x", ended(true, Some(0), &[b'a', 0xff, b'b'], "é".as_bytes()));
    assert_eq!(r.result, Ok("a\u{fffd}b\n(stderr) é".to_string()));
}

#[test]
fn the_title_of_the_window_stays_empty() {
    let p = open_program("chrome", "https://example.com");
    assert_eq!(p.name, "cmd");
    assert_eq!(p.args, ["/c", "start", "", "chrome", "https://example.com"]);
    assert_eq!(open_program("notepad", "").args, ["/c", "start", "", "notepad"]);
}

#[test]
fn opening_is_told_in_words() {
    assert_eq!(open_label("notepad", ""), "notepad");
    assert_eq!(open_label("chrome", "https://x.y"), "chrome https://x.y");
    assert_eq!(open_reply("l", true, "noise"), Ok("Opened: l".to_string()));
    assert_eq!(open_reply("l", false, "  "), Ok("Opened: l".to_string()));
    assert_eq!(open_reply("l", false, " no such app "), Err("no such app".to_string()));
}

#[test]
fn opening_is_announced() {
    let r = open_app("chrome", "u", ended(true, Some(0), b"", b""));
    assert_eq!(r.result, Ok("Opened: chrome u".to_string()));
    assert_eq!(r.event, Some(event("open_app", "chrome u", "done", Some("Opened: chrome u"))));

    let r = open_app("chrome", "", ended(false, Some(1), b"ignored", b"missing"));
    assert_eq!(r.result, Err("missing".to_string()));
    assert_eq!(r.event, Some(event("open_app", "chrome", "error", Some("missing"))));

    let r = open_app("chrome", "", Outcome::NotRun("no shell".to_string()));
    assert_eq!(r.result, Err("no shell".to_string()));
    assert_eq!(r.event, Some(event("open_app", "chrome", "error", Some("no shell"))));
}

#[test]
fn a_start_names_the_call() {
    for (tool, name) in [
        (Tool::RunPowershell, "run_powershell"),
        (Tool::OpenApp, "open_app"),
        (Tool::ListSkills, "list_skills"),
        (Tool::CreateSkill, "create_skill"),
        (Tool::UseSkill, "use_skill"),
        (Tool::WebFetch, "web_fetch"),
        (Tool::WebSearch, "web_search"),
    ] {
        assert_eq!(tool_started(tool, "i"), event(name, "i", "start", None));
    }
}
