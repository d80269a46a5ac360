use glidewin::skills::{
    command_with, create_skill, describe_skill, escape, is_skill_file, list_skills, make_param,
    make_skill, parse_params, skill_file_name, skill_missing, skill_program, skill_reply,
    skill_saved, use_skill, Param, ParamValue, SkillDef,
};
use glidewin::tools::Outcome;

fn skill(name: &str, parameters: &[&str]) -> SkillDef {
    SkillDef {
        name: name.to_string(),
        description: "does it".to_string(),
        parameters: parameters.iter().map(|p| p.to_string()).collect(),
        powershell_code: "echo $query".to_string(),
    }
}

fn ended(success: bool, stdout: &[u8], stderr: &[u8]) -> Outcome {
    Outcome::Ended { success, code: Some(0), stdout: stdout.to_vec(), stderr: stderr.to_vec() }
}

#[test]
fn skill_files_are_recognised() {
    assert_eq!(skill_file_name("get_battery"), "get_battery.json");
    assert!(is_skill_file("get_battery.json"));
    assert!(is_skill_file(&skill_file_name("x")));
    assert!(is_skill_file("a.b.json"));
    assert!(!is_skill_file(&skill_file_name("")));
    assert!(!is_skill_file("notes.txt"));
    assert!(!is_skill_file("json"));
    assert!(!is_skill_file("a.JSON"));
    assert!(!is_skill_file("a.json.bak"));
}

#[test]
fn skills_do_not_share_file_names() {
    assert_ne!(skill_file_name("a"), skill_file_name("b"));
}

#[test]
fn parameters_are_listed_if_there_are_any() {
    assert_eq!(describe_skill(&skill("s", &[])), "s: does it");
    assert_eq!(describe_skill(&skill("s", &["a", "b"])), "s (params: a, b): does it");
}

#[test]
fn readable_skills_are_listed() {
    let r = list_skills(&vec![Some(skill("a", &[])), None, Some(skill("b", &["q"]))]);
    let expected = "a: does it\nb (params: q): does it".to_string();
    assert_eq!(r.event.unwrap().member_text("output"), Some(expected.clone()));
    assert_eq!(r.result, Ok(expected));
}

#[test]
fn no_skill_is_told_as_such() {
    let none = Ok("No skills saved yet.".to_string());
    assert_eq!(list_skills(&vec![]).result, none);
    let r = list_skills(&vec![None]);
    assert_eq!(r.result, none);
    let event = r.event.unwrap();
    assert_eq!(event.member_text("tool"), Some("list_skills".to_string()));
    assert_eq!(event.member_text("input"), Some(String::new()));
    assert_eq!(event.member_text("status"), Some("done".to_string()));
}

#[test]
fn a_skill_takes_its_parameters_from_json() {
    let make = |parameters: &str| {
        create_skill("n".to_string(), "d".to_string(), parameters, "c".to_string())
    };
    let s = make(r#"["query","count"]"#);
    assert_eq!(s.parameters, ["query", "count"]);
    assert_eq!((s.name.as_str(), s.description.as_str(), s.powershell_code.as_str()), ("n", "d", "c"));
    assert!(make("[]").parameters.is_empty());
    assert!(make("query").parameters.is_empty());
    assert!(make(r#"["a",1]"#).parameters.is_empty());
    assert!(make(r#"{"a":1}"#).parameters.is_empty());
}

#[test]
fn a_skill_without_readable_parameters_has_none() {
    let make = |parameters| make_skill("n".to_string(), "d".to_string(), parameters, "c".to_string());
    assert!(make(None).parameters.is_empty());
    assert_eq!(make(Some(vec!["a".to_string()])).parameters, ["a"]);
}

#[test]
fn saving_is_announced_unless_it_fails() {
    let r = skill_saved("n", Ok(()));
    assert_eq!(r.result, Ok("Skill 'n' saved.".to_string()));
    let event = r.event.unwrap();
    assert_eq!(event.member_text("tool"), Some("create_skill".to_string()));
    assert_eq!(event.member_text("output"), Some("Skill 'n' saved.".to_string()));
    let r = skill_saved("n", Err("disk full".to_string()));
    assert_eq!(r.result, Err("disk full".to_string()));
    assert_eq!(r.event, None);
}

#[test]
fn special_characters_are_escaped() {
    assert_eq!(escape("plain"), "plain");
    assert_eq!(escape("a\"b$c`d"), "a`\"b`$c``d");
    assert_eq!(escape("`$"), "```$");
    for s in ["", "x", "``", "\"", "$(x)", "`\"$`"] {
        assert_eq!(escape(s), s.replace('`', "``").replace('"', "`\"").replace('$', "`$"));
    }
}

#[test]
fn escaped_text_reads_back() {
    let text = "say \"$5\" `now`";
    let mut read = String::new();
    let quoted = escape(text);
    let mut chars = quoted.chars();
    while let Some(c) = chars.next() {
        read.push(if c == '`' { chars.next().unwrap() } else { c });
    }
    assert_eq!(read, text);
}

#[test]
fn parameters_are_set_before_the_code() {
    let params = Some(vec![
        Param { name: "q".to_string(), value: ParamValue::Text("a$b".to_string()) },
        Param { name: "n".to_string(), value: ParamValue::Literal("3".to_string()) },
    ]);
    assert_eq!(command_with(&params, "run"), "$q = \"a`$b\";\n$n = 3;\nrun");
    assert_eq!(command_with(&None, "run"), "run");
    assert_eq!(command_with(&Some(vec![]), "run"), "run");
}

#[test]
fn parameters_come_from_a_json_object() {
    let param = |name: &str, value| Param { name: name.to_string(), value };
    assert_eq!(
        parse_params(r#"{"a":"x","b":[1, "y"],"c":null,"d":2.5}"#),
        Some(vec![
            param("a", ParamValue::Text("x".to_string())),
            param("b", ParamValue::Literal("[1,\"y\"]".to_string())),
            param("c", ParamValue::Literal("null".to_string())),
            param("d", ParamValue::Literal("2.5".to_string())),
        ])
    );
    assert_eq!(parse_params("{}"), Some(vec![]));
    assert_eq!(parse_params("[]"), None);
    assert_eq!(parse_params("oops"), None);
}

#[test]
fn a_parameter_is_a_text_or_a_literal() {
    assert_eq!(
        make_param("a".to_string(), serde_json::Value::from("1")).value,
        ParamValue::Text("1".to_string())
    );
    assert_eq!(
        make_param("a".to_string(), serde_json::Value::from(1)).value,
        ParamValue::Literal("1".to_string())
    );
    assert_eq!(
        make_param("a".to_string(), serde_json::Value::Bool(true)).value,
        ParamValue::Literal("true".to_string())
    );
}

#[test]
fn a_skill_is_run_by_powershell() {
    let p = skill_program(&skill("s", &["query"]), r#"{"query":"he said \"hi\""}"#);
    assert_eq!(p.name, "powershell");
    assert_eq!(
        p.args,
        ["-NoProfile", "-NonInteractive", "-Command", "$query = \"he said `\"hi`\"\";\necho $query"]
    );
    assert_eq!(skill_program(&skill("s", &[]), "not json").args[3], "echo $query");
}

#[test]
fn a_missing_skill_is_named() {
    let r = skill_missing("x");
    assert_eq!(r.result, Err("Skill 'x' not found.".to_string()));
    assert_eq!(r.event, None);
}

#[test]
fn a_skill_that_fails_says_what_it_printed() {
    assert_eq!(skill_reply(false, "out", " err "), Err("err".to_string()));
    assert_eq!(skill_reply(false, " out ", " "), Err("out".to_string()));
    assert_eq!(skill_reply(false, "", ""), Err(String::new()));
    assert_eq!(skill_reply(true, "out", "err"), Ok("out\n(stderr) err".to_string()));
}

#[test]
fn running_a_skill_is_announced() {
    let r = use_skill("s", ended(true, b"ok\n", &[]));
    assert_eq!(r.result, Ok("ok".to_string()));
    let event = r.event.unwrap();
    assert_eq!(event.member_text("tool"), Some("use_skill".to_string()));
    assert_eq!(event.member_text("input"), Some("s".to_string()));
    assert_eq!(event.member_text("status"), Some("done".to_string()));
    assert_eq!(event.member_text("output"), Some("ok".to_string()));

    let r = use_skill("s", ended(false, b"", &[b'n', 0xc3]));
    assert_eq!(r.result, Err("n\u{fffd}".to_string()));
    assert_eq!(r.event.unwrap().member_text("status"), Some("error".to_string()));

    let r = use_skill("s", Outcome::NotRun("no shell".to_string()));
    assert_eq!(r.result, Err("no shell".to_string()));
    assert_eq!(r.event, None);
}
