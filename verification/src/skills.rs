//! Skills: PowerShell procedures that are saved under a name and run again with parameters.

use vstd::prelude::*;
use crate::http::{concat, result_view};
use crate::json::{
    json_text, member, member_trees, members_in_text, open_value, print_value, read_members, tree,
    JsonTree, MemberTree, Opened,
};
use crate::text::{
    chars_of, ends_with, finishes_with, from_utf8_lossy, join, joined, lossy, reads_true, trim,
    trimmed, views,
};
use crate::tools::{
    announce, announced, command_result, fail_silently, powershell, powershell_args, printed,
    printed_text, silent_failure, Outcome, Program, ToolReply,
};

verus! {

/// A saved procedure.
#[derive(Debug, PartialEq)]
pub struct SkillDef {
    pub name: String,
    pub description: String,
    pub parameters: Vec<String>,
    pub powershell_code: String,
}

// ---------------------------------------------------------------------------------------------
// Files
// ---------------------------------------------------------------------------------------------

/// The name of the file of a skill.
pub open spec fn skill_file(name: Seq<char>) -> Seq<char> {
    name + ".json"@
}

/// Whether a file is one of a skill: its extension is `json`. What a name begins with is no
/// extension, even after a dot.
pub open spec fn names_skill(file: Seq<char>) -> bool {
    finishes_with(file, ".json"@) && file.len() > ".json"@.len()
}

/// The name of the file of a skill.
pub fn skill_file_name(name: &str) -> (file: String)
    ensures
        file@ == skill_file(name@),
{
    concat(name, ".json")
}

/// Whether a file is one of a skill.
pub fn is_skill_file(file: &str) -> (b: bool)
    ensures
        b == names_skill(file@),
{
    let cs = chars_of(file);
    proof {
        reveal_strlit(".json");
    }
    cs.len() > 5 && ends_with(file, ".json")
}

/// The file name of a skill is known for one, unless the skill has no name.
pub proof fn law_skill_files_are_recognised(name: Seq<char>)
    requires
        name.len() > 0,
    ensures
        names_skill(skill_file(name)),
{
    let file = skill_file(name);
    assert(file.skip(file.len() - ".json"@.len()) == ".json"@);
}

/// Two skills with different names have different file names.
pub proof fn law_skills_do_not_share_files(a: Seq<char>, b: Seq<char>)
    requires
        skill_file(a) == skill_file(b),
    ensures
        a == b,
{
    assert(skill_file(a).take(a.len() as int) == a);
    assert(skill_file(b).take(b.len() as int) == b);
}

// ---------------------------------------------------------------------------------------------
// Listing
// ---------------------------------------------------------------------------------------------

/// The line that lists a skill: its name, its parameters if it has any, its description.
pub open spec fn skill_line(skill: SkillDef) -> Seq<char> {
    let params = if skill.parameters@.len() == 0 {
        seq![]
    } else {
        " (params: "@ + joined(views(skill.parameters@), ", "@) + ")"@
    };
    skill.name@ + params + ": "@ + skill.description@
}

/// The lines that list those skills that could be read.
pub open spec fn skill_lines(skills: Seq<Option<SkillDef>>) -> Seq<Seq<char>>
    decreases skills.len(),
{
    if skills.len() == 0 {
        seq![]
    } else {
        let before = skill_lines(skills.drop_last());
        match skills.last() {
            Some(skill) => before.push(skill_line(skill)),
            None => before,
        }
    }
}

/// The list of the skills that could be read.
pub open spec fn skill_list(skills: Seq<Option<SkillDef>>) -> Seq<char> {
    if skill_lines(skills).len() == 0 {
        "No skills saved yet."@
    } else {
        joined(skill_lines(skills), "\n"@)
    }
}

/// The line that lists a skill.
pub fn describe_skill(skill: &SkillDef) -> (line: String)
    ensures
        line@ == skill_line(*skill),
{
    let mut line = skill.name.clone();
    if skill.parameters.len() > 0 {
        let mut params = concat(" (params: ", join(&skill.parameters, ", ").as_str());
        params.append(")");
        line.append(params.as_str());
    } else {
        assert(line@ + Seq::<char>::empty() == line@);
    }
    line.append(": ");
    line.append(skill.description.as_str());
    line
}

/// Every skill that could be read is listed.
pub proof fn law_readable_skills_are_listed(skills: Seq<Option<SkillDef>>, i: int)
    requires
        0 <= i < skills.len(),
        skills[i] is Some,
    ensures
        skill_lines(skills).contains(skill_line(skills[i]->Some_0)),
    decreases skills.len(),
{
    let line = skill_line(skills[i]->Some_0);
    let before = skill_lines(skills.drop_last());
    if i == skills.len() - 1 {
        assert(skill_lines(skills)[before.len() as int] == line);
    } else {
        law_readable_skills_are_listed(skills.drop_last(), i);
        let k = choose|k: int| 0 <= k < before.len() && before[k] == line;
        assert(skill_lines(skills)[k] == line);
    }
}

/// The reply of the tool that lists the skills. `skills` has an entry for each file of a skill,
/// which is empty where the file could not be read.
pub fn list_skills(skills: &Vec<Option<SkillDef>>) -> (r: ToolReply)
    ensures
        r@ == announced("list_skills"@, ""@, Ok(skill_list(skills@))),
{
    let mut lines: Vec<String> = Vec::new();
    let mut i: usize = 0;
    assert(views(lines@) == Seq::<Seq<char>>::empty());
    while i < skills.len()
        invariant
            i <= skills@.len(),
            views(lines@) == skill_lines(skills@.take(i as int)),
        decreases skills@.len() - i,
    {
        let ghost before = lines@;
        if let Some(skill) = &skills[i] {
            lines.push(describe_skill(skill));
            assert(views(lines@) == views(before).push(skill_line(*skill)));
        }
        assert(skills@.take(i + 1).drop_last() == skills@.take(i as int));
        i = i + 1;
    }
    assert(skills@.take(i as int) == skills@);
    let list = if lines.len() == 0 {
        "No skills saved yet.".to_owned()
    } else {
        join(&lines, "\n")
    };
    announce("list_skills", "", Ok(list))
}

// ---------------------------------------------------------------------------------------------
// Creating
// ---------------------------------------------------------------------------------------------

/// The names that `serde_json` reads in a text that is a JSON list of strings; nothing in any
/// other text.
pub uninterp spec fn read_names(text: Seq<char>) -> Option<Seq<Seq<char>>>;

/// The characters of names that may be missing.
pub open spec fn names_view(names: Option<Vec<String>>) -> Option<Seq<Seq<char>>> {
    match names {
        Some(v) => Some(views(v@)),
        None => None,
    }
}

/// `serde_json::from_str` into a list of strings. What it reads depends on the text alone.
#[verifier::external_body]
fn parse_names(text: &str) -> (r: Option<Vec<String>>)
    ensures
        names_view(r) == read_names(text@),
{
    serde_json::from_str::<Vec<String>>(text).ok()
}

/// A skill whose parameters were read; it has none where they could not be.
pub fn make_skill(
    name: String,
    description: String,
    parameters: Option<Vec<String>>,
    powershell_code: String,
) -> (skill: SkillDef)
    ensures
        skill.name == name,
        skill.description == description,
        skill.powershell_code == powershell_code,
        views(skill.parameters@) == match names_view(parameters) {
            Some(names) => names,
            None => seq![],
        },
{
    let parameters = match parameters {
        Some(names) => names,
        None => Vec::new(),
    };
    SkillDef { name, description, parameters, powershell_code }
}

/// The skill to save. `parameters` is a JSON list of names; any other text stands for none.
pub fn create_skill(
    name: String,
    description: String,
    parameters: &str,
    powershell_code: String,
) -> (skill: SkillDef)
    ensures
        skill.name == name,
        skill.description == description,
        skill.powershell_code == powershell_code,
        views(skill.parameters@) == match read_names(parameters@) {
            Some(names) => names,
            None => seq![],
        },
{
    make_skill(name, description, parse_names(parameters), powershell_code)
}

/// The reply of the tool that saves a skill, from what came of writing its file.
pub fn skill_saved(name: &str, written: Result<(), String>) -> (r: ToolReply)
    ensures
        r@ == match written {
            Ok(_) => announced("create_skill"@, name@, Ok("Skill '"@ + name@ + "' saved."@)),
            Err(e) => silent_failure(e@),
        },
{
    match written {
        Ok(_) => {
            let mut message = concat("Skill '", name);
            message.append("' saved.");
            announce("create_skill", name, Ok(message))
        },
        Err(e) => fail_silently(e),
    }
}

// ---------------------------------------------------------------------------------------------
// Running: the parameters
// ---------------------------------------------------------------------------------------------

/// The value of a parameter: a text, or any other JSON value as `serde_json` prints it.
#[derive(Debug, PartialEq)]
pub enum ParamValue {
    Text(String),
    Literal(String),
}

/// A parameter and its value.
#[derive(Debug, PartialEq)]
pub struct Param {
    pub name: String,
    pub value: ParamValue,
}

/// The model of the value of a parameter.
pub enum ParamValueView {
    Text(Seq<char>),
    Literal(Seq<char>),
}

/// The model of a parameter.
#[verifier::ext_equal]
pub struct ParamView {
    pub name: Seq<char>,
    pub value: ParamValueView,
}

impl View for Param {
    type V = ParamView;

    open spec fn view(&self) -> ParamView {
        ParamView {
            name: self.name@,
            value: match self.value {
                ParamValue::Text(s) => ParamValueView::Text(s@),
                ParamValue::Literal(s) => ParamValueView::Literal(s@),
            },
        }
    }
}

/// The models of parameters.
pub open spec fn param_views(params: Seq<Param>) -> Seq<ParamView> {
    params.map_values(|p: Param| p@)
}

/// The models of parameters that may be missing.
pub open spec fn params_view(params: Option<Vec<Param>>) -> Option<Seq<ParamView>> {
    match params {
        Some(v) => Some(param_views(v@)),
        None => None,
    }
}

/// The parameter that a member of a JSON object gives: a text as it is, any other value as
/// `serde_json` prints it.
pub open spec fn param_of(member: MemberTree) -> ParamView {
    ParamView {
        name: member.key,
        value: match member.value {
            JsonTree::Text(s) => ParamValueView::Text(s),
            other => ParamValueView::Literal(json_text(other)),
        },
    }
}

/// The parameters that the members of a JSON object give.
pub open spec fn params_of(members: Option<Seq<MemberTree>>) -> Option<Seq<ParamView>> {
    match members {
        Some(m) => Some(m.map_values(|member: MemberTree| param_of(member))),
        None => None,
    }
}

/// The parameter that a member of a JSON object gives.
pub fn make_param(name: String, value: serde_json::Value) -> (param: Param)
    ensures
        param@ == param_of(member(name@, tree(value))),
{
    let text = print_value(&value);
    let value = match open_value(value) {
        Opened::Text(s) => ParamValue::Text(s),
        _ => ParamValue::Literal(text),
    };
    Param { name, value }
}

/// The parameters in a text that is a JSON object; nothing in any other text.
pub fn parse_params(text: &str) -> (r: Option<Vec<Param>>)
    ensures
        params_view(r) == params_of(read_members(text@)),
{
    let members = match members_in_text(text) {
        Some(members) => members,
        None => return None,
    };
    let ghost all = members@;
    let mut params: Vec<Param> = Vec::new();
    for m in it: members
        invariant
            it.seq() == all,
            params@.len() == it.index(),
            forall|k: int|
                0 <= k < params@.len() ==> (#[trigger] params@[k])@ == param_of(
                    member_trees(all)[k],
                ),
    {
        params.push(make_param(m.0, m.1));
    }
    assert(param_views(params@) == member_trees(all).map_values(
        |member: MemberTree| param_of(member),
    ));
    Some(params)
}

// ---------------------------------------------------------------------------------------------
// Running: the command
// ---------------------------------------------------------------------------------------------

/// Whether `c` is escaped inside double quotes: the backtick that escapes, the quote that closes,
/// the sign that names a variable.
pub open spec fn is_special(c: char) -> bool {
    c == '`' || c == '"' || c == '$'
}

/// `s` as it is written inside double quotes: with a backtick before each special character.
pub open spec fn escaped(s: Seq<char>) -> Seq<char>
    decreases s.len(),
{
    if s.len() == 0 {
        seq![]
    } else if is_special(s.last()) {
        escaped(s.drop_last()).push('`').push(s.last())
    } else {
        escaped(s.drop_last()).push(s.last())
    }
}

/// The value of a parameter as PowerShell reads it.
pub open spec fn value_code(value: ParamValueView) -> Seq<char> {
    match value {
        ParamValueView::Text(s) => "\""@ + escaped(s) + "\""@,
        ParamValueView::Literal(s) => s,
    }
}

/// The line that sets a parameter.
pub open spec fn assignment(param: ParamView) -> Seq<char> {
    "$"@ + param.name + " = "@ + value_code(param.value) + ";\n"@
}

/// The lines that set the parameters.
pub open spec fn assignments(params: Seq<ParamView>) -> Seq<char>
    decreases params.len(),
{
    if params.len() == 0 {
        seq![]
    } else {
        assignments(params.drop_last()) + assignment(params.last())
    }
}

/// The command that runs a skill: the parameters are set, then comes its code. Parameters that
/// could not be read count as none.
pub open spec fn skill_command(params: Option<Seq<ParamView>>, code: Seq<char>) -> Seq<char> {
    match params {
        Some(p) => assignments(p) + code,
        None => code,
    }
}

/// `s` as it is written inside double quotes.
pub fn escape(s: &str) -> (out: String)
    ensures
        out@ == escaped(s@),
{
    let cs = chars_of(s);
    let mut out = String::new();
    let mut i: usize = 0;
    assert(cs@.take(0) == Seq::<char>::empty());
    while i < cs.len()
        invariant
            i <= cs@.len(),
            out@ == escaped(cs@.take(i as int)),
        decreases cs@.len() - i,
    {
        let c = cs[i];
        if c == '`' || c == '"' || c == '$' {
            out.push('`');
        }
        out.push(c);
        assert(cs@.take(i + 1).drop_last() == cs@.take(i as int));
        i = i + 1;
    }
    assert(cs@.take(i as int) == s@);
    out
}

fn assign(param: &Param) -> (line: String)
    ensures
        line@ == assignment(param@),
{
    let mut line = concat("$", param.name.as_str());
    line.append(" = ");
    match &param.value {
        ParamValue::Text(s) => {
            let mut quoted = concat("\"", escape(s.as_str()).as_str());
            quoted.append("\"");
            line.append(quoted.as_str());
        },
        ParamValue::Literal(s) => line.append(s.as_str()),
    }
    line.append(";\n");
    line
}

/// The command that runs a skill whose parameters were read.
pub fn command_with(params: &Option<Vec<Param>>, code: &str) -> (command: String)
    ensures
        command@ == skill_command(params_view(*params), code@),
{
    let mut command = String::new();
    if let Some(params) = params {
        let ghost all = param_views(params@);
        let mut i: usize = 0;
        assert(all.take(0) == Seq::<ParamView>::empty());
        while i < params.len()
            invariant
                i <= params@.len(),
                all == param_views(params@),
                command@ == assignments(all.take(i as int)),
            decreases params@.len() - i,
        {
            command.append(assign(&params[i]).as_str());
            assert(all.take(i + 1).drop_last() == all.take(i as int));
            i = i + 1;
        }
        assert(all.take(i as int) == all);
    }
    command.append(code);
    assert(params is None ==> command@ == code@);
    command
}

/// The program that runs a skill. `params` is a JSON object; any other text stands for none.
pub fn skill_program(skill: &SkillDef, params: &str) -> (p: Program)
    ensures
        p.name@ == "powershell"@,
        views(p.args@) == powershell_args(
            skill_command(params_of(read_members(params@)), skill.powershell_code@),
        ),
{
    let params = parse_params(params);
    let command = command_with(&params, skill.powershell_code.as_str());
    powershell(command.as_str())
}

/// What is said of a skill that is not there.
pub fn skill_missing(name: &str) -> (r: ToolReply)
    ensures
        r@ == silent_failure("Skill '"@ + name@ + "' not found."@),
{
    let mut message = concat("Skill '", name);
    message.append("' not found.");
    fail_silently(message)
}

/// What a skill that ended brings: what it printed, or, where it failed, its error output or else
/// its output.
pub open spec fn skill_result(success: bool, stdout: Seq<char>, stderr: Seq<char>) -> Result<
    Seq<char>,
    Seq<char>,
> {
    if success {
        Ok(printed(stdout, stderr))
    } else if trimmed(stderr).len() > 0 {
        Err(trimmed(stderr))
    } else {
        Err(trimmed(stdout))
    }
}

/// What a skill that ended brings, from what it printed.
pub fn skill_reply(success: bool, stdout: &str, stderr: &str) -> (r: Result<String, String>)
    ensures
        result_view(r) == skill_result(success, stdout@, stderr@),
{
    if success {
        return Ok(printed_text(stdout, stderr));
    }
    let err = trim(stderr);
    if !err.as_str().is_empty() {
        Err(err)
    } else {
        Err(trim(stdout))
    }
}

/// The reply of the tool that runs a skill.
pub fn use_skill(name: &str, outcome: Outcome) -> (r: ToolReply)
    ensures
        r@ == match outcome {
            Outcome::NotRun(e) => silent_failure(e@),
            Outcome::Ended { success, code, stdout, stderr } => announced(
                "use_skill"@,
                name@,
                skill_result(success, lossy(stdout@), lossy(stderr@)),
            ),
        },
        outcome matches Outcome::Ended { stdout, stderr, .. } ==> reads_true(stdout@) && reads_true(
            stderr@,
        ),
{
    match outcome {
        Outcome::NotRun(e) => fail_silently(e),
        Outcome::Ended { success, code: _, stdout, stderr } => {
            let stdout = from_utf8_lossy(stdout.as_slice());
            let stderr = from_utf8_lossy(stderr.as_slice());
            announce("use_skill", name, skill_reply(success, stdout.as_str(), stderr.as_str()))
        },
    }
}

// ---------------------------------------------------------------------------------------------
// Laws
// ---------------------------------------------------------------------------------------------

/// What stands inside double quotes, read back: each escaped character for itself. Nothing, where a
/// special character stands unescaped or a backtick escapes no special character.
pub open spec fn unquoted(s: Seq<char>) -> Option<Seq<char>>
    decreases s.len(),
{
    if s.len() == 0 {
        Some(seq![])
    } else if s[0] == '`' {
        if s.len() >= 2 && is_special(s[1]) {
            match unquoted(s.skip(2)) {
                Some(rest) => Some(seq![s[1]] + rest),
                None => None,
            }
        } else {
            None
        }
    } else if is_special(s[0]) {
        None
    } else {
        match unquoted(s.skip(1)) {
            Some(rest) => Some(seq![s[0]] + rest),
            None => None,
        }
    }
}

/// The code of a skill runs as it was saved, after the parameters are set.
pub proof fn law_the_code_comes_last(params: Option<Seq<ParamView>>, code: Seq<char>)
    ensures
        finishes_with(skill_command(params, code), code),
{
    let command = skill_command(params, code);
    assert(command.skip(command.len() - code.len()) == code);
}

proof fn lemma_unquoted_concat(a: Seq<char>, b: Seq<char>)
    requires
        unquoted(a) is Some,
        unquoted(b) is Some,
    ensures
        unquoted(a + b) == Some(unquoted(a)->Some_0 + unquoted(b)->Some_0),
    decreases a.len(),
{
    if a.len() == 0 {
        assert(a + b == b);
        assert(Seq::<char>::empty() + unquoted(b)->Some_0 == unquoted(b)->Some_0);
    } else {
        let n = if a[0] == '`' {
            2int
        } else {
            1
        };
        let head = if a[0] == '`' {
            a[1]
        } else {
            a[0]
        };
        assert((a + b).skip(n) == a.skip(n) + b);
        lemma_unquoted_concat(a.skip(n), b);
        let rest = unquoted(a.skip(n))->Some_0;
        assert(seq![head] + (rest + unquoted(b)->Some_0) == (seq![head] + rest)
            + unquoted(b)->Some_0);
    }
}

/// A text arrives in a skill as it was given: what is written inside the quotes reads back as the
/// text, and every special character in it is escaped.
pub proof fn law_escaped_text_reads_back(s: Seq<char>)
    ensures
        unquoted(escaped(s)) == Some(s),
    decreases s.len(),
{
    if s.len() == 0 {
        assert(s == Seq::<char>::empty());
    } else {
        let before = s.drop_last();
        let c = s.last();
        law_escaped_text_reads_back(before);
        let tail = if is_special(c) {
            seq!['`', c]
        } else {
            seq![c]
        };
        assert(escaped(s) == escaped(before) + tail);
        assert(unquoted(tail.skip(tail.len() as int)) == Some(Seq::<char>::empty()));
        reveal_with_fuel(unquoted, 2);
        assert(unquoted(tail) == Some(seq![c] + Seq::<char>::empty()));
        lemma_unquoted_concat(escaped(before), tail);
        assert(before + (seq![c] + Seq::<char>::empty()) == s);
    }
}

/// A parameter is set to its whole value: a text to itself, which is read back from between the
/// quotes, and any other value to what `serde_json` prints for it.
pub proof fn law_parameters_are_written_in_full(m: MemberTree)
    ensures
        match m.value {
            JsonTree::Text(text) => exists|quoted: Seq<char>| #[trigger]
                unquoted(quoted) == Some(text) && assignment(param_of(m)) == seq!['$'] + m.key
                    + seq![' ', '=', ' ', '"'] + quoted + seq!['"', ';', '\n'],
            other => assignment(param_of(m)) == seq!['$'] + m.key + seq![' ', '=', ' ']
                + json_text(other) + seq![';', '\n'],
        },
{
    reveal_strlit("$");
    reveal_strlit(" = ");
    reveal_strlit("\"");
    reveal_strlit(";\n");
    let line = assignment(param_of(m));
    match m.value {
        JsonTree::Text(text) => {
            law_escaped_text_reads_back(text);
            assert(line == seq!['$'] + m.key + seq![' ', '=', ' ', '"'] + escaped(text) + seq![
                '"',
                ';',
                '\n',
            ]);
        },
        other => {
            assert(line == seq!['$'] + m.key + seq![' ', '=', ' '] + json_text(other) + seq![
                ';',
                '\n',
            ]);
        },
    }
}

/// Every member of the object of parameters gives a parameter, in the same order; parameters that
/// cannot be read give none.
pub proof fn law_every_member_gives_a_parameter(members: Seq<MemberTree>, k: int)
    requires
        0 <= k < members.len(),
    ensures
        params_of(Some(members)) is Some,
        params_of(Some(members))->Some_0.len() == members.len(),
        params_of(Some(members))->Some_0[k] == param_of(members[k]),
        params_of(Some(members))->Some_0[k].name == members[k].key,
        params_of(None) is None,
{
}

proof fn lemma_assignments_concat(a: Seq<ParamView>, b: Seq<ParamView>)
    ensures
        assignments(a + b) == assignments(a) + assignments(b),
    decreases b.len(),
{
    if b.len() == 0 {
        assert(a + b == a);
        assert(assignments(a) + assignments(b) == assignments(a));
    } else {
        assert((a + b).drop_last() == a + b.drop_last());
        assert((a + b).last() == b.last());
        lemma_assignments_concat(a, b.drop_last());
        assert(assignments(a) + (assignments(b.drop_last()) + assignment(b.last())) == assignments(
            a,
        ) + assignments(b.drop_last()) + assignment(b.last()));
    }
}

/// The parameters are set one after the other, each by its own line and none twice, and then the
/// code runs as it was saved.
pub proof fn law_parameters_are_set_in_order(
    first: ParamView,
    others: Seq<ParamView>,
    code: Seq<char>,
)
    ensures
        skill_command(Some(seq![first] + others), code) == assignment(first) + skill_command(
            Some(others),
            code,
        ),
        skill_command(Some(seq![]), code) == code,
        skill_command(None, code) == code,
{
    lemma_assignments_concat(seq![first], others);
    assert(seq![first].drop_last() == Seq::<ParamView>::empty());
    assert(assignments(Seq::<ParamView>::empty()) == Seq::<char>::empty());
    assert(assignments(seq![first]) == assignment(first));
    assert(assignment(first) + assignments(others) + code == assignment(first) + (assignments(
        others,
    ) + code));
    assert(Seq::<char>::empty() + code == code);
}

/// A skill is listed with its name, its parameters in order if it has any, and its description,
/// each of them whole.
pub proof fn law_a_line_describes_the_skill(skill: SkillDef)
    ensures
        skill.parameters@.len() == 0 ==> skill_line(skill) == skill.name@ + seq![':', ' ']
            + skill.description@,
        skill.parameters@.len() > 0 ==> skill_line(skill) == skill.name@ + " (params: "@ + joined(
            views(skill.parameters@),
            seq![',', ' '],
        ) + seq![')', ':', ' '] + skill.description@,
{
    reveal_strlit(": ");
    reveal_strlit(", ");
    reveal_strlit(")");
    assert(", "@ == seq![',', ' ']);
    if skill.parameters@.len() == 0 {
        assert(skill_line(skill) == skill.name@ + seq![':', ' '] + skill.description@);
    } else {
        assert(skill_line(skill) == skill.name@ + " (params: "@ + joined(
            views(skill.parameters@),
            seq![',', ' '],
        ) + seq![')', ':', ' '] + skill.description@);
    }
}

/// The listing follows the files: each file that could be read gives one line, in the order of the
/// files, and one that could not gives none.
pub proof fn law_the_listing_follows_the_files(
    first: Option<SkillDef>,
    others: Seq<Option<SkillDef>>,
)
    ensures
        skill_lines(seq![first] + others) == (match first {
            Some(skill) => seq![skill_line(skill)],
            None => seq![],
        }) + skill_lines(others),
        skill_lines(seq![]) == Seq::<Seq<char>>::empty(),
    decreases others.len(),
{
    let all = seq![first] + others;
    let head = match first {
        Some(skill) => seq![skill_line(skill)],
        None => seq![],
    };
    if others.len() == 0 {
        assert(all.drop_last() == Seq::<Option<SkillDef>>::empty());
        assert(all.last() == first);
        assert(skill_lines(all.drop_last()) == Seq::<Seq<char>>::empty());
        assert(skill_lines(all) == head + skill_lines(others));
    } else {
        law_the_listing_follows_the_files(first, others.drop_last());
        assert(all.drop_last() == seq![first] + others.drop_last());
        assert(all.last() == others.last());
        assert(skill_lines(all) == head + skill_lines(others));
    }
}

/// The lines of the listing stand one below the other; without any it is said that there are none.
pub proof fn law_the_list_holds_every_line(skills: Seq<Option<SkillDef>>)
    ensures
        skill_lines(skills).len() > 0 ==> skill_list(skills) == joined(
            skill_lines(skills),
            seq!['\n'],
        ),
        skill_lines(skills).len() == 0 ==> skill_list(skills) == "No skills saved yet."@,
{
    reveal_strlit("\n");
    assert("\n"@ == seq!['\n']);
}

/// The file of a skill is named after it, and a file is one of a skill just if it is the file of
/// some skill with a name.
pub proof fn law_skill_files_are_named_after_skills(file: Seq<char>)
    ensures
        skill_file(file) == file + seq!['.', 'j', 's', 'o', 'n'],
        names_skill(file) <==> exists|name: Seq<char>|
            name.len() > 0 && #[trigger] skill_file(name) == file,
{
    reveal_strlit(".json");
    assert(".json"@ == seq!['.', 'j', 's', 'o', 'n']);
    if names_skill(file) {
        let name = file.take(file.len() - 5);
        assert(skill_file(name) == file);
    }
    if exists|name: Seq<char>| name.len() > 0 && #[trigger] skill_file(name) == file {
        let name = choose|name: Seq<char>| name.len() > 0 && #[trigger] skill_file(name) == file;
        law_skill_files_are_recognised(name);
    }
}

/// What a skill answers: what it printed if it succeeded, else its error output, else its output,
/// each of them whole and without the white space around it.
pub proof fn law_what_a_skill_answers(stdout: Seq<char>, stderr: Seq<char>)
    ensures
        trimmed(stderr).len() == 0 && trimmed(stdout).len() > 0 ==> skill_result(
            true,
            stdout,
            stderr,
        ) == Ok::<Seq<char>, Seq<char>>(trimmed(stdout)),
        skill_result(true, stdout, stderr) == command_result(true, None, stdout, stderr),
        trimmed(stderr).len() > 0 ==> skill_result(false, stdout, stderr) == Err::<
            Seq<char>,
            Seq<char>,
        >(trimmed(stderr)),
        trimmed(stderr).len() == 0 ==> skill_result(false, stdout, stderr) == Err::<
            Seq<char>,
            Seq<char>,
        >(trimmed(stdout)),
{
}

/// The model of a parameter holds its name and its value.
pub proof fn law_parameters_hold_everything(p: Param)
    ensures
        p@.name == p.name@,
        match p.value {
            ParamValue::Text(s) => p@.value == ParamValueView::Text(s@),
            ParamValue::Literal(s) => p@.value == ParamValueView::Literal(s@),
        },
{
}

} // verus!
