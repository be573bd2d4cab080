//! One line about a tool call, and one about a delegation that ended.

use vstd::prelude::*;
use crate::json::parsed;
use crate::json::Json;
use crate::json::JsonTree;
use crate::text::all_ascii;
use crate::text::ascii_lower;
use crate::text::begins_with;
use crate::text::byte_len;
use crate::text::chars_of;
use crate::text::contains;
use crate::text::first_line;
use crate::text::lemma_first_line;
use crate::text::lemma_occurs;
use crate::text::lemma_trimmed;
use crate::text::lowercase;
use crate::text::no_outer_space;
use crate::text::occurs;
use crate::text::opt_string;
use crate::text::opt_text;
use crate::text::same_text;
use crate::text::slice_chars;
use crate::text::starts_with;
use crate::text::take_chars;
use crate::text::take_first_line;
use crate::text::to_lowercase;
use crate::text::trim;
use crate::text::trimmed;
use crate::text::underscore;
use crate::text::underscored;
use crate::text::utf8_len;

verus! {

// ─── shortening ──────────────────────────────────────────────────────────

/// At most `max` characters of `s`, the last three of them dots where `s` has
/// more.
pub open spec fn truncated(s: Seq<char>, max: int) -> Seq<char> {
    if s.len() <= max {
        s
    } else if max >= 3 {
        s.take(max - 3) + "..."@
    } else {
        "..."@
    }
}

/// At most `max` characters of `s`, the last three of them dots where `s` has
/// more.
pub fn truncate_str(s: &str, max: usize) -> (r: String)
    ensures
        r@ == truncated(s@, max as int),
{
    if s.unicode_len() <= max {
        s.to_owned()
    } else {
        let kept: usize = if max >= 3 {
            max - 3
        } else {
            0
        };
        let mut out = take_chars(s, kept).to_owned();
        out.append("...");
        assert(s@.take(0) + "..."@ =~= "..."@);
        out
    }
}

/// The longest end of `path` that holds at most `slashes` slashes.
pub open spec fn path_end(path: Seq<char>, slashes: nat) -> Seq<char>
    decreases path.len(),
{
    if path.len() == 0 {
        path
    } else if path.last() != '/' {
        path_end(path.drop_last(), slashes).push(path.last())
    } else if slashes > 0 {
        path_end(path.drop_last(), (slashes - 1) as nat).push('/')
    } else {
        Seq::empty()
    }
}

/// How many bytes a path may have to be shown in full.
pub const SHORT_PATH_BYTES: usize = 60;

/// A path, or its last two components where it is long.
pub open spec fn shortened(path: Seq<char>) -> Seq<char> {
    if utf8_len(path) <= SHORT_PATH_BYTES {
        path
    } else {
        path_end(path, 1)
    }
}

/// A path, or its last two components where it is long.
pub fn short_path(path: &str) -> (r: &str)
    ensures
        r@ == shortened(path@),
{
    if byte_len(path) <= SHORT_PATH_BYTES {
        return path;
    }
    let chars = chars_of(path);
    let n: usize = chars.len();
    let mut i: usize = n;
    let mut left: usize = 1;
    assert(path@.take(n as int) =~= path@);
    assert(path_end(path@, 1) + path@.skip(n as int) =~= path_end(path@, 1));
    while i > 0
        invariant
            i <= n == chars@.len(),
            chars@ == path@,
            left <= 1,
            path_end(path@, 1) == path_end(path@.take(i as int), left as nat) + path@.skip(i as int),
        ensures
            i <= n,
            path_end(path@, 1) == path@.skip(i as int),
        decreases i,
    {
        let ghost front = path@.take(i as int);
        assert(front.drop_last() =~= path@.take(i - 1));
        assert(front.last() == path@[i - 1]);
        if chars[i - 1] == '/' {
            if left == 0 {
                assert(Seq::<char>::empty() + path@.skip(i as int) =~= path@.skip(i as int));
                break;
            }
            assert(path_end(front.drop_last(), 0).push('/') + path@.skip(i as int) =~= path_end(
                front.drop_last(),
                0,
            ) + path@.skip(i - 1));
            left = left - 1;
        } else {
            assert(path_end(front.drop_last(), left as nat).push(path@[i - 1]) + path@.skip(
                i as int,
            ) =~= path_end(front.drop_last(), left as nat) + path@.skip(i - 1));
        }
        i = i - 1;
        if i == 0 {
            assert(path@.take(0) =~= Seq::<char>::empty());
            assert(Seq::<char>::empty() + path@.skip(0) =~= path@.skip(0));
        }
    }
    assert(path@.subrange(i as int, n as int) =~= path@.skip(i as int));
    slice_chars(path, i, n)
}

// ─── tool calls ──────────────────────────────────────────────────────────

/// The member under the first of `keys` that there is.
pub open spec fn first_member(value: JsonTree, keys: Seq<Seq<char>>) -> Option<JsonTree>
    decreases keys.len(),
{
    if keys.len() == 0 {
        None
    } else {
        match value.get(keys[0]) {
            Some(v) => Some(v),
            None => first_member(value, keys.skip(1)),
        }
    }
}

/// The text of the member under the first of `keys` that there is.
pub open spec fn first_member_text(value: JsonTree, keys: Seq<Seq<char>>) -> Option<Seq<char>> {
    match first_member(value, keys) {
        Some(v) => v.text(),
        None => None,
    }
}

fn find_text<'a>(value: &'a Json, first: &str, second: &str) -> (r: Option<&'a str>)
    ensures
        opt_text(r) == first_member_text(value@, seq![first@, second@]),
{
    proof {
        reveal_with_fuel(first_member, 3);
        assert(seq![first@, second@].skip(1) =~= seq![second@]);
    }
    match value.get(first) {
        Some(v) => v.as_str(),
        None => value.str_at(second),
    }
}

fn find_text_of_three<'a>(value: &'a Json, first: &str, second: &str, third: &str) -> (r: Option<
    &'a str,
>)
    ensures
        opt_text(r) == first_member_text(value@, seq![first@, second@, third@]),
{
    proof {
        reveal_with_fuel(first_member, 4);
        assert(seq![first@, second@, third@].skip(1) =~= seq![second@, third@]);
    }
    match value.get(first) {
        Some(v) => v.as_str(),
        None => find_text(value, second, third),
    }
}

/// What a tool does to a file, by its name.
pub open spec fn file_verb(tool: Seq<char>) -> Seq<char> {
    if occurs(tool, "write"@) {
        "Write"@
    } else if occurs(tool, "edit"@) || occurs(tool, "change"@) || occurs(tool, "update"@) {
        "Edit"@
    } else if occurs(tool, "delete"@) {
        "Delete"@
    } else {
        "Read"@
    }
}

fn file_label(tool: &str) -> (r: &'static str)
    ensures
        r@ == file_verb(tool@),
{
    if contains(tool, "write") {
        "Write"
    } else if contains(tool, "edit") || contains(tool, "change") || contains(tool, "update") {
        "Edit"
    } else if contains(tool, "delete") {
        "Delete"
    } else {
        "Read"
    }
}

/// What the arguments of a search say.
pub open spec fn search_detail(pattern: Seq<char>, path: Option<Seq<char>>) -> Seq<char> {
    match path {
        Some(p) => "Grep: \""@ + truncated(pattern, 40) + "\" in "@ + shortened(p),
        None => "Grep: \""@ + truncated(pattern, 60) + "\""@,
    }
}

/// What arguments hand to another agent, where they do.
pub open spec fn task_text(input: JsonTree) -> Option<Seq<char>> {
    if input.get("subagent_type"@) is Some || input.get("task_id"@) is Some || input.get(
        "subject"@,
    ) is Some {
        first_member_text(input, seq!["description"@, "subject"@, "prompt"@])
    } else {
        None
    }
}

/// What the arguments of a tool say, where they are of a kind that is known: a
/// file, a command, a search, a pattern, a task, an address, a query or a list.
pub open spec fn input_detail(tool: Seq<char>, input: JsonTree) -> Option<Seq<char>> {
    let path = first_member_text(input, seq!["file_path"@, "path"@, "notebook_path"@]);
    let command = first_member_text(input, seq!["command"@, "cmd"@]);
    if path is Some {
        Some(file_verb(tool) + ": "@ + shortened(path->0))
    } else if command is Some {
        Some("Bash: "@ + truncated(first_line(command->0), 80))
    } else if input.text_at("pattern"@) is Some {
        Some(search_detail(input.text_at("pattern"@)->0, input.text_at("path"@)))
    } else if input.text_at("glob"@) is Some {
        Some("Glob: "@ + input.text_at("glob"@)->0)
    } else if task_text(input) is Some {
        Some("Agent: "@ + truncated(task_text(input)->0, 60))
    } else if input.text_at("url"@) is Some {
        Some("Fetch: "@ + truncated(input.text_at("url"@)->0, 80))
    } else if input.text_at("query"@) is Some {
        Some("Search: "@ + truncated(input.text_at("query"@)->0, 60))
    } else if input.get("todos"@) is Some {
        Some("TodoWrite"@)
    } else {
        None
    }
}

/// The label, a colon and the rest.
fn labelled(label: &str, rest: &str) -> (r: String)
    ensures
        r@ == label@ + rest@,
{
    let mut out = label.to_owned();
    out.append(rest);
    out
}

fn find_task<'a>(input: &'a Json) -> (r: Option<&'a str>)
    ensures
        opt_text(r) == task_text(input@),
{
    if input.get("subagent_type").is_some() || input.get("task_id").is_some() || input.get(
        "subject",
    ).is_some() {
        find_text_of_three(input, "description", "subject", "prompt")
    } else {
        None
    }
}

fn describe_search(pattern: &str, path: Option<&str>) -> (r: String)
    ensures
        r@ == search_detail(pattern@, opt_text(path)),
{
    let mut out = "Grep: \"".to_owned();
    match path {
        Some(p) => {
            out.append(truncate_str(pattern, 40).as_str());
            out.append("\" in ");
            out.append(short_path(p));
        },
        None => {
            out.append(truncate_str(pattern, 60).as_str());
            out.append("\"");
        },
    }
    out
}

/// What the arguments of a tool say, where they are of a kind that is known.
pub fn describe_input(tool: &str, input: &Json) -> (r: Option<String>)
    ensures
        opt_string(r) == input_detail(tool@, input@),
        forall|command: Seq<char>|
            names_no_file(input@) && #[trigger] gives_command(input@, command) ==> (
            r matches Some(line) && line@ == "Bash: "@ + truncated(first_line(command), 80)),
{
    proof {
        assert forall|command: Seq<char>|
            names_no_file(input@) && #[trigger] gives_command(input@, command) implies input_detail(
            tool@,
            input@,
        ) == Some("Bash: "@ + truncated(first_line(command), 80)) by {
            lemma_command_is_shown(tool@, input@, command);
        }
    }
    match find_text_of_three(input, "file_path", "path", "notebook_path") {
        Some(path) => {
            let mut out = file_label(tool).to_owned();
            out.append(": ");
            out.append(short_path(path));
            return Some(out);
        },
        None => {},
    }
    match find_text(input, "command", "cmd") {
        Some(command) => {
            let line = truncate_str(take_first_line(command), 80);
            return Some(labelled("Bash: ", line.as_str()));
        },
        None => {},
    }
    match input.str_at("pattern") {
        Some(pattern) => {
            return Some(describe_search(pattern, input.str_at("path")));
        },
        None => {},
    }
    match input.str_at("glob") {
        Some(pattern) => {
            return Some(labelled("Glob: ", pattern));
        },
        None => {},
    }
    match find_task(input) {
        Some(task) => {
            return Some(labelled("Agent: ", truncate_str(task, 60).as_str()));
        },
        None => {},
    }
    match input.str_at("url") {
        Some(url) => {
            return Some(labelled("Fetch: ", truncate_str(url, 80).as_str()));
        },
        None => {},
    }
    match input.str_at("query") {
        Some(query) => {
            return Some(labelled("Search: ", truncate_str(query, 60).as_str()));
        },
        None => {},
    }
    if input.get("todos").is_some() {
        return Some("TodoWrite".to_owned());
    }
    None
}

/// The name of a tool from its title: in small letters, with underscores.
pub open spec fn tool_name(title: Seq<char>) -> Seq<char> {
    underscored(lowercase(title))
}

/// Whether a tool runs commands, by its name.
pub open spec fn runs_commands(tool: Seq<char>) -> bool {
    occurs(tool, "bash"@) || occurs(tool, "shell"@) || occurs(tool, "exec"@)
}

/// What is said of a tool call whose arguments say nothing: the command, where
/// they are one, else the title.
pub open spec fn plain_detail(
    tool: Seq<char>,
    title: Seq<char>,
    raw_input: Option<Seq<char>>,
) -> Seq<char> {
    match raw_input {
        Some(raw) => if !begins_with(raw, '{') && !begins_with(raw, '[') && runs_commands(tool) {
            "Bash: "@ + truncated(first_line(raw), 80)
        } else {
            title
        },
        None => title,
    }
}

/// What is said of a tool call, given what its arguments read as.
pub open spec fn call_detail(
    tool: Seq<char>,
    title: Seq<char>,
    raw_input: Option<Seq<char>>,
    input: Option<JsonTree>,
) -> Seq<char> {
    match input {
        Some(tree) => match input_detail(tool, tree) {
            Some(detail) => detail,
            None => plain_detail(tool, title, raw_input),
        },
        None => plain_detail(tool, title, raw_input),
    }
}

/// What text reads as, where it is JSON.
pub open spec fn read_input(raw_input: Option<Seq<char>>) -> Option<JsonTree> {
    match raw_input {
        Some(raw) => match parsed(raw) {
            Ok(tree) => Some(tree),
            Err(_) => None,
        },
        None => None,
    }
}

/// What is said of a tool call.
pub open spec fn tool_detail(title: Seq<char>, raw_input: Option<Seq<char>>) -> Seq<char> {
    call_detail(tool_name(title), title, raw_input, read_input(raw_input))
}

/// The view of an optional value.
pub open spec fn opt_json(value: Option<Json>) -> Option<JsonTree> {
    match value {
        Some(v) => Some(v@),
        None => None,
    }
}

fn read_json(raw_input: Option<&str>) -> (r: Option<Json>)
    ensures
        opt_json(r) == read_input(opt_text(raw_input)),
{
    match raw_input {
        Some(raw) => match Json::parse(raw) {
            Ok(v) => Some(v),
            Err(_) => None,
        },
        None => None,
    }
}

/// What is said of a tool call, given the tool's name and what its arguments
/// read as.
pub fn describe_call(tool: &str, title: &str, raw_input: Option<&str>, input: &Option<Json>) -> (r:
    String)
    ensures
        r@ == call_detail(tool@, title@, opt_text(raw_input), opt_json(*input)),
{
    match input {
        Some(v) => match describe_input(tool, v) {
            Some(detail) => {
                return detail;
            },
            None => {},
        },
        None => {},
    }
    match raw_input {
        Some(raw) => {
            if !starts_with(raw, '{') && !starts_with(raw, '[') && (contains(tool, "bash")
                || contains(tool, "shell") || contains(tool, "exec")) {
                let line = truncate_str(take_first_line(raw), 80);
                return labelled("Bash: ", line.as_str());
            }
        },
        None => {},
    }
    title.to_owned()
}

/// What is said of a tool call.
pub fn format_tool_call_detail(title: &str, raw_input: Option<&str>) -> (r: String)
    ensures
        r@ == tool_detail(title@, opt_text(raw_input)),
        all_ascii(title@) ==> r@ == call_detail(
            underscored(ascii_lower(title@)),
            title@,
            opt_text(raw_input),
            read_input(opt_text(raw_input)),
        ),
{
    let lowered = to_lowercase(title);
    let tool = underscore(lowered.as_str());
    let input = read_json(raw_input);
    describe_call(tool.as_str(), title, raw_input, &input)
}

// ─── delegations ─────────────────────────────────────────────────────────

/// Whether a title names the delegation tool.
pub open spec fn titled_delegation(title: Seq<char>) -> bool {
    occurs(tool_name(title), "delegate_to_agent"@)
}

/// Whether a title names the delegation tool, however it is spelled.
pub fn is_delegation_title(title: &str) -> (r: bool)
    ensures
        r == titled_delegation(title@),
        all_ascii(title@) ==> r == occurs(
            underscored(ascii_lower(title@)),
            "delegate_to_agent"@,
        ),
{
    let lowered = to_lowercase(title);
    let tool = underscore(lowered.as_str());
    contains(tool.as_str(), "delegate_to_agent")
}

/// The agent that arguments name.
pub open spec fn agent_of(raw_input: Option<Seq<char>>) -> Option<Seq<char>> {
    match read_input(raw_input) {
        Some(tree) => tree.text_at("agent_type"@),
        None => None,
    }
}

/// The agent that arguments name, given what they read as.
pub fn named_agent(input: &Json) -> (r: Option<String>)
    ensures
        opt_string(r) == input@.text_at("agent_type"@),
{
    match input.str_at("agent_type") {
        Some(s) => Some(s.to_owned()),
        None => None,
    }
}

/// The agent that arguments name.
pub fn extract_agent_type(raw_input: &str) -> (r: Option<String>)
    ensures
        opt_string(r) == agent_of(Some(raw_input@)),
{
    match Json::parse(raw_input) {
        Ok(v) => named_agent(&v),
        Err(_) => None,
    }
}

/// How much of a delegation's text is shown.
pub const OUTCOME_PREVIEW_CHARS: usize = 200;

/// A delegation that ended well, with what it said.
pub open spec fn success_line(agent: Seq<char>, text: Seq<char>) -> Seq<char> {
    let said = truncated(trimmed(text), OUTCOME_PREVIEW_CHARS as int);
    if said.len() == 0 {
        "✅ "@ + agent + " done"@
    } else {
        "✅ "@ + agent + ": "@ + said
    }
}

/// One line about a delegation that ended: of an outcome that is said to be `ok`
/// its text, of one that is said to be `err` its code, of any other output the
/// output itself.
pub open spec fn outcome_line(
    agent: Seq<char>,
    output: Option<Seq<char>>,
    read: Option<JsonTree>,
) -> Seq<char> {
    let kind = match read {
        Some(tree) => tree.text_at("kind"@),
        None => None,
    };
    if output is None {
        success_line(agent, Seq::empty())
    } else if kind == Some("ok"@) {
        success_line(
            agent,
            match read->0.text_at("text"@) {
                Some(text) => text,
                None => Seq::empty(),
            },
        )
    } else if kind == Some("err"@) {
        "❌ "@ + agent + " failed ("@ + (match read->0.text_at("code"@) {
            Some(code) => code,
            None => "err"@,
        }) + ")"@
    } else {
        success_line(agent, output->0)
    }
}

/// One line about a delegation that ended.
pub open spec fn delegation_line(
    raw_input: Option<Seq<char>>,
    raw_output: Option<Seq<char>>,
) -> Seq<char> {
    let agent = match agent_of(raw_input) {
        Some(agent) => agent,
        None => "agent"@,
    };
    outcome_line(agent, raw_output, read_input(raw_output))
}

fn describe_success(agent: &str, text: &str) -> (r: String)
    ensures
        r@ == success_line(agent@, text@),
{
    let said = truncate_str(trim(text), OUTCOME_PREVIEW_CHARS);
    let mut out = "✅ ".to_owned();
    out.append(agent);
    if said.as_str().is_empty() {
        out.append(" done");
    } else {
        out.append(": ");
        out.append(said.as_str());
    }
    out
}

/// One line about a delegation that ended, given its agent and what its output
/// reads as.
pub fn describe_outcome(agent: &str, output: Option<&str>, read: &Option<Json>) -> (r: String)
    ensures
        r@ == outcome_line(agent@, opt_text(output), opt_json(*read)),
{
    proof {
        reveal_strlit("");
        reveal_strlit("ok");
        reveal_strlit("err");
        assert(""@ =~= Seq::<char>::empty());
    }
    let out = match output {
        Some(out) => out,
        None => {
            return describe_success(agent, "");
        },
    };
    match read {
        Some(v) => match v.str_at("kind") {
            Some(kind) => {
                if same_text(kind, "ok") {
                    return match v.str_at("text") {
                        Some(text) => describe_success(agent, text),
                        None => describe_success(agent, ""),
                    };
                }
                if same_text(kind, "err") {
                    let mut line = "❌ ".to_owned();
                    line.append(agent);
                    line.append(" failed (");
                    match v.str_at("code") {
                        Some(code) => line.append(code),
                        None => line.append("err"),
                    }
                    line.append(")");
                    return line;
                }
            },
            None => {},
        },
        None => {},
    }
    describe_success(agent, out)
}

/// One line about a delegation that ended.
pub fn format_delegation_outcome(raw_input: Option<&str>, raw_output: Option<&str>) -> (r: String)
    ensures
        r@ == delegation_line(opt_text(raw_input), opt_text(raw_output)),
{
    let named = match raw_input {
        Some(raw) => extract_agent_type(raw),
        None => None,
    };
    let agent = match named {
        Some(agent) => agent,
        None => "agent".to_owned(),
    };
    let read = read_json(raw_output);
    describe_outcome(agent.as_str(), raw_output, &read)
}

// ─── what is shown ───────────────────────────────────────────────────────

/// Whether arguments name no file: the first of the members for one that there is,
/// if any, is no text.
pub open spec fn names_no_file(input: JsonTree) -> bool {
    match input.get("file_path"@) {
        Some(v) => !(v is Text),
        None => match input.get("path"@) {
            Some(v) => !(v is Text),
            None => match input.get("notebook_path"@) {
                Some(v) => !(v is Text),
                None => true,
            },
        },
    }
}

/// Whether `command` is the command that arguments give.
pub open spec fn gives_command(input: JsonTree, command: Seq<char>) -> bool {
    ||| input.text_at("command"@) == Some(command)
    ||| input.get("command"@) is None && input.text_at("cmd"@) == Some(command)
}

/// Whether `path` is the file that arguments name.
pub open spec fn names_file(input: JsonTree, path: Seq<char>) -> bool {
    ||| input.text_at("file_path"@) == Some(path)
    ||| input.get("file_path"@) is None && input.text_at("path"@) == Some(path)
    ||| input.get("file_path"@) is None && input.get("path"@) is None && input.text_at(
        "notebook_path"@,
    ) == Some(path)
}

proof fn lemma_first_members(input: JsonTree)
    ensures
        names_no_file(input) <==> first_member_text(
            input,
            seq!["file_path"@, "path"@, "notebook_path"@],
        ) is None,
        forall|path: Seq<char>| #[trigger]
            names_file(input, path) ==> first_member_text(
                input,
                seq!["file_path"@, "path"@, "notebook_path"@],
            ) == Some(path),
        forall|command: Seq<char>| #[trigger]
            gives_command(input, command) <==> first_member_text(
                input,
                seq!["command"@, "cmd"@],
            ) == Some(command),
{
    reveal_with_fuel(first_member, 4);
    assert(seq!["file_path"@, "path"@, "notebook_path"@].skip(1) =~= seq![
        "path"@,
        "notebook_path"@,
    ]);
    assert(seq!["path"@, "notebook_path"@].skip(1) =~= seq!["notebook_path"@]);
    assert(seq!["command"@, "cmd"@].skip(1) =~= seq!["cmd"@]);
}

/// A command is shown by the command itself: its first line, cut to 80 characters,
/// whatever else the arguments say. A line that is no longer stands there in full.
pub proof fn lemma_command_is_shown(tool: Seq<char>, input: JsonTree, command: Seq<char>)
    requires
        names_no_file(input),
        gives_command(input, command),
    ensures
        input_detail(tool, input) == Some("Bash: "@ + truncated(first_line(command), 80)),
        !command.contains('\n') && command.len() <= 80 ==> input_detail(tool, input) == Some(
            "Bash: "@ + command,
        ),
{
    lemma_first_members(input);
    if !command.contains('\n') {
        lemma_first_line(command, Seq::empty());
    }
}

/// Two calls of the same command that name no file are described alike, whatever
/// their tools are called and whatever other arguments they have; and short
/// commands of one line that differ are described differently.
pub proof fn lemma_command_decides_description(
    tool: Seq<char>,
    other_tool: Seq<char>,
    input: JsonTree,
    other: JsonTree,
    command: Seq<char>,
    other_command: Seq<char>,
)
    requires
        names_no_file(input),
        names_no_file(other),
        gives_command(input, command),
        gives_command(other, other_command),
    ensures
        command == other_command ==> input_detail(tool, input) == input_detail(other_tool, other),
        !command.contains('\n') && !other_command.contains('\n') && command.len() <= 80
            && other_command.len() <= 80 && command != other_command ==> input_detail(tool, input)
            != input_detail(other_tool, other),
{
    lemma_command_is_shown(tool, input, command);
    lemma_command_is_shown(other_tool, other, other_command);
    if !command.contains('\n') && !other_command.contains('\n') && command.len() <= 80
        && other_command.len() <= 80 && input_detail(tool, input) == input_detail(
        other_tool,
        other,
    ) {
        let a = "Bash: "@ + command;
        let b = "Bash: "@ + other_command;
        assert(a.skip("Bash: "@.len() as int) =~= command);
        assert(b.skip("Bash: "@.len() as int) =~= other_command);
    }
}

/// A file is shown by what the tool does to it and by its path, whatever else the
/// arguments say; a path of at most 60 bytes stands there in full.
pub proof fn lemma_file_is_shown(tool: Seq<char>, input: JsonTree, path: Seq<char>)
    requires
        names_file(input, path),
    ensures
        input_detail(tool, input) == Some(file_verb(tool) + ": "@ + shortened(path)),
        utf8_len(path) <= 60 ==> input_detail(tool, input) == Some(file_verb(tool) + ": "@ + path),
{
    lemma_first_members(input);
}

/// What a tool does to a file is told by its name: a tool that writes, edits,
/// changes, updates or deletes is never said to read.
pub proof fn lemma_file_verb(tool: Seq<char>)
    ensures
        file_verb(tool) == "Write"@ <==> occurs(tool, "write"@),
        file_verb(tool) == "Edit"@ <==> !occurs(tool, "write"@) && (occurs(tool, "edit"@) || occurs(
            tool,
            "change"@,
        ) || occurs(tool, "update"@)),
        file_verb(tool) == "Read"@ <==> !occurs(tool, "write"@) && !occurs(tool, "edit"@)
            && !occurs(tool, "change"@) && !occurs(tool, "update"@) && !occurs(tool, "delete"@),
        file_verb(tool) == "Delete"@ ==> occurs(tool, "delete"@),
{
    reveal_strlit("Write");
    reveal_strlit("Edit");
    reveal_strlit("Delete");
    reveal_strlit("Read");
    assert("Write"@.len() == 5);
    assert("Edit"@.len() == 4);
    assert("Delete"@.len() == 6);
    assert("Read"@.len() == 4);
    assert("Edit"@[0] != "Read"@[0]);
}

/// A text that fits is shown as it is; a longer one by its front and three dots,
/// which fill the room there is.
pub proof fn lemma_truncated(s: Seq<char>, max: int)
    requires
        max >= 3,
    ensures
        s.len() <= max ==> truncated(s, max) == s,
        s.len() > max ==> truncated(s, max).len() == max && truncated(s, max).take(max - 3)
            == s.take(max - 3) && truncated(s, max).skip(max - 3) == "..."@,
{
    reveal_strlit("...");
    assert("..."@.len() == 3);
    if s.len() > max {
        assert(truncated(s, max).take(max - 3) =~= s.take(max - 3));
        assert(truncated(s, max).skip(max - 3) =~= "..."@);
    }
}

/// How many slashes `s` holds.
pub open spec fn slashes_in(s: Seq<char>) -> nat
    decreases s.len(),
{
    if s.len() == 0 {
        0
    } else {
        slashes_in(s.drop_last()) + if s.last() == '/' {
            1nat
        } else {
            0nat
        }
    }
}

proof fn lemma_path_end(path: Seq<char>, slashes: nat)
    ensures
        path_end(path, slashes).is_suffix_of(path),
        slashes_in(path_end(path, slashes)) <= slashes,
        path_end(path, slashes).len() < path.len() ==> path[path.len() - path_end(
            path,
            slashes,
        ).len() - 1] == '/' && slashes_in(path_end(path, slashes)) == slashes,
    decreases path.len(),
{
    if path.len() > 0 {
        let front = path.drop_last();
        let end = path_end(path, slashes);
        if path.last() != '/' {
            lemma_path_end(front, slashes);
            let inner = path_end(front, slashes);
            assert(end.drop_last() =~= inner);
            assert(front =~= front.take(front.len() - inner.len()) + inner);
            assert(path =~= path.take(path.len() - end.len()) + end);
        } else if slashes > 0 {
            let less = (slashes - 1) as nat;
            lemma_path_end(front, less);
            let inner = path_end(front, less);
            assert(end.drop_last() =~= inner);
            assert(path =~= path.take(path.len() - end.len()) + end);
        } else {
            assert(path =~= path.take(path.len() as int) + end);
        }
    } else {
        assert(path =~= path.take(0) + path);
    }
}

/// A path of at most 60 bytes is shown in full; a longer one by its end, from
/// behind its last slash but one, or whole where it has fewer slashes.
pub proof fn lemma_shortened(path: Seq<char>)
    ensures
        utf8_len(path) <= 60 ==> shortened(path) == path,
        shortened(path).is_suffix_of(path),
        shortened(path).len() < path.len() ==> path[path.len() - shortened(path).len() - 1] == '/'
            && slashes_in(shortened(path)) == 1,
        utf8_len(path) > 60 ==> slashes_in(shortened(path)) <= 1,
{
    lemma_path_end(path, 1);
    assert(path =~= path.take(0) + path);
}

/// Arguments that name no file and give no command are shown by the first of these
/// that they have: a pattern to search for, a glob, a task, an address, a query, a
/// list of things to do.
pub proof fn lemma_other_arguments_are_shown(tool: Seq<char>, input: JsonTree)
    requires
        names_no_file(input),
        forall|command: Seq<char>| !gives_command(input, command),
    ensures
        ({
            let shown = input_detail(tool, input);
            let none = input.text_at("pattern"@) is None;
            let neither = none && input.text_at("glob"@) is None;
            let to_agent = input.get("subagent_type"@) is Some || input.get("task_id"@) is Some
                || input.get("subject"@) is Some;
            &&& input.text_at("pattern"@) matches Some(pattern) ==> (input.text_at("path"@) is None
                ==> shown == Some("Grep: \""@ + truncated(pattern, 60) + "\""@)) && (input.text_at(
                "path"@,
            ) matches Some(path) ==> shown == Some(
                "Grep: \""@ + truncated(pattern, 40) + "\" in "@ + shortened(path),
            ))
            &&& none ==> (input.text_at("glob"@) matches Some(glob) ==> shown == Some(
                "Glob: "@ + glob,
            ))
            &&& neither && to_agent ==> (input.text_at("description"@) matches Some(task) ==> shown
                == Some("Agent: "@ + truncated(task, 60)))
            &&& neither && !to_agent ==> (input.text_at("url"@) matches Some(url) ==> shown == Some(
                "Fetch: "@ + truncated(url, 80),
            ))
            &&& neither && !to_agent && input.text_at("url"@) is None ==> (input.text_at(
                "query"@,
            ) matches Some(query) ==> shown == Some("Search: "@ + truncated(query, 60)))
            &&& neither && !to_agent && input.text_at("url"@) is None && input.text_at(
                "query"@,
            ) is None ==> shown == if input.get("todos"@) is Some {
                Some("TodoWrite"@)
            } else {
                None
            }
        }),
{
    lemma_first_members(input);
    let command = first_member_text(input, seq!["command"@, "cmd"@]);
    if command is Some {
        assert(gives_command(input, command->0));
    }
    reveal_with_fuel(first_member, 4);
}

/// What arguments say is what is shown of a call; where they say nothing the title
/// is, or the command where the arguments are one and the tool runs commands.
pub proof fn lemma_call_is_described(title: Seq<char>, raw: Seq<char>, input: JsonTree)
    ensures
        parsed(raw) == Ok::<JsonTree, Seq<char>>(input) ==> (input_detail(
            tool_name(title),
            input,
        ) matches Some(detail) ==> tool_detail(title, Some(raw)) == detail),
        parsed(raw) == Ok::<JsonTree, Seq<char>>(input) && input_detail(
            tool_name(title),
            input,
        ) is None && begins_with(raw, '{') ==> tool_detail(title, Some(raw)) == title,
        parsed(raw) is Err && !begins_with(raw, '{') && !begins_with(raw, '[') && (occurs(
            tool_name(title),
            "bash"@,
        ) || occurs(tool_name(title), "shell"@) || occurs(tool_name(title), "exec"@))
            && !raw.contains('\n') && raw.len() <= 80 ==> tool_detail(title, Some(raw)) == "Bash: "@
            + raw,
        parsed(raw) is Err && !occurs(tool_name(title), "bash"@) && !occurs(
            tool_name(title),
            "shell"@,
        ) && !occurs(tool_name(title), "exec"@) ==> tool_detail(title, Some(raw)) == title,
        tool_detail(title, None) == title,
{
    if !raw.contains('\n') {
        lemma_first_line(raw, Seq::empty());
    }
}

/// The command of a call is what the user is shown of it, however the tool is
/// called.
pub proof fn lemma_users_see_the_command(
    title: Seq<char>,
    raw: Seq<char>,
    input: JsonTree,
    command: Seq<char>,
)
    requires
        parsed(raw) == Ok::<JsonTree, Seq<char>>(input),
        names_no_file(input),
        gives_command(input, command),
        !command.contains('\n'),
        command.len() <= 80,
    ensures
        tool_detail(title, Some(raw)) == "Bash: "@ + command,
{
    lemma_command_is_shown(tool_name(title), input, command);
}

/// What a delegation said is shown behind its agent, without outer white space and
/// cut to 200 characters; where it said nothing it is said to be done, and where it
/// failed its code is shown.
pub proof fn lemma_outcome_is_shown(agent: Seq<char>, output: Seq<char>, outcome: JsonTree)
    ensures
        outcome.text_at("kind"@) == Some("ok"@) ==> (outcome.text_at("text"@) matches Some(text)
            ==> (no_outer_space(text) && 0 < text.len() <= 200 ==> outcome_line(
            agent,
            Some(output),
            Some(outcome),
        ) == "✅ "@ + agent + ": "@ + text) && (trimmed(text).len() > 200 ==> outcome_line(
            agent,
            Some(output),
            Some(outcome),
        ) == "✅ "@ + agent + ": "@ + (trimmed(text).take(197) + "..."@)) && (text.len() == 0
            ==> outcome_line(agent, Some(output), Some(outcome)) == "✅ "@ + agent + " done"@)),
        outcome.text_at("kind"@) == Some("err"@) ==> (outcome.text_at("code"@) matches Some(code)
            ==> outcome_line(agent, Some(output), Some(outcome)) == "❌ "@ + agent + " failed ("@
            + code + ")"@) && (outcome.text_at("code"@) is None ==> outcome_line(
            agent,
            Some(output),
            Some(outcome),
        ) == "❌ "@ + agent + " failed ("@ + "err"@ + ")"@),
        no_outer_space(output) && 0 < output.len() <= 200 ==> outcome_line(
            agent,
            Some(output),
            None,
        ) == "✅ "@ + agent + ": "@ + output,
        outcome_line(agent, None, None) == "✅ "@ + agent + " done"@,
{
    reveal_strlit("ok");
    reveal_strlit("err");
    assert("ok"@.len() == 2);
    assert("err"@.len() == 3);
    lemma_trimmed(output);
    match outcome.text_at("text"@) {
        Some(text) => {
            lemma_trimmed(text);
        },
        None => {},
    }
    lemma_trimmed(Seq::empty());
    assert(trimmed(Seq::empty()).len() == 0);
}

/// The line about a delegation names the agent that its arguments name, if any.
pub proof fn lemma_outcome_names_agent(
    raw: Seq<char>,
    input: JsonTree,
    output: Option<Seq<char>>,
)
    requires
        parsed(raw) == Ok::<JsonTree, Seq<char>>(input),
    ensures
        input.text_at("agent_type"@) matches Some(agent) ==> agent_of(Some(raw)) == Some(agent)
            && delegation_line(Some(raw), output) == outcome_line(agent, output, read_input(output)),
        input.text_at("agent_type"@) is None ==> agent_of(Some(raw)) is None && delegation_line(
            Some(raw),
            output,
        ) == outcome_line("agent"@, output, read_input(output)),
        agent_of(None) is None,
{
}

/// A title names the delegation tool if and only if its name, in small letters and
/// with underscores, is something, the tool's name, and something.
pub proof fn lemma_titled_delegation(title: Seq<char>)
    ensures
        titled_delegation(title) <==> exists|before: Seq<char>, after: Seq<char>|
            underscored(lowercase(title)) == #[trigger] (before + "delegate_to_agent"@ + after),
{
    lemma_occurs(underscored(lowercase(title)), "delegate_to_agent"@);
}

/// A task is told by its description, or else by its subject, or else by its prompt.
pub proof fn lemma_task_is_told(input: JsonTree)
    ensures
        input.get("subagent_type"@) is Some || input.get("task_id"@) is Some || input.get(
            "subject"@,
        ) is Some ==> (input.text_at("description"@) is Some ==> task_text(input) == input.text_at(
            "description"@,
        )) && (input.get("description"@) is None && input.text_at("subject"@) is Some
            ==> task_text(input) == input.text_at("subject"@)) && (input.get("description"@) is None
            && input.get("subject"@) is None ==> task_text(input) == input.text_at("prompt"@)),
        input.get("subagent_type"@) is None && input.get("task_id"@) is None && input.get(
            "subject"@,
        ) is None ==> task_text(input) is None,
{
    reveal_with_fuel(first_member, 4);
    assert(seq!["description"@, "subject"@, "prompt"@].skip(1) =~= seq!["subject"@, "prompt"@]);
    assert(seq!["subject"@, "prompt"@].skip(1) =~= seq!["prompt"@]);
}

} // verus!
