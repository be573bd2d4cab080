//! Command lines of the WeLink client: how they are put together, how they are
//! shown, and what their outcome means.

use vstd::prelude::*;
use vstd::utf8::decode_utf8;
use vstd::utf8::valid_utf8;
use crate::decimal::decimal;
use crate::decimal::u64_text;
use crate::text::chars_of;
use crate::text::is_space;
use crate::text::is_space_char;
use crate::text::joined;
use crate::text::join;
use crate::text::lemma_joined;
use crate::text::lemma_occurs;
use crate::text::occurs;
use crate::text::opt_text;
use crate::text::take_chars;
use crate::text::texts;
use crate::text::trim;
use crate::text::trimmed;

verus! {

// ─── arguments ───────────────────────────────────────────────────────────

/// How many messages one history query asks for.
pub const QUERY_COUNT: &'static str = "100";

/// The words of a login.
pub open spec fn login_words(cli: Seq<char>) -> Seq<Seq<char>> {
    seq![cli, "auth"@, "login"@]
}

/// The words of a history query: from `cursor` on, where there is one that is
/// not blank.
pub open spec fn query_words(
    cli: Seq<char>,
    group: Seq<char>,
    cursor: Option<Seq<char>>,
) -> Seq<Seq<char>> {
    let head = seq![cli, "im"@, "query-history-message"@, "--group-id"@, group];
    let tail = seq!["--query-count"@, QUERY_COUNT@];
    match cursor {
        Some(id) if trimmed(id).len() > 0 => head + seq![
            "--message-id"@,
            id,
            "--query-direction"@,
            "1"@,
        ] + tail,
        _ => head + tail,
    }
}

fn push_word(words: &mut Vec<String>, word: &str)
    ensures
        texts(final(words)@) == texts(old(words)@).push(word@),
{
    let ghost before = texts(words@);
    words.push(word.to_owned());
    assert(texts(words@) =~= before.push(word@));
}

/// The command line that logs in.
pub fn auth_login_args(welink_cli_path: &str) -> (r: Vec<String>)
    ensures
        texts(r@) == login_words(welink_cli_path@),
{
    let mut words: Vec<String> = Vec::new();
    push_word(&mut words, welink_cli_path);
    push_word(&mut words, "auth");
    push_word(&mut words, "login");
    assert(texts(words@) =~= login_words(welink_cli_path@));
    words
}

/// The command line that asks for the group's history.
pub fn query_history_args(welink_cli_path: &str, group_id: &str, cursor: Option<&str>) -> (r: Vec<
    String,
>)
    ensures
        texts(r@) == query_words(welink_cli_path@, group_id@, opt_text(cursor)),
{
    let mut words: Vec<String> = Vec::new();
    push_word(&mut words, welink_cli_path);
    push_word(&mut words, "im");
    push_word(&mut words, "query-history-message");
    push_word(&mut words, "--group-id");
    push_word(&mut words, group_id);
    match cursor {
        Some(id) => {
            if !trim(id).is_empty() {
                push_word(&mut words, "--message-id");
                push_word(&mut words, id);
                push_word(&mut words, "--query-direction");
                push_word(&mut words, "1");
            }
        },
        None => {},
    }
    push_word(&mut words, "--query-count");
    push_word(&mut words, QUERY_COUNT);
    assert(texts(words@) =~= query_words(welink_cli_path@, group_id@, opt_text(cursor)));
    words
}

// ─── previews ────────────────────────────────────────────────────────────

/// `c` as a preview shows it: a line end or a tab by its escape.
pub open spec fn shown_char(c: char) -> Seq<char> {
    if c == '\r' {
        "\\r"@
    } else if c == '\n' {
        "\\n"@
    } else if c == '\t' {
        "\\t"@
    } else {
        seq![c]
    }
}

/// `s` on one line.
pub open spec fn on_one_line(s: Seq<char>) -> Seq<char>
    decreases s.len(),
{
    if s.len() == 0 {
        s
    } else {
        on_one_line(s.drop_last()) + shown_char(s.last())
    }
}

/// At most `limit` characters of `s` on one line, with three dots where more
/// would follow.
pub open spec fn preview(s: Seq<char>, limit: int) -> Seq<char> {
    let line = on_one_line(s);
    if line.len() > limit {
        line.take(limit) + "..."@
    } else {
        line
    }
}

fn one_line(value: &str) -> (r: String)
    ensures
        r@ == on_one_line(value@),
{
    let chars = chars_of(value);
    let mut out = String::new();
    let mut i: usize = 0;
    while i < chars.len()
        invariant
            i <= chars@.len(),
            chars@ == value@,
            out@ == on_one_line(value@.take(i as int)),
        decreases chars@.len() - i,
    {
        let c: char = chars[i];
        let ghost before = out@;
        if c == '\r' {
            out.append("\\r");
        } else if c == '\n' {
            out.append("\\n");
        } else if c == '\t' {
            out.append("\\t");
        } else {
            out.push(c);
            assert(out@ =~= before + seq![c]);
        }
        i = i + 1;
        assert(value@.take(i as int).drop_last() =~= value@.take(i - 1));
    }
    assert(value@.take(i as int) =~= value@);
    out
}

/// At most `limit` characters of `value` on one line, with three dots where more
/// would follow.
pub fn preview_text(value: &str, limit: usize) -> (r: String)
    ensures
        r@ == preview(value@, limit as int),
{
    let line = one_line(value);
    let mut out = take_chars(line.as_str(), limit).to_owned();
    if line.as_str().unicode_len() > limit {
        out.append("...");
    }
    out
}

/// How `Debug` shows a string.
pub uninterp spec fn debug_text(s: Seq<char>) -> Seq<char>;

/// The `Debug` form of a string, which depends on the string alone. What its
/// characters are is left unsaid.
#[verifier::external_body]
fn debug_string(word: &str) -> (r: String)
    ensures
        r@ == debug_text(word@),
{
    format!("{word:?}")
}

/// Whether `s` holds white space.
pub open spec fn has_space(s: Seq<char>) -> bool {
    exists|i: int| 0 <= i < s.len() && is_space(#[trigger] s[i])
}

/// A word as a preview shows it: quoted where it is empty or holds white space.
pub open spec fn shown_word(word: Seq<char>) -> Seq<char> {
    if word.len() == 0 || has_space(word) {
        debug_text(word)
    } else {
        word
    }
}

/// A command line as a preview shows it.
pub open spec fn shown_words(words: Seq<Seq<char>>) -> Seq<char> {
    joined(words.map_values(|w: Seq<char>| shown_word(w)), " "@)
}

fn holds_space(word: &str) -> (r: bool)
    ensures
        r == has_space(word@),
{
    let chars = chars_of(word);
    let mut i: usize = 0;
    while i < chars.len()
        invariant
            i <= chars@.len(),
            chars@ == word@,
            forall|j: int| 0 <= j < i ==> !is_space(#[trigger] word@[j]),
        decreases chars@.len() - i,
    {
        if is_space_char(chars[i]) {
            assert(is_space(word@[i as int]));
            return true;
        }
        i = i + 1;
    }
    false
}

/// A command line on one line, with words quoted where they need it.
pub fn command_words_preview(words: &[String]) -> (r: String)
    ensures
        r@ == shown_words(texts(words@)),
{
    let mut shown: Vec<String> = Vec::new();
    let mut i: usize = 0;
    while i < words.len()
        invariant
            i <= words@.len(),
            texts(shown@) == texts(words@.take(i as int)).map_values(
                |w: Seq<char>| shown_word(w),
            ),
        decreases words@.len() - i,
    {
        let word = words[i].as_str();
        let ghost before = texts(shown@);
        if word.is_empty() || holds_space(word) {
            shown.push(debug_string(word));
        } else {
            shown.push(word.to_owned());
        }
        i = i + 1;
        assert(texts(shown@) =~= before.push(shown_word(word@)));
        assert(texts(words@.take(i as int)).map_values(|w: Seq<char>| shown_word(w)) =~= texts(
            words@.take(i - 1),
        ).map_values(|w: Seq<char>| shown_word(w)).push(shown_word(word@)));
    }
    assert(words@.take(i as int) =~= words@);
    join(&shown, " ")
}

// ─── outcomes ────────────────────────────────────────────────────────────

/// A command line that failed, and how.
#[derive(Debug, PartialEq)]
pub struct CommandOutputError {
    pub words: Vec<String>,
    pub detail: String,
}

/// The message of a failed command line.
pub open spec fn failure_text(words: Seq<Seq<char>>, detail: Seq<char>) -> Seq<char> {
    shown_words(words) + ": "@ + detail
}

impl CommandOutputError {
    /// The message.
    pub open spec fn message(self) -> Seq<char> {
        failure_text(texts(self.words@), self.detail@)
    }

    /// The command line and what went wrong with it.
    pub fn to_text(&self) -> (r: String)
        ensures
            r@ == self.message(),
    {
        let mut out = command_words_preview(self.words.as_slice());
        out.append(": ");
        out.append(self.detail.as_str());
        out
    }
}

/// How a command ended.
#[derive(Debug, PartialEq)]
pub enum CommandOutcome {
    /// It was still running when its time was up.
    TimedOut,
    /// It could not be run.
    Failed(String),
    /// It came to its end.
    Exited { success: bool, status: String, stdout: Vec<u8>, stderr: Vec<u8> },
}

/// What `String::from_utf8_lossy` makes of bytes.
pub uninterp spec fn lossy(bytes: Seq<u8>) -> Seq<char>;

/// `String::from_utf8_lossy`, which depends on the bytes alone and decodes valid
/// UTF-8 to the text it encodes.
#[verifier::external_body]
fn lossy_text(bytes: &Vec<u8>) -> (r: String)
    ensures
        r@ == lossy(bytes@),
        valid_utf8(bytes@) ==> r@ == decode_utf8(bytes@),
{
    String::from_utf8_lossy(bytes).into_owned()
}

/// How much of each output an error shows.
pub const OUTPUT_PREVIEW_CHARS: usize = 300;

/// What a command printed, or what went wrong with it.
pub open spec fn outcome_text(outcome: CommandOutcome, timeout_ms: u64) -> Result<
    Seq<char>,
    Seq<char>,
> {
    match outcome {
        CommandOutcome::TimedOut => Err("timed out after "@ + decimal(timeout_ms as nat) + " ms"@),
        CommandOutcome::Failed(e) => Err("failed to run command: "@ + e@),
        CommandOutcome::Exited { success, status, stdout, stderr } => if success {
            Ok(lossy(stdout@))
        } else {
            Err(exit_text(status@, lossy(stdout@), lossy(stderr@)))
        },
    }
}

/// What is said of a command that reported a failure.
pub open spec fn exit_text(status: Seq<char>, stdout: Seq<char>, stderr: Seq<char>) -> Seq<char> {
    "exited with status "@ + status + " stdout="@ + preview(stdout, OUTPUT_PREVIEW_CHARS as int)
        + " stderr="@ + preview(stderr, OUTPUT_PREVIEW_CHARS as int)
}

/// Hands a command line on to be run; an empty one is refused.
pub fn require_command(words: Vec<String>) -> (r: Result<Vec<String>, CommandOutputError>)
    ensures
        match r {
            Ok(w) => words@.len() > 0 && w == words,
            Err(e) => words@.len() == 0 && e.words == words && e.detail@ == "command is empty"@,
        },
{
    if words.len() == 0 {
        return Err(CommandOutputError { words, detail: "command is empty".to_owned() });
    }
    Ok(words)
}

/// What is said of a command that reported a failure.
pub fn exit_detail(status: &str, stdout: &str, stderr: &str) -> (r: String)
    ensures
        r@ == exit_text(status@, stdout@, stderr@),
{
    let mut detail = "exited with status ".to_owned();
    detail.append(status);
    detail.append(" stdout=");
    detail.append(preview_text(stdout, OUTPUT_PREVIEW_CHARS).as_str());
    detail.append(" stderr=");
    detail.append(preview_text(stderr, OUTPUT_PREVIEW_CHARS).as_str());
    detail
}

/// What a command line that was run has come to: its output, or an error that
/// names the command line.
pub fn command_result(words: Vec<String>, timeout_ms: u64, outcome: CommandOutcome) -> (r: Result<
    String,
    CommandOutputError,
>)
    ensures
        match outcome_text(outcome, timeout_ms) {
            Ok(stdout) => r matches Ok(text) && text@ == stdout,
            Err(detail) => r matches Err(e) && e.words == words && e.detail@ == detail,
        },
        outcome matches CommandOutcome::Exited { success, stdout, .. } ==> success && valid_utf8(
            stdout@,
        ) ==> (r matches Ok(text) && text@ == decode_utf8(stdout@)),
{
    match outcome {
        CommandOutcome::TimedOut => {
            let mut detail = "timed out after ".to_owned();
            detail.append(u64_text(timeout_ms).as_str());
            detail.append(" ms");
            Err(CommandOutputError { words, detail })
        },
        CommandOutcome::Failed(e) => {
            let mut detail = "failed to run command: ".to_owned();
            detail.append(e.as_str());
            Err(CommandOutputError { words, detail })
        },
        CommandOutcome::Exited { success, status, stdout, stderr } => {
            let out = lossy_text(&stdout);
            if success {
                Ok(out)
            } else {
                let err = lossy_text(&stderr);
                let detail = exit_detail(status.as_str(), out.as_str(), err.as_str());
                Err(CommandOutputError { words, detail })
            }
        },
    }
}

// ─── what holds of every command line ────────────────────────────────────

/// A history query is one of the client, for the group, and asks for a hundred
/// messages; from the cursor on where there is one that is not blank, and from the
/// newest back where there is none.
pub proof fn lemma_query_names_group_and_cursor(
    cli: Seq<char>,
    group: Seq<char>,
    cursor: Option<Seq<char>>,
)
    ensures
        ({
            let words = query_words(cli, group, cursor);
            let n = words.len() as int;
            &&& words[0] == cli
            &&& words[1] == "im"@ && words[2] == "query-history-message"@
            &&& words[3] == "--group-id"@ && words[4] == group
            &&& words[n - 2] == "--query-count"@ && words[n - 1] == "100"@
            &&& (cursor matches Some(id) && trimmed(id).len() > 0) ==> n == 11 && words[5]
                == "--message-id"@ && words[6] == cursor->0 && words[7] == "--query-direction"@
                && words[8] == "1"@
            &&& !(cursor matches Some(id) && trimmed(id).len() > 0) ==> n == 7
        }),
        login_words(cli).len() == 3 && login_words(cli)[0] == cli && login_words(cli)[1] == "auth"@
            && login_words(cli)[2] == "login"@,
{
}

proof fn lemma_one_line_chars(s: Seq<char>)
    ensures
        forall|i: int|
            0 <= i < on_one_line(s).len() ==> #[trigger] on_one_line(s)[i] != '\n' && on_one_line(
                s,
            )[i] != '\r' && on_one_line(s)[i] != '\t',
        !s.contains('\n') && !s.contains('\r') && !s.contains('\t') ==> on_one_line(s) == s,
    decreases s.len(),
{
    reveal_strlit("\\r");
    reveal_strlit("\\n");
    reveal_strlit("\\t");
    if s.len() > 0 {
        let front = s.drop_last();
        lemma_one_line_chars(front);
        let line = on_one_line(s);
        let head = on_one_line(front);
        assert forall|i: int| 0 <= i < line.len() implies #[trigger] line[i] != '\n' && line[i]
            != '\r' && line[i] != '\t' by {
            if i < head.len() {
                assert(line[i] == head[i]);
            } else {
                assert(line[i] == shown_char(s.last())[i - head.len()]);
            }
        }
        if !s.contains('\n') && !s.contains('\r') && !s.contains('\t') {
            assert forall|i: int| 0 <= i < front.len() implies #[trigger] front[i] != '\n' && front[i]
                != '\r' && front[i] != '\t' by {
                assert(s.contains(s[i]));
            }
            assert(s.contains(s[s.len() - 1]));
            assert(front + seq![s.last()] =~= s);
        }
    }
}

/// A preview holds no line break and no tab; a text that has neither and fits is
/// shown as it is, and of a longer one its front, with three dots behind it.
pub proof fn lemma_preview(s: Seq<char>, limit: int)
    requires
        limit >= 0,
    ensures
        !preview(s, limit).contains('\n'),
        !preview(s, limit).contains('\r'),
        !preview(s, limit).contains('\t'),
        preview(s, limit).len() <= limit + 3,
        !s.contains('\n') && !s.contains('\r') && !s.contains('\t') ==> preview(s, limit)
            == if s.len() <= limit {
            s
        } else {
            s.take(limit) + "..."@
        },
{
    reveal_strlit("...");
    lemma_one_line_chars(s);
    let shown = preview(s, limit);
    let line = on_one_line(s);
    assert forall|i: int| 0 <= i < shown.len() implies #[trigger] shown[i] != '\n' && shown[i]
        != '\r' && shown[i] != '\t' by {
        if i < line.len() && i < limit {
            assert(shown[i] == line[i]);
        } else if line.len() <= limit {
            assert(shown[i] == line[i]);
        }
    }
}

/// A word that is not empty and holds no white space is shown as it is, with a
/// blank between it and the words before.
pub proof fn lemma_plain_words_are_shown(words: Seq<Seq<char>>, word: Seq<char>)
    requires
        word.len() > 0,
        forall|i: int| 0 <= i < word.len() ==> !is_space(#[trigger] word[i]),
    ensures
        shown_words(seq![word]) == word,
        words.len() > 0 ==> shown_words(words.push(word)) == shown_words(words) + " "@ + word,
{
    let show = |w: Seq<char>| shown_word(w);
    assert(seq![word].map_values(show) =~= seq![word]);
    assert(words.push(word).map_values(show) =~= words.map_values(show).push(word));
    lemma_joined(words.map_values(show), word, " "@);
}

/// A command's output is what it printed if and only if it ended and reported
/// success; else the error says what went wrong: that its time was up, why it could
/// not be run, or with what status it ended and what it printed.
pub proof fn lemma_outcomes(outcome: CommandOutcome, timeout_ms: u64)
    ensures
        outcome_text(outcome, timeout_ms) is Ok <==> (
        outcome matches CommandOutcome::Exited { success, .. } && success),
        outcome matches CommandOutcome::Exited { success, status, stdout, stderr } ==> if success {
            outcome_text(outcome, timeout_ms) == Ok::<Seq<char>, Seq<char>>(lossy(stdout@))
        } else {
            occurs(outcome_text(outcome, timeout_ms)->Err_0, status@) && occurs(
                outcome_text(outcome, timeout_ms)->Err_0,
                "stdout="@ + preview(lossy(stdout@), 300),
            ) && occurs(
                outcome_text(outcome, timeout_ms)->Err_0,
                "stderr="@ + preview(lossy(stderr@), 300),
            )
        },
        outcome matches CommandOutcome::Failed(why) ==> occurs(
            outcome_text(outcome, timeout_ms)->Err_0,
            why@,
        ),
        outcome is TimedOut ==> occurs(
            outcome_text(outcome, timeout_ms)->Err_0,
            decimal(timeout_ms as nat),
        ),
{
    match outcome {
        CommandOutcome::TimedOut => {
            lemma_occurs(outcome_text(outcome, timeout_ms)->Err_0, decimal(timeout_ms as nat));
        },
        CommandOutcome::Failed(why) => {
            let text = outcome_text(outcome, timeout_ms)->Err_0;
            assert(text =~= "failed to run command: "@ + why@ + Seq::<char>::empty());
            lemma_occurs(text, why@);
        },
        CommandOutcome::Exited { success, status, stdout, stderr } => {
            if !success {
                let text = outcome_text(outcome, timeout_ms)->Err_0;
                let out = preview(lossy(stdout@), 300);
                let err = preview(lossy(stderr@), 300);
                let head = "exited with status "@;
                reveal_strlit(" stdout=");
                reveal_strlit(" stderr=");
                reveal_strlit("stdout=");
                reveal_strlit("stderr=");
                reveal_strlit(" ");
                assert(" stdout="@ =~= " "@ + "stdout="@);
                assert(" stderr="@ =~= " "@ + "stderr="@);
                assert(text =~= head + status@ + (" stdout="@ + out + " stderr="@ + err));
                lemma_occurs(text, status@);
                assert(text =~= (head + status@ + " "@) + ("stdout="@ + out) + (" stderr="@ + err));
                lemma_occurs(text, "stdout="@ + out);
                assert(text =~= (head + status@ + " stdout="@ + out + " "@) + ("stderr="@ + err)
                    + Seq::<char>::empty());
                lemma_occurs(text, "stderr="@ + err);
            }
        },
    }
}

/// An error names its command line, and then what went wrong.
pub proof fn lemma_failure_names_command(error: CommandOutputError)
    ensures
        error.message() == shown_words(texts(error.words@)) + ": "@ + error.detail@,
{
}

/// A line break or a tab is shown by its escape, every other character as it is.
pub proof fn lemma_escapes(s: Seq<char>, c: char)
    ensures
        on_one_line(s.push('\n')) == on_one_line(s) + seq!['\\', 'n'],
        on_one_line(s.push('\r')) == on_one_line(s) + seq!['\\', 'r'],
        on_one_line(s.push('\t')) == on_one_line(s) + seq!['\\', 't'],
        c != '\n' && c != '\r' && c != '\t' ==> on_one_line(s.push(c)) == on_one_line(s).push(c),
{
    reveal_strlit("\\r");
    reveal_strlit("\\n");
    reveal_strlit("\\t");
    assert("\\r"@ =~= seq!['\\', 'r']);
    assert("\\n"@ =~= seq!['\\', 'n']);
    assert("\\t"@ =~= seq!['\\', 't']);
    assert(s.push('\n').drop_last() =~= s);
    assert(s.push('\r').drop_last() =~= s);
    assert(s.push('\t').drop_last() =~= s);
    assert(s.push(c).drop_last() =~= s);
    assert(on_one_line(s) + seq![c] =~= on_one_line(s).push(c));
}

/// A word that is empty or holds white space is shown quoted.
pub proof fn lemma_other_words_are_quoted(word: Seq<char>)
    ensures
        word.len() == 0 || (exists|i: int| 0 <= i < word.len() && is_space(#[trigger] word[i]))
            ==> shown_words(seq![word]) == debug_text(word),
{
    let show = |w: Seq<char>| shown_word(w);
    assert(seq![word].map_values(show) =~= seq![shown_word(word)]);
    lemma_joined(Seq::empty(), shown_word(word), " "@);
}

} // verus!
