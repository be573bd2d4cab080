//! Chat sessions on agent connections: what an event of a connection changes in
//! the session that talks over it, and what is to be said on the channel.

use vstd::prelude::*;
use crate::acp::types::choices;
use crate::acp::types::AcpEvent;
use crate::acp::types::Choice;
use crate::acp::types::ConnectionStatus;
use crate::acp::types::ConversationStatus;
use crate::acp::types::EventEnvelope;
use crate::acp::types::PermissionOption;
use crate::chat_channel::completion::completion;
use crate::chat_channel::completion::format_completion;
use crate::chat_channel::completion::localize_stop_reason;
use crate::chat_channel::completion::localized;
use crate::chat_channel::completion::Lang;
use crate::chat_channel::tool_detail::agent_of;
use crate::chat_channel::tool_detail::delegation_line;
use crate::chat_channel::tool_detail::extract_agent_type;
use crate::chat_channel::tool_detail::format_delegation_outcome;
use crate::chat_channel::tool_detail::format_tool_call_detail;
use crate::chat_channel::tool_detail::is_delegation_title;
use crate::chat_channel::tool_detail::titled_delegation;
use crate::chat_channel::tool_detail::tool_detail;
use crate::chat_channel::types::MessageLevel;
use crate::chat_channel::types::MessageModel;
use crate::chat_channel::types::RichMessage;
use crate::json::written;
use crate::json::Json;
use crate::json::JsonTree;
use crate::keyed::distinct_keys;
use crate::keyed::has_key;
use crate::keyed::lemma_mapped;
use crate::keyed::lemma_mapped_key;
use crate::keyed::lemma_mapped_pair;
use crate::keyed::lemma_pairs_and_map;
use crate::keyed::lemma_same_keys;
use crate::keyed::lemma_update;
use crate::keyed::map_of_pairs;
use crate::keyed::mapped;
use crate::keyed::with_pair;
use crate::keyed::without_key;
use crate::keyed::KeyedStore;
use crate::text::as_text;
use crate::text::byte_len;
use crate::text::lemma_occurs;
use crate::text::occurs;
use crate::text::opt_string;
use crate::text::opt_text;
use crate::text::same_text;
use crate::text::texts;
use crate::text::utf8_len;

verus! {

/// How often progress is reported at most while an agent writes.
pub const FLUSH_INTERVAL_MS: u64 = 10_000;

/// How many bytes an agent must have written before progress is reported at
/// once.
pub const BUFFER_FLUSH_THRESHOLD: usize = 500;

/// How long reports that are made at once lie apart at least.
pub const BURST_INTERVAL_MS: u64 = 2_000;

/// What commands begin with where nothing is set.
pub const DEFAULT_COMMAND_PREFIX: &'static str = "/";

// ─── sessions ────────────────────────────────────────────────────────────

/// A permission that an agent waits for.
#[derive(Debug, PartialEq)]
pub struct PendingPermission {
    pub request_id: String,
    pub tool_description: String,
    pub options: Vec<PermissionOption>,
    pub sent_message_id: Option<String>,
}

/// What a `PendingPermission` says.
pub struct Permission {
    pub request_id: Seq<char>,
    pub description: Seq<char>,
    pub options: Seq<Choice>,
    pub sent: Option<Seq<char>>,
}

impl View for PendingPermission {
    type V = Permission;

    open spec fn view(&self) -> Permission {
        Permission {
            request_id: self.request_id@,
            description: self.tool_description@,
            options: choices(self.options@),
            sent: opt_string(self.sent_message_id),
        }
    }
}

/// A chat session. Times are in milliseconds on the host's clock.
#[derive(Debug)]
pub struct ActiveSession {
    pub channel_id: i32,
    pub sender_id: String,
    pub conversation_id: i32,
    pub connection_id: String,
    pub agent_type: String,
    pub content_buffer: String,
    pub tool_calls: Vec<String>,
    pub tool_call_inputs: KeyedStore<String>,
    pub last_flushed: u64,
    pub pending_prompt: Option<String>,
    pub permission_pending: Option<PendingPermission>,
}

/// What an `ActiveSession` says.
pub struct Session {
    pub channel_id: i32,
    pub sender: Seq<char>,
    pub conversation_id: i32,
    pub connection: Seq<char>,
    pub agent: Seq<char>,
    /// What the agent wrote since the turn began.
    pub content: Seq<char>,
    /// The titles of the turn's tool calls.
    pub tools: Seq<Seq<char>>,
    /// The arguments of tool calls that are not complete.
    pub inputs: Map<Seq<char>, Seq<char>>,
    pub flushed: u64,
    pub prompt: Option<Seq<char>>,
    pub permission: Option<Permission>,
}

impl View for ActiveSession {
    type V = Session;

    open spec fn view(&self) -> Session {
        Session {
            channel_id: self.channel_id,
            sender: self.sender_id@,
            conversation_id: self.conversation_id,
            connection: self.connection_id@,
            agent: self.agent_type@,
            content: self.content_buffer@,
            tools: texts(self.tool_calls@),
            inputs: self.tool_call_inputs@.map_values(|s: String| s@),
            flushed: self.last_flushed,
            prompt: opt_string(self.pending_prompt),
            permission: match self.permission_pending {
                Some(p) => Some(p@),
                None => None,
            },
        }
    }
}

impl ActiveSession {
    /// The session is in order.
    pub open spec fn wf(&self) -> bool {
        self.tool_call_inputs.wf()
    }
}

// ─── what events mean ────────────────────────────────────────────────────

/// The milliseconds from `then` to `now`; none where the clock went back.
pub open spec fn elapsed(then: u64, now: u64) -> int {
    if now >= then {
        now - then
    } else {
        0
    }
}

fn elapsed_ms(then: u64, now: u64) -> (r: u64)
    ensures
        r == elapsed(then, now),
{
    if now >= then {
        now - then
    } else {
        0
    }
}

/// Whether progress is reported at once.
pub open spec fn reports_now(s: Session, now: u64) -> bool {
    utf8_len(s.content) >= BUFFER_FLUSH_THRESHOLD && elapsed(s.flushed, now) >= BURST_INTERVAL_MS
}

/// Whether a report of progress is due.
pub open spec fn report_due(s: Session, now: u64) -> bool {
    s.content.len() > 0 && elapsed(s.flushed, now) >= FLUSH_INTERVAL_MS
}

/// The title of the turn's last tool call.
pub open spec fn last_tool(s: Session) -> Option<Seq<char>> {
    if s.tools.len() > 0 {
        Some(s.tools.last())
    } else {
        None
    }
}

/// Whether an option grants what is asked.
pub open spec fn grants(option: Choice) -> bool {
    option.kind == "allow"@ || option.kind == "allowForSession"@
}

/// Where the first option that grants stands among `options`, from `from` on.
pub open spec fn first_grant(options: Seq<Choice>, from: int) -> Option<int>
    decreases options.len() - from,
{
    if from >= options.len() || from < 0 {
        None
    } else if grants(options[from]) {
        Some(from)
    } else {
        first_grant(options, from + 1)
    }
}

/// The option that is taken without asking: the first that grants, else the
/// first of all.
pub open spec fn granted_option(options: Seq<Choice>) -> Option<Seq<char>> {
    match first_grant(options, 0) {
        Some(i) => Some(options[i].id),
        None => if options.len() > 0 {
            Some(options[0].id)
        } else {
            None
        },
    }
}

/// The name of the tool that a permission is asked for.
pub open spec fn asked_tool(tool_call: JsonTree) -> Seq<char> {
    match tool_call.text_at("title"@) {
        Some(s) => s,
        None => match tool_call.text_at("tool_name"@) {
            Some(s) => s,
            None => "Unknown tool"@,
        },
    }
}

/// The arguments of the tool that a permission is asked for, as text.
pub open spec fn asked_input(tool_call: JsonTree) -> Option<Seq<char>> {
    let value = match tool_call.get("rawInput"@) {
        Some(v) => Some(v),
        None => tool_call.get("raw_input"@),
    };
    match value {
        Some(JsonTree::Text(s)) => Some(s),
        Some(JsonTree::Null) => None,
        Some(other) => Some(written(other)),
        None => None,
    }
}

/// What is said of the tool that a permission is asked for.
pub open spec fn asked_description(tool_call: JsonTree) -> Seq<char> {
    tool_detail(asked_tool(tool_call), asked_input(tool_call))
}

/// What is said when a delegation starts, where the call says which agent it is
/// for.
pub open spec fn announcement(title: Seq<char>, raw_input: Option<Seq<char>>) -> Option<Seq<char>> {
    match agent_of(raw_input) {
        Some(agent) => if titled_delegation(title) {
            Some("🤖 Delegating to "@ + agent + "…"@)
        } else {
            None
        },
        None => None,
    }
}

/// Whether a tool call is complete.
pub open spec fn is_complete(status: Option<Seq<char>>) -> bool {
    status == Some("completed"@)
}

/// `inputs` with the arguments of one more tool call, where it has any.
pub open spec fn with_input(
    inputs: Map<Seq<char>, Seq<char>>,
    id: Seq<char>,
    raw_input: Option<Seq<char>>,
) -> Map<Seq<char>, Seq<char>> {
    match raw_input {
        Some(raw) => inputs.insert(id, raw),
        None => inputs,
    }
}

/// The arguments that are known of a tool call.
pub open spec fn known_input(inputs: Map<Seq<char>, Seq<char>>, id: Seq<char>) -> Option<Seq<char>> {
    if inputs.dom().contains(id) {
        Some(inputs[id])
    } else {
        None
    }
}

/// What is said of a tool call that is complete.
pub open spec fn completed_line(
    title: Option<Seq<char>>,
    input: Option<Seq<char>>,
    output: Option<Seq<char>>,
) -> Seq<char> {
    let name = match title {
        Some(t) => t,
        None => "tool"@,
    };
    if titled_delegation(name) || agent_of(input) is Some {
        delegation_line(input, output)
    } else {
        ">> "@ + tool_detail(name, input)
    }
}

/// Whether an event ends the session on its connection.
pub open spec fn ends_session(event: AcpEvent) -> bool {
    match event {
        AcpEvent::Error { terminal, .. } => terminal,
        AcpEvent::StatusChanged { status } => status == ConnectionStatus::Disconnected || status
            == ConnectionStatus::Error,
        _ => false,
    }
}

/// The session after an event that does not end it.
pub open spec fn session_after(s: Session, event: AcpEvent, auto_approve: bool, now: u64) -> Session {
    match event {
        AcpEvent::SessionStarted { .. } => Session { prompt: None, ..s },
        AcpEvent::ContentDelta { text } => {
            let grown = Session { content: s.content + text@, ..s };
            if reports_now(grown, now) {
                Session { flushed: now, ..grown }
            } else {
                grown
            }
        },
        AcpEvent::ToolCall { tool_call_id, title, raw_input, .. } => Session {
            tools: s.tools.push(title@),
            inputs: with_input(s.inputs, tool_call_id@, opt_string(raw_input)),
            ..s
        },
        AcpEvent::ToolCallUpdate { tool_call_id, status, raw_input, .. } => {
            let known = with_input(s.inputs, tool_call_id@, opt_string(raw_input));
            Session {
                inputs: if is_complete(opt_string(status)) {
                    known.remove(tool_call_id@)
                } else {
                    known
                },
                ..s
            }
        },
        AcpEvent::PermissionRequest { request_id, tool_call, options } => if auto_approve {
            s
        } else {
            Session {
                permission: Some(
                    Permission {
                        request_id: request_id@,
                        description: asked_description(tool_call@),
                        options: choices(options@),
                        sent: None,
                    },
                ),
                ..s
            }
        },
        AcpEvent::TurnComplete { .. } => Session {
            content: Seq::empty(),
            tools: Seq::empty(),
            flushed: now,
            ..s
        },
        _ => s,
    }
}

/// What an event asks the host to do.
#[derive(Debug, PartialEq)]
#[allow(inconsistent_fields)]
pub enum SessionAction {
    Nothing,
    /// Write the agent's session identifier; then, where there is a prompt, send
    /// it, and say so on the channel if that fails.
    Start { channel_id: i32, conversation_id: i32, external_id: String, prompt: Option<String> },
    /// Report progress.
    Progress(ProgressUpdate),
    /// Say something.
    Post { channel_id: i32, message: RichMessage },
    /// Answer the permission request.
    Grant { request_id: String, option_id: String },
    /// Ask the user for the permission.
    Ask { channel_id: i32, description: String },
    /// Report the turn; then, where there is a status, write it.
    TurnDone {
        channel_id: i32,
        conversation_id: i32,
        content: String,
        tool_count: usize,
        agent_type: String,
        stop_reason: String,
        status: Option<ConversationStatus>,
    },
    /// Report the error; the session goes on.
    Report { channel_id: i32, agent_type: String, message: String },
    /// Report the error, write the status, and forget the sender's session.
    Abort {
        channel_id: i32,
        sender_id: String,
        conversation_id: i32,
        agent_type: String,
        message: String,
        status: ConversationStatus,
    },
    /// Forget the sender's session.
    Forget { channel_id: i32, sender_id: String },
}

/// A report of progress.
#[derive(Debug, PartialEq)]
pub struct ProgressUpdate {
    pub channel_id: i32,
    pub agent_type: String,
    pub last_tool: Option<String>,
}

/// What a `ProgressUpdate` says.
pub struct Progress {
    pub channel_id: i32,
    pub agent: Seq<char>,
    pub last_tool: Option<Seq<char>>,
}

impl View for ProgressUpdate {
    type V = Progress;

    open spec fn view(&self) -> Progress {
        Progress {
            channel_id: self.channel_id,
            agent: self.agent_type@,
            last_tool: opt_string(self.last_tool),
        }
    }
}

/// What a `SessionAction` says.
#[allow(inconsistent_fields)]
pub enum Action {
    Nothing,
    Start {
        channel_id: i32,
        conversation_id: i32,
        external_id: Seq<char>,
        prompt: Option<Seq<char>>,
    },
    Progress(Progress),
    Post { channel_id: i32, message: MessageModel },
    Grant { request_id: Seq<char>, option_id: Seq<char> },
    Ask { channel_id: i32, description: Seq<char> },
    TurnDone {
        channel_id: i32,
        conversation_id: i32,
        content: Seq<char>,
        tool_count: nat,
        agent: Seq<char>,
        stop_reason: Seq<char>,
        status: Option<ConversationStatus>,
    },
    Report { channel_id: i32, agent: Seq<char>, message: Seq<char> },
    Abort {
        channel_id: i32,
        sender: Seq<char>,
        conversation_id: i32,
        agent: Seq<char>,
        message: Seq<char>,
        status: ConversationStatus,
    },
    Forget { channel_id: i32, sender: Seq<char> },
}

impl View for SessionAction {
    type V = Action;

    open spec fn view(&self) -> Action {
        match *self {
            SessionAction::Nothing => Action::Nothing,
            SessionAction::Start { channel_id, conversation_id, external_id, prompt } =>
            Action::Start {
                channel_id,
                conversation_id,
                external_id: external_id@,
                prompt: opt_string(prompt),
            },
            SessionAction::Progress(update) => Action::Progress(update@),
            SessionAction::Post { channel_id, message } => Action::Post {
                channel_id,
                message: message@,
            },
            SessionAction::Grant { request_id, option_id } => Action::Grant {
                request_id: request_id@,
                option_id: option_id@,
            },
            SessionAction::Ask { channel_id, description } => Action::Ask {
                channel_id,
                description: description@,
            },
            SessionAction::TurnDone {
                channel_id,
                conversation_id,
                content,
                tool_count,
                agent_type,
                stop_reason,
                status,
            } => Action::TurnDone {
                channel_id,
                conversation_id,
                content: content@,
                tool_count: tool_count as nat,
                agent: agent_type@,
                stop_reason: stop_reason@,
                status,
            },
            SessionAction::Report { channel_id, agent_type, message } => Action::Report {
                channel_id,
                agent: agent_type@,
                message: message@,
            },
            SessionAction::Abort {
                channel_id,
                sender_id,
                conversation_id,
                agent_type,
                message,
                status,
            } => Action::Abort {
                channel_id,
                sender: sender_id@,
                conversation_id,
                agent: agent_type@,
                message: message@,
                status,
            },
            SessionAction::Forget { channel_id, sender_id } => Action::Forget {
                channel_id,
                sender: sender_id@,
            },
        }
    }
}

/// What an event asks for, given the session before it.
pub open spec fn action_of(s: Session, event: AcpEvent, auto_approve: bool, now: u64) -> Action {
    match event {
        AcpEvent::SessionStarted { session_id } => Action::Start {
            channel_id: s.channel_id,
            conversation_id: s.conversation_id,
            external_id: session_id@,
            prompt: s.prompt,
        },
        AcpEvent::ContentDelta { text } => if reports_now(
            (Session { content: s.content + text@, ..s }),
            now,
        ) {
            Action::Progress(
                Progress { channel_id: s.channel_id, agent: s.agent, last_tool: last_tool(s) },
            )
        } else {
            Action::Nothing
        },
        AcpEvent::ToolCall { title, raw_input, .. } => match announcement(
            title@,
            opt_string(raw_input),
        ) {
            Some(text) => Action::Post {
                channel_id: s.channel_id,
                message: MessageModel::plain(text, MessageLevel::Info),
            },
            None => Action::Nothing,
        },
        AcpEvent::ToolCallUpdate { tool_call_id, title, status, raw_input, raw_output, .. } =>
        if is_complete(opt_string(status)) {
            let inputs = with_input(s.inputs, tool_call_id@, opt_string(raw_input));
            Action::Post {
                channel_id: s.channel_id,
                message: MessageModel::plain(
                    completed_line(
                        opt_string(title),
                        known_input(inputs, tool_call_id@),
                        opt_string(raw_output),
                    ),
                    MessageLevel::Info,
                ),
            }
        } else {
            Action::Nothing
        },
        AcpEvent::PermissionRequest { request_id, tool_call, options } => if auto_approve {
            match granted_option(choices(options@)) {
                Some(option_id) => Action::Grant { request_id: request_id@, option_id },
                None => Action::Nothing,
            }
        } else {
            Action::Ask {
                channel_id: s.channel_id,
                description: asked_description(tool_call@),
            }
        },
        AcpEvent::TurnComplete { stop_reason, agent_type, .. } => Action::TurnDone {
            channel_id: s.channel_id,
            conversation_id: s.conversation_id,
            content: s.content,
            tool_count: s.tools.len(),
            agent: agent_type@,
            stop_reason: stop_reason@,
            status: if stop_reason@ == "end_turn"@ {
                Some(ConversationStatus::Completed)
            } else {
                None
            },
        },
        AcpEvent::Error { message, agent_type, terminal, .. } => if terminal {
            Action::Abort {
                channel_id: s.channel_id,
                sender: s.sender,
                conversation_id: s.conversation_id,
                agent: agent_type@,
                message: message@,
                status: ConversationStatus::Cancelled,
            }
        } else {
            Action::Report { channel_id: s.channel_id, agent: agent_type@, message: message@ }
        },
        AcpEvent::StatusChanged { .. } => if ends_session(event) {
            Action::Forget { channel_id: s.channel_id, sender: s.sender }
        } else {
            Action::Nothing
        },
        _ => Action::Nothing,
    }
}

// ─── acting on events ────────────────────────────────────────────────────

fn find_grant(options: &Vec<PermissionOption>) -> (r: Option<String>)
    ensures
        opt_string(r) == granted_option(choices(options@)),
{
    let ghost all = choices(options@);
    let mut i: usize = 0;
    while i < options.len()
        invariant
            i <= options@.len() == all.len(),
            all == choices(options@),
            first_grant(all, 0) == first_grant(all, i as int),
        decreases options@.len() - i,
    {
        let kind = options[i].kind.as_str();
        assert(all[i as int] == options@[i as int]@);
        if same_text(kind, "allow") || same_text(kind, "allowForSession") {
            return Some(options[i].option_id.clone());
        }
        i = i + 1;
    }
    if options.len() > 0 {
        assert(all[0] == options@[0]@);
        Some(options[0].option_id.clone())
    } else {
        None
    }
}

fn clone_options(options: &Vec<PermissionOption>) -> (r: Vec<PermissionOption>)
    ensures
        choices(r@) == choices(options@),
{
    let mut out: Vec<PermissionOption> = Vec::new();
    let mut i: usize = 0;
    while i < options.len()
        invariant
            i == out@.len() <= options@.len(),
            forall|j: int| 0 <= j < i ==> (#[trigger] out@[j])@ == options@[j]@,
        decreases options@.len() - i,
    {
        out.push(options[i].clone());
        i = i + 1;
    }
    assert(choices(out@) =~= choices(options@));
    out
}

fn find_asked_input(tool_call: &Json) -> (r: Option<String>)
    ensures
        opt_string(r) == asked_input(tool_call@),
{
    let value = match tool_call.get("rawInput") {
        Some(v) => Some(v),
        None => tool_call.get("raw_input"),
    };
    match value {
        Some(v) => match v {
            Json::Text(s) => Some(s.clone()),
            Json::Null => None,
            _ => Some(v.to_text()),
        },
        None => None,
    }
}

fn describe_asked(tool_call: &Json) -> (r: String)
    ensures
        r@ == asked_description(tool_call@),
{
    let title = match tool_call.str_at("title") {
        Some(s) => s,
        None => match tool_call.str_at("tool_name") {
            Some(s) => s,
            None => "Unknown tool",
        },
    };
    let input = find_asked_input(tool_call);
    format_tool_call_detail(title, as_text(&input))
}

fn announce(title: &str, raw_input: Option<&str>) -> (r: Option<String>)
    ensures
        opt_string(r) == announcement(title@, opt_text(raw_input)),
{
    if !is_delegation_title(title) {
        return None;
    }
    match raw_input {
        Some(raw) => match extract_agent_type(raw) {
            Some(agent) => {
                let mut text = "🤖 Delegating to ".to_owned();
                text.append(agent.as_str());
                text.append("…");
                Some(text)
            },
            None => None,
        },
        None => None,
    }
}

fn describe_completed(title: Option<&str>, input: Option<&str>, output: Option<&str>) -> (r: String)
    ensures
        r@ == completed_line(opt_text(title), opt_text(input), opt_text(output)),
{
    let name = match title {
        Some(t) => t,
        None => "tool",
    };
    let names_agent = match input {
        Some(raw) => extract_agent_type(raw).is_some(),
        None => false,
    };
    if is_delegation_title(name) || names_agent {
        format_delegation_outcome(input, output)
    } else {
        let mut text = ">> ".to_owned();
        text.append(format_tool_call_detail(name, input).as_str());
        text
    }
}

impl ActiveSession {
    fn store_input(&mut self, id: &str, raw_input: Option<&str>)
        requires
            old(self).wf(),
        ensures
            final(self).wf(),
            final(self)@ == (Session {
                inputs: with_input(old(self)@.inputs, id@, opt_text(raw_input)),
                ..old(self)@
            }),
    {
        match raw_input {
            Some(raw) => {
                self.tool_call_inputs.insert(id.to_owned(), raw.to_owned());
                assert(self@.inputs =~= old(self)@.inputs.insert(id@, raw@));
            },
            None => {},
        }
    }

    fn newest_tool(&self) -> (r: Option<String>)
        ensures
            opt_string(r) == last_tool(self@),
    {
        let n: usize = self.tool_calls.len();
        if n > 0 {
            Some(self.tool_calls[n - 1].clone())
        } else {
            None
        }
    }

    fn progress(&self) -> (r: ProgressUpdate)
        ensures
            r@ == (Progress {
                channel_id: self@.channel_id,
                agent: self@.agent,
                last_tool: last_tool(self@),
            }),
    {
        ProgressUpdate {
            channel_id: self.channel_id,
            agent_type: self.agent_type.clone(),
            last_tool: self.newest_tool(),
        }
    }

    fn on_start(&mut self, session_id: &str) -> (r: SessionAction)
        requires
            old(self).wf(),
        ensures
            final(self).wf(),
            final(self)@ == (Session { prompt: None, ..old(self)@ }),
            r@ == (Action::Start {
                channel_id: old(self)@.channel_id,
                conversation_id: old(self)@.conversation_id,
                external_id: session_id@,
                prompt: old(self)@.prompt,
            }),
    {
        let mut prompt: Option<String> = None;
        std::mem::swap(&mut prompt, &mut self.pending_prompt);
        SessionAction::Start {
            channel_id: self.channel_id,
            conversation_id: self.conversation_id,
            external_id: session_id.to_owned(),
            prompt,
        }
    }

    fn on_content(&mut self, text: &str, now: u64) -> (r: SessionAction)
        requires
            old(self).wf(),
        ensures
            final(self).wf(),
            ({
                let grown = Session { content: old(self)@.content + text@, ..old(self)@ };
                if reports_now(grown, now) {
                    final(self)@ == (Session { flushed: now, ..grown }) && r@ == Action::Progress(
                        Progress {
                            channel_id: grown.channel_id,
                            agent: grown.agent,
                            last_tool: last_tool(grown),
                        },
                    )
                } else {
                    final(self)@ == grown && r@ == Action::Nothing
                }
            }),
    {
        self.content_buffer.append(text);
        if byte_len(self.content_buffer.as_str()) >= BUFFER_FLUSH_THRESHOLD && elapsed_ms(
            self.last_flushed,
            now,
        ) >= BURST_INTERVAL_MS {
            self.last_flushed = now;
            SessionAction::Progress(self.progress())
        } else {
            SessionAction::Nothing
        }
    }

    fn on_tool_call(&mut self, id: &str, title: &str, raw_input: Option<&str>) -> (r: SessionAction)
        requires
            old(self).wf(),
        ensures
            final(self).wf(),
            final(self)@ == (Session {
                tools: old(self)@.tools.push(title@),
                inputs: with_input(old(self)@.inputs, id@, opt_text(raw_input)),
                ..old(self)@
            }),
            r@ == match announcement(title@, opt_text(raw_input)) {
                Some(text) => Action::Post {
                    channel_id: old(self)@.channel_id,
                    message: MessageModel::plain(text, MessageLevel::Info),
                },
                None => Action::Nothing,
            },
    {
        self.tool_calls.push(title.to_owned());
        assert(self@.tools =~= old(self)@.tools.push(title@));
        self.store_input(id, raw_input);
        match announce(title, raw_input) {
            Some(text) => SessionAction::Post {
                channel_id: self.channel_id,
                message: RichMessage::info(text),
            },
            None => SessionAction::Nothing,
        }
    }

    fn on_tool_update(
        &mut self,
        id: &str,
        title: Option<&str>,
        status: Option<&str>,
        raw_input: Option<&str>,
        raw_output: Option<&str>,
    ) -> (r: SessionAction)
        requires
            old(self).wf(),
        ensures
            final(self).wf(),
            ({
                let known = with_input(old(self)@.inputs, id@, opt_text(raw_input));
                if is_complete(opt_text(status)) {
                    final(self)@ == (Session { inputs: known.remove(id@), ..old(self)@ }) && r@
                        == (Action::Post {
                        channel_id: old(self)@.channel_id,
                        message: MessageModel::plain(
                            completed_line(
                                opt_text(title),
                                known_input(known, id@),
                                opt_text(raw_output),
                            ),
                            MessageLevel::Info,
                        ),
                    })
                } else {
                    final(self)@ == (Session { inputs: known, ..old(self)@ }) && r@
                        == Action::Nothing
                }
            }),
    {
        self.store_input(id, raw_input);
        let ghost known = self@.inputs;
        let complete = match status {
            Some(s) => same_text(s, "completed"),
            None => false,
        };
        if !complete {
            return SessionAction::Nothing;
        }
        let stored = self.tool_call_inputs.remove(id);
        assert(self@.inputs =~= known.remove(id@));
        assert(opt_string(stored) == known_input(known, id@));
        let body = describe_completed(title, as_text(&stored), raw_output);
        SessionAction::Post { channel_id: self.channel_id, message: RichMessage::info(body) }
    }

    fn on_permission(
        &mut self,
        request_id: &str,
        tool_call: &Json,
        options: &Vec<PermissionOption>,
    ) -> (r: SessionAction)
        requires
            old(self).wf(),
        ensures
            final(self).wf(),
            final(self)@ == (Session {
                permission: Some(
                    Permission {
                        request_id: request_id@,
                        description: asked_description(tool_call@),
                        options: choices(options@),
                        sent: None,
                    },
                ),
                ..old(self)@
            }),
            r@ == (Action::Ask {
                channel_id: old(self)@.channel_id,
                description: asked_description(tool_call@),
            }),
    {
        let description = describe_asked(tool_call);
        self.permission_pending = Some(
            PendingPermission {
                request_id: request_id.to_owned(),
                tool_description: description.clone(),
                options: clone_options(options),
                sent_message_id: None,
            },
        );
        SessionAction::Ask { channel_id: self.channel_id, description }
    }

    fn on_turn_complete(&mut self, stop_reason: &str, agent_type: &str, now: u64) -> (r:
        SessionAction)
        requires
            old(self).wf(),
        ensures
            final(self).wf(),
            final(self)@ == (Session {
                content: Seq::empty(),
                tools: Seq::empty(),
                flushed: now,
                ..old(self)@
            }),
            r@ == (Action::TurnDone {
                channel_id: old(self)@.channel_id,
                conversation_id: old(self)@.conversation_id,
                content: old(self)@.content,
                tool_count: old(self)@.tools.len(),
                agent: agent_type@,
                stop_reason: stop_reason@,
                status: if stop_reason@ == "end_turn"@ {
                    Some(ConversationStatus::Completed)
                } else {
                    None
                },
            }),
    {
        let mut content = String::new();
        std::mem::swap(&mut content, &mut self.content_buffer);
        let tool_count: usize = self.tool_calls.len();
        self.tool_calls = Vec::new();
        assert(self@.tools =~= Seq::<Seq<char>>::empty());
        self.last_flushed = now;
        let status = if same_text(stop_reason, "end_turn") {
            Some(ConversationStatus::Completed)
        } else {
            None
        };
        SessionAction::TurnDone {
            channel_id: self.channel_id,
            conversation_id: self.conversation_id,
            content,
            tool_count,
            agent_type: agent_type.to_owned(),
            stop_reason: stop_reason.to_owned(),
            status,
        }
    }

    /// Takes an event of the session's connection that does not end the session.
    /// `auto_approve` says whether the sender lets every permission be granted.
    pub fn on_event(&mut self, event: &AcpEvent, auto_approve: bool, now: u64) -> (r: SessionAction)
        requires
            old(self).wf(),
            !ends_session(*event),
        ensures
            final(self).wf(),
            final(self)@ == session_after(old(self)@, *event, auto_approve, now),
            r@ == action_of(old(self)@, *event, auto_approve, now),
            event matches AcpEvent::TurnComplete { stop_reason, agent_type, .. } ==> (
            r matches SessionAction::TurnDone {
                channel_id,
                conversation_id,
                content,
                agent_type: agent,
                stop_reason: reason,
                ..
            } && channel_id == old(self).channel_id && conversation_id == old(self).conversation_id
                && content@ == old(self).content_buffer@ && agent@ == agent_type@ && reason@
                == stop_reason@),
    {
        match event {
            AcpEvent::SessionStarted { session_id } => self.on_start(session_id.as_str()),
            AcpEvent::ContentDelta { text } => self.on_content(text.as_str(), now),
            AcpEvent::ToolCall { tool_call_id, title, raw_input, .. } => self.on_tool_call(
                tool_call_id.as_str(),
                title.as_str(),
                as_text(raw_input),
            ),
            AcpEvent::ToolCallUpdate {
                tool_call_id,
                title,
                status,
                raw_input,
                raw_output,
                ..
            } => self.on_tool_update(
                tool_call_id.as_str(),
                as_text(title),
                as_text(status),
                as_text(raw_input),
                as_text(raw_output),
            ),
            AcpEvent::PermissionRequest { request_id, tool_call, options } => {
                if auto_approve {
                    match find_grant(options) {
                        Some(option_id) => SessionAction::Grant {
                            request_id: request_id.clone(),
                            option_id,
                        },
                        None => SessionAction::Nothing,
                    }
                } else {
                    self.on_permission(request_id.as_str(), tool_call, options)
                }
            },
            AcpEvent::TurnComplete { stop_reason, agent_type, .. } => self.on_turn_complete(
                stop_reason.as_str(),
                agent_type.as_str(),
                now,
            ),
            AcpEvent::Error { message, agent_type, .. } => SessionAction::Report {
                channel_id: self.channel_id,
                agent_type: agent_type.clone(),
                message: message.clone(),
            },
            _ => SessionAction::Nothing,
        }
    }

    /// Takes the event that ends the session.
    pub fn on_end(self, event: &AcpEvent) -> (r: SessionAction)
        requires
            ends_session(*event),
        ensures
            forall|auto_approve: bool, now: u64|
                r@ == #[trigger] action_of(self@, *event, auto_approve, now),
    {
        match event {
            AcpEvent::Error { message, agent_type, .. } => SessionAction::Abort {
                channel_id: self.channel_id,
                sender_id: self.sender_id,
                conversation_id: self.conversation_id,
                agent_type: agent_type.clone(),
                message: message.clone(),
                status: ConversationStatus::Cancelled,
            },
            _ => SessionAction::Forget { channel_id: self.channel_id, sender_id: self.sender_id },
        }
    }
}

// ─── the bridge ──────────────────────────────────────────────────────────

/// The sessions, by the connection that each talks over.
#[derive(Debug)]
pub struct SessionBridge {
    sessions: KeyedStore<ActiveSession>,
}

impl SessionBridge {
    /// The connections and their sessions, in the order of registration.
    pub closed spec fn pairs(&self) -> Seq<(Seq<char>, Session)> {
        mapped(self.sessions.pairs(), |s: ActiveSession| s@)
    }

    /// Every session is in order.
    pub closed spec fn sessions_wf(&self) -> bool {
        forall|key: Seq<char>| #[trigger]
            self.sessions@.dom().contains(key) ==> self.sessions@[key].wf()
    }

    /// No connection occurs twice, and every session is in order.
    pub open spec fn wf(&self) -> bool {
        distinct_keys(self.pairs()) && self.sessions_wf()
    }

    proof fn lemma_inner(&self)
        ensures
            distinct_keys(self.pairs()) == self.sessions.wf(),
            self.sessions.wf() ==> self@ == self.sessions@.map_values(|s: ActiveSession| s@),
    {
        lemma_mapped(self.sessions.pairs(), |s: ActiveSession| s@);
    }
}

impl View for SessionBridge {
    type V = Map<Seq<char>, Session>;

    open spec fn view(&self) -> Map<Seq<char>, Session> {
        map_of_pairs(self.pairs())
    }
}

/// The sessions after an event of a connection: that of the connection as the
/// event leaves it, or gone; all others as they were.
pub open spec fn sessions_after(
    sessions: Map<Seq<char>, Session>,
    connection: Seq<char>,
    event: AcpEvent,
    auto_approve: bool,
    now: u64,
) -> Map<Seq<char>, Session> {
    if !sessions.dom().contains(connection) {
        sessions
    } else if ends_session(event) {
        sessions.remove(connection)
    } else {
        sessions.insert(connection, session_after(sessions[connection], event, auto_approve, now))
    }
}

/// The sessions after an event of a connection, in order: none changes its place.
pub open spec fn pairs_after(
    pairs: Seq<(Seq<char>, Session)>,
    connection: Seq<char>,
    event: AcpEvent,
    auto_approve: bool,
    now: u64,
) -> Seq<(Seq<char>, Session)> {
    if !has_key(pairs, connection) {
        pairs
    } else if ends_session(event) {
        without_key(pairs, connection)
    } else {
        with_pair(
            pairs,
            connection,
            session_after(map_of_pairs(pairs)[connection], event, auto_approve, now),
        )
    }
}

/// What an event of a connection asks for; nothing where no session talks over
/// it.
pub open spec fn action_on(
    sessions: Map<Seq<char>, Session>,
    connection: Seq<char>,
    event: AcpEvent,
    auto_approve: bool,
    now: u64,
) -> Action {
    if sessions.dom().contains(connection) {
        action_of(sessions[connection], event, auto_approve, now)
    } else {
        Action::Nothing
    }
}

/// The session after reports of progress were made.
pub open spec fn refreshed(s: Session, now: u64) -> Session {
    if report_due(s, now) {
        Session { flushed: now, ..s }
    } else {
        s
    }
}

/// The reports of progress that are due, in the order of the sessions.
pub open spec fn due_reports(sessions: Seq<(Seq<char>, Session)>, now: u64) -> Seq<Progress>
    decreases sessions.len(),
{
    if sessions.len() == 0 {
        Seq::empty()
    } else {
        let s = sessions.last().1;
        let rest = due_reports(sessions.drop_last(), now);
        if report_due(s, now) {
            rest.push(
                Progress { channel_id: s.channel_id, agent: s.agent, last_tool: last_tool(s) },
            )
        } else {
            rest
        }
    }
}

/// What reports say, in order.
pub open spec fn reports(updates: Seq<ProgressUpdate>) -> Seq<Progress> {
    updates.map_values(|u: ProgressUpdate| u@)
}

impl SessionBridge {
    /// No session.
    pub fn new() -> (r: Self)
        ensures
            r.wf(),
            r.pairs() == Seq::<(Seq<char>, Session)>::empty(),
            r@ == Map::<Seq<char>, Session>::empty(),
    {
        let r = SessionBridge { sessions: KeyedStore::new() };
        assert(r.pairs() =~= Seq::<(Seq<char>, Session)>::empty());
        assert(r@ =~= Map::<Seq<char>, Session>::empty());
        r
    }

    /// Registers the session that talks over a connection, behind all others or
    /// in the place of the one that did.
    pub fn register(&mut self, connection_id: String, session: ActiveSession)
        requires
            old(self).wf(),
            session.wf(),
        ensures
            final(self).wf(),
            final(self)@ == old(self)@.insert(connection_id@, session@),
            final(self).pairs() == with_pair(old(self).pairs(), connection_id@, session@),
    {
        let ghost key = connection_id@;
        proof {
            self.lemma_inner();
            lemma_mapped_pair(self.sessions.pairs(), |s: ActiveSession| s@, key, session);
        }
        self.sessions.insert(connection_id, session);
        proof {
            self.lemma_inner();
            assert(self@ =~= old(self)@.insert(key, session@));
        }
    }

    /// The session that talks over a connection.
    pub fn get(&self, connection_id: &str) -> (r: Option<&ActiveSession>)
        requires
            self.wf(),
        ensures
            match r {
                Some(s) => self@.dom().contains(connection_id@) && s@ == self@[connection_id@],
                None => !self@.dom().contains(connection_id@),
            },
    {
        proof {
            self.lemma_inner();
        }
        self.sessions.get(connection_id)
    }

    /// Takes an event of a connection. `auto_approve` says whether the sender of
    /// the session lets every permission be granted.
    pub fn handle_acp_envelope(
        &mut self,
        envelope: &EventEnvelope,
        auto_approve: bool,
        now: u64,
    ) -> (r: SessionAction)
        requires
            old(self).wf(),
        ensures
            final(self).wf(),
            final(self)@ == sessions_after(
                old(self)@,
                envelope.connection_id@,
                envelope.payload,
                auto_approve,
                now,
            ),
            final(self).pairs() == pairs_after(
                old(self).pairs(),
                envelope.connection_id@,
                envelope.payload,
                auto_approve,
                now,
            ),
            r@ == action_on(
                old(self)@,
                envelope.connection_id@,
                envelope.payload,
                auto_approve,
                now,
            ),
    {
        let id = envelope.connection_id.as_str();
        proof {
            self.lemma_inner();
            lemma_mapped_key(self.sessions.pairs(), |s: ActiveSession| s@, id@);
        }
        if event_ends_session(&envelope.payload) {
            let removed = self.sessions.remove(id);
            proof {
                self.lemma_inner();
            }
            match removed {
                Some(session) => {
                    assert(self@ =~= old(self)@.remove(id@));
                    assert(session@ == old(self)@[id@]);
                    assert(action_of(session@, envelope.payload, auto_approve, now) == action_on(
                        old(self)@,
                        id@,
                        envelope.payload,
                        auto_approve,
                        now,
                    ));
                    session.on_end(&envelope.payload)
                },
                None => {
                    assert(self@ =~= old(self)@);
                    SessionAction::Nothing
                },
            }
        } else {
            let found = self.sessions.get_mut(id);
            match found {
                Some(session) => {
                    assert(session@ == old(self)@[id@]);
                    let action = session.on_event(&envelope.payload, auto_approve, now);
                    let ghost after = session@;
                    proof {
                        self.lemma_inner();
                        lemma_mapped_pair(
                            old(self).sessions.pairs(),
                            |s: ActiveSession| s@,
                            id@,
                            *session,
                        );
                        assert(self@ =~= old(self)@.insert(id@, after));
                    }
                    action
                },
                None => {
                    proof {
                        self.lemma_inner();
                    }
                    SessionAction::Nothing
                },
            }
        }
    }

    /// Reports progress for every session whose agent has written something and
    /// of which nothing was reported for a while.
    pub fn flush_progress(&mut self, now: u64) -> (r: Vec<ProgressUpdate>)
        requires
            old(self).wf(),
        ensures
            final(self).wf(),
            final(self).pairs() == old(self).pairs().map_values(
                |p: (Seq<char>, Session)| (p.0, refreshed(p.1, now)),
            ),
            final(self)@ == old(self)@.map_values(|s: Session| refreshed(s, now)),
            reports(r@) == due_reports(old(self).pairs(), now),
    {
        let mut out: Vec<ProgressUpdate> = Vec::new();
        let n: usize = self.sessions.len();
        let ghost first = self.sessions.pairs();
        let ghost before = self.pairs();
        let mut i: usize = 0;
        proof {
            self.lemma_inner();
            lemma_pairs_and_map(first);
            assert(before.take(0) =~= Seq::<(Seq<char>, Session)>::empty());
            assert(reports(out@) =~= Seq::<Progress>::empty());
        }
        while i < n
            invariant
                i <= n == self.sessions.pairs().len(),
                n == first.len() == before.len(),
                self.sessions.wf(),
                first == old(self).sessions.pairs(),
                before == old(self).pairs(),
                forall|j: int| 0 <= j < n ==> (#[trigger] first[j]).1.wf(),
                forall|j: int| 0 <= j < n ==> (#[trigger] self.sessions.pairs()[j]).0 == first[j].0,
                forall|j: int|
                    0 <= j < i ==> (#[trigger] self.sessions.pairs()[j]).1.wf()
                        && self.sessions.pairs()[j].1@ == refreshed(first[j].1@, now),
                forall|j: int| i <= j < n ==> #[trigger] self.sessions.pairs()[j] == first[j],
                reports(out@) == due_reports(before.take(i as int), now),
            decreases n - i,
        {
            let ghost prior = self.sessions.pairs();
            let ghost said = reports(out@);
            let session = self.sessions.value_at(i);
            assert(prior[i as int] == first[i as int]);
            assert(session@ == before[i as int].1);
            if !session.content_buffer.as_str().is_empty() && elapsed_ms(session.last_flushed, now)
                >= FLUSH_INTERVAL_MS {
                session.last_flushed = now;
                let update = session.progress();
                out.push(update);
                assert(reports(out@) =~= said.push(update@));
            }
            proof {
                lemma_update(prior, i as int, self.sessions.pairs()[i as int].1);
            }
            i = i + 1;
            assert(before.take(i as int).drop_last() =~= before.take(i - 1));
        }
        proof {
            let last = self.sessions.pairs();
            assert(before.take(i as int) =~= before);
            assert(self.pairs() =~= before.map_values(
                |p: (Seq<char>, Session)| (p.0, refreshed(p.1, now)),
            ));
            lemma_pairs_and_map(last);
            lemma_same_keys(first, last);
            self.lemma_inner();
            old(self).lemma_inner();
            assert forall|key: Seq<char>| #[trigger]
                self.sessions@.dom().contains(key) implies self.sessions@[key].wf()
                && self.sessions@[key]@ == refreshed(old(self).sessions@[key]@, now) by {
                let j = choose|j: int| 0 <= j < last.len() && (#[trigger] last[j]).0 == key;
                assert(first[j].0 == key);
            }
            assert(self@ =~= old(self)@.map_values(|s: Session| refreshed(s, now)));
        }
        out
    }
}

/// Whether an event ends the session on its connection.
fn event_ends_session(event: &AcpEvent) -> (r: bool)
    ensures
        r == ends_session(*event),
{
    match event {
        AcpEvent::Error { terminal, .. } => *terminal,
        AcpEvent::StatusChanged { status } => *status == ConnectionStatus::Disconnected || *status
            == ConnectionStatus::Error,
        _ => false,
    }
}

/// Whether progress is to be reported again, given when that was done last.
pub fn heartbeat_due(last: u64, now: u64) -> (r: bool)
    ensures
        r == (elapsed(last, now) >= FLUSH_INTERVAL_MS),
{
    elapsed_ms(last, now) >= FLUSH_INTERVAL_MS
}

// ─── what is said ────────────────────────────────────────────────────────

/// The text of a report of progress, given how the language says that the agent
/// is responding.
pub open spec fn progress_text(responding: Seq<char>, tool: Option<Seq<char>>) -> Seq<char> {
    match tool {
        Some(t) => responding + " | "@ + t,
        None => responding,
    }
}

/// A report of progress, given how the language says that the agent is
/// responding.
pub open spec fn progress_report(responding: Seq<char>, tool: Option<Seq<char>>) -> MessageModel {
    MessageModel::plain(progress_text(responding, tool), MessageLevel::Info)
}

/// A report of progress, given how the language says that the agent is
/// responding.
pub fn progress_message(responding: String, tool: Option<&str>) -> (r: RichMessage)
    ensures
        r@ == progress_report(responding@, opt_text(tool)),
{
    let mut text = responding;
    match tool {
        Some(t) => {
            text.append(" | ");
            text.append(t);
        },
        None => {},
    }
    RichMessage::info(text)
}

/// What is said of a first prompt that could not be sent.
pub open spec fn prompt_failure(reason: Seq<char>) -> MessageModel {
    MessageModel::plain("Failed to send task: "@ + reason, MessageLevel::Error)
}

/// What is said where the first prompt of a session could not be sent.
pub fn prompt_failed_message(reason: &str) -> (r: RichMessage)
    ensures
        r@ == prompt_failure(reason@),
{
    let mut text = "Failed to send task: ".to_owned();
    text.append(reason);
    RichMessage::error(text)
}

/// What commands begin with.
pub fn command_prefix(stored: Option<String>) -> (r: String)
    ensures
        r@ == match stored {
            Some(s) => s@,
            None => DEFAULT_COMMAND_PREFIX@,
        },
{
    match stored {
        Some(s) => s,
        None => DEFAULT_COMMAND_PREFIX.to_owned(),
    }
}

/// The text that asks for a permission.
pub open spec fn permission_text(
    description: Seq<char>,
    prefix: Seq<char>,
    lang: Lang,
) -> Seq<char> {
    lang.either("Agent 请求权限: "@, "Agent requests permission: "@) + description + "\n\n"@ + prefix
        + lang.either("approve 批准 | "@, "approve | "@) + prefix + lang.either(
        "deny 拒绝 | "@,
        "deny | "@,
    ) + prefix + lang.either("approve always 自动批准"@, "approve always"@)
}

/// The request for a permission.
pub open spec fn permission_request(
    description: Seq<char>,
    prefix: Seq<char>,
    lang: Lang,
) -> MessageModel {
    MessageModel::plain(permission_text(description, prefix, lang), MessageLevel::Warning).titled(
        lang.either("权限请求"@, "Permission Request"@),
    )
}

/// The message that asks for a permission.
pub fn permission_message(description: &str, prefix: &str, lang: Lang) -> (r: RichMessage)
    ensures
        r@ == permission_request(description@, prefix@, lang),
{
    let mut body = lang.pick("Agent 请求权限: ", "Agent requests permission: ").to_owned();
    body.append(description);
    body.append("\n\n");
    body.append(prefix);
    body.append(lang.pick("approve 批准 | ", "approve | "));
    body.append(prefix);
    body.append(lang.pick("deny 拒绝 | ", "deny | "));
    body.append(prefix);
    body.append(lang.pick("approve always 自动批准", "approve always"));
    RichMessage::warning(body).with_title(lang.pick("权限请求", "Permission Request"))
}

/// The report of a turn.
pub open spec fn turn_report(
    content: Seq<char>,
    tools: nat,
    agent: Seq<char>,
    reason: Seq<char>,
    lang: Lang,
) -> MessageModel {
    MessageModel::plain(completion(content, tools, lang), MessageLevel::Info).titled(
        lang.either("任务完成"@, "Turn Complete"@),
    ).with("Agent"@, agent).with(
        lang.either("结束原因"@, "Stop Reason"@),
        localized(reason, lang),
    )
}

/// The message that reports a turn.
pub fn turn_message(
    content: &str,
    tool_count: usize,
    agent_type: &str,
    stop_reason: &str,
    lang: Lang,
) -> (r: RichMessage)
    ensures
        r@ == turn_report(content@, tool_count as nat, agent_type@, stop_reason@, lang),
{
    let body = format_completion(content, tool_count, lang);
    RichMessage::info(body).with_title(lang.pick("任务完成", "Turn Complete")).with_field(
        "Agent",
        agent_type,
    ).with_field(
        lang.pick("结束原因", "Stop Reason"),
        localize_stop_reason(stop_reason, lang).as_str(),
    )
}

/// The report of an error of an agent.
pub open spec fn error_report(agent: Seq<char>, message: Seq<char>, lang: Lang) -> MessageModel {
    MessageModel::plain("["@ + agent + "] "@ + message, MessageLevel::Error).titled(
        lang.either("Agent 错误"@, "Agent Error"@),
    )
}

/// The message that reports an error of an agent.
pub fn error_message(agent_type: &str, message: &str, lang: Lang) -> (r: RichMessage)
    ensures
        r@ == error_report(agent_type@, message@, lang),
{
    let mut body = "[".to_owned();
    body.append(agent_type);
    body.append("] ");
    body.append(message);
    RichMessage::error(body).with_title(lang.pick("Agent 错误", "Agent Error"))
}

// ─── what holds of every event ───────────────────────────────────────────

/// An event of one connection leaves the sessions on all others alone.
pub proof fn lemma_other_sessions_untouched(
    sessions: Map<Seq<char>, Session>,
    connection: Seq<char>,
    other: Seq<char>,
    event: AcpEvent,
    auto_approve: bool,
    now: u64,
)
    requires
        other != connection,
    ensures
        ({
            let after = sessions_after(sessions, connection, event, auto_approve, now);
            &&& after.dom().contains(other) == sessions.dom().contains(other)
            &&& sessions.dom().contains(other) ==> after[other] == sessions[other]
        }),
{
}

/// An error that is not terminal changes no session: it is reported, and the
/// next message still reaches the agent.
pub proof fn lemma_recoverable_error_keeps_session(
    sessions: Map<Seq<char>, Session>,
    connection: Seq<char>,
    event: AcpEvent,
    auto_approve: bool,
    now: u64,
)
    requires
        event matches AcpEvent::Error { terminal, .. } && !terminal,
    ensures
        sessions_after(sessions, connection, event, auto_approve, now) == sessions,
        sessions.dom().contains(connection) ==> action_on(
            sessions,
            connection,
            event,
            auto_approve,
            now,
        ) is Report,
{
    assert(sessions_after(sessions, connection, event, auto_approve, now) =~= sessions);
}

/// A terminal error ends the session and cancels its conversation.
pub proof fn lemma_terminal_error_ends_session(
    sessions: Map<Seq<char>, Session>,
    connection: Seq<char>,
    event: AcpEvent,
    auto_approve: bool,
    now: u64,
)
    requires
        event matches AcpEvent::Error { terminal, .. } && terminal,
        sessions.dom().contains(connection),
    ensures
        !sessions_after(sessions, connection, event, auto_approve, now).dom().contains(connection),
        action_on(sessions, connection, event, auto_approve, now) matches Action::Abort {
            conversation_id,
            status,
            ..
        } && conversation_id == sessions[connection].conversation_id && status
            == ConversationStatus::Cancelled,
{
}

/// One event of a connection, and what the host knew when it came.
pub struct Step {
    pub event: AcpEvent,
    pub auto_approve: bool,
    pub now: u64,
}

/// The session after `steps`.
pub open spec fn run(s: Session, steps: Seq<Step>) -> Session
    decreases steps.len(),
{
    if steps.len() == 0 {
        s
    } else {
        let step = steps.last();
        session_after(run(s, steps.drop_last()), step.event, step.auto_approve, step.now)
    }
}

/// What the agent wrote in `steps`.
pub open spec fn written_in(steps: Seq<Step>) -> Seq<char>
    decreases steps.len(),
{
    if steps.len() == 0 {
        Seq::empty()
    } else {
        match steps.last().event {
            AcpEvent::ContentDelta { text } => written_in(steps.drop_last()) + text@,
            _ => written_in(steps.drop_last()),
        }
    }
}

/// How many tools were called in `steps`.
pub open spec fn calls_in(steps: Seq<Step>) -> nat
    decreases steps.len(),
{
    if steps.len() == 0 {
        0
    } else if steps.last().event is ToolCall {
        calls_in(steps.drop_last()) + 1
    } else {
        calls_in(steps.drop_last())
    }
}

/// Whether `steps` lie within one turn.
pub open spec fn within_turn(steps: Seq<Step>) -> bool {
    forall|i: int|
        0 <= i < steps.len() ==> !((#[trigger] steps[i]).event is TurnComplete) && !ends_session(
            steps[i].event,
        )
}

/// Within a turn nothing that the agent writes is lost or changed, whatever else
/// happens and however often progress is reported.
pub proof fn lemma_turn_collects(s: Session, steps: Seq<Step>)
    requires
        within_turn(steps),
    ensures
        run(s, steps).content == s.content + written_in(steps),
        run(s, steps).tools.len() == s.tools.len() + calls_in(steps),
        run(s, steps).channel_id == s.channel_id,
        run(s, steps).conversation_id == s.conversation_id,
    decreases steps.len(),
{
    if steps.len() > 0 {
        let front = steps.drop_last();
        assert forall|i: int| 0 <= i < front.len() implies !((#[trigger] front[i]).event is
        TurnComplete) && !ends_session(front[i].event) by {
            assert(front[i] == steps[i]);
        }
        lemma_turn_collects(s, front);
        assert(steps.last() == steps[steps.len() - 1]);
        match steps.last().event {
            AcpEvent::ContentDelta { text } => {
                assert(s.content + written_in(front) + text@ =~= s.content + (written_in(front)
                    + text@));
            },
            _ => {},
        }
    } else {
        assert(s.content + Seq::<char>::empty() =~= s.content);
    }
}

/// The end of a turn hands out what the agent wrote since the turn began, and
/// the number of its tool calls; the next turn begins with nothing.
pub proof fn lemma_turn_hands_out_everything(
    s: Session,
    steps: Seq<Step>,
    end: AcpEvent,
    auto_approve: bool,
    now: u64,
)
    requires
        s.content.len() == 0,
        s.tools.len() == 0,
        within_turn(steps),
        end is TurnComplete,
    ensures
        action_of(run(s, steps), end, auto_approve, now) matches Action::TurnDone {
            channel_id,
            content,
            tool_count,
            ..
        } && channel_id == s.channel_id && content == written_in(steps) && tool_count == calls_in(
            steps,
        ),
        session_after(run(s, steps), end, auto_approve, now).content.len() == 0,
        session_after(run(s, steps), end, auto_approve, now).tools.len() == 0,
{
    lemma_turn_collects(s, steps);
    assert(s.content + written_in(steps) =~= written_in(steps));
}

/// Reports that are made at once lie apart: after one, the next comes two
/// seconds later at the earliest.
pub proof fn lemma_reports_lie_apart(
    s: Session,
    first: AcpEvent,
    second: AcpEvent,
    auto_approve: bool,
    then: u64,
    now: u64,
)
    requires
        first is ContentDelta,
        second is ContentDelta,
        action_of(s, first, auto_approve, then) is Progress,
        action_of(session_after(s, first, auto_approve, then), second, auto_approve, now) is
        Progress,
    ensures
        now >= then + BURST_INTERVAL_MS,
{
}

/// A report that was made is not made again before its interval is over.
pub proof fn lemma_reports_are_not_repeated(s: Session, then: u64, now: u64)
    requires
        report_due(s, then),
        now < then + FLUSH_INTERVAL_MS,
    ensures
        !report_due(refreshed(s, then), now),
{
}

proof fn lemma_first_grant(options: Seq<Choice>, from: int)
    requires
        0 <= from,
    ensures
        match first_grant(options, from) {
            Some(i) => from <= i < options.len() && grants(options[i]),
            None => forall|j: int| from <= j < options.len() ==> !grants(#[trigger] options[j]),
        },
    decreases options.len() - from,
{
    if from < options.len() && !grants(options[from]) {
        lemma_first_grant(options, from + 1);
    }
}

/// A permission that is granted without asking is answered wherever there is an
/// option, and with one that grants wherever there is one.
pub proof fn lemma_grant_prefers_allowing(options: Seq<Choice>)
    ensures
        granted_option(options) is Some <==> options.len() > 0,
        (exists|i: int| 0 <= i < options.len() && grants(#[trigger] options[i])) ==> exists|i: int|
            0 <= i < options.len() && grants(#[trigger] options[i]) && granted_option(options)
                == Some(options[i].id),
{
    lemma_first_grant(options, 0);
}

// ─── what is relayed ─────────────────────────────────────────────────────

/// The report of a turn is about the turn that ended: it goes to the session's
/// channel, with the conversation of the session, everything that the agent wrote,
/// the number of its tool calls, and the stop reason and the agent of the event.
/// The conversation is completed if and only if the turn ended normally.
pub proof fn lemma_report_is_of_its_turn(
    action: SessionAction,
    s: Session,
    event: AcpEvent,
    auto_approve: bool,
    now: u64,
)
    requires
        action@ == action_of(s, event, auto_approve, now),
    ensures
        action is TurnDone <==> event is TurnComplete,
        action matches SessionAction::TurnDone {
            channel_id,
            conversation_id,
            content,
            tool_count,
            agent_type: agent,
            stop_reason: reason,
            status,
        } ==> event matches AcpEvent::TurnComplete { stop_reason, agent_type, .. } && channel_id
            == s.channel_id && conversation_id == s.conversation_id && content@ == s.content
            && tool_count == s.tools.len() && agent@ == agent_type@ && reason@ == stop_reason@ && (
        status == Some(ConversationStatus::Completed) <==> stop_reason@ == "end_turn"@) && (
        status is None <==> stop_reason@ != "end_turn"@),
{
}

/// The message about a turn names its agent and, in the words of the channel, the
/// reason for which it ended, and has what the agent wrote for its body.
pub proof fn lemma_turn_report_says(
    content: Seq<char>,
    tools: nat,
    agent: Seq<char>,
    reason: Seq<char>,
    lang: Lang,
)
    ensures
        ({
            let report = turn_report(content, tools, agent, reason, lang);
            &&& report.body == completion(content, tools, lang)
            &&& report.fields.len() == 2
            &&& report.fields[0] == ("Agent"@, agent)
            &&& report.fields[1].1 == localized(reason, lang)
            &&& report.level == MessageLevel::Info
            &&& lang == Lang::ZhCn || lang == Lang::ZhTw ==> report.title == Some("任务完成"@)
                && report.fields[1].0 == "结束原因"@
            &&& lang != Lang::ZhCn && lang != Lang::ZhTw ==> report.title == Some("Turn Complete"@)
                && report.fields[1].0 == "Stop Reason"@
        }),
{
}

/// The message about an error holds the agent in brackets and the error's own
/// words, whatever the language.
pub proof fn lemma_error_report_says(agent: Seq<char>, message: Seq<char>, lang: Lang)
    ensures
        error_report(agent, message, lang).body == "["@ + agent + "] "@ + message,
        error_report(agent, message, lang).level == MessageLevel::Error,
        error_report(agent, message, lang).fields.len() == 0,
        error_report(agent, message, lang).title == Some(
            if lang == Lang::ZhCn || lang == Lang::ZhTw {
                "Agent 错误"@
            } else {
                "Agent Error"@
            },
        ),
{
}

/// The request for a permission shows what is asked for, and the three commands
/// that answer it, each behind the prefix of commands.
pub proof fn lemma_permission_request_says(description: Seq<char>, prefix: Seq<char>, lang: Lang)
    ensures
        ({
            let request = permission_request(description, prefix, lang);
            &&& request.level == MessageLevel::Warning
            &&& request.title == Some(
                if lang == Lang::ZhCn || lang == Lang::ZhTw {
                    "权限请求"@
                } else {
                    "Permission Request"@
                },
            )
            &&& request.fields.len() == 0
            &&& occurs(request.body, description)
            &&& occurs(request.body, prefix + "approve"@)
            &&& occurs(request.body, prefix + "deny"@)
            &&& occurs(request.body, prefix + "approve always"@)
        }),
{
    reveal_strlit("approve");
    reveal_strlit("deny");
    reveal_strlit("approve always");
    reveal_strlit("approve 批准 | ");
    reveal_strlit("approve | ");
    reveal_strlit("deny 拒绝 | ");
    reveal_strlit("deny | ");
    reveal_strlit("approve always 自动批准");
    let yes = lang.either("approve 批准 | "@, "approve | "@);
    let no = lang.either("deny 拒绝 | "@, "deny | "@);
    let always = lang.either("approve always 自动批准"@, "approve always"@);
    assert(yes =~= "approve"@ + yes.skip(7));
    assert(no =~= "deny"@ + no.skip(4));
    assert(always =~= "approve always"@ + always.skip(14));
    lemma_request_parts(
        lang.either("Agent 请求权限: "@, "Agent requests permission: "@),
        description,
        "\n\n"@,
        prefix,
        ("approve"@, yes.skip(7)),
        ("deny"@, no.skip(4)),
        ("approve always"@, always.skip(14)),
    );
}

proof fn lemma_request_parts(
    lead: Seq<char>,
    description: Seq<char>,
    gap: Seq<char>,
    prefix: Seq<char>,
    yes: (Seq<char>, Seq<char>),
    no: (Seq<char>, Seq<char>),
    always: (Seq<char>, Seq<char>),
)
    ensures
        ({
            let body = lead + description + gap + prefix + (yes.0 + yes.1) + prefix + (no.0 + no.1)
                + prefix + (always.0 + always.1);
            &&& occurs(body, description)
            &&& occurs(body, prefix + yes.0)
            &&& occurs(body, prefix + no.0)
            &&& occurs(body, prefix + always.0)
        }),
{
    let a = lead + description + gap;
    let b = a + prefix + (yes.0 + yes.1);
    let c = b + prefix + (no.0 + no.1);
    let body = c + prefix + (always.0 + always.1);
    let back = prefix + (always.0 + always.1);
    let middle = prefix + (no.0 + no.1) + back;
    lemma_part(c, (prefix + always.0), always.1, body);
    lemma_part(b, (prefix + no.0), no.1 + back, body);
    lemma_part(a, (prefix + yes.0), yes.1 + middle, body);
    lemma_part(lead, description, gap + prefix + (yes.0 + yes.1) + middle, body);
}

proof fn lemma_part(before: Seq<char>, part: Seq<char>, after: Seq<char>, whole: Seq<char>)
    requires
        whole =~= before + part + after,
    ensures
        occurs(whole, part),
{
    lemma_occurs(whole, part);
}

/// What a session is about never changes: whatever event comes, it keeps its
/// channel, sender, conversation, connection and agent.
pub proof fn lemma_session_keeps_its_place(
    s: Session,
    event: AcpEvent,
    auto_approve: bool,
    now: u64,
)
    ensures
        ({
            let after = session_after(s, event, auto_approve, now);
            &&& after.channel_id == s.channel_id
            &&& after.sender == s.sender
            &&& after.conversation_id == s.conversation_id
            &&& after.connection == s.connection
            &&& after.agent == s.agent
            &&& !(event is SessionStarted) ==> after.prompt == s.prompt
            &&& !(event is PermissionRequest) ==> after.permission == s.permission
            &&& !(event is ToolCall) && !(event is TurnComplete) ==> after.tools == s.tools
            &&& !(event is ContentDelta) && !(event is TurnComplete) ==> after.content == s.content
            &&& !(event is ToolCall) && !(event is ToolCallUpdate) ==> after.inputs == s.inputs
            &&& event is TurnComplete ==> after.flushed == now && after.content.len() == 0
                && after.tools.len() == 0
            &&& !(event is TurnComplete) && !(event is ContentDelta) ==> after.flushed == s.flushed
        }),
{
}

/// The start of a session writes the agent's identifier to the session's
/// conversation and sends the prompt that waits for it, once: the next start finds
/// none.
pub proof fn lemma_prompt_is_sent_once(
    first: SessionAction,
    second: SessionAction,
    s: Session,
    start: AcpEvent,
    again: AcpEvent,
    auto_approve: bool,
    now: u64,
    later: u64,
)
    requires
        start is SessionStarted,
        again is SessionStarted,
        first@ == action_of(s, start, auto_approve, now),
        second@ == action_of(
            session_after(s, start, auto_approve, now),
            again,
            auto_approve,
            later,
        ),
    ensures
        first matches SessionAction::Start { channel_id, conversation_id, external_id, prompt }
            && channel_id == s.channel_id && conversation_id == s.conversation_id && external_id@
            == start->SessionStarted_session_id@ && opt_string(prompt) == s.prompt,
        second matches SessionAction::Start { external_id, prompt, .. } && prompt is None
            && external_id@ == again->SessionStarted_session_id@,
{
}

/// What the agent writes is added at the end of what it wrote, and a report of
/// progress is made with it if and only if 500 bytes have come together and two
/// seconds have passed since the last one.
pub proof fn lemma_writing_is_added(
    action: SessionAction,
    s: Session,
    event: AcpEvent,
    auto_approve: bool,
    now: u64,
)
    requires
        event is ContentDelta,
        action@ == action_of(s, event, auto_approve, now),
    ensures
        ({
            let after = session_after(s, event, auto_approve, now);
            &&& after.content == s.content + event->ContentDelta_text@
            &&& action is Progress <==> utf8_len(after.content) >= 500 && now >= s.flushed + 2_000
            &&& action matches SessionAction::Progress(update) ==> update.channel_id
                == s.channel_id && update.agent_type@ == s.agent && opt_string(update.last_tool)
                == if s.tools.len() > 0 {
                Some(s.tools.last())
            } else {
                None
            }
            &&& !(action is Progress) ==> action == SessionAction::Nothing
            &&& after.flushed == if action is Progress {
                now
            } else {
                s.flushed
            }
        }),
{
}

/// A tool call is counted under its title, and its arguments are kept until it is
/// complete; a delegation that names its agent is announced with that agent.
pub proof fn lemma_tool_call_is_kept(
    action: SessionAction,
    s: Session,
    event: AcpEvent,
    auto_approve: bool,
    now: u64,
)
    requires
        event is ToolCall,
        action@ == action_of(s, event, auto_approve, now),
    ensures
        ({
            let after = session_after(s, event, auto_approve, now);
            let id = event->ToolCall_tool_call_id@;
            let raw = opt_string(event->ToolCall_raw_input);
            let title = event->ToolCall_title@;
            &&& after.tools == s.tools.push(title)
            &&& raw is Some ==> after.inputs.dom().contains(id) && after.inputs[id] == raw->0
            &&& raw is None ==> after.inputs == s.inputs
            &&& forall|other: Seq<char>|
                other != id && #[trigger] s.inputs.dom().contains(other)
                    ==> after.inputs.dom().contains(other) && after.inputs[other]
                    == s.inputs[other]
            &&& action is Post <==> titled_delegation(title) && agent_of(raw) is Some
            &&& action matches SessionAction::Post { channel_id, message } ==> channel_id
                == s.channel_id && message.body@ == "🤖 Delegating to "@ + agent_of(raw)->0 + "…"@
            &&& !(action is Post) ==> action == SessionAction::Nothing
        }),
{
}

/// A tool call that is complete is described by the arguments that came with the
/// update or, where it brings none, by those that its call came with; they are
/// forgotten with it. One that is not complete says nothing.
pub proof fn lemma_completed_call_is_described(
    action: SessionAction,
    s: Session,
    event: AcpEvent,
    auto_approve: bool,
    now: u64,
)
    requires
        event is ToolCallUpdate,
        action@ == action_of(s, event, auto_approve, now),
    ensures
        ({
            let after = session_after(s, event, auto_approve, now);
            let id = event->ToolCallUpdate_tool_call_id@;
            let input = match event->ToolCallUpdate_raw_input {
                Some(raw) => Some(raw@),
                None => if s.inputs.dom().contains(id) {
                    Some(s.inputs[id])
                } else {
                    None
                },
            };
            let output = opt_string(event->ToolCallUpdate_raw_output);
            let title = match event->ToolCallUpdate_title {
                Some(t) => t@,
                None => "tool"@,
            };
            &&& action is Post <==> (event->ToolCallUpdate_status matches Some(status) && status@
                == "completed"@)
            &&& action matches SessionAction::Post { channel_id, message } ==> channel_id
                == s.channel_id && message.level == MessageLevel::Info
                && !after.inputs.dom().contains(id) && if titled_delegation(title) || agent_of(
                input,
            ) is Some {
                message.body@ == delegation_line(input, output)
            } else {
                message.body@ == ">> "@ + tool_detail(title, input)
            }
            &&& !(action is Post) ==> action == SessionAction::Nothing
            &&& forall|other: Seq<char>|
                other != id && #[trigger] s.inputs.dom().contains(other)
                    ==> after.inputs.dom().contains(other) && after.inputs[other]
                    == s.inputs[other]
        }),
{
}

/// A permission that is asked for is asked for with a description of the tool and
/// its arguments, and waits under the request's identifier with all its options;
/// one that is granted without asking answers that request and waits for nothing.
pub proof fn lemma_permission_is_asked_for(
    action: SessionAction,
    s: Session,
    event: AcpEvent,
    auto_approve: bool,
    now: u64,
)
    requires
        event is PermissionRequest,
        action@ == action_of(s, event, auto_approve, now),
    ensures
        ({
            let after = session_after(s, event, auto_approve, now);
            let tool_call = event->tool_call@;
            let options = event->PermissionRequest_options@;
            let name = match tool_call.text_at("title"@) {
                Some(title) => title,
                None => match tool_call.text_at("tool_name"@) {
                    Some(tool) => tool,
                    None => "Unknown tool"@,
                },
            };
            let given = if tool_call.get("rawInput"@) is Some {
                tool_call.get("rawInput"@)
            } else {
                tool_call.get("raw_input"@)
            };
            &&& !auto_approve ==> (action matches SessionAction::Ask { channel_id, description }
                && channel_id == s.channel_id && (after.permission matches Some(p) && p.request_id
                == event->request_id@ && p.sent is None && p.description == description@
                && p.options.len()
                == options.len() && (forall|i: int|
                0 <= i < options.len() ==> (#[trigger] p.options[i]).id == options[i].option_id@
                    && p.options[i].kind == options[i].kind@ && p.options[i].name
                    == options[i].name@)) && description@ == tool_detail(
                name,
                match given {
                    Some(JsonTree::Text(raw)) => Some(raw),
                    Some(JsonTree::Null) => None,
                    Some(value) => Some(written(value)),
                    None => None,
                },
            ))
            &&& auto_approve ==> after == s && (action is Grant <==> options.len() > 0) && (
            action matches SessionAction::Grant { request_id, option_id } ==> request_id@
                == event->request_id@ && exists|i: int|
                0 <= i < options.len() && option_id@ == (#[trigger] options[i]).option_id@)
        }),
{
    let options = event->PermissionRequest_options@;
    let all = choices(options);
    lemma_first_grant(all, 0);
    assert(forall|i: int| 0 <= i < options.len() ==> #[trigger] all[i] == options[i]@);
    if auto_approve && options.len() > 0 {
        let at = match first_grant(all, 0) {
            Some(i) => i,
            None => 0,
        };
        assert(all[at] == options[at]@);
        assert(granted_option(all) == Some(options[at].option_id@));
    }
}

/// Of the options that grant, the first is taken; where none grants, the first of
/// all.
pub proof fn lemma_first_grant_is_taken(options: Seq<Choice>, i: int)
    requires
        0 <= i < options.len(),
        options[i].kind == "allow"@ || options[i].kind == "allowForSession"@ || i == 0,
        forall|j: int|
            0 <= j < options.len() && (j < i || i == 0 && !(options[0].kind == "allow"@
                || options[0].kind == "allowForSession"@)) ==> (#[trigger] options[j]).kind
                != "allow"@ && options[j].kind != "allowForSession"@,
    ensures
        granted_option(options) == Some(options[i].id),
{
    lemma_first_grant(options, 0);
    lemma_first_grant_least(options, 0);
    match first_grant(options, 0) {
        Some(k) => {
            assert(grants(options[k]));
            if k < i {
                assert(options[k].kind != "allow"@);
            } else if i < k {
                assert(!grants(options[i]));
                assert(i == 0);
                assert(options[k].kind != "allow"@);
            }
        },
        None => {
            assert(!grants(options[i]));
        },
    }
}

proof fn lemma_first_grant_least(options: Seq<Choice>, from: int)
    requires
        0 <= from,
    ensures
        first_grant(options, from) matches Some(k) ==> forall|j: int|
            from <= j < k ==> !grants(#[trigger] options[j]),
    decreases options.len() - from,
{
    if from < options.len() && !grants(options[from]) {
        lemma_first_grant_least(options, from + 1);
    }
}

/// An error is told in its own words with its agent, on the session's channel; a
/// terminal one also ends the sender's session and cancels the conversation. A
/// connection that is lost ends the sender's session.
pub proof fn lemma_errors_are_told(
    action: SessionAction,
    s: Session,
    event: AcpEvent,
    auto_approve: bool,
    now: u64,
)
    requires
        action@ == action_of(s, event, auto_approve, now),
    ensures
        event matches AcpEvent::Error { message, agent_type, terminal, .. } ==> if terminal {
            action matches SessionAction::Abort {
                channel_id,
                sender_id,
                conversation_id,
                agent_type: agent,
                message: words,
                status,
            } && channel_id == s.channel_id && sender_id@ == s.sender && conversation_id
                == s.conversation_id && agent@ == agent_type@ && words@ == message@ && status
                == ConversationStatus::Cancelled
        } else {
            action matches SessionAction::Report { channel_id, agent_type: agent, message: words }
                && channel_id == s.channel_id && agent@ == agent_type@ && words@ == message@
        },
        event matches AcpEvent::StatusChanged { status } ==> if status
            == ConnectionStatus::Disconnected || status == ConnectionStatus::Error {
            action matches SessionAction::Forget { channel_id, sender_id } && channel_id
                == s.channel_id && sender_id@ == s.sender
        } else {
            action == SessionAction::Nothing
        },
{
}

/// A session ends with a terminal error, and where its connection is lost or in
/// error; with nothing else.
pub proof fn lemma_what_ends_a_session(
    sessions: Map<Seq<char>, Session>,
    connection: Seq<char>,
    event: AcpEvent,
    auto_approve: bool,
    now: u64,
)
    requires
        sessions.dom().contains(connection),
    ensures
        sessions_after(sessions, connection, event, auto_approve, now).dom().contains(connection)
            <==> match event {
            AcpEvent::Error { terminal, .. } => !terminal,
            AcpEvent::StatusChanged { status } => status != ConnectionStatus::Disconnected && status
                != ConnectionStatus::Error,
            _ => true,
        },
        sessions_after(sessions, connection, event, auto_approve, now).dom().contains(connection)
            ==> sessions_after(
            sessions,
            connection,
            event,
            auto_approve,
            now,
        )[connection] == session_after(sessions[connection], event, auto_approve, now),
        action_on(sessions, connection, event, auto_approve, now) == action_of(
            sessions[connection],
            event,
            auto_approve,
            now,
        ),
{
}

/// An event of a connection over which no session talks changes nothing and asks
/// for nothing.
pub proof fn lemma_strange_connections_are_ignored(
    sessions: Map<Seq<char>, Session>,
    connection: Seq<char>,
    event: AcpEvent,
    auto_approve: bool,
    now: u64,
)
    requires
        !sessions.dom().contains(connection),
    ensures
        sessions_after(sessions, connection, event, auto_approve, now) == sessions,
        action_on(sessions, connection, event, auto_approve, now) == Action::Nothing,
{
}

/// A report of progress is due where the agent has written something and nothing
/// was reported for ten seconds; making it changes nothing but that time.
pub proof fn lemma_when_reports_are_due(s: Session, now: u64)
    ensures
        report_due(s, now) <==> s.content.len() > 0 && now >= s.flushed + 10_000,
        refreshed(s, now) == if s.content.len() > 0 && now >= s.flushed + 10_000 {
            Session { flushed: now, ..s }
        } else {
            s
        },
{
}

/// Each session of which a report is due is reported with its own channel, agent
/// and last tool, and no other is: with one more session there is one more report
/// at the end where its is due, and none where it is not.
pub proof fn lemma_every_due_report_is_made(
    sessions: Seq<(Seq<char>, Session)>,
    key: Seq<char>,
    s: Session,
    now: u64,
)
    ensures
        ({
            let before = due_reports(sessions, now);
            let after = due_reports(sessions.push((key, s)), now);
            if s.content.len() > 0 && now >= s.flushed + 10_000 {
                &&& after.len() == before.len() + 1
                &&& after.drop_last() == before
                &&& after.last().channel_id == s.channel_id
                &&& after.last().agent == s.agent
                &&& after.last().last_tool is Some <==> s.tools.len() > 0
                &&& s.tools.len() > 0 ==> after.last().last_tool == Some(s.tools.last())
            } else {
                after == before
            }
        }),
        due_reports(Seq::empty(), now).len() == 0,
{
    assert(sessions.push((key, s)).drop_last() =~= sessions);
    let before = due_reports(sessions, now);
    let after = due_reports(sessions.push((key, s)), now);
    if s.content.len() > 0 && now >= s.flushed + 10_000 {
        assert(after.drop_last() =~= before);
    }
}

/// A report of progress says that the agent responds, and which tool it used last;
/// a prompt that could not be sent is told with the reason.
pub proof fn lemma_progress_names_tool(responding: Seq<char>, tool: Seq<char>)
    ensures
        progress_text(responding, None) == responding,
        progress_text(responding, Some(tool)) == responding + " | "@ + tool,
        progress_report(responding, None).body == responding,
        progress_report(responding, Some(tool)).body == responding + " | "@ + tool,
        progress_report(responding, Some(tool)).level == MessageLevel::Info,
        prompt_failure(tool).body == "Failed to send task: "@ + tool,
        prompt_failure(tool).level == MessageLevel::Error,
{
}

/// What a session says is what it holds, part by part.
pub proof fn lemma_session_says(session: ActiveSession, permission: PendingPermission)
    ensures
        session@.channel_id == session.channel_id,
        session@.sender == session.sender_id@,
        session@.conversation_id == session.conversation_id,
        session@.connection == session.connection_id@,
        session@.agent == session.agent_type@,
        session@.content == session.content_buffer@,
        session@.tools.len() == session.tool_calls@.len(),
        forall|i: int|
            0 <= i < session.tool_calls@.len() ==> #[trigger] session@.tools[i]
                == session.tool_calls@[i]@,
        session@.flushed == session.last_flushed,
        session@.prompt is Some <==> session.pending_prompt is Some,
        session.pending_prompt matches Some(prompt) ==> session@.prompt == Some(prompt@),
        session@.permission is Some <==> session.permission_pending is Some,
        session.permission_pending matches Some(p) ==> session@.permission == Some(p@),
        forall|id: Seq<char>| #[trigger]
            session@.inputs.dom().contains(id) <==> session.tool_call_inputs@.dom().contains(id),
        forall|id: Seq<char>|
            session.tool_call_inputs@.dom().contains(id) ==> #[trigger] session@.inputs[id]
                == session.tool_call_inputs@[id]@,
        permission@.request_id == permission.request_id@,
        permission@.description == permission.tool_description@,
        permission@.options.len() == permission.options@.len(),
        forall|i: int|
            0 <= i < permission.options@.len() ==> (#[trigger] permission@.options[i]).id
                == permission.options@[i].option_id@ && permission@.options[i].kind
                == permission.options@[i].kind@,
{
}

/// Time is counted in milliseconds from the earlier moment to the later; a clock
/// that went back counts nothing.
pub proof fn lemma_elapsed(then: u64, now: u64, wait: u64)
    requires
        wait > 0,
    ensures
        elapsed(then, now) >= wait <==> now >= then + wait,
{
}

/// Sessions keep their places: an event leaves all of them in the order in which
/// they were registered, with that of its connection as the event leaves it or, where
/// it ends, taken out.
pub proof fn lemma_sessions_keep_their_order(
    pairs: Seq<(Seq<char>, Session)>,
    at: int,
    event: AcpEvent,
    auto_approve: bool,
    now: u64,
)
    requires
        distinct_keys(pairs),
        0 <= at < pairs.len(),
    ensures
        ({
            let after = pairs_after(pairs, pairs[at].0, event, auto_approve, now);
            let ended = match event {
                AcpEvent::Error { terminal, .. } => terminal,
                AcpEvent::StatusChanged { status } => status == ConnectionStatus::Disconnected
                    || status == ConnectionStatus::Error,
                _ => false,
            };
            if ended {
                after == pairs.remove(at)
            } else {
                after == pairs.update(
                    at,
                    (pairs[at].0, session_after(pairs[at].1, event, auto_approve, now)),
                )
            }
        }),
{
    lemma_pairs_and_map(pairs);
    let k = crate::keyed::index_of_key(pairs, pairs[at].0);
    assert(0 <= k < pairs.len() && pairs[k].0 == pairs[at].0);
    assert(k == at);
}

} // verus!
