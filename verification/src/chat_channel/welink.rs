//! The WeLink channel: a group whose history is polled through the command line
//! client, and to which messages go over HTTP.

use vstd::prelude::*;
use crate::chat_channel::chunks::chunks_fit;
use crate::chat_channel::chunks::chunks_of;
use crate::chat_channel::chunks::lemma_chunks_make_text;
use crate::chat_channel::chunks::split_message;
use crate::chat_channel::cli::auth_login_args;
use crate::chat_channel::cli::login_words;
use crate::chat_channel::cli::preview;
use crate::chat_channel::cli::preview_text;
use crate::chat_channel::cli::query_history_args;
use crate::chat_channel::cli::query_words;
use crate::chat_channel::cli::CommandOutputError;
use crate::chat_channel::history::batch_of_output;
use crate::chat_channel::history::incoming_all;
use crate::chat_channel::history::is_new;
use crate::chat_channel::history::lemma_commands_are_due;
use crate::chat_channel::history::lemma_commands_are_whole;
use crate::chat_channel::history::lemma_cursor_never_goes_back;
use crate::chat_channel::history::lemma_no_command_lost;
use crate::chat_channel::history::lemma_plain_command_comes_through;
use crate::chat_channel::history::lemma_result_code_decides;
use crate::chat_channel::history::message_id;
use crate::chat_channel::history::message_text;
use crate::chat_channel::history::messages_of;
use crate::chat_channel::history::normalize_sender_list;
use crate::chat_channel::history::normalized;
use crate::chat_channel::history::parse_history_output;
use crate::chat_channel::history::Incoming;
use crate::chat_channel::history::ParsedIncomingMessage;
use crate::chat_channel::html::escaped;
use crate::chat_channel::html::html_escape_text;
use crate::chat_channel::html::in_tag_after;
use crate::chat_channel::html::lemma_escaped_adds;
use crate::chat_channel::html::lemma_escaped_is_inert;
use crate::chat_channel::html::lemma_outside_tags;
use crate::chat_channel::html::lemma_stripped_adds;
use crate::chat_channel::html::lemma_tags_are_removed;
use crate::chat_channel::html::lemma_unescape_undoes_escape;
use crate::chat_channel::html::stripped;
use crate::chat_channel::html::unescaped;
use crate::chat_channel::types::ChannelConnectionStatus;
use crate::chat_channel::types::ChatChannelError;
use crate::chat_channel::types::IncomingCommand;
use crate::chat_channel::types::MessageModel;
use crate::chat_channel::types::RichMessage;
use crate::chat_channel::types::SentMessageId;
use crate::chat_channel::types::WelinkConfig;
use crate::decimal::decimal;
use crate::json::last_wins;
use crate::json::members;
use crate::json::object_of;
use crate::json::Json;
use crate::json::JsonTree;
use crate::json::parsed;
use crate::text::all_space;
use crate::text::as_text;
use crate::text::concat_all;
use crate::text::lemma_trimmed;
use crate::text::no_outer_space;
use crate::text::opt_string;
use crate::text::texts;
use crate::text::trim;
use crate::text::trimmed;

verus! {

/// How long to wait between two polls.
pub const POLL_INTERVAL_SECS: u64 = 5;

/// How long to wait after a failed poll.
pub const RETRY_INTERVAL_SECS: u64 = 10;

/// How many characters one message may have.
pub const MAX_CONTENT_CHARS: usize = 3_000;

/// How much of a refusal an error shows.
pub const REPLY_PREVIEW_CHARS: usize = 300;

// ─── messages out ────────────────────────────────────────────────────────

/// The fields of a message, each on a line of its own.
pub open spec fn field_lines(fields: Seq<(Seq<char>, Seq<char>)>) -> Seq<char>
    decreases fields.len(),
{
    if fields.len() == 0 {
        Seq::empty()
    } else {
        field_lines(fields.drop_last()) + "\n<b>"@ + escaped(fields.last().0) + "</b>: "@ + escaped(
            fields.last().1,
        )
    }
}

/// The title of a message on a line of its own.
pub open spec fn title_line(title: Option<Seq<char>>) -> Seq<char> {
    match title {
        Some(t) => "<b>"@ + escaped(t) + "</b>\n"@,
        None => Seq::empty(),
    }
}

/// A message as the channel's markup.
pub open spec fn markup(message: MessageModel) -> Seq<char> {
    title_line(message.title) + escaped(message.body) + field_lines(message.fields)
}

/// A message as the channel's markup.
pub fn format_welink_message(message: &RichMessage) -> (r: String)
    ensures
        r@ == markup(message@),
{
    let mut text = String::new();
    match &message.title {
        Some(title) => {
            text.append("<b>");
            text.append(html_escape_text(title.as_str()).as_str());
            text.append("</b>\n");
            assert(text@ =~= "<b>"@ + escaped(title@) + "</b>\n"@);
        },
        None => {},
    }
    assert(text@ =~= title_line(message@.title));
    text.append(html_escape_text(message.body.as_str()).as_str());
    let ghost head = text@;
    let ghost fields = message@.fields;
    let mut i: usize = 0;
    assert(text@ =~= head + field_lines(fields.take(0)));
    while i < message.fields.len()
        invariant
            i <= message.fields@.len() == fields.len(),
            fields == message@.fields,
            text@ == head + field_lines(fields.take(i as int)),
        decreases message.fields@.len() - i,
    {
        let ghost before = text@;
        let ghost done = field_lines(fields.take(i as int));
        text.append("\n<b>");
        text.append(html_escape_text(message.fields[i].0.as_str()).as_str());
        text.append("</b>: ");
        text.append(html_escape_text(message.fields[i].1.as_str()).as_str());
        i = i + 1;
        assert(fields.take(i as int).drop_last() =~= fields.take(i - 1));
        assert(fields.take(i as int).last() == (
            message.fields@[i - 1].0@,
            message.fields@[i - 1].1@,
        ));
        assert(text@ =~= head + field_lines(fields.take(i as int)));
    }
    assert(fields.take(i as int) =~= fields);
    text
}

// ─── the channel ─────────────────────────────────────────────────────────

/// A WeLink channel.
#[derive(Debug, PartialEq)]
pub struct WelinkBackend {
    pub channel_id: i32,
    pub token: String,
    pub group_id: String,
    pub send_http_url: String,
    pub welink_cli_path: String,
    pub include_sender: Vec<String>,
    pub exclude_sender: Vec<String>,
    pub request_timeout_ms: u64,
    pub status: ChannelConnectionStatus,
}

/// What the set-up of a channel says.
pub struct ChannelModel {
    pub channel_id: i32,
    pub token: Seq<char>,
    pub group: Seq<char>,
    pub url: Seq<char>,
    pub cli: Seq<char>,
    pub included: Seq<Seq<char>>,
    pub excluded: Seq<Seq<char>>,
    pub timeout_ms: u64,
}

impl View for WelinkBackend {
    type V = ChannelModel;

    open spec fn view(&self) -> ChannelModel {
        ChannelModel {
            channel_id: self.channel_id,
            token: self.token@,
            group: self.group_id@,
            url: self.send_http_url@,
            cli: self.welink_cli_path@,
            included: texts(self.include_sender@),
            excluded: texts(self.exclude_sender@),
            timeout_ms: self.request_timeout_ms,
        }
    }
}

/// Why a poll failed.
#[derive(Debug, PartialEq)]
pub enum PollFailure {
    /// The history could not be queried.
    Query(CommandOutputError),
    /// What the query gave could not be read.
    Parse(ChatChannelError),
}

/// What a channel does after a poll.
#[derive(Debug, PartialEq)]
pub enum PollStep {
    /// Hand these commands on, then poll again.
    Deliver(Vec<IncomingCommand>),
    /// The poll failed. Wait out the retry interval, then poll again.
    Retry(PollFailure),
}

/// What a command hands on: its sender, its text and the message it came in.
pub open spec fn commands_of(commands: Seq<IncomingCommand>) -> Seq<Incoming> {
    commands.map_values(
        |c: IncomingCommand|
            Incoming { sender: c.sender_id@, text: c.command_text@, metadata: c.metadata@ },
    )
}

/// Whether every command is one of the channel `id`.
pub open spec fn all_of_channel(commands: Seq<IncomingCommand>, id: i32) -> bool {
    forall|i: int| 0 <= i < commands.len() ==> (#[trigger] commands[i]).channel_id == id
}

/// The channel that a set-up makes.
pub open spec fn set_up(channel_id: i32, token: String, config: WelinkConfig) -> ChannelModel {
    ChannelModel {
        channel_id,
        token: token@,
        group: config.group_id@,
        url: config.send_http_url@,
        cli: config.welink_cli_path@,
        included: normalized(texts(config.include_sender@)),
        excluded: normalized(texts(config.exclude_sender@)),
        timeout_ms: if config.request_timeout_ms == 0 {
            1
        } else {
            config.request_timeout_ms
        },
    }
}

/// Whether `status` and `query` are what a channel makes of its login.
pub open spec fn goes_on_from_login(
    channel: ChannelModel,
    before: ChannelConnectionStatus,
    login: Result<String, CommandOutputError>,
    status: ChannelConnectionStatus,
    query: Result<Vec<String>, ChatChannelError>,
) -> bool {
    match login {
        Ok(_) => status == before && (query matches Ok(words) && texts(words@) == query_words(
            channel.cli,
            channel.group,
            None,
        )),
        Err(e) => status == ChannelConnectionStatus::Error && (query matches Err(
            ChatChannelError::AuthenticationFailed(message),
        ) && message@ == e.message()),
    }
}

/// Whether `status` and `start` are what a channel makes of its first history query.
pub open spec fn starts_from(
    channel: ChannelModel,
    before: ChannelConnectionStatus,
    output: Result<String, CommandOutputError>,
    status: ChannelConnectionStatus,
    start: Result<Option<String>, ChatChannelError>,
) -> bool {
    match output {
        Ok(text) => match batch_of_output(
            text@,
            None,
            channel.included,
            channel.excluded,
            true,
        ) {
            Ok(batch) => status == ChannelConnectionStatus::Connected && (start matches Ok(cursor)
                && opt_string(cursor) == batch.next_cursor),
            Err(reason) => status == before && (start matches Err(
                ChatChannelError::ConnectionFailed(message),
            ) && message@ == reason),
        },
        Err(e) => status == ChannelConnectionStatus::Error && (start matches Err(
            ChatChannelError::ConnectionFailed(message),
        ) && message@ == e.message()),
    }
}

/// Whether `status`, `next` and `step` are what a channel makes of a poll from
/// `cursor` on.
pub open spec fn settles_poll(
    channel: ChannelModel,
    cursor: Option<String>,
    output: Result<String, CommandOutputError>,
    status: ChannelConnectionStatus,
    next: Option<String>,
    step: PollStep,
) -> bool {
    match output {
        Ok(text) => match batch_of_output(
            text@,
            opt_string(cursor),
            channel.included,
            channel.excluded,
            false,
        ) {
            Ok(batch) => status == ChannelConnectionStatus::Connected && opt_string(next)
                == batch.next_cursor && (step matches PollStep::Deliver(commands) && commands_of(
                commands@,
            ) == batch.messages && all_of_channel(commands@, channel.channel_id)),
            Err(reason) => status == ChannelConnectionStatus::Error && next == cursor && (
            step matches PollStep::Retry(
                PollFailure::Parse(ChatChannelError::ConnectionFailed(message)),
            ) && message@ == reason),
        },
        Err(e) => status == ChannelConnectionStatus::Error && next == cursor && step
            == PollStep::Retry(PollFailure::Query(e)),
    }
}

/// What a server answered to a message.
#[derive(Debug, PartialEq)]
pub struct SendReply {
    pub success: bool,
    pub status: String,
    pub text: String,
}

/// The pieces in which a text goes out.
pub open spec fn text_pieces(text: Seq<char>) -> Seq<Seq<char>> {
    chunks_of(escaped(text), MAX_CONTENT_CHARS as int)
}

/// The pieces in which a message goes out.
pub open spec fn message_pieces(message: MessageModel) -> Seq<Seq<char>> {
    chunks_of(markup(message), MAX_CONTENT_CHARS as int)
}

/// The body of the request that sends `chunk`.
pub open spec fn send_tree(channel: ChannelModel, chunk: Seq<char>) -> JsonTree {
    object_of(
        seq![
            ("content"@, JsonTree::Text(chunk)),
            ("receiver"@, JsonTree::Text(channel.group)),
            ("auth"@, JsonTree::Text(channel.token)),
        ],
    )
}

impl WelinkBackend {
    /// A channel that is not connected. A timeout of zero counts as one
    /// millisecond.
    pub fn new(channel_id: i32, token: String, config: WelinkConfig) -> (r: Self)
        ensures
            r@ == set_up(channel_id, token, config),
            r.status == ChannelConnectionStatus::Disconnected,
    {
        let request_timeout_ms: u64 = if config.request_timeout_ms == 0 {
            1
        } else {
            config.request_timeout_ms
        };
        WelinkBackend {
            channel_id,
            token,
            group_id: config.group_id,
            send_http_url: config.send_http_url,
            welink_cli_path: config.welink_cli_path,
            include_sender: normalize_sender_list(config.include_sender),
            exclude_sender: normalize_sender_list(config.exclude_sender),
            request_timeout_ms,
            status: ChannelConnectionStatus::Disconnected,
        }
    }

    /// The command line that logs in.
    pub fn login_args(&self) -> (r: Vec<String>)
        ensures
            texts(r@) == login_words(self@.cli),
    {
        auth_login_args(self.welink_cli_path.as_str())
    }

    /// The command line that asks for what came after `cursor`.
    pub fn history_args(&self, cursor: &Option<String>) -> (r: Vec<String>)
        ensures
            texts(r@) == query_words(self@.cli, self@.group, opt_string(*cursor)),
    {
        query_history_args(
            self.welink_cli_path.as_str(),
            self.group_id.as_str(),
            as_text(cursor),
        )
    }

    /// Starts to connect: the channel is connecting, and the login is to be run.
    pub fn begin_start(&mut self) -> (r: Vec<String>)
        ensures
            final(self)@ == old(self)@,
            final(self).status == ChannelConnectionStatus::Connecting,
            texts(r@) == login_words(old(self)@.cli),
    {
        self.status = ChannelConnectionStatus::Connecting;
        self.login_args()
    }

    /// The login came back: the first history query is to be run, or the channel
    /// failed.
    pub fn login_done(&mut self, login: Result<String, CommandOutputError>) -> (r: Result<
        Vec<String>,
        ChatChannelError,
    >)
        ensures
            final(self)@ == old(self)@,
            goes_on_from_login(old(self)@, old(self).status, login, final(self).status, r),
    {
        match login {
            Ok(_) => Ok(self.history_args(&None)),
            Err(e) => {
                self.status = ChannelConnectionStatus::Error;
                Err(ChatChannelError::AuthenticationFailed(e.to_text()))
            },
        }
    }

    /// The first history query came back: the channel is connected, and polling
    /// starts at the cursor handed back; or the channel failed. Output that
    /// cannot be read leaves the status as it is.
    pub fn first_history(&mut self, output: Result<String, CommandOutputError>) -> (r: Result<
        Option<String>,
        ChatChannelError,
    >)
        ensures
            final(self)@ == old(self)@,
            starts_from(old(self)@, old(self).status, output, final(self).status, r),
    {
        match output {
            Ok(text) => {
                match parse_history_output(
                    text.as_str(),
                    None,
                    self.include_sender.as_slice(),
                    self.exclude_sender.as_slice(),
                    true,
                ) {
                    Ok(batch) => {
                        self.status = ChannelConnectionStatus::Connected;
                        Ok(batch.next_cursor)
                    },
                    Err(e) => Err(e),
                }
            },
            Err(e) => {
                self.status = ChannelConnectionStatus::Error;
                Err(ChatChannelError::ConnectionFailed(e.to_text()))
            },
        }
    }

    /// A poll came back. Where it can be read, its new commands are handed on,
    /// the cursor moves and the channel is connected; else the cursor stays, the
    /// channel is in error until a later poll succeeds, and the failure is handed
    /// back.
    pub fn polled(
        &mut self,
        cursor: &mut Option<String>,
        output: Result<String, CommandOutputError>,
    ) -> (r: PollStep)
        ensures
            final(self)@ == old(self)@,
            settles_poll(
                old(self)@,
                *old(cursor),
                output,
                final(self).status,
                *final(cursor),
                r,
            ),
    {
        let text = match output {
            Ok(text) => text,
            Err(e) => {
                self.status = ChannelConnectionStatus::Error;
                return PollStep::Retry(PollFailure::Query(e));
            },
        };
        let parsed = parse_history_output(
            text.as_str(),
            as_text(&*cursor),
            self.include_sender.as_slice(),
            self.exclude_sender.as_slice(),
            false,
        );
        match parsed {
            Ok(batch) => {
                *cursor = batch.next_cursor;
                self.status = ChannelConnectionStatus::Connected;
                PollStep::Deliver(commands_for(self.channel_id, batch.messages))
            },
            Err(e) => {
                self.status = ChannelConnectionStatus::Error;
                PollStep::Retry(PollFailure::Parse(e))
            },
        }
    }

    /// Polling ended, or the channel was stopped.
    pub fn disconnect(&mut self)
        ensures
            final(self)@ == old(self)@,
            final(self).status == ChannelConnectionStatus::Disconnected,
    {
        self.status = ChannelConnectionStatus::Disconnected;
    }

    /// What a login came to while the connection is only tested.
    pub fn test_login(&self, login: Result<String, CommandOutputError>) -> (r: Result<
        Vec<String>,
        ChatChannelError,
    >)
        ensures
            match login {
                Ok(_) => r matches Ok(words) && texts(words@) == query_words(
                    self@.cli,
                    self@.group,
                    None,
                ),
                Err(e) => r matches Err(ChatChannelError::AuthenticationFailed(message)) && message@
                    == e.message(),
            },
    {
        match login {
            Ok(_) => Ok(self.history_args(&None)),
            Err(e) => Err(ChatChannelError::AuthenticationFailed(e.to_text())),
        }
    }

    /// What a history query came to while the connection is only tested.
    pub fn test_history(&self, output: Result<String, CommandOutputError>) -> (r: Result<
        (),
        ChatChannelError,
    >)
        ensures
            match output {
                Ok(text) => match batch_of_output(
                    text@,
                    None,
                    self@.included,
                    self@.excluded,
                    true,
                ) {
                    Ok(_) => r is Ok,
                    Err(reason) => r matches Err(ChatChannelError::ConnectionFailed(message))
                        && message@ == reason,
                },
                Err(e) => r matches Err(ChatChannelError::ConnectionFailed(message)) && message@
                    == e.message(),
            },
    {
        match output {
            Ok(text) => {
                match parse_history_output(
                    text.as_str(),
                    None,
                    self.include_sender.as_slice(),
                    self.exclude_sender.as_slice(),
                    true,
                ) {
                    Ok(_) => Ok(()),
                    Err(e) => Err(e),
                }
            },
            Err(e) => Err(ChatChannelError::ConnectionFailed(e.to_text())),
        }
    }

    /// The pieces in which a text goes out, escaped.
    pub fn message_chunks(text: &str) -> (r: Vec<String>)
        ensures
            texts(r@) == text_pieces(text@),
            concat_all(texts(r@)) == escaped(text@),
            escaped(text@).len() > 0 ==> chunks_fit(texts(r@), MAX_CONTENT_CHARS as int),
    {
        split_message(html_escape_text(text).as_str(), MAX_CONTENT_CHARS)
    }

    /// The pieces in which a message goes out, as markup.
    pub fn rich_message_chunks(message: &RichMessage) -> (r: Vec<String>)
        ensures
            texts(r@) == message_pieces(message@),
            concat_all(texts(r@)) == markup(message@),
            markup(message@).len() > 0 ==> chunks_fit(texts(r@), MAX_CONTENT_CHARS as int),
    {
        split_message(format_welink_message(message).as_str(), MAX_CONTENT_CHARS)
    }

    /// The body of the request that sends `chunk`.
    pub fn send_body(&self, chunk: &str) -> (r: Json)
        ensures
            r@ == send_tree(self@, chunk@),
    {
        let fields: Vec<(String, Json)> = vec![
            ("content".to_owned(), Json::text(chunk)),
            ("receiver".to_owned(), Json::text(self.group_id.as_str())),
            ("auth".to_owned(), Json::text(self.token.as_str())),
        ];
        assert(members(fields@) =~= seq![
            ("content"@, JsonTree::Text(chunk@)),
            ("receiver"@, JsonTree::Text(self@.group)),
            ("auth"@, JsonTree::Text(self@.token)),
        ]);
        Json::object(fields)
    }
}

/// Whether the server took the piece that it replied to.
pub open spec fn accepted(reply: Result<SendReply, String>) -> bool {
    reply matches Ok(answer) && answer.success
}

/// Whether a reply names the message: the server took the piece, and its text is
/// not blank.
pub open spec fn names_message(reply: Result<SendReply, String>) -> bool {
    accepted(reply) && trimmed(reply->Ok_0.text@).len() > 0
}

/// The identifier that is known after a reply.
pub open spec fn id_after(id: Seq<char>, reply: Result<SendReply, String>) -> Seq<char> {
    if names_message(reply) {
        reply->Ok_0.text@
    } else {
        id
    }
}

/// What is said of a piece that the server did not take.
pub open spec fn refusal(reply: Result<SendReply, String>) -> Seq<char> {
    match reply {
        Ok(answer) => "HTTP "@ + answer.status@ + ": "@ + preview(
            answer.text@,
            REPLY_PREVIEW_CHARS as int,
        ),
        Err(e) => e@,
    }
}

/// What sending comes to when the pieces get these replies: the identifier, or
/// what is said of the piece at which it ended.
pub open spec fn sent_all(id: Seq<char>, replies: Seq<Result<SendReply, String>>) -> Result<
    Seq<char>,
    Seq<char>,
>
    decreases replies.len(),
{
    if replies.len() == 0 {
        Ok(id)
    } else {
        match sent_all(id, replies.drop_last()) {
            Ok(known) => if accepted(replies.last()) {
                Ok(id_after(known, replies.last()))
            } else {
                Err(refusal(replies.last()))
            },
            Err(e) => Err(e),
        }
    }
}

/// Whether the `i`-th of `replies` is the last that names the message.
pub open spec fn names_last(replies: Seq<Result<SendReply, String>>, i: int) -> bool {
    &&& 0 <= i < replies.len()
    &&& names_message(replies[i])
    &&& forall|j: int| i < j < replies.len() ==> !names_message(#[trigger] replies[j])
}

/// Whether the `i`-th of `replies` is the first to a piece that was not taken.
pub open spec fn refuses_first(replies: Seq<Result<SendReply, String>>, i: int) -> bool {
    &&& 0 <= i < replies.len()
    &&& !accepted(replies[i])
    &&& forall|j: int| 0 <= j < i ==> accepted(#[trigger] replies[j])
}

/// Sending succeeds if and only if every piece is taken. The identifier is then
/// the last reply that is not blank, or the one at the start where all are. It
/// fails with what is said of the first piece that is not taken.
pub proof fn lemma_sending_needs_every_piece(
    id: Seq<char>,
    replies: Seq<Result<SendReply, String>>,
)
    ensures
        sent_all(id, replies) is Ok <==> (forall|i: int|
            0 <= i < replies.len() ==> accepted(#[trigger] replies[i])),
        forall|i: int|
            sent_all(id, replies) is Ok && #[trigger] names_last(replies, i) ==> sent_all(
                id,
                replies,
            )->Ok_0 == replies[i]->Ok_0.text@,
        sent_all(id, replies) is Ok && (forall|i: int|
            0 <= i < replies.len() ==> !names_message(#[trigger] replies[i])) ==> sent_all(
            id,
            replies,
        )->Ok_0 == id,
        forall|i: int| #[trigger]
            refuses_first(replies, i) ==> sent_all(id, replies) == Err::<Seq<char>, Seq<char>>(
                refusal(replies[i]),
            ),
    decreases replies.len(),
{
    if replies.len() > 0 {
        let front = replies.drop_last();
        let n = replies.len() - 1;
        lemma_sending_needs_every_piece(id, front);
        assert(forall|i: int| 0 <= i < n ==> #[trigger] front[i] == replies[i]);
        if sent_all(id, replies) is Ok {
            assert forall|i: int| 0 <= i < replies.len() implies accepted(
                #[trigger] replies[i],
            ) by {
                if i < n {
                    assert(accepted(front[i]));
                }
            }
        }
        if forall|i: int| 0 <= i < replies.len() ==> accepted(#[trigger] replies[i]) {
            assert forall|i: int| 0 <= i < n implies accepted(#[trigger] front[i]) by {
                assert(accepted(replies[i]));
            }
            assert(accepted(replies[n]));
        }
        assert forall|i: int|
            sent_all(id, replies) is Ok && #[trigger] names_last(replies, i) implies sent_all(
            id,
            replies,
        )->Ok_0 == replies[i]->Ok_0.text@ by {
            if i < n {
                assert(!names_message(replies[n]));
                assert forall|j: int| i < j < front.len() implies !names_message(
                    #[trigger] front[j],
                ) by {
                    assert(!names_message(replies[j]));
                }
                assert(names_last(front, i));
            }
        }
        if forall|i: int| 0 <= i < replies.len() ==> !names_message(#[trigger] replies[i]) {
            assert forall|i: int| 0 <= i < n implies !names_message(#[trigger] front[i]) by {
                assert(!names_message(replies[i]));
            }
            assert(!names_message(replies[n]));
        }
        assert forall|i: int| #[trigger] refuses_first(replies, i) implies sent_all(id, replies)
            == Err::<Seq<char>, Seq<char>>(refusal(replies[i])) by {
            assert forall|j: int| 0 <= j < i implies accepted(#[trigger] front[j]) by {
                assert(accepted(replies[j]));
            }
            if i < n {
                assert(refuses_first(front, i));
            }
        }
    }
}

/// What the reply to one piece makes of the identifier known so far: a reply
/// that is not blank replaces it, and a refusal ends the sending.
pub fn sent(last_id: SentMessageId, reply: Result<SendReply, String>) -> (r: Result<
    SentMessageId,
    ChatChannelError,
>)
    ensures
        if accepted(reply) {
            r matches Ok(id) && id.0@ == id_after(last_id.0@, reply)
        } else {
            r matches Err(ChatChannelError::SendFailed(message)) && message@ == refusal(reply)
        },
{
    match reply {
        Ok(answer) => {
            if !answer.success {
                let mut message = "HTTP ".to_owned();
                message.append(answer.status.as_str());
                message.append(": ");
                message.append(preview_text(answer.text.as_str(), REPLY_PREVIEW_CHARS).as_str());
                return Err(ChatChannelError::SendFailed(message));
            }
            if !trim(answer.text.as_str()).is_empty() {
                Ok(SentMessageId(answer.text))
            } else {
                Ok(last_id)
            }
        },
        Err(e) => Err(ChatChannelError::SendFailed(e)),
    }
}

/// The commands that `messages` carry, for the channel `channel_id`.
fn commands_for(channel_id: i32, messages: Vec<ParsedIncomingMessage>) -> (r: Vec<IncomingCommand>)
    ensures
        commands_of(r@) == incoming_all(messages@),
        all_of_channel(r@, channel_id),
{
    let ghost all = messages@;
    let mut out: Vec<IncomingCommand> = Vec::new();
    for message in it: messages
        invariant
            it.seq() == all,
            commands_of(out@) == incoming_all(all.take(it.index() as int)),
            all_of_channel(out@, channel_id),
    {
        let ghost k = it.index() as int;
        let ghost before = commands_of(out@);
        out.push(
            IncomingCommand {
                channel_id,
                sender_id: message.sender,
                command_text: message.text,
                metadata: message.metadata,
            },
        );
        assert(commands_of(out@) =~= before.push(message@));
        assert(incoming_all(all.take(k + 1)) =~= incoming_all(all.take(k)).push(message@));
    }
    assert(all.take(all.len() as int) =~= all);
    out
}

/// A text arrives whole: the pieces in which it goes out, put together and
/// unescaped, are the text.
pub proof fn lemma_text_arrives_whole(text: Seq<char>)
    ensures
        unescaped(concat_all(chunks_of(escaped(text), MAX_CONTENT_CHARS as int))) == text,
{
    lemma_chunks_make_text(escaped(text), MAX_CONTENT_CHARS as int);
    lemma_unescape_undoes_escape(text);
}

// ─── what goes in and out ────────────────────────────────────────────────

/// A poll delivers each new text message of an allowed sender that holds no markup,
/// no references and no outer white space as a command of the channel, with that
/// sender and that text, character for character.
pub proof fn lemma_poll_delivers_commands(
    channel: ChannelModel,
    cursor: Option<String>,
    output: String,
    status: ChannelConnectionStatus,
    next: Option<String>,
    step: PollStep,
    reply: JsonTree,
    message: JsonTree,
    sender: Seq<char>,
    text: Seq<char>,
)
    requires
        settles_poll(channel, cursor, Ok(output), status, next, step),
        parsed(output@) == Ok::<JsonTree, Seq<char>>(reply),
        reply.get("resultCode"@) is None || reply.get("resultCode"@) == Some(JsonTree::Unsigned(0)),
        messages_of(reply).contains(message),
        is_new(message, opt_string(cursor)),
        message.text_at("contentType"@) == Some("TEXT_MSG"@),
        message.text_at("content"@) == Some(text),
        message.text_at("sender"@) == Some(sender),
        !channel.excluded.contains(sender),
        channel.included.len() == 0 || channel.included.contains(sender),
        text.len() > 0,
        no_outer_space(text),
        !text.contains('&'),
        !text.contains('<'),
        !text.contains('>'),
    ensures
        status == ChannelConnectionStatus::Connected,
        step matches PollStep::Deliver(commands) && exists|i: int|
            0 <= i < commands@.len() && (#[trigger] commands@[i]).command_text@ == text
                && commands@[i].sender_id@ == sender && commands@[i].metadata@ == message
                && commands@[i].channel_id == channel.channel_id,
{
    lemma_plain_command_comes_through(message, text, sender, channel.included, channel.excluded);
    lemma_result_code_decides(
        reply,
        opt_string(cursor),
        channel.included,
        channel.excluded,
        false,
        Seq::empty(),
    );
    reveal_strlit("0");
    assert(decimal(0) =~= "0"@);
    lemma_no_command_lost(
        reply,
        opt_string(cursor),
        channel.included,
        channel.excluded,
        message,
    );
    let wanted = Incoming { sender, text, metadata: message };
    let all = commands_of(step->Deliver_0@);
    let i = choose|i: int| 0 <= i < all.len() && all[i] == wanted;
    assert(all[i] == wanted);
    assert(step->Deliver_0@[i].command_text@ == text);
}

/// Every command that a poll delivers is one of the channel, from an allowed sender,
/// of a message that is new, and holds all of that message's text but outer white
/// space.
pub proof fn lemma_delivered_commands_are_due(
    channel: ChannelModel,
    cursor: Option<String>,
    output: String,
    status: ChannelConnectionStatus,
    next: Option<String>,
    step: PollStep,
    i: int,
)
    requires
        settles_poll(channel, cursor, Ok(output), status, next, step),
        step matches PollStep::Deliver(commands) && 0 <= i < commands@.len(),
    ensures
        ({
            let command = step->Deliver_0@[i];
            &&& command.channel_id == channel.channel_id
            &&& !channel.excluded.contains(command.sender_id@)
            &&& channel.included.len() == 0 || channel.included.contains(command.sender_id@)
            &&& is_new(command.metadata@, opt_string(cursor))
            &&& message_text(command.metadata@) matches Some(whole)
            &&& command.command_text@ == trimmed(whole)
        }),
{
    let reply = parsed(output@)->Ok_0;
    let command = step->Deliver_0@[i];
    assert(commands_of(step->Deliver_0@)[i].text == command.command_text@);
    lemma_commands_are_due(
        reply,
        opt_string(cursor),
        channel.included,
        channel.excluded,
        false,
        i,
    );
    lemma_commands_are_whole(
        reply,
        opt_string(cursor),
        channel.included,
        channel.excluded,
        false,
        i,
    );
}

/// A poll that fails moves nothing: the cursor stays, so that the next poll asks for
/// the same messages, the channel is in error, and the failure is handed back.
pub proof fn lemma_failed_poll_loses_nothing(
    channel: ChannelModel,
    cursor: Option<String>,
    output: Result<String, CommandOutputError>,
    status: ChannelConnectionStatus,
    next: Option<String>,
    step: PollStep,
)
    requires
        settles_poll(channel, cursor, output, status, next, step),
    ensures
        output is Err || (output matches Ok(text) && parsed(text@) is Err) ==> step is Retry,
        step is Retry ==> next == cursor && status == ChannelConnectionStatus::Error,
        step is Deliver ==> status == ChannelConnectionStatus::Connected,
        output matches Err(e) ==> step == PollStep::Retry(PollFailure::Query(e)),
{
}

/// A piece is sent to the channel's group with the channel's token, as it is.
pub proof fn lemma_piece_is_sent(channel: ChannelModel, chunk: Seq<char>)
    ensures
        send_tree(channel, chunk).text_at("content"@) == Some(chunk),
        send_tree(channel, chunk).text_at("receiver"@) == Some(channel.group),
        send_tree(channel, chunk).text_at("auth"@) == Some(channel.token),
{
    reveal_strlit("content");
    reveal_strlit("receiver");
    reveal_strlit("auth");
    assert("content"@.len() == 7);
    assert("receiver"@.len() == 8);
    assert("auth"@.len() == 4);
    reveal_with_fuel(last_wins, 4);
}

/// A piece counts as taken where the server says so, and its reply names the message
/// where it is not blank; a refusal is told with the server's status and words, and
/// a failure in its own words.
pub proof fn lemma_replies(answer: SendReply, why: String, id: Seq<char>)
    ensures
        accepted(Ok(answer)) <==> answer.success,
        !accepted(Err(why)),
        refusal(Err(why)) == why@,
        refusal(Ok(answer)) == "HTTP "@ + answer.status@ + ": "@ + preview(answer.text@, 300),
        id_after(id, Ok(answer)) == if answer.success && !all_space(answer.text@) {
            answer.text@
        } else {
            id
        },
{
    lemma_trimmed(answer.text@);
}

/// What a reader sees of fields: each on a line of its own, name and value.
pub open spec fn seen_fields(fields: Seq<(Seq<char>, Seq<char>)>) -> Seq<char>
    decreases fields.len(),
{
    if fields.len() == 0 {
        Seq::empty()
    } else {
        seen_fields(fields.drop_last()) + ("\n"@ + fields.last().0 + ": "@ + fields.last().1)
    }
}

/// What a reader sees of a message: its title on a line of its own, its body, and
/// its fields.
pub open spec fn seen(message: MessageModel) -> Seq<char> {
    (match message.title {
        Some(title) => title + "\n"@,
        None => Seq::empty(),
    }) + message.body + seen_fields(message.fields)
}

proof fn lemma_marks()
    ensures
        stripped("<b>"@, false) == Seq::<char>::empty(),
        !in_tag_after("<b>"@, false),
        stripped("</b>\n"@, false) == "\n"@,
        !in_tag_after("</b>\n"@, false),
        stripped("\n<b>"@, false) == "\n"@,
        !in_tag_after("\n<b>"@, false),
        stripped("</b>: "@, false) == ": "@,
        !in_tag_after("</b>: "@, false),
        escaped("\n"@) == "\n"@,
        escaped(": "@) == ": "@,
{
    reveal_strlit("<b>");
    reveal_strlit("</b>\n");
    reveal_strlit("\n<b>");
    reveal_strlit("</b>: ");
    reveal_strlit("\n");
    reveal_strlit(": ");
    let none = Seq::<char>::empty();
    let open = seq!['<'] + (seq!['b'] + (seq!['>'] + none));
    let close = |after: Seq<char>| seq!['<'] + (seq!['/', 'b'] + (seq!['>'] + after));
    lemma_tags_are_removed(none, seq!['b'], none);
    assert("<b>"@ =~= none + open);
    assert(none + stripped(none, false) =~= none);
    lemma_tags_are_removed(seq!['\n'], seq!['b'], none);
    assert("\n<b>"@ =~= seq!['\n'] + open);
    assert(seq!['\n'] + stripped(none, false) =~= "\n"@);
    lemma_tags_are_removed(none, seq!['/', 'b'], seq!['\n']);
    assert("</b>\n"@ =~= none + close(seq!['\n']));
    lemma_outside_tags(seq!['\n']);
    assert(none + stripped(seq!['\n'], false) =~= "\n"@);
    lemma_tags_are_removed(none, seq!['/', 'b'], seq![':', ' ']);
    assert("</b>: "@ =~= none + close(seq![':', ' ']));
    lemma_outside_tags(seq![':', ' ']);
    assert(none + stripped(seq![':', ' '], false) =~= ": "@);
    reveal_with_fuel(in_tag_after, 8);
    assert("<b>"@.skip(1).skip(1).skip(1) =~= none);
    assert("\n<b>"@.skip(1) =~= "<b>"@);
    assert("</b>\n"@.skip(1).skip(1).skip(1).skip(1).skip(1) =~= none);
    assert("</b>: "@.skip(1).skip(1).skip(1).skip(1).skip(1).skip(1) =~= none);
    lemma_escaped_adds(none, none, '\n');
    assert("\n"@ =~= seq!['\n']);
    lemma_escaped_adds(seq![':'], seq![' '], ':');
    lemma_escaped_adds(none, none, ' ');
    assert(": "@ =~= seq![':'] + seq![' ']);
}

proof fn lemma_escaped_is_outside(s: Seq<char>)
    ensures
        stripped(escaped(s), false) == escaped(s),
        !in_tag_after(escaped(s), false),
{
    lemma_escaped_is_inert(s);
    lemma_outside_tags(escaped(s));
}

proof fn lemma_seen_fields(fields: Seq<(Seq<char>, Seq<char>)>)
    ensures
        stripped(field_lines(fields), false) == escaped(seen_fields(fields)),
        !in_tag_after(field_lines(fields), false),
    decreases fields.len(),
{
    if fields.len() > 0 {
        let front = fields.drop_last();
        let key = fields.last().0;
        let value = fields.last().1;
        lemma_seen_fields(front);
        lemma_marks();
        lemma_escaped_is_outside(key);
        lemma_escaped_is_outside(value);
        let a = field_lines(front);
        let b = a + "\n<b>"@;
        let c = b + escaped(key);
        let d = c + "</b>: "@;
        lemma_stripped_adds(a, "\n<b>"@, false);
        lemma_stripped_adds(b, escaped(key), false);
        lemma_stripped_adds(c, "</b>: "@, false);
        lemma_stripped_adds(d, escaped(value), false);
        let said = seen_fields(front);
        lemma_escaped_adds("\n"@, key, ' ');
        lemma_escaped_adds("\n"@ + key, ": "@, ' ');
        lemma_escaped_adds("\n"@ + key + ": "@, value, ' ');
        lemma_escaped_adds(said, "\n"@ + key + ": "@ + value, ' ');
        assert(stripped(field_lines(fields), false) =~= escaped(said) + ("\n"@ + escaped(key) + ": "@
            + escaped(value)));
    }
}

/// A reader of the markup of a message sees its title, its body and its fields, in
/// order, whole and unchanged: that is what is left when the marks are taken out and
/// the references are read.
pub proof fn lemma_message_is_seen_whole(message: MessageModel)
    ensures
        unescaped(stripped(markup(message), false)) == seen(message),
{
    let head = title_line(message.title);
    let said = match message.title {
        Some(title) => title + "\n"@,
        None => Seq::empty(),
    };
    lemma_marks();
    match message.title {
        Some(title) => {
            lemma_escaped_is_outside(title);
            lemma_stripped_adds("<b>"@, escaped(title), false);
            lemma_stripped_adds("<b>"@ + escaped(title), "</b>\n"@, false);
            lemma_escaped_adds(title, "\n"@, ' ');
            assert(stripped(head, false) =~= escaped(said));
        },
        None => {},
    }
    lemma_escaped_is_outside(message.body);
    lemma_seen_fields(message.fields);
    lemma_stripped_adds(head, escaped(message.body), false);
    lemma_stripped_adds(head + escaped(message.body), field_lines(message.fields), false);
    lemma_escaped_adds(said, message.body, ' ');
    lemma_escaped_adds(said + message.body, seen_fields(message.fields), ' ');
    lemma_unescape_undoes_escape(seen(message));
}

/// A channel is what its set-up says, with the senders of its lists trimmed and the
/// blank ones left out, and with a timeout that is never zero.
pub proof fn lemma_set_up(channel: WelinkBackend, channel_id: i32, token: String, config: WelinkConfig)
    requires
        channel@ == set_up(channel_id, token, config),
    ensures
        channel.channel_id == channel_id,
        channel.token@ == token@,
        channel.group_id@ == config.group_id@,
        channel.send_http_url@ == config.send_http_url@,
        channel.welink_cli_path@ == config.welink_cli_path@,
        texts(channel.include_sender@) == normalized(texts(config.include_sender@)),
        texts(channel.exclude_sender@) == normalized(texts(config.exclude_sender@)),
        config.request_timeout_ms > 0 ==> channel.request_timeout_ms == config.request_timeout_ms,
        config.request_timeout_ms == 0 ==> channel.request_timeout_ms == 1,
{
}

/// Polling starts behind everything that was there before: the first query delivers
/// nothing, connects the channel, and hands back a cursor at which no message of its
/// reply is new. A query that fails connects nothing.
pub proof fn lemma_polling_starts_behind_the_past(
    channel: ChannelModel,
    before: ChannelConnectionStatus,
    output: Result<String, CommandOutputError>,
    status: ChannelConnectionStatus,
    start: Result<Option<String>, ChatChannelError>,
    reply: JsonTree,
    j: int,
)
    requires
        starts_from(channel, before, output, status, start),
        before != ChannelConnectionStatus::Connected,
    ensures
        status == ChannelConnectionStatus::Connected <==> start is Ok,
        output is Err ==> start is Err && status == ChannelConnectionStatus::Error,
        output matches Ok(text) ==> (start is Ok && parsed(text@) == Ok::<JsonTree, Seq<char>>(
            reply,
        ) && 0 <= j < messages_of(reply).len() && message_id(messages_of(reply)[j]) is Some
            ==> !is_new(messages_of(reply)[j], opt_string(start->Ok_0))),
{
    match output {
        Ok(text) => {
            if start is Ok && parsed(text@) == Ok::<JsonTree, Seq<char>>(reply) {
                lemma_cursor_never_goes_back(
                    reply,
                    None,
                    channel.included,
                    channel.excluded,
                    true,
                );
                if 0 <= j < messages_of(reply).len() {
                    assert(messages_of(reply)[j] == messages_of(reply)[j]);
                }
            }
        },
        Err(_) => {},
    }
}

/// What goes out arrives: the pieces of a text, put together, hold nothing that could
/// be taken for markup and read as the text; those of a message, put together, show
/// its title, body and fields. No piece has more than 3000 characters.
pub proof fn lemma_what_goes_out_arrives(text: Seq<char>, message: MessageModel)
    ensures
        unescaped(concat_all(text_pieces(text))) == text,
        !concat_all(text_pieces(text)).contains('<'),
        !concat_all(text_pieces(text)).contains('>'),
        forall|i: int|
            0 <= i < text_pieces(text).len() ==> (#[trigger] text_pieces(text)[i]).len() <= 3000,
        unescaped(stripped(concat_all(message_pieces(message)), false)) == seen(message),
        forall|i: int|
            0 <= i < message_pieces(message).len() ==> (#[trigger] message_pieces(message)[i]).len()
                <= 3000,
{
    lemma_text_arrives_whole(text);
    lemma_escaped_is_inert(text);
    lemma_chunks_make_text(escaped(text), MAX_CONTENT_CHARS as int);
    lemma_chunks_make_text(markup(message), MAX_CONTENT_CHARS as int);
    lemma_message_is_seen_whole(message);
}

/// A login that worked is followed by a query for the group's newest messages; one
/// that failed puts the channel in error, with what went wrong, and nothing follows.
pub proof fn lemma_login_comes_first(
    channel: ChannelModel,
    before: ChannelConnectionStatus,
    login: Result<String, CommandOutputError>,
    status: ChannelConnectionStatus,
    query: Result<Vec<String>, ChatChannelError>,
)
    requires
        goes_on_from_login(channel, before, login, status, query),
    ensures
        query is Ok <==> login is Ok,
        query matches Ok(words) ==> status == before && words@.len() == 7 && words@[0]@
            == channel.cli && words@[4]@ == channel.group,
        login matches Err(e) ==> status == ChannelConnectionStatus::Error && (query matches Err(
            ChatChannelError::AuthenticationFailed(message),
        ) && message@ == e.message()),
{
    match query {
        Ok(words) => {
            let all = query_words(channel.cli, channel.group, None);
            assert(all.len() == 7 && all[0] == channel.cli && all[4] == channel.group);
            assert(texts(words@).len() == words@.len());
            assert(texts(words@)[0] == words@[0]@);
            assert(texts(words@)[4] == words@[4]@);
        },
        Err(_) => {},
    }
}

/// What one poll has seen the next does not deliver: a poll that was read moves the
/// cursor so that no numbered message of its reply is new any more, and never back.
pub proof fn lemma_poll_moves_the_cursor(
    channel: ChannelModel,
    cursor: Option<String>,
    output: String,
    status: ChannelConnectionStatus,
    next: Option<String>,
    step: PollStep,
    reply: JsonTree,
    j: int,
    message: JsonTree,
)
    requires
        settles_poll(channel, cursor, Ok(output), status, next, step),
        step is Deliver,
        parsed(output@) == Ok::<JsonTree, Seq<char>>(reply),
    ensures
        0 <= j < messages_of(reply).len() && message_id(messages_of(reply)[j]) is Some ==> !is_new(
            messages_of(reply)[j],
            opt_string(next),
        ),
        message_id(message) is Some && !is_new(message, opt_string(cursor)) ==> !is_new(
            message,
            opt_string(next),
        ),
{
    lemma_cursor_never_goes_back(
        reply,
        opt_string(cursor),
        channel.included,
        channel.excluded,
        false,
    );
    if 0 <= j < messages_of(reply).len() {
        assert(messages_of(reply)[j] == messages_of(reply)[j]);
    }
}

} // verus!
