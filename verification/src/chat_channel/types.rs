//! What the parts of a chat channel hand each other.

use vstd::prelude::*;
use crate::json::Json;
use crate::text::opt_string;
use crate::text::texts;

verus! {

/// Why a channel operation failed.
#[derive(Debug, PartialEq)]
pub enum ChatChannelError {
    AuthenticationFailed(String),
    ConnectionFailed(String),
    SendFailed(String),
}

/// Where a channel stands.
#[derive(Debug, Clone, Copy, PartialEq, Eq, Structural)]
pub enum ChannelConnectionStatus {
    Disconnected,
    Connecting,
    Connected,
    Error,
}

/// The identifier that a channel gave to a message it took.
#[derive(Debug, PartialEq)]
pub struct SentMessageId(pub String);

/// A command that came in over a channel.
#[derive(Debug, PartialEq)]
pub struct IncomingCommand {
    pub channel_id: i32,
    pub sender_id: String,
    pub command_text: String,
    pub metadata: Json,
}

/// How a message is to be shown.
#[derive(Debug, Clone, Copy, PartialEq, Eq, Structural)]
pub enum MessageLevel {
    Info,
    Warning,
    Error,
}

/// A message with an optional title and named fields.
#[derive(Debug, PartialEq)]
pub struct RichMessage {
    pub title: Option<String>,
    pub body: String,
    pub fields: Vec<(String, String)>,
    pub level: MessageLevel,
}

/// What a `RichMessage` says.
pub struct MessageModel {
    pub title: Option<Seq<char>>,
    pub body: Seq<char>,
    pub fields: Seq<(Seq<char>, Seq<char>)>,
    pub level: MessageLevel,
}

/// The fields of a message, in order.
pub open spec fn field_texts(fields: Seq<(String, String)>) -> Seq<(Seq<char>, Seq<char>)> {
    fields.map_values(|f: (String, String)| (f.0@, f.1@))
}

impl View for RichMessage {
    type V = MessageModel;

    open spec fn view(&self) -> MessageModel {
        MessageModel {
            title: opt_string(self.title),
            body: self.body@,
            fields: field_texts(self.fields@),
            level: self.level,
        }
    }
}

impl MessageModel {
    /// A message that is its body alone.
    pub open spec fn plain(body: Seq<char>, level: MessageLevel) -> MessageModel {
        MessageModel { title: None, body, fields: Seq::empty(), level }
    }

    /// The message under the title `title`.
    pub open spec fn titled(self, title: Seq<char>) -> MessageModel {
        MessageModel { title: Some(title), ..self }
    }

    /// The message with one more field.
    pub open spec fn with(self, key: Seq<char>, value: Seq<char>) -> MessageModel {
        MessageModel { fields: self.fields.push((key, value)), ..self }
    }
}

impl RichMessage {
    fn plain(body: String, level: MessageLevel) -> (r: Self)
        ensures
            r@ == MessageModel::plain(body@, level),
    {
        let r = RichMessage { title: None, body, fields: Vec::new(), level };
        assert(field_texts(r.fields@) =~= Seq::<(Seq<char>, Seq<char>)>::empty());
        r
    }

    /// An informational message.
    pub fn info(body: String) -> (r: Self)
        ensures
            r@ == MessageModel::plain(body@, MessageLevel::Info),
    {
        RichMessage::plain(body, MessageLevel::Info)
    }

    /// A warning.
    pub fn warning(body: String) -> (r: Self)
        ensures
            r@ == MessageModel::plain(body@, MessageLevel::Warning),
    {
        RichMessage::plain(body, MessageLevel::Warning)
    }

    /// An error message.
    pub fn error(body: String) -> (r: Self)
        ensures
            r@ == MessageModel::plain(body@, MessageLevel::Error),
    {
        RichMessage::plain(body, MessageLevel::Error)
    }

    /// The message under the title `title`.
    pub fn with_title(self, title: &str) -> (r: Self)
        ensures
            r@ == self@.titled(title@),
    {
        RichMessage { title: Some(title.to_owned()), ..self }
    }

    /// The message with one more field.
    pub fn with_field(self, key: &str, value: &str) -> (r: Self)
        ensures
            r@ == self@.with(key@, value@),
    {
        let ghost before = field_texts(self.fields@);
        let mut r = self;
        r.fields.push((key.to_owned(), value.to_owned()));
        assert(field_texts(r.fields@) =~= before.push((key@, value@)));
        r
    }
}

/// How a WeLink channel is set up.
#[derive(Debug, PartialEq)]
pub struct WelinkConfig {
    pub group_id: String,
    pub send_http_url: String,
    pub welink_cli_path: String,
    pub include_sender: Vec<String>,
    pub exclude_sender: Vec<String>,
    pub request_timeout_ms: u64,
}

/// The command line client where none is named.
pub const DEFAULT_CLI_PATH: &'static str = "welink-cli";

/// How long a request may take where nothing is said.
pub const DEFAULT_TIMEOUT_MS: u64 = 10_000;

impl WelinkConfig {
    /// A set-up for a group and an address, with the default client and timeout
    /// and without sender filters.
    pub fn with_defaults(group_id: String, send_http_url: String) -> (r: Self)
        ensures
            r.group_id@ == group_id@,
            r.send_http_url@ == send_http_url@,
            r.welink_cli_path@ == DEFAULT_CLI_PATH@,
            texts(r.include_sender@) == Seq::<Seq<char>>::empty(),
            texts(r.exclude_sender@) == Seq::<Seq<char>>::empty(),
            r.request_timeout_ms == DEFAULT_TIMEOUT_MS,
    {
        let r = WelinkConfig {
            group_id,
            send_http_url,
            welink_cli_path: DEFAULT_CLI_PATH.to_owned(),
            include_sender: Vec::new(),
            exclude_sender: Vec::new(),
            request_timeout_ms: DEFAULT_TIMEOUT_MS,
        };
        assert(texts(r.include_sender@) =~= Seq::<Seq<char>>::empty());
        assert(texts(r.exclude_sender@) =~= Seq::<Seq<char>>::empty());
        r
    }
}

/// A message keeps what it was given: its body and level from the start, the title
/// it was last given, and its fields in the order they came.
pub proof fn lemma_messages_keep_their_parts(
    body: Seq<char>,
    level: MessageLevel,
    message: MessageModel,
    title: Seq<char>,
    key: Seq<char>,
    value: Seq<char>,
)
    ensures
        MessageModel::plain(body, level).body == body,
        MessageModel::plain(body, level).level == level,
        MessageModel::plain(body, level).title is None,
        MessageModel::plain(body, level).fields.len() == 0,
        message.titled(title).title == Some(title),
        message.titled(title).body == message.body,
        message.titled(title).fields == message.fields,
        message.titled(title).level == message.level,
        message.with(key, value).fields == message.fields.push((key, value)),
        message.with(key, value).title == message.title,
        message.with(key, value).body == message.body,
        message.with(key, value).level == message.level,
{
}

/// What a message says is what it holds, part by part.
pub proof fn lemma_message_says(message: RichMessage)
    ensures
        message@.body == message.body@,
        message@.level == message.level,
        message@.title is Some <==> message.title is Some,
        message.title matches Some(title) ==> message@.title == Some(title@),
        message@.fields.len() == message.fields@.len(),
        forall|i: int|
            0 <= i < message.fields@.len() ==> #[trigger] message@.fields[i] == (
                message.fields@[i].0@,
                message.fields@[i].1@,
            ),
{
}

} // verus!
