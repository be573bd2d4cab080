//! Reading a group's history: which messages of a reply are new, who may send
//! commands, and where the next query starts.

use vstd::prelude::*;
use crate::chat_channel::html::html_to_text;
use crate::chat_channel::html::lemma_plain_text_stays;
use crate::chat_channel::html::plain_text;
use crate::chat_channel::types::ChatChannelError;
use crate::decimal::decimal;
use crate::decimal::i64_text;
use crate::decimal::lemma_notation;
use crate::decimal::lemma_number_of_decimal;
use crate::decimal::number_of;
use crate::decimal::parse_u64;
use crate::decimal::signed_decimal;
use crate::decimal::u64_text;
use crate::json::item_trees;
use crate::json::lemma_item_trees;
use crate::json::parsed;
use crate::json::Json;
use crate::json::JsonTree;
use crate::text::all_space;
use crate::text::lemma_trimmed;
use crate::text::no_outer_space;
use crate::text::opt_string;
use crate::text::opt_text;
use crate::text::same_text;
use crate::text::texts;
use crate::text::trim;
use crate::text::trimmed;

verus! {

// ─── numbers and texts in replies ────────────────────────────────────────

/// A number, whether written as a number or as text.
pub open spec fn lenient_number(value: JsonTree) -> Option<u64> {
    match value.unsigned() {
        Some(n) => Some(n),
        None => match value.text() {
            Some(s) => number_of(s),
            None => None,
        },
    }
}

/// A text, or an integer as text.
pub open spec fn lenient_text(value: JsonTree) -> Option<Seq<char>> {
    match value {
        JsonTree::Text(s) => Some(s),
        JsonTree::Unsigned(n) => Some(decimal(n as nat)),
        JsonTree::Negative(n) => Some(signed_decimal(n as int)),
        _ => None,
    }
}

/// The number at the member `key`.
pub open spec fn number_at(value: JsonTree, key: Seq<char>) -> Option<u64> {
    match value.get(key) {
        Some(v) => lenient_number(v),
        None => None,
    }
}

/// The text of the first of `keys` whose member is a text.
pub open spec fn first_text(value: JsonTree, keys: Seq<Seq<char>>) -> Option<Seq<char>>
    decreases keys.len(),
{
    if keys.len() == 0 {
        None
    } else {
        match value.text_at(keys[0]) {
            Some(s) => Some(s),
            None => first_text(value, keys.skip(1)),
        }
    }
}

/// A number, whether written as a number or as text.
pub fn value_to_u64(value: &Json) -> (r: Option<u64>)
    ensures
        r == lenient_number(value@),
{
    match value.as_u64() {
        Some(n) => Some(n),
        None => match value.as_str() {
            Some(s) => parse_u64(s),
            None => None,
        },
    }
}

/// A text, or an integer as text.
pub fn value_to_string(value: &Json) -> (r: Option<String>)
    ensures
        opt_string(r) == lenient_text(value@),
{
    match value.as_str() {
        Some(s) => Some(s.to_owned()),
        None => match value.as_i64() {
            Some(n) => Some(i64_text(n)),
            None => match value.as_u64() {
                Some(n) => Some(u64_text(n)),
                None => None,
            },
        },
    }
}

/// The number at the member `key`.
pub fn json_u64(value: &Json, key: &str) -> (r: Option<u64>)
    ensures
        r == number_at(value@, key@),
{
    match value.get(key) {
        Some(v) => value_to_u64(v),
        None => None,
    }
}

/// The views of borrowed texts, in order.
pub open spec fn key_texts(keys: Seq<&str>) -> Seq<Seq<char>> {
    keys.map_values(|k: &str| k@)
}

/// The text of the first of `keys` whose member is a text.
pub fn value_text(value: &Json, keys: &[&str]) -> (r: Option<String>)
    ensures
        opt_string(r) == first_text(value@, key_texts(keys@)),
{
    let mut i: usize = 0;
    assert(key_texts(keys@).skip(0) =~= key_texts(keys@));
    while i < keys.len()
        invariant
            i <= keys@.len(),
            first_text(value@, key_texts(keys@)) == first_text(
                value@,
                key_texts(keys@).skip(i as int),
            ),
        decreases keys@.len() - i,
    {
        let ghost rest = key_texts(keys@).skip(i as int);
        assert(rest[0] == keys@[i as int]@);
        assert(rest.skip(1) =~= key_texts(keys@).skip(i + 1));
        match value.str_at(keys[i]) {
            Some(s) => {
                return Some(s.to_owned());
            },
            None => {},
        }
        i = i + 1;
    }
    None
}

// ─── senders ─────────────────────────────────────────────────────────────

/// Whether `sender` may send commands: never where it is excluded, else where
/// nobody is singled out or it is among those who are.
pub open spec fn allowed(
    sender: Seq<char>,
    included: Seq<Seq<char>>,
    excluded: Seq<Seq<char>>,
) -> bool {
    !excluded.contains(sender) && (included.len() == 0 || included.contains(sender))
}

fn lists(senders: &[String], sender: &str) -> (r: bool)
    ensures
        r == texts(senders@).contains(sender@),
{
    let mut i: usize = 0;
    while i < senders.len()
        invariant
            i <= senders@.len(),
            forall|j: int| 0 <= j < i ==> #[trigger] texts(senders@)[j] != sender@,
        decreases senders@.len() - i,
    {
        if same_text(senders[i].as_str(), sender) {
            assert(texts(senders@)[i as int] == sender@);
            return true;
        }
        assert(texts(senders@)[i as int] == senders@[i as int]@);
        i = i + 1;
    }
    false
}

/// Whether `sender` may send commands.
pub fn sender_allowed(sender: &str, include_sender: &[String], exclude_sender: &[String]) -> (r:
    bool)
    ensures
        r == allowed(sender@, texts(include_sender@), texts(exclude_sender@)),
{
    if lists(exclude_sender, sender) {
        return false;
    }
    include_sender.len() == 0 || lists(include_sender, sender)
}

/// `values` without surrounding white space and without those that are blank.
pub open spec fn normalized(values: Seq<Seq<char>>) -> Seq<Seq<char>>
    decreases values.len(),
{
    if values.len() == 0 {
        values
    } else {
        let rest = normalized(values.drop_last());
        if trimmed(values.last()).len() == 0 {
            rest
        } else {
            rest.push(trimmed(values.last()))
        }
    }
}

/// `values` without surrounding white space and without those that are blank.
pub fn normalize_sender_list(values: Vec<String>) -> (r: Vec<String>)
    ensures
        texts(r@) == normalized(texts(values@)),
{
    let mut out: Vec<String> = Vec::new();
    let mut i: usize = 0;
    assert(texts(out@) =~= texts(values@.take(0)));
    while i < values.len()
        invariant
            i <= values@.len(),
            texts(out@) == normalized(texts(values@.take(i as int))),
        decreases values@.len() - i,
    {
        let value = trim(values[i].as_str());
        let ghost before = texts(out@);
        if !value.is_empty() {
            out.push(value.to_owned());
            assert(texts(out@) =~= before.push(value@));
        }
        i = i + 1;
        assert(texts(values@.take(i as int)).drop_last() =~= texts(values@.take(i - 1)));
    }
    assert(values@.take(i as int) =~= values@);
    out
}

// ─── one message ─────────────────────────────────────────────────────────

/// A message that carries a command.
#[derive(Debug, PartialEq)]
pub struct ParsedIncomingMessage {
    pub sender: String,
    pub text: String,
    pub metadata: Json,
}

/// What a `ParsedIncomingMessage` says.
pub struct Incoming {
    pub sender: Seq<char>,
    pub text: Seq<char>,
    pub metadata: JsonTree,
}

impl View for ParsedIncomingMessage {
    type V = Incoming;

    open spec fn view(&self) -> Incoming {
        Incoming { sender: self.sender@, text: self.text@, metadata: self.metadata@ }
    }
}

/// The members of a card's reply that may hold its text.
pub open spec fn reply_keys() -> Seq<Seq<char>> {
    seq!["content"@, "text"@, "PcContent"@]
}

/// The text of the reply that a card carries.
pub open spec fn card_text(card: JsonTree) -> Option<Seq<char>> {
    match card.get("cardContext"@) {
        Some(context) => match context.get("replyMsg"@) {
            Some(reply) => match first_text(reply, reply_keys()) {
                Some(s) => Some(plain_text(s)),
                None => None,
            },
            None => None,
        },
        None => None,
    }
}

/// The text of a message: of a text message its content, of a card the reply
/// that its content, JSON again, carries.
pub open spec fn message_text(message: JsonTree) -> Option<Seq<char>> {
    match (message.text_at("contentType"@), message.text_at("content"@)) {
        (Some(kind), Some(content)) => if kind == "TEXT_MSG"@ {
            Some(plain_text(content))
        } else if kind == "CARD_MSG"@ {
            match parsed(content) {
                Ok(card) => card_text(card),
                Err(_) => None,
            }
        } else {
            None
        },
        _ => None,
    }
}

/// The text of the reply that a card carries.
pub fn card_reply_text(card: &Json) -> (r: Option<String>)
    ensures
        opt_string(r) == card_text(card@),
{
    let context = match card.get("cardContext") {
        Some(v) => v,
        None => {
            return None;
        },
    };
    let reply = match context.get("replyMsg") {
        Some(v) => v,
        None => {
            return None;
        },
    };
    let keys: [&str; 3] = ["content", "text", "PcContent"];
    assert(key_texts(keys@) =~= reply_keys());
    match value_text(reply, keys.as_slice()) {
        Some(s) => Some(html_to_text(s.as_str())),
        None => None,
    }
}

/// The text of a message.
pub fn extract_message_text(message: &Json) -> (r: Option<String>)
    ensures
        opt_string(r) == message_text(message@),
{
    proof {
        reveal_strlit("TEXT_MSG");
        reveal_strlit("CARD_MSG");
    }
    let kind = match message.str_at("contentType") {
        Some(kind) => kind,
        None => {
            return None;
        },
    };
    let content = match message.str_at("content") {
        Some(content) => content,
        None => {
            return None;
        },
    };
    if same_text(kind, "TEXT_MSG") {
        Some(html_to_text(content))
    } else if same_text(kind, "CARD_MSG") {
        match Json::parse(content) {
            Ok(card) => card_reply_text(&card),
            Err(_) => None,
        }
    } else {
        None
    }
}

/// Who is taken for the sender where a message names none.
pub const UNKNOWN_SENDER: &'static str = "welink-user";

/// The sender of a message.
pub open spec fn sender_of(message: JsonTree) -> Seq<char> {
    match message.text_at("sender"@) {
        Some(s) => s,
        None => UNKNOWN_SENDER@,
    }
}

/// The command that a message carries: its sender must be allowed, and its text
/// must not be blank.
pub open spec fn command_of(
    message: JsonTree,
    included: Seq<Seq<char>>,
    excluded: Seq<Seq<char>>,
) -> Option<Incoming> {
    if !allowed(sender_of(message), included, excluded) {
        None
    } else {
        match message_text(message) {
            Some(text) => if trimmed(text).len() == 0 {
                None
            } else {
                Some(
                    Incoming {
                        sender: sender_of(message),
                        text: trimmed(text),
                        metadata: message,
                    },
                )
            },
            None => None,
        }
    }
}

/// The view of an optional message.
pub open spec fn opt_incoming(message: Option<ParsedIncomingMessage>) -> Option<Incoming> {
    match message {
        Some(m) => Some(m@),
        None => None,
    }
}

/// The command that a message carries.
pub fn history_message_to_incoming(
    message: Json,
    include_sender: &[String],
    exclude_sender: &[String],
) -> (r: Option<ParsedIncomingMessage>)
    ensures
        opt_incoming(r) == command_of(message@, texts(include_sender@), texts(exclude_sender@)),
        r matches Some(command) ==> command.metadata@ == message@ && (message_text(
            message@,
        ) matches Some(whole) && command.text@ == trimmed(whole)),
{
    let sender = match message.str_at("sender") {
        Some(s) => s.to_owned(),
        None => UNKNOWN_SENDER.to_owned(),
    };
    if !sender_allowed(sender.as_str(), include_sender, exclude_sender) {
        return None;
    }
    let raw = match extract_message_text(&message) {
        Some(text) => text,
        None => {
            return None;
        },
    };
    let text = trim(raw.as_str());
    if text.is_empty() {
        return None;
    }
    Some(ParsedIncomingMessage { sender, text: text.to_owned(), metadata: message })
}

// ─── order ───────────────────────────────────────────────────────────────

/// The number of a message.
pub open spec fn message_id(message: JsonTree) -> Option<u64> {
    number_at(message, "msgId"@)
}

/// What a message is ordered by: its number, or zero where it has none.
pub open spec fn rank(message: JsonTree) -> u64 {
    match message_id(message) {
        Some(n) => n,
        None => 0,
    }
}

/// `message` put into `line` behind every message of its rank or a lower one at
/// the end of `line`.
pub open spec fn placed(line: Seq<JsonTree>, message: JsonTree) -> Seq<JsonTree>
    decreases line.len(),
{
    if line.len() == 0 || rank(line.last()) <= rank(message) {
        line.push(message)
    } else {
        placed(line.drop_last(), message).push(line.last())
    }
}

/// `messages` in the order of their ranks; those of one rank keep their order.
pub open spec fn by_rank(messages: Seq<JsonTree>) -> Seq<JsonTree>
    decreases messages.len(),
{
    if messages.len() == 0 {
        messages
    } else {
        placed(by_rank(messages.drop_last()), messages.last())
    }
}

/// Whether ranks never fall along `messages`.
pub open spec fn in_order(messages: Seq<JsonTree>) -> bool {
    forall|i: int, j: int|
        0 <= i <= j < messages.len() ==> rank(#[trigger] messages[i]) <= rank(
            #[trigger] messages[j],
        )
}

/// The messages of the rank `n`, in order.
pub open spec fn of_rank(messages: Seq<JsonTree>, n: u64) -> Seq<JsonTree>
    decreases messages.len(),
{
    if messages.len() == 0 {
        messages
    } else {
        let rest = of_rank(messages.drop_last(), n);
        if rank(messages.last()) == n {
            rest.push(messages.last())
        } else {
            rest
        }
    }
}

proof fn lemma_placed(line: Seq<JsonTree>, message: JsonTree)
    requires
        in_order(line),
    ensures
        in_order(placed(line, message)),
        placed(line, message).len() == line.len() + 1,
        placed(line, message).to_multiset() == line.to_multiset().insert(message),
        forall|i: int|
            0 <= i < placed(line, message).len() ==> #[trigger] placed(line, message)[i] == message
                || line.contains(placed(line, message)[i]),
        forall|n: u64| #[trigger]
            of_rank(placed(line, message), n) == if rank(message) == n {
                of_rank(line, n).push(message)
            } else {
                of_rank(line, n)
            },
    decreases line.len(),
{
    broadcast use vstd::seq_lib::group_to_multiset_ensures;

    let after = placed(line, message);
    if line.len() == 0 || rank(line.last()) <= rank(message) {
        assert(after.drop_last() =~= line);
        assert forall|i: int| 0 <= i < after.len() implies #[trigger] after[i] == message
            || line.contains(after[i]) by {
            if i < line.len() {
                assert(line[i] == after[i]);
            }
        }
    } else {
        let front = line.drop_last();
        let last = line.last();
        lemma_placed(front, message);
        let inner = placed(front, message);
        assert(after == inner.push(last));
        assert(after.drop_last() =~= inner);
        assert(line =~= front.push(last));
        assert(after.to_multiset() =~= line.to_multiset().insert(message));
        assert forall|i: int| 0 <= i < after.len() implies #[trigger] after[i] == message
            || line.contains(after[i]) by {
            if i < inner.len() {
                assert(inner[i] == after[i]);
                if inner[i] != message {
                    let k = choose|k: int| 0 <= k < front.len() && front[k] == inner[i];
                    assert(line[k] == after[i]);
                }
            } else {
                assert(line[line.len() - 1] == after[i]);
            }
        }
        assert forall|i: int, j: int| 0 <= i <= j < after.len() implies rank(#[trigger] after[i])
            <= rank(#[trigger] after[j]) by {
            if j < inner.len() {
                assert(inner[i] == after[i] && inner[j] == after[j]);
            } else if i < inner.len() {
                assert(inner[i] == after[i]);
                if inner[i] != message {
                    let k = choose|k: int| 0 <= k < front.len() && front[k] == inner[i];
                    assert(line[k] == after[i]);
                    assert(line[line.len() - 1] == last);
                }
            }
        }
        assert forall|n: u64| #[trigger]
            of_rank(after, n) == if rank(message) == n {
                of_rank(line, n).push(message)
            } else {
                of_rank(line, n)
            } by {
            assert(of_rank(inner, n) == if rank(message) == n {
                of_rank(front, n).push(message)
            } else {
                of_rank(front, n)
            });
        }
    }
}

/// `by_rank` is a stable sort: ranks never fall along its result, which holds
/// the same messages, and those of one rank in the order they had.
pub proof fn lemma_by_rank_sorts(messages: Seq<JsonTree>)
    ensures
        in_order(by_rank(messages)),
        by_rank(messages).len() == messages.len(),
        by_rank(messages).to_multiset() == messages.to_multiset(),
        forall|n: u64| #[trigger] of_rank(by_rank(messages), n) == of_rank(messages, n),
    decreases messages.len(),
{
    broadcast use vstd::seq_lib::group_to_multiset_ensures;

    if messages.len() > 0 {
        let front = messages.drop_last();
        lemma_by_rank_sorts(front);
        lemma_placed(by_rank(front), messages.last());
        assert(messages =~= front.push(messages.last()));
        assert forall|n: u64| #[trigger]
            of_rank(by_rank(messages), n) == of_rank(messages, n) by {
            assert(of_rank(by_rank(front), n) == of_rank(front, n));
        }
    }
}

/// Puts `message` into `line`.
fn place(line: &mut Vec<Json>, message: Json)
    ensures
        item_trees(final(line)@) == placed(item_trees(old(line)@), message@),
{
    let n: usize = line.len();
    let own: u64 = match json_u64(&message, "msgId") {
        Some(id) => id,
        None => 0,
    };
    let ghost before = item_trees(line@);
    let ghost items = line@;
    let mut i: usize = n;
    proof {
        lemma_item_trees(line@);
        assert(before.take(n as int) =~= before);
        assert(placed(before, message@) + before.skip(n as int) =~= placed(before, message@));
    }
    while i > 0
        invariant
            i <= n == line@.len(),
            own == rank(message@),
            line@ == items,
            before == item_trees(items),
            before.len() == n,
            forall|j: int| 0 <= j < n ==> #[trigger] before[j] == items[j]@,
            placed(before, message@) == placed(before.take(i as int), message@) + before.skip(
                i as int,
            ),
        ensures
            i <= n,
            line@ == items,
            placed(before, message@) == before.take(i as int).push(message@) + before.skip(i as int),
        decreases i,
    {
        let theirs: u64 = match json_u64(&line[i - 1], "msgId") {
            Some(id) => id,
            None => 0,
        };
        assert(before.take(i as int).last() == before[i - 1]);
        if theirs <= own {
            break;
        }
        assert(before.take(i as int).drop_last() =~= before.take(i - 1));
        assert(placed(before.take(i - 1), message@).push(before[i - 1]) + before.skip(i as int)
            =~= placed(before.take(i - 1), message@) + before.skip(i - 1));
        i = i - 1;
    }
    let ghost tree = message@;
    line.insert(i, message);
    proof {
        lemma_item_trees(line@);
        assert(item_trees(line@) =~= before.take(i as int).push(tree) + before.skip(i as int));
    }
}

/// `messages` in the order of their ranks.
fn sort_by_rank(messages: &Vec<Json>) -> (r: Vec<Json>)
    ensures
        item_trees(r@) == by_rank(item_trees(messages@)),
{
    let mut out: Vec<Json> = Vec::new();
    let mut i: usize = 0;
    let ghost trees = item_trees(messages@);
    proof {
        lemma_item_trees(messages@);
        assert(trees.take(0) =~= Seq::<JsonTree>::empty());
    }
    while i < messages.len()
        invariant
            i <= messages@.len() == trees.len(),
            trees == item_trees(messages@),
            item_trees(out@) == by_rank(trees.take(i as int)),
        decreases messages@.len() - i,
    {
        proof {
            lemma_item_trees(messages@);
            assert(trees[i as int] == messages@[i as int]@);
        }
        place(&mut out, messages[i].clone());
        i = i + 1;
        assert(trees.take(i as int).drop_last() =~= trees.take(i - 1));
    }
    assert(trees.take(i as int) =~= trees);
    out
}

// ─── a whole reply ───────────────────────────────────────────────────────

/// The new commands of a reply, and where the next query starts.
#[derive(Debug, PartialEq)]
pub struct ParsedHistoryBatch {
    pub messages: Vec<ParsedIncomingMessage>,
    pub next_cursor: Option<String>,
}

/// What a `ParsedHistoryBatch` says.
pub struct Batch {
    pub messages: Seq<Incoming>,
    pub next_cursor: Option<Seq<char>>,
}

/// What the messages of a batch say, in order.
pub open spec fn incoming_all(messages: Seq<ParsedIncomingMessage>) -> Seq<Incoming> {
    messages.map_values(|m: ParsedIncomingMessage| m@)
}

impl View for ParsedHistoryBatch {
    type V = Batch;

    open spec fn view(&self) -> Batch {
        Batch {
            messages: incoming_all(self.messages@),
            next_cursor: opt_string(self.next_cursor),
        }
    }
}

/// The larger of two numbers that may be missing.
pub open spec fn larger(a: Option<u64>, b: Option<u64>) -> Option<u64> {
    match (a, b) {
        (Some(x), Some(y)) => Some(if x <= y { y } else { x }),
        (Some(x), None) => Some(x),
        (None, y) => y,
    }
}

/// The largest number among those that messages have.
pub open spec fn largest_id(messages: Seq<JsonTree>) -> Option<u64>
    decreases messages.len(),
{
    if messages.len() == 0 {
        None
    } else {
        larger(largest_id(messages.drop_last()), message_id(messages.last()))
    }
}

/// The result code of a reply: what it says, or `0`.
pub open spec fn code_of(reply: JsonTree) -> Seq<char> {
    match reply.get("resultCode"@) {
        Some(v) => match lenient_text(v) {
            Some(s) => s,
            None => "0"@,
        },
        None => "0"@,
    }
}

/// What a reply says about a result code other than `0`.
pub open spec fn context_of(reply: JsonTree) -> Seq<char> {
    match reply.text_at("resultContext"@) {
        Some(s) => s,
        None => Seq::empty(),
    }
}

/// The data of a reply.
pub open spec fn data_at(reply: JsonTree, key: Seq<char>) -> Option<JsonTree> {
    match reply.get("respData"@) {
        Some(data) => data.get(key),
        None => None,
    }
}

/// The messages of a reply, as they stand in it.
pub open spec fn messages_of(reply: JsonTree) -> Seq<JsonTree> {
    match data_at(reply, "chatInfo"@) {
        Some(JsonTree::List(items)) => items,
        _ => Seq::empty(),
    }
}

/// The number of the cursor.
pub open spec fn cursor_number(cursor: Option<Seq<char>>) -> Option<u64> {
    match cursor {
        Some(s) => number_of(s),
        None => None,
    }
}

/// The highest number that is known after a reply: of the cursor, of what the
/// reply says itself, and of its messages.
pub open spec fn highest_known(reply: JsonTree, cursor: Option<Seq<char>>) -> Option<u64> {
    let said = match data_at(reply, "maxMsgId"@) {
        Some(v) => lenient_number(v),
        None => None,
    };
    larger(larger(cursor_number(cursor), said), largest_id(messages_of(reply)))
}

/// Whether a message is newer than the cursor; one without a number always is.
pub open spec fn is_new(message: JsonTree, cursor: Option<Seq<char>>) -> bool {
    match (message_id(message), cursor_number(cursor)) {
        (Some(id), Some(seen)) => id > seen,
        (Some(id), None) => id > 0,
        (None, _) => true,
    }
}

/// The commands that the new ones of `messages` carry, in order.
pub open spec fn new_commands(
    messages: Seq<JsonTree>,
    cursor: Option<Seq<char>>,
    included: Seq<Seq<char>>,
    excluded: Seq<Seq<char>>,
) -> Seq<Incoming>
    decreases messages.len(),
{
    if messages.len() == 0 {
        Seq::empty()
    } else {
        let rest = new_commands(messages.drop_last(), cursor, included, excluded);
        let last = messages.last();
        match command_of(last, included, excluded) {
            Some(command) if is_new(last, cursor) => rest.push(command),
            _ => rest,
        }
    }
}

/// The number as text, where there is one.
pub open spec fn cursor_text(n: Option<u64>) -> Option<Seq<char>> {
    match n {
        Some(id) => Some(decimal(id as nat)),
        None => None,
    }
}

/// What a reply to a history query means: the new commands and the next cursor,
/// or why the query failed. The first reply only sets the cursor.
pub open spec fn batch_of(
    reply: JsonTree,
    cursor: Option<Seq<char>>,
    included: Seq<Seq<char>>,
    excluded: Seq<Seq<char>>,
    initial_sync: bool,
) -> Result<Batch, Seq<char>> {
    if code_of(reply) != "0"@ {
        Err(
            "WeLink history query failed: code="@ + code_of(reply) + " context="@ + context_of(
                reply,
            ),
        )
    } else {
        Ok(
            Batch {
                messages: if initial_sync {
                    Seq::empty()
                } else {
                    new_commands(by_rank(messages_of(reply)), cursor, included, excluded)
                },
                next_cursor: cursor_text(highest_known(reply, cursor)),
            },
        )
    }
}

/// What the output of a history query means.
pub open spec fn batch_of_output(
    output: Seq<char>,
    cursor: Option<Seq<char>>,
    included: Seq<Seq<char>>,
    excluded: Seq<Seq<char>>,
    initial_sync: bool,
) -> Result<Batch, Seq<char>> {
    match parsed(output) {
        Ok(reply) => batch_of(reply, cursor, included, excluded, initial_sync),
        Err(message) => Err("Invalid JSON: "@ + message),
    }
}

/// Whether `result` is `expected`, with failures as `ConnectionFailed`.
pub open spec fn batch_result(
    result: Result<ParsedHistoryBatch, ChatChannelError>,
    expected: Result<Batch, Seq<char>>,
) -> bool {
    match expected {
        Ok(batch) => result matches Ok(b) && b@ == batch,
        Err(message) => result matches Err(ChatChannelError::ConnectionFailed(e)) && e@ == message,
    }
}

fn larger_of(a: Option<u64>, b: Option<u64>) -> (r: Option<u64>)
    ensures
        r == larger(a, b),
{
    match (a, b) {
        (Some(x), Some(y)) => if x <= y {
            Some(y)
        } else {
            Some(x)
        },
        (Some(x), None) => Some(x),
        (None, y) => y,
    }
}

fn largest_message_id(messages: &Vec<Json>) -> (r: Option<u64>)
    ensures
        r == largest_id(item_trees(messages@)),
{
    let mut best: Option<u64> = None;
    let mut i: usize = 0;
    let ghost trees = item_trees(messages@);
    proof {
        lemma_item_trees(messages@);
    }
    while i < messages.len()
        invariant
            i <= messages@.len() == trees.len(),
            forall|j: int| 0 <= j < trees.len() ==> #[trigger] trees[j] == messages@[j]@,
            best == largest_id(trees.take(i as int)),
        decreases messages@.len() - i,
    {
        assert(trees[i as int] == messages@[i as int]@);
        best = larger_of(best, json_u64(&messages[i], "msgId"));
        i = i + 1;
        assert(trees.take(i as int).drop_last() =~= trees.take(i - 1));
    }
    assert(trees.take(i as int) =~= trees);
    best
}

fn find_data<'a>(reply: &'a Json, key: &str) -> (r: Option<&'a Json>)
    ensures
        crate::json::opt_tree(r) == data_at(reply@, key@),
{
    match reply.get("respData") {
        Some(data) => data.get(key),
        None => None,
    }
}

fn reply_messages(reply: &Json) -> (r: Vec<Json>)
    ensures
        item_trees(r@) == by_rank(messages_of(reply@)),
{
    match find_data(reply, "chatInfo") {
        Some(Json::List(items)) => sort_by_rank(items),
        _ => {
            assert(messages_of(reply@) == Seq::<JsonTree>::empty());
            Vec::new()
        },
    }
}

fn reply_code(reply: &Json) -> (r: String)
    ensures
        r@ == code_of(reply@),
{
    match reply.get("resultCode") {
        Some(v) => match value_to_string(v) {
            Some(s) => s,
            None => "0".to_owned(),
        },
        None => "0".to_owned(),
    }
}

proof fn lemma_largest_of_permutation(a: Seq<JsonTree>, b: Seq<JsonTree>)
    requires
        a.to_multiset() == b.to_multiset(),
    ensures
        largest_id(a) == largest_id(b),
{
    lemma_largest_bounds(a);
    lemma_largest_bounds(b);
    lemma_largest_within(a, b);
    lemma_largest_within(b, a);
}

proof fn lemma_largest_within(a: Seq<JsonTree>, b: Seq<JsonTree>)
    requires
        a.to_multiset() == b.to_multiset(),
    ensures
        match (largest_id(a), largest_id(b)) {
            (Some(x), Some(y)) => x <= y,
            (Some(_), None) => false,
            (None, _) => true,
        },
{
    broadcast use vstd::seq_lib::group_to_multiset_ensures;

    lemma_largest_bounds(a);
    lemma_largest_bounds(b);
    if largest_id(a) is Some {
        let i = choose|i: int|
            0 <= i < a.len() && message_id(#[trigger] a[i]) == largest_id(a);
        assert(a.contains(a[i]));
        assert(a.to_multiset().count(a[i]) > 0);
        assert(b.contains(a[i]));
        let j = choose|j: int| 0 <= j < b.len() && b[j] == a[i];
        assert(message_id(b[j]) == largest_id(a));
    }
}

proof fn lemma_largest_bounds(messages: Seq<JsonTree>)
    ensures
        forall|i: int|
            0 <= i < messages.len() ==> match message_id(#[trigger] messages[i]) {
                Some(id) => largest_id(messages) matches Some(n) && id <= n,
                None => true,
            },
        largest_id(messages) is Some ==> exists|i: int|
            0 <= i < messages.len() && message_id(#[trigger] messages[i]) == largest_id(messages),
    decreases messages.len(),
{
    if messages.len() > 0 {
        let front = messages.drop_last();
        lemma_largest_bounds(front);
        assert forall|i: int| 0 <= i < messages.len() implies match message_id(
            #[trigger] messages[i],
        ) {
            Some(id) => largest_id(messages) matches Some(n) && id <= n,
            None => true,
        } by {
            if i < front.len() {
                assert(front[i] == messages[i]);
            }
        }
        if largest_id(messages) is Some {
            if largest_id(messages) == message_id(messages.last()) {
                assert(message_id(messages[messages.len() - 1]) == largest_id(messages));
            } else {
                let i = choose|i: int|
                    0 <= i < front.len() && message_id(#[trigger] front[i]) == largest_id(front);
                assert(message_id(messages[i]) == largest_id(messages));
            }
        }
    }
}

fn collect_new(
    messages: Vec<Json>,
    lower_bound: u64,
    cursor: Option<&str>,
    include_sender: &[String],
    exclude_sender: &[String],
) -> (r: Vec<ParsedIncomingMessage>)
    requires
        lower_bound == match cursor_number(opt_text(cursor)) {
            Some(n) => n,
            None => 0,
        },
    ensures
        incoming_all(r@) == new_commands(
            item_trees(messages@),
            opt_text(cursor),
            texts(include_sender@),
            texts(exclude_sender@),
        ),
{
    let ghost all = messages@;
    let ghost trees = item_trees(messages@);
    let ghost seen = opt_text(cursor);
    let ghost included = texts(include_sender@);
    let ghost excluded = texts(exclude_sender@);
    let mut out: Vec<ParsedIncomingMessage> = Vec::new();
    proof {
        lemma_item_trees(messages@);
        assert(incoming_all(out@) =~= Seq::<Incoming>::empty());
        assert(trees.take(0) =~= Seq::<JsonTree>::empty());
    }
    for message in it: messages
        invariant
            it.seq() == all,
            trees.len() == all.len(),
            forall|j: int| 0 <= j < trees.len() ==> #[trigger] trees[j] == all[j]@,
            seen == opt_text(cursor),
            included == texts(include_sender@),
            excluded == texts(exclude_sender@),
            lower_bound == match cursor_number(opt_text(cursor)) {
                Some(n) => n,
                None => 0,
            },
            incoming_all(out@) == new_commands(
                trees.take(it.index() as int),
                seen,
                included,
                excluded,
            ),
    {
        let ghost k = it.index() as int;
        let ghost before = incoming_all(out@);
        assert(trees[k] == message@);
        assert(trees.take(k + 1).drop_last() =~= trees.take(k));
        let fresh = match json_u64(&message, "msgId") {
            Some(id) => id > lower_bound,
            None => true,
        };
        if fresh {
            match history_message_to_incoming(message, include_sender, exclude_sender) {
                Some(command) => {
                    out.push(command);
                    assert(incoming_all(out@) =~= before.push(command@));
                },
                None => {},
            }
        }
    }
    assert(trees.take(trees.len() as int) =~= trees);
    out
}

/// What a reply to a history query means.
pub fn history_batch(
    reply: &Json,
    cursor: Option<&str>,
    include_sender: &[String],
    exclude_sender: &[String],
    initial_sync: bool,
) -> (r: Result<ParsedHistoryBatch, ChatChannelError>)
    ensures
        batch_result(
            r,
            batch_of(
                reply@,
                opt_text(cursor),
                texts(include_sender@),
                texts(exclude_sender@),
                initial_sync,
            ),
        ),
{
    let code = reply_code(reply);
    if !same_text(code.as_str(), "0") {
        let mut message = "WeLink history query failed: code=".to_owned();
        message.append(code.as_str());
        message.append(" context=");
        match reply.str_at("resultContext") {
            Some(context) => message.append(context),
            None => {},
        }
        assert(message@ =~= "WeLink history query failed: code="@ + code_of(reply@) + " context="@
            + context_of(reply@));
        return Err(ChatChannelError::ConnectionFailed(message));
    }
    let previous: Option<u64> = match cursor {
        Some(c) => parse_u64(c),
        None => None,
    };
    let said: Option<u64> = match find_data(reply, "maxMsgId") {
        Some(v) => value_to_u64(v),
        None => None,
    };
    let messages = reply_messages(reply);
    let highest: Option<u64> = larger_of(
        larger_of(previous, said),
        largest_message_id(&messages),
    );
    proof {
        lemma_by_rank_sorts(messages_of(reply@));
        lemma_largest_of_permutation(by_rank(messages_of(reply@)), messages_of(reply@));
    }
    let next_cursor = match highest {
        Some(id) => Some(u64_text(id)),
        None => None,
    };
    if initial_sync {
        let none: Vec<ParsedIncomingMessage> = Vec::new();
        assert(incoming_all(none@) =~= Seq::<Incoming>::empty());
        return Ok(ParsedHistoryBatch { messages: none, next_cursor });
    }
    let lower_bound: u64 = match previous {
        Some(n) => n,
        None => 0,
    };
    let parsed = collect_new(messages, lower_bound, cursor, include_sender, exclude_sender);
    Ok(ParsedHistoryBatch { messages: parsed, next_cursor })
}

/// What the output of a history query means.
pub fn parse_history_output(
    output: &str,
    cursor: Option<&str>,
    include_sender: &[String],
    exclude_sender: &[String],
    initial_sync: bool,
) -> (r: Result<ParsedHistoryBatch, ChatChannelError>)
    ensures
        batch_result(
            r,
            batch_of_output(
                output@,
                opt_text(cursor),
                texts(include_sender@),
                texts(exclude_sender@),
                initial_sync,
            ),
        ),
{
    match Json::parse(output) {
        Ok(reply) => history_batch(&reply, cursor, include_sender, exclude_sender, initial_sync),
        Err(e) => {
            let mut message = "Invalid JSON: ".to_owned();
            message.append(e.as_str());
            Err(ChatChannelError::ConnectionFailed(message))
        },
    }
}

// ─── what holds of every reply ───────────────────────────────────────────

/// Where the `i`-th command of `new_commands` comes from.
spec fn source_of(
    messages: Seq<JsonTree>,
    cursor: Option<Seq<char>>,
    included: Seq<Seq<char>>,
    excluded: Seq<Seq<char>>,
    i: int,
) -> int
    decreases messages.len(),
{
    if messages.len() == 0 {
        -1
    } else {
        let front = messages.drop_last();
        if i < new_commands(front, cursor, included, excluded).len() {
            source_of(front, cursor, included, excluded, i)
        } else {
            messages.len() - 1
        }
    }
}

proof fn lemma_source(
    messages: Seq<JsonTree>,
    cursor: Option<Seq<char>>,
    included: Seq<Seq<char>>,
    excluded: Seq<Seq<char>>,
    i: int,
)
    requires
        0 <= i < new_commands(messages, cursor, included, excluded).len(),
    ensures
        ({
            let k = source_of(messages, cursor, included, excluded, i);
            let command = new_commands(messages, cursor, included, excluded)[i];
            &&& 0 <= k < messages.len()
            &&& is_new(messages[k], cursor)
            &&& command_of(messages[k], included, excluded) == Some(command)
            &&& command.metadata == messages[k]
        }),
    decreases messages.len(),
{
    let front = messages.drop_last();
    if i < new_commands(front, cursor, included, excluded).len() {
        lemma_source(front, cursor, included, excluded, i);
    }
}

proof fn lemma_source_order(
    messages: Seq<JsonTree>,
    cursor: Option<Seq<char>>,
    included: Seq<Seq<char>>,
    excluded: Seq<Seq<char>>,
    i: int,
    j: int,
)
    requires
        0 <= i <= j < new_commands(messages, cursor, included, excluded).len(),
    ensures
        source_of(messages, cursor, included, excluded, i) <= source_of(
            messages,
            cursor,
            included,
            excluded,
            j,
        ),
    decreases messages.len(),
{
    let front = messages.drop_last();
    lemma_source(messages, cursor, included, excluded, i);
    if j < new_commands(front, cursor, included, excluded).len() {
        lemma_source_order(front, cursor, included, excluded, i, j);
    }
}

proof fn lemma_kept(
    messages: Seq<JsonTree>,
    cursor: Option<Seq<char>>,
    included: Seq<Seq<char>>,
    excluded: Seq<Seq<char>>,
    k: int,
)
    requires
        0 <= k < messages.len(),
        is_new(messages[k], cursor),
        command_of(messages[k], included, excluded) is Some,
    ensures
        new_commands(messages, cursor, included, excluded).contains(
            command_of(messages[k], included, excluded)->0,
        ),
    decreases messages.len(),
{
    let front = messages.drop_last();
    let all = new_commands(messages, cursor, included, excluded);
    let some = new_commands(front, cursor, included, excluded);
    if k < front.len() {
        lemma_kept(front, cursor, included, excluded, k);
        let i = choose|i: int|
            0 <= i < some.len() && some[i] == command_of(messages[k], included, excluded)->0;
        assert(all[i] == some[i]);
    } else {
        assert(all[all.len() - 1] == command_of(messages[k], included, excluded)->0);
    }
}

proof fn lemma_same_members(reply: JsonTree, message: JsonTree)
    ensures
        by_rank(messages_of(reply)).contains(message) == messages_of(reply).contains(message),
{
    broadcast use vstd::seq_lib::group_to_multiset_ensures;

    lemma_by_rank_sorts(messages_of(reply));
    let sorted = by_rank(messages_of(reply));
    assert(sorted.contains(message) == (sorted.to_multiset().count(message) > 0));
    assert(messages_of(reply).contains(message) == (messages_of(reply).to_multiset().count(message)
        > 0));
}

/// Every command of a batch comes from a message of the reply that is newer than
/// the cursor and whose sender is allowed, and its text is not empty. The first
/// reply brings no command.
pub proof fn lemma_commands_are_due(
    reply: JsonTree,
    cursor: Option<Seq<char>>,
    included: Seq<Seq<char>>,
    excluded: Seq<Seq<char>>,
    initial_sync: bool,
    i: int,
)
    requires
        batch_of(reply, cursor, included, excluded, initial_sync) matches Ok(batch) && 0 <= i
            < batch.messages.len(),
    ensures
        ({
            let command =
                batch_of(reply, cursor, included, excluded, initial_sync)->Ok_0.messages[i];
            &&& !initial_sync
            &&& messages_of(reply).contains(command.metadata)
            &&& is_new(command.metadata, cursor)
            &&& command.sender == sender_of(command.metadata)
            &&& allowed(command.sender, included, excluded)
            &&& command.text.len() > 0
        }),
{
    let sorted = by_rank(messages_of(reply));
    lemma_source(sorted, cursor, included, excluded, i);
    let k = source_of(sorted, cursor, included, excluded, i);
    assert(sorted.contains(sorted[k]));
    lemma_same_members(reply, sorted[k]);
}

/// No new message of an allowed sender is lost: after the first reply, each
/// command that a message newer than the cursor carries is in the batch.
pub proof fn lemma_no_command_lost(
    reply: JsonTree,
    cursor: Option<Seq<char>>,
    included: Seq<Seq<char>>,
    excluded: Seq<Seq<char>>,
    message: JsonTree,
)
    requires
        code_of(reply) == "0"@,
        messages_of(reply).contains(message),
        is_new(message, cursor),
        command_of(message, included, excluded) is Some,
    ensures
        batch_of(reply, cursor, included, excluded, false) matches Ok(batch)
            && batch.messages.contains(command_of(message, included, excluded)->0),
{
    let sorted = by_rank(messages_of(reply));
    lemma_same_members(reply, message);
    let k = choose|k: int| 0 <= k < sorted.len() && sorted[k] == message;
    lemma_kept(sorted, cursor, included, excluded, k);
}

/// The commands of a batch come in the order of their messages' numbers.
pub proof fn lemma_commands_in_order(
    reply: JsonTree,
    cursor: Option<Seq<char>>,
    included: Seq<Seq<char>>,
    excluded: Seq<Seq<char>>,
    i: int,
    j: int,
)
    requires
        batch_of(reply, cursor, included, excluded, false) matches Ok(batch) && 0 <= i <= j
            < batch.messages.len(),
    ensures
        ({
            let commands = batch_of(reply, cursor, included, excluded, false)->Ok_0.messages;
            rank(commands[i].metadata) <= rank(commands[j].metadata)
        }),
{
    let sorted = by_rank(messages_of(reply));
    lemma_by_rank_sorts(messages_of(reply));
    lemma_source(sorted, cursor, included, excluded, i);
    lemma_source(sorted, cursor, included, excluded, j);
    lemma_source_order(sorted, cursor, included, excluded, i, j);
}

/// The cursor never goes back: after a reply it is at least what it was, and at
/// least the number of every message of the reply.
pub proof fn lemma_cursor_never_goes_back(
    reply: JsonTree,
    cursor: Option<Seq<char>>,
    included: Seq<Seq<char>>,
    excluded: Seq<Seq<char>>,
    initial_sync: bool,
)
    requires
        batch_of(reply, cursor, included, excluded, initial_sync) is Ok,
    ensures
        ({
            let next = cursor_number(
                batch_of(reply, cursor, included, excluded, initial_sync)->Ok_0.next_cursor,
            );
            &&& next == highest_known(reply, cursor)
            &&& cursor_number(cursor) matches Some(seen) ==> next matches Some(n) && n >= seen
            &&& forall|j: int|
                0 <= j < messages_of(reply).len() ==> match message_id(
                    #[trigger] messages_of(reply)[j],
                ) {
                    Some(id) => next matches Some(n) && n >= id,
                    None => true,
                }
        }),
{
    match highest_known(reply, cursor) {
        Some(n) => {
            lemma_number_of_decimal(n);
        },
        None => {},
    }
    lemma_largest_bounds(messages_of(reply));
}

/// What one reply brought, the next does not bring again: a command of the next
/// batch whose message has a number has a higher one than every message of the
/// reply before.
pub proof fn lemma_nothing_comes_twice(
    first: JsonTree,
    second: JsonTree,
    cursor: Option<Seq<char>>,
    included: Seq<Seq<char>>,
    excluded: Seq<Seq<char>>,
    initial_sync: bool,
    i: int,
    j: int,
)
    requires
        batch_of(first, cursor, included, excluded, initial_sync) matches Ok(before) && (batch_of(
            second,
            before.next_cursor,
            included,
            excluded,
            false,
        ) matches Ok(after) && 0 <= i < after.messages.len() && message_id(
            after.messages[i].metadata,
        ) is Some),
        0 <= j < messages_of(first).len(),
        message_id(messages_of(first)[j]) is Some,
    ensures
        ({
            let before = batch_of(first, cursor, included, excluded, initial_sync)->Ok_0;
            let after = batch_of(second, before.next_cursor, included, excluded, false)->Ok_0;
            message_id(messages_of(first)[j])->0 < message_id(after.messages[i].metadata)->0
        }),
{
    let before = batch_of(first, cursor, included, excluded, initial_sync)->Ok_0;
    lemma_cursor_never_goes_back(first, cursor, included, excluded, initial_sync);
    lemma_commands_are_due(second, before.next_cursor, included, excluded, false, i);
    assert(messages_of(first)[j] == messages_of(first)[j]);
}

// ─── what a command is ───────────────────────────────────────────────────

/// A command is its message: the sender is the one that the message names, the text
/// is all of the message's text but outer white space, and the message comes along
/// as it is. Its sender is allowed, and its text is not empty.
pub proof fn lemma_command_is_its_message(
    command: Option<ParsedIncomingMessage>,
    message: JsonTree,
    included: Seq<Seq<char>>,
    excluded: Seq<Seq<char>>,
)
    requires
        opt_incoming(command) == command_of(message, included, excluded),
    ensures
        command matches Some(c) ==> c.metadata@ == message && c.text@.len() > 0 && no_outer_space(
            c.text@,
        ) && (message_text(message) matches Some(whole) && c.text@ == trimmed(whole) && exists|
            before: Seq<char>,
            after: Seq<char>,
        |
            all_space(before) && all_space(after) && whole == #[trigger] (before + c.text@
                + after)),
        command matches Some(c) ==> !excluded.contains(c.sender@) && (included.len() == 0
            || included.contains(c.sender@)),
        command matches Some(c) ==> match message.text_at("sender"@) {
            Some(sender) => c.sender@ == sender,
            None => c.sender@ == "welink-user"@,
        },
{
    match message_text(message) {
        Some(whole) => {
            lemma_trimmed(whole);
        },
        None => {},
    }
}

/// A text message of an allowed sender that holds no markup, no references and no
/// outer white space is a command, and comes through character for character.
pub proof fn lemma_plain_command_comes_through(
    message: JsonTree,
    text: Seq<char>,
    sender: Seq<char>,
    included: Seq<Seq<char>>,
    excluded: Seq<Seq<char>>,
)
    requires
        message.text_at("contentType"@) == Some("TEXT_MSG"@),
        message.text_at("content"@) == Some(text),
        message.text_at("sender"@) == Some(sender),
        !excluded.contains(sender),
        included.len() == 0 || included.contains(sender),
        text.len() > 0,
        no_outer_space(text),
        !text.contains('&'),
        !text.contains('<'),
        !text.contains('>'),
    ensures
        command_of(message, included, excluded) == Some(
            Incoming { sender, text, metadata: message },
        ),
{
    lemma_plain_text_stays(text);
    lemma_trimmed(text);
}

/// What a message becomes no command for: a sender who is excluded or not among
/// those singled out, a kind that carries no text, or nothing but white space.
pub proof fn lemma_what_is_no_command(
    message: JsonTree,
    included: Seq<Seq<char>>,
    excluded: Seq<Seq<char>>,
)
    ensures
        command_of(message, included, excluded) is None <==> (excluded.contains(
            sender_of(message),
        ) || (included.len() > 0 && !included.contains(sender_of(message))) || match message_text(
            message,
        ) {
            Some(text) => all_space(text),
            None => true,
        }),
{
    match message_text(message) {
        Some(text) => {
            lemma_trimmed(text);
        },
        None => {},
    }
}

/// What a text message or a card writes is read in full: of a text message its
/// content, of a card the first of the texts that its reply has.
pub proof fn lemma_message_text_is_read(message: JsonTree, content: Seq<char>, card: JsonTree)
    requires
        message.text_at("content"@) == Some(content),
    ensures
        message.text_at("contentType"@) == Some("TEXT_MSG"@) ==> message_text(message) == Some(
            plain_text(content),
        ),
        message.text_at("contentType"@) == Some("CARD_MSG"@) && parsed(content) == Ok::<
            JsonTree,
            Seq<char>,
        >(card) ==> (card.get("cardContext"@) matches Some(context) ==> (context.get(
            "replyMsg"@,
        ) matches Some(reply) ==> (reply.text_at("content"@) matches Some(said) ==> message_text(
            message,
        ) == Some(plain_text(said))) && (reply.text_at("content"@) is None ==> (reply.text_at(
            "text"@,
        ) matches Some(said) ==> message_text(message) == Some(plain_text(said)))) && (
        reply.text_at("content"@) is None && reply.text_at("text"@) is None ==> (reply.text_at(
            "PcContent"@,
        ) matches Some(said) ==> message_text(message) == Some(plain_text(said)))))),
        message.text_at("contentType"@) == Some("CARD_MSG"@) && parsed(content) is Err
            ==> message_text(message) is None,
        message.text_at("contentType"@) is None || (message.text_at("contentType"@)->0
            != "TEXT_MSG"@ && message.text_at("contentType"@)->0 != "CARD_MSG"@) ==> message_text(
            message,
        ) is None,
{
    reveal_strlit("TEXT_MSG");
    reveal_strlit("CARD_MSG");
    assert("TEXT_MSG"@[0] != "CARD_MSG"@[0]);
    reveal_with_fuel(first_text, 4);
    assert(reply_keys().skip(1) =~= seq!["text"@, "PcContent"@]);
    assert(seq!["text"@, "PcContent"@].skip(1) =~= seq!["PcContent"@]);
}

/// The text of every command that a reply brings is the whole text of its message,
/// without outer white space.
pub proof fn lemma_commands_are_whole(
    reply: JsonTree,
    cursor: Option<Seq<char>>,
    included: Seq<Seq<char>>,
    excluded: Seq<Seq<char>>,
    initial_sync: bool,
    i: int,
)
    requires
        batch_of(reply, cursor, included, excluded, initial_sync) matches Ok(batch) && 0 <= i
            < batch.messages.len(),
    ensures
        ({
            let command =
                batch_of(reply, cursor, included, excluded, initial_sync)->Ok_0.messages[i];
            message_text(command.metadata) matches Some(whole) && command.text == trimmed(whole)
                && no_outer_space(command.text) && exists|before: Seq<char>, after: Seq<char>|
                all_space(before) && all_space(after) && whole == #[trigger] (before + command.text
                    + after)
        }),
{
    let sorted = by_rank(messages_of(reply));
    lemma_source(sorted, cursor, included, excluded, i);
    let k = source_of(sorted, cursor, included, excluded, i);
    let command = batch_of(reply, cursor, included, excluded, initial_sync)->Ok_0.messages[i];
    assert(command.metadata == sorted[k]);
    let whole = message_text(sorted[k])->0;
    assert(command.text == trimmed(whole));
    lemma_trimmed(whole);
    let (before, after) = choose|before: Seq<char>, after: Seq<char>|
        all_space(before) && all_space(after) && whole == #[trigger] (before + trimmed(whole)
            + after);
    assert(whole == before + command.text + after);
}

/// No message is brought twice by one reply: the commands come from messages at
/// places that only rise.
pub proof fn lemma_each_message_once(
    reply: JsonTree,
    cursor: Option<Seq<char>>,
    included: Seq<Seq<char>>,
    excluded: Seq<Seq<char>>,
)
    requires
        batch_of(reply, cursor, included, excluded, false) is Ok,
    ensures
        ({
            let commands = batch_of(reply, cursor, included, excluded, false)->Ok_0.messages;
            let sorted = by_rank(messages_of(reply));
            exists|at: Seq<int>|
                #![trigger at.len()]
                at.len() == commands.len() && (forall|i: int|
                    0 <= i < at.len() ==> 0 <= #[trigger] at[i] < sorted.len()
                        && commands[i].metadata == sorted[at[i]]) && (forall|i: int, j: int|
                    0 <= i < j < at.len() ==> #[trigger] at[i] < #[trigger] at[j])
        }),
{
    let commands = batch_of(reply, cursor, included, excluded, false)->Ok_0.messages;
    let sorted = by_rank(messages_of(reply));
    let at = Seq::new(
        commands.len(),
        |i: int| source_of(sorted, cursor, included, excluded, i),
    );
    assert forall|i: int| 0 <= i < at.len() implies 0 <= #[trigger] at[i] < sorted.len()
        && commands[i].metadata == sorted[at[i]] by {
        lemma_source(sorted, cursor, included, excluded, i);
    }
    assert forall|i: int, j: int| 0 <= i < j < at.len() implies #[trigger] at[i]
        < #[trigger] at[j] by {
        lemma_sources_rise(sorted, cursor, included, excluded, i, j);
    }
    assert(at.len() == commands.len());
}

proof fn lemma_sources_rise(
    messages: Seq<JsonTree>,
    cursor: Option<Seq<char>>,
    included: Seq<Seq<char>>,
    excluded: Seq<Seq<char>>,
    i: int,
    j: int,
)
    requires
        0 <= i < j < new_commands(messages, cursor, included, excluded).len(),
    ensures
        source_of(messages, cursor, included, excluded, i) < source_of(
            messages,
            cursor,
            included,
            excluded,
            j,
        ),
    decreases messages.len(),
{
    let front = messages.drop_last();
    let some = new_commands(front, cursor, included, excluded);
    if j < some.len() {
        lemma_sources_rise(front, cursor, included, excluded, i, j);
    } else {
        lemma_source(front, cursor, included, excluded, i);
    }
}

/// A message is new where its number is above the cursor's; one without a number
/// always is, and before there is a cursor every number above zero is.
pub proof fn lemma_what_is_new(message: JsonTree, id: u64, seen: u64)
    ensures
        message.get("msgId"@) == Some(JsonTree::Unsigned(id)) ==> message_id(message) == Some(id)
            && (is_new(message, Some(decimal(seen as nat))) <==> id > seen) && (is_new(
            message,
            None,
        ) <==> id > 0),
        message.get("msgId"@) == Some(JsonTree::Text(decimal(id as nat))) ==> message_id(message)
            == Some(id) && (is_new(message, Some(decimal(seen as nat))) <==> id > seen) && (is_new(
            message,
            None,
        ) <==> id > 0),
        message.get("msgId"@) is None ==> message_id(message) is None && is_new(
            message,
            Some(decimal(seen as nat)),
        ) && is_new(message, None) && rank(message) == 0,
        message_id(message) == Some(id) ==> rank(message) == id,
{
    lemma_number_of_decimal(id);
    lemma_number_of_decimal(seen);
}

/// The cursor moves to a number that was seen: that of the cursor itself, the one
/// that the reply gives for its highest, or that of one of its messages.
pub proof fn lemma_cursor_was_seen(
    reply: JsonTree,
    cursor: Option<Seq<char>>,
    included: Seq<Seq<char>>,
    excluded: Seq<Seq<char>>,
    initial_sync: bool,
)
    requires
        batch_of(reply, cursor, included, excluded, initial_sync) is Ok,
    ensures
        batch_of(
            reply,
            cursor,
            included,
            excluded,
            initial_sync,
        )->Ok_0.next_cursor matches Some(next) ==> exists|n: u64|
            next == #[trigger] decimal(n as nat) && (cursor_number(cursor) == Some(n) || (data_at(
                reply,
                "maxMsgId"@,
            ) matches Some(v) && lenient_number(v) == Some(n)) || exists|j: int|
                0 <= j < messages_of(reply).len() && message_id(#[trigger] messages_of(reply)[j])
                    == Some(n)),
        data_at(reply, "maxMsgId"@) matches Some(JsonTree::Unsigned(said)) ==> (cursor_number(
            batch_of(reply, cursor, included, excluded, initial_sync)->Ok_0.next_cursor,
        ) matches Some(n) && n >= said),
{
    lemma_largest_bounds(messages_of(reply));
    match highest_known(reply, cursor) {
        Some(n) => {
            lemma_number_of_decimal(n);
            assert(cursor_text(Some(n)) == Some(decimal(n as nat)));
            if largest_id(messages_of(reply)) == Some(n) {
                let j = choose|j: int|
                    0 <= j < messages_of(reply).len() && message_id(
                        #[trigger] messages_of(reply)[j],
                    ) == largest_id(messages_of(reply));
                assert(message_id(messages_of(reply)[j]) == Some(n));
            }
        },
        None => {},
    }
}

/// A reply brings a batch if and only if its result code is zero or missing; else
/// it fails with the code and what the reply says about it. The first reply brings
/// no command.
pub proof fn lemma_result_code_decides(
    reply: JsonTree,
    cursor: Option<Seq<char>>,
    included: Seq<Seq<char>>,
    excluded: Seq<Seq<char>>,
    initial_sync: bool,
    code: Seq<char>,
)
    ensures
        reply.get("resultCode"@) is None ==> batch_of(
            reply,
            cursor,
            included,
            excluded,
            initial_sync,
        ) is Ok,
        reply.get("resultCode"@) == Some(JsonTree::Unsigned(0)) ==> batch_of(
            reply,
            cursor,
            included,
            excluded,
            initial_sync,
        ) is Ok,
        reply.get("resultCode"@) == Some(JsonTree::Text(code)) ==> (batch_of(
            reply,
            cursor,
            included,
            excluded,
            initial_sync,
        ) is Ok <==> code == "0"@),
        reply.get("resultCode"@) == Some(JsonTree::Text(code)) && code != "0"@ ==> (reply.text_at(
            "resultContext"@,
        ) matches Some(context) ==> batch_of(
            reply,
            cursor,
            included,
            excluded,
            initial_sync,
        )->Err_0 == "WeLink history query failed: code="@ + code + " context="@ + context),
        (reply.get("resultCode"@) matches Some(JsonTree::Unsigned(n)) && n > 0) ==> batch_of(
            reply,
            cursor,
            included,
            excluded,
            initial_sync,
        ) is Err,
        initial_sync && batch_of(reply, cursor, included, excluded, initial_sync) is Ok
            ==> batch_of(reply, cursor, included, excluded, initial_sync)->Ok_0.messages.len() == 0,
{
    reveal_strlit("0");
    assert(decimal(0) =~= "0"@);
    match reply.get("resultCode"@) {
        Some(JsonTree::Unsigned(n)) => {
            lemma_notation(n, 0);
        },
        _ => {},
    }
}

/// Output is read as a reply where it is JSON, and fails with the reason where it is
/// none.
pub proof fn lemma_output_is_read(
    output: Seq<char>,
    reply: JsonTree,
    reason: Seq<char>,
    cursor: Option<Seq<char>>,
    included: Seq<Seq<char>>,
    excluded: Seq<Seq<char>>,
    initial_sync: bool,
)
    ensures
        parsed(output) == Ok::<JsonTree, Seq<char>>(reply) ==> batch_of_output(
            output,
            cursor,
            included,
            excluded,
            initial_sync,
        ) == batch_of(reply, cursor, included, excluded, initial_sync),
        parsed(output) == Err::<JsonTree, Seq<char>>(reason) ==> batch_of_output(
            output,
            cursor,
            included,
            excluded,
            initial_sync,
        ) == Err::<Batch, Seq<char>>("Invalid JSON: "@ + reason),
{
}

/// The messages of a reply are the items of the list under its data, and a reply
/// without one has none.
pub proof fn lemma_messages_of_reply(reply: JsonTree, data: JsonTree, items: Seq<JsonTree>)
    requires
        reply.get("respData"@) == Some(data),
    ensures
        data.get("chatInfo"@) == Some(JsonTree::List(items)) ==> messages_of(reply) == items,
        data.get("chatInfo"@) is None ==> messages_of(reply).len() == 0,
        data.get("maxMsgId"@) == data_at(reply, "maxMsgId"@),
{
}

/// An excluded sender is never allowed; where nobody is singled out every other
/// sender is, else those who are.
pub proof fn lemma_who_is_allowed(
    sender: Seq<char>,
    included: Seq<Seq<char>>,
    excluded: Seq<Seq<char>>,
)
    ensures
        excluded.contains(sender) ==> !allowed(sender, included, excluded),
        !excluded.contains(sender) && included.len() == 0 ==> allowed(sender, included, excluded),
        !excluded.contains(sender) && included.len() > 0 ==> (allowed(sender, included, excluded)
            <==> included.contains(sender)),
{
}

/// A list of senders is kept in order, each without outer white space; those that
/// are blank are left out, and no others.
pub proof fn lemma_senders_are_kept(values: Seq<Seq<char>>, value: Seq<char>)
    ensures
        all_space(value) ==> normalized(values.push(value)) == normalized(values),
        !all_space(value) ==> normalized(values.push(value)) == normalized(values).push(
            trimmed(value),
        ),
        normalized(Seq::empty()).len() == 0,
{
    assert(values.push(value).drop_last() =~= values);
    lemma_trimmed(value);
}

/// A number is read from a number or from its digits, and from nothing else; an
/// integer or a text is read as text.
pub proof fn lemma_lenient_reading(n: u64, s: Seq<char>, value: JsonTree)
    ensures
        lenient_number(JsonTree::Unsigned(n)) == Some(n),
        lenient_number(JsonTree::Text(decimal(n as nat))) == Some(n),
        lenient_text(JsonTree::Text(s)) == Some(s),
        lenient_text(JsonTree::Unsigned(n)) == Some(decimal(n as nat)),
        forall|m: i64| m < 0 ==> #[trigger] lenient_text(JsonTree::Negative(m)) == Some(
            seq!['-'] + decimal((-(m as int)) as nat),
        ),
        !(value is Unsigned) && !(value is Text) ==> lenient_number(value) is None,
        !(value is Unsigned) && !(value is Negative) && !(value is Text) ==> lenient_text(
            value,
        ) is None,
{
    lemma_number_of_decimal(n);
}

/// What a batch says is what it holds, message by message.
pub proof fn lemma_batch_says(batch: ParsedHistoryBatch)
    ensures
        batch@.messages.len() == batch.messages@.len(),
        forall|i: int|
            0 <= i < batch.messages@.len() ==> (#[trigger] batch@.messages[i]).sender
                == batch.messages@[i].sender@ && batch@.messages[i].text
                == batch.messages@[i].text@ && batch@.messages[i].metadata
                == batch.messages@[i].metadata@,
        batch@.next_cursor is Some <==> batch.next_cursor is Some,
        batch.next_cursor matches Some(next) ==> batch@.next_cursor == Some(next@),
{
}

/// A reply that could be read hands over its batch, and one that could not fails as
/// a failed connection with the reason.
pub proof fn lemma_batch_is_handed_over(
    result: Result<ParsedHistoryBatch, ChatChannelError>,
    expected: Result<Batch, Seq<char>>,
)
    requires
        batch_result(result, expected),
    ensures
        result is Ok <==> expected is Ok,
        result matches Ok(batch) ==> batch@ == expected->Ok_0,
        result matches Err(e) ==> (e matches ChatChannelError::ConnectionFailed(reason) && reason@
            == expected->Err_0),
{
}

} // verus!
