//! The delegation companion's side of the protocol: JSON-RPC 2.0 with one tool,
//! `delegate_to_agent`.
//!
//! A `tools/call` is registered under its request identifier while the broker
//! works on it. A cancellation for that identifier takes the entry out, wakes
//! the call and tells the broker; a call that was cancelled is not answered. A
//! call that ends by itself takes its entry out too, so that a late cancellation
//! finds nothing. Notifications are never answered.

use vstd::prelude::*;
use crate::acp::delegation::schema::TOOL_SCHEMA_JSON;
use crate::json::last_wins;
use crate::json::members;
use crate::json::object_of;
use crate::json::parsed;
use crate::json::reads_as;
use crate::json::written;
use crate::json::Json;
use crate::json::JsonTree;
use crate::keyed::distinct_keys;
use crate::keyed::lemma_mapped;
use crate::keyed::lemma_mapped_key;
use crate::keyed::lemma_mapped_pair;
use crate::keyed::lemma_pairs_and_map;
use crate::keyed::map_of_pairs;
use crate::keyed::mapped;
use crate::keyed::with_pair;
use crate::keyed::without_key;
use crate::keyed::KeyedStore;
use crate::text::opt_string;
use crate::text::same_text;

verus! {

/// How long one cancellation may keep the companion waiting for the broker.
pub const BROKER_CANCEL_BUDGET_MS: u64 = 500;

// ─── messages ────────────────────────────────────────────────────────────

/// A JSON-RPC request, or a notification where it has no identifier.
#[derive(Debug, PartialEq)]
pub struct JsonRpcRequest {
    pub jsonrpc: String,
    pub id: Option<Json>,
    pub method: String,
    pub params: Json,
}

/// A JSON-RPC error.
#[derive(Debug, PartialEq)]
pub struct JsonRpcError {
    pub code: i64,
    pub message: String,
    pub data: Option<Json>,
}

/// A JSON-RPC response.
#[derive(Debug, PartialEq)]
pub struct JsonRpcResponse {
    pub jsonrpc: String,
    pub id: Json,
    pub result: Option<Json>,
    pub error: Option<JsonRpcError>,
}

/// Whether `r` answers `id` with `result`.
pub open spec fn is_result(r: JsonRpcResponse, id: JsonTree, result: JsonTree) -> bool {
    &&& r.jsonrpc@ == "2.0"@
    &&& r.id@ == id
    &&& r.result matches Some(v)
    &&& v@ == result
    &&& r.error is None
}

/// Whether `r` answers `id` with an error.
pub open spec fn is_error(r: JsonRpcResponse, id: JsonTree, code: int, message: Seq<char>) -> bool {
    &&& r.jsonrpc@ == "2.0"@
    &&& r.id@ == id
    &&& r.result is None
    &&& r.error matches Some(e)
    &&& e.code == code
    &&& e.message@ == message
    &&& e.data is None
}

/// A response with a result.
pub fn ok(id: Json, result: Json) -> (r: JsonRpcResponse)
    ensures
        is_result(r, id@, result@),
{
    JsonRpcResponse { jsonrpc: "2.0".to_owned(), id, result: Some(result), error: None }
}

/// A response with an error.
pub fn err(id: Json, code: i64, message: String) -> (r: JsonRpcResponse)
    ensures
        is_error(r, id@, code as int, message@),
{
    JsonRpcResponse {
        jsonrpc: "2.0".to_owned(),
        id,
        result: None,
        error: Some(JsonRpcError { code, message, data: None }),
    }
}

/// What the companion was started with.
#[derive(Debug, PartialEq)]
pub struct CompanionContext {
    pub parent_connection_id: String,
    pub socket_path: String,
    pub token: String,
}

impl Clone for CompanionContext {
    fn clone(&self) -> (r: Self)
        ensures
            r.parent_connection_id@ == self.parent_connection_id@,
            r.socket_path@ == self.socket_path@,
            r.token@ == self.token@,
    {
        CompanionContext {
            parent_connection_id: self.parent_connection_id.clone(),
            socket_path: self.socket_path.clone(),
            token: self.token.clone(),
        }
    }
}

/// What the broker is asked to do.
#[derive(Debug, PartialEq)]
pub struct BrokerRequest {
    pub token: String,
    pub parent_connection_id: String,
    pub parent_tool_use_id: String,
    pub external_handle: Option<String>,
    pub input: Json,
}

/// What the broker is asked to cancel.
#[derive(Debug, PartialEq)]
pub struct BrokerCancelRequest {
    pub token: String,
    pub external_handle: String,
    pub reason: Option<String>,
}

// ─── calls in flight ─────────────────────────────────────────────────────

/// A call that the broker works on: the handle under which it was handed over,
/// and `C`, which wakes the task that waits for it.
#[derive(Debug, PartialEq)]
pub struct InflightEntry<C> {
    pub external_handle: String,
    pub cancel_tx: C,
}

/// What an `InflightEntry` says.
pub struct Call<C> {
    pub handle: Seq<char>,
    pub waker: C,
}

impl<C> View for InflightEntry<C> {
    type V = Call<C>;

    open spec fn view(&self) -> Call<C> {
        Call { handle: self.external_handle@, waker: self.cancel_tx }
    }
}

/// The calls in flight, by the key of their request identifier.
#[derive(Debug)]
pub struct InflightCalls<C> {
    inner: KeyedStore<InflightEntry<C>>,
}

impl<C> InflightCalls<C> {
    /// The keys and their calls, in the order in which the keys were first
    /// registered.
    pub closed spec fn pairs(&self) -> Seq<(Seq<char>, Call<C>)> {
        mapped(self.inner.pairs(), |e: InflightEntry<C>| e@)
    }

    /// No key occurs twice.
    pub open spec fn wf(&self) -> bool {
        distinct_keys(self.pairs())
    }

    /// The calls, in the order in which their keys were first registered.
    pub open spec fn in_order(&self) -> Seq<Call<C>> {
        self.pairs().map_values(|p: (Seq<char>, Call<C>)| p.1)
    }

    proof fn lemma_inner(&self)
        ensures
            self.wf() == self.inner.wf(),
            self.wf() ==> self@ == self.inner@.map_values(|e: InflightEntry<C>| e@),
    {
        lemma_mapped(self.inner.pairs(), |e: InflightEntry<C>| e@);
    }
}

impl<C> View for InflightCalls<C> {
    type V = Map<Seq<char>, Call<C>>;

    open spec fn view(&self) -> Map<Seq<char>, Call<C>> {
        map_of_pairs(self.pairs())
    }
}

impl<C> InflightCalls<C> {
    /// No call is in flight.
    pub fn new() -> (r: Self)
        ensures
            r.wf(),
            r.pairs() == Seq::<(Seq<char>, Call<C>)>::empty(),
            r@ == Map::<Seq<char>, Call<C>>::empty(),
    {
        let r = InflightCalls { inner: KeyedStore::new() };
        assert(r.pairs() =~= Seq::<(Seq<char>, Call<C>)>::empty());
        assert(r@ =~= Map::<Seq<char>, Call<C>>::empty());
        r
    }

    /// Registers a call, behind all others. An earlier one under the same key is
    /// forgotten, and the call takes its place.
    pub fn register(&mut self, id_key: String, entry: InflightEntry<C>)
        requires
            old(self).wf(),
        ensures
            final(self).wf(),
            final(self)@ == old(self)@.insert(id_key@, entry@),
            final(self).pairs() == with_pair(old(self).pairs(), id_key@, entry@),
    {
        let ghost key = id_key@;
        proof {
            self.lemma_inner();
            lemma_mapped_pair(self.inner.pairs(), |e: InflightEntry<C>| e@, key, entry);
        }
        self.inner.insert(id_key, entry);
        proof {
            self.lemma_inner();
            assert(self@ =~= old(self)@.insert(key, entry@));
        }
    }

    /// Takes a call out.
    pub fn take(&mut self, id_key: &str) -> (r: Option<InflightEntry<C>>)
        requires
            old(self).wf(),
        ensures
            final(self).wf(),
            final(self)@ == old(self)@.remove(id_key@),
            final(self).pairs() == without_key(old(self).pairs(), id_key@),
            match r {
                Some(entry) => old(self)@.dom().contains(id_key@) && entry@ == old(self)@[id_key@],
                None => !old(self)@.dom().contains(id_key@),
            },
    {
        proof {
            self.lemma_inner();
        }
        let r = self.inner.remove(id_key);
        proof {
            self.lemma_inner();
            lemma_mapped_key(old(self).inner.pairs(), |e: InflightEntry<C>| e@, id_key@);
            assert(self@ =~= old(self)@.remove(id_key@));
        }
        r
    }

    /// Takes every call out.
    pub fn drain_all(&mut self) -> (r: Vec<InflightEntry<C>>)
        requires
            old(self).wf(),
        ensures
            final(self).wf(),
            final(self)@ == Map::<Seq<char>, Call<C>>::empty(),
            r@.map_values(|e: InflightEntry<C>| e@) == old(self).in_order(),
    {
        let taken = self.inner.take_all();
        assert(self.pairs() =~= Seq::<(Seq<char>, Call<C>)>::empty());
        assert(self@ =~= Map::<Seq<char>, Call<C>>::empty());
        let ghost all = taken@;
        let ghost pairs = old(self).inner.pairs();
        assert(all.map_values(|e: (String, InflightEntry<C>)| (e.0@, e.1)) == pairs);
        let mut out: Vec<InflightEntry<C>> = Vec::new();
        for pair in it: taken
            invariant
                it.seq() == all,
                out@ == all.take(it.index() as int).map_values(
                    |e: (String, InflightEntry<C>)| e.1,
                ),
        {
            let ghost k = it.index() as int;
            let (key, entry) = pair;
            out.push(entry);
            assert(out@ =~= all.take(k + 1).map_values(|e: (String, InflightEntry<C>)| e.1));
        }
        assert(out@.map_values(|e: InflightEntry<C>| e@) =~= old(self).in_order()) by {
            assert forall|i: int| 0 <= i < all.len() implies #[trigger] pairs[i].1 == all[i].1 by {
                assert(all.map_values(|e: (String, InflightEntry<C>)| (e.0@, e.1))[i] == pairs[i]);
            }
        }
        out
    }

    /// How many calls are in flight.
    pub fn len(&self) -> (r: usize)
        ensures
            r == self.pairs().len(),
    {
        self.inner.len()
    }
}

impl<C> Default for InflightCalls<C> {
    fn default() -> (r: Self)
        ensures
            r.wf(),
            r@ == Map::<Seq<char>, Call<C>>::empty(),
    {
        InflightCalls::new()
    }
}

/// The key of a request identifier: the identifier as JSON text, so that a
/// number and a text with the same digits stay apart. The key of a null, a
/// truth value, an integer or a text reads back as that identifier.
pub fn request_id_key(id: &Json) -> (r: String)
    ensures
        r@ == written(id@),
        id@.scalar() ==> reads_as(r@, id@),
{
    id.to_text()
}

/// Identifiers whose keys read back as themselves have different keys where they
/// differ.
pub proof fn lemma_keys_tell_ids_apart(a: JsonTree, b: JsonTree)
    requires
        reads_as(written(a), a),
        reads_as(written(b), b),
        a != b,
    ensures
        written(a) != written(b),
{
}

// ─── handles ─────────────────────────────────────────────────────────────

/// Whether `c` is a small hexadecimal digit.
pub open spec fn hex_digit(c: char) -> bool {
    '0' <= c <= '9' || 'a' <= c <= 'f'
}

/// Whether `s` has the form of a random UUID: 32 small hexadecimal digits in
/// groups of eight, four, four, four and twelve, of which the third begins with
/// the version and the fourth with the variant.
pub open spec fn uuid_form(s: Seq<char>) -> bool {
    &&& s.len() == 36
    &&& s[8] == '-' && s[13] == '-' && s[18] == '-' && s[23] == '-'
    &&& forall|i: int|
        0 <= i < 36 && i != 8 && i != 13 && i != 18 && i != 23 ==> hex_digit(#[trigger] s[i])
    &&& s[14] == '4'
    &&& s[19] == '8' || s[19] == '9' || s[19] == 'a' || s[19] == 'b'
}

/// `uuid::Uuid::new_v4` as text. Which digits it has is up to chance; its form is
/// not. That two handles differ is left unsaid. The call needs random bytes of
/// the operating system.
#[verifier::external_body]
fn fresh_handle() -> (r: String)
    ensures
        uuid_form(r@),
{
    uuid::Uuid::new_v4().to_string()
}

// ─── one line in ─────────────────────────────────────────────────────────

/// A call that is to be handed to the broker.
#[derive(Debug, PartialEq)]
pub struct SpawnedCall {
    pub request_id: Json,
    pub request_id_key: String,
    pub request: BrokerRequest,
}

/// What is to be done about one line of input.
#[derive(Debug, PartialEq)]
pub enum LineAction {
    /// Answer at once.
    Respond(JsonRpcResponse),
    /// Hand the call to the broker, and answer when it has replied.
    Spawn(SpawnedCall),
    /// Say nothing.
    Silent,
}

/// A cancellation: wake the task that waits, then tell the broker.
#[derive(Debug, PartialEq)]
pub struct PendingCancel<C> {
    pub cancel_tx: C,
    pub request: BrokerCancelRequest,
}

/// The text of a member, or nothing where it is missing or no text.
pub open spec fn text_or_empty(value: JsonTree, key: Seq<char>) -> Seq<char> {
    match value.text_at(key) {
        Some(s) => s,
        None => Seq::empty(),
    }
}

/// The answer to `initialize`.
pub open spec fn server_description(version: Seq<char>) -> JsonTree {
    object_of(
        seq![
            ("protocolVersion"@, JsonTree::Text("2024-11-05"@)),
            (
                "serverInfo"@,
                object_of(
                    seq![
                        ("name"@, JsonTree::Text("codeg-mcp"@)),
                        ("version"@, JsonTree::Text(version)),
                    ],
                ),
            ),
            ("capabilities"@, object_of(seq![("tools"@, object_of(Seq::empty()))])),
        ],
    )
}

/// A list of one tool.
pub open spec fn tool_list(tool: JsonTree) -> JsonTree {
    object_of(seq![("tools"@, JsonTree::List(seq![tool]))])
}

/// The tool use that a call names, or nothing.
pub open spec fn tool_use_of(params: JsonTree) -> Seq<char> {
    match params.get("_meta"@) {
        Some(meta) => text_or_empty(meta, "tool_use_id"@),
        None => Seq::empty(),
    }
}

/// Whether `request` hands the call with `params` to the broker under `handle`.
pub open spec fn hands_over(
    request: BrokerRequest,
    ctx: CompanionContext,
    params: JsonTree,
    handle: Seq<char>,
) -> bool {
    &&& request.token@ == ctx.token@
    &&& request.parent_connection_id@ == ctx.parent_connection_id@
    &&& request.parent_tool_use_id@ == tool_use_of(params)
    &&& opt_string(request.external_handle) == Some(handle)
    &&& request.input@ == match params.get("arguments"@) {
        Some(arguments) => arguments,
        None => JsonTree::Null,
    }
}

/// Whether a `tools/call` is for the tool that the companion has.
pub open spec fn calls_delegation(params: JsonTree) -> bool {
    text_or_empty(params, "name"@) == "delegate_to_agent"@
}

/// Whether `action` is what a request with the identifier `id` is met with.
pub open spec fn answers(
    action: LineAction,
    ctx: CompanionContext,
    version: Seq<char>,
    id: JsonTree,
    method: Seq<char>,
    params: JsonTree,
    handle: Seq<char>,
) -> bool {
    if method == "initialize"@ {
        action matches LineAction::Respond(r) && is_result(r, id, server_description(version))
    } else if method == "tools/list"@ {
        action matches LineAction::Respond(r) && match parsed(TOOL_SCHEMA_JSON@) {
            Ok(tool) => is_result(r, id, tool_list(tool)),
            Err(e) => is_error(r, id, -32603, "embedded schema invalid: "@ + e),
        }
    } else if method == "tools/call"@ {
        if calls_delegation(params) {
            action matches LineAction::Spawn(call) && call.request_id@ == id
                && call.request_id_key@ == written(id) && hands_over(
                call.request,
                ctx,
                params,
                handle,
            )
        } else {
            action matches LineAction::Respond(r) && is_error(
                r,
                id,
                -32602,
                "unknown tool: "@ + text_or_empty(params, "name"@),
            )
        }
    } else {
        action matches LineAction::Respond(r) && is_error(
            r,
            id,
            -32601,
            "method not found: "@ + method,
        )
    }
}

/// The calls in flight after a request.
pub open spec fn flight_after<C>(
    before: Map<Seq<char>, Call<C>>,
    id: JsonTree,
    method: Seq<char>,
    params: JsonTree,
    handle: Seq<char>,
    waker: C,
) -> Map<Seq<char>, Call<C>> {
    if method == "tools/call"@ && calls_delegation(params) {
        before.insert(written(id), Call { handle, waker })
    } else {
        before
    }
}

/// The key of the call that a cancellation is for.
pub open spec fn cancelled_key(params: JsonTree) -> Option<Seq<char>> {
    match params.get("requestId"@) {
        Some(id) => Some(written(id)),
        None => None,
    }
}

/// Whether `cancel` and `after` are what a cancellation with `params` makes of
/// the calls in flight.
pub open spec fn cancels<C>(
    cancel: Option<PendingCancel<C>>,
    after: Map<Seq<char>, Call<C>>,
    before: Map<Seq<char>, Call<C>>,
    ctx: CompanionContext,
    params: JsonTree,
) -> bool {
    match cancelled_key(params) {
        Some(key) => after == before.remove(key) && if before.dom().contains(key) {
            cancel matches Some(c) && c.cancel_tx == before[key].waker && tells_broker(
                c.request,
                ctx,
                before[key].handle,
                params.text_at("reason"@),
            )
        } else {
            cancel is None
        },
        None => after == before && cancel is None,
    }
}

/// Whether `request` cancels the call with `handle`.
pub open spec fn tells_broker(
    request: BrokerCancelRequest,
    ctx: CompanionContext,
    handle: Seq<char>,
    reason: Option<Seq<char>>,
) -> bool {
    &&& request.token@ == ctx.token@
    &&& request.external_handle@ == handle
    &&& opt_string(request.reason) == reason
}

/// What a line of input was read as: a request, or why it is none.
pub open spec fn dispatched<C>(
    action: LineAction,
    cancel: Option<PendingCancel<C>>,
    after: Map<Seq<char>, Call<C>>,
    before: Map<Seq<char>, Call<C>>,
    ctx: CompanionContext,
    version: Seq<char>,
    line: Result<JsonRpcRequest, String>,
    waker: C,
    handle: Seq<char>,
) -> bool {
    match line {
        Err(e) => action matches LineAction::Respond(r) && is_error(
            r,
            JsonTree::Null,
            -32700,
            "parse error: "@ + e@,
        ) && cancel is None && after == before,
        Ok(request) => match request.id {
            None => action == LineAction::Silent && if request.method@
                == "notifications/cancelled"@ {
                cancels(cancel, after, before, ctx, request.params@)
            } else {
                cancel is None && after == before
            },
            Some(id) => answers(
                action,
                ctx,
                version,
                id@,
                request.method@,
                request.params@,
                handle,
            ) && cancel is None && after == flight_after(
                before,
                id@,
                request.method@,
                request.params@,
                handle,
                waker,
            ),
        },
    }
}

fn text_member(value: &Json, key: &str) -> (r: String)
    ensures
        r@ == text_or_empty(value@, key@),
{
    match value.str_at(key) {
        Some(s) => s.to_owned(),
        None => String::new(),
    }
}

fn describe_server(version: &str) -> (r: Json)
    ensures
        r@ == server_description(version@),
{
    let tools: Vec<(String, Json)> = Vec::new();
    assert(members(tools@) =~= Seq::<
        (Seq<char>, JsonTree),
    >::empty());
    let capabilities: Vec<(String, Json)> = vec![("tools".to_owned(), Json::object(tools))];
    assert(members(capabilities@) =~= seq![
        ("tools"@, object_of(Seq::empty())),
    ]);
    let info: Vec<(String, Json)> = vec![
        ("name".to_owned(), Json::text("codeg-mcp")),
        ("version".to_owned(), Json::text(version)),
    ];
    assert(members(info@) =~= seq![
        ("name"@, JsonTree::Text("codeg-mcp"@)),
        ("version"@, JsonTree::Text(version@)),
    ]);
    let whole: Vec<(String, Json)> = vec![
        ("protocolVersion".to_owned(), Json::text("2024-11-05")),
        ("serverInfo".to_owned(), Json::object(info)),
        ("capabilities".to_owned(), Json::object(capabilities)),
    ];
    assert(members(whole@) =~= seq![
        ("protocolVersion"@, JsonTree::Text("2024-11-05"@)),
        (
            "serverInfo"@,
            object_of(
                seq![
                    ("name"@, JsonTree::Text("codeg-mcp"@)),
                    ("version"@, JsonTree::Text(version@)),
                ],
            ),
        ),
        ("capabilities"@, object_of(seq![("tools"@, object_of(Seq::empty()))])),
    ]);
    Json::object(whole)
}

/// The answer to `tools/list`, given what the tool's schema reads as.
pub fn list_tools(id: Json, schema: Result<Json, String>) -> (r: JsonRpcResponse)
    ensures
        match schema {
            Ok(tool) => is_result(r, id@, tool_list(tool@)),
            Err(e) => is_error(r, id@, -32603, "embedded schema invalid: "@ + e@),
        },
{
    match schema {
        Ok(tool) => {
            let fields: Vec<(String, Json)> = vec![("tools".to_owned(), Json::list_of_one(tool))];
            assert(members(fields@) =~= seq![
                ("tools"@, JsonTree::List(seq![tool@])),
            ]);
            ok(id, Json::object(fields))
        },
        Err(e) => {
            let mut message = "embedded schema invalid: ".to_owned();
            message.append(e.as_str());
            err(id, -32603, message)
        },
    }
}

/// Meets a `tools/call`: registers the call under `handle` and hands it over, or
/// refuses a tool that there is not.
fn build_tools_call_spawn<C>(
    ctx: &CompanionContext,
    inflight: &mut InflightCalls<C>,
    id: Json,
    params: &Json,
    cancel_tx: C,
    handle: String,
) -> (r: LineAction)
    requires
        old(inflight).wf(),
    ensures
        final(inflight).wf(),
        if calls_delegation(params@) {
            final(inflight)@ == old(inflight)@.insert(
                written(id@),
                Call { handle: handle@, waker: cancel_tx },
            ) && (r matches LineAction::Spawn(call) && call.request_id@ == id@
                && call.request_id_key@ == written(id@) && hands_over(
                call.request,
                *ctx,
                params@,
                handle@,
            ))
        } else {
            final(inflight)@ == old(inflight)@ && (r matches LineAction::Respond(resp) && is_error(
                resp,
                id@,
                -32602,
                "unknown tool: "@ + text_or_empty(params@, "name"@),
            ))
        },
{
    let name = text_member(params, "name");
    if !same_text(name.as_str(), "delegate_to_agent") {
        let mut message = "unknown tool: ".to_owned();
        message.append(name.as_str());
        return LineAction::Respond(err(id, -32602, message));
    }
    let input = match params.get("arguments") {
        Some(arguments) => arguments.clone(),
        None => Json::Null,
    };
    let parent_tool_use_id = match params.get("_meta") {
        Some(meta) => text_member(meta, "tool_use_id"),
        None => String::new(),
    };
    let request = BrokerRequest {
        token: ctx.token.clone(),
        parent_connection_id: ctx.parent_connection_id.clone(),
        parent_tool_use_id,
        external_handle: Some(handle.clone()),
        input,
    };
    let id_key = request_id_key(&id);
    inflight.register(id_key.clone(), InflightEntry { external_handle: handle, cancel_tx });
    LineAction::Spawn(SpawnedCall { request_id: id, request_id_key: id_key, request })
}

/// Meets a cancellation: takes the call that it names out of flight. One for a
/// call that is not in flight is ignored.
pub fn handle_cancel_notification<C>(
    ctx: &CompanionContext,
    inflight: &mut InflightCalls<C>,
    params: &Json,
) -> (r: Option<PendingCancel<C>>)
    requires
        old(inflight).wf(),
    ensures
        final(inflight).wf(),
        cancels(r, final(inflight)@, old(inflight)@, *ctx, params@),
{
    let id_key = match params.get("requestId") {
        Some(id) => request_id_key(id),
        None => {
            return None;
        },
    };
    match inflight.take(id_key.as_str()) {
        Some(entry) => {
            let reason = match params.str_at("reason") {
                Some(s) => Some(s.to_owned()),
                None => None,
            };
            Some(
                PendingCancel {
                    cancel_tx: entry.cancel_tx,
                    request: BrokerCancelRequest {
                        token: ctx.token.clone(),
                        external_handle: entry.external_handle,
                        reason,
                    },
                },
            )
        },
        None => None,
    }
}

/// Meets one line of input, given what it was read as, what wakes the task of a
/// call, and the handle that a call gets.
pub fn dispatch_with_handle<C>(
    ctx: &CompanionContext,
    version: &str,
    inflight: &mut InflightCalls<C>,
    line: Result<JsonRpcRequest, String>,
    cancel_tx: C,
    handle: String,
) -> (r: (LineAction, Option<PendingCancel<C>>))
    requires
        old(inflight).wf(),
    ensures
        final(inflight).wf(),
        dispatched(
            r.0,
            r.1,
            final(inflight)@,
            old(inflight)@,
            *ctx,
            version@,
            line,
            cancel_tx,
            handle@,
        ),
{
    let request = match line {
        Ok(request) => request,
        Err(e) => {
            let mut message = "parse error: ".to_owned();
            message.append(e.as_str());
            return (LineAction::Respond(err(Json::Null, -32700, message)), None);
        },
    };
    let id = match request.id {
        Some(id) => id,
        None => {
            if same_text(request.method.as_str(), "notifications/cancelled") {
                let cancel = handle_cancel_notification(ctx, inflight, &request.params);
                return (LineAction::Silent, cancel);
            }
            return (LineAction::Silent, None);
        },
    };
    let method = request.method.as_str();
    proof {
        reveal_strlit("initialize");
        reveal_strlit("tools/list");
        reveal_strlit("tools/call");
        assert("initialize"@[0] != "tools/call"@[0]);
        assert("tools/list"@[6] != "tools/call"@[6]);
    }
    let action = if same_text(method, "initialize") {
        LineAction::Respond(ok(id, describe_server(version)))
    } else if same_text(method, "tools/list") {
        LineAction::Respond(list_tools(id, Json::parse(TOOL_SCHEMA_JSON)))
    } else if same_text(method, "tools/call") {
        build_tools_call_spawn(ctx, inflight, id, &request.params, cancel_tx, handle)
    } else {
        let mut message = "method not found: ".to_owned();
        message.append(method);
        LineAction::Respond(err(id, -32601, message))
    };
    (action, None)
}

/// Whether a line is a call that is handed to the broker.
pub open spec fn takes_up_call(line: Result<JsonRpcRequest, String>) -> bool {
    &&& line matches Ok(request)
    &&& request.id is Some
    &&& request.method@ == "tools/call"@
    &&& calls_delegation(request.params@)
}

fn needs_handle(line: &Result<JsonRpcRequest, String>) -> (r: bool)
    ensures
        r == takes_up_call(*line),
{
    match line {
        Ok(request) => request.id.is_some() && same_text(request.method.as_str(), "tools/call")
            && same_text(text_member(&request.params, "name").as_str(), "delegate_to_agent"),
        Err(_) => false,
    }
}

/// Meets one line of input, given what it was read as and what wakes the task of
/// a call. A call that is handed to the broker gets a random handle.
pub fn dispatch_line<C>(
    ctx: &CompanionContext,
    version: &str,
    inflight: &mut InflightCalls<C>,
    line: Result<JsonRpcRequest, String>,
    cancel_tx: C,
) -> (r: (LineAction, Option<PendingCancel<C>>))
    requires
        old(inflight).wf(),
    ensures
        final(inflight).wf(),
        exists|handle: Seq<char>| #[trigger]
            dispatched(
                r.0,
                r.1,
                final(inflight)@,
                old(inflight)@,
                *ctx,
                version@,
                line,
                cancel_tx,
                handle,
            ) && (takes_up_call(line) ==> uuid_form(handle)),
{
    let handle = if needs_handle(&line) {
        fresh_handle()
    } else {
        String::new()
    };
    dispatch_with_handle(ctx, version, inflight, line, cancel_tx, handle)
}

// ─── the end of a call ───────────────────────────────────────────────────

/// How the round trip to the broker ended.
#[derive(Debug, PartialEq)]
pub enum RoundTrip {
    /// The call was cancelled first.
    Canceled,
    /// The broker replied with this outcome.
    Replied(Json),
    /// The broker could not be reached.
    Failed(String),
}

/// What a delegation came to, as the result of the tool call.
pub open spec fn tool_result(outcome: JsonTree) -> JsonTree {
    let failed = text_or_empty(outcome, "kind"@) == "err"@;
    let text = if failed {
        match outcome.text_at("message"@) {
            Some(s) => s,
            None => "delegation failed"@,
        }
    } else {
        text_or_empty(outcome, "text"@)
    };
    object_of(
        seq![
            (
                "content"@,
                JsonTree::List(
                    seq![
                        object_of(
                            seq![
                                ("type"@, JsonTree::Text("text"@)),
                                ("text"@, JsonTree::Text(text)),
                            ],
                        ),
                    ],
                ),
            ),
            ("isError"@, JsonTree::Bool(failed)),
            ("structuredContent"@, outcome),
        ],
    )
}

/// The result of a tool call carries the outcome as it came, and says whether it
/// is a failure.
pub proof fn lemma_tool_result_carries_outcome(outcome: JsonTree)
    ensures
        tool_result(outcome).get("structuredContent"@) == Some(outcome),
        tool_result(outcome).get("isError"@) == Some(
            JsonTree::Bool(text_or_empty(outcome, "kind"@) == "err"@),
        ),
{
    reveal_strlit("content");
    reveal_strlit("isError");
    reveal_strlit("structuredContent");
    assert("content"@[0] != "isError"@[0]);
    reveal_with_fuel(last_wins, 4);
}

/// What a delegation came to, as the result of the tool call.
pub fn render_tool_result(outcome: &Json) -> (r: Json)
    ensures
        r@ == tool_result(outcome@),
        r@.get("content"@) matches Some(JsonTree::List(parts)) && parts.len() == 1
            && parts[0].text_at("type"@) == Some("text"@) && (outcome@.text_at("kind"@) != Some(
            "err"@,
        ) && outcome@.text_at("text"@) is Some ==> parts[0].text_at("text"@) == outcome@.text_at(
            "text"@,
        )) && (outcome@.text_at("kind"@) == Some("err"@) && outcome@.text_at("message"@) is Some
            ==> parts[0].text_at("text"@) == outcome@.text_at("message"@)),
{
    let kind = text_member(outcome, "kind");
    let is_error = same_text(kind.as_str(), "err");
    let text = if is_error {
        match outcome.str_at("message") {
            Some(s) => s.to_owned(),
            None => "delegation failed".to_owned(),
        }
    } else {
        text_member(outcome, "text")
    };
    let ghost said = text@;
    proof {
        reveal_strlit("err");
        assert("err"@.len() == 3);
        lemma_tool_result_parts(outcome@, said);
    }
    let part: Vec<(String, Json)> = vec![
        ("type".to_owned(), Json::text("text")),
        ("text".to_owned(), Json::Text(text)),
    ];
    assert(members(part@) =~= seq![
        ("type"@, JsonTree::Text("text"@)),
        ("text"@, JsonTree::Text(said)),
    ]);
    let whole: Vec<(String, Json)> = vec![
        ("content".to_owned(), Json::list_of_one(Json::object(part))),
        ("isError".to_owned(), Json::Bool(is_error)),
        ("structuredContent".to_owned(), outcome.clone()),
    ];
    assert(members(whole@) =~= seq![
        (
            "content"@,
            JsonTree::List(
                seq![
                    object_of(
                        seq![("type"@, JsonTree::Text("text"@)), ("text"@, JsonTree::Text(said))],
                    ),
                ],
            ),
        ),
        ("isError"@, JsonTree::Bool(is_error)),
        ("structuredContent"@, outcome@),
    ]);
    Json::object(whole)
}

/// Whether `answer` is what a call under the identifier `id` gets that ended so.
pub open spec fn closes_call(answer: Option<JsonRpcResponse>, id: JsonTree, end: RoundTrip) -> bool {
    match end {
        RoundTrip::Canceled => answer is None,
        RoundTrip::Replied(outcome) => answer matches Some(resp) && is_result(
            resp,
            id,
            tool_result(outcome@),
        ),
        RoundTrip::Failed(e) => answer matches Some(resp) && is_error(
            resp,
            id,
            -32603,
            "broker round-trip failed: "@ + e@,
        ),
    }
}

/// Ends a call: it is no longer in flight, and is answered unless it was
/// cancelled.
pub fn finish_call<C>(
    inflight: &mut InflightCalls<C>,
    request_id: Json,
    request_id_key: &str,
    end: RoundTrip,
) -> (r: Option<JsonRpcResponse>)
    requires
        old(inflight).wf(),
    ensures
        final(inflight).wf(),
        final(inflight)@ == old(inflight)@.remove(request_id_key@),
        closes_call(r, request_id@, end),
{
    let _taken = inflight.take(request_id_key);
    match end {
        RoundTrip::Canceled => None,
        RoundTrip::Replied(outcome) => Some(ok(request_id, render_tool_result(&outcome))),
        RoundTrip::Failed(e) => {
            let mut message = "broker round-trip failed: ".to_owned();
            message.append(e.as_str());
            Some(err(request_id, -32603, message))
        },
    }
}

/// Whether `cancels` has, for each of `calls`, its waker and a cancellation of
/// its handle for `reason`.
pub open spec fn cancels_each<C>(
    cancels: Seq<PendingCancel<C>>,
    calls: Seq<Call<C>>,
    ctx: CompanionContext,
    reason: Seq<char>,
) -> bool {
    &&& cancels.len() == calls.len()
    &&& forall|i: int|
        0 <= i < calls.len() ==> (#[trigger] cancels[i]).cancel_tx == calls[i].waker
            && tells_broker(cancels[i].request, ctx, calls[i].handle, Some(reason))
}

/// Takes every call out of flight and cancels it, as at the end of the companion.
pub fn drain_and_cancel_all<C>(
    ctx: &CompanionContext,
    inflight: &mut InflightCalls<C>,
    reason: &str,
) -> (r: Vec<PendingCancel<C>>)
    requires
        old(inflight).wf(),
    ensures
        final(inflight).wf(),
        final(inflight)@ == Map::<Seq<char>, Call<C>>::empty(),
        cancels_each(r@, old(inflight).in_order(), *ctx, reason@),
{
    let ghost calls = old(inflight).in_order();
    let entries = inflight.drain_all();
    let ghost all = entries@;
    assert(all.map_values(|e: InflightEntry<C>| e@) == calls);
    let mut out: Vec<PendingCancel<C>> = Vec::new();
    for entry in it: entries
        invariant
            it.seq() == all,
            all.map_values(|e: InflightEntry<C>| e@) == calls,
            cancels_each(out@, calls.take(it.index() as int), *ctx, reason@),
    {
        let ghost k = it.index() as int;
        assert(all.map_values(|e: InflightEntry<C>| e@)[k] == entry@);
        out.push(
            PendingCancel {
                cancel_tx: entry.cancel_tx,
                request: BrokerCancelRequest {
                    token: ctx.token.clone(),
                    external_handle: entry.external_handle,
                    reason: Some(reason.to_owned()),
                },
            },
        );
        assert forall|i: int| 0 <= i < k + 1 implies (#[trigger] out@[i]).cancel_tx == calls.take(
            k + 1,
        )[i].waker && tells_broker(
            out@[i].request,
            *ctx,
            calls.take(k + 1)[i].handle,
            Some(reason@),
        ) by {
            if i < k {
                assert(calls.take(k)[i] == calls.take(k + 1)[i]);
            }
        }
    }
    assert(calls.take(calls.len() as int) =~= calls);
    out
}

/// No call is left out when every call is taken out.
pub proof fn lemma_drain_reaches_every_call<C>(calls: InflightCalls<C>, key: Seq<char>)
    requires
        calls.wf(),
        calls@.dom().contains(key),
    ensures
        calls.in_order().contains(calls@[key]),
{
    lemma_pairs_and_map(calls.pairs());
    let i = choose|i: int| 0 <= i < calls.pairs().len() && (#[trigger] calls.pairs()[i]).0 == key;
    assert(calls.in_order()[i] == calls@[key]);
}

// ─── what holds of every line ────────────────────────────────────────────

/// A notification is never answered.
pub proof fn lemma_notifications_are_not_answered<C>(
    action: LineAction,
    cancel: Option<PendingCancel<C>>,
    after: Map<Seq<char>, Call<C>>,
    before: Map<Seq<char>, Call<C>>,
    ctx: CompanionContext,
    version: Seq<char>,
    request: JsonRpcRequest,
    waker: C,
    handle: Seq<char>,
)
    requires
        dispatched(action, cancel, after, before, ctx, version, Ok(request), waker, handle),
        request.id is None,
    ensures
        action == LineAction::Silent,
{
}

/// A request is answered under its own identifier, at once or by a call that
/// carries it.
pub proof fn lemma_requests_are_answered<C>(
    action: LineAction,
    cancel: Option<PendingCancel<C>>,
    after: Map<Seq<char>, Call<C>>,
    before: Map<Seq<char>, Call<C>>,
    ctx: CompanionContext,
    version: Seq<char>,
    request: JsonRpcRequest,
    waker: C,
    handle: Seq<char>,
)
    requires
        dispatched(action, cancel, after, before, ctx, version, Ok(request), waker, handle),
        request.id is Some,
    ensures
        match action {
            LineAction::Respond(r) => r.id@ == request.id->0@,
            LineAction::Spawn(call) => call.request_id@ == request.id->0@,
            LineAction::Silent => false,
        },
{
}

/// Whether `request` is a call of the companion's tool under the identifier `id`.
pub open spec fn is_delegation_call(request: JsonRpcRequest, id: JsonTree) -> bool {
    &&& request.id matches Some(own)
    &&& own@ == id
    &&& request.method@ == "tools/call"@
    &&& calls_delegation(request.params@)
}

/// Whether `request` is a cancellation of the call with the identifier `id`.
pub open spec fn is_cancellation(request: JsonRpcRequest, id: JsonTree) -> bool {
    &&& request.id is None
    &&& request.method@ == "notifications/cancelled"@
    &&& request.params@.get("requestId"@) == Some(id)
}

/// A call that was taken up and is then cancelled is woken and cancelled at the
/// broker under the handle it was given, and is out of flight. The same
/// cancellation again finds nothing.
pub proof fn lemma_cancelled_once<C>(
    call_action: LineAction,
    no_cancel: Option<PendingCancel<C>>,
    start: Map<Seq<char>, Call<C>>,
    called: Map<Seq<char>, Call<C>>,
    first_action: LineAction,
    first: Option<PendingCancel<C>>,
    cancelled: Map<Seq<char>, Call<C>>,
    again_action: LineAction,
    again: Option<PendingCancel<C>>,
    last: Map<Seq<char>, Call<C>>,
    ctx: CompanionContext,
    version: Seq<char>,
    call: JsonRpcRequest,
    cancellation: JsonRpcRequest,
    id: JsonTree,
    wakers: (C, C, C),
    handles: (Seq<char>, Seq<char>, Seq<char>),
)
    requires
        is_delegation_call(call, id),
        is_cancellation(cancellation, id),
        dispatched(
            call_action,
            no_cancel,
            called,
            start,
            ctx,
            version,
            Ok(call),
            wakers.0,
            handles.0,
        ),
        dispatched(
            first_action,
            first,
            cancelled,
            called,
            ctx,
            version,
            Ok(cancellation),
            wakers.1,
            handles.1,
        ),
        dispatched(
            again_action,
            again,
            last,
            cancelled,
            ctx,
            version,
            Ok(cancellation),
            wakers.2,
            handles.2,
        ),
    ensures
        first matches Some(c) && c.cancel_tx == wakers.0 && c.request.external_handle@ == handles.0,
        cancelled == called.remove(written(id)),
        again is None,
        last == cancelled,
{
    reveal_strlit("initialize");
    reveal_strlit("tools/list");
    reveal_strlit("tools/call");
    assert("initialize"@[0] != "tools/call"@[0]);
    assert("tools/list"@[6] != "tools/call"@[6]);
    assert(last =~= cancelled);
}

/// A cancellation that comes after its call ended finds nothing and changes
/// nothing.
pub proof fn lemma_late_cancellation_finds_nothing<C>(
    action: LineAction,
    cancel: Option<PendingCancel<C>>,
    before: Map<Seq<char>, Call<C>>,
    after: Map<Seq<char>, Call<C>>,
    ctx: CompanionContext,
    version: Seq<char>,
    cancellation: JsonRpcRequest,
    id: JsonTree,
    waker: C,
    handle: Seq<char>,
)
    requires
        is_cancellation(cancellation, id),
        dispatched(
            action,
            cancel,
            after,
            before.remove(written(id)),
            ctx,
            version,
            Ok(cancellation),
            waker,
            handle,
        ),
    ensures
        action == LineAction::Silent,
        cancel is None,
        after == before.remove(written(id)),
{
    assert(after =~= before.remove(written(id)));
}

// ─── what the caller gets ────────────────────────────────────────────────

proof fn lemma_tool_result_parts(outcome: JsonTree, text: Seq<char>)
    requires
        text == if outcome.text_at("kind"@) == Some("err"@) {
            match outcome.text_at("message"@) {
                Some(s) => s,
                None => "delegation failed"@,
            }
        } else {
            match outcome.text_at("text"@) {
                Some(s) => s,
                None => Seq::empty(),
            }
        },
    ensures
        tool_result(outcome).get("content"@) matches Some(JsonTree::List(parts)) && parts.len() == 1
            && parts[0].text_at("type"@) == Some("text"@) && parts[0].text_at("text"@) == Some(
            text,
        ),
        tool_result(outcome).get("isError"@) == Some(
            JsonTree::Bool(outcome.text_at("kind"@) == Some("err"@)),
        ),
        tool_result(outcome).get("structuredContent"@) == Some(outcome),
{
    reveal_strlit("content");
    reveal_strlit("isError");
    reveal_strlit("structuredContent");
    reveal_strlit("type");
    reveal_strlit("text");
    reveal_strlit("err");
    assert("content"@[0] != "isError"@[0]);
    assert("type"@[1] != "text"@[1]);
    assert("err"@.len() == 3);
    reveal_with_fuel(last_wins, 4);
}

/// The caller reads what the child agent answered, whole and unchanged: the result
/// of the call holds one text, which is the outcome's text, or its message where
/// it is a failure. The outcome itself comes along as it is.
pub proof fn lemma_result_holds_the_answer(outcome: JsonTree, answer: Seq<char>)
    requires
        outcome.text_at("kind"@) != Some("err"@) && outcome.text_at("text"@) == Some(answer) || (
        outcome.text_at("kind"@) == Some("err"@) && outcome.text_at("message"@) == Some(answer)),
    ensures
        tool_result(outcome).get("content"@) matches Some(JsonTree::List(parts)) && parts.len() == 1
            && parts[0].text_at("type"@) == Some("text"@) && parts[0].text_at("text"@) == Some(
            answer,
        ),
        tool_result(outcome).get("isError"@) == Some(
            JsonTree::Bool(outcome.text_at("kind"@) == Some("err"@)),
        ),
        tool_result(outcome).get("structuredContent"@) == Some(outcome),
{
    lemma_tool_result_parts(outcome, answer);
}

/// A failure without a message is said to be one, and a success without a text
/// says nothing.
pub proof fn lemma_result_without_answer(outcome: JsonTree)
    ensures
        ({
            let failed = outcome.text_at("kind"@) == Some("err"@);
            (failed ==> outcome.text_at("message"@) is None) && (!failed ==> outcome.text_at(
                "text"@,
            ) is None) ==> (tool_result(outcome).get("content"@) matches Some(
                JsonTree::List(parts),
            ) && parts.len() == 1 && parts[0].text_at("text"@) == Some(
                if failed {
                    "delegation failed"@
                } else {
                    Seq::empty()
                },
            ))
        }),
{
    let text = if outcome.text_at("kind"@) == Some("err"@) {
        match outcome.text_at("message"@) {
            Some(s) => s,
            None => "delegation failed"@,
        }
    } else {
        match outcome.text_at("text"@) {
            Some(s) => s,
            None => Seq::empty(),
        }
    };
    lemma_tool_result_parts(outcome, text);
}

/// A call that ended is answered under its own identifier with what the broker
/// replied, or with the reason why it could not be reached; one that was cancelled
/// is not answered.
pub proof fn lemma_end_answers_the_call(
    answer: Option<JsonRpcResponse>,
    id: JsonTree,
    end: RoundTrip,
)
    requires
        closes_call(answer, id, end),
    ensures
        answer is None <==> end is Canceled,
        answer matches Some(r) ==> r.id@ == id && r.jsonrpc@ == "2.0"@,
        end matches RoundTrip::Replied(outcome) ==> answer->0.error is None
            && answer->0.result is Some && answer->0.result->0@.get("structuredContent"@) == Some(
            outcome@,
        ) && (outcome@.text_at("kind"@) != Some("err"@) && outcome@.text_at("text"@) is Some ==> (
        answer->0.result->0@.get("content"@) matches Some(JsonTree::List(parts)) && parts.len() == 1
            && parts[0].text_at("text"@) == outcome@.text_at("text"@))),
        end matches RoundTrip::Failed(e) ==> answer->0.result is None && answer->0.error is Some
            && answer->0.error->0.code == -32603 && answer->0.error->0.message@
            == "broker round-trip failed: "@ + e@,
{
    match end {
        RoundTrip::Replied(outcome) => {
            let text = if outcome@.text_at("kind"@) == Some("err"@) {
                match outcome@.text_at("message"@) {
                    Some(s) => s,
                    None => "delegation failed"@,
                }
            } else {
                match outcome@.text_at("text"@) {
                    Some(s) => s,
                    None => Seq::empty(),
                }
            };
            lemma_tool_result_parts(outcome@, text);
        },
        _ => {},
    }
}

proof fn lemma_methods_differ()
    ensures
        "initialize"@ != "tools/call"@,
        "initialize"@ != "tools/list"@,
        "tools/list"@ != "tools/call"@,
{
    reveal_strlit("initialize");
    reveal_strlit("tools/list");
    reveal_strlit("tools/call");
    assert("initialize"@[0] != "tools/call"@[0]);
    assert("initialize"@[0] != "tools/list"@[0]);
    assert("tools/list"@[6] != "tools/call"@[6]);
}

/// A call of the tool goes to the broker as it came: with the companion's token and
/// connection, the tool use that the call names, its arguments unchanged, and the
/// handle under which it is then in flight. All other calls stay in flight.
pub proof fn lemma_call_goes_to_broker<C>(
    action: LineAction,
    cancel: Option<PendingCancel<C>>,
    after: Map<Seq<char>, Call<C>>,
    before: Map<Seq<char>, Call<C>>,
    ctx: CompanionContext,
    version: Seq<char>,
    request: JsonRpcRequest,
    waker: C,
    handle: Seq<char>,
    other: Seq<char>,
)
    requires
        dispatched(action, cancel, after, before, ctx, version, Ok(request), waker, handle),
        request.id is Some,
        request.method@ == "tools/call"@,
        request.params@.text_at("name"@) == Some("delegate_to_agent"@),
    ensures
        cancel is None,
        action matches LineAction::Spawn(call) && call.request_id@ == request.id->0@
            && call.request_id_key@ == written(request.id->0@) && call.request.token@ == ctx.token@
            && call.request.parent_connection_id@ == ctx.parent_connection_id@ && (
        call.request.external_handle matches Some(h) && h@ == handle) && after.dom().contains(
            call.request_id_key@,
        ) && after[call.request_id_key@].handle == handle && after[call.request_id_key@].waker
            == waker && (request.params@.get("arguments"@) matches Some(arguments)
            ==> call.request.input@ == arguments) && (request.params@.get("arguments"@) is None
            ==> call.request.input@ == JsonTree::Null) && (request.params@.get(
            "_meta"@,
        ) matches Some(meta) ==> (meta.text_at("tool_use_id"@) matches Some(tool_use)
            ==> call.request.parent_tool_use_id@ == tool_use)),
        other != written(request.id->0@) ==> after.dom().contains(other) == before.dom().contains(
            other,
        ) && (before.dom().contains(other) ==> after[other] == before[other]),
{
    lemma_methods_differ();
}

/// What the companion does not do it says: a line that is no request, a method and
/// a tool that it does not have are each refused with a code and words of their
/// own, and nothing changes.
pub proof fn lemma_refusals<C>(
    action: LineAction,
    cancel: Option<PendingCancel<C>>,
    after: Map<Seq<char>, Call<C>>,
    before: Map<Seq<char>, Call<C>>,
    ctx: CompanionContext,
    version: Seq<char>,
    line: Result<JsonRpcRequest, String>,
    waker: C,
    handle: Seq<char>,
)
    requires
        dispatched(action, cancel, after, before, ctx, version, line, waker, handle),
        match line {
            Err(_) => true,
            Ok(request) => request.id is Some && request.method@ != "initialize"@ && request.method@
                != "tools/list"@ && (request.method@ == "tools/call"@
                ==> request.params@.text_at("name"@) != Some("delegate_to_agent"@)),
        },
    ensures
        cancel is None,
        after == before,
        action matches LineAction::Respond(r) && r.jsonrpc@ == "2.0"@ && r.result is None && (
        r.error matches Some(e) && match line {
            Err(why) => r.id@ == JsonTree::Null && e.code == -32700 && e.message@ == "parse error: "@
                + why@,
            Ok(request) => r.id@ == request.id->0@ && if request.method@ == "tools/call"@ {
                e.code == -32602 && (request.params@.text_at("name"@) matches Some(name)
                    ==> e.message@ == "unknown tool: "@ + name)
            } else {
                e.code == -32601 && e.message@ == "method not found: "@ + request.method@
            },
        }),
{
    reveal_strlit("delegate_to_agent");
    assert("delegate_to_agent"@.len() == 17);
}

/// The companion introduces itself by name and version, with tools, and lists one
/// tool: that of its schema.
pub proof fn lemma_introduction<C>(
    action: LineAction,
    cancel: Option<PendingCancel<C>>,
    after: Map<Seq<char>, Call<C>>,
    before: Map<Seq<char>, Call<C>>,
    ctx: CompanionContext,
    version: Seq<char>,
    request: JsonRpcRequest,
    waker: C,
    handle: Seq<char>,
)
    requires
        dispatched(action, cancel, after, before, ctx, version, Ok(request), waker, handle),
        request.id is Some,
        request.method@ == "initialize"@ || request.method@ == "tools/list"@,
    ensures
        cancel is None,
        after == before,
        action matches LineAction::Respond(r) && r.id@ == request.id->0@ && r.jsonrpc@ == "2.0"@,
        request.method@ == "initialize"@ ==> ({
            let result = action->Respond_0.result->0@;
            &&& action->Respond_0.result is Some
            &&& action->Respond_0.error is None
            &&& result.text_at("protocolVersion"@) == Some("2024-11-05"@)
            &&& result.get("serverInfo"@) matches Some(info)
            &&& info.text_at("name"@) == Some("codeg-mcp"@)
            &&& info.text_at("version"@) == Some(version)
            &&& result.get("capabilities"@) matches Some(capabilities)
            &&& capabilities.get("tools"@) is Some
        }),
        request.method@ == "tools/list"@ ==> (parsed(TOOL_SCHEMA_JSON@) matches Ok(tool)
            ==> action->Respond_0.error is None && (action->Respond_0.result matches Some(result)
            && (result@.get("tools"@) matches Some(JsonTree::List(tools)) && tools.len() == 1
            && tools[0] == tool))),
{
    lemma_methods_differ();
    reveal_strlit("protocolVersion");
    reveal_strlit("serverInfo");
    reveal_strlit("capabilities");
    reveal_strlit("name");
    reveal_strlit("version");
    assert("protocolVersion"@.len() == 15);
    assert("serverInfo"@.len() == 10);
    assert("capabilities"@.len() == 12);
    assert("name"@.len() == 4);
    assert("version"@.len() == 7);
    reveal_with_fuel(last_wins, 4);
}

/// A cancellation of a call in flight wakes that call, and tells the broker to
/// cancel it under its own handle, with the companion's token and the reason that
/// was given. Other calls stay in flight.
pub proof fn lemma_cancellation_names_the_call<C>(
    action: LineAction,
    cancel: Option<PendingCancel<C>>,
    after: Map<Seq<char>, Call<C>>,
    before: Map<Seq<char>, Call<C>>,
    ctx: CompanionContext,
    version: Seq<char>,
    cancellation: JsonRpcRequest,
    id: JsonTree,
    waker: C,
    handle: Seq<char>,
    other: Seq<char>,
)
    requires
        is_cancellation(cancellation, id),
        dispatched(action, cancel, after, before, ctx, version, Ok(cancellation), waker, handle),
    ensures
        action == LineAction::Silent,
        cancel is Some <==> before.dom().contains(written(id)),
        cancel matches Some(c) ==> c.cancel_tx == before[written(id)].waker
            && c.request.external_handle@ == before[written(id)].handle && c.request.token@
            == ctx.token@ && opt_string(c.request.reason) == cancellation.params@.text_at(
            "reason"@,
        ),
        !after.dom().contains(written(id)),
        other != written(id) ==> after.dom().contains(other) == before.dom().contains(other) && (
        before.dom().contains(other) ==> after[other] == before[other]),
{
}

/// When the companion ends, every call in flight is woken and cancelled at the
/// broker under its own handle, with the companion's token and the reason.
pub proof fn lemma_end_cancels_every_call<C>(
    calls: InflightCalls<C>,
    cancels: Seq<PendingCancel<C>>,
    ctx: CompanionContext,
    reason: Seq<char>,
    key: Seq<char>,
)
    requires
        calls.wf(),
        calls@.dom().contains(key),
        cancels_each(cancels, calls.in_order(), ctx, reason),
    ensures
        exists|i: int|
            0 <= i < cancels.len() && (#[trigger] cancels[i]).cancel_tx == calls@[key].waker
                && cancels[i].request.external_handle@ == calls@[key].handle
                && cancels[i].request.token@ == ctx.token@ && opt_string(cancels[i].request.reason)
                == Some(reason),
        cancels.len() == calls.pairs().len(),
{
    lemma_drain_reaches_every_call(calls, key);
    let i = choose|i: int|
        0 <= i < calls.in_order().len() && calls.in_order()[i] == calls@[key];
    assert(cancels[i].cancel_tx == calls@[key].waker);
}

/// A notification that is no cancellation changes nothing, and neither does a
/// cancellation that names no call.
pub proof fn lemma_other_notifications_are_ignored<C>(
    action: LineAction,
    cancel: Option<PendingCancel<C>>,
    after: Map<Seq<char>, Call<C>>,
    before: Map<Seq<char>, Call<C>>,
    ctx: CompanionContext,
    version: Seq<char>,
    request: JsonRpcRequest,
    waker: C,
    handle: Seq<char>,
)
    requires
        dispatched(action, cancel, after, before, ctx, version, Ok(request), waker, handle),
        request.id is None,
        request.method@ != "notifications/cancelled"@ || request.params@.get("requestId"@) is None,
    ensures
        action == LineAction::Silent,
        cancel is None,
        after == before,
{
}

/// A call in flight is its handle and what wakes it.
pub proof fn lemma_call_says<C>(entry: InflightEntry<C>)
    ensures
        entry@.handle == entry.external_handle@,
        entry@.waker == entry.cancel_tx,
{
}

} // verus!
