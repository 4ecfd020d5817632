//! The Electrum RPC connection and server as state machines: what to do
//! with each line, each request, each answer of the query layer and each
//! tick, and which peers the server still serves.

use crate::hashlist::same_bytes;
use crate::hexcode::{be_hex, hex_of};
use crate::json::{
    json_as_array, json_as_str, json_clone, json_get, json_is_number, json_model, json_parse,
    json_string, json_text, member, models, parsed, text_of, JsonView,
};
use crate::methods::{
    method_named, method_of, plan, plan_of, unknown_method, unknown_method_message, Call,
    CallView, Method, Plan, Planned,
};
use crate::reply::{
    balance_json, concat_headers, header_fields_json, header_json, headers_hex, headers_json,
    history_json, json_usize, jsonify_balance, jsonify_best_header, jsonify_header,
    jsonify_headers, jsonify_history, jsonify_merkle, jsonify_status, merkle_json, notification,
    notify, number, reply_err, reply_ok, response_err, response_ok, status_json,
    unspent_from_status, unspent_json, HeaderEntry, Status,
};
use crate::text::utf8_text;
use vstd::prelude::*;
use vstd::string::StringExecFns;
use vstd::utf8::{decode_utf8, encode_utf8_decode_utf8, valid_utf8};

verus! {

/// What a connection finds in its inbox.
#[derive(Debug)]
pub enum Message {
    /// One line that the peer sent.
    Request(String),
    /// A tick: something may have changed for the subscriptions.
    PeriodicUpdate,
    /// The connection is to end.
    Done,
}

/// What the server is told.
#[derive(Clone, Copy, Debug, PartialEq, Eq, Structural)]
pub enum Notification {
    /// New chain state may have arrived.
    Periodic,
    /// The server is to stop.
    Exit,
}

/// Why the reader of a connection gives up.
#[derive(Clone, Copy, Debug, PartialEq, Eq, Structural)]
pub enum LineError {
    /// The line starts like a TLS handshake.
    Tls,
    /// The line is not UTF-8.
    InvalidUtf8,
}

/// What the reader does after a line.
#[derive(Clone, Copy, Debug, PartialEq, Eq, Structural)]
pub enum Next {
    /// Read the next line.
    Continue,
    /// The peer has closed: stop without an error.
    Stop,
    /// Stop with an error.
    Fail(LineError),
}

/// What the reader makes of one line: the message for the inbox, and what
/// to do next.
#[derive(Debug)]
pub struct ReaderStep {
    pub message: Message,
    pub next: Next,
}

/// The line starts with the three bytes of a TLS handshake record.
pub open spec fn looks_like_tls(line: Seq<u8>) -> bool {
    line.len() >= 3 && line[0] == 22 && line[1] == 3 && line[2] == 1
}

/// A request as the dispatcher takes it: the name of the method, the
/// parameters and the id.
pub struct RequestView {
    pub method: Seq<char>,
    pub params: Seq<JsonView>,
    pub id: JsonView,
}

/// The request that a JSON document is: an object whose `method` is a
/// string, whose `id` is a number, and whose `params`, where it has any, is
/// an array.
pub open spec fn request_of(cmd: JsonView) -> Option<RequestView> {
    match (member(cmd, "method"@), member(cmd, "id"@)) {
        (Some(JsonView::String(method)), Some(JsonView::Number(n))) => match member(
            cmd,
            "params"@,
        ) {
            None => Some(RequestView { method, params: Seq::empty(), id: JsonView::Number(n) }),
            Some(JsonView::Array(params)) => Some(
                RequestView { method, params, id: JsonView::Number(n) },
            ),
            Some(_) => None,
        },
        _ => None,
    }
}

/// A request that waits for the query layer.
#[derive(Debug)]
pub struct Pending {
    pub id: serde_json::Value,
    pub method: Method,
    pub call: Call,
}

/// What the query layer answered.
#[derive(Debug)]
pub enum Answer {
    /// The best header.
    Header(HeaderEntry),
    /// The headers that the chain has at the heights asked for.
    Headers(Vec<HeaderEntry>),
    /// A result that is JSON already: a fee rate, a histogram, a
    /// transaction.
    Json(serde_json::Value),
    /// The status of a script hash.
    Status { script_hash: Vec<u8>, status: Status },
    /// The id of the transaction that was broadcast.
    Txid(Vec<u8>),
    /// The branch of a merkle proof and the place of the transaction.
    Merkle { merkle: Vec<Vec<u8>>, pos: usize },
    /// The query failed, with this message.
    Failed(String),
}

/// What a request comes to once the query layer has answered: the response
/// for the peer, and whether the connection owes itself a tick.
#[derive(Debug)]
pub struct Finished {
    pub reply: serde_json::Value,
    pub update: bool,
}

/// What the subscriptions of a connection need to know at a tick.
#[derive(Debug)]
pub struct Poll {
    /// Whether the best header is wanted.
    pub header: bool,
    /// The script hashes whose status hashes are wanted, in this order.
    pub script_hashes: Vec<Vec<u8>>,
}

/// Why a connection fails as a whole.
#[derive(Debug)]
pub enum ConnectionError {
    /// The line is no JSON document.
    InvalidJson,
    /// The document is no request; it comes with its text.
    InvalidCommand(String),
}

/// What the dispatcher does with one message.
#[derive(Debug)]
pub enum Turn {
    /// Send this response.
    Reply(serde_json::Value),
    /// Ask the query layer, then `finish`.
    Ask(Pending),
    /// Ask the query layer for what the subscriptions need, then
    /// `update_subscriptions`.
    Poll(Poll),
    /// End the connection.
    Close,
    /// End the connection with an error.
    Fail(ConnectionError),
}

/// What a header entry holds.
pub struct EntryView {
    pub height: usize,
    pub hash: Seq<u8>,
    pub header: Seq<u8>,
}

impl View for HeaderEntry {
    type V = EntryView;

    open spec fn view(&self) -> EntryView {
        EntryView { height: self.height, hash: self.hash@, header: self.header@ }
    }
}

/// One subscription to a script hash: the hash, and the status hash that
/// the peer saw last.
#[derive(Clone, Debug)]
pub struct Subscription {
    pub script_hash: Vec<u8>,
    pub status: Option<Vec<u8>>,
}

/// The bytes that an optional byte vector holds.
pub open spec fn opt_view(bytes: Option<Vec<u8>>) -> Option<Seq<u8>> {
    match bytes {
        Some(b) => Some(b@),
        None => None,
    }
}

/// The subscriptions as pairs of script hash and status hash.
pub open spec fn subscription_views(list: Seq<Subscription>) -> Seq<(Seq<u8>, Option<Seq<u8>>)> {
    Seq::new(list.len(), |i: int| (list[i].script_hash@, opt_view(list[i].status)))
}

/// The subscriptions after a subscription to `script_hash` with the status
/// `status`: the entry of the script hash is replaced where there is one,
/// and a new entry comes last where there is none.
pub open spec fn subscribed(
    subs: Seq<(Seq<u8>, Option<Seq<u8>>)>,
    script_hash: Seq<u8>,
    status: Option<Seq<u8>>,
) -> Seq<(Seq<u8>, Option<Seq<u8>>)> {
    if exists|i: int| 0 <= i < subs.len() && (#[trigger] subs[i]).0 == script_hash {
        Seq::new(
            subs.len(),
            |i: int|
                if subs[i].0 == script_hash {
                    (script_hash, status)
                } else {
                    subs[i]
                },
        )
    } else {
        subs.push((script_hash, status))
    }
}

/// Whether this answer is one that the query layer gives to this call of
/// this method. A failure fits every call.
pub open spec fn fits(method: Method, call: CallView, answer: Answer) -> bool {
    match answer {
        Answer::Failed(_) => true,
        Answer::Header(_) => method == Method::HeadersSubscribe,
        Answer::Headers(entries) => match method {
            Method::BlockHeader => true,
            Method::BlockHeaders => true,
            Method::BlockGetHeader => entries@.len() <= 1 && forall|i: int|
                0 <= i < entries@.len() ==> (#[trigger] entries@[i]).header@.len() == 80,
            _ => false,
        },
        Answer::Json(_) => method == Method::EstimateFee || method == Method::FeeHistogram
            || method == Method::TransactionGet,
        Answer::Status { script_hash, status } => match method {
            Method::AddressGetBalance => true,
            Method::AddressGetHistory => true,
            Method::AddressListunspent => true,
            Method::AddressSubscribe => true,
            Method::ScripthashGetBalance => true,
            Method::ScripthashGetHistory => true,
            Method::ScripthashListunspent => true,
            Method::ScripthashSubscribe => call == (CallView::Status {
                script_hash: script_hash@,
            }),
            _ => false,
        },
        Answer::Txid(_) => method == Method::TransactionBroadcast,
        Answer::Merkle { .. } => method == Method::TransactionGetMerkle,
    }
}

/// The height that a call names, zero for a call that names none.
pub open spec fn call_height(call: CallView) -> usize {
    match call {
        CallView::Headers { start, count } => start,
        CallView::MerkleProof { tx_hash, height } => height,
        _ => 0,
    }
}

/// The result of a request whose call the query layer has answered, or the
/// message of its failure.
pub open spec fn result_of(method: Method, call: CallView, answer: Answer) -> Result<
    JsonView,
    Seq<char>,
> {
    match answer {
        Answer::Failed(message) => Err(
            if method == Method::TransactionGetMerkle {
                "cannot create merkle proof"@
            } else {
                message@
            },
        ),
        Answer::Header(entry) => Ok(header_json(entry)),
        Answer::Headers(entries) => match method {
            Method::BlockHeader => Ok(JsonView::String(headers_hex(entries@))),
            Method::BlockGetHeader => if entries@.len() == 0 {
                Err("missing header #"@ + text_of(number(call_height(call) as int)))
            } else {
                Ok(header_fields_json(entries@.last()))
            },
            _ => Ok(headers_json(entries@)),
        },
        Answer::Json(value) => Ok(json_model(value)),
        Answer::Status { script_hash, status } => match method {
            Method::AddressGetBalance => Ok(balance_json(status)),
            Method::ScripthashGetBalance => Ok(balance_json(status)),
            Method::AddressGetHistory => Ok(history_json(status.history@)),
            Method::ScripthashGetHistory => Ok(history_json(status.history@)),
            Method::AddressListunspent => Ok(unspent_json(status.unspent@)),
            Method::ScripthashListunspent => Ok(unspent_json(status.unspent@)),
            _ => Ok(status_json(opt_view(status.hash))),
        },
        Answer::Txid(txid) => Ok(JsonView::String(hex_of(txid@.reverse()))),
        Answer::Merkle { merkle, pos } => Ok(merkle_json(call_height(call), merkle@, pos)),
    }
}

/// The response that carries a result or the message of a failure.
pub open spec fn response_of(id: JsonView, result: Result<JsonView, Seq<char>>) -> JsonView {
    match result {
        Ok(value) => response_ok(id, value),
        Err(message) => response_err(id, message),
    }
}

/// The notification of a new best header, where the peer subscribed to
/// headers and the best header is not the one it saw last.
pub open spec fn header_notes(last: Option<EntryView>, best: Option<HeaderEntry>) -> Seq<
    JsonView,
> {
    match (last, best) {
        (Some(seen), Some(entry)) => if seen != entry@ {
            seq![notification("blockchain.headers.subscribe"@, seq![header_json(entry)])]
        } else {
            Seq::empty()
        },
        _ => Seq::empty(),
    }
}

/// The notification of a new status of a script hash.
pub open spec fn status_note(script_hash: Seq<u8>, status: Option<Seq<u8>>) -> JsonView {
    notification(
        "blockchain.scripthash.subscribe"@,
        seq![JsonView::String(hex_of(script_hash.reverse())), status_json(status)],
    )
}

/// The notifications of a tick for the subscribed script hashes, in the
/// order of the subscriptions: one for each script hash whose status hash
/// is not the one that the peer saw last, none for the others.
pub open spec fn status_notes(
    subs: Seq<(Seq<u8>, Option<Seq<u8>>)>,
    statuses: Seq<Option<Seq<u8>>>,
) -> Seq<JsonView>
    decreases subs.len(),
{
    if subs.len() == 0 || statuses.len() != subs.len() {
        Seq::empty()
    } else {
        let before = status_notes(subs.drop_last(), statuses.drop_last());
        if subs.last().1 != statuses.last() {
            before.push(status_note(subs.last().0, statuses.last()))
        } else {
            before
        }
    }
}

/// The subscriptions after a tick: each script hash with its new status
/// hash.
pub open spec fn refreshed(
    subs: Seq<(Seq<u8>, Option<Seq<u8>>)>,
    statuses: Seq<Option<Seq<u8>>>,
) -> Seq<(Seq<u8>, Option<Seq<u8>>)> {
    Seq::new(subs.len(), |i: int| (subs[i].0, statuses[i]))
}

/// The status hashes that a list of optional byte vectors holds.
pub open spec fn status_views(statuses: Seq<Option<Vec<u8>>>) -> Seq<Option<Seq<u8>>> {
    Seq::new(statuses.len(), |i: int| opt_view(statuses[i]))
}

/// The state of one connection: the best header that the peer saw last,
/// where it subscribed to headers, and its subscriptions to script hashes.
pub struct Connection {
    last_header_entry: Option<HeaderEntry>,
    status_hashes: Vec<Subscription>,
}

/// Two optional byte strings hold the same.
fn same_status(a: &Option<Vec<u8>>, b: &Option<Vec<u8>>) -> (same: bool)
    ensures
        same == (opt_view(*a) == opt_view(*b)),
{
    match (a, b) {
        (Some(x), Some(y)) => same_bytes(x.as_slice(), y.as_slice()),
        (None, None) => true,
        _ => false,
    }
}

/// Two header entries hold the same.
fn same_entry(a: &HeaderEntry, b: &HeaderEntry) -> (same: bool)
    ensures
        same == (a@ == b@),
{
    a.height == b.height && same_bytes(a.hash.as_slice(), b.hash.as_slice()) && same_bytes(
        a.header.as_slice(),
        b.header.as_slice(),
    )
}

impl Connection {
    /// The best header that the peer saw last; `None` where it has not
    /// subscribed to headers.
    pub closed spec fn last_header(&self) -> Option<EntryView> {
        match self.last_header_entry {
            Some(entry) => Some(entry@),
            None => None,
        }
    }

    /// The subscriptions to script hashes, in the order in which they were
    /// made, each with the status hash that the peer saw last.
    pub closed spec fn subscriptions(&self) -> Seq<(Seq<u8>, Option<Seq<u8>>)> {
        subscription_views(self.status_hashes@)
    }

    /// A connection without subscriptions.
    pub fn new() -> (conn: Connection)
        ensures
            conn.last_header() is None,
            conn.subscriptions() == Seq::<(Seq<u8>, Option<Seq<u8>>)>::empty(),
    {
        let conn = Connection { last_header_entry: None, status_hashes: Vec::new() };
        assert(conn.subscriptions() =~= Seq::<(Seq<u8>, Option<Seq<u8>>)>::empty());
        conn
    }

    /// The number of subscriptions to script hashes.
    pub fn subscription_count(&self) -> (n: usize)
        ensures
            n == self.subscriptions().len(),
    {
        self.status_hashes.len()
    }
}

impl Connection {
    /// What the reader makes of the line `line`, as read up to and with its
    /// newline; an empty line is the end of the stream.
    ///
    /// The end of the stream, a TLS handshake and bytes that are not UTF-8 all
    /// tell the connection that it is done, and only the first without an
    /// error. Every other line becomes a request.
    pub fn handle_requests(line: Vec<u8>) -> (step: ReaderStep)
        ensures
            line@.len() == 0 ==> step.message is Done && step.next == Next::Stop,
            line@.len() > 0 && looks_like_tls(line@) ==> step.message is Done && step.next
                == Next::Fail(LineError::Tls),
            line@.len() > 0 && !looks_like_tls(line@) && !valid_utf8(line@) ==> step.message is Done
                && step.next == Next::Fail(LineError::InvalidUtf8),
            line@.len() > 0 && !looks_like_tls(line@) && valid_utf8(line@) ==> step.next
                == Next::Continue && (step.message matches Message::Request(text) && text@
                == decode_utf8(line@)),
    {
        if line.len() == 0 {
            ReaderStep { message: Message::Done, next: Next::Stop }
        } else if line.len() >= 3 && line[0] == 22 && line[1] == 3 && line[2] == 1 {
            ReaderStep { message: Message::Done, next: Next::Fail(LineError::Tls) }
        } else {
            match utf8_text(line) {
                Some(text) => {
                    proof {
                        encode_utf8_decode_utf8(text@);
                    }
                    ReaderStep { message: Message::Request(text), next: Next::Continue }
                },
                None => ReaderStep { message: Message::Done, next: Next::Fail(LineError::InvalidUtf8) },
            }
        }
    }

    /// The line that carries `value` on the wire: its compact JSON text and a
    /// newline.
    pub fn wire_line(value: &serde_json::Value) -> (line: String)
        ensures
            line@ == text_of(json_model(*value)) + "\n"@,
    {
        json_text(value).concat("\n")
    }

    /// The lines that carry `values` on the wire, one for each.
    pub fn send_values(values: &Vec<serde_json::Value>) -> (lines: Vec<String>)
        ensures
            lines@.len() == values@.len(),
            forall|i: int|
                0 <= i < values@.len() ==> (#[trigger] lines@[i])@ == text_of(json_model(values@[i]))
                    + "\n"@,
    {
        let mut lines: Vec<String> = Vec::new();
        let mut i: usize = 0;
        while i < values.len()
            invariant
                i <= values@.len(),
                lines@.len() == i,
                forall|k: int|
                    0 <= k < i ==> (#[trigger] lines@[k])@ == text_of(json_model(values@[k])) + "\n"@,
            decreases values@.len() - i,
        {
            lines.push(Connection::wire_line(&values[i]));
            i = i + 1;
        }
        lines
    }
}

/// `turn` is what the request with this method name, these parameters and
/// this id comes to: the response at once where the method is not known,
/// fails on its parameters or needs no query, and the pending call
/// otherwise.
pub open spec fn is_turn_for(
    turn: Turn,
    name: Seq<char>,
    params: Seq<JsonView>,
    id: JsonView,
) -> bool {
    match method_named(name) {
        None => turn matches Turn::Reply(reply) && json_model(reply) == response_err(
            id,
            unknown_method(name, params),
        ),
        Some(method) => match plan_of(method, params) {
            Plan::Reply(result) => turn matches Turn::Reply(reply) && json_model(reply)
                == response_ok(id, result),
            Plan::Refuse(message) => turn matches Turn::Reply(reply) && json_model(reply)
                == response_err(id, message),
            Plan::Ask(call) => turn matches Turn::Ask(pending) && pending.method == method
                && pending.call@ == call && json_model(pending.id) == id,
        },
    }
}

/// `turn` is what the message `msg` comes to for a connection that wants
/// `poll` at a tick.
pub open spec fn is_turn_of(turn: Turn, msg: Message, header: bool, hashes: Seq<Seq<u8>>) -> bool {
    match msg {
        Message::Done => turn is Close,
        Message::PeriodicUpdate => turn matches Turn::Poll(poll) && poll.header == header
            && crate::hashlist::views(poll.script_hashes@) == hashes,
        Message::Request(line) => match parsed(line@) {
            None => turn matches Turn::Fail(ConnectionError::InvalidJson),
            Some(cmd) => match request_of(cmd) {
                None => turn matches Turn::Fail(ConnectionError::InvalidCommand(text)) && text@
                    == text_of(cmd),
                Some(request) => is_turn_for(turn, request.method, request.params, request.id),
            },
        },
    }
}

/// The script hashes of the subscriptions, in order.
pub open spec fn subscribed_hashes(subs: Seq<(Seq<u8>, Option<Seq<u8>>)>) -> Seq<Seq<u8>> {
    Seq::new(subs.len(), |i: int| subs[i].0)
}

/// The height that a call names, zero for a call that names none.
fn height_named(call: &Call) -> (height: usize)
    ensures
        height == call_height(call@),
{
    match call {
        Call::Headers { start, count } => *start,
        Call::MerkleProof { tx_hash, height } => *height,
        _ => 0,
    }
}

/// A copy of an optional byte vector.
fn copy_status(status: &Option<Vec<u8>>) -> (copy: Option<Vec<u8>>)
    ensures
        opt_view(copy) == opt_view(*status),
{
    match status {
        Some(bytes) => Some(bytes.clone()),
        None => None,
    }
}

impl ConnectionError {
    /// The words of the error.
    pub fn message(&self) -> (text: String)
        ensures
            text@ == match *self {
                ConnectionError::InvalidJson => "invalid JSON format"@,
                ConnectionError::InvalidCommand(cmd) => "invalid command: "@ + cmd@,
            },
    {
        match self {
            ConnectionError::InvalidJson => "invalid JSON format".to_owned(),
            ConnectionError::InvalidCommand(cmd) => "invalid command: ".to_owned().concat(
                cmd.as_str(),
            ),
        }
    }
}

impl Connection {
    /// Dispatches one request: finds its method, reads its parameters, and
    /// either answers at once or names the call that the query layer is to
    /// answer first.
    ///
    /// A method that is not known and parameters that do not fit fail the
    /// request, not the connection: the response carries the message.
    pub fn handle_command(
        &self,
        method: &str,
        params: &Vec<serde_json::Value>,
        id: &serde_json::Value,
    ) -> (turn: Turn)
        ensures
            is_turn_for(turn, method@, models(params@), json_model(*id)),
    {
        match method_of(method) {
            None => {
                let message = unknown_method_message(method, params);
                Turn::Reply(reply_err(json_clone(id), message.as_str()))
            },
            Some(known) => match plan(known, params) {
                Ok(Planned::Ready(result)) => Turn::Reply(reply_ok(json_clone(id), result)),
                Ok(Planned::Ask(call)) => Turn::Ask(
                    Pending { id: json_clone(id), method: known, call },
                ),
                Err(message) => Turn::Reply(reply_err(json_clone(id), message.as_str())),
            },
        }
    }

    /// What the subscriptions need to know at a tick.
    pub fn poll(&self) -> (poll: Poll)
        ensures
            poll.header == self.last_header() is Some,
            crate::hashlist::views(poll.script_hashes@) == subscribed_hashes(self.subscriptions()),
    {
        let mut script_hashes: Vec<Vec<u8>> = Vec::new();
        let mut i: usize = 0;
        while i < self.status_hashes.len()
            invariant
                i <= self.status_hashes@.len(),
                script_hashes@.len() == i,
                forall|k: int|
                    0 <= k < i ==> (#[trigger] script_hashes@[k])@
                        == self.status_hashes@[k].script_hash@,
            decreases self.status_hashes@.len() - i,
        {
            script_hashes.push(self.status_hashes[i].script_hash.clone());
            i = i + 1;
        }
        assert(crate::hashlist::views(script_hashes@) =~= subscribed_hashes(self.subscriptions()));
        Poll { header: self.last_header_entry.is_some(), script_hashes }
    }

    /// Takes one message from the inbox and says what to do with it.
    ///
    /// A line that is no JSON document, or a document that is no request,
    /// fails the connection. A request is dispatched. A tick asks for what
    /// the subscriptions need. `Done` ends the connection.
    pub fn handle_replies(&self, msg: Message) -> (turn: Turn)
        ensures
            is_turn_of(
                turn,
                msg,
                self.last_header() is Some,
                subscribed_hashes(self.subscriptions()),
            ),
    {
        match msg {
            Message::Done => Turn::Close,
            Message::PeriodicUpdate => Turn::Poll(self.poll()),
            Message::Request(line) => {
                let cmd = match json_parse(line.as_str()) {
                    None => {
                        return Turn::Fail(ConnectionError::InvalidJson);
                    },
                    Some(cmd) => cmd,
                };
                let name = match json_get(&cmd, "method") {
                    None => None,
                    Some(value) => json_as_str(value),
                };
                let id = match json_get(&cmd, "id") {
                    None => None,
                    Some(value) => if json_is_number(value) {
                        Some(value)
                    } else {
                        None
                    },
                };
                match (name, id) {
                    (Some(name), Some(id)) => match json_get(&cmd, "params") {
                        None => {
                            let none: Vec<serde_json::Value> = Vec::new();
                            assert(models(none@) =~= Seq::<JsonView>::empty());
                            self.handle_command(name, &none, id)
                        },
                        Some(value) => match json_as_array(value) {
                            Some(params) => self.handle_command(name, params, id),
                            None => Turn::Fail(ConnectionError::InvalidCommand(json_text(&cmd))),
                        },
                    },
                    _ => Turn::Fail(ConnectionError::InvalidCommand(json_text(&cmd))),
                }
            },
        }
    }

    /// Records a subscription to a script hash with the status hash that
    /// the peer is about to see.
    fn subscribe(&mut self, script_hash: &Vec<u8>, status: &Option<Vec<u8>>)
        ensures
            final(self).last_header() == old(self).last_header(),
            final(self).subscriptions() == subscribed(
                old(self).subscriptions(),
                script_hash@,
                opt_view(*status),
            ),
    {
        let ghost before = self.subscriptions();
        let ghost list = self.status_hashes@;
        let mut found = false;
        let mut i: usize = 0;
        while i < self.status_hashes.len()
            invariant
                i <= self.status_hashes@.len(),
                self.last_header() == old(self).last_header(),
                self.status_hashes@.len() == list.len(),
                found == exists|k: int|
                    0 <= k < i && (#[trigger] list[k]).script_hash@ == script_hash@,
                forall|k: int|
                    0 <= k < list.len() ==> (#[trigger] self.status_hashes@[k]).script_hash@
                        == list[k].script_hash@,
                forall|k: int|
                    0 <= k < list.len() ==> opt_view((#[trigger] self.status_hashes@[k]).status)
                        == if k < i && list[k].script_hash@ == script_hash@ {
                        opt_view(*status)
                    } else {
                        opt_view(list[k].status)
                    },
            decreases self.status_hashes@.len() - i,
        {
            if same_bytes(self.status_hashes[i].script_hash.as_slice(), script_hash.as_slice()) {
                let entry = Subscription {
                    script_hash: script_hash.clone(),
                    status: copy_status(status),
                };
                self.status_hashes.set(i, entry);
                found = true;
                assert(list[i as int].script_hash@ == script_hash@);
            }
            i = i + 1;
        }
        if !found {
            let entry = Subscription {
                script_hash: script_hash.clone(),
                status: copy_status(status),
            };
            self.status_hashes.push(entry);
        }
        proof {
            let after = self.subscriptions();
            let target = subscribed(before, script_hash@, opt_view(*status));
            if found {
                let k = choose|k: int|
                    0 <= k < list.len() && (#[trigger] list[k]).script_hash@ == script_hash@;
                assert(before[k].0 == script_hash@);
                assert(after.len() == target.len());
                assert forall|k: int| 0 <= k < after.len() implies after[k] == target[k] by {
                    assert(self.status_hashes@[k].script_hash@ == list[k].script_hash@);
                }
            } else {
                assert forall|k: int| 0 <= k < before.len() implies (#[trigger] before[k]).0
                    != script_hash@ by {
                    assert(list[k].script_hash@ != script_hash@);
                }
                assert(after.len() == target.len());
                assert forall|k: int| 0 <= k < after.len() implies after[k] == target[k] by {
                    if k < list.len() {
                        assert(self.status_hashes@[k].script_hash@ == list[k].script_hash@);
                    }
                }
            }
        }
        assert(self.subscriptions() =~= subscribed(before, script_hash@, opt_view(*status)));
    }
}

/// Whether a request with this method, answered so, leaves a subscription
/// to headers behind.
pub open spec fn subscribes_to_headers(method: Method, answer: Answer) -> bool {
    method == Method::HeadersSubscribe && answer is Header
}

/// Whether a request with this method, answered so, leaves a subscription
/// to a script hash behind.
pub open spec fn subscribes_to_script(method: Method, answer: Answer) -> bool {
    (method == Method::ScripthashSubscribe || method == Method::AddressSubscribe)
        && answer is Status
}

impl Connection {
    /// Whether `answer` is one that the query layer gives to the call of
    /// `pending`.
    pub fn accepts(pending: &Pending, answer: &Answer) -> (yes: bool)
        ensures
            yes == fits(pending.method, pending.call@, *answer),
    {
        match answer {
            Answer::Failed(_) => true,
            Answer::Header(_) => matches!(pending.method, Method::HeadersSubscribe),
            Answer::Headers(entries) => match pending.method {
                Method::BlockHeader => true,
                Method::BlockHeaders => true,
                Method::BlockGetHeader => {
                    if entries.len() == 0 {
                        true
                    } else if entries.len() == 1 {
                        entries[0].header.len() == 80
                    } else {
                        false
                    }
                },
                _ => false,
            },
            Answer::Json(_) => match pending.method {
                Method::EstimateFee => true,
                Method::FeeHistogram => true,
                Method::TransactionGet => true,
                _ => false,
            },
            Answer::Status { script_hash, status } => match pending.method {
                Method::AddressGetBalance => true,
                Method::AddressGetHistory => true,
                Method::AddressListunspent => true,
                Method::AddressSubscribe => true,
                Method::ScripthashGetBalance => true,
                Method::ScripthashGetHistory => true,
                Method::ScripthashListunspent => true,
                Method::ScripthashSubscribe => match &pending.call {
                    Call::Status { script_hash: asked } => same_bytes(
                        asked.as_slice(),
                        script_hash.as_slice(),
                    ),
                    _ => false,
                },
                _ => false,
            },
            Answer::Txid(_) => matches!(pending.method, Method::TransactionBroadcast),
            Answer::Merkle { .. } => matches!(pending.method, Method::TransactionGetMerkle),
        }
    }

    /// Completes a request with the answer of the query layer: shapes the
    /// result, records the subscription that the request made, and builds
    /// the response under the id of the request.
    ///
    /// A failure of the query layer fails the request with its message. A
    /// transaction that was broadcast owes the connection a tick.
    pub fn finish(&mut self, pending: Pending, answer: Answer) -> (done: Finished)
        requires
            fits(pending.method, pending.call@, answer),
        ensures
            json_model(done.reply) == response_of(
                json_model(pending.id),
                result_of(pending.method, pending.call@, answer),
            ),
            done.update == (pending.method == Method::TransactionBroadcast && answer is Txid),
            final(self).last_header() == if subscribes_to_headers(pending.method, answer) {
                Some(answer->Header_0@)
            } else {
                old(self).last_header()
            },
            final(self).subscriptions() == if subscribes_to_script(pending.method, answer) {
                subscribed(
                    old(self).subscriptions(),
                    answer->Status_script_hash@,
                    opt_view(answer->Status_status.hash),
                )
            } else {
                old(self).subscriptions()
            },
    {
        let Pending { id, method, call } = pending;
        let mut update = false;
        let result: Result<serde_json::Value, String> = match answer {
            Answer::Failed(message) => {
                if matches!(method, Method::TransactionGetMerkle) {
                    Err("cannot create merkle proof".to_owned())
                } else {
                    Err(message)
                }
            },
            Answer::Header(entry) => {
                let shown = jsonify_best_header(&entry);
                self.last_header_entry = Some(entry);
                Ok(shown)
            },
            Answer::Headers(entries) => match method {
                Method::BlockHeader => {
                    let hex = concat_headers(&entries);
                    Ok(json_string(hex.as_str()))
                },
                Method::BlockGetHeader => {
                    if entries.len() == 0 {
                        let shown = json_text(&json_usize(height_named(&call)));
                        Err("missing header #".to_owned().concat(shown.as_str()))
                    } else {
                        assert(entries@.last() == entries@[0]);
                        Ok(jsonify_header(&entries[0]))
                    }
                },
                _ => Ok(jsonify_headers(&entries)),
            },
            Answer::Json(value) => Ok(value),
            Answer::Status { script_hash, status } => match method {
                Method::AddressGetBalance => Ok(jsonify_balance(&status)),
                Method::ScripthashGetBalance => Ok(jsonify_balance(&status)),
                Method::AddressGetHistory => Ok(jsonify_history(&status.history)),
                Method::ScripthashGetHistory => Ok(jsonify_history(&status.history)),
                Method::AddressListunspent => Ok(unspent_from_status(&status)),
                Method::ScripthashListunspent => Ok(unspent_from_status(&status)),
                _ => {
                    self.subscribe(&script_hash, &status.hash);
                    Ok(jsonify_status(&status.hash))
                },
            },
            Answer::Txid(txid) => {
                update = true;
                let hex = be_hex(txid.as_slice());
                Ok(json_string(hex.as_str()))
            },
            Answer::Merkle { merkle, pos } => Ok(jsonify_merkle(height_named(&call), &merkle, pos)),
        };
        let reply = match result {
            Ok(value) => reply_ok(id, value),
            Err(message) => reply_err(id, message.as_str()),
        };
        Finished { reply, update }
    }

    /// Brings the subscriptions up to date at a tick and builds the
    /// notifications that the peer is owed.
    ///
    /// `best` is the best header, wanted where the peer subscribed to
    /// headers; `statuses` are the status hashes of the subscribed script
    /// hashes, in the order of `poll`. The peer hears of the best header
    /// where it is not the one it saw last, and of each script hash whose
    /// status hash is not the one it saw last, and of nothing else.
    pub fn update_subscriptions(
        &mut self,
        best: Option<HeaderEntry>,
        statuses: Vec<Option<Vec<u8>>>,
    ) -> (notes: Vec<serde_json::Value>)
        requires
            statuses@.len() == old(self).subscriptions().len(),
            old(self).last_header() is Some ==> best is Some,
        ensures
            models(notes@) == header_notes(old(self).last_header(), best) + status_notes(
                old(self).subscriptions(),
                status_views(statuses@),
            ),
            final(self).last_header() == if old(self).last_header() is Some {
                Some(best->Some_0@)
            } else {
                None
            },
            final(self).subscriptions() == refreshed(
                old(self).subscriptions(),
                status_views(statuses@),
            ),
    {
        let ghost subs = self.subscriptions();
        let ghost list = self.status_hashes@;
        let ghost news = status_views(statuses@);
        let ghost first = header_notes(self.last_header(), best);
        let mut notes: Vec<serde_json::Value> = Vec::new();
        if self.last_header_entry.is_some() {
            match best {
                None => {},
                Some(entry) => {
                    let changed = match &self.last_header_entry {
                        Some(seen) => !same_entry(seen, &entry),
                        None => false,
                    };
                    if changed {
                        let mut params: Vec<serde_json::Value> = Vec::new();
                        params.push(jsonify_best_header(&entry));
                        assert(models(params@) =~= seq![header_json(entry)]);
                        notes.push(notify("blockchain.headers.subscribe", params));
                    }
                    self.last_header_entry = Some(entry);
                },
            }
        }
        assert(models(notes@) =~= first);
        let mut i: usize = 0;
        while i < self.status_hashes.len()
            invariant
                i <= list.len(),
                statuses@.len() == list.len(),
                subs == subscription_views(list),
                news == status_views(statuses@),
                self.status_hashes@.len() == list.len(),
                self.last_header() == if old(self).last_header() is Some {
                    Some(best->Some_0@)
                } else {
                    None
                },
                models(notes@) == first + status_notes(
                    subs.subrange(0, i as int),
                    news.subrange(0, i as int),
                ),
                forall|k: int|
                    0 <= k < list.len() ==> (#[trigger] self.status_hashes@[k]).script_hash@
                        == list[k].script_hash@,
                forall|k: int|
                    0 <= k < list.len() ==> opt_view((#[trigger] self.status_hashes@[k]).status)
                        == if k < i {
                        opt_view(statuses@[k])
                    } else {
                        opt_view(list[k].status)
                    },
            decreases list.len() - i,
        {
            let ghost sofar = models(notes@);
            proof {
                assert(subs.subrange(0, i + 1).drop_last() =~= subs.subrange(0, i as int));
                assert(news.subrange(0, i + 1).drop_last() =~= news.subrange(0, i as int));
                assert(subs.subrange(0, i + 1).last() == subs[i as int]);
                assert(news.subrange(0, i + 1).last() == news[i as int]);
            }
            if !same_status(&self.status_hashes[i].status, &statuses[i]) {
                let mut params: Vec<serde_json::Value> = Vec::new();
                let shown = be_hex(self.status_hashes[i].script_hash.as_slice());
                params.push(json_string(shown.as_str()));
                params.push(jsonify_status(&statuses[i]));
                assert(models(params@) =~= seq![
                    JsonView::String(hex_of(subs[i as int].0.reverse())),
                    status_json(news[i as int]),
                ]);
                notes.push(notify("blockchain.scripthash.subscribe", params));
                let entry = Subscription {
                    script_hash: self.status_hashes[i].script_hash.clone(),
                    status: copy_status(&statuses[i]),
                };
                self.status_hashes.set(i, entry);
                assert(models(notes@) =~= sofar.push(status_note(subs[i as int].0, news[i as int])));
            }
            proof {
                let a = status_notes(subs.subrange(0, i as int), news.subrange(0, i as int));
                let b = status_notes(subs.subrange(0, i + 1), news.subrange(0, i + 1));
                if subs[i as int].1 != news[i as int] {
                    assert(first + b =~= (first + a).push(
                        status_note(subs[i as int].0, news[i as int]),
                    ));
                }
            }
            i = i + 1;
        }
        proof {
            assert(subs.subrange(0, i as int) =~= subs);
            assert(news.subrange(0, i as int) =~= news);
            assert(self.subscriptions() =~= refreshed(subs, news));
        }
        notes
    }
}

/// What became of a tick that was handed to the inbox of a peer without
/// waiting.
#[derive(Clone, Copy, Debug, PartialEq, Eq, Structural)]
pub enum SendOutcome {
    /// The tick is in the inbox.
    Sent,
    /// The inbox is full: the tick is dropped, the peer stays.
    Full,
    /// The peer is gone.
    Disconnected,
}

/// What the server does when it stops: the peers that are told `Done`, and
/// the workers that are joined, each in the order in which they came.
#[derive(Debug)]
pub struct Shutdown {
    pub done: Vec<u64>,
    pub join: Vec<u64>,
}

/// The peers that stay registered after a tick: those whose inbox did not
/// report that the peer is gone, in their order.
pub open spec fn kept(senders: Seq<u64>, outcomes: Seq<SendOutcome>) -> Seq<u64>
    decreases senders.len(),
{
    if senders.len() == 0 || outcomes.len() != senders.len() {
        Seq::empty()
    } else {
        let before = kept(senders.drop_last(), outcomes.drop_last());
        if outcomes.last() == SendOutcome::Disconnected {
            before
        } else {
            before.push(senders.last())
        }
    }
}

/// The registry of the server: the peers whose inboxes take ticks, the
/// workers that were started, and whether new peers are still taken.
pub struct RPC {
    senders: Vec<u64>,
    children: Vec<u64>,
    accepting: bool,
}

impl RPC {
    /// The peers whose inboxes take ticks, in the order in which they
    /// registered.
    pub closed spec fn senders(&self) -> Seq<u64> {
        self.senders@
    }

    /// The workers that were started and not joined yet.
    pub closed spec fn children(&self) -> Seq<u64> {
        self.children@
    }

    /// Whether the server still takes new peers.
    pub closed spec fn accepting(&self) -> bool {
        self.accepting
    }

    /// A server that takes peers and has none yet.
    pub fn start() -> (rpc: RPC)
        ensures
            rpc.accepting(),
            rpc.senders() == Seq::<u64>::empty(),
            rpc.children() == Seq::<u64>::empty(),
    {
        RPC { senders: Vec::new(), children: Vec::new(), accepting: true }
    }

    /// The tick that the server is told when new chain state may have
    /// arrived.
    pub fn notify(&self) -> (msg: Notification)
        ensures
            msg == Notification::Periodic,
    {
        Notification::Periodic
    }

    /// Takes a peer that has connected: its worker is started and its
    /// inbox registered. A server that has stopped takes none.
    pub fn connect(&mut self, peer: u64) -> (taken: bool)
        ensures
            taken == old(self).accepting(),
            final(self).accepting() == old(self).accepting(),
            final(self).senders() == if taken {
                old(self).senders().push(peer)
            } else {
                old(self).senders()
            },
            final(self).children() == if taken {
                old(self).children().push(peer)
            } else {
                old(self).children()
            },
    {
        if self.accepting {
            self.senders.push(peer);
            self.children.push(peer);
            true
        } else {
            false
        }
    }

    /// The peers to whose inboxes a tick is handed, in order.
    pub fn peers(&self) -> (peers: Vec<u64>)
        ensures
            peers@ == self.senders(),
    {
        self.senders.clone()
    }

    /// Settles a tick: `outcomes` says, for each registered peer in order,
    /// what became of the tick in its inbox. The peers that are gone leave
    /// the registry; a peer whose inbox was full stays and misses the tick.
    pub fn fan_out(&mut self, outcomes: &Vec<SendOutcome>)
        requires
            outcomes@.len() == old(self).senders().len(),
        ensures
            final(self).senders() == kept(old(self).senders(), outcomes@),
            final(self).children() == old(self).children(),
            final(self).accepting() == old(self).accepting(),
    {
        let mut live: Vec<u64> = Vec::new();
        let mut i: usize = 0;
        while i < self.senders.len()
            invariant
                i <= self.senders@.len(),
                outcomes@.len() == self.senders@.len(),
                self.senders@ == old(self).senders@,
                self.children@ == old(self).children@,
                self.accepting == old(self).accepting,
                live@ == kept(self.senders@.subrange(0, i as int), outcomes@.subrange(0, i as int)),
            decreases self.senders@.len() - i,
        {
            proof {
                assert(self.senders@.subrange(0, i + 1).drop_last() =~= self.senders@.subrange(
                    0,
                    i as int,
                ));
                assert(outcomes@.subrange(0, i + 1).drop_last() =~= outcomes@.subrange(
                    0,
                    i as int,
                ));
            }
            match outcomes[i] {
                SendOutcome::Disconnected => {},
                _ => {
                    live.push(self.senders[i]);
                },
            }
            i = i + 1;
        }
        proof {
            assert(self.senders@.subrange(0, i as int) =~= self.senders@);
            assert(outcomes@.subrange(0, i as int) =~= outcomes@);
        }
        self.senders = live;
    }

    /// Handles what the server is told. A tick asks for the peers to hand
    /// it to; `Exit` stops the server, which then takes no new peers.
    pub fn handle_notification(&mut self, msg: Notification) -> (peers: Vec<u64>)
        ensures
            final(self).senders() == old(self).senders(),
            final(self).children() == old(self).children(),
            final(self).accepting() == (old(self).accepting() && msg == Notification::Periodic),
            peers@ == if msg == Notification::Periodic {
                old(self).senders()
            } else {
                Seq::<u64>::empty()
            },
    {
        match msg {
            Notification::Periodic => self.senders.clone(),
            Notification::Exit => {
                self.accepting = false;
                Vec::new()
            },
        }
    }

    /// Ends the serving: every registered peer is told `Done`, every worker
    /// is joined, and the registry is empty afterwards.
    pub fn shutdown(&mut self) -> (plan: Shutdown)
        ensures
            plan.done@ == old(self).senders(),
            plan.join@ == old(self).children(),
            !final(self).accepting(),
            final(self).senders() == Seq::<u64>::empty(),
            final(self).children() == Seq::<u64>::empty(),
    {
        let mut done: Vec<u64> = Vec::new();
        let mut join: Vec<u64> = Vec::new();
        std::mem::swap(&mut done, &mut self.senders);
        std::mem::swap(&mut join, &mut self.children);
        self.accepting = false;
        Shutdown { done, join }
    }
}

/// A response carries the id of its request, whether the request
/// succeeded or failed.
pub proof fn lemma_response_carries_id(id: JsonView, result: Result<JsonView, Seq<char>>)
    ensures
        member(response_of(id, result), "id"@) == Some(id),
{
    reveal_strlit("jsonrpc");
    reveal_strlit("id");
    reveal_strlit("result");
    reveal_strlit("error");
    assert("jsonrpc"@.len() == 7);
    assert("id"@.len() == 2);
    assert("result"@.len() == 6);
    assert("error"@.len() == 5);
    let members = response_of(id, result)->Object_0;
    assert(members.len() == 3);
    assert(members[1].0 == "id"@);
    let i = choose|i: int| 0 <= i < members.len() && (#[trigger] members[i]).0 == "id"@;
    assert(i == 1);
}

/// Every request gets one response, and the response carries the id of the
/// request: the turn of a request is the response itself, or the call
/// after whose answer `finish` builds it.
pub proof fn lemma_one_response_per_request(
    turn: Turn,
    name: Seq<char>,
    params: Seq<JsonView>,
    id: JsonView,
)
    requires
        is_turn_for(turn, name, params, id),
    ensures
        match turn {
            Turn::Reply(reply) => member(json_model(reply), "id"@) == Some(id),
            Turn::Ask(pending) => json_model(pending.id) == id && forall|answer: Answer|
                member(
                    #[trigger] response_of(
                        json_model(pending.id),
                        result_of(pending.method, pending.call@, answer),
                    ),
                    "id"@,
                ) == Some(id),
            _ => false,
        },
{
    match method_named(name) {
        None => {
            lemma_response_carries_id(id, Err(unknown_method(name, params)));
        },
        Some(method) => match plan_of(method, params) {
            Plan::Reply(result) => {
                lemma_response_carries_id(id, Ok(result));
            },
            Plan::Refuse(message) => {
                lemma_response_carries_id(id, Err(message));
            },
            Plan::Ask(call) => {
                let pending = turn->Ask_0;
                assert forall|answer: Answer|
                    member(
                        #[trigger] response_of(
                            json_model(pending.id),
                            result_of(pending.method, pending.call@, answer),
                        ),
                        "id"@,
                    ) == Some(id) by {
                    lemma_response_carries_id(
                        id,
                        result_of(pending.method, pending.call@, answer),
                    );
                }
            },
        },
    }
}

/// `server.ping` is answered with `null` under the id of the request,
/// whatever its parameters.
pub proof fn lemma_ping(turn: Turn, params: Seq<JsonView>, id: JsonView)
    requires
        is_turn_for(turn, "server.ping"@, params, id),
    ensures
        turn matches Turn::Reply(reply) && json_model(reply) == response_ok(id, JsonView::Null),
{
    crate::methods::lemma_method_names();
}

/// The places of the subscriptions whose status hash is not the one that
/// the peer saw last, in ascending order.
pub open spec fn changed_places(
    subs: Seq<(Seq<u8>, Option<Seq<u8>>)>,
    statuses: Seq<Option<Seq<u8>>>,
) -> Seq<int>
    decreases subs.len(),
{
    if subs.len() == 0 || statuses.len() != subs.len() {
        Seq::empty()
    } else {
        let before = changed_places(subs.drop_last(), statuses.drop_last());
        if subs.last().1 != statuses.last() {
            before.push(subs.len() - 1)
        } else {
            before
        }
    }
}

/// At a tick a script hash whose status hash has not changed is passed
/// over, and one whose status hash has changed gets one notification: the
/// notifications are those of the changed places, one for each, in order.
pub proof fn lemma_one_note_per_change(
    subs: Seq<(Seq<u8>, Option<Seq<u8>>)>,
    statuses: Seq<Option<Seq<u8>>>,
)
    requires
        statuses.len() == subs.len(),
    ensures
        ({
            let places = changed_places(subs, statuses);
            let notes = status_notes(subs, statuses);
            &&& notes.len() == places.len()
            &&& forall|k: int|
                0 <= k < places.len() ==> 0 <= #[trigger] places[k] < subs.len() && subs[places[k]].1
                    != statuses[places[k]] && notes[k] == status_note(
                    subs[places[k]].0,
                    statuses[places[k]],
                )
            &&& forall|j: int, k: int| 0 <= j < k < places.len() ==> places[j] < places[k]
            &&& forall|i: int|
                0 <= i < subs.len() && subs[i].1 != statuses[i] ==> places.contains(i)
        }),
    decreases subs.len(),
{
    if subs.len() > 0 {
        let shorter = subs.drop_last();
        let fewer = statuses.drop_last();
        lemma_one_note_per_change(shorter, fewer);
        let before = changed_places(shorter, fewer);
        let places = changed_places(subs, statuses);
        assert forall|i: int|
            0 <= i < subs.len() && subs[i].1 != statuses[i] implies places.contains(i) by {
            if i < subs.len() - 1 {
                assert(shorter[i].1 != fewer[i]);
                let k = choose|k: int| 0 <= k < before.len() && before[k] == i;
                assert(places[k] == i);
            } else {
                assert(places[places.len() - 1] == i);
            }
        }
    }
}

/// A tick that finds every status hash as the peer saw it last notifies of
/// no script hash.
pub proof fn lemma_unchanged_is_silent(
    subs: Seq<(Seq<u8>, Option<Seq<u8>>)>,
    statuses: Seq<Option<Seq<u8>>>,
)
    requires
        statuses.len() == subs.len(),
        forall|i: int| 0 <= i < subs.len() ==> (#[trigger] subs[i]).1 == statuses[i],
    ensures
        status_notes(subs, statuses) == Seq::<JsonView>::empty(),
    decreases subs.len(),
{
    if subs.len() > 0 {
        assert(subs.last().1 == statuses.last());
        assert forall|i: int| 0 <= i < subs.drop_last().len() implies (#[trigger] subs.drop_last()[i]).1
            == statuses.drop_last()[i] by {
            assert(subs[i].1 == statuses[i]);
        }
        lemma_unchanged_is_silent(subs.drop_last(), statuses.drop_last());
    }
}

/// A second tick that finds the status hashes of the first notifies of no
/// script hash.
pub proof fn lemma_second_tick_is_silent(
    subs: Seq<(Seq<u8>, Option<Seq<u8>>)>,
    statuses: Seq<Option<Seq<u8>>>,
)
    requires
        statuses.len() == subs.len(),
    ensures
        status_notes(refreshed(subs, statuses), statuses) == Seq::<JsonView>::empty(),
{
    lemma_unchanged_is_silent(refreshed(subs, statuses), statuses);
}

} // verus!
