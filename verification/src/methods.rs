//! The methods of the Electrum protocol: their names, what each reads from
//! its parameters, and what each asks of the query layer.

use crate::hexcode::{hex_decode, reversed, unhex};
use crate::json::{
    debug_of, json_array, json_as_bool, json_as_str, json_as_u64, json_debug, json_model,
    json_null, json_string, json_zero_real, models, JsonView, Num,
};
use crate::text::str_eq;
use std::str::FromStr;
use vstd::prelude::*;
use vstd::string::StringExecFns;

verus! {

/// The methods that the server knows.
#[derive(Clone, Copy, Debug, PartialEq, Eq, Structural)]
pub enum Method {
    AddressGetBalance,
    AddressGetHistory,
    AddressListunspent,
    AddressSubscribe,
    BlockGetHeader,
    BlockHeader,
    BlockHeaders,
    EstimateFee,
    HeadersSubscribe,
    RelayFee,
    ScripthashGetBalance,
    ScripthashGetHistory,
    ScripthashListunspent,
    ScripthashSubscribe,
    TransactionBroadcast,
    TransactionGet,
    TransactionGetMerkle,
    FeeHistogram,
    ServerBanner,
    ServerDonationAddress,
    ServerPeersSubscribe,
    ServerPing,
    ServerVersion,
}

/// What a method asks of the query layer.
#[derive(Clone, Debug)]
pub enum Call {
    /// The best header of the chain.
    BestHeader,
    /// The headers at `count` heights from `start` on, as far as the chain
    /// has them.
    Headers { start: usize, count: usize },
    /// The fee rate for a confirmation within `blocks` blocks.
    EstimateFee { blocks: usize },
    /// The status of a script hash.
    Status { script_hash: Vec<u8> },
    /// The status of the script hash of this script.
    AddressStatus { script: Vec<u8> },
    /// The broadcast of a serialized transaction.
    Broadcast { tx: Vec<u8> },
    /// A transaction, in hexadecimal text or spelled out.
    Transaction { tx_hash: Vec<u8>, verbose: bool },
    /// The merkle proof of a transaction in the block at `height`.
    MerkleProof { tx_hash: Vec<u8>, height: usize },
    /// The fee histogram of the mempool.
    FeeHistogram,
}

/// What a `Call` holds.
pub enum CallView {
    BestHeader,
    Headers { start: usize, count: usize },
    EstimateFee { blocks: usize },
    Status { script_hash: Seq<u8> },
    AddressStatus { script: Seq<u8> },
    Broadcast { tx: Seq<u8> },
    Transaction { tx_hash: Seq<u8>, verbose: bool },
    MerkleProof { tx_hash: Seq<u8>, height: usize },
    FeeHistogram,
}

impl View for Call {
    type V = CallView;

    open spec fn view(&self) -> CallView {
        match *self {
            Call::BestHeader => CallView::BestHeader,
            Call::Headers { start, count } => CallView::Headers { start, count },
            Call::EstimateFee { blocks } => CallView::EstimateFee { blocks },
            Call::Status { script_hash } => CallView::Status { script_hash: script_hash@ },
            Call::AddressStatus { script } => CallView::AddressStatus { script: script@ },
            Call::Broadcast { tx } => CallView::Broadcast { tx: tx@ },
            Call::Transaction { tx_hash, verbose } => CallView::Transaction {
                tx_hash: tx_hash@,
                verbose,
            },
            Call::MerkleProof { tx_hash, height } => CallView::MerkleProof {
                tx_hash: tx_hash@,
                height,
            },
            Call::FeeHistogram => CallView::FeeHistogram,
        }
    }
}

/// What a request comes to before the query layer is asked: a result, a
/// failure with its message, or a call.
pub enum Plan {
    Reply(JsonView),
    Refuse(Seq<char>),
    Ask(CallView),
}

/// What `plan` hands back where the request does not fail.
#[derive(Debug)]
pub enum Planned {
    Ready(serde_json::Value),
    Ask(Call),
}

/// The script that pays to the address that `text` spells, `None` where it
/// spells no address.
pub uninterp spec fn script_of_address(text: Seq<char>) -> Option<Seq<u8>>;

/// Whether `bytes` are one transaction in consensus serialization.
pub uninterp spec fn is_transaction(bytes: Seq<u8>) -> bool;

/// `Address::from_str` of `bitcoin`, then `Address::script_pubkey` and
/// `Script::into_bytes`: the script of an address in base58 or bech32.
#[verifier::external_body]
pub(crate) fn address_script(text: &str) -> (script: Option<Vec<u8>>)
    ensures
        match script {
            Some(s) => script_of_address(text@) == Some(s@),
            None => script_of_address(text@) is None,
        },
{
    match bitcoin::util::address::Address::from_str(text) {
        Ok(address) => Some(address.script_pubkey().into_bytes()),
        Err(_) => None,
    }
}

/// `bitcoin::consensus::encode::deserialize` to a `bitcoin::Transaction`:
/// whether the bytes are one transaction and nothing else.
#[verifier::external_body]
pub(crate) fn decodes_as_transaction(bytes: &[u8]) -> (yes: bool)
    ensures
        yes == is_transaction(bytes@),
{
    bitcoin::consensus::encode::deserialize::<bitcoin::Transaction>(bytes).is_ok()
}

/// The method of this name.
pub open spec fn method_named(name: Seq<char>) -> Option<Method> {
    if name == "blockchain.address.get_balance"@ {
        Some(Method::AddressGetBalance)
    } else if name == "blockchain.address.get_history"@ {
        Some(Method::AddressGetHistory)
    } else if name == "blockchain.address.listunspent"@ {
        Some(Method::AddressListunspent)
    } else if name == "blockchain.address.subscribe"@ {
        Some(Method::AddressSubscribe)
    } else if name == "blockchain.block.get_header"@ {
        Some(Method::BlockGetHeader)
    } else if name == "blockchain.block.header"@ {
        Some(Method::BlockHeader)
    } else if name == "blockchain.block.headers"@ {
        Some(Method::BlockHeaders)
    } else if name == "blockchain.estimatefee"@ {
        Some(Method::EstimateFee)
    } else if name == "blockchain.headers.subscribe"@ {
        Some(Method::HeadersSubscribe)
    } else if name == "blockchain.relayfee"@ {
        Some(Method::RelayFee)
    } else if name == "blockchain.scripthash.get_balance"@ {
        Some(Method::ScripthashGetBalance)
    } else if name == "blockchain.scripthash.get_history"@ {
        Some(Method::ScripthashGetHistory)
    } else if name == "blockchain.scripthash.listunspent"@ {
        Some(Method::ScripthashListunspent)
    } else if name == "blockchain.scripthash.subscribe"@ {
        Some(Method::ScripthashSubscribe)
    } else if name == "blockchain.transaction.broadcast"@ {
        Some(Method::TransactionBroadcast)
    } else if name == "blockchain.transaction.get"@ {
        Some(Method::TransactionGet)
    } else if name == "blockchain.transaction.get_merkle"@ {
        Some(Method::TransactionGetMerkle)
    } else if name == "mempool.get_fee_histogram"@ {
        Some(Method::FeeHistogram)
    } else if name == "server.banner"@ {
        Some(Method::ServerBanner)
    } else if name == "server.donation_address"@ {
        Some(Method::ServerDonationAddress)
    } else if name == "server.peers.subscribe"@ {
        Some(Method::ServerPeersSubscribe)
    } else if name == "server.ping"@ {
        Some(Method::ServerPing)
    } else if name == "server.version"@ {
        Some(Method::ServerVersion)
    } else {
        None
    }
}

/// Finds the method of this name.
pub fn method_of(name: &str) -> (method: Option<Method>)
    ensures
        method == method_named(name@),
{
    if str_eq(name, "blockchain.address.get_balance") {
        Some(Method::AddressGetBalance)
    } else if str_eq(name, "blockchain.address.get_history") {
        Some(Method::AddressGetHistory)
    } else if str_eq(name, "blockchain.address.listunspent") {
        Some(Method::AddressListunspent)
    } else if str_eq(name, "blockchain.address.subscribe") {
        Some(Method::AddressSubscribe)
    } else if str_eq(name, "blockchain.block.get_header") {
        Some(Method::BlockGetHeader)
    } else if str_eq(name, "blockchain.block.header") {
        Some(Method::BlockHeader)
    } else if str_eq(name, "blockchain.block.headers") {
        Some(Method::BlockHeaders)
    } else if str_eq(name, "blockchain.estimatefee") {
        Some(Method::EstimateFee)
    } else if str_eq(name, "blockchain.headers.subscribe") {
        Some(Method::HeadersSubscribe)
    } else if str_eq(name, "blockchain.relayfee") {
        Some(Method::RelayFee)
    } else if str_eq(name, "blockchain.scripthash.get_balance") {
        Some(Method::ScripthashGetBalance)
    } else if str_eq(name, "blockchain.scripthash.get_history") {
        Some(Method::ScripthashGetHistory)
    } else if str_eq(name, "blockchain.scripthash.listunspent") {
        Some(Method::ScripthashListunspent)
    } else if str_eq(name, "blockchain.scripthash.subscribe") {
        Some(Method::ScripthashSubscribe)
    } else if str_eq(name, "blockchain.transaction.broadcast") {
        Some(Method::TransactionBroadcast)
    } else if str_eq(name, "blockchain.transaction.get") {
        Some(Method::TransactionGet)
    } else if str_eq(name, "blockchain.transaction.get_merkle") {
        Some(Method::TransactionGetMerkle)
    } else if str_eq(name, "mempool.get_fee_histogram") {
        Some(Method::FeeHistogram)
    } else if str_eq(name, "server.banner") {
        Some(Method::ServerBanner)
    } else if str_eq(name, "server.donation_address") {
        Some(Method::ServerDonationAddress)
    } else if str_eq(name, "server.peers.subscribe") {
        Some(Method::ServerPeersSubscribe)
    } else if str_eq(name, "server.ping") {
        Some(Method::ServerPing)
    } else if str_eq(name, "server.version") {
        Some(Method::ServerVersion)
    } else {
        None
    }
}

/// The message for a method that the server does not know.
pub open spec fn unknown_method(name: Seq<char>, params: Seq<JsonView>) -> Seq<char> {
    "unknown method "@ + name + " "@ + debug_of(params)
}

/// The size or height at place `i` of the parameters, or the message that
/// says what is wrong with it. A number counts where it is an integer that
/// is not negative; it is cut to the width of the machine.
pub open spec fn usize_arg(params: Seq<JsonView>, i: int, name: Seq<char>) -> Result<
    usize,
    Seq<char>,
> {
    if i >= params.len() {
        Err("missing "@ + name)
    } else {
        match params[i] {
            JsonView::Number(Num::PosInt(n)) => Ok(n as usize),
            _ => Err("non-integer "@ + name),
        }
    }
}

/// The hash at place `i` of the parameters: 64 hexadecimal digits, which
/// show the 32 bytes in the opposite order to that in which they are kept.
pub open spec fn hash_arg(params: Seq<JsonView>, i: int) -> Option<Seq<u8>> {
    if i >= params.len() {
        None
    } else {
        match params[i] {
            JsonView::String(text) => match unhex(text) {
                Some(bytes) => if bytes.len() == 32 {
                    Some(bytes.reverse())
                } else {
                    None
                },
                None => None,
            },
            _ => None,
        }
    }
}

/// The script of the address at place `i` of the parameters.
pub open spec fn address_arg(params: Seq<JsonView>, i: int) -> Option<Seq<u8>> {
    if i >= params.len() {
        None
    } else {
        match params[i] {
            JsonView::String(text) => script_of_address(text),
            _ => None,
        }
    }
}

/// The raw transaction at place `i` of the parameters, or the message that
/// says what is wrong with it.
pub open spec fn tx_arg(params: Seq<JsonView>, i: int) -> Result<Seq<u8>, Seq<char>> {
    if i >= params.len() {
        Err("missing tx"@)
    } else {
        match params[i] {
            JsonView::String(text) => match unhex(text) {
                Some(bytes) => if is_transaction(bytes) {
                    Ok(bytes)
                } else {
                    Err("failed to parse tx"@)
                },
                None => Err("non-hex tx"@),
            },
            _ => Err("non-string tx"@),
        }
    }
}

/// The flag at place `i` of the parameters: `false` where there is none,
/// `None` where what stands there is no boolean.
pub open spec fn flag_arg(params: Seq<JsonView>, i: int) -> Option<bool> {
    if i >= params.len() {
        Some(false)
    } else {
        match params[i] {
            JsonView::Bool(b) => Some(b),
            _ => None,
        }
    }
}

/// The call that asks for the status of the script hash at place 0.
pub open spec fn ask_status(params: Seq<JsonView>) -> Plan {
    match hash_arg(params, 0) {
        Some(script_hash) => Plan::Ask(CallView::Status { script_hash }),
        None => Plan::Refuse("bad script_hash"@),
    }
}

/// The call that asks for the status of the address at place 0.
pub open spec fn ask_address(params: Seq<JsonView>) -> Plan {
    match address_arg(params, 0) {
        Some(script) => Plan::Ask(CallView::AddressStatus { script }),
        None => Plan::Refuse("bad address"@),
    }
}

/// The call that asks for the one header at the height at place 0.
pub open spec fn ask_header(params: Seq<JsonView>, name: Seq<char>) -> Plan {
    match usize_arg(params, 0, name) {
        Ok(start) => Plan::Ask(CallView::Headers { start, count: 1 }),
        Err(message) => Plan::Refuse(message),
    }
}

/// What a request with this method and these parameters comes to before
/// the query layer is asked.
pub open spec fn plan_of(method: Method, params: Seq<JsonView>) -> Plan {
    match method {
        Method::AddressGetBalance => ask_address(params),
        Method::AddressGetHistory => ask_address(params),
        Method::AddressListunspent => ask_address(params),
        Method::AddressSubscribe => ask_address(params),
        Method::BlockGetHeader => ask_header(params, "missing height"@),
        Method::BlockHeader => ask_header(params, "height"@),
        Method::BlockHeaders => match usize_arg(params, 0, "start_height"@) {
            Ok(start) => match usize_arg(params, 1, "count"@) {
                Ok(count) => Plan::Ask(CallView::Headers { start, count }),
                Err(message) => Plan::Refuse(message),
            },
            Err(message) => Plan::Refuse(message),
        },
        Method::EstimateFee => match usize_arg(params, 0, "blocks_count"@) {
            Ok(blocks) => Plan::Ask(CallView::EstimateFee { blocks }),
            Err(message) => Plan::Refuse(message),
        },
        Method::HeadersSubscribe => Plan::Ask(CallView::BestHeader),
        Method::RelayFee => Plan::Reply(JsonView::Number(Num::Real(0))),
        Method::ScripthashGetBalance => ask_status(params),
        Method::ScripthashGetHistory => ask_status(params),
        Method::ScripthashListunspent => ask_status(params),
        Method::ScripthashSubscribe => ask_status(params),
        Method::TransactionBroadcast => match tx_arg(params, 0) {
            Ok(tx) => Plan::Ask(CallView::Broadcast { tx }),
            Err(message) => Plan::Refuse(message),
        },
        Method::TransactionGet => match hash_arg(params, 0) {
            Some(tx_hash) => match flag_arg(params, 1) {
                Some(verbose) => Plan::Ask(CallView::Transaction { tx_hash, verbose }),
                None => Plan::Refuse("non-bool verbose value"@),
            },
            None => Plan::Refuse("bad tx_hash"@),
        },
        Method::TransactionGetMerkle => match hash_arg(params, 0) {
            Some(tx_hash) => match usize_arg(params, 1, "height"@) {
                Ok(height) => Plan::Ask(CallView::MerkleProof { tx_hash, height }),
                Err(message) => Plan::Refuse(message),
            },
            None => Plan::Refuse("bad tx_hash"@),
        },
        Method::FeeHistogram => Plan::Ask(CallView::FeeHistogram),
        Method::ServerBanner => Plan::Reply(
            JsonView::String("Welcome to RustElectrum Server!\n"@),
        ),
        Method::ServerDonationAddress => Plan::Reply(JsonView::Null),
        Method::ServerPeersSubscribe => Plan::Reply(JsonView::Array(Seq::empty())),
        Method::ServerPing => Plan::Reply(JsonView::Null),
        Method::ServerVersion => Plan::Reply(
            JsonView::Array(
                seq![JsonView::String("RustElectrum 0.1.0"@), JsonView::String("1.2"@)],
            ),
        ),
    }
}

/// `exec` agrees with `plan`: the same result, the same message or the
/// same call.
pub open spec fn agrees(exec: Result<Planned, String>, plan: Plan) -> bool {
    match plan {
        Plan::Reply(result) => exec matches Ok(Planned::Ready(value)) && json_model(value)
            == result,
        Plan::Refuse(message) => exec matches Err(text) && text@ == message,
        Plan::Ask(call) => exec matches Ok(Planned::Ask(asked)) && asked@ == call,
    }
}

/// Reads a size or a height from the parameters.
pub fn usize_from_value(params: &Vec<serde_json::Value>, i: usize, name: &str) -> (res: Result<
    usize,
    String,
>)
    ensures
        match (res, usize_arg(models(params@), i as int, name@)) {
            (Ok(n), Ok(expected)) => n == expected,
            (Err(text), Err(expected)) => text@ == expected,
            _ => false,
        },
{
    if i >= params.len() {
        return Err("missing ".to_owned().concat(name));
    }
    match json_as_u64(&params[i]) {
        Some(n) => Ok(n as usize),
        None => Err("non-integer ".to_owned().concat(name)),
    }
}

/// Reads a hash from the parameters.
pub fn hash_from_value(params: &Vec<serde_json::Value>, i: usize) -> (res: Option<Vec<u8>>)
    ensures
        match (res, hash_arg(models(params@), i as int)) {
            (Some(hash), Some(expected)) => hash@ == expected,
            (None, None) => true,
            _ => false,
        },
{
    if i >= params.len() {
        return None;
    }
    match json_as_str(&params[i]) {
        None => None,
        Some(text) => match hex_decode(text) {
            None => None,
            Some(bytes) => {
                if bytes.len() == 32 {
                    Some(reversed(bytes.as_slice()))
                } else {
                    None
                }
            },
        },
    }
}

/// Reads an address from the parameters and gives its script.
pub fn address_from_value(params: &Vec<serde_json::Value>, i: usize) -> (res: Option<Vec<u8>>)
    ensures
        match (res, address_arg(models(params@), i as int)) {
            (Some(script), Some(expected)) => script@ == expected,
            (None, None) => true,
            _ => false,
        },
{
    if i >= params.len() {
        return None;
    }
    match json_as_str(&params[i]) {
        None => None,
        Some(text) => address_script(text),
    }
}

/// Reads a raw transaction from the parameters.
pub fn tx_from_value(params: &Vec<serde_json::Value>, i: usize) -> (res: Result<Vec<u8>, String>)
    ensures
        match (res, tx_arg(models(params@), i as int)) {
            (Ok(tx), Ok(expected)) => tx@ == expected,
            (Err(text), Err(expected)) => text@ == expected,
            _ => false,
        },
{
    if i >= params.len() {
        return Err("missing tx".to_owned());
    }
    match json_as_str(&params[i]) {
        None => Err("non-string tx".to_owned()),
        Some(text) => match hex_decode(text) {
            None => Err("non-hex tx".to_owned()),
            Some(bytes) => {
                if decodes_as_transaction(bytes.as_slice()) {
                    Ok(bytes)
                } else {
                    Err("failed to parse tx".to_owned())
                }
            },
        },
    }
}

/// Reads an optional flag from the parameters.
pub fn flag_from_value(params: &Vec<serde_json::Value>, i: usize) -> (res: Option<bool>)
    ensures
        res == flag_arg(models(params@), i as int),
{
    if i >= params.len() {
        return Some(false);
    }
    json_as_bool(&params[i])
}

/// Plans a request for the status of a script hash.
fn plan_status(params: &Vec<serde_json::Value>) -> (res: Result<Planned, String>)
    ensures
        agrees(res, ask_status(models(params@))),
{
    match hash_from_value(params, 0) {
        Some(script_hash) => Ok(Planned::Ask(Call::Status { script_hash })),
        None => Err("bad script_hash".to_owned()),
    }
}

/// Plans a request for the status of an address.
fn plan_address(params: &Vec<serde_json::Value>) -> (res: Result<Planned, String>)
    ensures
        agrees(res, ask_address(models(params@))),
{
    match address_from_value(params, 0) {
        Some(script) => Ok(Planned::Ask(Call::AddressStatus { script })),
        None => Err("bad address".to_owned()),
    }
}

/// Plans a request for one header.
fn plan_header(params: &Vec<serde_json::Value>, name: &str) -> (res: Result<Planned, String>)
    ensures
        agrees(res, ask_header(models(params@), name@)),
{
    match usize_from_value(params, 0, name) {
        Ok(start) => Ok(Planned::Ask(Call::Headers { start, count: 1 })),
        Err(message) => Err(message),
    }
}

/// Reads the parameters of a request as its method wants them and says what
/// the request comes to: a result at once, a failure, or a call to the
/// query layer.
pub fn plan(method: Method, params: &Vec<serde_json::Value>) -> (res: Result<Planned, String>)
    ensures
        agrees(res, plan_of(method, models(params@))),
{
    match method {
        Method::AddressGetBalance => plan_address(params),
        Method::AddressGetHistory => plan_address(params),
        Method::AddressListunspent => plan_address(params),
        Method::AddressSubscribe => plan_address(params),
        Method::BlockGetHeader => plan_header(params, "missing height"),
        Method::BlockHeader => plan_header(params, "height"),
        Method::BlockHeaders => {
            let start = usize_from_value(params, 0, "start_height")?;
            let count = usize_from_value(params, 1, "count")?;
            Ok(Planned::Ask(Call::Headers { start, count }))
        },
        Method::EstimateFee => {
            let blocks = usize_from_value(params, 0, "blocks_count")?;
            Ok(Planned::Ask(Call::EstimateFee { blocks }))
        },
        Method::HeadersSubscribe => Ok(Planned::Ask(Call::BestHeader)),
        Method::RelayFee => Ok(Planned::Ready(json_zero_real())),
        Method::ScripthashGetBalance => plan_status(params),
        Method::ScripthashGetHistory => plan_status(params),
        Method::ScripthashListunspent => plan_status(params),
        Method::ScripthashSubscribe => plan_status(params),
        Method::TransactionBroadcast => {
            let tx = tx_from_value(params, 0)?;
            Ok(Planned::Ask(Call::Broadcast { tx }))
        },
        Method::TransactionGet => {
            match hash_from_value(params, 0) {
                None => Err("bad tx_hash".to_owned()),
                Some(tx_hash) => match flag_from_value(params, 1) {
                    None => Err("non-bool verbose value".to_owned()),
                    Some(verbose) => Ok(Planned::Ask(Call::Transaction { tx_hash, verbose })),
                },
            }
        },
        Method::TransactionGetMerkle => {
            match hash_from_value(params, 0) {
                None => Err("bad tx_hash".to_owned()),
                Some(tx_hash) => {
                    let height = usize_from_value(params, 1, "height")?;
                    Ok(Planned::Ask(Call::MerkleProof { tx_hash, height }))
                },
            }
        },
        Method::FeeHistogram => Ok(Planned::Ask(Call::FeeHistogram)),
        Method::ServerBanner => Ok(
            Planned::Ready(json_string("Welcome to RustElectrum Server!\n")),
        ),
        Method::ServerDonationAddress => Ok(Planned::Ready(json_null())),
        Method::ServerPeersSubscribe => {
            let none: Vec<serde_json::Value> = Vec::new();
            assert(models(none@) =~= Seq::<JsonView>::empty());
            Ok(Planned::Ready(json_array(none)))
        },
        Method::ServerPing => Ok(Planned::Ready(json_null())),
        Method::ServerVersion => {
            let mut items: Vec<serde_json::Value> = Vec::new();
            items.push(json_string("RustElectrum 0.1.0"));
            items.push(json_string("1.2"));
            assert(models(items@) =~= seq![
                JsonView::String("RustElectrum 0.1.0"@),
                JsonView::String("1.2"@),
            ]);
            Ok(Planned::Ready(json_array(items)))
        },
    }
}

/// Words the failure of a request for a method that the server does not
/// know.
pub fn unknown_method_message(name: &str, params: &Vec<serde_json::Value>) -> (text: String)
    ensures
        text@ == unknown_method(name@, models(params@)),
{
    let shown = json_debug(params);
    "unknown method ".to_owned().concat(name).concat(" ").concat(shown.as_str())
}

/// Each name of the protocol is the name of its own method.
pub proof fn lemma_method_names()
    ensures
        method_named("blockchain.address.get_balance"@) == Some(Method::AddressGetBalance),
        method_named("blockchain.address.get_history"@) == Some(Method::AddressGetHistory),
        method_named("blockchain.address.listunspent"@) == Some(Method::AddressListunspent),
        method_named("blockchain.address.subscribe"@) == Some(Method::AddressSubscribe),
        method_named("blockchain.block.get_header"@) == Some(Method::BlockGetHeader),
        method_named("blockchain.block.header"@) == Some(Method::BlockHeader),
        method_named("blockchain.block.headers"@) == Some(Method::BlockHeaders),
        method_named("blockchain.estimatefee"@) == Some(Method::EstimateFee),
        method_named("blockchain.headers.subscribe"@) == Some(Method::HeadersSubscribe),
        method_named("blockchain.relayfee"@) == Some(Method::RelayFee),
        method_named("blockchain.scripthash.get_balance"@) == Some(Method::ScripthashGetBalance),
        method_named("blockchain.scripthash.get_history"@) == Some(Method::ScripthashGetHistory),
        method_named("blockchain.scripthash.listunspent"@) == Some(
            Method::ScripthashListunspent,
        ),
        method_named("blockchain.scripthash.subscribe"@) == Some(Method::ScripthashSubscribe),
        method_named("blockchain.transaction.broadcast"@) == Some(Method::TransactionBroadcast),
        method_named("blockchain.transaction.get"@) == Some(Method::TransactionGet),
        method_named("blockchain.transaction.get_merkle"@) == Some(Method::TransactionGetMerkle),
        method_named("mempool.get_fee_histogram"@) == Some(Method::FeeHistogram),
        method_named("server.banner"@) == Some(Method::ServerBanner),
        method_named("server.donation_address"@) == Some(Method::ServerDonationAddress),
        method_named("server.peers.subscribe"@) == Some(Method::ServerPeersSubscribe),
        method_named("server.ping"@) == Some(Method::ServerPing),
        method_named("server.version"@) == Some(Method::ServerVersion),
{
    reveal_strlit("blockchain.address.get_balance");
    reveal_strlit("blockchain.address.get_history");
    reveal_strlit("blockchain.address.listunspent");
    reveal_strlit("blockchain.address.subscribe");
    reveal_strlit("blockchain.block.get_header");
    reveal_strlit("blockchain.block.header");
    reveal_strlit("blockchain.block.headers");
    reveal_strlit("blockchain.estimatefee");
    reveal_strlit("blockchain.headers.subscribe");
    reveal_strlit("blockchain.relayfee");
    reveal_strlit("blockchain.scripthash.get_balance");
    reveal_strlit("blockchain.scripthash.get_history");
    reveal_strlit("blockchain.scripthash.listunspent");
    reveal_strlit("blockchain.scripthash.subscribe");
    reveal_strlit("blockchain.transaction.broadcast");
    reveal_strlit("blockchain.transaction.get");
    reveal_strlit("blockchain.transaction.get_merkle");
    reveal_strlit("mempool.get_fee_histogram");
    reveal_strlit("server.banner");
    reveal_strlit("server.donation_address");
    reveal_strlit("server.peers.subscribe");
    reveal_strlit("server.ping");
    reveal_strlit("server.version");
    assert("blockchain.address.get_balance"@.len() == 30);
    assert("blockchain.address.get_history"@.len() == 30);
    assert("blockchain.address.listunspent"@.len() == 30);
    assert("blockchain.address.subscribe"@.len() == 28);
    assert("blockchain.block.get_header"@.len() == 27);
    assert("blockchain.block.header"@.len() == 23);
    assert("blockchain.block.headers"@.len() == 24);
    assert("blockchain.estimatefee"@.len() == 22);
    assert("blockchain.headers.subscribe"@.len() == 28);
    assert("blockchain.relayfee"@.len() == 19);
    assert("blockchain.scripthash.get_balance"@.len() == 33);
    assert("blockchain.scripthash.get_history"@.len() == 33);
    assert("blockchain.scripthash.listunspent"@.len() == 33);
    assert("blockchain.scripthash.subscribe"@.len() == 31);
    assert("blockchain.transaction.broadcast"@.len() == 32);
    assert("blockchain.transaction.get"@.len() == 26);
    assert("blockchain.transaction.get_merkle"@.len() == 33);
    assert("mempool.get_fee_histogram"@.len() == 25);
    assert("server.banner"@.len() == 13);
    assert("server.donation_address"@.len() == 23);
    assert("server.peers.subscribe"@.len() == 22);
    assert("server.ping"@.len() == 11);
    assert("server.version"@.len() == 14);
    assert("blockchain.address.get_balance"@[23] != "blockchain.address.get_history"@[23]);
    assert("blockchain.address.get_balance"@[19] != "blockchain.address.listunspent"@[19]);
    assert("blockchain.address.get_history"@[19] != "blockchain.address.listunspent"@[19]);
    assert("blockchain.address.subscribe"@[11] != "blockchain.headers.subscribe"@[11]);
    assert("blockchain.scripthash.get_balance"@[26] != "blockchain.scripthash.get_history"@[26]);
    assert("blockchain.scripthash.get_balance"@[22] != "blockchain.scripthash.listunspent"@[22]);
    assert("blockchain.scripthash.get_history"@[22] != "blockchain.scripthash.listunspent"@[22]);
    assert("blockchain.scripthash.get_balance"@[11] != "blockchain.transaction.get_merkle"@[11]);
    assert("blockchain.scripthash.get_history"@[11] != "blockchain.transaction.get_merkle"@[11]);
    assert("blockchain.scripthash.listunspent"@[11] != "blockchain.transaction.get_merkle"@[11]);
    assert("blockchain.block.header"@[0] != "server.donation_address"@[0]);
    assert("blockchain.estimatefee"@[0] != "server.peers.subscribe"@[0]);
}

} // verus!
