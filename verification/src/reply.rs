//! The JSON objects that the server sends: responses, notifications and the
//! results of the methods.

use crate::framer::{le_u32_at, read_le_u32};
use crate::hexcode::{be_hex, hex_encode, hex_of};
use crate::json::{
    json_array, json_i64, json_model, json_null, json_object, json_string, json_u64,
    member_models, models, num_of_i64, JsonView, Num,
};
use vstd::prelude::*;

verus! {

/// A header of the chain: its height, its hash and its 80 serialized bytes.
#[derive(Clone, Debug)]
pub struct HeaderEntry {
    pub height: usize,
    pub hash: Vec<u8>,
    pub header: Vec<u8>,
}

/// One transaction of the history of a script hash.
#[derive(Clone, Debug)]
pub struct HistoryItem {
    pub height: i32,
    pub tx_hash: Vec<u8>,
}

/// One unspent output that pays to a script hash.
#[derive(Clone, Debug)]
pub struct Unspent {
    pub height: u32,
    pub tx_pos: usize,
    pub tx_hash: Vec<u8>,
    pub value: u64,
}

/// What the query layer knows of a script hash.
#[derive(Clone, Debug)]
pub struct Status {
    pub hash: Option<Vec<u8>>,
    pub confirmed: i64,
    pub mempool: i64,
    pub history: Vec<HistoryItem>,
    pub unspent: Vec<Unspent>,
}

/// The response to a request that succeeded.
pub open spec fn response_ok(id: JsonView, result: JsonView) -> JsonView {
    JsonView::Object(
        seq![("jsonrpc"@, JsonView::String("2.0"@)), ("id"@, id), ("result"@, result)],
    )
}

/// The response to a request that failed, with the message of the failure.
pub open spec fn response_err(id: JsonView, message: Seq<char>) -> JsonView {
    JsonView::Object(
        seq![
            ("jsonrpc"@, JsonView::String("2.0"@)),
            ("id"@, id),
            ("error"@, JsonView::String(message)),
        ],
    )
}

/// A notification to a subscriber: a method and its parameters, and no id.
pub open spec fn notification(method: Seq<char>, params: Seq<JsonView>) -> JsonView {
    JsonView::Object(
        seq![
            ("jsonrpc"@, JsonView::String("2.0"@)),
            ("method"@, JsonView::String(method)),
            ("params"@, JsonView::Array(params)),
        ],
    )
}

/// A size or a height as a JSON number.
pub open spec fn number(n: int) -> JsonView {
    JsonView::Number(Num::PosInt(n as u64))
}

/// The best header as subscribers see it: its bytes in hexadecimal, and its
/// height.
pub open spec fn header_json(entry: HeaderEntry) -> JsonView {
    JsonView::Object(
        seq![
            ("hex"@, JsonView::String(hex_of(entry.header@))),
            ("height"@, number(entry.height as int)),
        ],
    )
}

/// The hexadecimal text of the headers, one after the other.
pub open spec fn headers_hex(entries: Seq<HeaderEntry>) -> Seq<char>
    decreases entries.len(),
{
    if entries.len() == 0 {
        Seq::empty()
    } else {
        headers_hex(entries.drop_last()) + hex_of(entries.last().header@)
    }
}

/// A run of headers: how many, their hexadecimal text, and the most that
/// one request can have.
pub open spec fn headers_json(entries: Seq<HeaderEntry>) -> JsonView {
    JsonView::Object(
        seq![
            ("count"@, number(entries.len() as int)),
            ("hex"@, JsonView::String(headers_hex(entries))),
            ("max"@, number(2016)),
        ],
    )
}

/// A header with its fields spelled out. The hashes are shown with their
/// bytes in the opposite order to that of the serialized header.
pub open spec fn header_fields_json(entry: HeaderEntry) -> JsonView {
    JsonView::Object(
        seq![
            ("block_height"@, number(entry.height as int)),
            ("version"@, number(le_u32_at(entry.header@, 0))),
            (
                "prev_block_hash"@,
                JsonView::String(hex_of(entry.header@.subrange(4, 36).reverse())),
            ),
            ("merkle_root"@, JsonView::String(hex_of(entry.header@.subrange(36, 68).reverse()))),
            ("timestamp"@, number(le_u32_at(entry.header@, 68))),
            ("bits"@, number(le_u32_at(entry.header@, 72))),
            ("nonce"@, number(le_u32_at(entry.header@, 76))),
        ],
    )
}

/// The status hash of a script hash as the wire shows it: its hexadecimal
/// text, or `null` for a script hash without history.
pub open spec fn status_json(hash: Option<Seq<u8>>) -> JsonView {
    match hash {
        Some(h) => JsonView::String(hex_of(h)),
        None => JsonView::Null,
    }
}

/// The two balances of a script hash.
pub open spec fn balance_json(status: Status) -> JsonView {
    JsonView::Object(
        seq![
            ("confirmed"@, JsonView::Number(num_of_i64(status.confirmed))),
            ("unconfirmed"@, JsonView::Number(num_of_i64(status.mempool))),
        ],
    )
}

/// One transaction of a history.
pub open spec fn history_item_json(item: HistoryItem) -> JsonView {
    JsonView::Object(
        seq![
            ("height"@, JsonView::Number(num_of_i64(item.height as i64))),
            ("tx_hash"@, JsonView::String(hex_of(item.tx_hash@.reverse()))),
        ],
    )
}

/// The history of a script hash, in the order of the query layer.
pub open spec fn history_json(items: Seq<HistoryItem>) -> JsonView {
    JsonView::Array(Seq::new(items.len(), |i: int| history_item_json(items[i])))
}

/// One unspent output.
pub open spec fn unspent_item_json(out: Unspent) -> JsonView {
    JsonView::Object(
        seq![
            ("height"@, number(out.height as int)),
            ("tx_pos"@, number(out.tx_pos as int)),
            ("tx_hash"@, JsonView::String(hex_of(out.tx_hash@.reverse()))),
            ("value"@, number(out.value as int)),
        ],
    )
}

/// The unspent outputs of a script hash, in the order of the query layer.
pub open spec fn unspent_json(outs: Seq<Unspent>) -> JsonView {
    JsonView::Array(Seq::new(outs.len(), |i: int| unspent_item_json(outs[i])))
}

/// A merkle proof: the height of the block, the branch, and the place of
/// the transaction in the block.
pub open spec fn merkle_json(height: usize, merkle: Seq<Vec<u8>>, pos: usize) -> JsonView {
    JsonView::Object(
        seq![
            ("block_height"@, number(height as int)),
            (
                "merkle"@,
                JsonView::Array(
                    Seq::new(merkle.len(), |i: int| JsonView::String(hex_of(merkle[i]@.reverse()))),
                ),
            ),
            ("pos"@, number(pos as int)),
        ],
    )
}

/// A member of an object under construction.
pub fn named(name: &str, value: serde_json::Value) -> (member: (String, serde_json::Value))
    ensures
        member.0@ == name@,
        member.1 == value,
{
    (name.to_owned(), value)
}

/// A size or a height as a JSON number.
pub fn json_usize(n: usize) -> (value: serde_json::Value)
    ensures
        json_model(value) == number(n as int),
{
    json_u64(n as u64)
}

/// Builds the response to a request that succeeded.
pub fn reply_ok(id: serde_json::Value, result: serde_json::Value) -> (reply: serde_json::Value)
    ensures
        json_model(reply) == response_ok(json_model(id), json_model(result)),
{
    let mut members: Vec<(String, serde_json::Value)> = Vec::new();
    members.push(named("jsonrpc", json_string("2.0")));
    members.push(named("id", id));
    members.push(named("result", result));
    proof {
        reveal_strlit("jsonrpc");
        reveal_strlit("id");
        reveal_strlit("result");
        assert(member_models(members@) =~= seq![
            ("jsonrpc"@, JsonView::String("2.0"@)),
            ("id"@, json_model(id)),
            ("result"@, json_model(result)),
        ]);
        assert("jsonrpc"@.len() == 7);
        assert("id"@.len() == 2);
        assert("result"@.len() == 6);
    }
    json_object(members)
}

/// Builds the response to a request that failed.
pub fn reply_err(id: serde_json::Value, message: &str) -> (reply: serde_json::Value)
    ensures
        json_model(reply) == response_err(json_model(id), message@),
{
    let mut members: Vec<(String, serde_json::Value)> = Vec::new();
    members.push(named("jsonrpc", json_string("2.0")));
    members.push(named("id", id));
    members.push(named("error", json_string(message)));
    proof {
        reveal_strlit("jsonrpc");
        reveal_strlit("id");
        reveal_strlit("error");
        assert(member_models(members@) =~= seq![
            ("jsonrpc"@, JsonView::String("2.0"@)),
            ("id"@, json_model(id)),
            ("error"@, JsonView::String(message@)),
        ]);
        assert("jsonrpc"@.len() == 7);
        assert("id"@.len() == 2);
        assert("error"@.len() == 5);
    }
    json_object(members)
}

/// Builds a notification.
pub fn notify(method: &str, params: Vec<serde_json::Value>) -> (note: serde_json::Value)
    ensures
        json_model(note) == notification(method@, models(params@)),
{
    let ghost items = models(params@);
    let mut members: Vec<(String, serde_json::Value)> = Vec::new();
    members.push(named("jsonrpc", json_string("2.0")));
    members.push(named("method", json_string(method)));
    members.push(named("params", json_array(params)));
    proof {
        reveal_strlit("jsonrpc");
        reveal_strlit("method");
        reveal_strlit("params");
        assert(member_models(members@) =~= seq![
            ("jsonrpc"@, JsonView::String("2.0"@)),
            ("method"@, JsonView::String(method@)),
            ("params"@, JsonView::Array(items)),
        ]);
        assert("jsonrpc"@.len() == 7);
        assert("method"@[0] == 'm');
        assert("params"@[0] == 'p');
    }
    json_object(members)
}

/// Shows the best header to a subscriber.
pub fn jsonify_best_header(entry: &HeaderEntry) -> (value: serde_json::Value)
    ensures
        json_model(value) == header_json(*entry),
{
    let mut members: Vec<(String, serde_json::Value)> = Vec::new();
    let hex = hex_encode(entry.header.as_slice());
    members.push(named("hex", json_string(hex.as_str())));
    members.push(named("height", json_usize(entry.height)));
    proof {
        reveal_strlit("hex");
        reveal_strlit("height");
        assert(member_models(members@) =~= seq![
            ("hex"@, JsonView::String(hex_of(entry.header@))),
            ("height"@, number(entry.height as int)),
        ]);
        assert("hex"@.len() == 3);
        assert("height"@.len() == 6);
    }
    json_object(members)
}

/// Shows a run of headers.
pub fn jsonify_headers(entries: &Vec<HeaderEntry>) -> (value: serde_json::Value)
    ensures
        json_model(value) == headers_json(entries@),
{
    let hex = concat_headers(entries);
    let mut members: Vec<(String, serde_json::Value)> = Vec::new();
    members.push(named("count", json_usize(entries.len())));
    members.push(named("hex", json_string(hex.as_str())));
    members.push(named("max", json_usize(2016)));
    proof {
        reveal_strlit("count");
        reveal_strlit("hex");
        reveal_strlit("max");
        assert(member_models(members@) =~= seq![
            ("count"@, number(entries@.len() as int)),
            ("hex"@, JsonView::String(headers_hex(entries@))),
            ("max"@, number(2016)),
        ]);
        assert("count"@.len() == 5);
        assert("hex"@[0] == 'h');
        assert("max"@[0] == 'm');
    }
    json_object(members)
}

/// The hexadecimal text of the headers, one after the other.
pub fn concat_headers(entries: &Vec<HeaderEntry>) -> (hex: String)
    ensures
        hex@ == headers_hex(entries@),
{
    let mut hex = String::new();
    let mut i: usize = 0;
    while i < entries.len()
        invariant
            i <= entries@.len(),
            hex@ == headers_hex(entries@.subrange(0, i as int)),
        decreases entries@.len() - i,
    {
        assert(entries@.subrange(0, i + 1).drop_last() =~= entries@.subrange(0, i as int));
        let one = hex_encode(entries[i].header.as_slice());
        hex.append(one.as_str());
        i = i + 1;
    }
    assert(entries@.subrange(0, i as int) =~= entries@);
    hex
}

/// Shows a header with its fields spelled out.
pub fn jsonify_header(entry: &HeaderEntry) -> (value: serde_json::Value)
    requires
        entry.header@.len() == 80,
    ensures
        json_model(value) == header_fields_json(*entry),
{
    let header = entry.header.as_slice();
    let prev = hash_text(header, 4);
    let root = hash_text(header, 36);
    let mut members: Vec<(String, serde_json::Value)> = Vec::new();
    members.push(named("block_height", json_usize(entry.height)));
    members.push(named("version", json_u64(read_le_u32(header, 0) as u64)));
    members.push(named("prev_block_hash", json_string(prev.as_str())));
    members.push(named("merkle_root", json_string(root.as_str())));
    members.push(named("timestamp", json_u64(read_le_u32(header, 68) as u64)));
    members.push(named("bits", json_u64(read_le_u32(header, 72) as u64)));
    members.push(named("nonce", json_u64(read_le_u32(header, 76) as u64)));
    proof {
        reveal_strlit("block_height");
        reveal_strlit("version");
        reveal_strlit("prev_block_hash");
        reveal_strlit("merkle_root");
        reveal_strlit("timestamp");
        reveal_strlit("bits");
        reveal_strlit("nonce");
        assert(member_models(members@) =~= seq![
            ("block_height"@, number(entry.height as int)),
            ("version"@, number(le_u32_at(entry.header@, 0))),
            (
                "prev_block_hash"@,
                JsonView::String(hex_of(entry.header@.subrange(4, 36).reverse())),
            ),
            ("merkle_root"@, JsonView::String(hex_of(entry.header@.subrange(36, 68).reverse()))),
            ("timestamp"@, number(le_u32_at(entry.header@, 68))),
            ("bits"@, number(le_u32_at(entry.header@, 72))),
            ("nonce"@, number(le_u32_at(entry.header@, 76))),
        ]);
        assert("block_height"@.len() == 12);
        assert("version"@.len() == 7);
        assert("prev_block_hash"@.len() == 15);
        assert("merkle_root"@.len() == 11);
        assert("timestamp"@.len() == 9);
        assert("bits"@.len() == 4);
        assert("nonce"@.len() == 5);
    }
    json_object(members)
}

/// The hash that stands at `at` in a serialized header, as the wire shows
/// it.
fn hash_text(header: &[u8], at: usize) -> (text: String)
    requires
        at + 32 <= header@.len(),
    ensures
        text@ == hex_of(header@.subrange(at as int, at + 32).reverse()),
{
    let len: usize = header.len();
    let mut hash: Vec<u8> = Vec::new();
    let mut i: usize = 0;
    while i < 32
        invariant
            i <= 32,
            at + 32 <= header@.len() == len,
            hash@ == header@.subrange(at as int, at + i),
        decreases 32 - i,
    {
        hash.push(header[at + i]);
        assert(header@.subrange(at as int, at + i + 1) =~= header@.subrange(
            at as int,
            at + i,
        ).push(header@[at + i]));
        i = i + 1;
    }
    be_hex(hash.as_slice())
}

/// Shows a status hash.
pub fn jsonify_status(hash: &Option<Vec<u8>>) -> (value: serde_json::Value)
    ensures
        json_model(value) == status_json(
            match *hash {
                Some(h) => Some(h@),
                None => None,
            },
        ),
{
    match hash {
        Some(h) => {
            let hex = hex_encode(h.as_slice());
            json_string(hex.as_str())
        },
        None => json_null(),
    }
}

/// Shows the two balances of a script hash.
pub fn jsonify_balance(status: &Status) -> (value: serde_json::Value)
    ensures
        json_model(value) == balance_json(*status),
{
    let mut members: Vec<(String, serde_json::Value)> = Vec::new();
    members.push(named("confirmed", json_i64(status.confirmed)));
    members.push(named("unconfirmed", json_i64(status.mempool)));
    proof {
        reveal_strlit("confirmed");
        reveal_strlit("unconfirmed");
        assert(member_models(members@) =~= seq![
            ("confirmed"@, JsonView::Number(num_of_i64(status.confirmed))),
            ("unconfirmed"@, JsonView::Number(num_of_i64(status.mempool))),
        ]);
        assert("confirmed"@.len() == 9);
        assert("unconfirmed"@.len() == 11);
    }
    json_object(members)
}

/// Shows the history of a script hash.
pub fn jsonify_history(items: &Vec<HistoryItem>) -> (value: serde_json::Value)
    ensures
        json_model(value) == history_json(items@),
{
    let mut out: Vec<serde_json::Value> = Vec::new();
    let mut i: usize = 0;
    while i < items.len()
        invariant
            i <= items@.len(),
            out@.len() == i,
            forall|k: int| 0 <= k < i ==> json_model(#[trigger] out@[k]) == history_item_json(items@[k]),
        decreases items@.len() - i,
    {
        let hex = be_hex(items[i].tx_hash.as_slice());
        let mut members: Vec<(String, serde_json::Value)> = Vec::new();
        members.push(named("height", json_i64(items[i].height as i64)));
        members.push(named("tx_hash", json_string(hex.as_str())));
        proof {
            reveal_strlit("height");
            reveal_strlit("tx_hash");
            assert(member_models(members@) =~= seq![
                ("height"@, JsonView::Number(num_of_i64(items@[i as int].height as i64))),
                ("tx_hash"@, JsonView::String(hex_of(items@[i as int].tx_hash@.reverse()))),
            ]);
            assert("height"@.len() == 6);
            assert("tx_hash"@.len() == 7);
        }
        out.push(json_object(members));
        i = i + 1;
    }
    proof {
        assert(models(out@) =~= Seq::new(items@.len(), |i: int| history_item_json(items@[i])));
    }
    json_array(out)
}

/// Shows the unspent outputs of a script hash.
pub fn unspent_from_status(status: &Status) -> (value: serde_json::Value)
    ensures
        json_model(value) == unspent_json(status.unspent@),
{
    let outs = &status.unspent;
    let mut out: Vec<serde_json::Value> = Vec::new();
    let mut i: usize = 0;
    while i < outs.len()
        invariant
            i <= outs@.len(),
            out@.len() == i,
            forall|k: int| 0 <= k < i ==> json_model(#[trigger] out@[k]) == unspent_item_json(outs@[k]),
        decreases outs@.len() - i,
    {
        let hex = be_hex(outs[i].tx_hash.as_slice());
        let mut members: Vec<(String, serde_json::Value)> = Vec::new();
        members.push(named("height", json_u64(outs[i].height as u64)));
        members.push(named("tx_pos", json_usize(outs[i].tx_pos)));
        members.push(named("tx_hash", json_string(hex.as_str())));
        members.push(named("value", json_u64(outs[i].value)));
        proof {
            reveal_strlit("height");
            reveal_strlit("tx_pos");
            reveal_strlit("tx_hash");
            reveal_strlit("value");
            assert(member_models(members@) =~= seq![
                ("height"@, number(outs@[i as int].height as int)),
                ("tx_pos"@, number(outs@[i as int].tx_pos as int)),
                ("tx_hash"@, JsonView::String(hex_of(outs@[i as int].tx_hash@.reverse()))),
                ("value"@, number(outs@[i as int].value as int)),
            ]);
            assert("height"@[0] == 'h');
            assert("tx_pos"@[0] == 't');
            assert("height"@.len() == 6);
            assert("tx_pos"@.len() == 6);
            assert("tx_hash"@.len() == 7);
            assert("value"@.len() == 5);
        }
        out.push(json_object(members));
        i = i + 1;
    }
    proof {
        assert(models(out@) =~= Seq::new(outs@.len(), |i: int| unspent_item_json(outs@[i])));
    }
    json_array(out)
}

/// Shows a merkle proof.
pub fn jsonify_merkle(height: usize, merkle: &Vec<Vec<u8>>, pos: usize) -> (value:
    serde_json::Value)
    ensures
        json_model(value) == merkle_json(height, merkle@, pos),
{
    let mut branch: Vec<serde_json::Value> = Vec::new();
    let mut i: usize = 0;
    while i < merkle.len()
        invariant
            i <= merkle@.len(),
            branch@.len() == i,
            forall|k: int|
                0 <= k < i ==> json_model(#[trigger] branch@[k]) == JsonView::String(
                    hex_of(merkle@[k]@.reverse()),
                ),
        decreases merkle@.len() - i,
    {
        let hex = be_hex(merkle[i].as_slice());
        branch.push(json_string(hex.as_str()));
        i = i + 1;
    }
    let ghost items = models(branch@);
    proof {
        assert(items =~= Seq::new(
            merkle@.len(),
            |i: int| JsonView::String(hex_of(merkle@[i]@.reverse())),
        ));
    }
    let mut members: Vec<(String, serde_json::Value)> = Vec::new();
    members.push(named("block_height", json_usize(height)));
    members.push(named("merkle", json_array(branch)));
    members.push(named("pos", json_usize(pos)));
    proof {
        reveal_strlit("block_height");
        reveal_strlit("merkle");
        reveal_strlit("pos");
        assert(member_models(members@) =~= seq![
            ("block_height"@, number(height as int)),
            ("merkle"@, JsonView::Array(items)),
            ("pos"@, number(pos as int)),
        ]);
        assert("block_height"@.len() == 12);
        assert("merkle"@.len() == 6);
        assert("pos"@.len() == 3);
    }
    json_object(members)
}

} // verus!
