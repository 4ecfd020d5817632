use bitcoin::blockdata::constants::genesis_block;
use bitcoin::consensus::encode::serialize;
use bitcoin::network::constants::Network;
use bitcoin::util::hash::BitcoinHash;
use electrs::methods::{method_of, Call, Method};
use electrs::reply::{HeaderEntry, HistoryItem, Status, Unspent};
use electrs::rpc::{
    Answer, Connection, ConnectionError, LineError, Message, Next, Notification, Pending,
    SendOutcome, Turn, RPC,
};

fn ask(conn: &Connection, line: &str) -> Turn {
    conn.handle_replies(Message::Request(line.to_string()))
}

fn reply_line(conn: &Connection, line: &str) -> String {
    match ask(conn, line) {
        Turn::Reply(value) => Connection::wire_line(&value),
        other => panic!("no reply at once: {:?}", other),
    }
}

fn pending(conn: &Connection, line: &str) -> Pending {
    match ask(conn, line) {
        Turn::Ask(pending) => pending,
        other => panic!("no call: {:?}", other),
    }
}

fn answered(conn: &mut Connection, line: &str, answer: Answer) -> String {
    let pending = pending(conn, line);
    assert!(Connection::accepts(&pending, &answer));
    Connection::wire_line(&conn.finish(pending, answer).reply)
}

fn genesis_entry() -> HeaderEntry {
    let block = genesis_block(Network::Bitcoin);
    HeaderEntry {
        height: 0,
        hash: block.bitcoin_hash()[..].to_vec(),
        header: serialize(&block.header),
    }
}

fn testnet_entry(height: usize) -> HeaderEntry {
    let block = genesis_block(Network::Testnet);
    HeaderEntry {
        height,
        hash: block.bitcoin_hash()[..].to_vec(),
        header: serialize(&block.header),
    }
}

fn empty_status() -> Status {
    Status { hash: None, confirmed: 0, mempool: 0, history: vec![], unspent: vec![] }
}

const SCRIPT_HASH_HEX: &str = "8b01df4e368ea28f8dc0423bcf7a4923e3a12d307c875e47a0cfbf90b5c39161";

fn script_hash() -> Vec<u8> {
    let mut bytes = hex::decode(SCRIPT_HASH_HEX).unwrap();
    bytes.reverse();
    bytes
}

fn subscribe_line(id: u32) -> String {
    format!(
        "{{\"jsonrpc\":\"2.0\",\"id\":{},\"method\":\"blockchain.scripthash.subscribe\",\"params\":[\"{}\"]}}\n",
        id, SCRIPT_HASH_HEX
    )
}

// The reader of a connection.

#[test]
fn end_of_stream_ends_the_reader_quietly() {
    let step = Connection::handle_requests(vec![]);
    assert!(matches!(step.message, Message::Done));
    assert_eq!(step.next, Next::Stop);
}

#[test]
fn tls_handshake_bytes_end_the_connection_without_a_request() {
    let step = Connection::handle_requests(vec![0x16, 0x03, 0x01]);
    assert!(matches!(step.message, Message::Done));
    assert_eq!(step.next, Next::Fail(LineError::Tls));
    let longer = Connection::handle_requests(vec![0x16, 0x03, 0x01, 0x02, 0x00, 0x01, b'\n']);
    assert!(matches!(longer.message, Message::Done));
    assert_eq!(longer.next, Next::Fail(LineError::Tls));
}

#[test]
fn two_handshake_bytes_alone_are_no_handshake() {
    let step = Connection::handle_requests(vec![0x16, 0x03]);
    assert!(matches!(step.message, Message::Request(_)));
    assert_eq!(step.next, Next::Continue);
}

#[test]
fn bytes_that_are_not_utf8_end_the_connection() {
    let step = Connection::handle_requests(vec![b'{', 0xFF, 0xFE, b'}', b'\n']);
    assert!(matches!(step.message, Message::Done));
    assert_eq!(step.next, Next::Fail(LineError::InvalidUtf8));
}

#[test]
fn a_line_of_text_becomes_a_request() {
    let step = Connection::handle_requests("{\"id\":1}\n".as_bytes().to_vec());
    match step.message {
        Message::Request(text) => assert_eq!(text, "{\"id\":1}\n"),
        other => panic!("{:?}", other),
    }
    assert_eq!(step.next, Next::Continue);
    let accented = Connection::handle_requests("h\u{e9}\n".as_bytes().to_vec());
    match accented.message {
        Message::Request(text) => assert_eq!(text, "h\u{e9}\n"),
        other => panic!("{:?}", other),
    }
}

// The dispatcher.

#[test]
fn server_version_is_answered_on_one_line() {
    let conn = Connection::new();
    assert_eq!(
        reply_line(
            &conn,
            "{\"jsonrpc\":\"2.0\",\"id\":1,\"method\":\"server.version\",\"params\":[]}\n"
        ),
        "{\"jsonrpc\":\"2.0\",\"id\":1,\"result\":[\"RustElectrum 0.1.0\",\"1.2\"]}\n"
    );
}

#[test]
fn server_ping_returns_null_under_any_id() {
    let conn = Connection::new();
    for id in ["0", "42", "18446744073709551615", "-3", "1.5"] {
        let line = format!("{{\"jsonrpc\":\"2.0\",\"id\":{},\"method\":\"server.ping\"}}", id);
        assert_eq!(
            reply_line(&conn, &line),
            format!("{{\"jsonrpc\":\"2.0\",\"id\":{},\"result\":null}}\n", id)
        );
    }
}

#[test]
fn unknown_method_fails_the_request_and_not_the_connection() {
    let conn = Connection::new();
    assert_eq!(
        reply_line(
            &conn,
            "{\"jsonrpc\":\"2.0\",\"id\":7,\"method\":\"no.such.method\",\"params\":[]}\n"
        ),
        "{\"jsonrpc\":\"2.0\",\"id\":7,\"error\":\"unknown method no.such.method []\"}\n"
    );
    assert_eq!(
        reply_line(&conn, "{\"jsonrpc\":\"2.0\",\"id\":8,\"method\":\"server.ping\",\"params\":[]}\n"),
        "{\"jsonrpc\":\"2.0\",\"id\":8,\"result\":null}\n"
    );
}

#[test]
fn unknown_method_shows_its_parameters() {
    let conn = Connection::new();
    assert_eq!(
        reply_line(&conn, "{\"id\":1,\"method\":\"x\",\"params\":[\"a\",1]}"),
        "{\"jsonrpc\":\"2.0\",\"id\":1,\"error\":\"unknown method x [String(\\\"a\\\"), Number(1)]\"}\n"
    );
}

#[test]
fn static_methods_answer_at_once() {
    let conn = Connection::new();
    assert_eq!(
        reply_line(&conn, "{\"id\":1,\"method\":\"server.banner\",\"params\":[]}"),
        "{\"jsonrpc\":\"2.0\",\"id\":1,\"result\":\"Welcome to RustElectrum Server!\\n\"}\n"
    );
    assert_eq!(
        reply_line(&conn, "{\"id\":2,\"method\":\"server.donation_address\",\"params\":[]}"),
        "{\"jsonrpc\":\"2.0\",\"id\":2,\"result\":null}\n"
    );
    assert_eq!(
        reply_line(&conn, "{\"id\":3,\"method\":\"server.peers.subscribe\",\"params\":[]}"),
        "{\"jsonrpc\":\"2.0\",\"id\":3,\"result\":[]}\n"
    );
    assert_eq!(
        reply_line(&conn, "{\"id\":4,\"method\":\"blockchain.relayfee\",\"params\":[]}"),
        "{\"jsonrpc\":\"2.0\",\"id\":4,\"result\":0.0}\n"
    );
}

#[test]
fn every_method_name_is_known() {
    let names = [
        ("blockchain.address.get_balance", Method::AddressGetBalance),
        ("blockchain.address.get_history", Method::AddressGetHistory),
        ("blockchain.address.listunspent", Method::AddressListunspent),
        ("blockchain.address.subscribe", Method::AddressSubscribe),
        ("blockchain.block.get_header", Method::BlockGetHeader),
        ("blockchain.block.header", Method::BlockHeader),
        ("blockchain.block.headers", Method::BlockHeaders),
        ("blockchain.estimatefee", Method::EstimateFee),
        ("blockchain.headers.subscribe", Method::HeadersSubscribe),
        ("blockchain.relayfee", Method::RelayFee),
        ("blockchain.scripthash.get_balance", Method::ScripthashGetBalance),
        ("blockchain.scripthash.get_history", Method::ScripthashGetHistory),
        ("blockchain.scripthash.listunspent", Method::ScripthashListunspent),
        ("blockchain.scripthash.subscribe", Method::ScripthashSubscribe),
        ("blockchain.transaction.broadcast", Method::TransactionBroadcast),
        ("blockchain.transaction.get", Method::TransactionGet),
        ("blockchain.transaction.get_merkle", Method::TransactionGetMerkle),
        ("mempool.get_fee_histogram", Method::FeeHistogram),
        ("server.banner", Method::ServerBanner),
        ("server.donation_address", Method::ServerDonationAddress),
        ("server.peers.subscribe", Method::ServerPeersSubscribe),
        ("server.ping", Method::ServerPing),
        ("server.version", Method::ServerVersion),
    ];
    for (name, method) in names {
        assert_eq!(method_of(name), Some(method));
    }
    assert_eq!(method_of("server.Ping"), None);
    assert_eq!(method_of(""), None);
}

#[test]
fn missing_params_count_as_none() {
    let conn = Connection::new();
    assert_eq!(
        reply_line(&conn, "{\"id\":5,\"method\":\"server.version\"}"),
        "{\"jsonrpc\":\"2.0\",\"id\":5,\"result\":[\"RustElectrum 0.1.0\",\"1.2\"]}\n"
    );
    assert_eq!(
        reply_line(&conn, "{\"id\":5,\"method\":\"blockchain.estimatefee\"}"),
        "{\"jsonrpc\":\"2.0\",\"id\":5,\"error\":\"missing blocks_count\"}\n"
    );
}

#[test]
fn line_that_is_no_json_fails_the_connection() {
    let conn = Connection::new();
    match ask(&conn, "{\"id\":1,") {
        Turn::Fail(error) => {
            assert!(matches!(error, ConnectionError::InvalidJson));
            assert_eq!(error.message(), "invalid JSON format");
        }
        other => panic!("{:?}", other),
    }
}

#[test]
fn document_that_is_no_request_fails_the_connection() {
    let conn = Connection::new();
    let lines = [
        "{\"method\":\"server.ping\",\"params\":[]}",
        "{\"id\":\"1\",\"method\":\"server.ping\",\"params\":[]}",
        "{\"id\":1,\"method\":7,\"params\":[]}",
        "{\"id\":1,\"method\":\"server.ping\",\"params\":{}}",
        "{\"id\":1,\"params\":[]}",
        "[1,2]",
    ];
    for line in lines {
        match ask(&conn, line) {
            Turn::Fail(ConnectionError::InvalidCommand(_)) => {}
            other => panic!("{}: {:?}", line, other),
        }
    }
    match ask(&conn, "{\"id\":1,\"params\":[]}") {
        Turn::Fail(error) => {
            assert_eq!(error.message(), "invalid command: {\"id\":1,\"params\":[]}")
        }
        other => panic!("{:?}", other),
    }
}

#[test]
fn done_closes_and_a_tick_polls() {
    let conn = Connection::new();
    assert!(matches!(conn.handle_replies(Message::Done), Turn::Close));
    match conn.handle_replies(Message::PeriodicUpdate) {
        Turn::Poll(poll) => {
            assert!(!poll.header);
            assert!(poll.script_hashes.is_empty());
        }
        other => panic!("{:?}", other),
    }
}

#[test]
fn parameters_that_do_not_fit_fail_the_request() {
    let conn = Connection::new();
    let cases = [
        ("blockchain.block.header", "[]", "missing height"),
        ("blockchain.block.header", "[\"1\"]", "non-integer height"),
        ("blockchain.block.header", "[-1]", "non-integer height"),
        ("blockchain.block.header", "[1.5]", "non-integer height"),
        ("blockchain.block.get_header", "[]", "missing missing height"),
        ("blockchain.block.get_header", "[null]", "non-integer missing height"),
        ("blockchain.block.headers", "[]", "missing start_height"),
        ("blockchain.block.headers", "[0]", "missing count"),
        ("blockchain.block.headers", "[0,\"2\"]", "non-integer count"),
        ("blockchain.estimatefee", "[true]", "non-integer blocks_count"),
        ("blockchain.scripthash.subscribe", "[]", "bad script_hash"),
        ("blockchain.scripthash.get_balance", "[5]", "bad script_hash"),
        ("blockchain.scripthash.get_history", "[\"zz\"]", "bad script_hash"),
        ("blockchain.scripthash.listunspent", "[\"00ff\"]", "bad script_hash"),
        ("blockchain.address.subscribe", "[]", "bad address"),
        ("blockchain.address.get_balance", "[1]", "bad address"),
        ("blockchain.address.get_history", "[\"not an address\"]", "bad address"),
        ("blockchain.address.listunspent", "[\"1A1zP1eP5QGefi2DMPTfTL5SLmv7DivfNb\"]", "bad address"),
        ("blockchain.transaction.broadcast", "[]", "missing tx"),
        ("blockchain.transaction.broadcast", "[1]", "non-string tx"),
        ("blockchain.transaction.broadcast", "[\"xyz\"]", "non-hex tx"),
        ("blockchain.transaction.broadcast", "[\"abc\"]", "non-hex tx"),
        ("blockchain.transaction.broadcast", "[\"00ff\"]", "failed to parse tx"),
        ("blockchain.transaction.get", "[]", "bad tx_hash"),
        ("blockchain.transaction.get_merkle", "[\"00\"]", "bad tx_hash"),
    ];
    for (method, params, message) in cases {
        let line = format!("{{\"id\":9,\"method\":\"{}\",\"params\":{}}}", method, params);
        assert_eq!(
            reply_line(&conn, &line),
            format!("{{\"jsonrpc\":\"2.0\",\"id\":9,\"error\":\"{}\"}}\n", message),
            "{}",
            line
        );
    }
    let hash = SCRIPT_HASH_HEX;
    assert_eq!(
        reply_line(
            &conn,
            &format!("{{\"id\":9,\"method\":\"blockchain.transaction.get\",\"params\":[\"{}\",1]}}", hash)
        ),
        "{\"jsonrpc\":\"2.0\",\"id\":9,\"error\":\"non-bool verbose value\"}\n"
    );
    assert_eq!(
        reply_line(
            &conn,
            &format!("{{\"id\":9,\"method\":\"blockchain.transaction.get_merkle\",\"params\":[\"{}\"]}}", hash)
        ),
        "{\"jsonrpc\":\"2.0\",\"id\":9,\"error\":\"missing height\"}\n"
    );
}

#[test]
fn hash_parameter_is_kept_in_the_opposite_byte_order() {
    let conn = Connection::new();
    let upper = SCRIPT_HASH_HEX.to_uppercase();
    for text in [SCRIPT_HASH_HEX, upper.as_str()] {
        let line = format!(
            "{{\"id\":1,\"method\":\"blockchain.scripthash.get_balance\",\"params\":[\"{}\"]}}",
            text
        );
        let pending = pending(&conn, &line);
        assert_eq!(pending.method, Method::ScripthashGetBalance);
        match pending.call {
            Call::Status { script_hash: asked } => {
                assert_eq!(asked, script_hash());
                assert_eq!(asked[31], 0x8b);
                assert_eq!(asked[0], 0x61);
            }
            other => panic!("{:?}", other),
        }
    }
}

#[test]
fn calls_carry_what_the_parameters_say() {
    let conn = Connection::new();
    let p = pending(&conn, "{\"id\":1,\"method\":\"blockchain.estimatefee\",\"params\":[6]}");
    assert!(matches!(p.call, Call::EstimateFee { blocks: 6 }));
    let p = pending(&conn, "{\"id\":1,\"method\":\"blockchain.block.headers\",\"params\":[100,20]}");
    assert!(matches!(p.call, Call::Headers { start: 100, count: 20 }));
    let p = pending(&conn, "{\"id\":1,\"method\":\"blockchain.block.header\",\"params\":[5]}");
    assert!(matches!(p.call, Call::Headers { start: 5, count: 1 }));
    let p = pending(&conn, "{\"id\":1,\"method\":\"blockchain.block.get_header\",\"params\":[7]}");
    assert!(matches!(p.call, Call::Headers { start: 7, count: 1 }));
    let p = pending(&conn, "{\"id\":1,\"method\":\"blockchain.headers.subscribe\",\"params\":[]}");
    assert!(matches!(p.call, Call::BestHeader));
    let p = pending(&conn, "{\"id\":1,\"method\":\"mempool.get_fee_histogram\",\"params\":[]}");
    assert!(matches!(p.call, Call::FeeHistogram));
    let line = format!(
        "{{\"id\":1,\"method\":\"blockchain.transaction.get\",\"params\":[\"{}\"]}}",
        SCRIPT_HASH_HEX
    );
    match pending(&conn, &line).call {
        Call::Transaction { tx_hash, verbose } => {
            assert_eq!(tx_hash, script_hash());
            assert!(!verbose);
        }
        other => panic!("{:?}", other),
    }
    let line = format!(
        "{{\"id\":1,\"method\":\"blockchain.transaction.get\",\"params\":[\"{}\",true]}}",
        SCRIPT_HASH_HEX
    );
    assert!(matches!(pending(&conn, &line).call, Call::Transaction { verbose: true, .. }));
    let line = format!(
        "{{\"id\":1,\"method\":\"blockchain.transaction.get_merkle\",\"params\":[\"{}\",11]}}",
        SCRIPT_HASH_HEX
    );
    assert!(matches!(pending(&conn, &line).call, Call::MerkleProof { height: 11, .. }));
}

#[test]
fn address_is_turned_into_its_script() {
    let conn = Connection::new();
    let p = pending(
        &conn,
        "{\"id\":1,\"method\":\"blockchain.address.get_balance\",\"params\":[\"1A1zP1eP5QGefi2DMPTfTL5SLmv7DivfNa\"]}",
    );
    match p.call {
        Call::AddressStatus { script } => assert_eq!(
            script,
            hex::decode("76a91462e907b15cbf27d5425399ebf6f0fb50ebb88f1888ac").unwrap()
        ),
        other => panic!("{:?}", other),
    }
}

#[test]
fn raw_transaction_is_decoded_from_hex() {
    let conn = Connection::new();
    let tx = serialize(&genesis_block(Network::Bitcoin).txdata[0]);
    let line = format!(
        "{{\"id\":1,\"method\":\"blockchain.transaction.broadcast\",\"params\":[\"{}\"]}}",
        hex::encode(&tx)
    );
    match pending(&conn, &line).call {
        Call::Broadcast { tx: asked } => assert_eq!(asked, tx),
        other => panic!("{:?}", other),
    }
}

// Answers of the query layer.

#[test]
fn fee_estimate_passes_through() {
    let mut conn = Connection::new();
    let rate = serde_json::Value::from(0.00012);
    assert_eq!(
        answered(
            &mut conn,
            "{\"id\":3,\"method\":\"blockchain.estimatefee\",\"params\":[2]}",
            Answer::Json(rate)
        ),
        "{\"jsonrpc\":\"2.0\",\"id\":3,\"result\":0.00012}\n"
    );
}

#[test]
fn failure_of_the_query_layer_fails_the_request() {
    let mut conn = Connection::new();
    assert_eq!(
        answered(
            &mut conn,
            "{\"id\":3,\"method\":\"blockchain.estimatefee\",\"params\":[2]}",
            Answer::Failed("daemon is down".to_string())
        ),
        "{\"jsonrpc\":\"2.0\",\"id\":3,\"error\":\"daemon is down\"}\n"
    );
    let line = format!(
        "{{\"id\":4,\"method\":\"blockchain.transaction.get_merkle\",\"params\":[\"{}\",1]}}",
        SCRIPT_HASH_HEX
    );
    assert_eq!(
        answered(&mut conn, &line, Answer::Failed("no such tx".to_string())),
        "{\"jsonrpc\":\"2.0\",\"id\":4,\"error\":\"cannot create merkle proof\"}\n"
    );
}

#[test]
fn answer_of_the_wrong_kind_is_not_accepted() {
    let conn = Connection::new();
    let p = pending(&conn, "{\"id\":3,\"method\":\"blockchain.estimatefee\",\"params\":[2]}");
    assert!(!Connection::accepts(&p, &Answer::Txid(vec![0; 32])));
    assert!(!Connection::accepts(&p, &Answer::Header(genesis_entry())));
    assert!(Connection::accepts(&p, &Answer::Failed(String::new())));
    let p = pending(&conn, "{\"id\":3,\"method\":\"blockchain.block.get_header\",\"params\":[2]}");
    assert!(Connection::accepts(&p, &Answer::Headers(vec![])));
    assert!(Connection::accepts(&p, &Answer::Headers(vec![genesis_entry()])));
    assert!(!Connection::accepts(&p, &Answer::Headers(vec![genesis_entry(), genesis_entry()])));
    let mut short = genesis_entry();
    short.header.pop();
    assert!(!Connection::accepts(&p, &Answer::Headers(vec![short])));
    let p = pending(&conn, &subscribe_line(1));
    let other = Answer::Status { script_hash: vec![0; 32], status: empty_status() };
    assert!(!Connection::accepts(&p, &other));
}

#[test]
fn headers_subscribe_shows_the_best_header() {
    let mut conn = Connection::new();
    let entry = genesis_entry();
    let expected = format!(
        "{{\"jsonrpc\":\"2.0\",\"id\":2,\"result\":{{\"hex\":\"{}\",\"height\":0}}}}\n",
        hex::encode(&entry.header)
    );
    assert_eq!(
        answered(
            &mut conn,
            "{\"id\":2,\"method\":\"blockchain.headers.subscribe\",\"params\":[]}",
            Answer::Header(entry)
        ),
        expected
    );
    assert!(conn.poll().header);
}

#[test]
fn block_header_methods_show_headers() {
    let mut conn = Connection::new();
    let one = hex::encode(&genesis_entry().header);
    let two = hex::encode(&testnet_entry(1).header);
    assert_eq!(one.len(), 160);
    assert_eq!(
        answered(
            &mut conn,
            "{\"id\":2,\"method\":\"blockchain.block.header\",\"params\":[0]}",
            Answer::Headers(vec![genesis_entry()])
        ),
        format!("{{\"jsonrpc\":\"2.0\",\"id\":2,\"result\":\"{}\"}}\n", one)
    );
    assert_eq!(
        answered(
            &mut conn,
            "{\"id\":2,\"method\":\"blockchain.block.headers\",\"params\":[0,5]}",
            Answer::Headers(vec![genesis_entry(), testnet_entry(1)])
        ),
        format!(
            "{{\"jsonrpc\":\"2.0\",\"id\":2,\"result\":{{\"count\":2,\"hex\":\"{}{}\",\"max\":2016}}}}\n",
            one, two
        )
    );
    assert_eq!(
        answered(
            &mut conn,
            "{\"id\":2,\"method\":\"blockchain.block.headers\",\"params\":[9,5]}",
            Answer::Headers(vec![])
        ),
        "{\"jsonrpc\":\"2.0\",\"id\":2,\"result\":{\"count\":0,\"hex\":\"\",\"max\":2016}}\n"
    );
}

#[test]
fn get_header_spells_the_fields_out() {
    let mut conn = Connection::new();
    assert_eq!(
        answered(
            &mut conn,
            "{\"id\":2,\"method\":\"blockchain.block.get_header\",\"params\":[0]}",
            Answer::Headers(vec![genesis_entry()])
        ),
        [
            "{\"jsonrpc\":\"2.0\",\"id\":2,\"result\":{\"block_height\":0,\"version\":1,",
            "\"prev_block_hash\":\"0000000000000000000000000000000000000000000000000000000000000000\",",
            "\"merkle_root\":\"4a5e1e4baab89f3a32518a88c31bc87f618f76673e2cc77ab2127b7afdeda33b\",",
            "\"timestamp\":1231006505,\"bits\":486604799,\"nonce\":2083236893}}\n",
        ]
        .join("")
    );
    assert_eq!(
        answered(
            &mut conn,
            "{\"id\":2,\"method\":\"blockchain.block.get_header\",\"params\":[500]}",
            Answer::Headers(vec![])
        ),
        "{\"jsonrpc\":\"2.0\",\"id\":2,\"error\":\"missing header #500\"}\n"
    );
}

#[test]
fn status_methods_show_balance_history_and_unspent() {
    let mut conn = Connection::new();
    let txid = script_hash();
    let status = Status {
        hash: Some(vec![0xAB; 32]),
        confirmed: 5000,
        mempool: -1200,
        history: vec![
            HistoryItem { height: 100, tx_hash: txid.clone() },
            HistoryItem { height: -1, tx_hash: vec![0x11; 32] },
        ],
        unspent: vec![Unspent { height: 100, tx_pos: 1, tx_hash: txid.clone(), value: 3800 }],
    };
    let line = |method: &str| {
        format!(
            "{{\"id\":6,\"method\":\"blockchain.scripthash.{}\",\"params\":[\"{}\"]}}",
            method, SCRIPT_HASH_HEX
        )
    };
    let answer = || Answer::Status { script_hash: script_hash(), status: status.clone() };
    assert_eq!(
        answered(&mut conn, &line("get_balance"), answer()),
        "{\"jsonrpc\":\"2.0\",\"id\":6,\"result\":{\"confirmed\":5000,\"unconfirmed\":-1200}}\n"
    );
    assert_eq!(
        answered(&mut conn, &line("get_history"), answer()),
        format!(
            "{{\"jsonrpc\":\"2.0\",\"id\":6,\"result\":[{{\"height\":100,\"tx_hash\":\"{}\"}},{{\"height\":-1,\"tx_hash\":\"{}\"}}]}}\n",
            SCRIPT_HASH_HEX,
            "11".repeat(32)
        )
    );
    assert_eq!(
        answered(&mut conn, &line("listunspent"), answer()),
        format!(
            "{{\"jsonrpc\":\"2.0\",\"id\":6,\"result\":[{{\"height\":100,\"tx_pos\":1,\"tx_hash\":\"{}\",\"value\":3800}}]}}\n",
            SCRIPT_HASH_HEX
        )
    );
    assert_eq!(conn.subscription_count(), 0);
    assert_eq!(
        answered(&mut conn, &line("subscribe"), answer()),
        format!("{{\"jsonrpc\":\"2.0\",\"id\":6,\"result\":\"{}\"}}\n", "ab".repeat(32))
    );
    assert_eq!(conn.subscription_count(), 1);
}

#[test]
fn address_methods_answer_as_the_scripthash_methods() {
    let mut conn = Connection::new();
    let status = Status { hash: None, confirmed: 7, mempool: 0, history: vec![], unspent: vec![] };
    assert_eq!(
        answered(
            &mut conn,
            "{\"id\":6,\"method\":\"blockchain.address.get_balance\",\"params\":[\"1A1zP1eP5QGefi2DMPTfTL5SLmv7DivfNa\"]}",
            Answer::Status { script_hash: script_hash(), status: status.clone() }
        ),
        "{\"jsonrpc\":\"2.0\",\"id\":6,\"result\":{\"confirmed\":7,\"unconfirmed\":0}}\n"
    );
    assert_eq!(
        answered(
            &mut conn,
            "{\"id\":6,\"method\":\"blockchain.address.subscribe\",\"params\":[\"1A1zP1eP5QGefi2DMPTfTL5SLmv7DivfNa\"]}",
            Answer::Status { script_hash: script_hash(), status }
        ),
        "{\"jsonrpc\":\"2.0\",\"id\":6,\"result\":null}\n"
    );
    assert_eq!(conn.poll().script_hashes, vec![script_hash()]);
}

#[test]
fn broadcast_answers_with_the_txid_and_owes_a_tick() {
    let mut conn = Connection::new();
    let tx = serialize(&genesis_block(Network::Bitcoin).txdata[0]);
    let line = format!(
        "{{\"id\":1,\"method\":\"blockchain.transaction.broadcast\",\"params\":[\"{}\"]}}",
        hex::encode(&tx)
    );
    let p = pending(&conn, &line);
    let done = conn.finish(p, Answer::Txid(script_hash()));
    assert!(done.update);
    assert_eq!(
        Connection::wire_line(&done.reply),
        format!("{{\"jsonrpc\":\"2.0\",\"id\":1,\"result\":\"{}\"}}\n", SCRIPT_HASH_HEX)
    );
    let p = pending(&conn, &line);
    let failed = conn.finish(p, Answer::Failed("rejected".to_string()));
    assert!(!failed.update);
}

#[test]
fn merkle_proof_shows_branch_and_place() {
    let mut conn = Connection::new();
    let line = format!(
        "{{\"id\":1,\"method\":\"blockchain.transaction.get_merkle\",\"params\":[\"{}\",120]}}",
        SCRIPT_HASH_HEX
    );
    assert_eq!(
        answered(
            &mut conn,
            &line,
            Answer::Merkle { merkle: vec![script_hash(), vec![0x22; 32]], pos: 3 }
        ),
        format!(
            "{{\"jsonrpc\":\"2.0\",\"id\":1,\"result\":{{\"block_height\":120,\"merkle\":[\"{}\",\"{}\"],\"pos\":3}}}}\n",
            SCRIPT_HASH_HEX,
            "22".repeat(32)
        )
    );
}

#[test]
fn responses_carry_the_ids_of_their_requests_in_order() {
    let mut conn = Connection::new();
    let mut lines = Vec::new();
    for id in [3u32, 1, 2] {
        let line = format!("{{\"id\":{},\"method\":\"server.ping\",\"params\":[]}}", id);
        lines.push(reply_line(&conn, &line));
        let line = format!("{{\"id\":{},\"method\":\"blockchain.estimatefee\",\"params\":[1]}}", id + 10);
        lines.push(answered(&mut conn, &line, Answer::Json(serde_json::Value::from(1u64))));
    }
    let ids: Vec<String> = lines
        .iter()
        .map(|l| {
            let value: serde_json::Value = serde_json::from_str(l).unwrap();
            value.get("id").unwrap().to_string()
        })
        .collect();
    assert_eq!(ids, vec!["3", "13", "1", "11", "2", "12"]);
}

// Subscriptions.

#[test]
fn subscription_is_notified_once_when_its_status_changes() {
    let mut conn = Connection::new();
    // Subscribe to a script hash without history.
    assert_eq!(
        answered(
            &mut conn,
            &subscribe_line(1),
            Answer::Status { script_hash: script_hash(), status: empty_status() }
        ),
        "{\"jsonrpc\":\"2.0\",\"id\":1,\"result\":null}\n"
    );
    match conn.handle_replies(Message::PeriodicUpdate) {
        Turn::Poll(poll) => {
            assert!(!poll.header);
            assert_eq!(poll.script_hashes, vec![script_hash()]);
        }
        other => panic!("{:?}", other),
    }
    // A tick without a change.
    assert!(conn.update_subscriptions(None, vec![None]).is_empty());
    // A tick after a transaction that touches the script hash.
    let notes = conn.update_subscriptions(None, vec![Some(vec![0xCD; 32])]);
    assert_eq!(
        Connection::send_values(&notes),
        vec![format!(
            "{{\"jsonrpc\":\"2.0\",\"method\":\"blockchain.scripthash.subscribe\",\"params\":[\"{}\",\"{}\"]}}\n",
            SCRIPT_HASH_HEX,
            "cd".repeat(32)
        )]
    );
    // The next tick finds the same status.
    assert!(conn.update_subscriptions(None, vec![Some(vec![0xCD; 32])]).is_empty());
    // A status that goes back to nothing is a change too.
    let notes = conn.update_subscriptions(None, vec![None]);
    assert_eq!(
        Connection::send_values(&notes),
        vec![format!(
            "{{\"jsonrpc\":\"2.0\",\"method\":\"blockchain.scripthash.subscribe\",\"params\":[\"{}\",null]}}\n",
            SCRIPT_HASH_HEX
        )]
    );
}

#[test]
fn only_the_changed_subscriptions_are_notified() {
    let mut conn = Connection::new();
    let hashes: Vec<Vec<u8>> = vec![vec![1; 32], vec![2; 32], vec![3; 32]];
    for (i, hash) in hashes.iter().enumerate() {
        let mut shown = hash.clone();
        shown.reverse();
        let line = format!(
            "{{\"id\":{},\"method\":\"blockchain.scripthash.subscribe\",\"params\":[\"{}\"]}}",
            i,
            hex::encode(&shown)
        );
        let status = Status { hash: Some(vec![i as u8; 32]), ..empty_status() };
        answered(&mut conn, &line, Answer::Status { script_hash: hash.clone(), status });
    }
    assert_eq!(conn.subscription_count(), 3);
    assert_eq!(conn.poll().script_hashes, hashes);
    let notes = conn.update_subscriptions(
        None,
        vec![Some(vec![9; 32]), Some(vec![1; 32]), None],
    );
    assert_eq!(
        Connection::send_values(&notes),
        vec![
            format!(
                "{{\"jsonrpc\":\"2.0\",\"method\":\"blockchain.scripthash.subscribe\",\"params\":[\"{}\",\"{}\"]}}\n",
                "01".repeat(32),
                "09".repeat(32)
            ),
            format!(
                "{{\"jsonrpc\":\"2.0\",\"method\":\"blockchain.scripthash.subscribe\",\"params\":[\"{}\",null]}}\n",
                "03".repeat(32)
            ),
        ]
    );
}

#[test]
fn subscribing_again_replaces_the_status() {
    let mut conn = Connection::new();
    answered(
        &mut conn,
        &subscribe_line(1),
        Answer::Status { script_hash: script_hash(), status: empty_status() },
    );
    let status = Status { hash: Some(vec![5; 32]), ..empty_status() };
    answered(&mut conn, &subscribe_line(2), Answer::Status { script_hash: script_hash(), status });
    assert_eq!(conn.subscription_count(), 1);
    assert!(conn.update_subscriptions(None, vec![Some(vec![5; 32])]).is_empty());
}

#[test]
fn new_best_header_is_notified_to_a_header_subscriber() {
    let mut conn = Connection::new();
    answered(
        &mut conn,
        "{\"id\":2,\"method\":\"blockchain.headers.subscribe\",\"params\":[]}",
        Answer::Header(genesis_entry()),
    );
    assert!(conn.update_subscriptions(Some(genesis_entry()), vec![]).is_empty());
    let next = testnet_entry(1);
    let notes = conn.update_subscriptions(Some(testnet_entry(1)), vec![]);
    assert_eq!(
        Connection::send_values(&notes),
        vec![format!(
            "{{\"jsonrpc\":\"2.0\",\"method\":\"blockchain.headers.subscribe\",\"params\":[{{\"hex\":\"{}\",\"height\":1}}]}}\n",
            hex::encode(&next.header)
        )]
    );
    assert!(conn.update_subscriptions(Some(testnet_entry(1)), vec![]).is_empty());
}

#[test]
fn best_header_is_not_notified_without_a_subscription() {
    let mut conn = Connection::new();
    assert!(conn.update_subscriptions(Some(genesis_entry()), vec![]).is_empty());
    assert!(!conn.poll().header);
}

// The registry of the server.

#[test]
fn server_registers_peers_and_prunes_the_dead() {
    let mut rpc = RPC::start();
    assert_eq!(rpc.notify(), Notification::Periodic);
    assert!(rpc.connect(10));
    assert!(rpc.connect(11));
    assert!(rpc.connect(12));
    assert_eq!(rpc.handle_notification(Notification::Periodic), vec![10, 11, 12]);
    rpc.fan_out(&vec![SendOutcome::Sent, SendOutcome::Disconnected, SendOutcome::Full]);
    assert_eq!(rpc.peers(), vec![10, 12]);
    rpc.fan_out(&vec![SendOutcome::Disconnected, SendOutcome::Disconnected]);
    assert_eq!(rpc.peers(), Vec::<u64>::new());
}

#[test]
fn server_shutdown_reaches_every_peer_and_worker() {
    let mut rpc = RPC::start();
    rpc.connect(1);
    rpc.connect(2);
    rpc.connect(3);
    rpc.fan_out(&vec![SendOutcome::Sent, SendOutcome::Disconnected, SendOutcome::Sent]);
    assert_eq!(rpc.handle_notification(Notification::Exit), Vec::<u64>::new());
    assert!(!rpc.connect(4));
    let plan = rpc.shutdown();
    assert_eq!(plan.done, vec![1, 3]);
    assert_eq!(plan.join, vec![1, 2, 3]);
    assert_eq!(rpc.peers(), Vec::<u64>::new());
    let again = rpc.shutdown();
    assert!(again.done.is_empty() && again.join.is_empty());
}
