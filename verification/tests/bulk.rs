use bitcoin::blockdata::constants::genesis_block;
use bitcoin::consensus::encode::serialize;
use bitcoin::network::constants::Network;
use bitcoin::util::hash::BitcoinHash;
use electrs::bulk::{
    count_verdicts, index_blk_files, parse_blocks, BlockCounts, BulkError, Parser, Verdict,
};
use electrs::framer::FramingError;
use electrs::rows::{sort_rows, Row};

const MAGIC: u32 = 0xD9B4BEF9;

fn frame(payload: &[u8]) -> Vec<u8> {
    let mut out = MAGIC.to_le_bytes().to_vec();
    out.extend_from_slice(&(payload.len() as u32).to_le_bytes());
    out.extend_from_slice(payload);
    out
}

fn raw(network: Network) -> Vec<u8> {
    serialize(&genesis_block(network))
}

fn hash(network: Network) -> Vec<u8> {
    genesis_block(network).bitcoin_hash()[..].to_vec()
}

fn from_hex(text: &str) -> Vec<u8> {
    hex::decode(text).unwrap()
}

#[test]
fn genesis_block_is_parsed_with_its_hash() {
    let payload = raw(Network::Bitcoin);
    let blocks = parse_blocks(&frame(&payload), MAGIC).unwrap();
    assert_eq!(blocks.len(), 1);
    assert_eq!(blocks[0].raw, payload);
    let mut shown = blocks[0].hash.clone();
    shown.reverse();
    assert_eq!(
        shown,
        from_hex("000000000019d6689c085ae165831e934ff763ae46a2a6c172b3f1b60a8ce26f")
    );
}

#[test]
fn two_frames_with_two_zero_bytes_between_them_are_two_blocks() {
    let mut blob = frame(&raw(Network::Bitcoin));
    blob.extend_from_slice(&[0x00, 0x00]);
    blob.extend_from_slice(&frame(&raw(Network::Testnet)));
    let blocks = parse_blocks(&blob, MAGIC).unwrap();
    assert_eq!(blocks.len(), 2);
    assert_eq!(blocks[0].hash, hash(Network::Bitcoin));
    assert_eq!(blocks[1].hash, hash(Network::Testnet));
    assert_eq!(blocks[1].raw, raw(Network::Testnet));
}

#[test]
fn blocks_come_out_in_file_order() {
    let mut blob = vec![0u8; 5];
    blob.extend_from_slice(&frame(&raw(Network::Regtest)));
    blob.extend_from_slice(&frame(&raw(Network::Bitcoin)));
    blob.extend_from_slice(&[0u8; 40]);
    let blocks = parse_blocks(&blob, MAGIC).unwrap();
    let hashes: Vec<Vec<u8>> = blocks.into_iter().map(|b| b.hash).collect();
    assert_eq!(hashes, vec![hash(Network::Regtest), hash(Network::Bitcoin)]);
}

#[test]
fn empty_file_holds_no_blocks() {
    assert_eq!(parse_blocks(&[], MAGIC).unwrap().len(), 0);
}

#[test]
fn payload_that_is_no_block_fails_the_file() {
    let blob = frame(&[1, 2, 3, 4, 5]);
    assert_eq!(
        parse_blocks(&blob, MAGIC).unwrap_err(),
        FramingError::BadBlock { start: 8, end: 13 }
    );
}

#[test]
fn block_with_bytes_left_over_fails_the_file() {
    let mut payload = raw(Network::Bitcoin);
    payload.push(0);
    let end = 8 + payload.len();
    assert_eq!(
        parse_blocks(&frame(&payload), MAGIC).unwrap_err(),
        FramingError::BadBlock { start: 8, end }
    );
}

#[test]
fn declared_size_past_end_fails_the_parse() {
    let mut blob = frame(&raw(Network::Bitcoin));
    blob.truncate(blob.len() - 1);
    assert_eq!(
        parse_blocks(&blob, MAGIC).unwrap_err(),
        FramingError::Overrun { start: 8, size: 285 }
    );
}

#[test]
fn bad_second_block_fails_after_a_good_first() {
    let mut blob = frame(&raw(Network::Bitcoin));
    blob.extend_from_slice(&frame(&[0xFF; 10]));
    assert_eq!(
        parse_blocks(&blob, MAGIC).unwrap_err(),
        FramingError::BadBlock { start: 301, end: 311 }
    );
}

#[test]
fn genesis_only_file_is_indexed_and_checkpointed() {
    let mut parser = Parser::new(MAGIC, vec![hash(Network::Bitcoin)], vec![]);
    let blobs = vec![frame(&raw(Network::Bitcoin))];
    let bulk = index_blk_files(&mut parser, &blobs).unwrap();
    assert_eq!(bulk.files.len(), 1);
    assert_eq!(bulk.files[0].verdicts, vec![Verdict::Indexed { height: 0 }]);
    assert_eq!(bulk.files[0].blocks[0].hash, hash(Network::Bitcoin));
    assert_eq!(bulk.last_indexed, Some(hash(Network::Bitcoin)));
    // The rows of the block, as an indexing function would give them, go
    // to the writer in key order.
    let rows = sort_rows(vec![
        Row { key: b"T".to_vec(), value: bulk.files[0].blocks[0].hash.clone() },
        Row { key: b"B".to_vec(), value: vec![0] },
    ]);
    assert_eq!(rows[0].key, b"B".to_vec());
    assert_eq!(rows[1].key, b"T".to_vec());
}

#[test]
fn block_outside_the_chain_is_skipped() {
    let mut parser = Parser::new(MAGIC, vec![hash(Network::Bitcoin)], vec![]);
    let index = parser.index_blkfile(&frame(&raw(Network::Testnet))).unwrap();
    assert_eq!(index.verdicts, vec![Verdict::Skipped]);
    assert_eq!(parser.indexed_prefix_len(), 0);
}

#[test]
fn block_indexed_by_an_earlier_run_is_a_duplicate() {
    let mut parser =
        Parser::new(MAGIC, vec![hash(Network::Bitcoin)], vec![hash(Network::Bitcoin)]);
    let index = parser.index_blkfile(&frame(&raw(Network::Bitcoin))).unwrap();
    assert_eq!(index.verdicts, vec![Verdict::Duplicate]);
}

#[test]
fn block_that_comes_twice_is_indexed_once() {
    let chain = vec![hash(Network::Bitcoin), hash(Network::Testnet)];
    let mut parser = Parser::new(MAGIC, chain, vec![]);
    let mut blob = frame(&raw(Network::Testnet));
    blob.extend_from_slice(&frame(&raw(Network::Regtest)));
    blob.extend_from_slice(&frame(&raw(Network::Testnet)));
    blob.extend_from_slice(&frame(&raw(Network::Bitcoin)));
    let index = parser.index_blkfile(&blob).unwrap();
    assert_eq!(
        index.verdicts,
        vec![
            Verdict::Indexed { height: 1 },
            Verdict::Skipped,
            Verdict::Duplicate,
            Verdict::Indexed { height: 0 }
        ]
    );
    assert_eq!(
        count_verdicts(&index.verdicts),
        BlockCounts { indexed: 2, duplicate: 1, skipped: 1 }
    );
}

#[test]
fn block_in_two_files_is_indexed_in_the_first() {
    let chain = vec![hash(Network::Bitcoin), hash(Network::Testnet)];
    let mut parser = Parser::new(MAGIC, chain, vec![]);
    let blobs = vec![
        frame(&raw(Network::Testnet)),
        {
            let mut blob = frame(&raw(Network::Bitcoin));
            blob.extend_from_slice(&frame(&raw(Network::Testnet)));
            blob
        },
    ];
    let bulk = index_blk_files(&mut parser, &blobs).unwrap();
    assert_eq!(bulk.files[0].verdicts, vec![Verdict::Indexed { height: 1 }]);
    assert_eq!(
        bulk.files[1].verdicts,
        vec![Verdict::Indexed { height: 0 }, Verdict::Duplicate]
    );
    assert_eq!(bulk.last_indexed, Some(hash(Network::Testnet)));
}

#[test]
fn second_run_over_the_same_files_indexes_nothing() {
    let chain = vec![hash(Network::Bitcoin), hash(Network::Testnet)];
    let mut blob = frame(&raw(Network::Bitcoin));
    blob.extend_from_slice(&frame(&raw(Network::Regtest)));
    blob.extend_from_slice(&frame(&raw(Network::Testnet)));
    let blobs = vec![blob];

    let mut first = Parser::new(MAGIC, chain.clone(), vec![]);
    let bulk = index_blk_files(&mut first, &blobs).unwrap();
    assert_eq!(count_verdicts(&bulk.files[0].verdicts).indexed, 2);
    let written: Vec<Vec<u8>> = bulk.files[0]
        .blocks
        .iter()
        .zip(bulk.files[0].verdicts.iter())
        .filter(|(_, v)| matches!(v, Verdict::Indexed { .. }))
        .map(|(b, _)| b.hash.clone())
        .collect();

    let mut second = Parser::new(MAGIC, chain, written);
    let again = index_blk_files(&mut second, &blobs).unwrap();
    assert_eq!(
        count_verdicts(&again.files[0].verdicts),
        BlockCounts { indexed: 0, duplicate: 2, skipped: 1 }
    );
    assert_eq!(again.last_indexed, bulk.last_indexed);
}

#[test]
fn checkpoint_is_the_end_of_the_longest_indexed_prefix() {
    let a = hash(Network::Bitcoin);
    let b = hash(Network::Testnet);
    let c = hash(Network::Regtest);
    let parser = Parser::new(MAGIC, vec![a.clone(), b.clone(), c.clone()], vec![c.clone(), a.clone()]);
    assert_eq!(parser.indexed_prefix_len(), 1);
    assert_eq!(parser.last_indexed_row(), a);

    let full = Parser::new(MAGIC, vec![a.clone(), b.clone(), c.clone()], vec![c.clone(), b, a]);
    assert_eq!(full.indexed_prefix_len(), 3);
    assert_eq!(full.last_indexed_row(), c);
}

#[test]
fn run_without_an_indexed_first_header_has_no_checkpoint() {
    let chain = vec![hash(Network::Bitcoin), hash(Network::Testnet)];
    let mut parser = Parser::new(MAGIC, chain, vec![]);
    let bulk = index_blk_files(&mut parser, &vec![frame(&raw(Network::Testnet))]).unwrap();
    assert_eq!(bulk.files[0].verdicts, vec![Verdict::Indexed { height: 1 }]);
    assert_eq!(bulk.last_indexed, None);
}

#[test]
fn run_stops_at_the_first_file_that_does_not_parse() {
    let chain = vec![hash(Network::Bitcoin), hash(Network::Testnet)];
    let mut parser = Parser::new(MAGIC, chain, vec![]);
    let blobs = vec![
        frame(&raw(Network::Bitcoin)),
        frame(&[9, 9, 9]),
        frame(&raw(Network::Testnet)),
    ];
    assert_eq!(
        index_blk_files(&mut parser, &blobs).unwrap_err(),
        BulkError { file: 1, error: FramingError::BadBlock { start: 8, end: 11 } }
    );
    assert_eq!(parser.indexed_prefix_len(), 1);
}

#[test]
fn file_that_does_not_parse_records_nothing() {
    let mut parser = Parser::new(MAGIC, vec![hash(Network::Bitcoin)], vec![]);
    let mut blob = frame(&raw(Network::Bitcoin));
    blob.extend_from_slice(&frame(&[1]));
    assert!(parser.index_blkfile(&blob).is_err());
    assert_eq!(parser.indexed_prefix_len(), 0);
}

#[test]
fn verdicts_of_an_empty_file_count_to_nothing() {
    assert_eq!(
        count_verdicts(&vec![]),
        BlockCounts { indexed: 0, duplicate: 0, skipped: 0 }
    );
}
