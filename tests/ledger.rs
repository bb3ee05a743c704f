use hash_ledger::block::{encode_fields, Block};
use hash_ledger::blockchain::Blockchain;
use hash_ledger::ingest::{payload_text, MessagePayload};
use sha2::Digest;

fn sealed(b: &Block) -> bool {
    b.hash == Block::calculate_hash(b.index, b.timestamp, &b.previous_hash, &b.data)
}

#[test]
fn genesis_invariant() {
    let ledger = Blockchain::new();
    assert_eq!(ledger.chain.len(), 1);
    let g = &ledger.chain[0];
    assert_eq!(g.index, 0);
    assert_eq!(g.previous_hash, "0".repeat(128));
    assert_eq!(g.data, "Genesis Block");
    assert!(sealed(g));
    assert!(ledger.is_valid());
    assert!(ledger.is_last_valid());
}

#[test]
fn append_keeps_length_and_indices() {
    let mut ledger = Blockchain::new();
    let payloads = ["", "plain", "ção ünïcödé ✓", "日本語", ""];
    for (n, p) in payloads.iter().enumerate() {
        ledger.add_block(p.to_string());
        assert_eq!(ledger.chain.len(), n + 2);
    }
    for (i, b) in ledger.chain.iter().enumerate() {
        assert_eq!(b.index, i as u64);
    }
    for (i, p) in payloads.iter().enumerate() {
        assert_eq!(ledger.chain[i + 1].data, *p);
    }
}

#[test]
fn predecessor_linkage() {
    let mut ledger = Blockchain::new();
    for k in 0..6 {
        ledger.add_block(format!("record {}", k));
    }
    for i in 1..ledger.chain.len() {
        assert_eq!(ledger.chain[i].previous_hash, ledger.chain[i - 1].hash);
    }
}

#[test]
fn valid_after_each_append() {
    let mut ledger = Blockchain::new();
    for k in 0..8 {
        ledger.add_block(format!("payload {}", k));
        assert!(ledger.is_valid());
        assert!(ledger.is_last_valid());
        assert!(sealed(ledger.chain.last().unwrap()));
    }
}

fn two_block_ledger() -> Blockchain {
    let mut ledger = Blockchain::new();
    ledger.add_block("first".to_string());
    ledger.add_block("second".to_string());
    assert!(ledger.is_valid());
    ledger
}

#[test]
fn tampered_payload_is_detected() {
    let mut ledger = two_block_ledger();
    ledger.chain[1].data = "forged".to_string();
    assert!(!ledger.is_valid());
}

#[test]
fn tampered_index_is_detected() {
    let mut ledger = two_block_ledger();
    ledger.chain[2].index = 7;
    assert!(!ledger.is_valid());
    assert!(!ledger.is_last_valid());
}

#[test]
fn tampered_timestamp_is_detected() {
    let mut ledger = two_block_ledger();
    ledger.chain[1].timestamp += 1;
    assert!(!ledger.is_valid());
}

#[test]
fn tampered_previous_hash_is_detected() {
    let mut ledger = two_block_ledger();
    ledger.chain[2].previous_hash = "0".repeat(128);
    assert!(!ledger.is_valid());
}

#[test]
fn replaced_digest_is_detected() {
    let mut ledger = two_block_ledger();
    ledger.chain[1].hash = "f".repeat(128);
    assert!(!ledger.is_valid());
}

#[test]
fn resealed_block_breaks_its_successor_link() {
    let mut ledger = two_block_ledger();
    let b = &ledger.chain[1];
    let resealed = Block::with_timestamp(b.index, b.timestamp, b.previous_hash.clone(), "forged".to_string());
    ledger.chain[1] = resealed;
    assert!(!ledger.is_valid());
}

#[test]
fn empty_chain_is_not_valid() {
    let mut ledger = Blockchain::new();
    ledger.chain.clear();
    assert!(!ledger.is_valid());
    assert!(!ledger.is_last_valid());
}

#[test]
fn digest_is_deterministic() {
    let a = Block::calculate_hash(3, 1_700_000_000_000, "abc", "payload");
    let b = Block::calculate_hash(3, 1_700_000_000_000, "abc", "payload");
    assert_eq!(a, b);
}

#[test]
fn digest_changes_with_each_field() {
    let base = Block::calculate_hash(3, 1_700_000_000_000, "abc", "payload");
    assert_ne!(base, Block::calculate_hash(4, 1_700_000_000_000, "abc", "payload"));
    assert_ne!(base, Block::calculate_hash(3, 1_700_000_000_001, "abc", "payload"));
    assert_ne!(base, Block::calculate_hash(3, 1_700_000_000_000, "abd", "payload"));
    assert_ne!(base, Block::calculate_hash(3, 1_700_000_000_000, "abc", "payloae"));
}

#[test]
fn digest_separates_field_boundaries() {
    let a = Block::calculate_hash(1, 23, "ab", "c");
    let b = Block::calculate_hash(12, 3, "ab", "c");
    let c = Block::calculate_hash(1, 23, "a", "bc");
    assert_ne!(a, b);
    assert_ne!(a, c);
    assert_ne!(b, c);
}

#[test]
fn digest_is_lower_case_hex_of_sha512() {
    let d = Block::calculate_hash(1, 2, "ab", "cd");
    assert_eq!(d.len(), 128);
    assert!(d.chars().all(|c| c.is_ascii_digit() || ('a'..='f').contains(&c)));
    let input = encode_fields(1, 2, "ab", "cd");
    assert_eq!(d, hex::encode(sha2::Sha512::digest(&input)));
    assert_ne!(d.as_bytes(), input.as_slice());
}

#[test]
fn fields_encoding_layout() {
    let bytes = encode_fields(1, 2, "ab", "cd");
    let mut expected = vec![1u8, 0, 0, 0, 0, 0, 0, 0];
    expected.extend_from_slice(&[2u8, 0, 0, 0, 0, 0, 0, 0, 0, 0, 0, 0, 0, 0, 0, 0]);
    expected.extend_from_slice(&[2u8, 0, 0, 0, 0, 0, 0, 0]);
    expected.extend_from_slice(b"abcd");
    assert_eq!(bytes, expected);
}

#[test]
fn fields_encoding_of_utf8_text() {
    let bytes = encode_fields(0, 0, "é", "✓");
    assert_eq!(bytes.len(), 32 + 2 + 3);
    assert_eq!(bytes[24], 2);
    assert_eq!(&bytes[32..], "é✓".as_bytes());
}

#[test]
fn block_with_timestamp_keeps_fields() {
    let b = Block::with_timestamp(5, 42, "prev".to_string(), "data".to_string());
    assert_eq!(b.index, 5);
    assert_eq!(b.timestamp, 42);
    assert_eq!(b.previous_hash, "prev");
    assert_eq!(b.data, "data");
    assert_eq!(b.hash, Block::calculate_hash(5, 42, "prev", "data"));
}

#[test]
fn block_new_is_sealed() {
    let b = Block::new(9, "p".to_string(), "".to_string());
    assert_eq!(b.index, 9);
    assert!(sealed(&b));
}

#[test]
fn end_to_end_scenario() {
    let mut ledger = Blockchain::new();
    ledger.add_block("Block 1 - MORE 10 BTC".to_string());
    ledger.add_block("block 2 - LESS 5 BTC".to_string());
    assert_eq!(ledger.chain.len(), 3);
    assert_eq!(ledger.chain[1].index, 1);
    assert_eq!(ledger.chain[2].previous_hash, ledger.chain[1].hash);
    assert!(ledger.is_valid());
    ledger.chain[1].data = "tampered".to_string();
    assert!(!ledger.is_valid());
}

#[test]
fn payload_text_keeps_text() {
    assert_eq!(payload_text(MessagePayload::Text("hello".to_string())), "hello");
    assert_eq!(payload_text(MessagePayload::Text(String::new())), "");
}

#[test]
fn payload_text_placeholders() {
    assert_eq!(payload_text(MessagePayload::NotUtf8), "<payload is not utf-8>");
    assert_eq!(payload_text(MessagePayload::Absent), "<payload is empty>");
}
