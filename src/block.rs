//! Blocks and the digest function that seals them.

use vstd::bytes::{
    lemma_auto_spec_u128_to_from_le_bytes, lemma_auto_spec_u64_to_from_le_bytes,
    spec_u128_to_le_bytes, spec_u64_to_le_bytes, u128_to_le_bytes, u64_to_le_bytes,
};
use vstd::prelude::*;
use vstd::string::StringSliceAdditionalSpecFns;
use vstd::utf8::{decode_utf8, encode_utf8};

verus! {

/// What SHA-512 yields on a byte string: the bytes of its digest.
pub uninterp spec fn sha512_of(input: Seq<u8>) -> Seq<u8>;

/// The lower-case hexadecimal digit for a value below 16.
pub open spec fn hex_digit(n: u8) -> char {
    if n == 0 { '0' }
    else if n == 1 { '1' }
    else if n == 2 { '2' }
    else if n == 3 { '3' }
    else if n == 4 { '4' }
    else if n == 5 { '5' }
    else if n == 6 { '6' }
    else if n == 7 { '7' }
    else if n == 8 { '8' }
    else if n == 9 { '9' }
    else if n == 10 { 'a' }
    else if n == 11 { 'b' }
    else if n == 12 { 'c' }
    else if n == 13 { 'd' }
    else if n == 14 { 'e' }
    else { 'f' }
}

/// Lower-case hexadecimal text of a byte string, two digits per byte,
/// high half first.
pub open spec fn hex_of(bytes: Seq<u8>) -> Seq<char>
    decreases bytes.len(),
{
    if bytes.len() == 0 {
        seq![]
    } else {
        let b = bytes.last();
        hex_of(bytes.drop_last()) + seq![hex_digit(b / 16), hex_digit(b % 16)]
    }
}

/// The bytes that a block's digest is computed over: the index (8 bytes)
/// and the timestamp (16 bytes), little-endian, then the byte length of
/// the predecessor digest's UTF-8 text (8 bytes), that text, and last the
/// payload's UTF-8 text. Every field has a fixed width or a stated length,
/// so no two distinct field tuples share an encoding.
pub open spec fn field_bytes(index: u64, timestamp: u128, previous: Seq<char>, data: Seq<char>) -> Seq<u8> {
    spec_u64_to_le_bytes(index) + spec_u128_to_le_bytes(timestamp) + spec_u64_to_le_bytes(
        encode_utf8(previous).len() as u64,
    ) + encode_utf8(previous) + encode_utf8(data)
}

/// The digest of a block with these fields: the hexadecimal text of the
/// SHA-512 digest of their encoding.
pub open spec fn digest_of(index: u64, timestamp: u128, previous: Seq<char>, data: Seq<char>) -> Seq<char> {
    hex_of(sha512_of(field_bytes(index, timestamp, previous, data)))
}

/// Two hexadecimal digits per byte.
pub proof fn lemma_hex_len(bytes: Seq<u8>)
    ensures
        hex_of(bytes).len() == 2 * bytes.len(),
    decreases bytes.len(),
{
    if bytes.len() > 0 {
        lemma_hex_len(bytes.drop_last());
    }
}

/// Distinct byte strings have distinct hexadecimal text.
pub proof fn lemma_hex_injective(a: Seq<u8>, b: Seq<u8>)
    requires
        hex_of(a) == hex_of(b),
    ensures
        a == b,
    decreases a.len(),
{
    lemma_hex_len(a);
    lemma_hex_len(b);
    if a.len() > 0 {
        let (x, y) = (a.last(), b.last());
        let n = hex_of(a).len();
        assert(hex_of(a)[n - 2] == hex_digit(x / 16) && hex_of(a)[n - 1] == hex_digit(x % 16));
        assert(hex_of(b)[n - 2] == hex_digit(y / 16) && hex_of(b)[n - 1] == hex_digit(y % 16));
        assert(x / 16 == y / 16 && x % 16 == y % 16);
        assert(x == y) by (nonlinear_arith)
            requires x / 16 == y / 16 && x % 16 == y % 16, 0 <= x < 256, 0 <= y < 256;
        assert(hex_of(a.drop_last()) =~= hex_of(a).subrange(0, n - 2));
        assert(hex_of(b.drop_last()) =~= hex_of(b).subrange(0, n - 2));
        lemma_hex_injective(a.drop_last(), b.drop_last());
        assert(a =~= a.drop_last().push(x));
        assert(b =~= b.drop_last().push(y));
    } else {
        assert(a =~= b);
    }
}

/// The encoding that a digest is computed over is unambiguous: equal
/// encodings come only from equal fields. (A text whose UTF-8 form is
/// longer than `u64::MAX` bytes cannot be held in memory.)
pub proof fn lemma_field_bytes_injective(
    index1: u64,
    timestamp1: u128,
    previous1: Seq<char>,
    data1: Seq<char>,
    index2: u64,
    timestamp2: u128,
    previous2: Seq<char>,
    data2: Seq<char>,
)
    requires
        encode_utf8(previous1).len() <= u64::MAX,
        encode_utf8(previous2).len() <= u64::MAX,
        field_bytes(index1, timestamp1, previous1, data1) == field_bytes(index2, timestamp2, previous2, data2),
    ensures
        index1 == index2,
        timestamp1 == timestamp2,
        previous1 == previous2,
        data1 == data2,
{
    lemma_auto_spec_u64_to_from_le_bytes();
    lemma_auto_spec_u128_to_from_le_bytes();
    broadcast use vstd::utf8::encode_utf8_decode_utf8;
    let f1 = field_bytes(index1, timestamp1, previous1, data1);
    let f2 = field_bytes(index2, timestamp2, previous2, data2);
    let (p1, p2) = (encode_utf8(previous1), encode_utf8(previous2));
    let (n1, n2) = (p1.len() as u64, p2.len() as u64);
    assert(f1.subrange(0, 8) =~= spec_u64_to_le_bytes(index1));
    assert(f2.subrange(0, 8) =~= spec_u64_to_le_bytes(index2));
    assert(f1.subrange(8, 24) =~= spec_u128_to_le_bytes(timestamp1));
    assert(f2.subrange(8, 24) =~= spec_u128_to_le_bytes(timestamp2));
    assert(f1.subrange(24, 32) =~= spec_u64_to_le_bytes(n1));
    assert(f2.subrange(24, 32) =~= spec_u64_to_le_bytes(n2));
    assert(n1 == n2);
    assert(f1.subrange(32, 32 + p1.len() as int) =~= p1);
    assert(f2.subrange(32, 32 + p2.len() as int) =~= p2);
    assert(f1.subrange(32 + p1.len() as int, f1.len() as int) =~= encode_utf8(data1));
    assert(f2.subrange(32 + p2.len() as int, f2.len() as int) =~= encode_utf8(data2));
    assert(decode_utf8(p1) == previous1);
    assert(decode_utf8(encode_utf8(data1)) == data1);
}

/// The digest is a function of the four fields alone: two digests of the
/// same fields are the same text.
pub proof fn lemma_digest_deterministic(
    index: u64,
    timestamp: u128,
    previous: Seq<char>,
    data: Seq<char>,
    first: Seq<char>,
    second: Seq<char>,
)
    requires
        first == digest_of(index, timestamp, previous, data),
        second == digest_of(index, timestamp, previous, data),
    ensures
        first == second,
{
}

/// One record of the ledger.
#[derive(Debug, Clone)]
pub struct Block {
    /// Position in the chain; the genesis block has index 0.
    pub index: u64,
    /// Milliseconds since the Unix epoch when the block was made.
    pub timestamp: u128,
    /// The digest of the preceding block (a sentinel for the genesis block).
    pub previous_hash: String,
    /// This block's own digest, over the four fields above and below.
    pub hash: String,
    /// The payload, opaque to the ledger.
    pub data: String,
}

impl Block {
    /// The block's stored digest is the digest of its own fields.
    pub open spec fn is_sealed(&self) -> bool {
        self.hash@ == digest_of(self.index, self.timestamp, self.previous_hash@, self.data@)
    }

    /// A block made now: its timestamp is read from the system clock and
    /// its digest computed over all four fields.
    pub fn new(index: u64, previous_hash: String, data: String) -> (b: Block)
        ensures
            b.index == index,
            b.previous_hash@ == previous_hash@,
            b.data@ == data@,
            b.is_sealed(),
    {
        let timestamp = epoch_millis();
        Block::with_timestamp(index, timestamp, previous_hash, data)
    }

    /// A block with the given timestamp, sealed by its digest.
    pub fn with_timestamp(index: u64, timestamp: u128, previous_hash: String, data: String) -> (b: Block)
        ensures
            b.index == index,
            b.timestamp == timestamp,
            b.previous_hash@ == previous_hash@,
            b.data@ == data@,
            b.is_sealed(),
    {
        let hash = Block::calculate_hash(index, timestamp, previous_hash.as_str(), data.as_str());
        Block { index, timestamp, previous_hash, hash, data }
    }

    /// The digest of a block with these fields.
    pub fn calculate_hash(index: u64, timestamp: u128, previous_hash: &str, data: &str) -> (r: String)
        ensures
            r@ == digest_of(index, timestamp, previous_hash@, data@),
    {
        let input = encode_fields(index, timestamp, previous_hash, data);
        let digest = sha512(input.as_slice());
        to_hex(digest.as_slice())
    }
}

/// The encoding of a block's fields that its digest is computed over.
pub fn encode_fields(index: u64, timestamp: u128, previous_hash: &str, data: &str) -> (r: Vec<u8>)
    ensures
        r@ == field_bytes(index, timestamp, previous_hash@, data@),
{
    let previous = previous_hash.as_bytes();
    let payload = data.as_bytes();
    let mut out = u64_to_le_bytes(index);
    let mut time = u128_to_le_bytes(timestamp);
    out.append(&mut time);
    let mut len = u64_to_le_bytes(previous.len() as u64);
    out.append(&mut len);
    out.extend_from_slice(previous);
    out.extend_from_slice(payload);
    proof {
        assert(previous@ == encode_utf8(previous_hash@));
        assert(out@ =~= field_bytes(index, timestamp, previous_hash@, data@));
    }
    out
}

/// Relies on sha2's `Digest::digest` for `Sha512`: the SHA-512 digest of
/// the input, which depends on the input alone.
#[verifier::external_body]
fn sha512(input: &[u8]) -> (r: Vec<u8>)
    ensures
        r@ == sha512_of(input@),
{
    <sha2::Sha512 as sha2::Digest>::digest(input).to_vec()
}

/// Relies on `hex::encode`: each byte becomes two lower-case hexadecimal
/// digits, high half first.
#[verifier::external_body]
fn to_hex(bytes: &[u8]) -> (r: String)
    ensures
        r@ == hex_of(bytes@),
{
    hex::encode(bytes)
}

/// Relies on std's `SystemTime::elapsed`, measured from the Unix epoch:
/// the milliseconds elapsed until now. Nothing is promised of the value.
/// A system clock set before the epoch leaves no meaningful timestamp, so
/// that is fatal here.
#[verifier::external_body]
fn epoch_millis() -> (r: u128) {
    std::time::UNIX_EPOCH.elapsed().expect("system clock is set before the Unix epoch").as_millis()
}

} // verus!
