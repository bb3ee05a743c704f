//! The ledger: an append-only sequence of hash-linked blocks.

use crate::block::{field_bytes, lemma_hex_injective, sha512_of, Block};
use vstd::prelude::*;

verus! {

/// Width of a digest in hexadecimal digits (SHA-512: 64 bytes).
pub const DIGEST_DIGITS: usize = 128;

/// The predecessor digest that the genesis block names: all zeros, at
/// the width of a digest.
pub open spec fn sentinel_hash() -> Seq<char> {
    Seq::new(DIGEST_DIGITS as nat, |i: int| '0')
}

/// The fixed payload of the genesis block.
pub open spec fn genesis_data() -> Seq<char> {
    "Genesis Block"@
}

/// A chain as a fresh ledger holds it: one sealed block at index 0 that
/// names the sentinel as its predecessor and carries the genesis payload.
pub open spec fn is_genesis_chain(c: Seq<Block>) -> bool {
    &&& c.len() == 1
    &&& c[0].index == 0
    &&& c[0].previous_hash@ == sentinel_hash()
    &&& c[0].data@ == genesis_data()
    &&& c[0].is_sealed()
}

/// Block `i` is sealed and names the digest stored in block `i - 1`.
pub open spec fn links_back(c: Seq<Block>, i: int) -> bool {
    &&& c[i].is_sealed()
    &&& c[i].previous_hash@ == c[i - 1].hash@
}

/// The check that the ledger audits: the chain is not empty, and every
/// block after the first is sealed and linked to its predecessor.
pub open spec fn valid_chain(c: Seq<Block>) -> bool {
    &&& c.len() >= 1
    &&& forall|i: int| 1 <= i < c.len() ==> #[trigger] links_back(c, i)
}

/// Every block's index is its position.
pub open spec fn indexed(c: Seq<Block>) -> bool {
    forall|i: int| 0 <= i < c.len() ==> (#[trigger] c[i]).index == i
}

/// `after` is `before` with one block appended: the next index, the last
/// digest as predecessor, the given payload, sealed.
pub open spec fn appended(before: Seq<Block>, after: Seq<Block>, data: Seq<char>) -> bool {
    &&& after.len() == before.len() + 1
    &&& after.drop_last() == before
    &&& after.last().index == before.last().index + 1
    &&& after.last().previous_hash@ == before.last().hash@
    &&& after.last().data@ == data
    &&& after.last().is_sealed()
}

/// An append-only ledger. A ledger made by `new` and grown by `add_block`
/// always passes `is_valid`; the audit is there to catch blocks that were
/// altered in place.
pub struct Blockchain {
    pub chain: Vec<Block>,
}

impl Blockchain {
    /// A ledger holding only its genesis block.
    pub fn new() -> (r: Blockchain)
        ensures
            is_genesis_chain(r.chain@),
            valid_chain(r.chain@),
            indexed(r.chain@),
    {
        Blockchain { chain: vec![Blockchain::create_genesis_block()] }
    }

    /// The first block of every ledger.
    pub fn create_genesis_block() -> (b: Block)
        ensures
            b.index == 0,
            b.previous_hash@ == sentinel_hash(),
            b.data@ == genesis_data(),
            b.is_sealed(),
    {
        Block::new(0, sentinel(), "Genesis Block".to_owned())
    }

    /// Appends a block that carries `data`, linked to the current last one.
    pub fn add_block(&mut self, data: String)
        requires
            old(self).chain@.len() >= 1,
            old(self).chain@.last().index < u64::MAX,
        ensures
            appended(old(self).chain@, final(self).chain@, data@),
            valid_chain(old(self).chain@) ==> valid_chain(final(self).chain@),
            indexed(old(self).chain@) ==> indexed(final(self).chain@),
    {
        let last = self.chain.len() - 1;
        let index = self.chain[last].index + 1;
        let previous_hash = self.chain[last].hash.clone();
        let block = Block::new(index, previous_hash, data);
        self.chain.push(block);
        proof {
            let before = old(self).chain@;
            let after = self.chain@;
            assert(after.drop_last() =~= before);
            assert forall|i: int| 1 <= i < after.len() && valid_chain(before) implies #[trigger] links_back(after, i) by {
                if i < before.len() {
                    assert(links_back(before, i));
                }
            }
            assert forall|i: int| 0 <= i < after.len() && indexed(before) implies (#[trigger] after[i]).index == i by {
                if i < before.len() {
                    assert(before[i] == after[i]);
                }
            }
        }
    }

    /// Whether every block after the first is sealed by its own digest and
    /// names its predecessor's digest.
    pub fn is_valid(&self) -> (r: bool)
        ensures
            r == valid_chain(self.chain@),
    {
        if self.chain.len() == 0 {
            return false;
        }
        let mut i: usize = 1;
        while i < self.chain.len()
            invariant
                1 <= i <= self.chain@.len(),
                forall|j: int| 1 <= j < i ==> #[trigger] links_back(self.chain@, j),
            decreases self.chain@.len() - i,
        {
            if !self.links_back_at(i) {
                return false;
            }
            i += 1;
        }
        true
    }

    /// The cheap check after an append: the chain is not empty, and its
    /// last block, if it is not the first, is sealed and names its
    /// predecessor's digest.
    pub fn is_last_valid(&self) -> (r: bool)
        ensures
            r == (self.chain@.len() >= 1 && (self.chain@.len() >= 2 ==> links_back(
                self.chain@,
                self.chain@.len() - 1,
            ))),
    {
        let n = self.chain.len();
        if n == 0 {
            false
        } else if n == 1 {
            true
        } else {
            self.links_back_at(n - 1)
        }
    }

    /// Whether block `i` is sealed by its own digest and names the digest
    /// of block `i - 1`.
    fn links_back_at(&self, i: usize) -> (r: bool)
        requires
            1 <= i < self.chain@.len(),
        ensures
            r == links_back(self.chain@, i as int),
    {
        let current = &self.chain[i];
        let previous = &self.chain[i - 1];
        let expected = Block::calculate_hash(
            current.index,
            current.timestamp,
            current.previous_hash.as_str(),
            current.data.as_str(),
        );
        current.hash == expected && current.previous_hash == previous.hash
    }
}

/// Checking only the newest block is enough: a chain that passed the
/// audit, with one block appended that passes the cheap check, passes the
/// audit as a whole.
pub proof fn lemma_incremental_audit(before: Seq<Block>, after: Seq<Block>)
    requires
        valid_chain(before),
        after.len() == before.len() + 1,
        after.drop_last() == before,
        links_back(after, after.len() - 1),
    ensures
        valid_chain(after),
{
    assert forall|i: int| 1 <= i < after.len() implies #[trigger] links_back(after, i) by {
        if i < before.len() {
            assert(links_back(before, i));
            assert(after[i] == before[i] && after[i - 1] == before[i - 1]);
        }
    }
}

/// A chain that satisfies the audit, lists blocks by position, and grows
/// by one appended block still does all three.
pub proof fn lemma_append_keeps_chain(before: Seq<Block>, after: Seq<Block>, data: Seq<char>)
    requires
        valid_chain(before),
        indexed(before),
        appended(before, after, data),
    ensures
        valid_chain(after),
        indexed(after),
{
    assert forall|i: int| 1 <= i < after.len() implies #[trigger] links_back(after, i) by {
        if i < before.len() {
            assert(links_back(before, i));
            assert(after[i] == before[i] && after[i - 1] == before[i - 1]);
        }
    }
    assert forall|i: int| 0 <= i < after.len() implies (#[trigger] after[i]).index == i by {
        if i < before.len() {
            assert(after[i] == before[i]);
        }
    }
}

/// A ledger built by `Blockchain::new` followed by one `add_block` per
/// payload: `history[k]` is the chain after `k` appends. After `n` appends
/// the chain holds `n + 1` blocks, block `i` has index `i`, every block
/// after the first names its predecessor's digest and carries payload
/// `i - 1`, and every chain along the way passes the audit.
pub proof fn lemma_append_history(history: Seq<Seq<Block>>, payloads: Seq<Seq<char>>)
    requires
        history.len() == payloads.len() + 1,
        is_genesis_chain(history[0]),
        forall|k: int| 0 <= k < payloads.len() ==> appended(history[k], history[k + 1], #[trigger] payloads[k]),
    ensures
        history.last().len() == payloads.len() + 1,
        indexed(history.last()),
        forall|i: int| 1 <= i < history.last().len() ==> (#[trigger] history.last()[i]).previous_hash@ == history.last()[i - 1].hash@,
        forall|i: int| 1 <= i < history.last().len() ==> (#[trigger] history.last()[i]).data@ == payloads[i - 1],
        forall|k: int| 0 <= k < history.len() ==> valid_chain(#[trigger] history[k]),
    decreases payloads.len(),
{
    let last = history.last();
    if payloads.len() == 0 {
        assert(indexed(last));
        assert(valid_chain(history[0]));
    } else {
        let n = payloads.len() - 1;
        let earlier = history.drop_last();
        let earlier_payloads = payloads.drop_last();
        assert forall|k: int| 0 <= k < earlier_payloads.len() implies appended(earlier[k], earlier[k + 1], #[trigger] earlier_payloads[k]) by {
            assert(appended(history[k], history[k + 1], payloads[k]));
        }
        lemma_append_history(earlier, earlier_payloads);
        let before = history[n];
        assert(earlier.last() == before);
        assert(appended(before, last, payloads[n]));
        lemma_append_keeps_chain(before, last, payloads[n]);
        assert forall|i: int| 1 <= i < last.len() implies (#[trigger] last[i]).previous_hash@ == last[i - 1].hash@ by {
            assert(links_back(last, i));
        }
        assert forall|i: int| 1 <= i < last.len() implies (#[trigger] last[i]).data@ == payloads[i - 1] by {
            if i < before.len() {
                assert(last[i] == before[i]);
                assert(before[i].data@ == earlier_payloads[i - 1]);
            }
        }
        assert forall|k: int| 0 <= k < history.len() implies valid_chain(#[trigger] history[k]) by {
            if k < earlier.len() {
                assert(earlier[k] == history[k]);
            }
        }
    }
}

/// In a chain that passes the audit, giving a block after the first a
/// predecessor digest other than the one it had makes the audit fail.
pub proof fn lemma_relinked_block_detected(c: Seq<Block>, i: int, b: Block)
    requires
        valid_chain(c),
        1 <= i < c.len(),
        b.previous_hash@ != c[i].previous_hash@,
    ensures
        !valid_chain(c.update(i, b)),
{
    assert(links_back(c, i));
    let t = c.update(i, b);
    assert(t[i - 1] == c[i - 1]);
    assert(!links_back(t, i));
}

/// In a chain that passes the audit, storing another digest in a block
/// after the first, with its other fields unchanged, makes the audit fail.
pub proof fn lemma_redigested_block_detected(c: Seq<Block>, i: int, b: Block)
    requires
        valid_chain(c),
        1 <= i < c.len(),
        b.index == c[i].index,
        b.timestamp == c[i].timestamp,
        b.previous_hash@ == c[i].previous_hash@,
        b.data@ == c[i].data@,
        b.hash@ != c[i].hash@,
    ensures
        !valid_chain(c.update(i, b)),
{
    assert(links_back(c, i));
    let t = c.update(i, b);
    assert(!links_back(t, i));
}

/// In a chain that passes the audit, changing the index, timestamp or
/// payload of a block after the first while keeping its stored digest
/// makes the audit fail, unless SHA-512 gives the old and the new field
/// encodings the same digest. (By `lemma_field_bytes_injective` changed
/// fields always give a changed encoding.)
pub proof fn lemma_altered_fields_detected(c: Seq<Block>, i: int, b: Block)
    requires
        valid_chain(c),
        1 <= i < c.len(),
        b.hash@ == c[i].hash@,
        sha512_of(field_bytes(b.index, b.timestamp, b.previous_hash@, b.data@)) != sha512_of(
            field_bytes(c[i].index, c[i].timestamp, c[i].previous_hash@, c[i].data@),
        ),
    ensures
        !valid_chain(c.update(i, b)),
{
    assert(links_back(c, i));
    let t = c.update(i, b);
    if valid_chain(t) {
        assert(links_back(t, i));
        lemma_hex_injective(
            sha512_of(field_bytes(b.index, b.timestamp, b.previous_hash@, b.data@)),
            sha512_of(field_bytes(c[i].index, c[i].timestamp, c[i].previous_hash@, c[i].data@)),
        );
    }
}

/// The sentinel predecessor digest as a string.
fn sentinel() -> (s: String)
    ensures
        s@ == sentinel_hash(),
{
    let mut s = String::new();
    let mut i: usize = 0;
    while i < DIGEST_DIGITS
        invariant
            i <= DIGEST_DIGITS,
            s@ == Seq::new(i as nat, |k: int| '0'),
        decreases DIGEST_DIGITS - i,
    {
        proof {
            reveal_strlit("0");
        }
        s.append("0");
        i += 1;
        assert(s@ =~= Seq::new(i as nat, |k: int| '0'));
    }
    s
}

} // verus!
