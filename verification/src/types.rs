//! Plain-value models of the network's wire types.
//!
//! A content address identifies one stored record; a quote hash names one
//! priced claim; a rewards address names the node paid for storing it.
//! All three are modelled as `u64` identifiers, and token amounts as `u128`.

use vstd::prelude::*;

verus! {

/// Model of a content address (derived from a record's ciphertext).
pub type Addr = u64;

/// Model of the hash identifying one quote.
pub type QuoteHash = u64;

/// Model of the address of the node rewarded for storing a record.
pub type RewardsAddr = u64;

/// Token amount owed or paid.
pub type Amount = u128;

/// Model of a datamap: the recipe needed to decrypt and reassemble a
/// self-encrypted file. Opaque to the library; carried by reference id.
pub type DataMap = u64;

/// Model of a vault master secret key, carried by reference id.
pub type VaultKey = u64;

/// Model of one encrypted chunk: its content address and its size.
#[derive(Clone, Copy, PartialEq, Eq, Structural, Debug)]
pub struct Chunk {
    pub addr: Addr,
    pub size: u64,
}

/// Cost owed to one node for storing one content address.
#[derive(Clone, Copy, PartialEq, Eq, Structural, Debug)]
pub struct Payment {
    pub quote_hash: QuoteHash,
    pub rewards_address: RewardsAddr,
    pub amount: Amount,
}

/// Copies a payment list element by element.
pub fn clone_payments(payments: &Vec<Payment>) -> (r: Vec<Payment>)
    ensures
        r@ == payments@,
{
    let mut out: Vec<Payment> = Vec::new();
    let n = payments.len();
    let mut i: usize = 0;
    while i < n
        invariant
            n == payments@.len(),
            0 <= i <= n,
            out@ == payments@.take(i as int),
        decreases n - i,
    {
        out.push(payments[i]);
        proof {
            assert(payments@.take(i + 1) =~= payments@.take(i as int).push(payments@[i as int]));
        }
        i += 1;
    }
    proof {
        assert(payments@.take(n as int) =~= payments@);
    }
    out
}

} // verus!
