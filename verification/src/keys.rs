//! Opaque on-chain identities.
//!
//! A token mint and a venue account are both identified by a fixed-size
//! 32-byte address.  The library never looks inside an address: it only
//! compares addresses for equality and for a canonical order, so the 32
//! bytes are carried as four 64-bit words.

use vstd::prelude::*;

verus! {

/// A 32-byte on-chain address (a token mint or a venue account), held as
/// four little-endian 64-bit words.
#[derive(Clone, Copy, Debug, PartialEq, Eq, Structural)]
pub struct AccountId {
    pub w0: u64,
    pub w1: u64,
    pub w2: u64,
    pub w3: u64,
}

impl AccountId {
    /// The canonical order on addresses: lexicographic on the four words.
    pub open spec fn le_spec(self, other: AccountId) -> bool {
        if self.w0 != other.w0 {
            self.w0 < other.w0
        } else if self.w1 != other.w1 {
            self.w1 < other.w1
        } else if self.w2 != other.w2 {
            self.w2 < other.w2
        } else {
            self.w3 <= other.w3
        }
    }

    /// Compares two addresses in the canonical order.
    pub fn le(&self, other: &AccountId) -> (r: bool)
        ensures
            r == self.le_spec(*other),
    {
        if self.w0 != other.w0 {
            self.w0 < other.w0
        } else if self.w1 != other.w1 {
            self.w1 < other.w1
        } else if self.w2 != other.w2 {
            self.w2 < other.w2
        } else {
            self.w3 <= other.w3
        }
    }
}

/// The canonical order is total: any two addresses compare one way or the
/// other, and both ways only when they are equal.
pub proof fn lemma_account_id_order_total(a: AccountId, b: AccountId)
    ensures
        a.le_spec(b) || b.le_spec(a),
        (a.le_spec(b) && b.le_spec(a)) <==> a == b,
{
}

} // verus!
