//! Identifiers of clients and of transactions.
use vstd::prelude::*;

use crate::text::{digits_of, push_digits};

verus! {

#[derive(Debug, Clone, Copy, PartialEq, Eq, PartialOrd, Ord, Hash, Structural)]
pub struct ClientId(pub u16);

#[derive(Debug, Clone, Copy, PartialEq, Eq, PartialOrd, Ord, Hash, Structural)]
pub struct TransactionId(pub u32);

impl ClientId {
    /// The decimal text of the identifier.
    pub fn to_string(&self) -> (r: String)
        ensures
            r@ == digits_of(self.0 as nat),
    {
        let mut s = String::new();
        push_digits(&mut s, self.0 as u64);
        assert(s@ =~= digits_of(self.0 as nat));
        s
    }
}

impl TransactionId {
    /// The decimal text of the identifier.
    pub fn to_string(&self) -> (r: String)
        ensures
            r@ == digits_of(self.0 as nat),
    {
        let mut s = String::new();
        push_digits(&mut s, self.0 as u64);
        assert(s@ =~= digits_of(self.0 as nat));
        s
    }
}

} // verus!
