use vstd::prelude::*;

verus! {

/// Identifier of an account on this ledger, as resolved by the host.
pub type AccountId = u64;

/// Eight-byte identifier of a foreign chain, held as one big-endian word.
#[derive(Clone, Copy, PartialEq, Eq, Structural, Debug, Default)]
pub struct ChainId(pub u64);

/// Thirty-two-byte asset identifier, held as two big-endian halves.
#[derive(Clone, Copy, PartialEq, Eq, Structural, Debug, Default)]
pub struct AssetId {
    pub high: u128,
    pub low: u128,
}

/// Thirty-two-byte address on a foreign chain, held as two big-endian halves.
#[derive(Clone, Copy, PartialEq, Eq, Structural, Debug, Default)]
pub struct ForeignAccount {
    pub high: u128,
    pub low: u128,
}

#[derive(Clone, Copy, PartialEq, Eq, Structural, Debug, Default)]
pub struct PriceValue {
    pub price: u128,
    pub value: u128,
}

impl PriceValue {
    pub open spec fn zero_spec() -> PriceValue {
        PriceValue { price: 0, value: 0 }
    }

    /// The value that a read of an absent order returns.
    pub fn zero() -> (r: PriceValue)
        ensures
            r == PriceValue::zero_spec(),
    {
        PriceValue { price: 0, value: 0 }
    }
}

impl ForeignAccount {
    pub open spec fn zero_spec() -> ForeignAccount {
        ForeignAccount { high: 0, low: 0 }
    }

    /// The value that a read of an absent registry entry returns.
    pub fn zero() -> (r: ForeignAccount)
        ensures
            r == ForeignAccount::zero_spec(),
    {
        ForeignAccount { high: 0, low: 0 }
    }
}

} // verus!
