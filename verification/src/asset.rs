//! Asset identifiers: a unit of value is either a native bank
//! denomination or a fungible-token contract address.

use vstd::prelude::*;

verus! {

/// Mathematical model of an [`AssetInfo`]: both variants reduced to
/// their character sequences.
pub ghost enum AssetInfoV {
    NativeToken { denom: Seq<char> },
    Token { contract_addr: Seq<char> },
}

/// Tagged identifier of a unit of value. Two values identify the same
/// asset exactly when tag and payload are equal.
#[derive(PartialEq, Eq, Debug)]
pub enum AssetInfo {
    /// An opaque native-denomination tag.
    NativeToken { denom: String },
    /// Address of an external fungible-token contract.
    Token { contract_addr: String },
}

impl View for AssetInfo {
    type V = AssetInfoV;

    open spec fn view(&self) -> AssetInfoV {
        match self {
            AssetInfo::NativeToken { denom } => AssetInfoV::NativeToken { denom: denom@ },
            AssetInfo::Token { contract_addr } => AssetInfoV::Token {
                contract_addr: contract_addr@,
            },
        }
    }
}

impl Clone for AssetInfo {
    fn clone(&self) -> (r: Self)
        ensures
            r == *self,
    {
        match self {
            AssetInfo::NativeToken { denom } => AssetInfo::NativeToken { denom: denom.clone() },
            AssetInfo::Token { contract_addr } => AssetInfo::Token {
                contract_addr: contract_addr.clone(),
            },
        }
    }
}

impl AssetInfo {
    /// Structural equality: tags and payload characters must coincide.
    /// This is the comparison every registry and ledger lookup uses.
    pub fn same_asset(&self, other: &AssetInfo) -> (r: bool)
        ensures
            r == (self@ == other@),
    {
        match (self, other) {
            (
                AssetInfo::NativeToken { denom: a },
                AssetInfo::NativeToken { denom: b },
            ) => *a == *b,
            (
                AssetInfo::Token { contract_addr: a },
                AssetInfo::Token { contract_addr: b },
            ) => *a == *b,
            _ => false,
        }
    }
}

/// Mathematical model of an [`Asset`].
pub ghost struct AssetV {
    pub info: AssetInfoV,
    pub amount: u128,
}

/// An amount of a concrete asset, in the asset's minimal units.
#[derive(PartialEq, Eq, Debug)]
pub struct Asset {
    pub info: AssetInfo,
    pub amount: u128,
}

impl View for Asset {
    type V = AssetV;

    open spec fn view(&self) -> AssetV {
        AssetV { info: self.info@, amount: self.amount }
    }
}

impl Clone for Asset {
    fn clone(&self) -> (r: Self)
        ensures
            r == *self,
    {
        Asset { info: self.info.clone(), amount: self.amount }
    }
}

} // verus!
