//! Reward assets: a native coin, named by its denomination, or a token,
//! named by the address of its contract.

use vstd::prelude::*;
use crate::text::same_text;

verus! {

/// An asset as a caller names it.
#[derive(Debug, PartialEq, Eq)]
pub enum AssetInfo {
    Native(String),
    Token(String),
}

/// An amount of an asset as a caller names it.
#[derive(Debug, PartialEq, Eq)]
pub struct Asset {
    pub info: AssetInfo,
    pub amount: u128,
}

impl Asset {
    /// Accepts the asset's name as it stands.
    pub fn validate(&self) -> (r: AssetValidated)
        ensures
            r@ == (self.info@, self.amount),
    {
        AssetValidated { info: self.info.validate(), amount: self.amount }
    }
}

/// An asset whose name was accepted.
#[derive(Debug, PartialEq, Eq)]
pub enum AssetInfoValidated {
    Native(String),
    Token(String),
}

/// An amount of an asset.
#[derive(Debug, PartialEq, Eq)]
pub struct AssetValidated {
    pub info: AssetInfoValidated,
    pub amount: u128,
}

/// What an asset is: its kind and its name.
pub ghost enum AssetModel {
    Native(Seq<char>),
    Token(Seq<char>),
}

impl View for AssetInfo {
    type V = AssetModel;

    open spec fn view(&self) -> AssetModel {
        match self {
            AssetInfo::Native(denom) => AssetModel::Native(denom@),
            AssetInfo::Token(address) => AssetModel::Token(address@),
        }
    }
}

impl View for AssetInfoValidated {
    type V = AssetModel;

    open spec fn view(&self) -> AssetModel {
        match self {
            AssetInfoValidated::Native(denom) => AssetModel::Native(denom@),
            AssetInfoValidated::Token(address) => AssetModel::Token(address@),
        }
    }
}

impl View for AssetValidated {
    type V = (AssetModel, u128);

    open spec fn view(&self) -> (AssetModel, u128) {
        (self.info@, self.amount)
    }
}

impl Clone for AssetInfo {
    fn clone(&self) -> (r: Self)
        ensures
            r@ == self@,
    {
        match self {
            AssetInfo::Native(denom) => AssetInfo::Native(denom.clone()),
            AssetInfo::Token(address) => AssetInfo::Token(address.clone()),
        }
    }
}

impl Clone for AssetInfoValidated {
    fn clone(&self) -> (r: Self)
        ensures
            r@ == self@,
    {
        match self {
            AssetInfoValidated::Native(denom) => AssetInfoValidated::Native(denom.clone()),
            AssetInfoValidated::Token(address) => AssetInfoValidated::Token(address.clone()),
        }
    }
}

impl Clone for AssetValidated {
    fn clone(&self) -> (r: Self)
        ensures
            r@ == self@,
    {
        AssetValidated { info: self.info.clone(), amount: self.amount }
    }
}

impl AssetInfo {
    /// Accepts the asset's name as it stands.
    pub fn validate(&self) -> (r: AssetInfoValidated)
        ensures
            r@ == self@,
    {
        match self {
            AssetInfo::Native(denom) => AssetInfoValidated::Native(denom.clone()),
            AssetInfo::Token(address) => AssetInfoValidated::Token(address.clone()),
        }
    }
}

impl AssetInfoValidated {
    /// Whether two assets are the same: of one kind and of one name.
    pub fn same(&self, other: &AssetInfoValidated) -> (r: bool)
        ensures
            r == (self@ == other@),
    {
        match (self, other) {
            (AssetInfoValidated::Native(a), AssetInfoValidated::Native(b)) => same_text(a, b),
            (AssetInfoValidated::Token(a), AssetInfoValidated::Token(b)) => same_text(a, b),
            _ => false,
        }
    }

    /// Whether the asset is the token with the given contract address.
    pub fn is_token(&self, address: &String) -> (r: bool)
        ensures
            r == (self@ == AssetModel::Token(address@)),
    {
        match self {
            AssetInfoValidated::Token(a) => same_text(a, address),
            _ => false,
        }
    }

    /// `amount` of this asset.
    pub fn with_balance(&self, amount: u128) -> (r: AssetValidated)
        ensures
            r@ == (self@, amount),
    {
        AssetValidated { info: self.clone(), amount }
    }

    /// The asset's name: the denomination of a coin, the address of a token.
    pub fn to_string(&self) -> (r: String)
        ensures
            r@ == self.name(),
    {
        match self {
            AssetInfoValidated::Native(denom) => denom.clone(),
            AssetInfoValidated::Token(address) => address.clone(),
        }
    }

    /// The asset's name.
    pub open spec fn name(&self) -> Seq<char> {
        match self {
            AssetInfoValidated::Native(denom) => denom@,
            AssetInfoValidated::Token(address) => address@,
        }
    }
}

} // verus!
