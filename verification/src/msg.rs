//! Inbound message shapes, outbound response shapes, and the
//! structured attribute / transfer-instruction model of a response.
//! Wire encoding of all of these is the host's concern.

use vstd::prelude::*;
use crate::asset::{Asset, AssetInfo, AssetInfoV, AssetV};
use crate::state::AssetData;

verus! {

/// Instantiation takes no payload: the sender becomes the admin.
#[derive(PartialEq, Eq, Structural, Debug)]
pub struct InstantiateMsg {}

/// Migration takes no payload and does nothing.
#[derive(PartialEq, Eq, Structural, Debug)]
pub struct MigrateMsg {}

/// Request to append one monitored asset to an account's mapping.
#[derive(PartialEq, Eq, Debug)]
pub struct AddNewBalanceMappingMsg {
    pub addr: String,
    pub balance_info: AssetInfo,
    /// Threshold in minimal units scaled by `10^decimals`.
    pub lower_bound: u128,
    /// Refill target, in the asset's minimal units.
    pub upper_bound: u128,
    pub decimals: u8,
    /// Label for a freshly created mapping; ignored when the account
    /// already has one.
    pub label: Option<String>,
}

/// Request to overwrite fields of one monitored asset; absent fields
/// are retained.
#[derive(PartialEq, Eq, Debug)]
pub struct UpdateBalanceMappingMsg {
    pub addr: String,
    pub balance_info: AssetInfo,
    pub lower_bound: Option<u128>,
    pub upper_bound: Option<u128>,
    pub decimals: Option<u8>,
}

/// Request to drop an account's whole mapping.
#[derive(PartialEq, Eq, Debug)]
pub struct DeleteBalanceMappingMsg {
    pub addr: String,
}

/// One account the top-up dispatcher is asked to consider, with the
/// assets to consider for it.
#[derive(PartialEq, Eq, Debug)]
pub struct TopupTarget {
    pub addr: String,
    pub asset_infos: Vec<AssetInfo>,
}

/// Mathematical model of a [`TopupTarget`].
pub ghost struct TopupTargetV {
    pub addr: Seq<char>,
    pub asset_infos: Seq<AssetInfoV>,
}

impl View for TopupTarget {
    type V = TopupTargetV;

    open spec fn view(&self) -> TopupTargetV {
        TopupTargetV {
            addr: self.addr@,
            asset_infos: self.asset_infos@.map_values(|a: AssetInfo| a@),
        }
    }
}

/// Request to refill every under-funded (account, asset) pair among
/// the listed targets.
#[derive(PartialEq, Eq, Debug)]
pub struct TopupMsg {
    pub balances: Vec<TopupTarget>,
}

/// The execute surface.
#[derive(PartialEq, Eq, Debug)]
pub enum ExecuteMsg {
    /// Append / add new balance array element for a given asset info.
    AddBalance(AddNewBalanceMappingMsg),
    /// Update an existing balance array element for a given asset info.
    UpdateBalance(UpdateBalanceMappingMsg),
    /// Delete a balance mapping, removing the account from the registry.
    DeleteBalanceMapping(DeleteBalanceMappingMsg),
    /// Update new admin.
    UpdateAdmin { new_admin: String },
    /// Refill under-funded pairs back to their upper bounds.
    Topup(TopupMsg),
    /// Overwrite the cooldown configuration.
    UpdateConfig { minimum_block_range: Option<u64> },
}

/// The query surface.
#[derive(PartialEq, Eq, Debug)]
pub enum QueryMsg {
    /// Return low balances in the list of balance mapping.
    QueryLowBalances {},
    /// Query all list of balance mappings.
    QueryBalancesMapping {},
    /// Query a balance mapping given an account address.
    QueryBalanceMapping { addr: String },
    /// Return the current admin.
    QueryAdmin {},
}

/// Answer to `QueryAdmin`.
#[derive(PartialEq, Eq, Debug)]
pub struct AdminResponse {
    pub admin: Option<String>,
}

/// Answer to `QueryBalanceMapping`: the stored label and entries.
#[derive(PartialEq, Eq, Debug)]
pub struct QueryBalanceMappingResponse {
    pub label: String,
    pub assets: Vec<AssetData>,
}

/// One account's registry row, as returned by `QueryBalancesMapping`.
#[derive(PartialEq, Eq, Debug)]
pub struct BalancesMappingQuery {
    pub addr: String,
    pub label: String,
    pub assets: Vec<AssetData>,
}

/// Answer to `QueryBalancesMapping`: every row, ascending by address.
#[derive(PartialEq, Eq, Debug)]
pub struct QueryBalancesMappingResponse {
    pub balance_assets: Vec<BalancesMappingQuery>,
}

/// Alternative spelling of [`QueryBalancesMappingResponse`] kept for
/// compatibility with existing callers.
#[derive(PartialEq, Eq, Debug)]
pub struct QueryBalancesReponse {
    pub balance_assets: Vec<BalancesMappingQuery>,
}

/// Mathematical model of a [`BalancesQuery`].
pub ghost struct BalancesQueryV {
    pub addr: Seq<char>,
    pub label: Seq<char>,
    pub assets: Seq<AssetV>,
}

/// One account's under-funded assets with their probed amounts.
#[derive(PartialEq, Eq, Debug)]
pub struct BalancesQuery {
    pub addr: String,
    pub label: String,
    pub assets: Vec<Asset>,
}

impl View for BalancesQuery {
    type V = BalancesQueryV;

    open spec fn view(&self) -> BalancesQueryV {
        BalancesQueryV {
            addr: self.addr@,
            label: self.label@,
            assets: self.assets@.map_values(|a: Asset| a@),
        }
    }
}

/// Answer to `QueryLowBalances`: accounts that hold at least one
/// under-funded asset, ascending by address.
#[derive(PartialEq, Eq, Debug)]
pub struct QueryLowBalancesResponse {
    pub low_balance_assets: Vec<BalancesQuery>,
}

/// Answer to a [`QueryMsg`], one variant per query.
#[derive(PartialEq, Eq, Debug)]
pub enum QueryAnswer {
    Admin(AdminResponse),
    BalanceMapping(QueryBalanceMappingResponse),
    BalancesMapping(QueryBalancesMappingResponse),
    LowBalances(QueryLowBalancesResponse),
}

/// A transfer instruction handed back to the host: send `amount`
/// minimal units of `asset` to `to` through the host's uniform
/// asset-send primitive.
#[derive(PartialEq, Eq, Debug)]
pub struct TransferMsg {
    pub to: String,
    pub asset: AssetInfo,
    pub amount: u128,
}

/// Mathematical model of a [`TransferMsg`].
pub ghost struct TransferV {
    pub to: Seq<char>,
    pub asset: AssetInfoV,
    pub amount: u128,
}

impl View for TransferMsg {
    type V = TransferV;

    open spec fn view(&self) -> TransferV {
        TransferV { to: self.to@, asset: self.asset@, amount: self.amount }
    }
}

/// Value of a response attribute; the host stringifies these.
#[derive(PartialEq, Eq, Debug)]
pub enum AttrValue {
    Str(String),
    Asset(AssetInfo),
    Uint(u128),
    Boolean(bool),
}

/// One string-keyed response attribute.
#[derive(PartialEq, Eq, Debug)]
pub struct Attribute {
    pub key: String,
    pub value: AttrValue,
}

/// What an execute call hands back to the host: observability
/// attributes and the ordered transfer instructions to run.
#[derive(PartialEq, Eq, Debug)]
pub struct Response {
    pub attributes: Vec<Attribute>,
    pub messages: Vec<TransferMsg>,
}

/// The attribute `key` holds the string `value`.
pub open spec fn is_attr_str(a: Attribute, key: Seq<char>, value: Seq<char>) -> bool {
    &&& a.key@ == key
    &&& a.value matches AttrValue::Str(s) && s@ == value
}

/// The attribute `key` holds the asset `value`.
pub open spec fn is_attr_asset(a: Attribute, key: Seq<char>, value: AssetInfoV) -> bool {
    &&& a.key@ == key
    &&& a.value matches AttrValue::Asset(x) && x@ == value
}

/// The attribute `key` holds the number `value`.
pub open spec fn is_attr_uint(a: Attribute, key: Seq<char>, value: u128) -> bool {
    &&& a.key@ == key
    &&& a.value matches AttrValue::Uint(x) && x == value
}

/// The attribute `key` holds the flag `value`.
pub open spec fn is_attr_bool(a: Attribute, key: Seq<char>, value: bool) -> bool {
    &&& a.key@ == key
    &&& a.value matches AttrValue::Boolean(x) && x == value
}

/// Builds a string attribute.
pub fn attr_str(key: &str, value: &str) -> (a: Attribute)
    ensures
        is_attr_str(a, key@, value@),
{
    Attribute { key: String::from_str(key), value: AttrValue::Str(String::from_str(value)) }
}

/// Builds an asset attribute.
pub fn attr_asset(key: &str, value: AssetInfo) -> (a: Attribute)
    ensures
        is_attr_asset(a, key@, value@),
{
    Attribute { key: String::from_str(key), value: AttrValue::Asset(value) }
}

/// Builds a numeric attribute.
pub fn attr_uint(key: &str, value: u128) -> (a: Attribute)
    ensures
        is_attr_uint(a, key@, value),
{
    Attribute { key: String::from_str(key), value: AttrValue::Uint(value) }
}

/// Builds a flag attribute.
pub fn attr_bool(key: &str, value: bool) -> (a: Attribute)
    ensures
        is_attr_bool(a, key@, value),
{
    Attribute { key: String::from_str(key), value: AttrValue::Boolean(value) }
}

} // verus!
