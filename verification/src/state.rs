//! Contract state: admin handle, cooldown configuration, the balance
//! registry and the top-up ledger, with their well-formedness
//! invariants and the spec-level lookup functions that the contracts
//! of the mutators and queries are stated over.

use vstd::prelude::*;
use crate::asset::{AssetInfo, AssetInfoV};
use crate::order::lex_lt;

verus! {

/// Default per-pair top-up cooldown, in blocks (about one day).
pub const DEFAULT_MINIMUM_BLOCK_RANGE: u64 = 14896;

/// Mathematical model of an [`AssetData`] registry entry.
pub ghost struct AssetDataV {
    pub asset: AssetInfoV,
    pub lower_bound: u128,
    pub upper_bound: u128,
    pub decimals: u8,
}

/// A registry entry for one monitored asset on one account.
#[derive(PartialEq, Eq, Debug)]
pub struct AssetData {
    /// The monitored asset.
    pub asset: AssetInfo,
    /// Threshold amount in minimal units scaled by `10^decimals`; a
    /// balance at or below it calls for a refill.
    pub lower_bound: u128,
    /// Target amount a refill transfers.
    pub upper_bound: u128,
    /// Number of decimal places used by the asset.
    pub decimals: u8,
}

impl View for AssetData {
    type V = AssetDataV;

    open spec fn view(&self) -> AssetDataV {
        AssetDataV {
            asset: self.asset@,
            lower_bound: self.lower_bound,
            upper_bound: self.upper_bound,
            decimals: self.decimals,
        }
    }
}

impl Clone for AssetData {
    fn clone(&self) -> (r: Self)
        ensures
            r == *self,
    {
        AssetData {
            asset: self.asset.clone(),
            lower_bound: self.lower_bound,
            upper_bound: self.upper_bound,
            decimals: self.decimals,
        }
    }
}

/// Mathematical model of a [`BalanceInfo`].
pub ghost struct BalanceInfoV {
    pub label: Seq<char>,
    pub balances: Seq<AssetDataV>,
}

/// Per-account record: a human-readable label and the ordered list of
/// monitored assets. No two entries of `balances` name the same asset.
#[derive(PartialEq, Eq, Debug)]
pub struct BalanceInfo {
    pub label: String,
    pub balances: Vec<AssetData>,
}

impl View for BalanceInfo {
    type V = BalanceInfoV;

    open spec fn view(&self) -> BalanceInfoV {
        BalanceInfoV {
            label: self.label@,
            balances: self.balances@.map_values(|a: AssetData| a@),
        }
    }
}

impl Clone for BalanceInfo {
    fn clone(&self) -> (r: Self)
        ensures
            r@ == self@,
    {
        BalanceInfo { label: self.label.clone(), balances: clone_asset_vec(&self.balances) }
    }
}

fn clone_asset_vec(v: &Vec<AssetData>) -> (r: Vec<AssetData>)
    ensures
        r@ == v@,
{
    let mut out: Vec<AssetData> = Vec::new();
    let mut i: usize = 0;
    while i < v.len()
        invariant
            i <= v.len(),
            out@ =~= v@.subrange(0, i as int),
        decreases v.len() - i,
    {
        out.push(v[i].clone());
        i = i + 1;
    }
    proof {
        assert(out@ =~= v@);
    }
    out
}

/// No two entries of a balance list name the same asset.
pub open spec fn assets_unique(balances: Seq<AssetDataV>) -> bool {
    forall|i: int, j: int|
        0 <= i < j < balances.len() ==> (#[trigger] balances[i]).asset != (
        #[trigger] balances[j]).asset
}

/// Whether some entry of `balances` names `asset`.
pub open spec fn assets_contain(balances: Seq<AssetDataV>, asset: AssetInfoV) -> bool {
    exists|i: int| 0 <= i < balances.len() && (#[trigger] balances[i]).asset == asset
}

/// Mathematical model of one registry row.
pub ghost struct BalanceMappingV {
    pub addr: Seq<char>,
    pub info: BalanceInfoV,
}

/// One registry row: an account address and its balance record.
#[derive(PartialEq, Eq, Debug)]
pub struct BalanceMapping {
    pub addr: String,
    pub info: BalanceInfo,
}

impl View for BalanceMapping {
    type V = BalanceMappingV;

    open spec fn view(&self) -> BalanceMappingV {
        BalanceMappingV { addr: self.addr@, info: self.info@ }
    }
}

impl Clone for BalanceMapping {
    fn clone(&self) -> (r: Self)
        ensures
            r@ == self@,
    {
        BalanceMapping { addr: self.addr.clone(), info: self.info.clone() }
    }
}

/// Cooldown configuration.
#[derive(Clone, Copy, PartialEq, Eq, Structural, Debug)]
pub struct Config {
    /// Minimum number of blocks between two refills of one
    /// (account, asset) pair.
    pub minimum_block_range: u64,
}

/// Mathematical model of one top-up ledger row.
pub ghost struct TopupRecordV {
    pub addr: Seq<char>,
    pub asset: AssetInfoV,
    pub height: u64,
}

/// One top-up ledger row: the block height at which the
/// (account, asset) pair was last refilled.
#[derive(PartialEq, Eq, Debug)]
pub struct TopupRecord {
    pub addr: String,
    pub asset: AssetInfo,
    pub height: u64,
}

impl View for TopupRecord {
    type V = TopupRecordV;

    open spec fn view(&self) -> TopupRecordV {
        TopupRecordV { addr: self.addr@, asset: self.asset@, height: self.height }
    }
}

impl Clone for TopupRecord {
    fn clone(&self) -> (r: Self)
        ensures
            r == *self,
    {
        TopupRecord { addr: self.addr.clone(), asset: self.asset.clone(), height: self.height }
    }
}

/// Mathematical model of the whole contract state.
pub ghost struct ContractStateV {
    pub admin: Option<Seq<char>>,
    pub config: Config,
    pub balance_infos: Seq<BalanceMappingV>,
    pub topup_ledger: Seq<TopupRecordV>,
}

/// The whole mutable state of the contract: the single admin, the
/// cooldown configuration, the balance registry (kept in ascending
/// address order) and the top-up ledger.
pub struct ContractState {
    pub admin: Option<String>,
    pub config: Config,
    pub balance_infos: Vec<BalanceMapping>,
    pub topup_ledger: Vec<TopupRecord>,
}

impl View for ContractState {
    type V = ContractStateV;

    open spec fn view(&self) -> ContractStateV {
        ContractStateV {
            admin: match self.admin {
                Some(a) => Some(a@),
                None => None,
            },
            config: self.config,
            balance_infos: self.balance_infos@.map_values(|m: BalanceMapping| m@),
            topup_ledger: self.topup_ledger@.map_values(|t: TopupRecord| t@),
        }
    }
}

/// The registry is strictly ascending by address (hence addresses are
/// unique) and every row keeps its assets unique.
pub open spec fn registry_wf(reg: Seq<BalanceMappingV>) -> bool {
    &&& forall|i: int|
        0 <= i < reg.len() - 1 ==> #[trigger] lex_lt(reg[i].addr, reg[i + 1].addr)
    &&& forall|i: int| 0 <= i < reg.len() ==> assets_unique((#[trigger] reg[i]).info.balances)
}

/// No two ledger rows name the same (account, asset) pair.
pub open spec fn ledger_wf(led: Seq<TopupRecordV>) -> bool {
    forall|i: int, j: int|
        0 <= i < j < led.len() ==> !((#[trigger] led[i]).addr == (#[trigger] led[j]).addr
            && led[i].asset == led[j].asset)
}

impl ContractStateV {
    /// Well-formedness of the whole state; established at
    /// instantiation and preserved by every operation.
    pub open spec fn wf(self) -> bool {
        &&& registry_wf(self.balance_infos)
        &&& ledger_wf(self.topup_ledger)
    }
}

/// The balance record stored for `addr`, when one is stored.
pub open spec fn reg_find(reg: Seq<BalanceMappingV>, addr: Seq<char>) -> Option<BalanceInfoV>
    decreases reg.len(),
{
    if reg.len() == 0 {
        None
    } else if reg[0].addr == addr {
        Some(reg[0].info)
    } else {
        reg_find(reg.drop_first(), addr)
    }
}

/// Whether the registry holds a row for `addr`.
pub open spec fn reg_contains(reg: Seq<BalanceMappingV>, addr: Seq<char>) -> bool {
    exists|i: int| 0 <= i < reg.len() && (#[trigger] reg[i]).addr == addr
}

/// Where a row for `addr` would have to be inserted to keep the
/// registry ascending: the length of the prefix of smaller addresses.
pub open spec fn reg_insert_pos(reg: Seq<BalanceMappingV>, addr: Seq<char>) -> int
    decreases reg.len(),
{
    if reg.len() == 0 {
        0
    } else if lex_lt(reg[0].addr, addr) {
        1 + reg_insert_pos(reg.drop_first(), addr)
    } else {
        0
    }
}

/// The recorded height of the last refill of (`addr`, `asset`), when
/// one is recorded.
pub open spec fn ledger_find(
    led: Seq<TopupRecordV>,
    addr: Seq<char>,
    asset: AssetInfoV,
) -> Option<u64>
    decreases led.len(),
{
    if led.len() == 0 {
        None
    } else if led[0].addr == addr && led[0].asset == asset {
        Some(led[0].height)
    } else {
        ledger_find(led.drop_first(), addr, asset)
    }
}

/// In a well-formed registry, addresses are pairwise distinct.
pub proof fn lemma_reg_addrs_distinct(reg: Seq<BalanceMappingV>, i: int, j: int)
    requires
        registry_wf(reg),
        0 <= i < j < reg.len(),
    ensures
        reg[i].addr != reg[j].addr,
{
    let keys = Seq::new(reg.len() as nat, |k: int| reg[k].addr);
    crate::order::lemma_lex_chain(keys, i, j);
    crate::order::lemma_lex_lt_neq(reg[i].addr, reg[j].addr);
}

/// In a well-formed registry, the row at any index is the row that
/// [`reg_find`] returns for its address.
pub proof fn lemma_reg_find_at(reg: Seq<BalanceMappingV>, i: int)
    requires
        forall|p: int, q: int|
            0 <= p < q < reg.len() ==> (#[trigger] reg[p]).addr != (#[trigger] reg[q]).addr,
        0 <= i < reg.len(),
    ensures
        reg_find(reg, reg[i].addr) == Some(reg[i].info),
    decreases i,
{
    if i == 0 {
    } else {
        assert(reg[0].addr != reg[i].addr);
        assert forall|p: int, q: int|
            0 <= p < q < reg.drop_first().len() implies (#[trigger] reg.drop_first()[p]).addr != (
        #[trigger] reg.drop_first()[q]).addr by {
            assert(reg.drop_first()[p] == reg[p + 1]);
            assert(reg.drop_first()[q] == reg[q + 1]);
        }
        assert(reg.drop_first()[i - 1] == reg[i]);
        lemma_reg_find_at(reg.drop_first(), i - 1);
    }
}

/// An address on no row is found on no row.
pub proof fn lemma_reg_find_absent(reg: Seq<BalanceMappingV>, addr: Seq<char>)
    requires
        forall|j: int| 0 <= j < reg.len() ==> (#[trigger] reg[j]).addr != addr,
    ensures
        reg_find(reg, addr) == None::<BalanceInfoV>,
    decreases reg.len(),
{
    if reg.len() > 0 {
        assert forall|j: int| 0 <= j < reg.drop_first().len() implies (
        #[trigger] reg.drop_first()[j]).addr != addr by {
            assert(reg.drop_first()[j] == reg[j + 1]);
        }
        lemma_reg_find_absent(reg.drop_first(), addr);
    }
}

/// The position below which every address is smaller and from which
/// every address is larger is the insert position.
pub proof fn lemma_reg_insert_pos(reg: Seq<BalanceMappingV>, addr: Seq<char>, i: int)
    requires
        0 <= i <= reg.len(),
        forall|j: int| 0 <= j < i ==> lex_lt((#[trigger] reg[j]).addr, addr),
        forall|j: int| i <= j < reg.len() ==> lex_lt(addr, (#[trigger] reg[j]).addr),
    ensures
        reg_insert_pos(reg, addr) == i,
    decreases reg.len(),
{
    if reg.len() == 0 {
    } else if i == 0 {
        if lex_lt(reg[0].addr, addr) {
            crate::order::lemma_lex_lt_transitive(addr, reg[0].addr, addr);
            crate::order::lemma_lex_lt_irreflexive(addr);
        }
    } else {
        assert(lex_lt(reg[0].addr, addr));
        assert forall|j: int| 0 <= j < i - 1 implies lex_lt(
            (#[trigger] reg.drop_first()[j]).addr,
            addr,
        ) by {
            assert(reg.drop_first()[j] == reg[j + 1]);
        }
        assert forall|j: int| i - 1 <= j < reg.drop_first().len() implies lex_lt(
            addr,
            (#[trigger] reg.drop_first()[j]).addr,
        ) by {
            assert(reg.drop_first()[j] == reg[j + 1]);
        }
        lemma_reg_insert_pos(reg.drop_first(), addr, i - 1);
    }
}

/// The content of the top-up ledger as a finite map from
/// (account, asset) pairs to the height of the last refill.
pub open spec fn ledger_map(led: Seq<TopupRecordV>) -> Map<(Seq<char>, AssetInfoV), u64>
    decreases led.len(),
{
    if led.len() == 0 {
        Map::empty()
    } else {
        ledger_map(led.drop_last()).insert((led.last().addr, led.last().asset), led.last().height)
    }
}

/// In a well-formed ledger, every row is the map's answer for its pair.
pub proof fn lemma_ledger_map_at(led: Seq<TopupRecordV>, i: int)
    requires
        ledger_wf(led),
        0 <= i < led.len(),
    ensures
        ledger_map(led).contains_key((led[i].addr, led[i].asset)),
        ledger_map(led)[(led[i].addr, led[i].asset)] == led[i].height,
    decreases led.len(),
{
    if i < led.len() - 1 {
        assert(forall|p: int, q: int|
            0 <= p < q < led.drop_last().len() ==> !((#[trigger] led.drop_last()[p]).addr == (
            #[trigger] led.drop_last()[q]).addr && led.drop_last()[p].asset
                == led.drop_last()[q].asset));
        lemma_ledger_map_at(led.drop_last(), i);
        assert(!(led[i].addr == led[led.len() - 1].addr && led[i].asset == led[led.len()
            - 1].asset));
    }
}

/// A pair on no row is absent from the map.
pub proof fn lemma_ledger_map_absent(led: Seq<TopupRecordV>, addr: Seq<char>, asset: AssetInfoV)
    requires
        forall|j: int|
            0 <= j < led.len() ==> !((#[trigger] led[j]).addr == addr && led[j].asset == asset),
    ensures
        !ledger_map(led).contains_key((addr, asset)),
    decreases led.len(),
{
    if led.len() > 0 {
        assert(forall|j: int|
            0 <= j < led.drop_last().len() ==> !((#[trigger] led.drop_last()[j]).addr == addr
                && led.drop_last()[j].asset == asset));
        lemma_ledger_map_absent(led.drop_last(), addr, asset);
        assert(!(led[led.len() - 1].addr == addr && led[led.len() - 1].asset == asset));
    }
}

/// Overwriting the row at `i` updates exactly that pair in the map.
pub proof fn lemma_ledger_map_update(led: Seq<TopupRecordV>, i: int, rec: TopupRecordV)
    requires
        ledger_wf(led),
        0 <= i < led.len(),
        led[i].addr == rec.addr,
        led[i].asset == rec.asset,
    ensures
        ledger_wf(led.update(i, rec)),
        ledger_map(led.update(i, rec)) == ledger_map(led).insert((rec.addr, rec.asset), rec.height),
    decreases led.len(),
{
    let upd = led.update(i, rec);
    assert forall|p: int, q: int|
        0 <= p < q < upd.len() implies !((#[trigger] upd[p]).addr == (#[trigger] upd[q]).addr
        && upd[p].asset == upd[q].asset) by {
        assert(upd[p] == if p == i {
            rec
        } else {
            led[p]
        });
        assert(upd[q] == if q == i {
            rec
        } else {
            led[q]
        });
    }
    if i == led.len() - 1 {
        assert(upd.drop_last() =~= led.drop_last());
        assert(ledger_map(upd) =~= ledger_map(led).insert((rec.addr, rec.asset), rec.height));
    } else {
        assert(upd.drop_last() =~= led.drop_last().update(i, rec));
        assert(forall|p: int, q: int|
            0 <= p < q < led.drop_last().len() ==> !((#[trigger] led.drop_last()[p]).addr == (
            #[trigger] led.drop_last()[q]).addr && led.drop_last()[p].asset
                == led.drop_last()[q].asset));
        assert(led.drop_last()[i] == led[i]);
        lemma_ledger_map_update(led.drop_last(), i, rec);
        assert(upd.last() == led.last());
        assert(!(led.last().addr == rec.addr && led.last().asset == rec.asset));
        assert(ledger_map(upd) =~= ledger_map(led).insert((rec.addr, rec.asset), rec.height));
    }
}

/// Appending a row for a pair with no row adds exactly that pair to
/// the map.
pub proof fn lemma_ledger_map_push(led: Seq<TopupRecordV>, rec: TopupRecordV)
    requires
        ledger_wf(led),
        forall|j: int|
            0 <= j < led.len() ==> !((#[trigger] led[j]).addr == rec.addr && led[j].asset
                == rec.asset),
    ensures
        ledger_wf(led.push(rec)),
        ledger_map(led.push(rec)) == ledger_map(led).insert((rec.addr, rec.asset), rec.height),
{
    let ext = led.push(rec);
    assert forall|p: int, q: int|
        0 <= p < q < ext.len() implies !((#[trigger] ext[p]).addr == (#[trigger] ext[q]).addr
        && ext[p].asset == ext[q].asset) by {
        if q < led.len() {
            assert(ext[p] == led[p]);
            assert(ext[q] == led[q]);
        } else {
            assert(ext[q] == rec);
            assert(ext[p] == led[p]);
        }
    }
    assert(ext.drop_last() =~= led);
    assert(ext.last() == rec);
}

} // verus!
