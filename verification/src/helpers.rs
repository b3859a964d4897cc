//! The asset-balance oracle adapter and the threshold comparison.
//!
//! The oracle itself (bank queries and fungible-token contract reads)
//! lives with the host. The library works on a snapshot of its
//! answers: a finite table from (account, asset) to the raw on-chain
//! amount. A pair absent from the snapshot stands for a probe that
//! failed.

use vstd::prelude::*;
use crate::asset::{AssetInfo, AssetInfoV};
use crate::error::ContractError;

verus! {

/// Mathematical model of one oracle answer.
pub ghost struct BalanceRecordV {
    pub addr: Seq<char>,
    pub asset: AssetInfoV,
    pub amount: u128,
}

/// One oracle answer: account `addr` holds `amount` minimal units of
/// `asset`.
#[derive(PartialEq, Eq, Debug)]
pub struct BalanceRecord {
    pub addr: String,
    pub asset: AssetInfo,
    pub amount: u128,
}

impl View for BalanceRecord {
    type V = BalanceRecordV;

    open spec fn view(&self) -> BalanceRecordV {
        BalanceRecordV { addr: self.addr@, asset: self.asset@, amount: self.amount }
    }
}

/// The amount recorded for (`addr`, `asset`), when one is recorded.
pub open spec fn sheet_find(
    recs: Seq<BalanceRecordV>,
    addr: Seq<char>,
    asset: AssetInfoV,
) -> Option<u128>
    decreases recs.len(),
{
    if recs.len() == 0 {
        None
    } else if recs[0].addr == addr && recs[0].asset == asset {
        Some(recs[0].amount)
    } else {
        sheet_find(recs.drop_first(), addr, asset)
    }
}

/// A snapshot of the oracle's answers for one message execution.
pub struct BalanceSheet {
    records: Vec<BalanceRecord>,
}

impl BalanceSheet {
    /// The rows of the snapshot.
    pub closed spec fn recs(self) -> Seq<BalanceRecordV> {
        self.records@.map_values(|r: BalanceRecord| r@)
    }

    /// No two rows answer for the same (account, asset) pair.
    pub closed spec fn wf(self) -> bool {
        forall|i: int, j: int|
            0 <= i < j < self.recs().len() ==> !((#[trigger] self.recs()[i]).addr == (
            #[trigger] self.recs()[j]).addr && self.recs()[i].asset == self.recs()[j].asset)
    }

    /// The snapshot's answer for (`addr`, `asset`): `None` stands for
    /// a failed probe.
    pub open spec fn spec_find(self, addr: Seq<char>, asset: AssetInfoV) -> Option<u128> {
        sheet_find(self.recs(), addr, asset)
    }

    /// An empty snapshot: every probe fails.
    pub fn new() -> (s: BalanceSheet)
        ensures
            s.wf(),
            forall|a: Seq<char>, x: AssetInfoV| #[trigger] s.spec_find(a, x) == None::<u128>,
    {
        let s = BalanceSheet { records: Vec::new() };
        proof {
            assert(s.recs() =~= Seq::<BalanceRecordV>::empty());
        }
        s
    }

    /// Records an oracle answer, replacing an earlier answer for the
    /// same pair.
    pub fn set_balance(&mut self, addr: String, asset: AssetInfo, amount: u128)
        requires
            old(self).wf(),
        ensures
            final(self).wf(),
            forall|a: Seq<char>, x: AssetInfoV|
                #[trigger] final(self).spec_find(a, x) == if a == addr@ && x == asset@ {
                    Some(amount)
                } else {
                    old(self).spec_find(a, x)
                },
    {
        let ghost recs0 = self.recs();
        let hit = find_pair_index(&self.records, &addr, &asset);
        let rec = BalanceRecord { addr, asset, amount };
        match hit {
            Some(i) => {
                proof {
                    assert(recs0[i as int] == self.records@[i as int]@);
                    lemma_sheet_update(recs0, i as int, rec@);
                }
                self.records[i] = rec;
                proof {
                    assert(self.recs() =~= recs0.update(i as int, rec@));
                }
            },
            None => {
                proof {
                    lemma_sheet_push(recs0, rec@);
                }
                self.records.push(rec);
                proof {
                    assert(self.recs() =~= recs0.push(rec@));
                }
            },
        }
    }
}

/// First row matching the (account, asset) pair, if any.
fn find_pair_index(records: &Vec<BalanceRecord>, addr: &String, asset: &AssetInfo) -> (r: Option<
    usize,
>)
    ensures
        match r {
            Some(i) => {
                &&& i < records@.len()
                &&& records@[i as int]@.addr == addr@
                &&& records@[i as int]@.asset == asset@
            },
            None => forall|j: int|
                0 <= j < records@.len() ==> !((#[trigger] records@[j]@).addr == addr@
                    && records@[j]@.asset == asset@),
        },
{
    let n = records.len();
    let mut i: usize = 0;
    while i < n
        invariant
            i <= n,
            n == records@.len(),
            forall|j: int|
                0 <= j < i ==> !((#[trigger] records@[j]@).addr == addr@ && records@[j]@.asset
                    == asset@),
        decreases n - i,
    {
        if records[i].addr == *addr && records[i].asset.same_asset(asset) {
            return Some(i);
        }
        i = i + 1;
    }
    None
}

/// Overwriting the row at `i` replaces exactly that pair's answer.
proof fn lemma_sheet_update(recs: Seq<BalanceRecordV>, i: int, rec: BalanceRecordV)
    requires
        0 <= i < recs.len(),
        recs[i].addr == rec.addr,
        recs[i].asset == rec.asset,
        forall|p: int, q: int|
            0 <= p < q < recs.len() ==> !((#[trigger] recs[p]).addr == (#[trigger] recs[q]).addr
                && recs[p].asset == recs[q].asset),
    ensures
        forall|p: int, q: int|
            0 <= p < q < recs.len() ==> !((#[trigger] recs.update(i, rec)[p]).addr == (
            #[trigger] recs.update(i, rec)[q]).addr && recs.update(i, rec)[p].asset == recs.update(
                i,
                rec,
            )[q].asset),
        forall|a: Seq<char>, x: AssetInfoV|
            #[trigger] sheet_find(recs.update(i, rec), a, x) == if a == rec.addr && x == rec.asset {
                Some(rec.amount)
            } else {
                sheet_find(recs, a, x)
            },
    decreases recs.len(),
{
    assert forall|p: int, q: int| 0 <= p < q < recs.len() implies !((#[trigger] recs.update(
        i,
        rec,
    )[p]).addr == (#[trigger] recs.update(i, rec)[q]).addr && recs.update(i, rec)[p].asset
        == recs.update(i, rec)[q].asset) by {
        assert(recs.update(i, rec)[p] == if p == i {
            rec
        } else {
            recs[p]
        });
        assert(recs.update(i, rec)[q] == if q == i {
            rec
        } else {
            recs[q]
        });
    }
    assert forall|a: Seq<char>, x: AssetInfoV|
        #[trigger] sheet_find(recs.update(i, rec), a, x) == if a == rec.addr && x == rec.asset {
            Some(rec.amount)
        } else {
            sheet_find(recs, a, x)
        } by {
        lemma_sheet_update_one(recs, i, rec, a, x);
    }
}

proof fn lemma_sheet_update_one(
    recs: Seq<BalanceRecordV>,
    i: int,
    rec: BalanceRecordV,
    a: Seq<char>,
    x: AssetInfoV,
)
    requires
        0 <= i < recs.len(),
        recs[i].addr == rec.addr,
        recs[i].asset == rec.asset,
        forall|p: int, q: int|
            0 <= p < q < recs.len() ==> !((#[trigger] recs[p]).addr == (#[trigger] recs[q]).addr
                && recs[p].asset == recs[q].asset),
    ensures
        sheet_find(recs.update(i, rec), a, x) == if a == rec.addr && x == rec.asset {
            Some(rec.amount)
        } else {
            sheet_find(recs, a, x)
        },
    decreases recs.len(),
{
    let upd = recs.update(i, rec);
    assert(upd.len() == recs.len());
    if i == 0 {
        assert(upd[0] == rec);
        assert(upd.drop_first() =~= recs.drop_first());
    } else {
        assert(upd[0] == recs[0]);
        assert(upd.drop_first() =~= recs.drop_first().update(i - 1, rec));
        assert(recs.drop_first()[i - 1] == recs[i]);
        assert(forall|p: int, q: int|
            0 <= p < q < recs.drop_first().len() ==> !((#[trigger] recs.drop_first()[p]).addr == (
            #[trigger] recs.drop_first()[q]).addr && recs.drop_first()[p].asset
                == recs.drop_first()[q].asset));
        assert forall|p: int, q: int| 0 <= p < q < recs.drop_first().len() implies !((
        #[trigger] recs.drop_first()[p]).addr == (#[trigger] recs.drop_first()[q]).addr
            && recs.drop_first()[p].asset == recs.drop_first()[q].asset) by {
            assert(recs.drop_first()[p] == recs[p + 1]);
            assert(recs.drop_first()[q] == recs[q + 1]);
        }
        lemma_sheet_update_one(recs.drop_first(), i - 1, rec, a, x);
        if recs[0].addr == a && recs[0].asset == x {
            // the head answers (a, x); the overwritten row is a later
            // row, which by uniqueness is a different pair
            assert(!(recs[0].addr == recs[i].addr && recs[0].asset == recs[i].asset));
        }
    }
}

/// Appending a row for a pair that has no row adds exactly that
/// pair's answer and keeps the rows unique.
proof fn lemma_sheet_push(recs: Seq<BalanceRecordV>, rec: BalanceRecordV)
    requires
        forall|p: int, q: int|
            0 <= p < q < recs.len() ==> !((#[trigger] recs[p]).addr == (#[trigger] recs[q]).addr
                && recs[p].asset == recs[q].asset),
        forall|j: int|
            0 <= j < recs.len() ==> !((#[trigger] recs[j]).addr == rec.addr && recs[j].asset
                == rec.asset),
    ensures
        forall|p: int, q: int|
            0 <= p < q < recs.push(rec).len() ==> !((#[trigger] recs.push(rec)[p]).addr == (
            #[trigger] recs.push(rec)[q]).addr && recs.push(rec)[p].asset == recs.push(
                rec,
            )[q].asset),
        forall|a: Seq<char>, x: AssetInfoV|
            #[trigger] sheet_find(recs.push(rec), a, x) == if a == rec.addr && x == rec.asset {
                Some(rec.amount)
            } else {
                sheet_find(recs, a, x)
            },
    decreases recs.len(),
{
    assert forall|p: int, q: int| 0 <= p < q < recs.push(rec).len() implies !((#[trigger] recs.push(
        rec,
    )[p]).addr == (#[trigger] recs.push(rec)[q]).addr && recs.push(rec)[p].asset == recs.push(
        rec,
    )[q].asset) by {
        if q < recs.len() {
            assert(recs.push(rec)[p] == recs[p]);
            assert(recs.push(rec)[q] == recs[q]);
        } else {
            assert(recs.push(rec)[q] == rec);
            assert(recs.push(rec)[p] == recs[p]);
        }
    }
    assert forall|a: Seq<char>, x: AssetInfoV|
        #[trigger] sheet_find(recs.push(rec), a, x) == if a == rec.addr && x == rec.asset {
            Some(rec.amount)
        } else {
            sheet_find(recs, a, x)
        } by {
        lemma_sheet_push_one(recs, rec, a, x);
    }
}

proof fn lemma_sheet_push_one(
    recs: Seq<BalanceRecordV>,
    rec: BalanceRecordV,
    a: Seq<char>,
    x: AssetInfoV,
)
    requires
        forall|j: int|
            0 <= j < recs.len() ==> !((#[trigger] recs[j]).addr == rec.addr && recs[j].asset
                == rec.asset),
    ensures
        sheet_find(recs.push(rec), a, x) == if a == rec.addr && x == rec.asset {
            Some(rec.amount)
        } else {
            sheet_find(recs, a, x)
        },
    decreases recs.len(),
{
    reveal_with_fuel(sheet_find, 3);
    if recs.len() == 0 {
        assert(recs.push(rec)[0] == rec);
        assert(recs.push(rec).drop_first() =~= Seq::<BalanceRecordV>::empty());
    } else {
        assert(recs.push(rec)[0] == recs[0]);
        assert(recs.push(rec).drop_first() =~= recs.drop_first().push(rec));
        assert forall|j: int| 0 <= j < recs.drop_first().len() implies !((
        #[trigger] recs.drop_first()[j]).addr == rec.addr && recs.drop_first()[j].asset
            == rec.asset) by {
            assert(recs.drop_first()[j] == recs[j + 1]);
        }
        lemma_sheet_push_one(recs.drop_first(), rec, a, x);
    }
}

/// Looks up the snapshot's answer for (`address`, `asset_info`). A
/// missing answer is the oracle probe's failure, surfaced as an error
/// exactly as the host would surface it.
pub fn query_balance(sheet: &BalanceSheet, address: &String, asset_info: &AssetInfo) -> (r: Result<
    u128,
    ContractError,
>)
    ensures
        match r {
            Ok(amount) => sheet.spec_find(address@, asset_info@) == Some(amount),
            Err(e) => {
                &&& e == (ContractError::BalanceQueryFailed {  })
                &&& sheet.spec_find(address@, asset_info@) == None::<u128>
            },
        },
{
    let n = sheet.records_len();
    let mut i: usize = 0;
    proof {
        assert(sheet.recs().skip(0) =~= sheet.recs());
    }
    while i < n
        invariant
            n == sheet.recs().len(),
            i <= n,
            sheet_find(sheet.recs(), address@, asset_info@) == sheet_find(
                sheet.recs().skip(i as int),
                address@,
                asset_info@,
            ),
        decreases n - i,
    {
        let rec = sheet.record_at(i);
        proof {
            assert(sheet.recs().skip(i as int)[0] == sheet.recs()[i as int]);
        }
        if rec.addr == *address && rec.asset.same_asset(asset_info) {
            return Ok(rec.amount);
        }
        proof {
            assert(sheet.recs().skip(i as int).drop_first() =~= sheet.recs().skip(i as int + 1));
        }
        i = i + 1;
    }
    proof {
        assert(sheet.recs().skip(n as int) =~= Seq::<BalanceRecordV>::empty());
    }
    Err(ContractError::BalanceQueryFailed {  })
}

impl BalanceSheet {
    /// Number of rows in the snapshot.
    pub fn records_len(&self) -> (n: usize)
        ensures
            n == self.recs().len(),
    {
        self.records.len()
    }

    /// The row at `i`.
    pub fn record_at(&self, i: usize) -> (r: &BalanceRecord)
        requires
            i < self.recs().len(),
        ensures
            r@ == self.recs()[i as int],
    {
        &self.records[i]
    }
}

/// `10^e`, the scaling factor attached to a decimals count.
pub open spec fn pow10(e: nat) -> int
    decreases e,
{
    if e == 0 {
        1
    } else {
        10 * pow10((e - 1) as nat)
    }
}

pub proof fn lemma_pow10_pos(e: nat)
    ensures
        pow10(e) >= 1,
    decreases e,
{
    if e > 0 {
        lemma_pow10_pos((e - 1) as nat);
    }
}

/// The threshold test: a probed amount is low when, scaled by the
/// asset's decimals, it does not exceed the configured lower bound.
pub open spec fn is_low_spec(amount: u128, lower_bound: u128, decimals: u8) -> bool {
    amount as int * pow10(decimals as nat) <= lower_bound as int
}

/// Decides [`is_low_spec`] without overflowing: once the running
/// product exceeds the bound (or any representable amount) the answer
/// is settled.
pub fn is_low(amount: u128, lower_bound: u128, decimals: u8) -> (r: bool)
    ensures
        r == is_low_spec(amount, lower_bound, decimals),
{
    if amount == 0 {
        proof {
            lemma_pow10_pos(decimals as nat);
        }
        return true;
    }
    let mut acc: u128 = amount;
    let mut i: u8 = 0;
    while i < decimals
        invariant
            i <= decimals,
            acc >= 1,
            acc as int * pow10((decimals - i) as nat) == amount as int * pow10(decimals as nat),
        decreases decimals - i,
    {
        if acc > lower_bound {
            proof {
                lemma_pow10_pos((decimals - i) as nat);
                assert(acc as int * pow10((decimals - i) as nat) >= acc as int * 1) by (
                nonlinear_arith)
                    requires
                        acc >= 1,
                        pow10((decimals - i) as nat) >= 1,
                ;
            }
            return false;
        }
        if acc > u128::MAX / 10 {
            proof {
                lemma_pow10_pos((decimals - i - 1) as nat);
                assert(pow10((decimals - i) as nat) == 10 * pow10((decimals - i - 1) as nat));
                assert(acc as int * (10 * pow10((decimals - i - 1) as nat)) >= acc as int * 10) by (
                nonlinear_arith)
                    requires
                        acc >= 1,
                        pow10((decimals - i - 1) as nat) >= 1,
                ;
                assert(acc as int * 10 > u128::MAX as int);
            }
            return false;
        }
        proof {
            assert(pow10((decimals - i) as nat) == 10 * pow10((decimals - i - 1) as nat));
            assert((acc as int * 10) * pow10((decimals - i - 1) as nat) == acc as int * (10 * pow10(
                (decimals - i - 1) as nat,
            ))) by (nonlinear_arith);
        }
        acc = acc * 10;
        i = i + 1;
    }
    proof {
        assert(pow10((decimals - i) as nat) == 1);
    }
    acc <= lower_bound
}

} // verus!
