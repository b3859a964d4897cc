//! The top-up dispatcher: walks the caller's (account, asset) pairs,
//! filters by registry membership, balance liveness, threshold
//! breach, per-call deduplication and per-pair cooldown, emits one
//! refill transfer per surviving pair, and records the refill height.
//!
//! The whole run is specified by the [`scan_targets`] fold; the
//! handler's contract ties its output and the new ledger to that fold
//! exactly.

use vstd::prelude::*;
use crate::asset::{AssetInfo, AssetInfoV};
use crate::helpers::{is_low, is_low_spec, query_balance, BalanceSheet};
use crate::msg::{attr_bool, attr_str, attr_uint, is_attr_bool, is_attr_str, is_attr_uint,
    Response, TopupMsg, TopupTarget, TopupTargetV, TransferMsg, TransferV};
use crate::order::lex_lt;
use crate::state::{ledger_map, ledger_wf, lemma_ledger_map_absent, lemma_ledger_map_at,
    lemma_ledger_map_push, lemma_ledger_map_update, lemma_reg_addrs_distinct,
    lemma_reg_find_absent, lemma_reg_find_at, reg_find, registry_wf, AssetDataV, BalanceInfoV,
    BalanceMappingV, ContractState, TopupRecord};

verus! {

/// An (account, asset) pair, the unit the dispatcher deduplicates and
/// rate-limits on.
pub type PairV = (Seq<char>, AssetInfoV);

/// The dispatcher's running state: the pairs already scheduled in
/// this call, the transfers emitted so far, the ledger content, and
/// whether a duplicate or cooling-down pair was asked for.
pub ghost struct ScanV {
    pub scheduled: Set<PairV>,
    pub msgs: Seq<TransferV>,
    pub ledger: Map<PairV, u64>,
    pub hack: bool,
}

/// The (account, asset) pairs of a transfer list.
pub open spec fn msg_pairs(msgs: Seq<TransferV>) -> Set<PairV> {
    msgs.map_values(|m: TransferV| (m.to, m.asset)).to_set()
}

/// The first registry entry of `bals` naming `asset`, if any.
pub open spec fn assets_find(bals: Seq<AssetDataV>, asset: AssetInfoV) -> Option<AssetDataV>
    decreases bals.len(),
{
    if bals.len() == 0 {
        None
    } else if bals[0].asset == asset {
        Some(bals[0])
    } else {
        assets_find(bals.drop_first(), asset)
    }
}

/// The pair was refilled less than `range` blocks before `height`.
pub open spec fn cooldown_hit(
    led: Map<PairV, u64>,
    addr: Seq<char>,
    asset: AssetInfoV,
    height: u64,
    range: u64,
) -> bool {
    led.contains_key((addr, asset)) && led[(addr, asset)] + range > height
}

/// One step of the dispatcher: consider `asset` for the account
/// `addr` whose registry record is `info`.
pub open spec fn scan_asset(
    sheet: BalanceSheet,
    info: BalanceInfoV,
    height: u64,
    range: u64,
    st: ScanV,
    addr: Seq<char>,
    asset: AssetInfoV,
) -> ScanV {
    match sheet.spec_find(addr, asset) {
        None => st,
        Some(amount) => match assets_find(info.balances, asset) {
            None => st,
            Some(data) => if !is_low_spec(amount, data.lower_bound, data.decimals) {
                st
            } else if st.scheduled.contains((addr, asset)) {
                ScanV { scheduled: st.scheduled, msgs: st.msgs, ledger: st.ledger, hack: true }
            } else if cooldown_hit(st.ledger, addr, asset, height, range) {
                ScanV { scheduled: st.scheduled, msgs: st.msgs, ledger: st.ledger, hack: true }
            } else {
                ScanV {
                    scheduled: st.scheduled.insert((addr, asset)),
                    msgs: st.msgs.push(TransferV { to: addr, asset, amount: data.upper_bound }),
                    ledger: st.ledger.insert((addr, asset), height),
                    hack: st.hack,
                }
            },
        },
    }
}

/// Folds [`scan_asset`] over one target's asset list, in order.
pub open spec fn scan_assets(
    sheet: BalanceSheet,
    info: BalanceInfoV,
    height: u64,
    range: u64,
    st: ScanV,
    addr: Seq<char>,
    assets: Seq<AssetInfoV>,
) -> ScanV
    decreases assets.len(),
{
    if assets.len() == 0 {
        st
    } else {
        scan_assets(
            sheet,
            info,
            height,
            range,
            scan_asset(sheet, info, height, range, st, addr, assets[0]),
            addr,
            assets.drop_first(),
        )
    }
}

/// One request entry: an account absent from the registry is skipped
/// silently, otherwise its asset list is scanned.
pub open spec fn scan_target(
    sheet: BalanceSheet,
    reg: Seq<BalanceMappingV>,
    height: u64,
    range: u64,
    st: ScanV,
    t: TopupTargetV,
) -> ScanV {
    match reg_find(reg, t.addr) {
        None => st,
        Some(info) => scan_assets(sheet, info, height, range, st, t.addr, t.asset_infos),
    }
}

/// Folds [`scan_target`] over the request entries, in order.
pub open spec fn scan_targets(
    sheet: BalanceSheet,
    reg: Seq<BalanceMappingV>,
    height: u64,
    range: u64,
    st: ScanV,
    ts: Seq<TopupTargetV>,
) -> ScanV
    decreases ts.len(),
{
    if ts.len() == 0 {
        st
    } else {
        scan_targets(
            sheet,
            reg,
            height,
            range,
            scan_target(sheet, reg, height, range, st, ts[0]),
            ts.drop_first(),
        )
    }
}

/// The dispatcher's starting state over a ledger content.
pub open spec fn scan_init(led: Map<PairV, u64>) -> ScanV {
    ScanV { scheduled: Set::empty(), msgs: Seq::empty(), ledger: led, hack: false }
}

/// The whole run of one `topup` call against a state and a snapshot.
pub open spec fn topup_scan(
    sheet: BalanceSheet,
    st0: crate::state::ContractStateV,
    height: u64,
    targets: Seq<TopupTargetV>,
) -> ScanV {
    scan_targets(
        sheet,
        st0.balance_infos,
        height,
        st0.config.minimum_block_range,
        scan_init(ledger_map(st0.topup_ledger)),
        targets,
    )
}

/// The recorded refill height for the pair, if one is recorded.
fn ledger_get(led: &Vec<TopupRecord>, addr: &String, asset: &AssetInfo) -> (r: Option<u64>)
    requires
        ledger_wf(led@.map_values(|t: TopupRecord| t@)),
    ensures
        ({
            let lm = ledger_map(led@.map_values(|t: TopupRecord| t@));
            match r {
                Some(h) => lm.contains_key((addr@, asset@)) && lm[(addr@, asset@)] == h,
                None => !lm.contains_key((addr@, asset@)),
            }
        }),
{
    let ghost ledv = led@.map_values(|t: TopupRecord| t@);
    let n = led.len();
    let mut i: usize = 0;
    while i < n
        invariant
            i <= n,
            n == ledv.len(),
            ledv == led@.map_values(|t: TopupRecord| t@),
            ledger_wf(ledv),
            forall|j: int|
                0 <= j < i ==> !((#[trigger] ledv[j]).addr == addr@ && ledv[j].asset == asset@),
        decreases n - i,
    {
        if led[i].addr == *addr && led[i].asset.same_asset(asset) {
            proof {
                lemma_ledger_map_at(ledv, i as int);
            }
            return Some(led[i].height);
        }
        i = i + 1;
    }
    proof {
        lemma_ledger_map_absent(ledv, addr@, asset@);
    }
    None
}

/// Records `height` as the pair's last refill, overwriting an
/// earlier record.
fn ledger_upsert(led: &mut Vec<TopupRecord>, addr: &String, asset: &AssetInfo, height: u64)
    requires
        ledger_wf(old(led)@.map_values(|t: TopupRecord| t@)),
    ensures
        ledger_wf(final(led)@.map_values(|t: TopupRecord| t@)),
        ledger_map(final(led)@.map_values(|t: TopupRecord| t@)) == ledger_map(
            old(led)@.map_values(|t: TopupRecord| t@),
        ).insert((addr@, asset@), height),
{
    let ghost led0 = led@.map_values(|t: TopupRecord| t@);
    let n = led.len();
    let mut i: usize = 0;
    let mut found: bool = false;
    let mut at: usize = 0;
    while i < n && !found
        invariant
            i <= n,
            n == led0.len(),
            led0 == led@.map_values(|t: TopupRecord| t@),
            found ==> at < n && led0[at as int].addr == addr@ && led0[at as int].asset == asset@,
            !found ==> forall|j: int|
                0 <= j < i ==> !((#[trigger] led0[j]).addr == addr@ && led0[j].asset == asset@),
        decreases n - i + if found {
            0int
        } else {
            1int
        },
    {
        if led[i].addr == *addr && led[i].asset.same_asset(asset) {
            found = true;
            at = i;
        } else {
            i = i + 1;
        }
    }
    let rec = TopupRecord { addr: addr.clone(), asset: asset.clone(), height };
    if found {
        proof {
            lemma_ledger_map_update(led0, at as int, rec@);
        }
        led[at] = rec;
        proof {
            assert(led@.map_values(|t: TopupRecord| t@) =~= led0.update(at as int, rec@));
        }
    } else {
        proof {
            lemma_ledger_map_push(led0, rec@);
        }
        led.push(rec);
        proof {
            assert(led@.map_values(|t: TopupRecord| t@) =~= led0.push(rec@));
        }
    }
}

/// Whether this call already scheduled a transfer for the pair.
fn already_scheduled(msgs: &Vec<TransferMsg>, addr: &String, asset: &AssetInfo) -> (r: bool)
    ensures
        r == msg_pairs(msgs@.map_values(|m: TransferMsg| m@)).contains((addr@, asset@)),
{
    let ghost mv = msgs@.map_values(|m: TransferMsg| m@);
    let ghost pv = mv.map_values(|m: TransferV| (m.to, m.asset));
    let n = msgs.len();
    let mut i: usize = 0;
    while i < n
        invariant
            i <= n,
            n == msgs@.len(),
            mv == msgs@.map_values(|m: TransferMsg| m@),
            pv == mv.map_values(|m: TransferV| (m.to, m.asset)),
            forall|j: int| 0 <= j < i ==> #[trigger] pv[j] != (addr@, asset@),
        decreases n - i,
    {
        if msgs[i].to == *addr && msgs[i].asset.same_asset(asset) {
            proof {
                assert(pv[i as int] == (addr@, asset@));
                assert(pv.contains((addr@, asset@)));
            }
            return true;
        }
        proof {
            assert(pv[i as int] == (mv[i as int].to, mv[i as int].asset));
        }
        i = i + 1;
    }
    proof {
        if pv.contains((addr@, asset@)) {
            let j = choose|j: int| 0 <= j < pv.len() && pv[j] == (addr@, asset@);
            assert(pv[j] != (addr@, asset@));
        }
    }
    false
}

/// `assets_find` returns the entry at the first matching index.
proof fn lemma_assets_find_at(bals: Seq<AssetDataV>, asset: AssetInfoV, k: int)
    requires
        0 <= k < bals.len(),
        bals[k].asset == asset,
        forall|j: int| 0 <= j < k ==> (#[trigger] bals[j]).asset != asset,
    ensures
        assets_find(bals, asset) == Some(bals[k]),
    decreases k,
{
    if k > 0 {
        assert(bals.drop_first()[k - 1] == bals[k]);
        assert forall|j: int| 0 <= j < k - 1 implies (#[trigger] bals.drop_first()[j]).asset
            != asset by {
            assert(bals.drop_first()[j] == bals[j + 1]);
        }
        lemma_assets_find_at(bals.drop_first(), asset, k - 1);
    }
}

/// An asset on no entry is found on no entry.
proof fn lemma_assets_find_absent(bals: Seq<AssetDataV>, asset: AssetInfoV)
    requires
        forall|j: int| 0 <= j < bals.len() ==> (#[trigger] bals[j]).asset != asset,
    ensures
        assets_find(bals, asset) == None::<AssetDataV>,
    decreases bals.len(),
{
    if bals.len() > 0 {
        assert forall|j: int| 0 <= j < bals.drop_first().len() implies (
        #[trigger] bals.drop_first()[j]).asset != asset by {
            assert(bals.drop_first()[j] == bals[j + 1]);
        }
        lemma_assets_find_absent(bals.drop_first(), asset);
    }
}

/// Refills every under-funded (account, asset) pair among the
/// requested targets back to its upper bound: one transfer per pair
/// at most once per cooldown window, exactly as [`topup_scan`]
/// unfolds the request. Requests that name a pair twice or during
/// its cooldown are skipped and flagged.
pub fn handle_topup(state: &mut ContractState, sheet: &BalanceSheet, height: u64, msg: TopupMsg)
    -> (r: Response)
    requires
        old(state)@.wf(),
    ensures
        final(state)@.wf(),
        final(state)@.admin == old(state)@.admin,
        final(state)@.config == old(state)@.config,
        final(state)@.balance_infos == old(state)@.balance_infos,
        ({
            let fin = topup_scan(
                *sheet,
                old(state)@,
                height,
                msg.balances@.map_values(|t: TopupTarget| t@),
            );
            &&& r.messages@.map_values(|m: TransferMsg| m@) == fin.msgs
            &&& ledger_map(final(state)@.topup_ledger) == fin.ledger
            &&& r.attributes@.len() == 3
            &&& is_attr_str(r.attributes@[0], "action"@, "topup"@)
            &&& is_attr_bool(r.attributes@[1], "is_hack_attempted"@, fin.hack)
            &&& is_attr_uint(r.attributes@[2], "topup_msgs_length"@, fin.msgs.len() as u128)
        }),
{
    let ghost reg = state@.balance_infos;
    let ghost targets = msg.balances@.map_values(|t: TopupTarget| t@);
    let range = state.config.minimum_block_range;
    let ghost fin = scan_targets(
        *sheet,
        reg,
        height,
        range,
        scan_init(ledger_map(state@.topup_ledger)),
        targets,
    );
    let mut msgs: Vec<TransferMsg> = Vec::new();
    let mut hack: bool = false;
    let n = msg.balances.len();
    let mut i: usize = 0;
    proof {
        assert(targets.skip(0) =~= targets);
        assert(msgs@.map_values(|m: TransferMsg| m@) =~= Seq::<TransferV>::empty());
        assert(msg_pairs(Seq::<TransferV>::empty()) =~= Set::<PairV>::empty());
    }
    while i < n
        invariant
            i <= n,
            n == targets.len(),
            targets == msg.balances@.map_values(|t: TopupTarget| t@),
            reg == state@.balance_infos,
            registry_wf(reg),
            state.admin == old(state).admin,
            state.config == old(state).config,
            state.balance_infos == old(state).balance_infos,
            ledger_wf(state@.topup_ledger),
            fin == scan_targets(
                *sheet,
                reg,
                height,
                range,
                ScanV {
                    scheduled: msg_pairs(msgs@.map_values(|m: TransferMsg| m@)),
                    msgs: msgs@.map_values(|m: TransferMsg| m@),
                    ledger: ledger_map(state@.topup_ledger),
                    hack: hack,
                },
                targets.skip(i as int),
            ),
        decreases n - i,
    {
        let ghost cur = ScanV {
            scheduled: msg_pairs(msgs@.map_values(|m: TransferMsg| m@)),
            msgs: msgs@.map_values(|m: TransferMsg| m@),
            ledger: ledger_map(state@.topup_ledger),
            hack: hack,
        };
        proof {
            assert(targets.skip(i as int)[0] == targets[i as int]);
            assert(targets.skip(i as int).drop_first() =~= targets.skip(i as int + 1));
            assert forall|p: int, q: int|
                0 <= p < q < reg.len() implies (#[trigger] reg[p]).addr != (
            #[trigger] reg[q]).addr by {
                lemma_reg_addrs_distinct(reg, p, q);
            }
        }
        let target_addr = &msg.balances[i].addr;
        let (idx, found) = crate::contract::locate_addr(&state.balance_infos, target_addr);
        if !found {
            proof {
                assert forall|j: int| 0 <= j < reg.len() implies (#[trigger] reg[j]).addr
                    != target_addr@ by {
                    crate::order::lemma_lex_lt_irreflexive(target_addr@);
                    if reg[j].addr == target_addr@ {
                        assert(lex_lt(reg[j].addr, target_addr@) || lex_lt(
                            target_addr@,
                            reg[j].addr,
                        ));
                    }
                }
                lemma_reg_find_absent(reg, target_addr@);
                assert(scan_target(*sheet, reg, height, range, cur, targets[i as int]) == cur);
            }
        } else {
            proof {
                lemma_reg_find_at(reg, idx as int);
            }
            let ghost info = reg[idx as int].info;
            let ghost assetsv = targets[i as int].asset_infos;
            let m = msg.balances[i].asset_infos.len();
            let mut j: usize = 0;
            proof {
                assert(assetsv.skip(0) =~= assetsv);
            }
            while j < m
                invariant
                    i < n,
                    j <= m,
                    n == targets.len(),
                    targets == msg.balances@.map_values(|t: TopupTarget| t@),
                    m == assetsv.len(),
                    assetsv == targets[i as int].asset_infos,
                    reg == state@.balance_infos,
                    registry_wf(reg),
                    state.admin == old(state).admin,
                    state.config == old(state).config,
                    state.balance_infos == old(state).balance_infos,
                    ledger_wf(state@.topup_ledger),
                    0 <= idx < reg.len(),
                    info == reg[idx as int].info,
                    reg_find(reg, targets[i as int].addr) == Some(info),
                    fin == scan_targets(
                        *sheet,
                        reg,
                        height,
                        range,
                        scan_assets(
                            *sheet,
                            info,
                            height,
                            range,
                            ScanV {
                                scheduled: msg_pairs(msgs@.map_values(|m2: TransferMsg| m2@)),
                                msgs: msgs@.map_values(|m2: TransferMsg| m2@),
                                ledger: ledger_map(state@.topup_ledger),
                                hack: hack,
                            },
                            targets[i as int].addr,
                            assetsv.skip(j as int),
                        ),
                        targets.skip(i as int + 1),
                    ),
                decreases m - j,
            {
                let ghost stv = ScanV {
                    scheduled: msg_pairs(msgs@.map_values(|m2: TransferMsg| m2@)),
                    msgs: msgs@.map_values(|m2: TransferMsg| m2@),
                    ledger: ledger_map(state@.topup_ledger),
                    hack: hack,
                };
                let ghost addrv = targets[i as int].addr;
                proof {
                    assert(assetsv.skip(j as int)[0] == assetsv[j as int]);
                    assert(assetsv.skip(j as int).drop_first() =~= assetsv.skip(j as int + 1));
                }
                let addr_str = &msg.balances[i].addr;
                let asset = &msg.balances[i].asset_infos[j];
                proof {
                    assert(asset@ == assetsv[j as int]);
                    assert(addr_str@ == addrv);
                }
                match query_balance(sheet, addr_str, asset) {
                    Err(_) => {
                        proof {
                            assert(scan_asset(*sheet, info, height, range, stv, addrv, asset@)
                                == stv);
                        }
                    },
                    Ok(amount) => {
                        let hit = crate::contract::find_asset(
                            &state.balance_infos[idx].info.balances,
                            asset,
                        );
                        match hit {
                            None => {
                                proof {
                                    lemma_assets_find_absent(info.balances, asset@);
                                    assert(scan_asset(*sheet, info, height, range, stv, addrv,
                                        asset@) == stv);
                                }
                            },
                            Some(k) => {
                                proof {
                                    lemma_assets_find_at(info.balances, asset@, k as int);
                                }
                                let data_lower = state.balance_infos[idx].info.balances[k]
                                    .lower_bound;
                                let data_upper = state.balance_infos[idx].info.balances[k]
                                    .upper_bound;
                                let data_decimals = state.balance_infos[idx].info.balances[k]
                                    .decimals;
                                if !is_low(amount, data_lower, data_decimals) {
                                    proof {
                                        assert(scan_asset(*sheet, info, height, range, stv, addrv,
                                            asset@) == stv);
                                    }
                                } else if already_scheduled(&msgs, addr_str, asset) {
                                    hack = true;
                                    proof {
                                        assert(scan_asset(*sheet, info, height, range, stv, addrv,
                                            asset@) == ScanV {
                                            scheduled: stv.scheduled,
                                            msgs: stv.msgs,
                                            ledger: stv.ledger,
                                            hack: true,
                                        });
                                    }
                                } else {
                                    let blocked = match ledger_get(
                                        &state.topup_ledger,
                                        addr_str,
                                        asset,
                                    ) {
                                        Some(h0) => (h0 as u128) + (range as u128) > (
                                        height as u128),
                                        None => false,
                                    };
                                    if blocked {
                                        hack = true;
                                        proof {
                                            assert(cooldown_hit(stv.ledger, addrv, asset@, height,
                                                range));
                                            assert(scan_asset(*sheet, info, height, range, stv,
                                                addrv, asset@) == ScanV {
                                                scheduled: stv.scheduled,
                                                msgs: stv.msgs,
                                                ledger: stv.ledger,
                                                hack: true,
                                            });
                                        }
                                    } else {
                                        proof {
                                            assert(!cooldown_hit(stv.ledger, addrv, asset@,
                                                height, range));
                                        }
                                        msgs.push(
                                            TransferMsg {
                                                to: addr_str.clone(),
                                                asset: asset.clone(),
                                                amount: data_upper,
                                            },
                                        );
                                        ledger_upsert(
                                            &mut state.topup_ledger,
                                            addr_str,
                                            asset,
                                            height,
                                        );
                                        proof {
                                            let mv2 = msgs@.map_values(|m2: TransferMsg| m2@);
                                            let emitted = TransferV {
                                                to: addrv,
                                                asset: asset@,
                                                amount: data_upper,
                                            };
                                            assert(mv2 =~= stv.msgs.push(emitted));
                                            assert(mv2.map_values(
                                                |m2: TransferV| (m2.to, m2.asset),
                                            ) =~= stv.msgs.map_values(
                                                |m2: TransferV| (m2.to, m2.asset),
                                            ).push((addrv, asset@)));
                                            stv.msgs.map_values(
                                                |m2: TransferV| (m2.to, m2.asset),
                                            ).lemma_push_to_set_commute((addrv, asset@));
                                            assert(msg_pairs(mv2) =~= stv.scheduled.insert(
                                                (addrv, asset@),
                                            ));
                                            assert(scan_asset(*sheet, info, height, range, stv,
                                                addrv, asset@) == ScanV {
                                                scheduled: msg_pairs(mv2),
                                                msgs: mv2,
                                                ledger: ledger_map(state@.topup_ledger),
                                                hack: hack,
                                            });
                                        }
                                    }
                                }
                            },
                        }
                    },
                }
                j = j + 1;
            }
            proof {
                assert(assetsv.skip(m as int) =~= Seq::<AssetInfoV>::empty());
            }
        }
        i = i + 1;
    }
    proof {
        assert(targets.skip(n as int) =~= Seq::<TopupTargetV>::empty());
    }
    let count = msgs.len();
    let resp = Response {
        attributes: vec![
            attr_str("action", "topup"),
            attr_bool("is_hack_attempted", hack),
            attr_uint("topup_msgs_length", count as u128),
        ],
        messages: msgs,
    };
    resp
}

/// A pair is eligible for a refill against ledger content `led0` at
/// `height`: its account and asset are registered, its probed balance
/// is at or below the lower bound, and its last recorded refill (if
/// any) is at least `range` blocks old.
pub open spec fn eligible(
    sheet: BalanceSheet,
    reg: Seq<BalanceMappingV>,
    led0: Map<PairV, u64>,
    height: u64,
    range: u64,
    p: PairV,
) -> bool {
    match reg_find(reg, p.0) {
        None => false,
        Some(info) => match assets_find(info.balances, p.1) {
            None => false,
            Some(data) => match sheet.spec_find(p.0, p.1) {
                None => false,
                Some(amount) => is_low_spec(amount, data.lower_bound, data.decimals)
                    && !cooldown_hit(led0, p.0, p.1, height, range),
            },
        },
    }
}

/// The registry's refill target for a pair.
pub open spec fn upper_of(reg: Seq<BalanceMappingV>, p: PairV) -> u128 {
    match reg_find(reg, p.0) {
        Some(info) => match assets_find(info.balances, p.1) {
            Some(data) => data.upper_bound,
            None => 0,
        },
        None => 0,
    }
}

/// What every reachable dispatcher state satisfies: the scheduled set
/// is the set of emitted pairs, emitted pairs are distinct and
/// eligible against the pre-call ledger with the registry's upper
/// bound as amount, scheduled pairs are recorded at `height`, and
/// unscheduled pairs still carry the pre-call ledger content.
pub open spec fn scan_inv(
    sheet: BalanceSheet,
    reg: Seq<BalanceMappingV>,
    led0: Map<PairV, u64>,
    height: u64,
    range: u64,
    st: ScanV,
) -> bool {
    &&& st.scheduled == msg_pairs(st.msgs)
    &&& forall|a: int, b: int|
        0 <= a < b < st.msgs.len() ==> ((#[trigger] st.msgs[a]).to, st.msgs[a].asset) != ((
        #[trigger] st.msgs[b]).to, st.msgs[b].asset)
    &&& forall|k: int|
        0 <= k < st.msgs.len() ==> eligible(
            sheet,
            reg,
            led0,
            height,
            range,
            ((#[trigger] st.msgs[k]).to, st.msgs[k].asset),
        ) && st.msgs[k].amount == upper_of(reg, (st.msgs[k].to, st.msgs[k].asset))
    &&& forall|p: PairV|
        #[trigger] st.scheduled.contains(p) ==> st.ledger.contains_key(p) && st.ledger[p] == height
    &&& forall|p: PairV|
        !st.scheduled.contains(p) ==> (#[trigger] st.ledger.contains_key(p) == led0.contains_key(p))
            && (led0.contains_key(p) ==> st.ledger[p] == led0[p])
}

/// Flagging a duplicate or cooling-down request does not disturb the
/// invariant: only the flag changes.
proof fn lemma_scan_inv_hack(
    sheet: BalanceSheet,
    reg: Seq<BalanceMappingV>,
    led0: Map<PairV, u64>,
    height: u64,
    range: u64,
    st: ScanV,
    flagged: bool,
)
    requires
        scan_inv(sheet, reg, led0, height, range, st),
    ensures
        scan_inv(
            sheet,
            reg,
            led0,
            height,
            range,
            ScanV { scheduled: st.scheduled, msgs: st.msgs, ledger: st.ledger, hack: flagged },
        ),
{
    let st2 = ScanV { scheduled: st.scheduled, msgs: st.msgs, ledger: st.ledger, hack: flagged };
    assert(st2.scheduled == msg_pairs(st2.msgs));
    assert forall|q: PairV| #[trigger] st2.scheduled.contains(q) implies st2.ledger.contains_key(q)
        && st2.ledger[q] == height by {
        assert(st.scheduled.contains(q));
    }
    assert forall|q: PairV| !st2.scheduled.contains(q) implies (
    #[trigger] st2.ledger.contains_key(q) == led0.contains_key(q)) && (led0.contains_key(q)
        ==> st2.ledger[q] == led0[q]) by {
        assert(!st.scheduled.contains(q));
        assert(st.ledger.contains_key(q) == led0.contains_key(q));
    }
}

/// One dispatcher step preserves the invariant; it never unschedules
/// a pair or drops a transfer, and it schedules every eligible pair
/// it is asked about.
#[verifier::rlimit(100)]
#[verifier::spinoff_prover]
proof fn lemma_scan_asset_inv(
    sheet: BalanceSheet,
    reg: Seq<BalanceMappingV>,
    led0: Map<PairV, u64>,
    height: u64,
    range: u64,
    st: ScanV,
    info: BalanceInfoV,
    addr: Seq<char>,
    asset: AssetInfoV,
)
    requires
        scan_inv(sheet, reg, led0, height, range, st),
        reg_find(reg, addr) == Some(info),
    ensures
        scan_inv(sheet, reg, led0, height, range, scan_asset(sheet, info, height, range, st, addr,
            asset)),
        st.scheduled.subset_of(scan_asset(sheet, info, height, range, st, addr, asset).scheduled),
        st.msgs.is_prefix_of(scan_asset(sheet, info, height, range, st, addr, asset).msgs),
        eligible(sheet, reg, led0, height, range, (addr, asset)) ==> scan_asset(
            sheet,
            info,
            height,
            range,
            st,
            addr,
            asset,
        ).scheduled.contains((addr, asset)),
{
    let st2 = scan_asset(sheet, info, height, range, st, addr, asset);
    let p = (addr, asset);
    assert(st.msgs.is_prefix_of(st.msgs)) by {
        assert(st.msgs.subrange(0, st.msgs.len() as int) =~= st.msgs);
    }
    match sheet.spec_find(addr, asset) {
        None => {
            assert(st2 == st);
            assert(scan_inv(sheet, reg, led0, height, range, st2));
        },
        Some(amount) => match assets_find(info.balances, asset) {
            None => {
                assert(st2 == st);
                assert(scan_inv(sheet, reg, led0, height, range, st2));
            },
            Some(data) => {
                if !is_low_spec(amount, data.lower_bound, data.decimals) {
                    assert(st2 == st);
                    assert(scan_inv(sheet, reg, led0, height, range, st2));
                } else if st.scheduled.contains(p) {
                    lemma_scan_inv_hack(sheet, reg, led0, height, range, st, true);
                    assert(scan_inv(sheet, reg, led0, height, range, st2));
                } else if cooldown_hit(st.ledger, addr, asset, height, range) {
                    // the pair is unscheduled, so its ledger entry is
                    // the pre-call one: it is simply not eligible
                    assert(st.ledger.contains_key(p) == led0.contains_key(p));
                    assert(!eligible(sheet, reg, led0, height, range, p));
                    lemma_scan_inv_hack(sheet, reg, led0, height, range, st, true);
                    assert(scan_inv(sheet, reg, led0, height, range, st2));
                } else {
                    let emitted = TransferV { to: addr, asset, amount: data.upper_bound };
                    assert(st2.msgs == st.msgs.push(emitted));
                    assert(st2.msgs.map_values(|m: TransferV| (m.to, m.asset)) =~= st.msgs.map_values(
                        |m: TransferV| (m.to, m.asset),
                    ).push(p));
                    st.msgs.map_values(|m: TransferV| (m.to, m.asset)).lemma_push_to_set_commute(p);
                    assert(st2.scheduled =~= msg_pairs(st2.msgs));
                    // the new pair is not among the earlier ones
                    assert forall|a: int, b: int|
                        0 <= a < b < st2.msgs.len() implies ((#[trigger] st2.msgs[a]).to,
                    st2.msgs[a].asset) != ((#[trigger] st2.msgs[b]).to, st2.msgs[b].asset) by {
                        if b == st.msgs.len() as int {
                            assert(st2.msgs[b] == emitted);
                            assert(st2.msgs[a] == st.msgs[a]);
                            if (st.msgs[a].to, st.msgs[a].asset) == p {
                                assert(st.msgs.map_values(|m: TransferV| (m.to, m.asset))[a] == p);
                                assert(msg_pairs(st.msgs).contains(p));
                            }
                        } else {
                            assert(st2.msgs[a] == st.msgs[a]);
                            assert(st2.msgs[b] == st.msgs[b]);
                        }
                    }
                    // eligibility of the new pair, against the pre-call ledger
                    assert(st.ledger.contains_key(p) == led0.contains_key(p));
                    assert(!cooldown_hit(led0, addr, asset, height, range));
                    assert(eligible(sheet, reg, led0, height, range, p));
                    assert forall|k: int| 0 <= k < st2.msgs.len() implies eligible(
                        sheet,
                        reg,
                        led0,
                        height,
                        range,
                        ((#[trigger] st2.msgs[k]).to, st2.msgs[k].asset),
                    ) && st2.msgs[k].amount == upper_of(
                        reg,
                        (st2.msgs[k].to, st2.msgs[k].asset),
                    ) by {
                        if k < st.msgs.len() {
                            assert(st2.msgs[k] == st.msgs[k]);
                        } else {
                            assert(st2.msgs[k] == emitted);
                        }
                    }
                    assert forall|q: PairV| #[trigger] st2.scheduled.contains(q)
                        implies st2.ledger.contains_key(q) && st2.ledger[q] == height by {
                        if q != p {
                            assert(st.scheduled.contains(q));
                        }
                    }
                    assert forall|q: PairV| !st2.scheduled.contains(q) implies (
                    #[trigger] st2.ledger.contains_key(q) == led0.contains_key(q)) && (
                    led0.contains_key(q) ==> st2.ledger[q] == led0[q]) by {
                        assert(q != p);
                        assert(!st.scheduled.contains(q));
                    }
                    assert(st.msgs.is_prefix_of(st2.msgs)) by {
                        assert(st2.msgs.subrange(0, st.msgs.len() as int) =~= st.msgs);
                    }
                    assert(scan_inv(sheet, reg, led0, height, range, st2));
                }
            },
        },
    }
}

/// Folding one target's asset list preserves the invariant, keeps
/// every scheduled pair, and schedules every eligible pair the list
/// names for this account.
proof fn lemma_scan_assets_inv(
    sheet: BalanceSheet,
    reg: Seq<BalanceMappingV>,
    led0: Map<PairV, u64>,
    height: u64,
    range: u64,
    st: ScanV,
    info: BalanceInfoV,
    addr: Seq<char>,
    assets: Seq<AssetInfoV>,
)
    requires
        scan_inv(sheet, reg, led0, height, range, st),
        reg_find(reg, addr) == Some(info),
    ensures
        ({
            let st2 = scan_assets(sheet, info, height, range, st, addr, assets);
            &&& scan_inv(sheet, reg, led0, height, range, st2)
            &&& st.scheduled.subset_of(st2.scheduled)
            &&& st.msgs.is_prefix_of(st2.msgs)
            &&& forall|x: AssetInfoV|
                assets.contains(x) && eligible(sheet, reg, led0, height, range, (addr, x))
                    ==> st2.scheduled.contains((addr, x))
        }),
    decreases assets.len(),
{
    if assets.len() == 0 {
        assert(st.msgs.is_prefix_of(st.msgs));
    } else {
        let st1 = scan_asset(sheet, info, height, range, st, addr, assets[0]);
        lemma_scan_asset_inv(sheet, reg, led0, height, range, st, info, addr, assets[0]);
        lemma_scan_assets_inv(sheet, reg, led0, height, range, st1, info, addr,
            assets.drop_first());
        let st2 = scan_assets(sheet, info, height, range, st, addr, assets);
        assert(st2 == scan_assets(sheet, info, height, range, st1, addr, assets.drop_first()));
        assert forall|x: AssetInfoV|
            assets.contains(x) && eligible(sheet, reg, led0, height, range, (addr, x))
                implies st2.scheduled.contains((addr, x)) by {
            if x == assets[0] {
                assert(st1.scheduled.contains((addr, x)));
                assert(st1.scheduled.subset_of(st2.scheduled));
            } else {
                let k = choose|k: int| 0 <= k < assets.len() && assets[k] == x;
                if k == 0 {
                } else {
                    assert(assets.drop_first()[k - 1] == x);
                    assert(assets.drop_first().contains(x));
                }
            }
        }
    }
}

/// One request entry preserves the invariant, keeps every scheduled
/// pair, and schedules every eligible pair the entry names.
proof fn lemma_scan_target_inv(
    sheet: BalanceSheet,
    reg: Seq<BalanceMappingV>,
    led0: Map<PairV, u64>,
    height: u64,
    range: u64,
    st: ScanV,
    t: TopupTargetV,
)
    requires
        scan_inv(sheet, reg, led0, height, range, st),
    ensures
        ({
            let st2 = scan_target(sheet, reg, height, range, st, t);
            &&& scan_inv(sheet, reg, led0, height, range, st2)
            &&& st.scheduled.subset_of(st2.scheduled)
            &&& st.msgs.is_prefix_of(st2.msgs)
            &&& forall|x: AssetInfoV|
                t.asset_infos.contains(x) && eligible(sheet, reg, led0, height, range, (t.addr, x))
                    ==> st2.scheduled.contains((t.addr, x))
        }),
{
    match reg_find(reg, t.addr) {
        None => {
            assert(st.msgs.is_prefix_of(st.msgs));
        },
        Some(info) => {
            lemma_scan_assets_inv(sheet, reg, led0, height, range, st, info, t.addr,
                t.asset_infos);
        },
    }
}

/// The whole request fold preserves the invariant, keeps every
/// scheduled pair, and schedules every eligible pair some entry
/// names.
proof fn lemma_scan_targets_inv(
    sheet: BalanceSheet,
    reg: Seq<BalanceMappingV>,
    led0: Map<PairV, u64>,
    height: u64,
    range: u64,
    st: ScanV,
    ts: Seq<TopupTargetV>,
)
    requires
        scan_inv(sheet, reg, led0, height, range, st),
    ensures
        ({
            let st2 = scan_targets(sheet, reg, height, range, st, ts);
            &&& scan_inv(sheet, reg, led0, height, range, st2)
            &&& st.scheduled.subset_of(st2.scheduled)
            &&& st.msgs.is_prefix_of(st2.msgs)
            &&& forall|k: int, x: AssetInfoV|
                0 <= k < ts.len() && ts[k].asset_infos.contains(x) && #[trigger] eligible(
                    sheet,
                    reg,
                    led0,
                    height,
                    range,
                    ((#[trigger] ts[k]).addr, x),
                ) ==> st2.scheduled.contains((ts[k].addr, x))
        }),
    decreases ts.len(),
{
    if ts.len() == 0 {
        assert(st.msgs.is_prefix_of(st.msgs));
    } else {
        let st1 = scan_target(sheet, reg, height, range, st, ts[0]);
        lemma_scan_target_inv(sheet, reg, led0, height, range, st, ts[0]);
        lemma_scan_targets_inv(sheet, reg, led0, height, range, st1, ts.drop_first());
        let st2 = scan_targets(sheet, reg, height, range, st, ts);
        assert(st2 == scan_targets(sheet, reg, height, range, st1, ts.drop_first()));
        assert forall|k: int, x: AssetInfoV|
            0 <= k < ts.len() && ts[k].asset_infos.contains(x) && #[trigger] eligible(
                sheet,
                reg,
                led0,
                height,
                range,
                ((#[trigger] ts[k]).addr, x),
            ) implies st2.scheduled.contains((ts[k].addr, x)) by {
            if k == 0 {
                assert(st1.scheduled.contains((ts[0].addr, x)));
                assert(st1.scheduled.subset_of(st2.scheduled));
            } else {
                assert(ts.drop_first()[k - 1] == ts[k]);
            }
        }
    }
}

/// The dispatcher's starting state satisfies the invariant.
proof fn lemma_scan_init_inv(
    sheet: BalanceSheet,
    reg: Seq<BalanceMappingV>,
    led0: Map<PairV, u64>,
    height: u64,
    range: u64,
)
    ensures
        scan_inv(sheet, reg, led0, height, range, scan_init(led0)),
{
    let st = scan_init(led0);
    assert forall|p: PairV| !(#[trigger] st.scheduled.contains(p)) by {
        assert(!Set::<PairV>::empty().contains(p));
    }
    assert(st.scheduled =~= msg_pairs(st.msgs));
}

/// Topup boundedness: the transfers a `topup` call emits name
/// pairwise distinct (account, asset) pairs; every emitted pair is
/// registered, at or below its lower bound in the oracle snapshot,
/// and past its cooldown against the pre-call ledger; and each
/// transfer carries exactly the registry's upper bound. The number
/// of transfers therefore never exceeds the number of distinct
/// eligible pairs, however long or repetitive the request is.
pub proof fn lemma_topup_bounded(
    sheet: BalanceSheet,
    st0: crate::state::ContractStateV,
    height: u64,
    targets: Seq<TopupTargetV>,
)
    ensures
        ({
            let fin = topup_scan(sheet, st0, height, targets);
            let led0 = ledger_map(st0.topup_ledger);
            let range = st0.config.minimum_block_range;
            &&& forall|a: int, b: int|
                0 <= a < b < fin.msgs.len() ==> ((#[trigger] fin.msgs[a]).to, fin.msgs[a].asset)
                    != ((#[trigger] fin.msgs[b]).to, fin.msgs[b].asset)
            &&& forall|k: int|
                0 <= k < fin.msgs.len() ==> eligible(
                    sheet,
                    st0.balance_infos,
                    led0,
                    height,
                    range,
                    ((#[trigger] fin.msgs[k]).to, fin.msgs[k].asset),
                ) && fin.msgs[k].amount == upper_of(
                    st0.balance_infos,
                    (fin.msgs[k].to, fin.msgs[k].asset),
                )
            &&& fin.msgs.len() == msg_pairs(fin.msgs).len()
        }),
{
    let led0 = ledger_map(st0.topup_ledger);
    let range = st0.config.minimum_block_range;
    lemma_scan_init_inv(sheet, st0.balance_infos, led0, height, range);
    lemma_scan_targets_inv(sheet, st0.balance_infos, led0, height, range, scan_init(led0),
        targets);
    let fin = topup_scan(sheet, st0, height, targets);
    let pairs = fin.msgs.map_values(|m: TransferV| (m.to, m.asset));
    assert(pairs.no_duplicates()) by {
        assert forall|a: int, b: int| 0 <= a < pairs.len() && 0 <= b < pairs.len() && a != b
            implies pairs[a] != pairs[b] by {
            if a < b {
                assert((fin.msgs[a].to, fin.msgs[a].asset) != (fin.msgs[b].to, fin.msgs[b].asset));
            } else {
                assert((fin.msgs[b].to, fin.msgs[b].asset) != (fin.msgs[a].to, fin.msgs[a].asset));
            }
        }
    }
    pairs.unique_seq_to_set();
}

/// Cooldown: when one `topup` call at height `h1` refills a pair and
/// a later call at height `h2` (against the state the first call
/// left) refills the same pair again, then at least
/// `minimum_block_range` blocks lie between them.
pub proof fn lemma_topup_cooldown(
    sheet1: BalanceSheet,
    sheet2: BalanceSheet,
    st0: crate::state::ContractStateV,
    st1: crate::state::ContractStateV,
    h1: u64,
    h2: u64,
    targets1: Seq<TopupTargetV>,
    targets2: Seq<TopupTargetV>,
    p: PairV,
)
    requires
        st1.balance_infos == st0.balance_infos,
        st1.config == st0.config,
        ledger_map(st1.topup_ledger) == topup_scan(sheet1, st0, h1, targets1).ledger,
        msg_pairs(topup_scan(sheet1, st0, h1, targets1).msgs).contains(p),
        msg_pairs(topup_scan(sheet2, st1, h2, targets2).msgs).contains(p),
    ensures
        h2 >= h1 + st0.config.minimum_block_range,
{
    let range = st0.config.minimum_block_range;
    let led0 = ledger_map(st0.topup_ledger);
    let fin1 = topup_scan(sheet1, st0, h1, targets1);
    lemma_scan_init_inv(sheet1, st0.balance_infos, led0, h1, range);
    lemma_scan_targets_inv(sheet1, st0.balance_infos, led0, h1, range, scan_init(led0), targets1);
    assert(fin1.scheduled.contains(p));
    assert(fin1.ledger.contains_key(p) && fin1.ledger[p] == h1);
    let led1 = ledger_map(st1.topup_ledger);
    let fin2 = topup_scan(sheet2, st1, h2, targets2);
    lemma_scan_init_inv(sheet2, st1.balance_infos, led1, h2, range);
    lemma_scan_targets_inv(sheet2, st1.balance_infos, led1, h2, range, scan_init(led1), targets2);
    let k = choose|k: int|
        0 <= k < fin2.msgs.len() && (fin2.msgs[k].to, fin2.msgs[k].asset) == p;
    assert(fin2.msgs.map_values(|m: TransferV| (m.to, m.asset)).contains(p));
    assert(eligible(sheet2, st1.balance_infos, led1, h2, range, ((fin2.msgs[k]).to,
        fin2.msgs[k].asset)));
    assert(!cooldown_hit(led1, p.0, p.1, h2, range));
}

/// Intra-call idempotence: a request that names an eligible pair any
/// number of times produces exactly one transfer for it.
pub proof fn lemma_topup_intra_call_idempotent(
    sheet: BalanceSheet,
    st0: crate::state::ContractStateV,
    height: u64,
    targets: Seq<TopupTargetV>,
    p: PairV,
)
    requires
        eligible(
            sheet,
            st0.balance_infos,
            ledger_map(st0.topup_ledger),
            height,
            st0.config.minimum_block_range,
            p,
        ),
        exists|k: int|
            0 <= k < targets.len() && (#[trigger] targets[k]).addr == p.0
                && targets[k].asset_infos.contains(p.1),
    ensures
        ({
            let fin = topup_scan(sheet, st0, height, targets);
            &&& exists|a: int|
                0 <= a < fin.msgs.len() && ((#[trigger] fin.msgs[a]).to, fin.msgs[a].asset) == p
            &&& forall|a: int, b: int|
                0 <= a < fin.msgs.len() && 0 <= b < fin.msgs.len() && ((
                #[trigger] fin.msgs[a]).to, fin.msgs[a].asset) == p && ((#[trigger] fin.msgs[b]).to,
                fin.msgs[b].asset) == p ==> a == b
        }),
{
    let led0 = ledger_map(st0.topup_ledger);
    let range = st0.config.minimum_block_range;
    let fin = topup_scan(sheet, st0, height, targets);
    lemma_scan_init_inv(sheet, st0.balance_infos, led0, height, range);
    lemma_scan_targets_inv(sheet, st0.balance_infos, led0, height, range, scan_init(led0),
        targets);
    let k = choose|k: int|
        0 <= k < targets.len() && (#[trigger] targets[k]).addr == p.0
            && targets[k].asset_infos.contains(p.1);
    assert(fin.scheduled.contains((targets[k].addr, p.1)));
    assert((targets[k].addr, p.1) == p);
    assert(fin.msgs.map_values(|m: TransferV| (m.to, m.asset)).contains(p));
    assert(exists|a: int|
        0 <= a < fin.msgs.len() && ((#[trigger] fin.msgs[a]).to, fin.msgs[a].asset) == p);
    assert forall|x: int, y: int|
        0 <= x < fin.msgs.len() && 0 <= y < fin.msgs.len() && ((#[trigger] fin.msgs[x]).to,
    fin.msgs[x].asset) == p && ((#[trigger] fin.msgs[y]).to, fin.msgs[y].asset) == p implies x
        == y by {
        if x < y {
            assert((fin.msgs[x].to, fin.msgs[x].asset) != (fin.msgs[y].to, fin.msgs[y].asset));
        }
        if y < x {
            assert((fin.msgs[x].to, fin.msgs[x].asset) != (fin.msgs[y].to, fin.msgs[y].asset));
        }
    }
}

} // verus!
