//! The message handlers: instantiation, the admin-gated mutators, the
//! query surface and the execute dispatcher.

use vstd::prelude::*;
use crate::asset::{Asset, AssetInfo, AssetInfoV, AssetV};
use crate::error::ContractError;
use crate::helpers::{is_low, is_low_spec, query_balance, BalanceSheet};
use crate::msg::{AddNewBalanceMappingMsg, AdminResponse, BalancesMappingQuery, BalancesQuery,
    BalancesQueryV, DeleteBalanceMappingMsg, ExecuteMsg, MigrateMsg, QueryAnswer,
    QueryBalanceMappingResponse,
    QueryBalancesMappingResponse, QueryLowBalancesResponse, QueryMsg, Response, TopupMsg,
    TopupTarget, TransferMsg, UpdateBalanceMappingMsg, attr_asset, attr_str, attr_uint,
    is_attr_asset, is_attr_bool, is_attr_str, is_attr_uint};
use crate::order::{lex_lt, str_lex_lt, lemma_lex_chain, lemma_lex_lt_trichotomy,
    lemma_lex_lt_irreflexive};
use crate::state::{assets_contain, assets_unique, ledger_map, lemma_reg_addrs_distinct,
    lemma_reg_find_absent, lemma_reg_find_at, lemma_reg_insert_pos, AssetData, AssetDataV,
    BalanceInfo, BalanceInfoV, BalanceMapping, BalanceMappingV, Config, ContractState,
    ContractStateV, reg_contains, reg_find, reg_insert_pos, registry_wf, TopupRecordV,
    DEFAULT_MINIMUM_BLOCK_RANGE};

verus! {

/// Sets the caller as admin and installs the default configuration
/// over an empty registry and ledger.
pub fn instantiate(sender: String) -> (r: (ContractState, Response))
    ensures
        r.0@.wf(),
        r.0@.admin == Some(sender@),
        r.0@.config.minimum_block_range == DEFAULT_MINIMUM_BLOCK_RANGE,
        r.0@.balance_infos.len() == 0,
        r.0@.topup_ledger.len() == 0,
        r.1.attributes@.len() == 1,
        is_attr_str(r.1.attributes@[0], "admin"@, sender@),
        r.1.messages@.len() == 0,
{
    let response = Response {
        attributes: vec![attr_str("admin", sender.as_str())],
        messages: Vec::new(),
    };
    let state = ContractState {
        admin: Some(sender),
        config: Config { minimum_block_range: DEFAULT_MINIMUM_BLOCK_RANGE },
        balance_infos: Vec::new(),
        topup_ledger: Vec::new(),
    };
    proof {
        assert(state@.balance_infos =~= Seq::<BalanceMappingV>::empty());
        assert(state@.topup_ledger =~= Seq::<TopupRecordV>::empty());
    }
    (state, response)
}

/// A no-op hook reserved for future storage migrations.
pub fn migrate(_msg: MigrateMsg) -> (r: Response)
    ensures
        r.attributes@.len() == 0,
        r.messages@.len() == 0,
{
    Response { attributes: Vec::new(), messages: Vec::new() }
}

/// Whether `sender` is the current admin.
pub open spec fn is_admin(st: ContractStateV, sender: Seq<char>) -> bool {
    st.admin == Some(sender)
}

/// Checks the admin gate as every mutator does.
fn assert_admin(state: &ContractState, sender: &String) -> (r: bool)
    ensures
        r == is_admin(state@, sender@),
{
    match &state.admin {
        Some(a) => *a == *sender,
        None => false,
    }
}

/// Finds the registry row for `addr`: the row index when present,
/// otherwise the position where a row for `addr` belongs.
pub(crate) fn locate_addr(reg: &Vec<BalanceMapping>, addr: &String) -> (r: (usize, bool))
    requires
        registry_wf(reg@.map_values(|m: BalanceMapping| m@)),
    ensures
        ({
            let regv = reg@.map_values(|m: BalanceMapping| m@);
            &&& r.0 <= regv.len()
            &&& r.1 == reg_contains(regv, addr@)
            &&& r.1 ==> r.0 < regv.len() && regv[r.0 as int].addr == addr@
            &&& !r.1 ==> {
                &&& forall|j: int| 0 <= j < r.0 ==> lex_lt((#[trigger] regv[j]).addr, addr@)
                &&& forall|j: int|
                    r.0 <= j < regv.len() ==> lex_lt(addr@, (#[trigger] regv[j]).addr)
            }
        }),
{
    let ghost regv = reg@.map_values(|m: BalanceMapping| m@);
    let n = reg.len();
    let mut i: usize = 0;
    while i < n && str_lex_lt(&reg[i].addr, addr)
        invariant
            i <= n,
            n == regv.len(),
            regv == reg@.map_values(|m: BalanceMapping| m@),
            forall|j: int| 0 <= j < i ==> lex_lt((#[trigger] regv[j]).addr, addr@),
        decreases n - i,
    {
        i = i + 1;
    }
    if i < n && reg[i].addr == *addr {
        proof {
            assert(regv[i as int].addr == addr@);
        }
        (i, true)
    } else {
        proof {
            if i < n {
                lemma_lex_lt_trichotomy(addr@, regv[i as int].addr);
            }
            assert forall|j: int| i <= j < regv.len() implies lex_lt(
                addr@,
                (#[trigger] regv[j]).addr,
            ) by {
                if j > i {
                    lemma_lex_chain(
                        Seq::new(regv.len() as nat, |k: int| regv[k].addr),
                        i as int,
                        j,
                    );
                    crate::order::lemma_lex_lt_transitive(addr@, regv[i as int].addr, regv[j].addr);
                }
            }
            assert forall|j: int| 0 <= j < regv.len() implies (#[trigger] regv[j]).addr != addr@ by {
                lemma_lex_lt_irreflexive(addr@);
                if regv[j].addr == addr@ {
                    assert(lex_lt(addr@, addr@));
                }
            }
        }
        (i, false)
    }
}

/// First entry of `balances` naming `asset`, if any.
pub(crate) fn find_asset(balances: &Vec<AssetData>, asset: &AssetInfo) -> (r: Option<usize>)
    ensures
        ({
            let bv = balances@.map_values(|a: AssetData| a@);
            match r {
                Some(j) => {
                    &&& j < bv.len()
                    &&& bv[j as int].asset == asset@
                    &&& forall|k: int| 0 <= k < j ==> (#[trigger] bv[k]).asset != asset@
                },
                None => forall|k: int| 0 <= k < bv.len() ==> (#[trigger] bv[k]).asset != asset@,
            }
        }),
{
    let ghost bv = balances@.map_values(|a: AssetData| a@);
    let n = balances.len();
    let mut i: usize = 0;
    while i < n
        invariant
            i <= n,
            n == bv.len(),
            bv == balances@.map_values(|a: AssetData| a@),
            forall|k: int| 0 <= k < i ==> (#[trigger] bv[k]).asset != asset@,
        decreases n - i,
    {
        if balances[i].asset.same_asset(asset) {
            return Some(i);
        }
        i = i + 1;
    }
    None
}

/// The registry row that `AddBalance` makes current for the address:
/// the existing row with the new entry appended, or a fresh row.
pub open spec fn added_row(
    prior: Option<BalanceInfoV>,
    addr: Seq<char>,
    data: AssetDataV,
    label: Option<Seq<char>>,
) -> BalanceMappingV {
    match prior {
        Some(info) => BalanceMappingV {
            addr,
            info: BalanceInfoV { label: info.label, balances: info.balances.push(data) },
        },
        None => BalanceMappingV {
            addr,
            info: BalanceInfoV {
                label: match label {
                    Some(l) => l,
                    None => Seq::empty(),
                },
                balances: seq![data],
            },
        },
    }
}

/// The entry [`add_balance`] appends, as the caller's message states it.
pub open spec fn msg_data(msg: AddNewBalanceMappingMsg) -> AssetDataV {
    AssetDataV {
        asset: msg.balance_info@,
        lower_bound: msg.lower_bound,
        upper_bound: msg.upper_bound,
        decimals: msg.decimals,
    }
}

/// The view of an optional label.
pub open spec fn label_view(label: Option<String>) -> Option<Seq<char>> {
    match label {
        Some(l) => Some(l@),
        None => None,
    }
}

/// Appends one monitored asset to an account's mapping, creating the
/// mapping when the account has none. Admin only; a second entry for
/// the same (account, asset) pair is refused.
pub fn add_balance(state: &mut ContractState, sender: &String, msg: AddNewBalanceMappingMsg) -> (r:
    Result<Response, ContractError>)
    requires
        old(state)@.wf(),
    ensures
        final(state)@.wf(),
        final(state)@.admin == old(state)@.admin,
        final(state)@.config == old(state)@.config,
        final(state)@.topup_ledger == old(state)@.topup_ledger,
        r is Err ==> *final(state) == *old(state),
        !is_admin(old(state)@, sender@) <==> r == Err::<Response, ContractError>(
            ContractError::NotAdmin {  },
        ),
        is_admin(old(state)@, sender@) ==> {
            let reg0 = old(state)@.balance_infos;
            let dup = match reg_find(reg0, msg.addr@) {
                Some(info) => assets_contain(info.balances, msg.balance_info@),
                None => false,
            };
            &&& (r == Err::<Response, ContractError>(ContractError::BalanceInfoExists {  }) <==> dup)
            &&& !dup ==> {
                let row = added_row(
                    reg_find(reg0, msg.addr@),
                    msg.addr@,
                    msg_data(msg),
                    label_view(msg.label),
                );
                &&& r is Ok
                &&& (reg_contains(reg0, msg.addr@) ==> forall|i: int|
                    0 <= i < reg0.len() && (#[trigger] reg0[i]).addr == msg.addr@
                        ==> final(state)@.balance_infos == reg0.update(i, row))
                &&& (!reg_contains(reg0, msg.addr@) ==> final(state)@.balance_infos
                    == reg0.insert(reg_insert_pos(reg0, msg.addr@), row))
            }
        },
        r matches Ok(resp) ==> {
            &&& resp.messages@.len() == 0
            &&& resp.attributes@.len() == 4
            &&& is_attr_str(resp.attributes@[0], "action"@, "add_balance"@)
            &&& is_attr_str(resp.attributes@[1], "addr"@, msg.addr@)
            &&& is_attr_asset(resp.attributes@[2], "balance_info"@, msg.balance_info@)
            &&& is_attr_uint(resp.attributes@[3], "lower_bound"@, msg.lower_bound)
        },
{
    if !assert_admin(state, sender) {
        return Err(ContractError::NotAdmin {  });
    }
    let ghost reg0 = state@.balance_infos;
    let (idx, found) = locate_addr(&state.balance_infos, &msg.addr);
    let data = AssetData {
        asset: msg.balance_info.clone(),
        lower_bound: msg.lower_bound,
        upper_bound: msg.upper_bound,
        decimals: msg.decimals,
    };
    if found {
        proof {
            assert forall|p: int, q: int|
                0 <= p < q < reg0.len() implies (#[trigger] reg0[p]).addr != (
            #[trigger] reg0[q]).addr by {
                lemma_reg_addrs_distinct(reg0, p, q);
            }
            lemma_reg_find_at(reg0, idx as int);
        }
        let dup = find_asset(&state.balance_infos[idx].info.balances, &msg.balance_info);
        if dup.is_some() {
            return Err(ContractError::BalanceInfoExists {  });
        }
        let prior = &state.balance_infos[idx];
        let mut new_balances = clone_assets(&prior.info.balances);
        new_balances.push(data);
        let row = BalanceMapping {
            addr: prior.addr.clone(),
            info: BalanceInfo { label: prior.info.label.clone(), balances: new_balances },
        };
        proof {
            assert(row@ == added_row(reg_find(reg0, msg.addr@), msg.addr@, msg_data(msg),
                label_view(msg.label))) by {
                assert(row@.info.balances =~= reg0[idx as int].info.balances.push(msg_data(msg)));
            }
        }
        state.balance_infos[idx] = row;
        proof {
            let reg1 = state@.balance_infos;
            assert(reg1 =~= reg0.update(
                idx as int,
                added_row(reg_find(reg0, msg.addr@), msg.addr@, msg_data(msg),
                    label_view(msg.label)),
            ));
            assert forall|i: int|
                0 <= i < reg0.len() && (#[trigger] reg0[i]).addr == msg.addr@ implies reg1
                == reg0.update(i, added_row(reg_find(reg0, msg.addr@), msg.addr@, msg_data(msg),
                label_view(msg.label))) by {
                if i != idx {
                    lemma_reg_addrs_distinct(reg0, if i < idx { i } else { idx as int },
                        if i < idx { idx as int } else { i });
                }
            }
            assert(registry_wf(reg1)) by {
                assert(forall|i: int|
                    0 <= i < reg1.len() ==> (#[trigger] reg1[i]).addr == reg0[i].addr);
                assert forall|i: int|
                    0 <= i < reg1.len() implies assets_unique((#[trigger] reg1[i]).info.balances) by {
                    if i == idx {
                        let nb = reg1[i].info.balances;
                        let ob = reg0[i].info.balances;
                        assert(nb =~= ob.push(msg_data(msg)));
                        assert forall|p: int, q: int|
                            0 <= p < q < nb.len() implies (#[trigger] nb[p]).asset != (
                        #[trigger] nb[q]).asset by {
                            if q < ob.len() {
                                assert(nb[p] == ob[p]);
                                assert(nb[q] == ob[q]);
                            } else {
                                assert(nb[q] == msg_data(msg));
                                assert(nb[p] == ob[p]);
                            }
                        }
                    }
                }
            }
        }
    } else {
        proof {
            assert forall|j: int| 0 <= j < reg0.len() implies (#[trigger] reg0[j]).addr
                != msg.addr@ by {
                crate::order::lemma_lex_lt_irreflexive(msg.addr@);
                if reg0[j].addr == msg.addr@ {
                    assert(lex_lt(reg0[j].addr, msg.addr@) || lex_lt(msg.addr@, reg0[j].addr));
                }
            }
            lemma_reg_find_absent(reg0, msg.addr@);
            lemma_reg_insert_pos(reg0, msg.addr@, idx as int);
        }
        let label = match msg.label {
            Some(l) => l,
            None => String::new(),
        };
        let row = BalanceMapping {
            addr: msg.addr.clone(),
            info: BalanceInfo { label, balances: vec![data] },
        };
        proof {
            assert(row@.info.balances =~= seq![msg_data(msg)]);
        }
        state.balance_infos.insert(idx, row);
        proof {
            let reg1 = state@.balance_infos;
            let rowv = added_row(None, msg.addr@, msg_data(msg), label_view(msg.label));
            reg0.insert_ensures(idx as int, rowv);
            assert(reg1 =~= reg0.insert(idx as int, rowv));
            assert(registry_wf(reg1)) by {
                assert forall|i: int|
                    0 <= i < reg1.len() - 1 implies #[trigger] lex_lt(reg1[i].addr, reg1[i
                    + 1].addr) by {
                    assert(reg1[i] == if i < idx {
                        reg0[i]
                    } else if i == idx {
                        rowv
                    } else {
                        reg0[i - 1]
                    });
                    assert(reg1[i + 1] == if i + 1 < idx {
                        reg0[i + 1]
                    } else if i + 1 == idx {
                        rowv
                    } else {
                        reg0[i]
                    });
                }
                assert forall|i: int|
                    0 <= i < reg1.len() implies assets_unique((#[trigger] reg1[i]).info.balances) by {
                    assert(reg1[i] == if i < idx {
                        reg0[i]
                    } else if i == idx {
                        rowv
                    } else {
                        reg0[i - 1]
                    });
                }
            }
        }
    }
    let resp = Response {
        attributes: vec![
            attr_str("action", "add_balance"),
            attr_str("addr", msg.addr.as_str()),
            attr_asset("balance_info", msg.balance_info),
            attr_uint("lower_bound", msg.lower_bound),
        ],
        messages: Vec::new(),
    };
    Ok(resp)
}

/// Clones a balance list entry by entry.
fn clone_assets(v: &Vec<AssetData>) -> (r: Vec<AssetData>)
    ensures
        r@ == v@,
{
    let mut out: Vec<AssetData> = Vec::new();
    let mut i: usize = 0;
    while i < v.len()
        invariant
            i <= v.len(),
            out@ =~= v@.subrange(0, i as int),
        decreases v.len() - i,
    {
        out.push(v[i].clone());
        i = i + 1;
    }
    proof {
        assert(out@ =~= v@);
    }
    out
}

/// A field update: the supplied value, or the retained one.
pub open spec fn opt_or_u128(v: Option<u128>, d: u128) -> u128 {
    match v {
        Some(x) => x,
        None => d,
    }
}

/// A field update: the supplied value, or the retained one.
pub open spec fn opt_or_u8(v: Option<u8>, d: u8) -> u8 {
    match v {
        Some(x) => x,
        None => d,
    }
}

/// The entry [`update_balance`] leaves in place of `d`.
pub open spec fn updated_data(d: AssetDataV, msg: UpdateBalanceMappingMsg) -> AssetDataV {
    AssetDataV {
        asset: d.asset,
        lower_bound: opt_or_u128(msg.lower_bound, d.lower_bound),
        upper_bound: opt_or_u128(msg.upper_bound, d.upper_bound),
        decimals: opt_or_u8(msg.decimals, d.decimals),
    }
}

/// Overwrites the supplied fields of one monitored asset. Admin only;
/// the account and the asset must both be mapped already, and at
/// least one field must be supplied.
pub fn update_balance(
    state: &mut ContractState,
    sender: &String,
    msg: UpdateBalanceMappingMsg,
) -> (r: Result<Response, ContractError>)
    requires
        old(state)@.wf(),
    ensures
        final(state)@.wf(),
        final(state)@.admin == old(state)@.admin,
        final(state)@.config == old(state)@.config,
        final(state)@.topup_ledger == old(state)@.topup_ledger,
        r is Err ==> *final(state) == *old(state),
        !is_admin(old(state)@, sender@) <==> r == Err::<Response, ContractError>(
            ContractError::NotAdmin {  },
        ),
        is_admin(old(state)@, sender@) ==> {
            let reg0 = old(state)@.balance_infos;
            match reg_find(reg0, msg.addr@) {
                None => r == Err::<Response, ContractError>(
                    ContractError::BalanceMappingNotExist {  },
                ),
                Some(info) => if !assets_contain(info.balances, msg.balance_info@) {
                    r == Err::<Response, ContractError>(ContractError::BalanceInfoNotExist {  })
                } else if msg.lower_bound is None && msg.upper_bound is None && msg.decimals
                    is None {
                    r == Err::<Response, ContractError>(ContractError::NothingToUpdate {  })
                } else {
                    &&& r is Ok
                    &&& forall|i: int, j: int|
                        0 <= i < reg0.len() && (#[trigger] reg0[i]).addr == msg.addr@ && 0 <= j
                            < reg0[i].info.balances.len() && (
                        #[trigger] reg0[i].info.balances[j]).asset == msg.balance_info@
                            ==> final(state)@.balance_infos == reg0.update(
                            i,
                            BalanceMappingV {
                                addr: reg0[i].addr,
                                info: BalanceInfoV {
                                    label: reg0[i].info.label,
                                    balances: reg0[i].info.balances.update(
                                        j,
                                        updated_data(reg0[i].info.balances[j], msg),
                                    ),
                                },
                            },
                        )
                },
            }
        },
        r matches Ok(resp) ==> {
            &&& resp.messages@.len() == 0
            &&& resp.attributes@.len() == 3
            &&& is_attr_str(resp.attributes@[0], "action"@, "update_balance"@)
            &&& is_attr_str(resp.attributes@[1], "addr"@, msg.addr@)
            &&& is_attr_asset(resp.attributes@[2], "asset_info"@, msg.balance_info@)
        },
{
    if !assert_admin(state, sender) {
        return Err(ContractError::NotAdmin {  });
    }
    let ghost reg0 = state@.balance_infos;
    proof {
        assert forall|p: int, q: int|
            0 <= p < q < reg0.len() implies (#[trigger] reg0[p]).addr != (
        #[trigger] reg0[q]).addr by {
            lemma_reg_addrs_distinct(reg0, p, q);
        }
    }
    let (idx, found) = locate_addr(&state.balance_infos, &msg.addr);
    if !found {
        proof {
            assert forall|j: int| 0 <= j < reg0.len() implies (#[trigger] reg0[j]).addr
                != msg.addr@ by {
                crate::order::lemma_lex_lt_irreflexive(msg.addr@);
                if reg0[j].addr == msg.addr@ {
                    assert(lex_lt(reg0[j].addr, msg.addr@) || lex_lt(msg.addr@, reg0[j].addr));
                }
            }
            lemma_reg_find_absent(reg0, msg.addr@);
        }
        return Err(ContractError::BalanceMappingNotExist {  });
    }
    proof {
        lemma_reg_find_at(reg0, idx as int);
    }
    let hit = find_asset(&state.balance_infos[idx].info.balances, &msg.balance_info);
    let jdx = match hit {
        Some(j) => j,
        None => {
            return Err(ContractError::BalanceInfoNotExist {  });
        },
    };
    if msg.lower_bound.is_none() && msg.upper_bound.is_none() && msg.decimals.is_none() {
        return Err(ContractError::NothingToUpdate {  });
    }
    let prior = &state.balance_infos[idx];
    let old_data = &prior.info.balances[jdx];
    let new_data = AssetData {
        asset: old_data.asset.clone(),
        lower_bound: match msg.lower_bound {
            Some(v) => v,
            None => old_data.lower_bound,
        },
        upper_bound: match msg.upper_bound {
            Some(v) => v,
            None => old_data.upper_bound,
        },
        decimals: match msg.decimals {
            Some(v) => v,
            None => old_data.decimals,
        },
    };
    let mut new_balances = clone_assets(&prior.info.balances);
    new_balances[jdx] = new_data;
    let row = BalanceMapping {
        addr: prior.addr.clone(),
        info: BalanceInfo { label: prior.info.label.clone(), balances: new_balances },
    };
    proof {
        assert(row@.info.balances =~= reg0[idx as int].info.balances.update(
            jdx as int,
            updated_data(reg0[idx as int].info.balances[jdx as int], msg),
        ));
    }
    state.balance_infos[idx] = row;
    proof {
        let reg1 = state@.balance_infos;
        let rowv = BalanceMappingV {
            addr: reg0[idx as int].addr,
            info: BalanceInfoV {
                label: reg0[idx as int].info.label,
                balances: reg0[idx as int].info.balances.update(
                    jdx as int,
                    updated_data(reg0[idx as int].info.balances[jdx as int], msg),
                ),
            },
        };
        assert(reg1 =~= reg0.update(idx as int, rowv));
        assert forall|i: int, j: int|
            0 <= i < reg0.len() && (#[trigger] reg0[i]).addr == msg.addr@ && 0 <= j < reg0[
            i].info.balances.len() && (#[trigger] reg0[i].info.balances[j]).asset
            == msg.balance_info@ implies reg1 == reg0.update(
            i,
            BalanceMappingV {
                addr: reg0[i].addr,
                info: BalanceInfoV {
                    label: reg0[i].info.label,
                    balances: reg0[i].info.balances.update(
                        j,
                        updated_data(reg0[i].info.balances[j], msg),
                    ),
                },
            },
        ) by {
            if i != idx {
                lemma_reg_addrs_distinct(
                    reg0,
                    if i < idx {
                        i
                    } else {
                        idx as int
                    },
                    if i < idx {
                        idx as int
                    } else {
                        i
                    },
                );
            }
            assert(i == idx);
            if j != jdx {
                assert(reg0[i].info.balances[jdx as int].asset == msg.balance_info@);
                assert(assets_unique(reg0[i].info.balances));
            }
            assert(j == jdx);
        }
        assert(registry_wf(reg1)) by {
            assert(forall|i: int|
                0 <= i < reg1.len() ==> (#[trigger] reg1[i]).addr == reg0[i].addr);
            assert forall|i: int|
                0 <= i < reg1.len() implies assets_unique((#[trigger] reg1[i]).info.balances) by {
                if i == idx {
                    let nb = reg1[i].info.balances;
                    let ob = reg0[i].info.balances;
                    assert(forall|p: int|
                        0 <= p < nb.len() ==> (#[trigger] nb[p]).asset == ob[p].asset);
                }
            }
        }
    }
    let resp = Response {
        attributes: vec![
            attr_str("action", "update_balance"),
            attr_str("addr", msg.addr.as_str()),
            attr_asset("asset_info", msg.balance_info),
        ],
        messages: Vec::new(),
    };
    Ok(resp)
}

/// Drops an account's whole mapping. Admin only; deleting an absent
/// mapping is not an error.
pub fn delete_balance_mapping(
    state: &mut ContractState,
    sender: &String,
    msg: DeleteBalanceMappingMsg,
) -> (r: Result<Response, ContractError>)
    requires
        old(state)@.wf(),
    ensures
        final(state)@.wf(),
        final(state)@.admin == old(state)@.admin,
        final(state)@.config == old(state)@.config,
        final(state)@.topup_ledger == old(state)@.topup_ledger,
        r is Err ==> *final(state) == *old(state),
        !is_admin(old(state)@, sender@) <==> r == Err::<Response, ContractError>(
            ContractError::NotAdmin {  },
        ),
        is_admin(old(state)@, sender@) ==> {
            let reg0 = old(state)@.balance_infos;
            &&& r is Ok
            &&& (!reg_contains(reg0, msg.addr@) ==> final(state)@.balance_infos == reg0)
            &&& (reg_contains(reg0, msg.addr@) ==> forall|i: int|
                0 <= i < reg0.len() && (#[trigger] reg0[i]).addr == msg.addr@
                    ==> final(state)@.balance_infos == reg0.remove(i))
        },
        r matches Ok(resp) ==> {
            &&& resp.messages@.len() == 0
            &&& resp.attributes@.len() == 2
            &&& is_attr_str(resp.attributes@[0], "action"@, "delete_balance_mapping"@)
            &&& is_attr_str(resp.attributes@[1], "addr"@, msg.addr@)
        },
{
    if !assert_admin(state, sender) {
        return Err(ContractError::NotAdmin {  });
    }
    let ghost reg0 = state@.balance_infos;
    proof {
        assert forall|p: int, q: int|
            0 <= p < q < reg0.len() implies (#[trigger] reg0[p]).addr != (
        #[trigger] reg0[q]).addr by {
            lemma_reg_addrs_distinct(reg0, p, q);
        }
    }
    let (idx, found) = locate_addr(&state.balance_infos, &msg.addr);
    if found {
        state.balance_infos.remove(idx);
        proof {
            let reg1 = state@.balance_infos;
            reg0.remove_ensures(idx as int);
            assert(reg1 =~= reg0.remove(idx as int));
            assert forall|i: int|
                0 <= i < reg0.len() && (#[trigger] reg0[i]).addr == msg.addr@ implies reg1
                == reg0.remove(i) by {
                if i != idx {
                    lemma_reg_addrs_distinct(
                        reg0,
                        if i < idx {
                            i
                        } else {
                            idx as int
                        },
                        if i < idx {
                            idx as int
                        } else {
                            i
                        },
                    );
                }
            }
            assert(registry_wf(reg1)) by {
                assert forall|i: int|
                    0 <= i < reg1.len() - 1 implies #[trigger] lex_lt(reg1[i].addr, reg1[i
                    + 1].addr) by {
                    assert(reg1[i] == if i < idx {
                        reg0[i]
                    } else {
                        reg0[i + 1]
                    });
                    assert(reg1[i + 1] == if i + 1 < idx {
                        reg0[i + 1]
                    } else {
                        reg0[i + 2]
                    });
                    if i + 1 == idx {
                        let keys = Seq::new(reg0.len() as nat, |k: int| reg0[k].addr);
                        lemma_lex_chain(keys, i, i + 2);
                    }
                }
                assert forall|i: int|
                    0 <= i < reg1.len() implies assets_unique((#[trigger] reg1[i]).info.balances) by {
                    assert(reg1[i] == if i < idx {
                        reg0[i]
                    } else {
                        reg0[i + 1]
                    });
                }
            }
        }
    }
    let resp = Response {
        attributes: vec![
            attr_str("action", "delete_balance_mapping"),
            attr_str("addr", msg.addr.as_str()),
        ],
        messages: Vec::new(),
    };
    Ok(resp)
}

/// Replaces the admin. Admin only.
pub fn update_admin(state: &mut ContractState, sender: &String, new_admin: String) -> (r: Result<
    Response,
    ContractError,
>)
    requires
        old(state)@.wf(),
    ensures
        final(state)@.wf(),
        final(state)@.config == old(state)@.config,
        final(state)@.balance_infos == old(state)@.balance_infos,
        final(state)@.topup_ledger == old(state)@.topup_ledger,
        r is Err ==> *final(state) == *old(state),
        !is_admin(old(state)@, sender@) <==> r == Err::<Response, ContractError>(
            ContractError::NotAdmin {  },
        ),
        is_admin(old(state)@, sender@) ==> {
            &&& r is Ok
            &&& final(state)@.admin == Some(new_admin@)
        },
        r matches Ok(resp) ==> {
            &&& resp.messages@.len() == 0
            &&& resp.attributes@.len() == 2
            &&& is_attr_str(resp.attributes@[0], "action"@, "update_admin"@)
            &&& is_attr_str(resp.attributes@[1], "admin"@, new_admin@)
        },
{
    if !assert_admin(state, sender) {
        return Err(ContractError::NotAdmin {  });
    }
    let resp = Response {
        attributes: vec![
            attr_str("action", "update_admin"),
            attr_str("admin", new_admin.as_str()),
        ],
        messages: Vec::new(),
    };
    state.admin = Some(new_admin);
    Ok(resp)
}

/// Overwrites the cooldown configuration when a value is supplied.
/// Admin only.
pub fn update_config(
    state: &mut ContractState,
    sender: &String,
    minimum_block_range: Option<u64>,
) -> (r: Result<Response, ContractError>)
    requires
        old(state)@.wf(),
    ensures
        final(state)@.wf(),
        final(state)@.admin == old(state)@.admin,
        final(state)@.balance_infos == old(state)@.balance_infos,
        final(state)@.topup_ledger == old(state)@.topup_ledger,
        r is Err ==> *final(state) == *old(state),
        !is_admin(old(state)@, sender@) <==> r == Err::<Response, ContractError>(
            ContractError::NotAdmin {  },
        ),
        is_admin(old(state)@, sender@) ==> {
            &&& r is Ok
            &&& final(state)@.config.minimum_block_range == match minimum_block_range {
                Some(v) => v,
                None => old(state)@.config.minimum_block_range,
            }
        },
        r matches Ok(resp) ==> {
            &&& resp.messages@.len() == 0
            &&& resp.attributes@.len() == 1
            &&& is_attr_str(resp.attributes@[0], "action"@, "update_config"@)
        },
{
    if !assert_admin(state, sender) {
        return Err(ContractError::NotAdmin {  });
    }
    if let Some(v) = minimum_block_range {
        state.config = Config { minimum_block_range: v };
    }
    let resp = Response {
        attributes: vec![attr_str("action", "update_config")],
        messages: Vec::new(),
    };
    Ok(resp)
}

/// The view of an optional admin address.
pub open spec fn admin_view(a: Option<String>) -> Option<Seq<char>> {
    match a {
        Some(s) => Some(s@),
        None => None,
    }
}

/// Returns the current admin.
pub fn query_admin(state: &ContractState) -> (r: AdminResponse)
    ensures
        admin_view(r.admin) == state@.admin,
{
    match &state.admin {
        Some(a) => AdminResponse { admin: Some(a.clone()) },
        None => AdminResponse { admin: None },
    }
}

/// Returns the stored label and entries for `addr`; fails when the
/// account has no mapping. The returned entries never name an asset
/// twice.
pub fn query_balance_mapping(state: &ContractState, addr: &String) -> (r: Result<
    QueryBalanceMappingResponse,
    ContractError,
>)
    requires
        state@.wf(),
    ensures
        ({
            let reg = state@.balance_infos;
            match reg_find(reg, addr@) {
                None => r == Err::<QueryBalanceMappingResponse, ContractError>(
                    ContractError::NotFound {  },
                ),
                Some(info) => {
                    &&& r matches Ok(resp)
                    &&& resp.label@ == info.label
                    &&& resp.assets@.map_values(|a: AssetData| a@) == info.balances
                },
            }
        }),
        r matches Ok(resp) ==> assets_unique(resp.assets@.map_values(|a: AssetData| a@)),
{
    let ghost reg = state@.balance_infos;
    proof {
        assert forall|p: int, q: int|
            0 <= p < q < reg.len() implies (#[trigger] reg[p]).addr != (#[trigger] reg[q]).addr by {
            lemma_reg_addrs_distinct(reg, p, q);
        }
    }
    let (idx, found) = locate_addr(&state.balance_infos, addr);
    if !found {
        proof {
            assert forall|j: int| 0 <= j < reg.len() implies (#[trigger] reg[j]).addr != addr@ by {
                crate::order::lemma_lex_lt_irreflexive(addr@);
                if reg[j].addr == addr@ {
                    assert(lex_lt(reg[j].addr, addr@) || lex_lt(addr@, reg[j].addr));
                }
            }
            lemma_reg_find_absent(reg, addr@);
        }
        return Err(ContractError::NotFound {  });
    }
    proof {
        lemma_reg_find_at(reg, idx as int);
    }
    let row = &state.balance_infos[idx];
    let resp = QueryBalanceMappingResponse {
        label: row.info.label.clone(),
        assets: clone_assets(&row.info.balances),
    };
    Ok(resp)
}

/// Returns every registry row, in the stored (ascending) order.
pub fn query_balances_mapping(state: &ContractState) -> (r: QueryBalancesMappingResponse)
    ensures
        ({
            let reg = state@.balance_infos;
            &&& r.balance_assets@.len() == reg.len()
            &&& forall|i: int|
                0 <= i < reg.len() ==> {
                    &&& (#[trigger] r.balance_assets@[i]).addr@ == reg[i].addr
                    &&& r.balance_assets@[i].label@ == reg[i].info.label
                    &&& r.balance_assets@[i].assets@.map_values(|a: AssetData| a@)
                        == reg[i].info.balances
                }
        }),
{
    let ghost reg = state@.balance_infos;
    let n = state.balance_infos.len();
    let mut out: Vec<BalancesMappingQuery> = Vec::new();
    let mut i: usize = 0;
    while i < n
        invariant
            i <= n,
            n == reg.len(),
            reg == state@.balance_infos,
            out@.len() == i,
            forall|k: int|
                0 <= k < i ==> {
                    &&& (#[trigger] out@[k]).addr@ == reg[k].addr
                    &&& out@[k].label@ == reg[k].info.label
                    &&& out@[k].assets@.map_values(|a: AssetData| a@) == reg[k].info.balances
                },
        decreases n - i,
    {
        let row = &state.balance_infos[i];
        out.push(
            BalancesMappingQuery {
                addr: row.addr.clone(),
                label: row.info.label.clone(),
                assets: clone_assets(&row.info.balances),
            },
        );
        i = i + 1;
    }
    QueryBalancesMappingResponse { balance_assets: out }
}

/// The under-funded assets of one account, in stored order: those
/// whose probed amount, scaled by the asset's decimals, does not
/// exceed its lower bound.
pub open spec fn low_assets_of(
    sheet: BalanceSheet,
    addr: Seq<char>,
    bals: Seq<AssetDataV>,
) -> Seq<AssetV>
    decreases bals.len(),
{
    if bals.len() == 0 {
        Seq::empty()
    } else {
        let rest = low_assets_of(sheet, addr, bals.drop_first());
        match sheet.spec_find(addr, bals[0].asset) {
            Some(amount) => if is_low_spec(amount, bals[0].lower_bound, bals[0].decimals) {
                seq![AssetV { info: bals[0].asset, amount }] + rest
            } else {
                rest
            },
            None => rest,
        }
    }
}

/// The accounts holding at least one under-funded asset, in stored
/// order, each with exactly its under-funded assets.
pub open spec fn low_entries_of(sheet: BalanceSheet, reg: Seq<BalanceMappingV>) -> Seq<
    BalancesQueryV,
>
    decreases reg.len(),
{
    if reg.len() == 0 {
        Seq::empty()
    } else {
        let rest = low_entries_of(sheet, reg.drop_first());
        let assets = low_assets_of(sheet, reg[0].addr, reg[0].info.balances);
        if assets.len() > 0 {
            seq![BalancesQueryV { addr: reg[0].addr, label: reg[0].info.label, assets }] + rest
        } else {
            rest
        }
    }
}

/// Every (account, asset) pair of the registry has an answer in the
/// oracle snapshot.
pub open spec fn probes_ok(sheet: BalanceSheet, reg: Seq<BalanceMappingV>) -> bool {
    forall|i: int, j: int|
        0 <= i < reg.len() && 0 <= j < (#[trigger] reg[i]).info.balances.len() ==> sheet.spec_find(
            reg[i].addr,
            (#[trigger] reg[i].info.balances[j]).asset,
        ) is Some
}

/// Walks the registry and reports, per account, the assets whose
/// probed balance sits at or below the configured lower bound.
/// Accounts with no such asset are omitted. Any failed probe fails
/// the whole query.
pub fn query_low_balances(state: &ContractState, sheet: &BalanceSheet) -> (r: Result<
    QueryLowBalancesResponse,
    ContractError,
>)
    ensures
        r is Ok <==> probes_ok(*sheet, state@.balance_infos),
        r is Err ==> r == Err::<QueryLowBalancesResponse, ContractError>(
            ContractError::BalanceQueryFailed {  },
        ),
        r matches Ok(resp) ==> resp.low_balance_assets@.map_values(|b: BalancesQuery| b@)
            == low_entries_of(*sheet, state@.balance_infos),
{
    let ghost reg = state@.balance_infos;
    let n = state.balance_infos.len();
    let mut out: Vec<BalancesQuery> = Vec::new();
    let mut i: usize = 0;
    proof {
        assert(reg.skip(0) =~= reg);
        assert(out@.map_values(|b: BalancesQuery| b@) =~= Seq::<BalancesQueryV>::empty());
    }
    while i < n
        invariant
            i <= n,
            n == reg.len(),
            reg == state@.balance_infos,
            low_entries_of(*sheet, reg) == out@.map_values(|b: BalancesQuery| b@)
                + low_entries_of(*sheet, reg.skip(i as int)),
            forall|p: int, q: int|
                0 <= p < i && 0 <= q < (#[trigger] reg[p]).info.balances.len()
                    ==> sheet.spec_find(reg[p].addr, (#[trigger] reg[p].info.balances[q]).asset)
                    is Some,
        decreases n - i,
    {
        let row = &state.balance_infos[i];
        let ghost balsv = reg[i as int].info.balances;
        let m = row.info.balances.len();
        let mut assets: Vec<Asset> = Vec::new();
        let mut j: usize = 0;
        proof {
            assert(balsv.skip(0) =~= balsv);
            assert(assets@.map_values(|a: Asset| a@) =~= Seq::<AssetV>::empty());
        }
        while j < m
            invariant
                i < n,
                j <= m,
                n == reg.len(),
                reg == state@.balance_infos,
                balsv == reg[i as int].info.balances,
                m == balsv.len(),
                row == &state.balance_infos[i as int],
                row@ == reg[i as int],
                low_assets_of(*sheet, reg[i as int].addr, balsv) == assets@.map_values(
                    |a: Asset| a@,
                ) + low_assets_of(*sheet, reg[i as int].addr, balsv.skip(j as int)),
                forall|q: int|
                    0 <= q < j ==> sheet.spec_find(
                        reg[i as int].addr,
                        (#[trigger] balsv[q]).asset,
                    ) is Some,
                forall|p: int, q: int|
                    0 <= p < i && 0 <= q < (#[trigger] reg[p]).info.balances.len()
                        ==> sheet.spec_find(
                        reg[p].addr,
                        (#[trigger] reg[p].info.balances[q]).asset,
                    ) is Some,
            decreases m - j,
        {
            let data = &row.info.balances[j];
            proof {
                assert(balsv.skip(j as int)[0] == balsv[j as int]);
                assert(balsv[j as int] == data@);
            }
            let amount = match query_balance(sheet, &row.addr, &data.asset) {
                Ok(a) => a,
                Err(e) => {
                    return Err(e);
                },
            };
            if is_low(amount, data.lower_bound, data.decimals) {
                assets.push(Asset { info: data.asset.clone(), amount });
                proof {
                    assert(assets@.map_values(|a: Asset| a@) =~= assets@.map_values(
                        |a: Asset| a@,
                    ).drop_last().push(AssetV { info: balsv[j as int].asset, amount }));
                }
            }
            proof {
                assert(balsv.skip(j as int).drop_first() =~= balsv.skip(j as int + 1));
                if is_low_spec(amount, balsv[j as int].lower_bound, balsv[j as int].decimals) {
                    assert(low_assets_of(*sheet, reg[i as int].addr, balsv.skip(j as int)) == seq![
                        AssetV { info: balsv[j as int].asset, amount },
                    ] + low_assets_of(*sheet, reg[i as int].addr, balsv.skip(j as int + 1)));
                    assert(assets@.map_values(|a: Asset| a@).drop_last() + (seq![
                        AssetV { info: balsv[j as int].asset, amount },
                    ] + low_assets_of(*sheet, reg[i as int].addr, balsv.skip(j as int + 1)))
                        =~= assets@.map_values(|a: Asset| a@) + low_assets_of(
                        *sheet,
                        reg[i as int].addr,
                        balsv.skip(j as int + 1),
                    ));
                }
            }
            j = j + 1;
        }
        proof {
            assert(balsv.skip(m as int) =~= Seq::<AssetDataV>::empty());
        }
        if assets.len() > 0 {
            let entry = BalancesQuery {
                addr: row.addr.clone(),
                label: row.info.label.clone(),
                assets,
            };
            proof {
                assert(entry@ == BalancesQueryV {
                    addr: reg[i as int].addr,
                    label: reg[i as int].info.label,
                    assets: low_assets_of(*sheet, reg[i as int].addr, balsv),
                });
            }
            out.push(entry);
            proof {
                assert(out@.map_values(|b: BalancesQuery| b@) =~= out@.map_values(
                    |b: BalancesQuery| b@,
                ).drop_last().push(out@.last()@));
            }
        }
        proof {
            assert(reg.skip(i as int)[0] == reg[i as int]);
            assert(reg.skip(i as int).drop_first() =~= reg.skip(i as int + 1));
            let contribution = low_assets_of(*sheet, reg[i as int].addr, balsv);
            if contribution.len() > 0 {
                assert(low_entries_of(*sheet, reg.skip(i as int)) == seq![
                    BalancesQueryV {
                        addr: reg[i as int].addr,
                        label: reg[i as int].info.label,
                        assets: contribution,
                    },
                ] + low_entries_of(*sheet, reg.skip(i as int + 1)));
                assert(out@.map_values(|b: BalancesQuery| b@).drop_last() + (seq![
                    BalancesQueryV {
                        addr: reg[i as int].addr,
                        label: reg[i as int].info.label,
                        assets: contribution,
                    },
                ] + low_entries_of(*sheet, reg.skip(i as int + 1))) =~= out@.map_values(
                    |b: BalancesQuery| b@,
                ) + low_entries_of(*sheet, reg.skip(i as int + 1)));
            }
        }
        i = i + 1;
    }
    proof {
        assert(reg.skip(n as int) =~= Seq::<BalanceMappingV>::empty());
        assert(out@.map_values(|b: BalancesQuery| b@) + Seq::<BalancesQueryV>::empty()
            =~= out@.map_values(|b: BalancesQuery| b@));
    }
    Ok(QueryLowBalancesResponse { low_balance_assets: out })
}

/// What every mutator leaves untouched.
pub open spec fn mutation_frame(pre: ContractStateV, post: ContractStateV) -> bool {
    &&& post.admin == pre.admin
    &&& post.config == pre.config
    &&& post.topup_ledger == pre.topup_ledger
}

/// The contract of [`add_balance`], as [`execute`] restates it.
pub open spec fn add_balance_post(
    pre: ContractStateV,
    post: ContractStateV,
    sender: Seq<char>,
    msg: AddNewBalanceMappingMsg,
    r: Result<Response, ContractError>,
) -> bool {
    &&& post.wf()
    &&& mutation_frame(pre, post)
    &&& (r is Err ==> post == pre)
    &&& (!is_admin(pre, sender) <==> r == Err::<Response, ContractError>(
        ContractError::NotAdmin {  },
    ))
    &&& (is_admin(pre, sender) ==> {
        let reg0 = pre.balance_infos;
        let dup = match reg_find(reg0, msg.addr@) {
            Some(info) => assets_contain(info.balances, msg.balance_info@),
            None => false,
        };
        &&& (r == Err::<Response, ContractError>(ContractError::BalanceInfoExists {  }) <==> dup)
        &&& !dup ==> {
            let row = added_row(
                reg_find(reg0, msg.addr@),
                msg.addr@,
                msg_data(msg),
                label_view(msg.label),
            );
            &&& r is Ok
            &&& (reg_contains(reg0, msg.addr@) ==> forall|i: int|
                0 <= i < reg0.len() && (#[trigger] reg0[i]).addr == msg.addr@
                    ==> post.balance_infos == reg0.update(i, row))
            &&& (!reg_contains(reg0, msg.addr@) ==> post.balance_infos == reg0.insert(
                reg_insert_pos(reg0, msg.addr@),
                row,
            ))
        }
    })
    &&& (r matches Ok(resp) ==> {
        &&& resp.messages@.len() == 0
        &&& resp.attributes@.len() == 4
        &&& is_attr_str(resp.attributes@[0], "action"@, "add_balance"@)
        &&& is_attr_str(resp.attributes@[1], "addr"@, msg.addr@)
        &&& is_attr_asset(resp.attributes@[2], "balance_info"@, msg.balance_info@)
        &&& is_attr_uint(resp.attributes@[3], "lower_bound"@, msg.lower_bound)
    })
}

/// The contract of [`update_balance`], as [`execute`] restates it.
pub open spec fn update_balance_post(
    pre: ContractStateV,
    post: ContractStateV,
    sender: Seq<char>,
    msg: UpdateBalanceMappingMsg,
    r: Result<Response, ContractError>,
) -> bool {
    &&& post.wf()
    &&& mutation_frame(pre, post)
    &&& (r is Err ==> post == pre)
    &&& (!is_admin(pre, sender) <==> r == Err::<Response, ContractError>(
        ContractError::NotAdmin {  },
    ))
    &&& (is_admin(pre, sender) ==> {
        let reg0 = pre.balance_infos;
        match reg_find(reg0, msg.addr@) {
            None => r == Err::<Response, ContractError>(ContractError::BalanceMappingNotExist {  }),
            Some(info) => if !assets_contain(info.balances, msg.balance_info@) {
                r == Err::<Response, ContractError>(ContractError::BalanceInfoNotExist {  })
            } else if msg.lower_bound is None && msg.upper_bound is None && msg.decimals is None {
                r == Err::<Response, ContractError>(ContractError::NothingToUpdate {  })
            } else {
                &&& r is Ok
                &&& forall|i: int, j: int|
                    0 <= i < reg0.len() && (#[trigger] reg0[i]).addr == msg.addr@ && 0 <= j < reg0[
                    i].info.balances.len() && (#[trigger] reg0[i].info.balances[j]).asset
                        == msg.balance_info@ ==> post.balance_infos == reg0.update(
                        i,
                        BalanceMappingV {
                            addr: reg0[i].addr,
                            info: BalanceInfoV {
                                label: reg0[i].info.label,
                                balances: reg0[i].info.balances.update(
                                    j,
                                    updated_data(reg0[i].info.balances[j], msg),
                                ),
                            },
                        },
                    )
            },
        }
    })
    &&& (r matches Ok(resp) ==> {
        &&& resp.messages@.len() == 0
        &&& resp.attributes@.len() == 3
        &&& is_attr_str(resp.attributes@[0], "action"@, "update_balance"@)
        &&& is_attr_str(resp.attributes@[1], "addr"@, msg.addr@)
        &&& is_attr_asset(resp.attributes@[2], "asset_info"@, msg.balance_info@)
    })
}

/// The contract of [`delete_balance_mapping`], as [`execute`] restates it.
pub open spec fn delete_balance_mapping_post(
    pre: ContractStateV,
    post: ContractStateV,
    sender: Seq<char>,
    msg: DeleteBalanceMappingMsg,
    r: Result<Response, ContractError>,
) -> bool {
    &&& post.wf()
    &&& mutation_frame(pre, post)
    &&& (r is Err ==> post == pre)
    &&& (!is_admin(pre, sender) <==> r == Err::<Response, ContractError>(
        ContractError::NotAdmin {  },
    ))
    &&& (is_admin(pre, sender) ==> {
        let reg0 = pre.balance_infos;
        &&& r is Ok
        &&& (!reg_contains(reg0, msg.addr@) ==> post.balance_infos == reg0)
        &&& (reg_contains(reg0, msg.addr@) ==> forall|i: int|
            0 <= i < reg0.len() && (#[trigger] reg0[i]).addr == msg.addr@ ==> post.balance_infos
                == reg0.remove(i))
    })
    &&& (r matches Ok(resp) ==> {
        &&& resp.messages@.len() == 0
        &&& resp.attributes@.len() == 2
        &&& is_attr_str(resp.attributes@[0], "action"@, "delete_balance_mapping"@)
        &&& is_attr_str(resp.attributes@[1], "addr"@, msg.addr@)
    })
}

/// The contract of [`update_admin`], as [`execute`] restates it.
pub open spec fn update_admin_post(
    pre: ContractStateV,
    post: ContractStateV,
    sender: Seq<char>,
    new_admin: Seq<char>,
    r: Result<Response, ContractError>,
) -> bool {
    &&& post.wf()
    &&& post.config == pre.config
    &&& post.balance_infos == pre.balance_infos
    &&& post.topup_ledger == pre.topup_ledger
    &&& (r is Err ==> post == pre)
    &&& (!is_admin(pre, sender) <==> r == Err::<Response, ContractError>(
        ContractError::NotAdmin {  },
    ))
    &&& (is_admin(pre, sender) ==> r is Ok && post.admin == Some(new_admin))
    &&& (r matches Ok(resp) ==> {
        &&& resp.messages@.len() == 0
        &&& resp.attributes@.len() == 2
        &&& is_attr_str(resp.attributes@[0], "action"@, "update_admin"@)
        &&& is_attr_str(resp.attributes@[1], "admin"@, new_admin)
    })
}

/// The contract of [`update_config`], as [`execute`] restates it.
pub open spec fn update_config_post(
    pre: ContractStateV,
    post: ContractStateV,
    sender: Seq<char>,
    minimum_block_range: Option<u64>,
    r: Result<Response, ContractError>,
) -> bool {
    &&& post.wf()
    &&& post.admin == pre.admin
    &&& post.balance_infos == pre.balance_infos
    &&& post.topup_ledger == pre.topup_ledger
    &&& (r is Err ==> post == pre)
    &&& (!is_admin(pre, sender) <==> r == Err::<Response, ContractError>(
        ContractError::NotAdmin {  },
    ))
    &&& (is_admin(pre, sender) ==> r is Ok && post.config.minimum_block_range == match
        minimum_block_range {
        Some(v) => v,
        None => pre.config.minimum_block_range,
    })
    &&& (r matches Ok(resp) ==> {
        &&& resp.messages@.len() == 0
        &&& resp.attributes@.len() == 1
        &&& is_attr_str(resp.attributes@[0], "action"@, "update_config"@)
    })
}

/// The contract of the topup dispatch, as [`execute`] restates it:
/// the response and the new ledger are exactly what
/// [`crate::topup::topup_scan`] computes.
pub open spec fn topup_post(
    pre: ContractStateV,
    post: ContractStateV,
    sheet: BalanceSheet,
    height: u64,
    msg: TopupMsg,
    r: Result<Response, ContractError>,
) -> bool {
    &&& post.wf()
    &&& post.admin == pre.admin
    &&& post.config == pre.config
    &&& post.balance_infos == pre.balance_infos
    &&& (r matches Ok(resp) && {
        let fin = crate::topup::topup_scan(
            sheet,
            pre,
            height,
            msg.balances@.map_values(|t: TopupTarget| t@),
        );
        &&& resp.messages@.map_values(|m: TransferMsg| m@) == fin.msgs
        &&& ledger_map(post.topup_ledger) == fin.ledger
        &&& resp.attributes@.len() == 3
        &&& is_attr_str(resp.attributes@[0], "action"@, "topup"@)
        &&& is_attr_bool(resp.attributes@[1], "is_hack_attempted"@, fin.hack)
        &&& is_attr_uint(resp.attributes@[2], "topup_msgs_length"@, fin.msgs.len() as u128)
    })
}

/// The mutating messages: everything but `Topup`, which a watchdog
/// may send without being admin.
pub open spec fn is_mutator(msg: ExecuteMsg) -> bool {
    !(msg is Topup)
}

/// Dispatches one execute message. Every mutator is admin-gated: a
/// non-admin sender gets `NotAdmin` and the state is untouched.
pub fn execute(
    state: &mut ContractState,
    sheet: &BalanceSheet,
    height: u64,
    sender: String,
    msg: ExecuteMsg,
) -> (r: Result<Response, ContractError>)
    requires
        old(state)@.wf(),
    ensures
        final(state)@.wf(),
        is_mutator(msg) && !is_admin(old(state)@, sender@) ==> r == Err::<Response, ContractError>(
            ContractError::NotAdmin {  },
        ) && final(state)@ == old(state)@,
        match msg {
            ExecuteMsg::AddBalance(m) => add_balance_post(
                old(state)@,
                final(state)@,
                sender@,
                m,
                r,
            ),
            ExecuteMsg::UpdateBalance(m) => update_balance_post(
                old(state)@,
                final(state)@,
                sender@,
                m,
                r,
            ),
            ExecuteMsg::DeleteBalanceMapping(m) => delete_balance_mapping_post(
                old(state)@,
                final(state)@,
                sender@,
                m,
                r,
            ),
            ExecuteMsg::UpdateAdmin { new_admin } => update_admin_post(
                old(state)@,
                final(state)@,
                sender@,
                new_admin@,
                r,
            ),
            ExecuteMsg::UpdateConfig { minimum_block_range } => update_config_post(
                old(state)@,
                final(state)@,
                sender@,
                minimum_block_range,
                r,
            ),
            ExecuteMsg::Topup(m) => topup_post(old(state)@, final(state)@, *sheet, height, m, r),
        },
{
    match msg {
        ExecuteMsg::AddBalance(m) => add_balance(state, &sender, m),
        ExecuteMsg::UpdateBalance(m) => update_balance(state, &sender, m),
        ExecuteMsg::DeleteBalanceMapping(m) => delete_balance_mapping(state, &sender, m),
        ExecuteMsg::UpdateAdmin { new_admin } => update_admin(state, &sender, new_admin),
        ExecuteMsg::UpdateConfig { minimum_block_range } => update_config(
            state,
            &sender,
            minimum_block_range,
        ),
        ExecuteMsg::Topup(m) => Ok(crate::topup::handle_topup(state, sheet, height, m)),
    }
}

/// Answers one query message against the state and the oracle
/// snapshot.
pub fn query(state: &ContractState, sheet: &BalanceSheet, msg: QueryMsg) -> (r: Result<
    QueryAnswer,
    ContractError,
>)
    requires
        state@.wf(),
    ensures
        match msg {
            QueryMsg::QueryAdmin {  } => r matches Ok(QueryAnswer::Admin(a)) && admin_view(a.admin)
                == state@.admin,
            QueryMsg::QueryBalanceMapping { addr } => match reg_find(
                state@.balance_infos,
                addr@,
            ) {
                None => r == Err::<QueryAnswer, ContractError>(ContractError::NotFound {  }),
                Some(info) => {
                    &&& r matches Ok(QueryAnswer::BalanceMapping(resp))
                    &&& resp.label@ == info.label
                    &&& resp.assets@.map_values(|a: AssetData| a@) == info.balances
                    &&& assets_unique(resp.assets@.map_values(|a: AssetData| a@))
                },
            },
            QueryMsg::QueryBalancesMapping {  } => {
                let reg = state@.balance_infos;
                &&& r matches Ok(QueryAnswer::BalancesMapping(resp))
                &&& resp.balance_assets@.len() == reg.len()
                &&& forall|i: int|
                    0 <= i < reg.len() ==> {
                        &&& (#[trigger] resp.balance_assets@[i]).addr@ == reg[i].addr
                        &&& resp.balance_assets@[i].label@ == reg[i].info.label
                        &&& resp.balance_assets@[i].assets@.map_values(|a: AssetData| a@)
                            == reg[i].info.balances
                    }
            },
            QueryMsg::QueryLowBalances {  } => {
                &&& (r is Ok <==> probes_ok(*sheet, state@.balance_infos))
                &&& (r is Err ==> r == Err::<QueryAnswer, ContractError>(
                    ContractError::BalanceQueryFailed {  },
                ))
                &&& (r is Ok ==> (r matches Ok(QueryAnswer::LowBalances(resp))
                    && resp.low_balance_assets@.map_values(|b: BalancesQuery| b@)
                    == low_entries_of(*sheet, state@.balance_infos)))
            },
        },
{
    match msg {
        QueryMsg::QueryAdmin {  } => Ok(QueryAnswer::Admin(query_admin(state))),
        QueryMsg::QueryBalanceMapping { addr } => match query_balance_mapping(state, &addr) {
            Ok(resp) => Ok(QueryAnswer::BalanceMapping(resp)),
            Err(e) => Err(e),
        },
        QueryMsg::QueryBalancesMapping {  } => Ok(
            QueryAnswer::BalancesMapping(query_balances_mapping(state)),
        ),
        QueryMsg::QueryLowBalances {  } => match query_low_balances(state, sheet) {
            Ok(resp) => Ok(QueryAnswer::LowBalances(resp)),
            Err(e) => Err(e),
        },
    }
}

/// Bounds of the computed insert position.
proof fn lemma_reg_insert_pos_bounds(reg: Seq<BalanceMappingV>, addr: Seq<char>)
    ensures
        0 <= reg_insert_pos(reg, addr) <= reg.len(),
    decreases reg.len(),
{
    if reg.len() > 0 && lex_lt(reg[0].addr, addr) {
        lemma_reg_insert_pos_bounds(reg.drop_first(), addr);
    }
}

/// Round trip: after a successful `AddBalance`, looking the account
/// up returns its prior entries with the added entry appended — a
/// fresh mapping carries exactly the added entry and the supplied
/// label (or the empty default), while an existing mapping keeps its
/// label.
pub proof fn lemma_add_balance_round_trip(
    reg0: Seq<BalanceMappingV>,
    reg1: Seq<BalanceMappingV>,
    addr: Seq<char>,
    data: AssetDataV,
    label: Option<Seq<char>>,
)
    requires
        registry_wf(reg0),
        registry_wf(reg1),
        reg_contains(reg0, addr) ==> forall|i: int|
            0 <= i < reg0.len() && (#[trigger] reg0[i]).addr == addr ==> reg1 == reg0.update(
                i,
                added_row(reg_find(reg0, addr), addr, data, label),
            ),
        !reg_contains(reg0, addr) ==> reg1 == reg0.insert(
            reg_insert_pos(reg0, addr),
            added_row(None, addr, data, label),
        ),
    ensures
        ({
            let found = reg_find(reg1, addr);
            &&& found matches Some(info1)
            &&& info1.balances.len() > 0
            &&& info1.balances.last() == data
            &&& match reg_find(reg0, addr) {
                Some(info0) => info1.balances == info0.balances.push(data) && info1.label
                    == info0.label,
                None => info1.balances == seq![data] && info1.label == (match label {
                    Some(l) => l,
                    None => Seq::<char>::empty(),
                }),
            }
        }),
{
    assert forall|p: int, q: int|
        0 <= p < q < reg0.len() implies (#[trigger] reg0[p]).addr != (#[trigger] reg0[q]).addr by {
        lemma_reg_addrs_distinct(reg0, p, q);
    }
    assert forall|p: int, q: int|
        0 <= p < q < reg1.len() implies (#[trigger] reg1[p]).addr != (#[trigger] reg1[q]).addr by {
        lemma_reg_addrs_distinct(reg1, p, q);
    }
    if reg_contains(reg0, addr) {
        let i = choose|i: int| 0 <= i < reg0.len() && (#[trigger] reg0[i]).addr == addr;
        lemma_reg_find_at(reg0, i);
        let row = added_row(reg_find(reg0, addr), addr, data, label);
        assert(reg1 == reg0.update(i, row));
        assert(reg1[i] == row);
        lemma_reg_find_at(reg1, i);
        assert(reg_find(reg1, addr) == Some(row.info));
        assert(row.info.balances.last() == data);
    } else {
        assert forall|j: int| 0 <= j < reg0.len() implies (#[trigger] reg0[j]).addr != addr by {
            if reg0[j].addr == addr {
                assert(reg_contains(reg0, addr));
            }
        }
        lemma_reg_find_absent(reg0, addr);
        let pos = reg_insert_pos(reg0, addr);
        lemma_reg_insert_pos_bounds(reg0, addr);
        let row = added_row(None, addr, data, label);
        reg0.insert_ensures(pos, row);
        assert(reg1[pos] == row);
        lemma_reg_find_at(reg1, pos);
        assert(reg_find(reg1, addr) == Some(row.info));
        assert(row.info.balances == seq![data]);
        assert(row.info.balances.last() == data);
    }
}

} // verus!
