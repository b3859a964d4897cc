use balance_processor::asset::AssetInfo;
use balance_processor::contract::{execute, instantiate, migrate, query};
use balance_processor::error::ContractError;
use balance_processor::helpers::{is_low, query_balance, BalanceSheet};
use balance_processor::msg::{
    AddNewBalanceMappingMsg, AttrValue, ExecuteMsg, MigrateMsg, QueryAnswer, QueryMsg, Response,
    TopupMsg, TopupTarget,
};
use balance_processor::state::{ContractState, DEFAULT_MINIMUM_BLOCK_RANGE};

fn native(denom: &str) -> AssetInfo {
    AssetInfo::NativeToken {
        denom: String::from(denom),
    }
}

fn token(addr: &str) -> AssetInfo {
    AssetInfo::Token {
        contract_addr: String::from(addr),
    }
}

/// A state with addr "X" monitoring Native{"orai"} (lower 11,
/// upper 100) and Token{"C"} (lower 11, upper 100), both decimals 0,
/// and a snapshot where X holds 10 "orai" and 100 of token "C".
fn topup_fixture() -> (ContractState, BalanceSheet) {
    let (mut state, _) = instantiate(String::from("admin"));
    let sheet = BalanceSheet::new();
    for asset in [native("orai"), token("C")] {
        execute(
            &mut state,
            &sheet,
            0,
            String::from("admin"),
            ExecuteMsg::AddBalance(AddNewBalanceMappingMsg {
                addr: String::from("X"),
                balance_info: asset,
                lower_bound: 11,
                upper_bound: 100,
                decimals: 0,
                label: None,
            }),
        )
        .unwrap();
    }
    let mut sheet = BalanceSheet::new();
    sheet.set_balance(String::from("X"), native("orai"), 10);
    sheet.set_balance(String::from("X"), token("C"), 100);
    (state, sheet)
}

fn topup_call(targets: Vec<(&str, Vec<AssetInfo>)>) -> ExecuteMsg {
    ExecuteMsg::Topup(TopupMsg {
        balances: targets
            .into_iter()
            .map(|(addr, asset_infos)| TopupTarget {
                addr: String::from(addr),
                asset_infos,
            })
            .collect(),
    })
}

fn hack_flag(resp: &Response) -> bool {
    match &resp.attributes[1].value {
        AttrValue::Boolean(b) => *b,
        _ => panic!("wrong attribute value"),
    }
}

fn msgs_len_attr(resp: &Response) -> u128 {
    match &resp.attributes[2].value {
        AttrValue::Uint(n) => *n,
        _ => panic!("wrong attribute value"),
    }
}

#[test]
fn test_topup_happy_path() {
    let (mut state, sheet) = topup_fixture();
    let resp = execute(
        &mut state,
        &sheet,
        1000,
        String::from("watchdog"),
        topup_call(vec![("X", vec![native("orai")])]),
    )
    .unwrap();
    assert_eq!(resp.messages.len(), 1);
    assert_eq!(resp.messages[0].to, "X");
    assert_eq!(resp.messages[0].asset, native("orai"));
    // refill to ceiling: exactly the upper bound, not the shortfall
    assert_eq!(resp.messages[0].amount, 100u128);
    assert!(!hack_flag(&resp));
    assert_eq!(msgs_len_attr(&resp), 1);

    // after the host runs the transfer the balance is no longer low
    let mut topped = BalanceSheet::new();
    topped.set_balance(String::from("X"), native("orai"), 110);
    topped.set_balance(String::from("X"), token("C"), 100);
    match query(&state, &topped, QueryMsg::QueryLowBalances {}).unwrap() {
        QueryAnswer::LowBalances(resp) => assert_eq!(resp.low_balance_assets.len(), 0usize),
        _ => panic!("wrong answer variant"),
    }
}

#[test]
fn test_topup_dedup_and_cooldown() {
    let (mut state, sheet) = topup_fixture();
    let call = || topup_call(vec![("X", vec![native("orai")])]);
    let resp = execute(&mut state, &sheet, 1000, String::from("w"), call()).unwrap();
    assert_eq!(resp.messages.len(), 1);

    // immediately afterwards the pair is cooling down
    let resp = execute(&mut state, &sheet, 1000, String::from("w"), call()).unwrap();
    assert_eq!(resp.messages.len(), 0);
    assert!(hack_flag(&resp));
    assert_eq!(msgs_len_attr(&resp), 0);

    // one block before the window ends it still is
    let almost = 1000 + DEFAULT_MINIMUM_BLOCK_RANGE - 1;
    let resp = execute(&mut state, &sheet, almost, String::from("w"), call()).unwrap();
    assert_eq!(resp.messages.len(), 0);
    assert!(hack_flag(&resp));

    // once the window has passed the refill goes through again
    let later = 1000 + DEFAULT_MINIMUM_BLOCK_RANGE + 1;
    let resp = execute(&mut state, &sheet, later, String::from("w"), call()).unwrap();
    assert_eq!(resp.messages.len(), 1);
    assert!(!hack_flag(&resp));
}

#[test]
fn test_topup_intra_call_duplicates() {
    let (mut state, sheet) = topup_fixture();
    // three copies of the same pair in one call: one transfer, flagged
    let resp = execute(
        &mut state,
        &sheet,
        1000,
        String::from("w"),
        topup_call(vec![(
            "X",
            vec![native("orai"), native("orai"), native("orai")],
        )]),
    )
    .unwrap();
    assert_eq!(resp.messages.len(), 1);
    assert!(hack_flag(&resp));
}

#[test]
fn test_topup_bounded_by_eligible_pairs() {
    let (mut state, sheet) = topup_fixture();
    // the token balance (100) is above its lower bound (11): however
    // often either asset is named, only the native pair is refilled
    let resp = execute(
        &mut state,
        &sheet,
        1000,
        String::from("w"),
        topup_call(vec![
            ("X", vec![native("orai"), token("C"), native("orai")]),
            ("X", vec![native("orai"), token("C")]),
            ("unknown", vec![native("orai")]),
        ]),
    )
    .unwrap();
    assert_eq!(resp.messages.len(), 1);
    assert_eq!(resp.messages[0].asset, native("orai"));
}

#[test]
fn test_topup_skips_failed_probe_and_unknown_asset() {
    let (mut state, _) = topup_fixture();
    // a snapshot with no answers: every probe fails, no transfer, no flag
    let empty = BalanceSheet::new();
    let resp = execute(
        &mut state,
        &empty,
        1000,
        String::from("w"),
        topup_call(vec![("X", vec![native("orai"), native("unlisted")])]),
    )
    .unwrap();
    assert_eq!(resp.messages.len(), 0);
    assert!(!hack_flag(&resp));
}

#[test]
fn test_low_balances_probe_failure() {
    let (state, _) = topup_fixture();
    // QueryLowBalances is strict: a failed probe fails the query
    let empty = BalanceSheet::new();
    let err = query(&state, &empty, QueryMsg::QueryLowBalances {}).unwrap_err();
    assert_eq!(err, ContractError::BalanceQueryFailed {});
}

#[test]
fn test_query_balance_adapter() {
    let mut sheet = BalanceSheet::new();
    sheet.set_balance(String::from("X"), native("orai"), 7);
    assert_eq!(
        query_balance(&sheet, &String::from("X"), &native("orai")).unwrap(),
        7u128
    );
    assert_eq!(
        query_balance(&sheet, &String::from("X"), &native("atom")).unwrap_err(),
        ContractError::BalanceQueryFailed {}
    );
    // overwriting replaces the earlier answer
    sheet.set_balance(String::from("X"), native("orai"), 9);
    assert_eq!(
        query_balance(&sheet, &String::from("X"), &native("orai")).unwrap(),
        9u128
    );
}

#[test]
fn test_is_low_scaling() {
    // 10 * 10^0 = 10 <= 11: low
    assert!(is_low(10, 11, 0));
    // 10 * 10^6 = 10_000_000 > 11: not low
    assert!(!is_low(10, 11, 6));
    // equality still triggers
    assert!(is_low(11, 11, 0));
    assert!(!is_low(12, 11, 0));
    // a huge scale overflows any bound unless the amount is zero
    assert!(!is_low(2, u128::MAX, 50));
    assert!(is_low(0, 0, 255));
}

#[test]
fn test_admin_gate_preserves_state() {
    let (mut state, sheet) = topup_fixture();
    let before = format!("{:?}", state.balance_infos);
    let err = execute(
        &mut state,
        &sheet,
        0,
        String::from("mallory"),
        ExecuteMsg::UpdateAdmin {
            new_admin: String::from("mallory"),
        },
    )
    .unwrap_err();
    assert_eq!(err, ContractError::NotAdmin {});
    assert_eq!(state.admin, Some(String::from("admin")));
    assert_eq!(
        state.config.minimum_block_range,
        DEFAULT_MINIMUM_BLOCK_RANGE
    );
    assert_eq!(before, format!("{:?}", state.balance_infos));
}

#[test]
fn test_update_admin_and_config() {
    let (mut state, sheet) = topup_fixture();
    execute(
        &mut state,
        &sheet,
        0,
        String::from("admin"),
        ExecuteMsg::UpdateConfig {
            minimum_block_range: Some(5),
        },
    )
    .unwrap();
    assert_eq!(state.config.minimum_block_range, 5);

    execute(
        &mut state,
        &sheet,
        0,
        String::from("admin"),
        ExecuteMsg::UpdateAdmin {
            new_admin: String::from("admin2"),
        },
    )
    .unwrap();
    assert_eq!(state.admin, Some(String::from("admin2")));

    // the old admin is locked out now
    let err = execute(
        &mut state,
        &sheet,
        0,
        String::from("admin"),
        ExecuteMsg::UpdateConfig {
            minimum_block_range: Some(7),
        },
    )
    .unwrap_err();
    assert_eq!(err, ContractError::NotAdmin {});

    // a shorter cooldown is honoured by topup
    let mut sheet2 = BalanceSheet::new();
    sheet2.set_balance(String::from("X"), native("orai"), 10);
    sheet2.set_balance(String::from("X"), token("C"), 100);
    let call = || topup_call(vec![("X", vec![native("orai")])]);
    let resp = execute(&mut state, &sheet2, 100, String::from("w"), call()).unwrap();
    assert_eq!(resp.messages.len(), 1);
    let resp = execute(&mut state, &sheet2, 104, String::from("w"), call()).unwrap();
    assert_eq!(resp.messages.len(), 0);
    let resp = execute(&mut state, &sheet2, 105, String::from("w"), call()).unwrap();
    assert_eq!(resp.messages.len(), 1);
}

#[test]
fn test_instantiate_defaults_and_migrate() {
    let (state, resp) = instantiate(String::from("admin"));
    assert_eq!(state.admin, Some(String::from("admin")));
    assert_eq!(state.config.minimum_block_range, 14896);
    assert!(state.balance_infos.is_empty());
    assert!(state.topup_ledger.is_empty());
    assert_eq!(resp.attributes.len(), 1);
    match &resp.attributes[0].value {
        AttrValue::Str(s) => assert_eq!(s, "admin"),
        _ => panic!("wrong attribute value"),
    }

    let resp = migrate(MigrateMsg {});
    assert!(resp.attributes.is_empty());
    assert!(resp.messages.is_empty());
}
