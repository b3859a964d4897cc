use balance_processor::asset::AssetInfo;
use balance_processor::contract::{execute, instantiate, query};
use balance_processor::error::ContractError;
use balance_processor::helpers::BalanceSheet;
use balance_processor::msg::{
    AddNewBalanceMappingMsg, AttrValue, DeleteBalanceMappingMsg, ExecuteMsg, QueryAnswer, QueryMsg,
    UpdateBalanceMappingMsg,
};
use balance_processor::state::ContractState;

/// Instantiates an empty contract with sender `admin`.
pub fn setup() -> ContractState {
    let (state, res) = instantiate(String::from("admin"));
    assert_eq!(0, res.messages.len());
    state
}

fn empty_sheet() -> BalanceSheet {
    BalanceSheet::new()
}

fn token(addr: &str) -> AssetInfo {
    AssetInfo::Token {
        contract_addr: String::from(addr),
    }
}

fn native(denom: &str) -> AssetInfo {
    AssetInfo::NativeToken {
        denom: String::from(denom),
    }
}

fn add_msg(addr: &str, asset: AssetInfo, lower: u128, upper: u128, decimals: u8) -> ExecuteMsg {
    ExecuteMsg::AddBalance(AddNewBalanceMappingMsg {
        addr: String::from(addr),
        balance_info: asset,
        lower_bound: lower,
        upper_bound: upper,
        decimals,
        label: Some(String::from("demo_balance")),
    })
}

fn test_unauthorized_admin(state: &mut ContractState, msg: ExecuteMsg) {
    let sheet = empty_sheet();
    let response = execute(state, &sheet, 0, String::from("unauthorized"), msg).unwrap_err();
    assert_eq!(response, ContractError::NotAdmin {});
}

#[test]
fn test_admin_query() {
    let state = setup();
    let sheet = empty_sheet();
    let answer = query(&state, &sheet, QueryMsg::QueryAdmin {}).unwrap();
    match answer {
        QueryAnswer::Admin(resp) => assert_eq!(resp.admin, Some(String::from("admin"))),
        _ => panic!("wrong answer variant"),
    }
}

#[test]
fn test_query_balances_mapping() {
    let mut state = setup();
    let sheet = empty_sheet();
    let addr = "addr".to_string();
    let second_addr = "second_addr".to_string();

    // should be empty at first
    match query(&state, &sheet, QueryMsg::QueryBalancesMapping {}).unwrap() {
        QueryAnswer::BalancesMapping(resp) => assert_eq!(resp.balance_assets.len(), 0usize),
        _ => panic!("wrong answer variant"),
    }

    // when adding a new balance info, should query new data
    let execute_msg = add_msg(&addr, token("contract"), 50000, 50000, 6);
    test_unauthorized_admin(&mut state, add_msg(&addr, token("contract"), 50000, 50000, 6));
    execute(&mut state, &sheet, 0, String::from("admin"), execute_msg).unwrap();

    // add a second balance mapping pair to test query
    let execute_msg = add_msg(&second_addr, token("contract"), 50000, 50000, 6);
    execute(&mut state, &sheet, 0, String::from("admin"), execute_msg).unwrap();

    // when querying it should show two balances info
    match query(&state, &sheet, QueryMsg::QueryBalancesMapping {}).unwrap() {
        QueryAnswer::BalancesMapping(resp) => {
            assert_eq!(resp.balance_assets.first().unwrap().addr, addr);
            assert_eq!(resp.balance_assets.last().unwrap().addr, second_addr);
        }
        _ => panic!("wrong answer variant"),
    }
}

#[test]
fn test_query_balance_mapping() {
    let mut state = setup();
    let sheet = empty_sheet();
    let addr = "addr".to_string();

    // should be absent at first
    let response = query(
        &state,
        &sheet,
        QueryMsg::QueryBalanceMapping { addr: addr.clone() },
    )
    .unwrap_err();
    assert_eq!(response, ContractError::NotFound {});

    let balance_info = token("contract");
    let execute_msg = add_msg(&addr, balance_info.clone(), 50000, 50000, 6);
    test_unauthorized_admin(&mut state, add_msg(&addr, balance_info.clone(), 50000, 50000, 6));
    execute(&mut state, &sheet, 0, String::from("admin"), execute_msg).unwrap();

    // query to double check if add balance is there
    match query(
        &state,
        &sheet,
        QueryMsg::QueryBalanceMapping { addr: addr.clone() },
    )
    .unwrap()
    {
        QueryAnswer::BalanceMapping(resp) => {
            assert_eq!(resp.label, "demo_balance");
            assert_eq!(resp.assets.last().unwrap().asset, balance_info);
        }
        _ => panic!("wrong answer variant"),
    }
}

#[test]
fn test_query_low_balances() {
    let mut state = setup();
    let mock_addr = "sender".to_string();
    let native_denom = "orai".to_string();
    let cw20_address = "cw20-token".to_string();

    // the oracle snapshot: 10 native units, 100 token units
    let mut sheet = empty_sheet();
    sheet.set_balance(mock_addr.clone(), native(&native_denom), 10u128);
    sheet.set_balance(mock_addr.clone(), token(&cw20_address), 100u128);

    // store two balance infos; lower bound 11 triggers only for the
    // native balance of 10
    execute(
        &mut state,
        &sheet,
        0,
        String::from("admin"),
        add_msg(&mock_addr, native(&native_denom), 11, 100, 0),
    )
    .unwrap();
    execute(
        &mut state,
        &sheet,
        0,
        String::from("admin"),
        add_msg(&mock_addr, token(&cw20_address), 11, 100, 0),
    )
    .unwrap();

    match query(&state, &sheet, QueryMsg::QueryLowBalances {}).unwrap() {
        QueryAnswer::LowBalances(resp) => {
            assert_eq!(resp.low_balance_assets.len(), 1usize);
            let entry = resp.low_balance_assets.last().unwrap();
            assert_eq!(entry.assets.len(), 1usize);
            let low = entry.assets.last().unwrap();
            assert_eq!(low.info, native(&native_denom));
            assert_eq!(low.amount, 10u128);
        }
        _ => panic!("wrong answer variant"),
    }

    // topping the native balance up empties the report
    sheet.set_balance(mock_addr.clone(), native(&native_denom), 110u128);
    match query(&state, &sheet, QueryMsg::QueryLowBalances {}).unwrap() {
        QueryAnswer::LowBalances(resp) => assert_eq!(resp.low_balance_assets.len(), 0usize),
        _ => panic!("wrong answer variant"),
    }
}

#[test]
fn test_add_balance() {
    let mut state = setup();
    let sheet = empty_sheet();
    let addr = "addr".to_string();
    let balance_info = token("contract");
    let second_balance_info = native("orai");

    let execute_msg = add_msg(&addr, balance_info.clone(), 50000, 50000, 6);
    test_unauthorized_admin(&mut state, add_msg(&addr, balance_info.clone(), 50000, 50000, 6));

    let response = execute(&mut state, &sheet, 0, String::from("admin"), execute_msg).unwrap();
    match &response.attributes[1].value {
        AttrValue::Str(s) => assert_eq!(*s, addr),
        _ => panic!("wrong attribute value"),
    }

    // if we try to add another same balance info => get error
    let response = execute(
        &mut state,
        &sheet,
        0,
        String::from("admin"),
        add_msg(&addr, balance_info.clone(), 50000, 50000, 6),
    )
    .unwrap_err();
    assert_eq!(response, ContractError::BalanceInfoExists {});

    // we can append to the list if balance info is different; a label
    // supplied on an update of an existing mapping is ignored
    let execute_msg = ExecuteMsg::AddBalance(AddNewBalanceMappingMsg {
        addr: addr.clone(),
        balance_info: second_balance_info.clone(),
        lower_bound: 50000,
        upper_bound: 50000,
        decimals: 6,
        label: Some(String::from("other_label")),
    });
    execute(&mut state, &sheet, 0, String::from("admin"), execute_msg).unwrap();

    // when querying it should show two balances info, in insertion
    // order, under the first label
    match query(
        &state,
        &sheet,
        QueryMsg::QueryBalanceMapping { addr: addr.clone() },
    )
    .unwrap()
    {
        QueryAnswer::BalanceMapping(resp) => {
            assert_eq!(resp.assets.len(), 2usize);
            assert_eq!(resp.assets.last().unwrap().asset, second_balance_info);
            assert_eq!(resp.assets.first().unwrap().asset, balance_info);
            assert_eq!(resp.label, "demo_balance");
        }
        _ => panic!("wrong answer variant"),
    }
}

#[test]
fn test_update_balance() {
    let mut state = setup();
    let sheet = empty_sheet();
    let addr = "addr".to_string();
    let balance_info = token("contract");
    let second_balance_info = native("orai");
    let lower_bound = 50000u128;

    // add new balance mapping first before updating it
    execute(
        &mut state,
        &sheet,
        0,
        String::from("admin"),
        add_msg(&addr, balance_info.clone(), 1, 1, 6),
    )
    .unwrap();
    // add another balance mapping so we can observe the difference
    execute(
        &mut state,
        &sheet,
        0,
        String::from("admin"),
        add_msg(&addr, second_balance_info.clone(), 1, 1, 6),
    )
    .unwrap();

    // now we try to update the balance to a new lower bound
    let update = |addr: &str, asset: AssetInfo| UpdateBalanceMappingMsg {
        addr: String::from(addr),
        balance_info: asset,
        lower_bound: Some(lower_bound),
        upper_bound: None,
        decimals: Some(18),
    };
    test_unauthorized_admin(
        &mut state,
        ExecuteMsg::UpdateBalance(update(&addr, balance_info.clone())),
    );
    execute(
        &mut state,
        &sheet,
        0,
        String::from("admin"),
        ExecuteMsg::UpdateBalance(update(&addr, balance_info.clone())),
    )
    .unwrap();

    // query to double check if the update is there
    match query(
        &state,
        &sheet,
        QueryMsg::QueryBalanceMapping { addr: addr.clone() },
    )
    .unwrap()
    {
        QueryAnswer::BalanceMapping(resp) => {
            assert_eq!(resp.assets[0].lower_bound, lower_bound);
            assert_eq!(resp.assets[0].decimals, 18);
        }
        _ => panic!("wrong answer variant"),
    }

    // balance mapping not exist case
    let response_err = execute(
        &mut state,
        &sheet,
        0,
        String::from("admin"),
        ExecuteMsg::UpdateBalance(update("not-exist", balance_info.clone())),
    )
    .unwrap_err();
    assert_eq!(response_err, ContractError::BalanceMappingNotExist {});

    // balance info not exist case
    let response_err = execute(
        &mut state,
        &sheet,
        0,
        String::from("admin"),
        ExecuteMsg::UpdateBalance(update(&addr, token("not-exist"))),
    )
    .unwrap_err();
    assert_eq!(response_err, ContractError::BalanceInfoNotExist {});
}

#[test]
fn test_update_balance_nothing_to_update() {
    let mut state = setup();
    let sheet = empty_sheet();
    execute(
        &mut state,
        &sheet,
        0,
        String::from("admin"),
        add_msg("addr", token("contract"), 1, 1, 6),
    )
    .unwrap();
    let response_err = execute(
        &mut state,
        &sheet,
        0,
        String::from("admin"),
        ExecuteMsg::UpdateBalance(UpdateBalanceMappingMsg {
            addr: String::from("addr"),
            balance_info: token("contract"),
            lower_bound: None,
            upper_bound: None,
            decimals: None,
        }),
    )
    .unwrap_err();
    assert_eq!(response_err, ContractError::NothingToUpdate {});
}

#[test]
fn test_delete_balance_mapping() {
    let mut state = setup();
    let sheet = empty_sheet();
    let addr = "addr".to_string();

    // setup, add new balances
    execute(
        &mut state,
        &sheet,
        0,
        String::from("admin"),
        add_msg(&addr, token("contract"), 1, 1, 6),
    )
    .unwrap();
    execute(
        &mut state,
        &sheet,
        0,
        String::from("admin"),
        add_msg(&addr, native("orai"), 1, 1, 6),
    )
    .unwrap();

    let delete_msg = ExecuteMsg::DeleteBalanceMapping(DeleteBalanceMappingMsg {
        addr: addr.clone(),
    });
    test_unauthorized_admin(
        &mut state,
        ExecuteMsg::DeleteBalanceMapping(DeleteBalanceMappingMsg { addr: addr.clone() }),
    );
    execute(&mut state, &sheet, 0, String::from("admin"), delete_msg).unwrap();

    // should return empty
    match query(&state, &sheet, QueryMsg::QueryBalancesMapping {}).unwrap() {
        QueryAnswer::BalancesMapping(resp) => assert_eq!(resp.balance_assets.len(), 0usize),
        _ => panic!("wrong answer variant"),
    }
}
