use ledger_factory::{Address, Erc20, Erc20Error, Erc20Event, Uint256};

fn sender() -> Address {
    Address::from([0xa1u8; 20])
}

fn ledger(supply: u64, creator: Address) -> Erc20 {
    let mut token = Erc20::new();
    token.initialize(
        String::from("Test"),
        String::from("TST"),
        Uint256::from(18),
        Uint256::from(supply),
        creator,
    );
    token
}

#[test]
fn test_token_initialization() {
    let mut token = Erc20::new();
    let creator = sender();

    token.initialize(
        String::from("MyToken"),
        String::from("MTK"),
        Uint256::from(18),
        Uint256::from(1000000),
        creator,
    );

    assert_eq!(token.name(), "MyToken");
    assert_eq!(token.symbol(), "MTK");
    assert_eq!(token.decimals(), Uint256::from(18));
    assert_eq!(token.total_supply(), Uint256::from(1000000));
    assert_eq!(token.balance_of(creator), Uint256::from(1000000));
    assert_eq!(token.creator(), creator);
}

#[test]
fn lib_test_transfer() {
    let creator = sender();
    let mut token = Erc20::new();
    token.initialize(
        String::from("Test"),
        String::from("TST"),
        Uint256::from(18),
        Uint256::from(1000),
        creator,
    );

    let recipient = Address::from([1u8; 20]);
    assert!(token.transfer(creator, recipient, Uint256::from(100)).is_ok());
    assert_eq!(token.balance_of(recipient), Uint256::from(100));
    assert_eq!(token.balance_of(creator), Uint256::from(900));
}

#[test]
fn test_approve_and_transfer_from() {
    let creator = sender();
    let mut token = Erc20::new();
    token.initialize(
        String::from("Test"),
        String::from("TST"),
        Uint256::from(18),
        Uint256::from(1000),
        creator,
    );

    let spender = Address::from([2u8; 20]);
    assert!(token.approve(creator, spender, Uint256::from(500)).is_ok());
    assert_eq!(token.allowance(creator, spender), Uint256::from(500));
}

#[test]
fn fungible_scenario_transfer_approve_transfer_from() {
    let a = Address::from([0x0au8; 20]);
    let b = Address::from([0x0bu8; 20]);
    let c = Address::from([0x0cu8; 20]);
    let mut token = ledger(1000, a);

    assert_eq!(token.transfer(a, b, Uint256::from(100)), Ok(true));
    assert_eq!(token.balance_of(a), Uint256::from(900));
    assert_eq!(token.balance_of(b), Uint256::from(100));
    assert_eq!(token.total_supply(), Uint256::from(1000));

    assert_eq!(token.approve(a, c, Uint256::from(500)), Ok(true));
    assert_eq!(token.transfer_from(c, a, b, Uint256::from(300)), Ok(true));
    assert_eq!(token.allowance(a, c), Uint256::from(200));
    assert_eq!(token.balance_of(b), Uint256::from(400));
    assert_eq!(token.balance_of(a), Uint256::from(600));

    let events_before = token.events().len();
    let refused = token.transfer_from(c, a, b, Uint256::from(300));
    assert_eq!(
        refused,
        Err(Erc20Error::InsufficientAllowance {
            owner: a,
            spender: c,
            have: Uint256::from(200),
            want: Uint256::from(300),
        })
    );
    assert_eq!(token.allowance(a, c), Uint256::from(200));
    assert_eq!(token.balance_of(a), Uint256::from(600));
    assert_eq!(token.balance_of(b), Uint256::from(400));
    assert_eq!(token.events().len(), events_before);
}

#[test]
fn balances_add_up_to_supply_after_each_operation() {
    let a = Address::from([3u8; 20]);
    let b = Address::from([4u8; 20]);
    let c = Address::from([5u8; 20]);
    let mut token = ledger(777, a);
    let sum = |t: &Erc20| {
        t.balance_of(a).lo + t.balance_of(b).lo + t.balance_of(c).lo
    };
    assert_eq!(sum(&token), 777);
    token.transfer(a, b, Uint256::from(77)).unwrap();
    assert_eq!(sum(&token), 777);
    token.approve(b, c, Uint256::from(50)).unwrap();
    token.transfer_from(c, b, c, Uint256::from(50)).unwrap();
    assert_eq!(sum(&token), 777);
    assert!(token.transfer(c, a, Uint256::from(51)).is_err());
    assert_eq!(sum(&token), 777);
    token.transfer(a, a, Uint256::from(700)).unwrap();
    assert_eq!(token.balance_of(a), Uint256::from(700));
    assert_eq!(sum(&token), 777);
}

#[test]
fn second_initialize_changes_nothing() {
    let a = Address::from([6u8; 20]);
    let b = Address::from([7u8; 20]);
    let mut token = ledger(1000, a);
    token.initialize(
        String::from("Other"),
        String::from("OTH"),
        Uint256::from(6),
        Uint256::from(5),
        b,
    );
    assert_eq!(token.name(), "Test");
    assert_eq!(token.symbol(), "TST");
    assert_eq!(token.decimals(), Uint256::from(18));
    assert_eq!(token.total_supply(), Uint256::from(1000));
    assert_eq!(token.balance_of(a), Uint256::from(1000));
    assert_eq!(token.balance_of(b), Uint256::from(0));
    assert_eq!(token.creator(), a);
    assert_eq!(token.events().len(), 1);
}

#[test]
fn zero_supply_token_is_initialized_once() {
    let a = Address::from([8u8; 20]);
    let mut token = ledger(0, a);
    token.initialize(String::from("Again"), String::from("AGN"), Uint256::from(1), Uint256::from(10), a);
    assert_eq!(token.name(), "Test");
    assert_eq!(token.total_supply(), Uint256::from(0));
}

#[test]
fn initialize_reports_mint_from_null() {
    let a = Address::from([9u8; 20]);
    let token = ledger(42, a);
    assert_eq!(
        token.events(),
        &vec![Erc20Event::Transfer { from: Address::zero(), to: a, value: Uint256::from(42) }]
    );
}

#[test]
fn token_transfer_errors() {
    let a = Address::from([10u8; 20]);
    let b = Address::from([11u8; 20]);
    let mut token = ledger(10, a);
    assert_eq!(
        token.transfer(Address::zero(), b, Uint256::from(1)),
        Err(Erc20Error::InvalidSender { from: Address::zero() })
    );
    assert_eq!(
        token.transfer(a, Address::zero(), Uint256::from(1)),
        Err(Erc20Error::InvalidRecipient { to: Address::zero() })
    );
    assert_eq!(
        token.transfer(a, b, Uint256::from(11)),
        Err(Erc20Error::InsufficientBalance { from: a, have: Uint256::from(10), want: Uint256::from(11) })
    );
    assert_eq!(token.balance_of(a), Uint256::from(10));
    assert_eq!(token.transfer(a, b, Uint256::from(10)), Ok(true));
    assert_eq!(token.balance_of(a), Uint256::from(0));
    assert_eq!(token.balance_of(b), Uint256::from(10));
}

#[test]
fn approve_errors_and_absolute_set() {
    let a = Address::from([12u8; 20]);
    let b = Address::from([13u8; 20]);
    let mut token = ledger(10, a);
    assert_eq!(
        token.approve(Address::zero(), b, Uint256::from(1)),
        Err(Erc20Error::InvalidSender { from: Address::zero() })
    );
    assert_eq!(
        token.approve(a, Address::zero(), Uint256::from(1)),
        Err(Erc20Error::InvalidRecipient { to: Address::zero() })
    );
    token.approve(a, b, Uint256::from(9)).unwrap();
    token.approve(a, b, Uint256::from(4)).unwrap();
    assert_eq!(token.allowance(a, b), Uint256::from(4));
    assert_eq!(token.allowance(b, a), Uint256::from(0));
    assert_eq!(
        token.events().last(),
        Some(&Erc20Event::Approval { owner: a, spender: b, value: Uint256::from(4) })
    );
}

#[test]
fn transfer_from_needs_balance_too() {
    let a = Address::from([14u8; 20]);
    let b = Address::from([15u8; 20]);
    let mut token = ledger(10, a);
    token.approve(a, b, Uint256::from(100)).unwrap();
    assert_eq!(
        token.transfer_from(b, a, b, Uint256::from(50)),
        Err(Erc20Error::InsufficientBalance { from: a, have: Uint256::from(10), want: Uint256::from(50) })
    );
    assert_eq!(token.allowance(a, b), Uint256::from(100));
    assert_eq!(token.balance_of(a), Uint256::from(10));
}

#[test]
fn increase_and_decrease_allowance() {
    let a = Address::from([16u8; 20]);
    let b = Address::from([17u8; 20]);
    let mut token = ledger(10, a);
    assert_eq!(token.increase_allowance(a, b, Uint256::from(30)), Ok(true));
    assert_eq!(token.increase_allowance(a, b, Uint256::from(12)), Ok(true));
    assert_eq!(token.allowance(a, b), Uint256::from(42));
    assert_eq!(token.decrease_allowance(a, b, Uint256::from(40)), Ok(true));
    assert_eq!(token.allowance(a, b), Uint256::from(2));
    assert_eq!(
        token.decrease_allowance(a, b, Uint256::from(3)),
        Err(Erc20Error::InsufficientAllowance { owner: a, spender: b, have: Uint256::from(2), want: Uint256::from(3) })
    );
    assert_eq!(token.allowance(a, b), Uint256::from(2));
}

#[test]
fn increase_allowance_overflow_is_refused() {
    let a = Address::from([18u8; 20]);
    let b = Address::from([19u8; 20]);
    let mut token = ledger(10, a);
    let max = Uint256 { hi: u128::MAX, lo: u128::MAX };
    token.approve(a, b, max).unwrap();
    assert_eq!(
        token.increase_allowance(a, b, Uint256::from(1)),
        Err(Erc20Error::AllowanceOverflow { owner: a, spender: b, have: max, added: Uint256::from(1) })
    );
    assert_eq!(token.allowance(a, b), max);
}
