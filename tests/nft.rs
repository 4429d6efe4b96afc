use ledger_factory::{Address, Erc721, Erc721Error, Erc721Event, Uint256};

fn sender() -> Address {
    Address::from([0xa1u8; 20])
}

fn collection(creator: Address) -> Erc721 {
    let mut nft = Erc721::new();
    nft.initialize(
        String::from("Test"),
        String::from("TST"),
        String::from("https://test.com/"),
        creator,
    );
    nft
}

#[test]
fn test_collection_initialization() {
    let mut nft = Erc721::new();
    let creator = sender();

    nft.initialize(
        String::from("MyNFT"),
        String::from("MNFT"),
        String::from("https://example.com/metadata/"),
        creator,
    );

    assert_eq!(nft.name(), "MyNFT");
    assert_eq!(nft.symbol(), "MNFT");
    assert_eq!(nft.base_uri(), "https://example.com/metadata/");
    assert_eq!(nft.total_supply(), Uint256::zero());
    assert_eq!(nft.creator(), creator);
}

#[test]
fn test_mint() {
    let creator = sender();
    let mut nft = Erc721::new();
    nft.initialize(
        String::from("Test"),
        String::from("TST"),
        String::from("https://test.com/"),
        creator,
    );

    let recipient = Address::from([1u8; 20]);
    let token_id = nft.mint(recipient).unwrap();

    assert_eq!(token_id, Uint256::from(1));
    assert_eq!(nft.owner_of(token_id).unwrap(), recipient);
    assert_eq!(nft.balance_of(recipient), Uint256::from(1));
    assert_eq!(nft.total_supply(), Uint256::from(1));
    assert_eq!(nft.token_uri(Uint256::from(20)), Err(Erc721Error::InvalidTokenId { token_id: Uint256::from(20) }));
}

#[test]
fn test_transfer() {
    let creator = sender();
    let mut nft = Erc721::new();
    nft.initialize(
        String::from("Test"),
        String::from("TST"),
        String::from("https://test.com/"),
        creator,
    );

    let owner = sender();
    let token_id = nft.mint(owner).unwrap();

    let recipient = Address::from([2u8; 20]);
    assert!(nft.transfer_from(owner, owner, recipient, token_id).is_ok());
    assert_eq!(nft.owner_of(token_id).unwrap(), recipient);
    assert_eq!(nft.balance_of(recipient), Uint256::from(1));
    assert_eq!(nft.balance_of(owner), Uint256::zero());
}

#[test]
fn test_approve() {
    let creator = sender();
    let mut nft = Erc721::new();
    nft.initialize(
        String::from("Test"),
        String::from("TST"),
        String::from("https://test.com/"),
        creator,
    );

    let owner = sender();
    let token_id = nft.mint(owner).unwrap();

    let approved = Address::from([3u8; 20]);
    assert!(nft.approve(owner, approved, token_id).is_ok());
    assert_eq!(nft.get_approved(token_id).unwrap(), approved);
}

#[test]
fn test_burn() {
    let creator = sender();
    let mut nft = Erc721::new();
    nft.initialize(
        String::from("Test"),
        String::from("TST"),
        String::from("https://test.com/"),
        creator,
    );

    let owner = sender();
    let token_id = nft.mint(owner).unwrap();

    assert!(nft.burn(owner, token_id).is_ok());
    assert_eq!(nft.balance_of(owner), Uint256::zero());
    assert!(nft.owner_of(token_id).is_err());
}

#[test]
fn non_fungible_scenario_delegate_transfer_then_burn() {
    let a = Address::from([0x0au8; 20]);
    let b = Address::from([0x0bu8; 20]);
    let d = Address::from([0x0du8; 20]);
    let mut nft = collection(a);

    let id = nft.mint(a).unwrap();
    assert_eq!(id, Uint256::from(1));
    assert_eq!(nft.approve(a, b, id), Ok(true));
    assert_eq!(nft.transfer_from(b, a, d, id), Ok(true));
    assert_eq!(nft.owner_of(id), Ok(d));
    assert_eq!(nft.get_approved(id), Ok(Address::zero()));
    assert_eq!(nft.balance_of(a), Uint256::zero());
    assert_eq!(nft.balance_of(d), Uint256::from(1));

    assert_eq!(nft.burn(d, id), Ok(true));
    assert_eq!(nft.owner_of(id), Err(Erc721Error::InvalidTokenId { token_id: id }));
    // Minted-ever count, not the live count: the burned token still counts.
    assert_eq!(nft.total_supply(), Uint256::from(1));
}

#[test]
fn token_uri_is_base_then_decimal_id() {
    let a = Address::from([4u8; 20]);
    let mut nft = collection(a);
    for _ in 0..20 {
        nft.mint(a).unwrap();
    }
    assert_eq!(nft.token_uri(Uint256::from(20)), Ok(String::from("https://test.com/20")));
    assert_eq!(nft.token_uri(Uint256::from(7)), Ok(String::from("https://test.com/7")));
    assert_eq!(nft.token_uri(Uint256::zero()), Err(Erc721Error::InvalidTokenId { token_id: Uint256::zero() }));
}

#[test]
fn ids_are_sequential_and_never_reused() {
    let a = Address::from([5u8; 20]);
    let mut nft = collection(a);
    assert_eq!(nft.mint(a), Ok(Uint256::from(1)));
    assert_eq!(nft.mint(a), Ok(Uint256::from(2)));
    nft.burn(a, Uint256::from(2)).unwrap();
    assert_eq!(nft.mint(a), Ok(Uint256::from(3)));
    assert_eq!(nft.balance_of(a), Uint256::from(2));
    assert_eq!(nft.total_supply(), Uint256::from(3));
}

#[test]
fn balances_count_owned_tokens() {
    let a = Address::from([6u8; 20]);
    let b = Address::from([7u8; 20]);
    let mut nft = collection(a);
    let t1 = nft.mint(a).unwrap();
    let t2 = nft.mint(a).unwrap();
    let t3 = nft.mint(b).unwrap();
    nft.transfer_from(a, a, b, t1).unwrap();
    assert_eq!(nft.balance_of(a), Uint256::from(1));
    assert_eq!(nft.balance_of(b), Uint256::from(2));
    nft.burn(b, t3).unwrap();
    assert_eq!(nft.balance_of(b), Uint256::from(1));
    assert_eq!(nft.owner_of(t2), Ok(a));
    assert_eq!(nft.owner_of(t1), Ok(b));
}

#[test]
fn mint_errors() {
    let a = Address::from([8u8; 20]);
    let mut nft = collection(a);
    assert_eq!(nft.mint(Address::zero()), Err(Erc721Error::MintToZeroAddress));
    assert_eq!(nft.total_supply(), Uint256::zero());
}

#[test]
fn nft_transfer_errors() {
    let a = Address::from([9u8; 20]);
    let b = Address::from([10u8; 20]);
    let c = Address::from([11u8; 20]);
    let mut nft = collection(a);
    let id = nft.mint(a).unwrap();
    assert_eq!(
        nft.transfer_from(b, a, c, id),
        Err(Erc721Error::NotOwnerOrApproved { caller: b, token_id: id })
    );
    assert_eq!(nft.transfer_from(a, a, Address::zero(), id), Err(Erc721Error::TransferToZeroAddress));
    assert_eq!(nft.transfer_from(a, b, c, id), Err(Erc721Error::NotOwner { caller: b, token_id: id }));
    assert_eq!(
        nft.transfer_from(a, a, c, Uint256::from(99)),
        Err(Erc721Error::NotOwnerOrApproved { caller: a, token_id: Uint256::from(99) })
    );
    assert_eq!(nft.owner_of(id), Ok(a));
    assert_eq!(nft.safe_transfer_from(a, a, c, id), Ok(true));
    assert_eq!(nft.owner_of(id), Ok(c));
}

#[test]
fn burn_and_approve_errors() {
    let a = Address::from([12u8; 20]);
    let b = Address::from([13u8; 20]);
    let mut nft = collection(a);
    let id = nft.mint(a).unwrap();
    assert_eq!(nft.burn(a, Uint256::from(5)), Err(Erc721Error::InvalidTokenId { token_id: Uint256::from(5) }));
    assert_eq!(nft.burn(b, id), Err(Erc721Error::NotOwnerOrApproved { caller: b, token_id: id }));
    assert_eq!(nft.approve(b, b, id), Err(Erc721Error::NotOwner { caller: b, token_id: id }));
    assert_eq!(
        nft.approve(a, b, Uint256::from(5)),
        Err(Erc721Error::InvalidTokenId { token_id: Uint256::from(5) })
    );
    assert_eq!(nft.get_approved(Uint256::from(5)), Err(Erc721Error::InvalidTokenId { token_id: Uint256::from(5) }));
}

#[test]
fn operator_may_approve_transfer_and_burn() {
    let a = Address::from([14u8; 20]);
    let op = Address::from([15u8; 20]);
    let c = Address::from([16u8; 20]);
    let mut nft = collection(a);
    let t1 = nft.mint(a).unwrap();
    let t2 = nft.mint(a).unwrap();
    assert_eq!(nft.set_approval_for_all(a, op, true), Ok(true));
    assert!(nft.is_approved_for_all(a, op));
    assert!(!nft.is_approved_for_all(op, a));
    assert_eq!(nft.approve(op, c, t1), Ok(true));
    assert_eq!(nft.get_approved(t1), Ok(c));
    assert_eq!(nft.transfer_from(op, a, c, t2), Ok(true));
    assert_eq!(nft.burn(op, t1), Ok(true));
    assert_eq!(
        nft.events().last(),
        Some(&Erc721Event::Transfer { from: a, to: Address::zero(), token_id: t1 })
    );
    nft.set_approval_for_all(a, op, false).unwrap();
    assert!(!nft.is_approved_for_all(a, op));
}

#[test]
fn second_initialize_changes_nothing_on_collection() {
    let a = Address::from([17u8; 20]);
    let mut nft = collection(a);
    nft.initialize(String::from("X"), String::from("Y"), String::from("z://"), Address::from([1u8; 20]));
    assert_eq!(nft.name(), "Test");
    assert_eq!(nft.symbol(), "TST");
    assert_eq!(nft.base_uri(), "https://test.com/");
    assert_eq!(nft.creator(), a);
}
