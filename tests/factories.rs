use ledger_factory::registry::instance_address;
use ledger_factory::{Address, FactoryError, NftFactory, TokenFactory, Uint256};

fn sender() -> Address {
    Address::from([0xa1u8; 20])
}

fn factory_address() -> Address {
    Address::from([0xf0u8; 20])
}

fn implementation() -> Address {
    Address::from([0x1au8; 20])
}

fn token_factory() -> TokenFactory {
    let mut factory = TokenFactory::new(factory_address());
    factory.initialize(implementation()).unwrap();
    factory
}

fn nft_factory() -> NftFactory {
    let mut factory = NftFactory::new(factory_address());
    factory.initialize(implementation()).unwrap();
    factory
}

#[test]
fn test_factory_create_token() {
    let mut factory = token_factory();

    let (token_addr, token) = factory
        .create_token(
            sender(),
            String::from("MyToken"),
            String::from("MTK"),
            Uint256::from(18),
            Uint256::from(1000000),
        )
        .unwrap();

    assert_ne!(token_addr, Address::zero());
    assert_eq!(factory.get_token_count(), Uint256::from(1));
    assert_eq!(factory.get_token_by_creator(sender()), token_addr);
    assert_eq!(token.balance_of(sender()), Uint256::from(1000000));
}

#[test]
fn test_multiple_users_create_tokens() {
    let mut factory = token_factory();

    let (token_a, _) = factory
        .create_token(
            sender(),
            String::from("TokenA"),
            String::from("TKA"),
            Uint256::from(18),
            Uint256::from(1000000),
        )
        .unwrap();

    let user_b = Address::from([1u8; 20]);

    assert_eq!(factory.get_token_count(), Uint256::from(1));
    assert_ne!(token_a, Address::zero());

    let (token_b, _) = factory
        .create_token(user_b, String::from("TokenB"), String::from("TKB"), Uint256::from(18), Uint256::from(20))
        .unwrap();
    assert_ne!(token_a, token_b);
    assert_eq!(factory.get_token_by_creator(user_b), token_b);
    assert_eq!(factory.get_token_by_creator(sender()), token_a);
    assert_eq!(factory.get_token_id(token_b), Uint256::from(1));
}

#[test]
fn test_factory_create_collection() {
    let mut factory = nft_factory();

    let (collection_addr, _collection) = factory
        .create_collection(
            sender(),
            String::from("MyNFTs"),
            String::from("MNFT"),
            String::from("https://example.com/metadata/"),
        )
        .unwrap();

    assert_ne!(collection_addr, Address::zero());
    assert_eq!(factory.get_collection_count(), Uint256::from(1));
    assert_eq!(factory.get_collection_by_creator(sender()), collection_addr);
}

#[test]
fn test_multiple_users_create_collections() {
    let mut factory = nft_factory();

    let (collection_a, _) = factory
        .create_collection(
            sender(),
            String::from("Apes"),
            String::from("APE"),
            String::from("ipfs://apes/"),
        )
        .unwrap();

    assert_eq!(factory.get_collection_count(), Uint256::from(1));
    assert_ne!(collection_a, Address::zero());
}

#[test]
fn created_collection_is_initialized_for_its_creator() {
    let mut factory = nft_factory();
    let (address, collection) = factory
        .create_collection(sender(), String::from("Apes"), String::from("APE"), String::from("ipfs://apes/"))
        .unwrap();
    assert_eq!(collection.name(), "Apes");
    assert_eq!(collection.symbol(), "APE");
    assert_eq!(collection.base_uri(), "ipfs://apes/");
    assert_eq!(collection.creator(), sender());
    assert_eq!(collection.total_supply(), Uint256::zero());
    assert_eq!(factory.get_collection_by_id(Uint256::zero()), address);
    assert_eq!(factory.get_collection_id(address), Uint256::zero());
    let event = &factory.events()[0];
    assert_eq!(event.creator, sender());
    assert_eq!(event.collection_address, address);
    assert_eq!(event.base_uri, "ipfs://apes/");
    assert_eq!(event.collection_id, Uint256::zero());
}

#[test]
fn creation_without_implementation_is_refused() {
    let mut factory = NftFactory::new(factory_address());
    assert_eq!(
        factory
            .create_collection(sender(), String::from("A"), String::from("B"), String::from("c/"))
            .map(|(a, _)| a),
        Err(FactoryError::InvalidImplementation)
    );
    assert_eq!(factory.get_collection_count(), Uint256::zero());
    let mut tokens = TokenFactory::new(factory_address());
    assert!(tokens
        .create_token(sender(), String::from("A"), String::from("B"), Uint256::from(18), Uint256::from(1))
        .is_err());
    assert_eq!(tokens.get_token_count(), Uint256::zero());
}

#[test]
fn implementation_is_set_once() {
    let mut factory = NftFactory::new(factory_address());
    assert_eq!(factory.get_implementation(), Address::zero());
    assert_eq!(factory.initialize(Address::zero()), Err(FactoryError::InvalidImplementation));
    assert_eq!(factory.initialize(implementation()), Ok(()));
    assert_eq!(factory.initialize(Address::from([2u8; 20])), Err(FactoryError::AlreadyInitialized));
    assert_eq!(factory.get_implementation(), implementation());
}

#[test]
fn instance_addresses_are_predictable() {
    let mut factory = nft_factory();
    let predicted0 = instance_address(&factory_address(), &implementation(), &Uint256::zero());
    let predicted1 = instance_address(&factory_address(), &implementation(), &Uint256::from(1));
    assert_eq!(predicted0, instance_address(&factory_address(), &implementation(), &Uint256::zero()));
    assert_ne!(predicted0, predicted1);
    assert_ne!(predicted0, factory_address());
    let (a0, _) = factory
        .create_collection(Address::from([5u8; 20]), String::from("A"), String::from("A"), String::from("a/"))
        .unwrap();
    let (a1, _) = factory
        .create_collection(Address::from([6u8; 20]), String::from("B"), String::from("B"), String::from("b/"))
        .unwrap();
    assert_eq!(a0, predicted0);
    assert_eq!(a1, predicted1);
    let other = instance_address(&Address::from([0xf1u8; 20]), &implementation(), &Uint256::zero());
    assert_ne!(other, predicted0);
}

#[test]
fn pagination_is_bounded() {
    let mut factory = token_factory();
    let mut created = Vec::new();
    for k in 0..5u8 {
        let (a, _) = factory
            .create_token(Address::from([k + 1; 20]), String::from("T"), String::from("T"), Uint256::from(18), Uint256::from(1))
            .unwrap();
        created.push(a);
    }
    assert_eq!(factory.get_tokens(Uint256::zero(), Uint256::from(10)), created);
    assert_eq!(factory.get_tokens(Uint256::from(1), Uint256::from(2)), created[1..3].to_vec());
    assert_eq!(factory.get_tokens(Uint256::from(3), Uint256::from(100)), created[3..5].to_vec());
    assert_eq!(factory.get_tokens(Uint256::from(5), Uint256::from(1)), Vec::<Address>::new());
    assert_eq!(factory.get_tokens(Uint256::from(9), Uint256::from(1)), Vec::<Address>::new());
    assert_eq!(factory.get_tokens(Uint256::from(2), Uint256::zero()), Vec::<Address>::new());
    let huge = Uint256 { hi: u128::MAX, lo: u128::MAX };
    assert_eq!(factory.get_tokens(Uint256::from(4), huge), created[4..5].to_vec());
    assert_eq!(factory.get_tokens(huge, huge), Vec::<Address>::new());
}

#[test]
fn absent_lookups_give_sentinels() {
    let factory = token_factory();
    assert_eq!(factory.get_token_by_id(Uint256::from(3)), Address::zero());
    assert_eq!(factory.get_token_by_creator(sender()), Address::zero());
    assert_eq!(factory.get_token_id(Address::from([9u8; 20])), Uint256::zero());
}

#[test]
fn created_token_reports_its_creation() {
    let mut factory = token_factory();
    let (address, token) = factory
        .create_token(sender(), String::from("MyToken"), String::from("MTK"), Uint256::from(6), Uint256::from(500))
        .unwrap();
    assert_eq!(token.decimals(), Uint256::from(6));
    assert_eq!(token.total_supply(), Uint256::from(500));
    assert_eq!(token.creator(), sender());
    let event = &factory.events()[0];
    assert_eq!(event.token_address, address);
    assert_eq!(event.name, "MyToken");
    assert_eq!(event.initial_supply, Uint256::from(500));
    assert_eq!(event.token_id, Uint256::zero());
}
