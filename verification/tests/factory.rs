use liquidity_pool_factory::address::{sort_pair, AddressKey};
use liquidity_pool_factory::factory::{CreatePairError, DataKey, Error, LiquidityPoolFactory};
use liquidity_pool_factory::guard::EmergencyGuard;
use liquidity_pool_factory::pause::PauseType;
use liquidity_pool_factory::host::pair_salt;
use liquidity_pool_factory::registry::PairRegistry;
use soroban_sdk::xdr::{FromXdr, ToXdr};
use soroban_sdk::{Address, Bytes, Env};

/// An address key shaped as the encoding of a contract address.
fn contract(tag: u8) -> AddressKey {
    let mut bytes = vec![0u8, 0, 0, 18, 0, 0, 0, 1];
    bytes.extend(std::iter::repeat(tag).take(32));
    AddressKey::new(bytes)
}

/// An address key shaped as the encoding of an account address.
fn account(tag: u8) -> AddressKey {
    let mut bytes = vec![0u8, 0, 0, 18, 0, 0, 0, 0, 0, 0, 0, 0];
    bytes.extend(std::iter::repeat(tag).take(32));
    AddressKey::new(bytes)
}

/// The address whose encoding the key holds.
fn address(env: &Env, key: &AddressKey) -> Address {
    Address::from_xdr(env, &Bytes::from_slice(env, key.bytes())).unwrap()
}

fn same(a: &AddressKey, b: &AddressKey) -> bool {
    a.bytes() == b.bytes()
}

/// Creates a pair the way the contract does: check, deploy, register.
fn create(factory: &mut LiquidityPoolFactory, a: &AddressKey, b: &AddressKey, pool: &AddressKey) -> AddressKey {
    let env = Env::default();
    match factory.plan_create_pair(&env, a.duplicate(), b.duplicate()) {
        Err(e) => panic!("{}", e.message()),
        Ok(_) => {},
    }
    match factory.create_pair(a.duplicate(), b.duplicate(), pool.duplicate()) {
        Err(e) => panic!("{}", e.message()),
        Ok(p) => p,
    }
}

#[test]
fn test_initialization() {
    let factory = LiquidityPoolFactory::new();
    let token_a = contract(10);
    let token_b = contract(11);
    let result = factory.get_pair(token_a, token_b);
    assert!(result.is_none());
}

#[test]
fn test_pool_creation() {
    let mut factory = LiquidityPoolFactory::new();
    let token_a = contract(20);
    let token_b = contract(21);
    let pool = contract(99);

    let _pool_address = create(&mut factory, &token_a, &token_b, &pool);

    let stored_pair = factory.get_pair(token_a.duplicate(), token_b.duplicate());
    assert!(stored_pair.is_some());

    let stored_pair_rev = factory.get_pair(token_b.duplicate(), token_a.duplicate());
    assert!(stored_pair_rev.is_some());
    assert!(same(&stored_pair.unwrap(), &pool));
    assert!(same(&stored_pair_rev.unwrap(), &pool));
}

#[test]
#[should_panic(expected = "Pair already exists")]
fn test_duplicate_pair_panics() {
    let mut factory = LiquidityPoolFactory::new();
    let token_a = contract(30);
    let token_b = contract(31);

    create(&mut factory, &token_a, &token_b, &contract(90));
    create(&mut factory, &token_a, &token_b, &contract(91));
}

#[test]
fn test_factory_initialize() {
    let mut factory = LiquidityPoolFactory::new();
    let admin = account(1);
    factory.initialize(admin.duplicate()).unwrap();

    let admins = factory.get_admins();
    assert_eq!(admins.len(), 1);
    assert!(same(&admins[0], &admin));
}

#[test]
#[should_panic(expected = "Pair creation is paused")]
fn test_factory_paused_creation() {
    let mut factory = LiquidityPoolFactory::new();
    let admin = account(1);
    factory.initialize(admin.duplicate()).unwrap();

    let create_pair_op = PauseType::CREATE_PAIR;
    assert!(!factory.is_paused(create_pair_op));

    factory.set_operation_paused(admin.duplicate(), create_pair_op, true).unwrap();
    assert!(factory.is_paused(create_pair_op));

    create(&mut factory, &contract(40), &contract(41), &contract(92));
}

#[test]
fn test_factory_other_operation_independent() {
    let mut factory = LiquidityPoolFactory::new();
    let admin = account(1);
    factory.initialize(admin.duplicate()).unwrap();

    let swap_op = PauseType::SWAP;
    let create_pair_op = PauseType::CREATE_PAIR;
    factory.set_operation_paused(admin.duplicate(), swap_op, true).unwrap();

    assert!(factory.is_paused(swap_op));
    assert!(!factory.is_paused(create_pair_op));

    let token_a = contract(50);
    let token_b = contract(51);
    let _pool_address = create(&mut factory, &token_a, &token_b, &contract(93));

    let stored_pair = factory.get_pair(token_a, token_b);
    assert!(stored_pair.is_some());
}

#[test]
fn test_factory_unpause_resumes() {
    let mut factory = LiquidityPoolFactory::new();
    let admin = account(1);
    factory.initialize(admin.duplicate()).unwrap();

    let create_pair_op = PauseType::CREATE_PAIR;
    factory.set_operation_paused(admin.duplicate(), create_pair_op, true).unwrap();
    assert!(factory.is_paused(create_pair_op));

    factory.set_operation_paused(admin.duplicate(), create_pair_op, false).unwrap();
    assert!(!factory.is_paused(create_pair_op));

    let token_a = contract(60);
    let token_b = contract(61);
    let _pool_address = create(&mut factory, &token_a, &token_b, &contract(94));

    let stored_pair = factory.get_pair(token_a, token_b);
    assert!(stored_pair.is_some());
}

#[test]
fn test_factory_unauthorized_pause() {
    let mut factory = LiquidityPoolFactory::new();
    let admin = account(1);
    let non_admin = account(2);
    factory.initialize(admin).unwrap();

    let create_pair_op = PauseType::CREATE_PAIR;
    let res = factory.set_operation_paused(non_admin, create_pair_op, true);
    assert_eq!(res, Err(Error::Unauthorized));
    assert!(!factory.is_paused(create_pair_op));
}

#[test]
fn initialize_twice_is_refused() {
    let mut factory = LiquidityPoolFactory::new();
    assert_eq!(factory.initialize(account(1)), Ok(()));
    assert_eq!(factory.initialize(account(2)), Err(Error::AlreadyInitialized));
    assert!(same(&factory.admin().unwrap(), &account(1)));
    assert_eq!(factory.get_admins().len(), 1);
}

#[test]
fn initialize_over_a_set_up_guard_is_unauthorized() {
    let guard = EmergencyGuard::from_parts(true, vec![account(7)], 1, 0);
    let mut factory = LiquidityPoolFactory::from_parts(None, guard, PairRegistry::new());
    assert_eq!(factory.initialize(account(1)), Err(Error::Unauthorized));
    assert!(factory.admin().is_none());
}

#[test]
fn duplicate_in_reverse_order_is_refused_and_changes_nothing() {
    let mut factory = LiquidityPoolFactory::new();
    let a = contract(70);
    let b = contract(71);
    create(&mut factory, &a, &b, &contract(95));
    assert_eq!(
        factory.create_pair(b.duplicate(), a.duplicate(), contract(96)).err(),
        Some(CreatePairError::PairExists)
    );
    assert!(same(&factory.get_pair(a, b).unwrap(), &contract(95)));
}

#[test]
fn plan_gives_tokens_in_byte_order() {
    let env = Env::default();
    let factory = LiquidityPoolFactory::new();
    let low = contract(3);
    let high = contract(4);
    let (t0, t1, _) = factory.plan_create_pair(&env, high.duplicate(), low.duplicate()).ok().unwrap();
    assert!(same(&t0, &low));
    assert!(same(&t1, &high));
    // An account address sorts before a contract address.
    let (s0, _) = sort_pair(contract(0), account(255));
    assert!(same(&s0, &account(255)));
}

#[test]
fn paused_refusal_comes_before_duplicate_check() {
    let mut factory = LiquidityPoolFactory::new();
    let admin = account(1);
    factory.initialize(admin.duplicate()).unwrap();
    create(&mut factory, &contract(80), &contract(81), &contract(97));
    factory.set_operation_paused(admin, PauseType::CREATE_PAIR, true).unwrap();
    let env = Env::default();
    assert_eq!(
        factory.plan_create_pair(&env, contract(81), contract(80)).err(),
        Some(CreatePairError::Paused)
    );
    assert_eq!(CreatePairError::Paused.message(), "Pair creation is paused");
    assert_eq!(CreatePairError::PairExists.message(), "Pair already exists");
}

#[test]
fn pair_key_is_order_independent() {
    let a = contract(5);
    let b = contract(6);
    match (DataKey::pair(a.duplicate(), b.duplicate()), DataKey::pair(b, a)) {
        (DataKey::Pair(x0, x1), DataKey::Pair(y0, y1)) => {
            assert!(same(&x0, &y0));
            assert!(same(&x1, &y1));
            assert!(same(&x0, &contract(5)));
        },
        _ => panic!("not a pair key"),
    }
}

#[test]
fn prefix_sorts_first_and_keys_compare() {
    let short = AddressKey::new(vec![1, 2]);
    let long = AddressKey::new(vec![1, 2, 0]);
    assert!(short.less_than(&long));
    assert!(!long.less_than(&short));
    assert!(!short.less_than(&short));
    assert!(short.same_as(&short.duplicate()));
    assert!(!short.same_as(&long));
}

#[test]
fn salt_is_sha256_of_the_sorted_pair_in_either_order() {
    let env = Env::default();
    let factory = LiquidityPoolFactory::new();
    let a = contract(12);
    let b = account(9);
    let (t0, t1, salt_ab) = factory.plan_create_pair(&env, a.duplicate(), b.duplicate()).ok().unwrap();
    let (_, _, salt_ba) = factory.plan_create_pair(&env, b.duplicate(), a.duplicate()).ok().unwrap();
    assert_eq!(salt_ab, salt_ba);
    assert_eq!(salt_ab.len(), 32);
    // The account address sorts first.
    assert!(same(&t0, &account(9)));
    assert!(same(&t1, &contract(12)));
    let expected: [u8; 32] = env
        .crypto()
        .sha256(&(address(&env, &b), address(&env, &a)).to_xdr(&env))
        .into();
    assert_eq!(salt_ab, expected.to_vec());
    assert_ne!(&salt_ab, t0.bytes());
    assert_eq!(pair_salt(&env, &t0, &t1), expected.to_vec());
}

#[test]
fn address_encodings_are_recognised() {
    let env = Env::default();
    assert!(contract(33).encodes_address());
    assert!(account(34).encodes_address());
    let key = contract(35);
    let encoded: Bytes = address(&env, &key).to_xdr(&env);
    let bytes: Vec<u8> = encoded.iter().collect();
    assert_eq!(&bytes, key.bytes());
    assert!(!AddressKey::new(vec![0, 0, 0, 18, 0, 0, 0, 1]).encodes_address());
    assert!(!AddressKey::new(vec![0, 0, 0, 17, 0, 0, 0, 1, 0, 0, 0, 0, 0, 0, 0, 0, 0, 0, 0, 0, 0, 0, 0, 0, 0, 0, 0, 0, 0, 0, 0, 0, 0, 0, 0, 0, 0, 0, 0, 0]).encodes_address());
    let mut account_bytes = account(36).bytes().clone();
    account_bytes[8] = 1;
    assert!(!AddressKey::new(account_bytes).encodes_address());
}
