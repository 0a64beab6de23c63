use liquidity_pool_factory::address::AddressKey;
use liquidity_pool_factory::guard::{EmergencyGuard, GuardError};
use liquidity_pool_factory::pause::PauseType;

fn key(tag: u8) -> AddressKey {
    let mut bytes = vec![0u8, 0, 0, 18, 0, 0, 0, 0, 0, 0, 0, 0];
    bytes.extend(std::iter::repeat(tag).take(32));
    AddressKey::new(bytes)
}

#[test]
fn test_guard_can_initialize_and_pause_operations() {
    let mut guard = EmergencyGuard::new();
    let admin = key(1);
    let admins = vec![admin.duplicate()];

    guard.initialize(admins, 1u32).unwrap();
    guard.set_pause(&admin, PauseType::TRANSFER, true).unwrap();

    assert!(guard.is_paused(PauseType::TRANSFER));
}

#[test]
fn guard_initialize_twice_is_refused() {
    let mut guard = EmergencyGuard::new();
    assert_eq!(guard.initialize(vec![key(1)], 1), Ok(()));
    assert_eq!(guard.initialize(vec![key(2)], 1), Err(GuardError::AlreadyInitialized));
    let admins = guard.get_admins();
    assert_eq!(admins.len(), 1);
    assert_eq!(admins[0].bytes(), key(1).bytes());
    assert_eq!(guard.threshold(), 1);
}

#[test]
fn guard_refuses_non_admin() {
    let mut guard = EmergencyGuard::new();
    guard.initialize(vec![key(1), key(2)], 1).unwrap();
    assert_eq!(guard.set_pause(&key(3), PauseType::SWAP, true), Err(GuardError::Unauthorized));
    assert!(!guard.is_paused(PauseType::SWAP));
    assert_eq!(guard.paused_bits(), 0);
    assert_eq!(guard.set_pause(&key(2), PauseType::SWAP, true), Ok(()));
    assert!(guard.is_paused(PauseType::SWAP));
}

#[test]
fn uninitialized_guard_has_no_admins() {
    let mut guard = EmergencyGuard::new();
    assert!(!guard.is_initialized());
    assert!(!guard.is_admin(&key(1)));
    assert_eq!(guard.set_pause(&key(1), PauseType::SWAP, true), Err(GuardError::Unauthorized));
}

#[test]
fn restored_guard_keeps_its_state() {
    let guard = EmergencyGuard::from_parts(true, vec![key(4)], 1, PauseType::MINT);
    assert!(guard.is_initialized());
    assert!(guard.is_admin(&key(4)));
    assert!(guard.is_paused(PauseType::MINT));
    assert!(!guard.is_paused(PauseType::BURN));
}
