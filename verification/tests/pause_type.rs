use liquidity_pool_factory::address::AddressKey;
use liquidity_pool_factory::pause::PauseType;

fn key(tag: u8) -> AddressKey {
    let mut bytes = vec![0u8, 0, 0, 18, 0, 0, 0, 1];
    bytes.extend(std::iter::repeat(tag).take(32));
    AddressKey::new(bytes)
}

#[test]
fn test_emergency_guard_initialization() {
    let admin1 = key(1);
    let admin2 = key(2);
    let admins = vec![admin1.duplicate(), admin2.duplicate()];
    assert_eq!(admins.len(), 2);

    let pause_state = PauseType::new(0);
    assert_eq!(pause_state.0, 0);
}

#[test]
fn test_granular_pause_types() {
    let mut pause = PauseType::new(0);

    pause.set_paused(PauseType::SWAP, true);
    assert!(pause.is_paused(PauseType::SWAP));
    assert!(!pause.is_paused(PauseType::DEPOSIT));

    pause.set_paused(PauseType::DEPOSIT, true);
    assert!(pause.is_paused(PauseType::SWAP));
    assert!(pause.is_paused(PauseType::DEPOSIT));

    pause.set_paused(PauseType::WITHDRAW, true);
    assert!(pause.is_paused(PauseType::SWAP));
    assert!(pause.is_paused(PauseType::DEPOSIT));
    assert!(pause.is_paused(PauseType::WITHDRAW));

    pause.set_paused(PauseType::SWAP, false);
    assert!(!pause.is_paused(PauseType::SWAP));
    assert!(pause.is_paused(PauseType::DEPOSIT));
    assert!(pause.is_paused(PauseType::WITHDRAW));
}

#[test]
fn test_pause_all_and_unpause_all() {
    let mut pause = PauseType::new(0);

    pause.pause_all();
    assert!(pause.is_paused(PauseType::SWAP));
    assert!(pause.is_paused(PauseType::DEPOSIT));
    assert!(pause.is_paused(PauseType::WITHDRAW));
    assert!(pause.is_paused(PauseType::TRANSFER));
    assert!(pause.is_paused(PauseType::MINT));
    assert!(pause.is_paused(PauseType::BURN));

    pause.unpause_all();
    assert!(!pause.is_paused(PauseType::SWAP));
    assert!(!pause.is_paused(PauseType::DEPOSIT));
    assert!(!pause.is_paused(PauseType::WITHDRAW));
    assert!(!pause.is_paused(PauseType::TRANSFER));
    assert!(!pause.is_paused(PauseType::MINT));
    assert!(!pause.is_paused(PauseType::BURN));
}

#[test]
fn test_multiple_pause_types() {
    let mut pause = PauseType::new(0);

    let combined = PauseType::SWAP | PauseType::DEPOSIT | PauseType::MINT;
    pause.set_paused(combined, true);

    assert!(pause.is_paused(PauseType::SWAP));
    assert!(pause.is_paused(PauseType::DEPOSIT));
    assert!(!pause.is_paused(PauseType::WITHDRAW));
    assert!(pause.is_paused(PauseType::MINT));
    assert!(!pause.is_paused(PauseType::BURN));
}

#[test]
fn set_paused_gives_exact_bitmask() {
    let mut pause = PauseType::new(0b1010);
    pause.set_paused(0b0110, true);
    assert_eq!(pause.0, 0b1110);
    pause.set_paused(0b1100, false);
    assert_eq!(pause.0, 0b0010);
}

#[test]
fn set_paused_twice_is_set_once() {
    let mut once = PauseType::new(5);
    once.set_paused(PauseType::MINT, true);
    let mut twice = PauseType::new(5);
    twice.set_paused(PauseType::MINT, true);
    twice.set_paused(PauseType::MINT, true);
    assert_eq!(once.0, twice.0);
}

#[test]
fn pause_all_keeps_unknown_bits_and_covers_create_pair() {
    let mut pause = PauseType::new(1 << 20);
    pause.pause_all();
    assert_eq!(pause.0, (1 << 20) | PauseType::ALL);
    assert!(pause.is_paused(PauseType::CREATE_PAIR));
    pause.unpause_all();
    assert_eq!(pause.0, 0);
}

#[test]
fn empty_mask_is_never_paused() {
    let mut pause = PauseType::new(0);
    pause.pause_all();
    assert!(!pause.is_paused(0));
}
