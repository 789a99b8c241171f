use vaultkey::error::VaultError;
use vaultkey::replay::ReplayGuard;

#[test]
fn replay_refused_within_window() {
    let mut g = ReplayGuard::new(60);
    g.check_and_register_at("n1", 1000).unwrap();
    match g.check_and_register_at("n1", 1050) {
        Err(VaultError::Generic(m)) => assert_eq!(m, "Replay detected: nonce 'n1' has already been used"),
        other => panic!("unexpected {:?}", other),
    }
    assert_eq!(g.active_count(), 1);
}

#[test]
fn replay_accepted_after_window() {
    let mut g = ReplayGuard::new(60);
    g.check_and_register_at("n1", 1000).unwrap();
    g.check_and_register_at("n2", 1030).unwrap();
    assert_eq!(g.active_count(), 2);
    g.check_and_register_at("n1", 1061).unwrap();
    assert_eq!(g.active_count(), 2);
}

#[test]
fn replay_purge_at_cutoff() {
    let mut g = ReplayGuard::new(10);
    g.check_and_register_at("a", 100).unwrap();
    g.purge_expired_at(110);
    assert_eq!(g.active_count(), 1);
    g.purge_expired_at(111);
    assert_eq!(g.active_count(), 0);
}

#[test]
fn replay_with_clock() {
    let mut g = ReplayGuard::new(3600);
    g.check_and_register("x").unwrap();
    assert!(g.check_and_register("x").is_err());
    g.purge_expired();
    assert_eq!(g.active_count(), 1);
}
