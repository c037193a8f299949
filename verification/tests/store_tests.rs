use questbot::store::{key, parse_key, UserRepository};
use questbot::user::{InputMode, User};

#[test]
fn key_is_namespaced_decimal() {
    assert_eq!(key(0), b"user:0".to_vec());
    assert_eq!(key(42), b"user:42".to_vec());
    assert_eq!(key(18446744073709551615), b"user:18446744073709551615".to_vec());
}

#[test]
fn parse_key_inverts_key() {
    assert_eq!(parse_key(&key(0)), Some(0));
    assert_eq!(parse_key(&key(42)), Some(42));
    assert_eq!(parse_key(&key(18446744073709551615)), Some(18446744073709551615));
}

#[test]
fn parse_key_rejects_foreign_keys() {
    assert_eq!(parse_key(&b"user:".to_vec()), None);
    assert_eq!(parse_key(&b"user:007".to_vec()), None);
    assert_eq!(parse_key(&b"user:12x".to_vec()), None);
    assert_eq!(parse_key(&b"meta:1".to_vec()), None);
    assert_eq!(parse_key(&b"user:18446744073709551616".to_vec()), None);
    assert_eq!(parse_key(&b"usr".to_vec()), None);
}

#[test]
fn load_absent_yields_default() {
    let repo = UserRepository::new("/tmp/questbot_store_absent").expect("store must open");
    let u = repo.load(123456789);
    assert_eq!(u, User::default());
}

#[test]
fn save_then_load_round_trips() {
    let mut repo = UserRepository::new("/tmp/questbot_store_roundtrip").expect("store must open");
    let mut u = User::default();
    u.level = 5;
    u.xp = 321;
    u.gold = 9;
    u.log = vec!["t - Level up to 5".to_string()];
    u.notes = vec!["a note".to_string()];
    u.input = InputMode::AwaitingNote;
    u.awaiting_ping = true;
    u.last_ping_ts = 1700000000;
    assert!(repo.save(7, &u));
    let back = repo.load(7);
    assert_eq!(back, u);
}

#[test]
fn save_replaces_prior_value() {
    let mut repo = UserRepository::new("/tmp/questbot_store_replace").expect("store must open");
    let mut u = User::default();
    u.gold = 1;
    assert!(repo.save(3, &u));
    u.gold = 2;
    assert!(repo.save(3, &u));
    assert_eq!(repo.load(3).gold, 2);
}

#[test]
fn all_enumerates_saved_records() {
    let mut repo = UserRepository::new("/tmp/questbot_store_all").expect("store must open");
    let mut a = User::default();
    a.xp = 10;
    let mut b = User::default();
    b.xp = 20;
    assert!(repo.save(1, &a));
    assert!(repo.save(2, &b));
    let mut every = repo.all().expect("scan must succeed");
    every.sort_by_key(|p| p.0);
    assert_eq!(every.len(), 2);
    assert_eq!(every[0].0, 1);
    assert_eq!(every[0].1.xp, 10);
    assert_eq!(every[1].0, 2);
    assert_eq!(every[1].1.xp, 20);
}
