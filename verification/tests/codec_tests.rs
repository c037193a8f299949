use questbot::codec::{decode_user, encode_user};
use questbot::user::{InputMode, User};

fn rich_user() -> User {
    User {
        level: 7,
        xp: 123,
        gold: 42,
        log: vec![
            "01.02 03:04 - Apply (+20 XP, +1 gold)".to_string(),
            "01.02 03:00 - Level up to 7".to_string(),
        ],
        notes: vec!["remember the cover letter".to_string(), "nadsiłać résumé ✉".to_string()],
        input: InputMode::AwaitingNote,
        awaiting_ping: true,
        last_ping_ts: -1234567890123,
    }
}

#[test]
fn round_trip_rich_record() {
    let u = rich_user();
    let bytes = encode_user(&u);
    let back = decode_user(bytes.as_slice()).expect("a record the encoder wrote must decode");
    assert_eq!(back, u);
}

#[test]
fn round_trip_default_record() {
    let u = User::default();
    let bytes = encode_user(&u);
    let back = decode_user(bytes.as_slice()).expect("a record the encoder wrote must decode");
    assert_eq!(back, u);
}

#[test]
fn round_trip_keeps_ordering() {
    let mut u = User::default();
    u.log = vec!["c".to_string(), "b".to_string(), "a".to_string()];
    u.notes = vec!["2".to_string(), "1".to_string()];
    let back = decode_user(encode_user(&u).as_slice()).unwrap();
    assert_eq!(back.log, vec!["c", "b", "a"]);
    assert_eq!(back.notes, vec!["2", "1"]);
}

#[test]
fn empty_input_is_rejected() {
    assert!(decode_user(&[]).is_none());
}

#[test]
fn truncated_input_is_rejected() {
    let bytes = encode_user(&rich_user());
    let cut = &bytes[..bytes.len() - 1];
    assert!(decode_user(cut).is_none());
}

#[test]
fn trailing_bytes_are_rejected() {
    let mut bytes = encode_user(&rich_user());
    bytes.push(0);
    assert!(decode_user(bytes.as_slice()).is_none());
}

#[test]
fn invariant_breaking_record_is_rejected() {
    let mut u = User::default();
    u.level = 0;
    let bytes = encode_user(&u);
    assert!(decode_user(bytes.as_slice()).is_none());

    let mut v = User::default();
    v.level = 2;
    v.xp = 200;
    let bytes2 = encode_user(&v);
    assert!(decode_user(bytes2.as_slice()).is_none());
}

#[test]
fn garbage_is_rejected() {
    let junk: Vec<u8> = (0..64u8).map(|b| b.wrapping_mul(37).wrapping_add(11)).collect();
    assert!(decode_user(junk.as_slice()).is_none());
}
