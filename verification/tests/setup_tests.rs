use hay_os::setup::{hash_password, initalize_auth, save_user_config, SetupState, UserSession};

#[test]
fn hash_of_empty_password_is_the_seed() {
    assert_eq!(hash_password(b""), 5381);
}

#[test]
fn hash_follows_djb2() {
    assert_eq!(hash_password(b"a"), 177670);
    assert_eq!(hash_password(b"abc"), 193485963);
    assert_eq!(hash_password(b"secret"), 6954013174763);
}

#[test]
fn hash_wraps_on_long_input() {
    let long = [b'z'; 100];
    let mut h: u64 = 5381;
    for b in long.iter() {
        h = h.wrapping_mul(33).wrapping_add(*b as u64);
    }
    assert_eq!(hash_password(&long), h);
}

#[test]
fn config_sector_layout() {
    let s = save_user_config("bob", 0x0102030405060708);
    assert_eq!(&s[0..4], b"HAY1");
    assert_eq!(s[4], 3);
    assert_eq!(&s[5..8], b"bob");
    assert_eq!(&s[40..48], &[8, 7, 6, 5, 4, 3, 2, 1]);
    assert!(s[8..40].iter().all(|b| *b == 0));
    assert!(s[48..].iter().all(|b| *b == 0));
}

#[test]
fn config_round_trip() {
    let s = save_user_config("alice", 229468867902797);
    let mut session = UserSession::new();
    initalize_auth(&mut session, &s);
    assert_eq!(session.state, SetupState::Complete);
    assert_eq!(session.username, "alice");
    assert_eq!(session.password_hash, 229468867902797);
    assert!(!session.is_admin);
}

#[test]
fn blank_sector_starts_setup() {
    let s = [0u8; 512];
    let mut session = UserSession::new();
    session.state = SetupState::Complete;
    initalize_auth(&mut session, &s);
    assert_eq!(session.state, SetupState::SetupUsername);
    assert_eq!(session.username, "");
    assert_eq!(session.password_hash, 0);
}

#[test]
fn invalid_utf8_name_keeps_old_name() {
    let mut s = save_user_config("ab", 7);
    s[5] = 0xFF;
    let mut session = UserSession::new();
    session.username = String::from("old");
    initalize_auth(&mut session, &s);
    assert_eq!(session.state, SetupState::Complete);
    assert_eq!(session.username, "old");
    assert_eq!(session.password_hash, 7);
}

#[test]
fn long_name_is_overwritten_by_hash() {
    let name = "abcdefghijklmnopqrstuvwxyzabcdefghijklmn";
    assert_eq!(name.len(), 40);
    let s = save_user_config(name, 0);
    assert_eq!(s[4], 40);
    assert_eq!(s[39], b'i');
    assert_eq!(&s[40..48], &[0u8; 8][..]);
    let mut session = UserSession::new();
    initalize_auth(&mut session, &s);
    assert_eq!(session.username, "abcdefghijklmnopqrstuvwxyzabcdefghi\0\0\0\0\0");
}

#[test]
fn name_length_byte_truncates() {
    let name = "x".repeat(300);
    let s = save_user_config(&name, 1);
    assert_eq!(s[4], (300 % 256) as u8);
    assert_eq!(s[5 + 299], b'x');
}
