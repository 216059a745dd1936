use magnetite::hasher::{NickHasher, BCRYPT_COST, BUCKETS, INDEX_BITMASK};

const PASSWORD_COMMITMENT: &str = "$2a$04$UuTkLRZZ6QofpDOlMz32MuuxEHA43WOemOYHPz6.SjsVsyO1tDU96";

#[test]
fn index_matches_the_published_siphash_vector() {
    let key: [u8; 16] = [0, 1, 2, 3, 4, 5, 6, 7, 8, 9, 10, 11, 12, 13, 14, 15];
    let hasher = NickHasher::new(&key);
    let nick = "\u{0}\u{1}\u{2}\u{3}\u{4}\u{5}\u{6}\u{7}\u{8}\u{9}\u{a}\u{b}\u{c}\u{d}\u{e}";
    assert_eq!(nick.len(), 15);
    // SipHash-2-4 of these bytes under this key is 0xa129ca6149be45e5.
    assert_eq!(hasher.index_for(nick), 0x45e5);
}

#[test]
fn index_under_the_zero_key() {
    let hasher = NickHasher::new(&[0u8; 16]);
    assert_eq!(hasher.index_for("alice"), 42479);
    assert_eq!(hasher.index_for("bob"), 19122);
    assert_eq!(hasher.index_for(""), 215);
    assert_eq!(hasher.index_for("ünïcödé"), 42543);
    let long = "a".repeat(100);
    assert_eq!(hasher.index_for(&long), 2926);
}

#[test]
fn index_depends_on_the_key() {
    let key: [u8; 16] = [0, 1, 2, 3, 4, 5, 6, 7, 8, 9, 10, 11, 12, 13, 14, 15];
    let hasher = NickHasher::new(&key);
    assert_eq!(hasher.index_for("alice"), 22435);
    assert_eq!(hasher.index_for("bob"), 33908);
    assert_eq!(hasher.index_for(""), 3633);
}

#[test]
fn index_of_digest_keeps_the_low_sixteen_bits() {
    assert_eq!(NickHasher::index_of_digest(0), 0);
    assert_eq!(NickHasher::index_of_digest(0xffff), 65535);
    assert_eq!(NickHasher::index_of_digest(0x1_0000), 0);
    assert_eq!(NickHasher::index_of_digest(u64::MAX), 65535);
    assert_eq!(NickHasher::index_of_digest(0x76211b47297fa5ef), 0xa5ef);
    assert_eq!(NickHasher::index_of_digest(0xa129ca6149be45e5), 0x45e5);
}

#[test]
fn index_is_the_same_on_every_call_and_in_range() {
    let one = NickHasher::new(&[7u8; 16]);
    let other = NickHasher::new(&[7u8; 16]);
    let nicks = ["alice", "bob", "", "ünïcödé", "a much longer nickname than most", "\u{0}"];
    for nick in nicks {
        let index = one.index_for(nick);
        assert_eq!(index, one.index_for(nick));
        assert_eq!(index, other.index_for(nick));
        assert!(0 <= index && index < BUCKETS);
    }
}

#[test]
fn a_created_commitment_verifies() {
    let hasher = NickHasher::new(&[0u8; 16]);
    let commitment = hasher.create_nick_hash("alice").unwrap();
    assert!(commitment.starts_with("$2b$12$"));
    assert_eq!(commitment.len(), 60);
    assert_ne!(commitment, "alice");
    assert!(hasher.check_nick_hash("alice", &commitment).unwrap());
    assert!(!hasher.check_nick_hash("bob", &commitment).unwrap());
}

#[test]
fn two_commitments_of_one_nickname_differ_and_both_verify() {
    let hasher = NickHasher::new(&[0u8; 16]);
    let first = hasher.create_nick_hash("alice").unwrap();
    let second = hasher.create_nick_hash("alice").unwrap();
    assert_ne!(first, second);
    assert!(hasher.check_nick_hash("alice", &first).unwrap());
    assert!(hasher.check_nick_hash("alice", &second).unwrap());
}

#[test]
fn check_tells_a_match_from_a_mismatch() {
    let hasher = NickHasher::new(&[0u8; 16]);
    assert!(hasher.check_nick_hash("password", PASSWORD_COMMITMENT).unwrap());
    assert!(!hasher.check_nick_hash("Password", PASSWORD_COMMITMENT).unwrap());
    assert!(!hasher.check_nick_hash("", PASSWORD_COMMITMENT).unwrap());
    assert!(!hasher.check_nick_hash("$2a$04$UuTkLRZZ6QofpDOlMz32Mu", PASSWORD_COMMITMENT).unwrap());
}

#[test]
fn check_does_not_depend_on_the_key() {
    let one = NickHasher::new(&[0u8; 16]);
    let other = NickHasher::new(&[9u8; 16]);
    assert!(one.check_nick_hash("password", PASSWORD_COMMITMENT).unwrap());
    assert!(other.check_nick_hash("password", PASSWORD_COMMITMENT).unwrap());
}

#[test]
fn check_refuses_what_is_no_commitment() {
    let hasher = NickHasher::new(&[0u8; 16]);
    assert!(matches!(
        hasher.check_nick_hash("alice", "not a commitment"),
        Err(bcrypt::BcryptError::InvalidHash(_))
    ));
    assert!(matches!(hasher.check_nick_hash("alice", ""), Err(bcrypt::BcryptError::InvalidHash(_))));
    assert!(matches!(
        hasher.check_nick_hash("alice", "alice"),
        Err(bcrypt::BcryptError::InvalidHash(_))
    ));
    assert!(matches!(
        hasher.check_nick_hash("password", "$9z$04$UuTkLRZZ6QofpDOlMz32MuuxEHA43WOemOYHPz6.SjsVsyO1tDU96"),
        Err(bcrypt::BcryptError::InvalidPrefix(_))
    ));
    assert!(matches!(
        hasher.check_nick_hash("password", "$2a$xx$UuTkLRZZ6QofpDOlMz32MuuxEHA43WOemOYHPz6.SjsVsyO1tDU96"),
        Err(bcrypt::BcryptError::InvalidCost(_))
    ));
    assert!(matches!(
        hasher.check_nick_hash("password", "$2a$03$UuTkLRZZ6QofpDOlMz32MuuxEHA43WOemOYHPz6.SjsVsyO1tDU96"),
        Err(bcrypt::BcryptError::CostNotAllowed(3))
    ));
    assert!(matches!(
        hasher.check_nick_hash("password", "$2a$04$UuTkLRZZ6QofpDOlMz32MuuxEHA43WOemOYHPz6.SjsVsyO1tDU"),
        Err(bcrypt::BcryptError::InvalidHash(_))
    ));
    assert!(matches!(
        hasher.check_nick_hash("password", "$2a$04$UuTkLRZZ6QofpDOlMz32!uuxEHA43WOemOYHPz6.SjsVsyO1tDU96"),
        Err(bcrypt::BcryptError::InvalidBase64(_))
    ));
}

#[test]
fn constants_are_those_of_the_service() {
    assert_eq!(INDEX_BITMASK, 0xffff);
    assert_eq!(BUCKETS, 65536);
    assert_eq!(BCRYPT_COST, 12);
    assert_eq!(BCRYPT_COST, bcrypt::DEFAULT_COST);
}
