use magnetite::hasher::NickHasher;
use magnetite::key::{
    create, decode_key, encode_key, key_from_bytes, key_name, setup, KeySetup, KEY_LEN, KEY_TEXT_MAX,
};

const COUNTING: [u8; 16] = [0, 1, 2, 3, 4, 5, 6, 7, 8, 9, 10, 11, 12, 13, 14, 15];

#[test]
fn the_key_has_its_name_and_size() {
    assert_eq!(key_name(), "hash_key");
    assert_eq!(KEY_LEN, 16);
    assert_eq!(KEY_TEXT_MAX, 24);
}

#[test]
fn encode_writes_padded_base64() {
    assert_eq!(encode_key(&[0u8; 16]), "AAAAAAAAAAAAAAAAAAAAAA==");
    assert_eq!(encode_key(&COUNTING), "AAECAwQFBgcICQoLDA0ODw==");
    assert_eq!(encode_key(&[0xff; 16]), "/////////////////////w==");
}

#[test]
fn decode_reads_base64() {
    assert_eq!(decode_key("AAAAAAAAAAAAAAAAAAAAAA=="), Some([0u8; 16]));
    assert_eq!(decode_key("AAECAwQFBgcICQoLDA0ODw=="), Some(COUNTING));
    assert_eq!(decode_key("/////////////////////w=="), Some([0xff; 16]));
    // Padding may be left out.
    assert_eq!(decode_key("AAECAwQFBgcICQoLDA0ODw"), Some(COUNTING));
    assert_eq!(decode_key("AAECAwQFBgcICQoLDA0ODw="), Some(COUNTING));
}

#[test]
fn decode_refuses_what_is_no_key() {
    // Not base64.
    assert_eq!(decode_key("AAECAwQFBgcICQoLDA0OD!=="), None);
    assert_eq!(decode_key("AAECAwQFBgcICQoLDA0ODw==\n"), None);
    assert_eq!(decode_key(" AAECAwQFBgcICQoLDA0ODw="), None);
    // Base64 of too few or too many bytes.
    assert_eq!(decode_key(""), None);
    assert_eq!(decode_key("AAECAwQFBgcICQoLDA0O"), None);
    assert_eq!(decode_key("AAECAwQFBgcICQoLDA0ODxA="), None);
    assert_eq!(decode_key("AAECAwQFBgcICQoLDA0ODxAR"), None);
    // Longer than the text of any key.
    assert_eq!(decode_key("AAECAwQFBgcICQoLDA0ODxAREhM="), None);
    assert_eq!(decode_key("AAECAwQFBgcICQoLDA0ODw==="), None);
    // The last digit holds bits that belong to no byte.
    assert_eq!(decode_key("AAECAwQFBgcICQoLDA0ODx=="), None);
}

#[test]
fn key_from_bytes_wants_sixteen() {
    assert_eq!(key_from_bytes(Some(COUNTING.to_vec())), Some(COUNTING));
    assert_eq!(key_from_bytes(Some(vec![1u8; 15])), None);
    assert_eq!(key_from_bytes(Some(vec![1u8; 17])), None);
    assert_eq!(key_from_bytes(Some(Vec::new())), None);
    assert_eq!(key_from_bytes(None), None);
}

#[test]
fn a_key_survives_being_stored() {
    for key in [[0u8; 16], COUNTING, [0xff; 16], [0x5a; 16]] {
        assert_eq!(decode_key(&encode_key(&key)), Some(key));
    }
}

#[test]
fn setup_uses_the_stored_key() {
    match setup(Some("AAECAwQFBgcICQoLDA0ODw==")) {
        KeySetup::Stored { key } => {
            assert_eq!(key, COUNTING);
            assert_eq!(NickHasher::new(&key).index_for("alice"), 22435);
        }
        _ => panic!("the stored key was not used"),
    }
}

#[test]
fn setup_never_replaces_a_corrupt_key() {
    assert!(matches!(setup(Some("")), KeySetup::Corrupt));
    assert!(matches!(setup(Some("hash_key")), KeySetup::Corrupt));
    assert!(matches!(setup(Some("AAECAwQFBgcICQoLDA0O")), KeySetup::Corrupt));
}

#[test]
fn setup_creates_a_key_where_there_is_none() {
    match setup(None) {
        KeySetup::Created { key, text } => {
            assert_eq!(text.len(), 24);
            assert_eq!(decode_key(&text), Some(key));
            match setup(None) {
                KeySetup::Created { key: other, .. } => assert_ne!(key, other),
                _ => panic!("no key was created"),
            }
        }
        _ => panic!("no key was created"),
    }
}

#[test]
fn create_saves_the_key_it_is_given() {
    match create(COUNTING) {
        KeySetup::Created { key, text } => {
            assert_eq!(key, COUNTING);
            assert_eq!(text, "AAECAwQFBgcICQoLDA0ODw==");
        }
        _ => panic!("no key was created"),
    }
}
