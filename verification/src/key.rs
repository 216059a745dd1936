//! The hash key at rest: sixteen secret bytes, kept by the store as base64
//! text under one well-known name.

use vstd::prelude::*;
use vstd::utf8::encode_utf8;
use rand::RngCore;

verus! {

/// The number of bytes in a hash key.
pub const KEY_LEN: usize = 16;

/// The longest text that can hold a key: 16 bytes make 22 base64 digits, and
/// at most two signs of padding follow them.
pub const KEY_TEXT_MAX: usize = 24;

/// The name under which the store keeps the key.
pub fn key_name() -> (name: &'static str)
    ensures
        name@ == "hash_key"@,
{
    "hash_key"
}

/// The bytes that `base64::decode` reads out of `text` in the standard
/// alphabet, `None` where `text` is not base64.
///
/// Trusted: this names the result of `base64::decode`, which depends on the
/// text alone.
pub uninterp spec fn base64_decoded(text: Seq<char>) -> Option<Seq<u8>>;

/// The text that `base64::encode` writes for `bytes`: base64 in the standard
/// alphabet, padded to a multiple of four characters.
///
/// Trusted: this names the result of `base64::encode`, which depends on the
/// bytes alone.
pub uninterp spec fn base64_encoded(bytes: Seq<u8>) -> Seq<char>;

/// Trusted: `base64::decode` returns the decoded bytes, or an error where the
/// text is not base64. It panics only where the length of the text, plus 7,
/// does not fit the machine's word.
#[verifier::external_body]
fn base64_decode(text: &str) -> (r: Option<Vec<u8>>)
    requires
        encode_utf8(text@).len() + 7 <= usize::MAX,
    ensures
        base64_decoded(text@) == (match r {
            Some(bytes) => Some(bytes@),
            None => None,
        }),
{
    base64::decode(text).ok()
}

/// Trusted: `base64::encode` writes 16 bytes as 24 ASCII characters, padding
/// included, and `base64::decode` reads the same bytes back out of them.
#[verifier::external_body]
fn base64_encode(key: &[u8; 16]) -> (text: String)
    ensures
        text@ == base64_encoded(key@),
        base64_decoded(text@) == Some(key@),
        encode_utf8(text@).len() == KEY_TEXT_MAX,
{
    base64::encode(key.as_slice())
}

/// Trusted: `RngCore::fill_bytes` on `rand::thread_rng()` fills the buffer
/// with random bytes. Nothing is known of them. It panics where the system
/// cannot seed the generator.
#[verifier::external_body]
fn random_key() -> (key: [u8; 16]) {
    let mut key = [0u8; 16];
    rand::thread_rng().fill_bytes(&mut key);
    key
}

/// The key that a stored text stands for: the text is base64, no longer than
/// a key's text can be, and decodes to exactly 16 bytes. Any other text
/// stands for no key.
pub open spec fn stored_key(text: Seq<char>) -> Option<Seq<u8>> {
    if encode_utf8(text).len() > KEY_TEXT_MAX {
        None
    } else {
        match base64_decoded(text) {
            Some(bytes) => if bytes.len() == KEY_LEN {
                Some(bytes)
            } else {
                None
            },
            None => None,
        }
    }
}

/// How the service comes by its key when it starts.
pub enum KeySetup {
    /// The store holds this key: use it.
    Stored { key: [u8; 16] },
    /// The store holds none: save `text` under [`key_name`], then use `key`.
    Created { key: [u8; 16], text: String },
    /// The store holds something that is no key. Nothing recorded under the
    /// lost key can be found again: this is for an operator to look at.
    Corrupt,
}

/// The key that decoded bytes make up: the bytes themselves where there are
/// exactly 16 of them, no key otherwise.
pub fn key_from_bytes(decoded: Option<Vec<u8>>) -> (key: Option<[u8; 16]>)
    ensures
        match key {
            Some(key) => decoded matches Some(bytes) && bytes@ == key@,
            None => decoded matches Some(bytes) ==> bytes@.len() != KEY_LEN,
        },
{
    match decoded {
        None => None,
        Some(bytes) => {
            if bytes.len() != KEY_LEN {
                None
            } else {
                let key: [u8; 16] = [
                    bytes[0],
                    bytes[1],
                    bytes[2],
                    bytes[3],
                    bytes[4],
                    bytes[5],
                    bytes[6],
                    bytes[7],
                    bytes[8],
                    bytes[9],
                    bytes[10],
                    bytes[11],
                    bytes[12],
                    bytes[13],
                    bytes[14],
                    bytes[15],
                ];
                assert(key@ =~= bytes@);
                Some(key)
            }
        },
    }
}

/// Reads a key out of its stored text. A text longer than any key's is
/// turned down unread.
pub fn decode_key(stored: &str) -> (key: Option<[u8; 16]>)
    ensures
        stored_key(stored@) == (match key {
            Some(bytes) => Some(bytes@),
            None => None,
        }),
{
    if stored.as_bytes().len() > KEY_TEXT_MAX {
        None
    } else {
        key_from_bytes(base64_decode(stored))
    }
}

/// The text under which `key` is stored. Reading it gives the key back.
pub fn encode_key(key: &[u8; 16]) -> (text: String)
    ensures
        text@ == base64_encoded(key@),
        stored_key(text@) == Some(key@),
{
    base64_encode(key)
}

/// The setup that creates `fresh` as the key: the text to save reads back as
/// that key.
pub fn create(fresh: [u8; 16]) -> (setup: KeySetup)
    ensures
        setup matches KeySetup::Created { key, text } && key == fresh && text@ == base64_encoded(
            fresh@,
        ) && stored_key(text@) == Some(fresh@),
{
    let text = encode_key(&fresh);
    KeySetup::Created { key: fresh, text }
}

/// The setup for a store that holds `stored` under the key's name. A stored
/// key is used as it is, and a text that is no key is never replaced. Where
/// the store holds nothing, a key is drawn at random.
pub fn setup(stored: Option<&str>) -> (setup: KeySetup)
    ensures
        match stored {
            Some(text) => match stored_key(text@) {
                Some(bytes) => setup matches KeySetup::Stored { key } && key@ == bytes,
                None => setup is Corrupt,
            },
            None => setup matches KeySetup::Created { key, text } && text@ == base64_encoded(key@)
                && stored_key(text@) == Some(key@),
        },
{
    match stored {
        Some(text) => match decode_key(text) {
            Some(key) => KeySetup::Stored { key },
            None => KeySetup::Corrupt,
        },
        None => create(random_key()),
    }
}

} // verus!
