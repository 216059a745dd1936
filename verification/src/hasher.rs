//! The two hash functions of the service: the keyed bucket index and the
//! salted commitment.

use vstd::prelude::*;
use siphasher::sip::SipHasher;
use std::hash::Hasher;

verus! {

/// The low bits of the digest that make up a bucket index.
pub const INDEX_BITMASK: u64 = 0xffff;

/// The number of buckets: every index is below it.
pub const BUCKETS: i32 = 0x1_0000;

/// The work factor of every commitment this library creates.
pub const BCRYPT_COST: u32 = 12;

/// The SipHash-2-4 digest of `data` under the 16-byte `key`.
///
/// Trusted: this names what `siphasher::sip::SipHasher` computes. The digest
/// depends on the key and the bytes alone.
pub uninterp spec fn sip_digest(key: Seq<u8>, data: Seq<u8>) -> u64;

/// What `bcrypt::verify` makes of `password` against the stored text `hash`:
/// `Some(true)` where they match, `Some(false)` where they do not, `None`
/// where `hash` is not a well-formed bcrypt hash.
///
/// Trusted: this names the result of `bcrypt::verify`, which reads the cost and
/// the salt out of `hash` and depends on nothing else.
pub uninterp spec fn bcrypt_verdict(password: Seq<char>, hash: Seq<char>) -> Option<bool>;

/// The error type of the `bcrypt` crate, carried through unread.
#[verifier::external_type_specification]
#[verifier::external_body]
pub struct ExBcryptError(bcrypt::BcryptError);

/// Trusted: `SipHasher::new_with_key`, `write` and `finish` of `siphasher`,
/// in this order on a fresh hasher, give the SipHash-2-4 digest of `data`
/// under `key`.
#[verifier::external_body]
fn sip_hash(key: &[u8; 16], data: &[u8]) -> (digest: u64)
    ensures
        digest == sip_digest(key@, data@),
{
    let mut hasher = SipHasher::new_with_key(key);
    hasher.write(data);
    hasher.finish()
}

/// Trusted: `bcrypt::verify` returns `Ok` with the match where `hash` parses
/// as a bcrypt hash, and an error where it does not. It does not panic.
#[verifier::external_body]
fn bcrypt_verify(password: &str, hash: &str) -> (r: Result<bool, bcrypt::BcryptError>)
    ensures
        bcrypt_verdict(password@, hash@) == (match r {
            Ok(matched) => Some(matched),
            Err(_) => None,
        }),
{
    bcrypt::verify(password, hash)
}

/// The character of the decimal digit `d`.
pub open spec fn decimal_digit(d: int) -> char {
    if d == 0 {
        '0'
    } else if d == 1 {
        '1'
    } else if d == 2 {
        '2'
    } else if d == 3 {
        '3'
    } else if d == 4 {
        '4'
    } else if d == 5 {
        '5'
    } else if d == 6 {
        '6'
    } else if d == 7 {
        '7'
    } else if d == 8 {
        '8'
    } else {
        '9'
    }
}

/// How a commitment made under the work factor `cost` begins: the version
/// `2b` and the cost in two digits, each behind a dollar sign, and one more
/// dollar sign before the salt.
pub open spec fn cost_prefix(cost: u32) -> Seq<char> {
    seq!['$', '2', 'b', '$', decimal_digit(cost as int / 10), decimal_digit(cost as int % 10), '$']
}

/// Trusted: `bcrypt::hash` draws a fresh salt, so nothing fixes the text it
/// returns; but whatever it returns, `bcrypt::verify` accepts it for the same
/// password, and it is written as version `2b` with the cost that was handed
/// in, in two digits. It fails where the cost is not one that bcrypt takes,
/// or the system has no randomness to give.
#[verifier::external_body]
fn bcrypt_hash(password: &str, cost: u32) -> (r: Result<String, bcrypt::BcryptError>)
    ensures
        r matches Ok(hash) ==> bcrypt_verdict(password@, hash@) == Some(true),
        r matches Ok(hash) ==> cost_prefix(cost).is_prefix_of(hash@),
{
    bcrypt::hash(password, cost)
}

/// The bucket that a digest stands for: its low 16 bits, the rest masked
/// away.
pub open spec fn digest_index(digest: u64) -> int {
    (digest & INDEX_BITMASK) as int
}

/// The bucket of `nick` under `key`: that of the keyed digest of the
/// nickname's UTF-8 bytes.
pub open spec fn index_of(key: Seq<u8>, nick: Seq<char>) -> int {
    digest_index(sip_digest(key, vstd::utf8::encode_utf8(nick)))
}

/// Every bucket index lies in `[0, BUCKETS)`, whatever the key and the
/// nickname.
pub proof fn index_in_range(key: Seq<u8>, nick: Seq<char>)
    ensures
        0 <= index_of(key, nick) < BUCKETS,
{
    let digest: u64 = sip_digest(key, vstd::utf8::encode_utf8(nick));
    assert(digest & 0xffff < 0x1_0000) by (bit_vector);
}

/// Hashes nicknames: to bucket indices under a fixed secret key, and to
/// commitments.
pub struct NickHasher {
    key: [u8; 16],
}

impl View for NickHasher {
    type V = Seq<u8>;

    /// The 16 bytes of the hash key.
    closed spec fn view(&self) -> Seq<u8> {
        self.key@
    }
}

impl NickHasher {
    /// A hasher under `key`.
    pub fn new(key: &[u8; 16]) -> (hasher: Self)
        ensures
            hasher@ == key@,
    {
        NickHasher { key: *key }
    }

    /// The bucket that `digest` stands for.
    pub fn index_of_digest(digest: u64) -> (index: i32)
        ensures
            index == digest_index(digest),
            0 <= index < BUCKETS,
    {
        let masked: u64 = digest & INDEX_BITMASK;
        assert(digest & 0xffff < 0x1_0000) by (bit_vector);
        masked as i32
    }

    /// The bucket of `nick`: the same for the same key and nickname, and
    /// always below `BUCKETS`.
    pub fn index_for(&self, nick: &str) -> (index: i32)
        ensures
            index == index_of(self@, nick@),
            0 <= index < BUCKETS,
    {
        Self::index_of_digest(sip_hash(&self.key, nick.as_bytes()))
    }

    /// Whether `hash` is a commitment of `nick`. A text that is no
    /// commitment at all is an error, not a mismatch.
    pub fn check_nick_hash(&self, nick: &str, hash: &str) -> (r: Result<bool, bcrypt::BcryptError>)
        ensures
            bcrypt_verdict(nick@, hash@) == (match r {
                Ok(matched) => Some(matched),
                Err(_) => None,
            }),
    {
        bcrypt_verify(nick, hash)
    }

    /// A fresh commitment of `nick`, under a salt of its own and under the
    /// work factor `BCRYPT_COST`, which the text carries at its head.
    /// Whatever text comes back verifies against `nick`. Whether one comes
    /// back is for the system to say: it fails where no salt can be drawn.
    pub fn create_nick_hash(&self, nick: &str) -> (r: Result<String, bcrypt::BcryptError>)
        ensures
            r matches Ok(hash) ==> bcrypt_verdict(nick@, hash@) == Some(true),
            r matches Ok(hash) ==> cost_prefix(BCRYPT_COST).is_prefix_of(hash@),
    {
        bcrypt_hash(nick, BCRYPT_COST)
    }
}

} // verus!
