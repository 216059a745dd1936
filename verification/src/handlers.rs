//! The request boundary: what a request body is turned into, and what the
//! engine's answers look like on the wire.
//!
//! A request carries a nickname as its raw body. The two endpoints differ in
//! what they do once the store has returned the nickname's bucket; both start
//! with [`accept`].

use vstd::prelude::*;
use vstd::utf8::{decode_utf8, encode_utf8, encode_utf8_decode_utf8, valid_utf8};
use crate::hasher::{bcrypt_verdict, index_of};
use crate::lookup::{lookup_outcome, fetched_texts, LookupError, LookupState, RecordStep, StoreError};

verus! {

/// The status of a request that was served.
pub const OK: u16 = 200;

/// The status of a request whose body is no nickname.
pub const BAD_REQUEST: u16 = 400;

/// The status of a request that the store or a commitment failed. The reply
/// says nothing of the cause.
pub const INTERNAL_SERVER_ERROR: u16 = 500;

/// A reply on the wire.
#[derive(Debug)]
pub struct Reply {
    pub status: u16,
    pub body: &'static str,
}

impl View for Reply {
    type V = (u16, Seq<char>);

    /// The status and the characters of the body.
    open spec fn view(&self) -> (u16, Seq<char>) {
        (self.status, self.body@)
    }
}

/// What becomes of a request body.
#[derive(Debug)]
pub enum Admission {
    /// The body is no UTF-8: this is the reply.
    Refuse(Reply),
    /// The body is the nickname `nick`: fetch the commitments of bucket
    /// `index`, then go on with the endpoint's handler.
    Fetch { nick: String, index: i32 },
}

/// What a record does once the bucket is there.
#[derive(Debug)]
pub enum Recording {
    /// This is the reply.
    Respond(Reply),
    /// Write `commitment` under bucket `index`, then reply with
    /// [`recorded`].
    Add { index: i32, commitment: String },
}

/// The reply to a lookup that the engine answered with `answer`: the answer
/// in words, or a bare server error.
pub open spec fn lookup_response(answer: Result<bool, LookupError>) -> (u16, Seq<char>) {
    match answer {
        Ok(true) => (OK, "true"@),
        Ok(false) => (OK, "false"@),
        Err(_) => (INTERNAL_SERVER_ERROR, ""@),
    }
}

/// The reply to a record that the engine answered with `answer`: an empty
/// success, whether the nickname was there before or not, or a bare server
/// error.
pub open spec fn record_response(answer: Result<bool, LookupError>) -> (u16, Seq<char>) {
    match answer {
        Ok(_) => (OK, ""@),
        Err(_) => (INTERNAL_SERVER_ERROR, ""@),
    }
}

/// The reply to a lookup of `nick`, by what the store returned.
pub open spec fn lookup_reply(nick: Seq<char>, fetched: Result<Seq<Seq<char>>, StoreError>) -> (
    u16,
    Seq<char>,
) {
    match fetched {
        Err(_) => (INTERNAL_SERVER_ERROR, ""@),
        Ok(stored) => match lookup_outcome(nick, stored) {
            Some(true) => (OK, "true"@),
            Some(false) => (OK, "false"@),
            None => (INTERNAL_SERVER_ERROR, ""@),
        },
    }
}

/// The contract of a record at the boundary, for bucket `index`. A failure
/// of the store or an unreadable commitment is a server error; a nickname
/// that is there already is an empty success with nothing written; one that
/// is not there has a commitment of its own added, unless none could be
/// created, which is a server error again.
pub open spec fn recording_allows(
    index: int,
    nick: Seq<char>,
    fetched: Result<Seq<Seq<char>>, StoreError>,
    recording: Recording,
) -> bool {
    match fetched {
        Err(_) => recording matches Recording::Respond(reply) && reply@ == (
            INTERNAL_SERVER_ERROR,
            ""@,
        ),
        Ok(stored) => match lookup_outcome(nick, stored) {
            None => recording matches Recording::Respond(reply) && reply@ == (
                INTERNAL_SERVER_ERROR,
                ""@,
            ),
            Some(true) => recording matches Recording::Respond(reply) && reply@ == (OK, ""@),
            Some(false) => match recording {
                Recording::Add { index: bucket, commitment } => bucket == index && bcrypt_verdict(
                    nick,
                    commitment@,
                ) == Some(true),
                Recording::Respond(reply) => reply@ == (INTERNAL_SERVER_ERROR, ""@),
            },
        },
    }
}

/// Trusted: `String::from_utf8` returns the string whose UTF-8 bytes are
/// `bytes`, and fails exactly where `bytes` is not UTF-8.
#[verifier::external_body]
fn string_from_utf8(bytes: Vec<u8>) -> (text: Option<String>)
    ensures
        match text {
            Some(text) => valid_utf8(bytes@) && encode_utf8(text@) == bytes@,
            None => !valid_utf8(bytes@),
        },
{
    String::from_utf8(bytes).ok()
}

/// The reply to a body that is no nickname.
pub fn bad_request() -> (reply: Reply)
    ensures
        reply@ == (BAD_REQUEST, ""@),
{
    Reply { status: BAD_REQUEST, body: "" }
}

/// The reply to a lookup that the engine answered with `answer`.
pub fn reply_to_lookup(answer: Result<bool, LookupError>) -> (reply: Reply)
    ensures
        reply@ == lookup_response(answer),
{
    match answer {
        Ok(true) => Reply { status: OK, body: "true" },
        Ok(false) => Reply { status: OK, body: "false" },
        Err(_) => Reply { status: INTERNAL_SERVER_ERROR, body: "" },
    }
}

/// The reply to a record that the engine answered with `answer`.
pub fn reply_to_record(answer: Result<bool, LookupError>) -> (reply: Reply)
    ensures
        reply@ == record_response(answer),
{
    match answer {
        Ok(_) => Reply { status: OK, body: "" },
        Err(_) => Reply { status: INTERNAL_SERVER_ERROR, body: "" },
    }
}

/// Takes a request body in: a body that is UTF-8 is the nickname, and its
/// bucket is to be fetched; any other body is refused as a bad request.
pub fn accept(state: &LookupState, body: Vec<u8>) -> (admission: Admission)
    ensures
        match admission {
            Admission::Fetch { nick, index } => {
                &&& valid_utf8(body@)
                &&& nick@ == decode_utf8(body@)
                &&& encode_utf8(nick@) == body@
                &&& index == index_of(state@, nick@)
            },
            Admission::Refuse(reply) => !valid_utf8(body@) && reply@ == (BAD_REQUEST, ""@),
        },
{
    match string_from_utf8(body) {
        Some(nick) => {
            proof {
                encode_utf8_decode_utf8(nick@);
            }
            let index: i32 = state.hasher().index_for(nick.as_str());
            Admission::Fetch { nick, index }
        },
        None => Admission::Refuse(bad_request()),
    }
}

/// Answers a lookup of `nick`, given what the store returned for its
/// bucket.
pub fn lookup(state: &LookupState, nick: &str, fetched: Result<Vec<String>, StoreError>) -> (reply:
    Reply)
    ensures
        reply@ == lookup_reply(nick@, fetched_texts(fetched)),
{
    reply_to_lookup(state.lookup(nick, fetched))
}

/// Goes on with a record of `nick`, given what the store returned for its
/// bucket.
pub fn record(state: &LookupState, nick: &str, fetched: Result<Vec<String>, StoreError>) -> (recording:
    Recording)
    ensures
        recording_allows(index_of(state@, nick@), nick@, fetched_texts(fetched), recording),
{
    match state.record(nick, fetched) {
        RecordStep::Done(answer) => Recording::Respond(reply_to_record(answer)),
        RecordStep::Add { index, commitment } => Recording::Add { index, commitment },
    }
}

/// Ends a record whose write the store answered with `written`: an empty
/// success, or a server error where the store failed.
pub fn recorded(written: Result<(), StoreError>) -> (reply: Reply)
    ensures
        reply@ == (if written is Ok {
            (OK, ""@)
        } else {
            (INTERNAL_SERVER_ERROR, ""@)
        }),
{
    reply_to_record(LookupState::added(written))
}

} // verus!
