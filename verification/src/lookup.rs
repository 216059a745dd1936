//! The engine: whether a nickname has been recorded, and what recording it
//! takes.
//!
//! The engine never reaches the store. Its caller fetches the commitments of
//! the nickname's bucket and hands them in; where a commitment has to be
//! written the engine says so, and the caller writes it and reports back.

use vstd::prelude::*;
use crate::hasher::{bcrypt_verdict, index_of, NickHasher};

verus! {

/// A failure of the store, in the words of whoever talked to it.
#[derive(Debug)]
pub struct StoreError {
    pub message: String,
}

/// Why a lookup or a record gave no answer.
#[derive(Debug)]
pub enum LookupError {
    /// A stored commitment could not be read, or none could be created.
    Bcrypt(bcrypt::BcryptError),
    /// The store failed.
    Db(StoreError),
}

/// What a record has to do next.
#[derive(Debug)]
pub enum RecordStep {
    /// Nothing: this is the answer.
    Done(Result<bool, LookupError>),
    /// Write `commitment` under bucket `index`, then report to
    /// [`LookupState::added`].
    Add { index: i32, commitment: String },
}

/// The texts of the stored commitments, in the order they came in.
pub open spec fn texts(stored: Seq<String>) -> Seq<Seq<char>> {
    Seq::new(stored.len(), |i: int| stored[i]@)
}

/// What the store handed over, by its texts.
pub open spec fn fetched_texts(fetched: Result<Vec<String>, StoreError>) -> Result<
    Seq<Seq<char>>,
    StoreError,
> {
    match fetched {
        Ok(stored) => Ok(texts(stored@)),
        Err(failure) => Err(failure),
    }
}

/// The verdict of a lookup of `nick` among `stored`, read front to back:
/// the first commitment that is not a plain mismatch decides. `None` is the
/// unreadable commitment; with none left, the nickname is not there.
pub open spec fn lookup_outcome(nick: Seq<char>, stored: Seq<Seq<char>>) -> Option<bool>
    decreases stored.len(),
{
    if stored.len() == 0 {
        Some(false)
    } else {
        match bcrypt_verdict(nick, stored[0]) {
            Some(false) => lookup_outcome(nick, stored.skip(1)),
            decided => decided,
        }
    }
}

/// The contract of a lookup: a failure of the store is passed on as it is;
/// otherwise the answer is the verdict over the stored commitments, with an
/// error where one of them could not be read.
pub open spec fn lookup_answers(
    nick: Seq<char>,
    fetched: Result<Seq<Seq<char>>, StoreError>,
    answer: Result<bool, LookupError>,
) -> bool {
    match fetched {
        Err(failure) => answer == Err::<bool, LookupError>(LookupError::Db(failure)),
        Ok(stored) => match lookup_outcome(nick, stored) {
            Some(found) => answer == Ok::<bool, LookupError>(found),
            None => answer matches Err(LookupError::Bcrypt(_)),
        },
    }
}

/// The contract of the first step of a record into bucket `index`. Where the
/// lookup answers `true` or fails, that is the reply and nothing is written.
/// Where it answers `false`, the step is to add a commitment that verifies
/// against `nick`, unless none could be created.
pub open spec fn record_allows(
    index: int,
    nick: Seq<char>,
    fetched: Result<Seq<Seq<char>>, StoreError>,
    step: RecordStep,
) -> bool {
    match fetched {
        Err(failure) => step == RecordStep::Done(Err(LookupError::Db(failure))),
        Ok(stored) => match lookup_outcome(nick, stored) {
            None => step matches RecordStep::Done(Err(LookupError::Bcrypt(_))),
            Some(true) => step == RecordStep::Done(Ok(true)),
            Some(false) => match step {
                RecordStep::Add { index: bucket, commitment } => bucket == index && bcrypt_verdict(
                    nick,
                    commitment@,
                ) == Some(true),
                RecordStep::Done(reply) => reply matches Err(LookupError::Bcrypt(_)),
            },
        },
    }
}

/// The reply of a record whose write the store has answered with `written`:
/// `false`, the nickname was not there before, or the failure of the store.
pub open spec fn added_reply(written: Result<(), StoreError>) -> Result<bool, LookupError> {
    match written {
        Ok(_) => Ok(false),
        Err(failure) => Err(LookupError::Db(failure)),
    }
}

/// Commitments that are plain mismatches for `nick` decide nothing: the
/// lookup may as well start behind them.
pub proof fn mismatches_fall_away(nick: Seq<char>, stored: Seq<Seq<char>>, upto: int)
    requires
        0 <= upto <= stored.len(),
        forall|j: int| 0 <= j < upto ==> bcrypt_verdict(nick, #[trigger] stored[j]) == Some(false),
    ensures
        lookup_outcome(nick, stored) == lookup_outcome(nick, stored.skip(upto)),
    decreases upto,
{
    if upto == 0 {
        assert(stored.skip(0) =~= stored);
    } else {
        let rest = stored.skip(1);
        assert forall|j: int| 0 <= j < upto - 1 implies bcrypt_verdict(nick, #[trigger] rest[j])
            == Some(false) by {
            assert(rest[j] == stored[j + 1]);
        }
        mismatches_fall_away(nick, rest, upto - 1);
        assert(rest.skip(upto - 1) =~= stored.skip(upto));
    }
}

/// Whether the commitment at `at` decides the lookup: it is the first that
/// is not a plain mismatch for `nick`.
pub open spec fn decides(nick: Seq<char>, stored: Seq<Seq<char>>, at: int) -> bool {
    &&& 0 <= at < stored.len()
    &&& bcrypt_verdict(nick, stored[at]) != Some(false)
    &&& forall|j: int| 0 <= j < at ==> bcrypt_verdict(nick, #[trigger] stored[j]) == Some(false)
}

/// The commitment that decides a lookup gives it its verdict.
pub proof fn lookup_decided_at(nick: Seq<char>, stored: Seq<Seq<char>>, at: int)
    requires
        decides(nick, stored, at),
    ensures
        lookup_outcome(nick, stored) == bcrypt_verdict(nick, stored[at]),
{
    mismatches_fall_away(nick, stored, at);
    assert(stored.skip(at)[0] == stored[at]);
}

/// A lookup answers `false` exactly where every stored commitment is a plain
/// mismatch; an empty bucket is the first such case.
pub proof fn lookup_misses_iff(nick: Seq<char>, stored: Seq<Seq<char>>)
    ensures
        lookup_outcome(nick, stored) == Some(false) <==> (forall|j: int|
            0 <= j < stored.len() ==> bcrypt_verdict(nick, #[trigger] stored[j]) == Some(false)),
    decreases stored.len(),
{
    if stored.len() > 0 {
        let rest = stored.skip(1);
        lookup_misses_iff(nick, rest);
        if lookup_outcome(nick, stored) == Some(false) {
            assert forall|j: int| 0 <= j < stored.len() implies bcrypt_verdict(
                nick,
                #[trigger] stored[j],
            ) == Some(false) by {
                if j > 0 {
                    assert(stored[j] == rest[j - 1]);
                }
            }
        }
        if forall|j: int|
            0 <= j < stored.len() ==> bcrypt_verdict(nick, #[trigger] stored[j]) == Some(false) {
            assert(bcrypt_verdict(nick, stored[0]) == Some(false));
            assert forall|j: int| 0 <= j < rest.len() implies bcrypt_verdict(
                nick,
                #[trigger] rest[j],
            ) == Some(false) by {
                assert(rest[j] == stored[j + 1]);
            }
        }
    }
}

/// A lookup that does not answer `false` was decided by one of the stored
/// commitments: a match, or one that could not be read.
pub proof fn lookup_decision_point(nick: Seq<char>, stored: Seq<Seq<char>>) -> (at: int)
    requires
        lookup_outcome(nick, stored) != Some(false),
    ensures
        decides(nick, stored, at),
        bcrypt_verdict(nick, stored[at]) == lookup_outcome(nick, stored),
    decreases stored.len(),
{
    if bcrypt_verdict(nick, stored[0]) == Some(false) {
        let rest = stored.skip(1);
        let behind = lookup_decision_point(nick, rest);
        assert(rest[behind] == stored[behind + 1]);
        assert forall|j: int| 0 <= j < behind + 1 implies bcrypt_verdict(
            nick,
            #[trigger] stored[j],
        ) == Some(false) by {
            if j > 0 {
                assert(stored[j] == rest[j - 1]);
            }
        }
        behind + 1
    } else {
        0
    }
}

/// Where every stored commitment can be read and one of them matches, the
/// lookup answers `true`, whatever the order.
pub proof fn lookup_hits_when_readable(nick: Seq<char>, stored: Seq<Seq<char>>, hit: int)
    requires
        0 <= hit < stored.len(),
        bcrypt_verdict(nick, stored[hit]) == Some(true),
        forall|j: int| 0 <= j < stored.len() ==> bcrypt_verdict(nick, #[trigger] stored[j]) is Some,
    ensures
        lookup_outcome(nick, stored) == Some(true),
{
    lookup_misses_iff(nick, stored);
    let at = lookup_decision_point(nick, stored);
    assert(bcrypt_verdict(nick, stored[at]) is Some);
}

/// Two readings of one bucket hold the same commitments: what stands in one
/// stands somewhere in the other.
pub proof fn found_in_other_reading(one: Seq<Seq<char>>, other: Seq<Seq<char>>, j: int) -> (k: int)
    requires
        one.to_multiset() == other.to_multiset(),
        0 <= j < other.len(),
    ensures
        0 <= k < one.len(),
        one[k] == other[j],
{
    one.to_multiset_ensures();
    other.to_multiset_ensures();
    assert(other.contains(other[j]));
    assert(other.to_multiset().count(other[j]) > 0);
    assert(one.to_multiset().count(other[j]) > 0);
    assert(one.contains(other[j]));
    choose|k: int| 0 <= k < one.len() && one[k] == other[j]
}

/// The order in which the store returns a bucket does not matter, as long as
/// every commitment in it can be read.
pub proof fn lookup_ignores_order(nick: Seq<char>, one: Seq<Seq<char>>, other: Seq<Seq<char>>)
    requires
        one.to_multiset() == other.to_multiset(),
        forall|j: int| 0 <= j < one.len() ==> bcrypt_verdict(nick, #[trigger] one[j]) is Some,
    ensures
        lookup_outcome(nick, one) == lookup_outcome(nick, other),
{
    assert forall|j: int| 0 <= j < other.len() implies bcrypt_verdict(nick, #[trigger] other[j])
        is Some by {
        let k = found_in_other_reading(one, other, j);
    }
    lookup_misses_iff(nick, one);
    lookup_misses_iff(nick, other);
    if lookup_outcome(nick, one) == Some(false) {
        assert forall|j: int| 0 <= j < other.len() implies bcrypt_verdict(
            nick,
            #[trigger] other[j],
        ) == Some(false) by {
            let k = found_in_other_reading(one, other, j);
        }
    } else {
        let at = lookup_decision_point(nick, one);
        assert(bcrypt_verdict(nick, one[at]) == Some(true));
        let hit = found_in_other_reading(other, one, at);
        lookup_hits_when_readable(nick, other, hit);
    }
}

/// The engine's state: the hasher, and nothing that changes.
pub struct LookupState {
    hasher: NickHasher,
}

impl View for LookupState {
    type V = Seq<u8>;

    /// The hash key that the engine shards by.
    closed spec fn view(&self) -> Seq<u8> {
        self.hasher@
    }
}

impl LookupState {
    /// An engine that hashes with `hasher`.
    pub fn new(hasher: NickHasher) -> (state: Self)
        ensures
            state@ == hasher@,
    {
        LookupState { hasher }
    }

    /// The hasher of this engine.
    pub fn hasher(&self) -> (hasher: &NickHasher)
        ensures
            hasher@ == self@,
    {
        &self.hasher
    }

    /// Whether `nick` has been recorded, given what the store returned for
    /// its bucket. Stops at the first commitment that matches; a commitment
    /// that cannot be read before that is an error, never a `false`.
    pub fn lookup(&self, nick: &str, fetched: Result<Vec<String>, StoreError>) -> (answer: Result<
        bool,
        LookupError,
    >)
        ensures
            lookup_answers(nick@, fetched_texts(fetched), answer),
    {
        let ghost handed = fetched_texts(fetched);
        match fetched {
            Err(failure) => Err(LookupError::Db(failure)),
            Ok(stored) => {
                let ghost all = texts(stored@);
                let mut i: usize = 0;
                while i < stored.len()
                    invariant
                        i <= stored.len(),
                        all == texts(stored@),
                        handed == Ok::<Seq<Seq<char>>, StoreError>(all),
                        handed == fetched_texts(fetched),
                        forall|j: int|
                            0 <= j < i ==> bcrypt_verdict(nick@, #[trigger] all[j]) == Some(false),
                    decreases stored.len() - i,
                {
                    let checked = self.hasher.check_nick_hash(nick, stored[i].as_str());
                    proof {
                        mismatches_fall_away(nick@, all, i as int);
                        assert(all.skip(i as int)[0] == all[i as int]);
                    }
                    match Self::settle(checked) {
                        Some(answer) => {
                            return answer;
                        },
                        None => {},
                    }
                    i += 1;
                }
                proof {
                    mismatches_fall_away(nick@, all, i as int);
                }
                Ok(false)
            },
        }
    }

    /// What one checked commitment means for a lookup: a mismatch leaves it
    /// open, a match settles it as `true`, and a commitment that could not be
    /// read settles it as that error.
    pub fn settle(checked: Result<bool, bcrypt::BcryptError>) -> (settled: Option<
        Result<bool, LookupError>,
    >)
        ensures
            settled == (match checked {
                Ok(false) => None::<Result<bool, LookupError>>,
                Ok(true) => Some(Ok::<bool, LookupError>(true)),
                Err(unreadable) => Some(Err::<bool, LookupError>(LookupError::Bcrypt(unreadable))),
            }),
    {
        match checked {
            Ok(false) => None,
            Ok(true) => Some(Ok(true)),
            Err(unreadable) => Some(Err(LookupError::Bcrypt(unreadable))),
        }
    }

    /// The first step of recording `nick`, given what the store returned for
    /// its bucket: the reply where the nickname is there already or the
    /// lookup failed, else the commitment to add.
    pub fn record(&self, nick: &str, fetched: Result<Vec<String>, StoreError>) -> (step: RecordStep)
        ensures
            record_allows(index_of(self@, nick@), nick@, fetched_texts(fetched), step),
    {
        let index: i32 = self.hasher.index_for(nick);
        match self.lookup(nick, fetched) {
            Err(failure) => RecordStep::Done(Err(failure)),
            Ok(true) => RecordStep::Done(Ok(true)),
            Ok(false) => Self::commit(index, self.hasher.create_nick_hash(nick)),
        }
    }

    /// The step that follows a lookup that found nothing: add the commitment
    /// that was created under `index`, or reply with the error of creating
    /// it.
    pub fn commit(index: i32, created: Result<String, bcrypt::BcryptError>) -> (step: RecordStep)
        ensures
            step == (match created {
                Ok(commitment) => RecordStep::Add { index, commitment },
                Err(failure) => RecordStep::Done(Err(LookupError::Bcrypt(failure))),
            }),
    {
        match created {
            Ok(commitment) => RecordStep::Add { index, commitment },
            Err(failure) => RecordStep::Done(Err(LookupError::Bcrypt(failure))),
        }
    }

    /// The reply of a record once the store has answered the write: `false`,
    /// the nickname was not there before, or the failure of the store.
    pub fn added(written: Result<(), StoreError>) -> (reply: Result<bool, LookupError>)
        ensures
            reply == added_reply(written),
    {
        match written {
            Ok(_) => Ok(false),
            Err(failure) => Err(LookupError::Db(failure)),
        }
    }
}

} // verus!
