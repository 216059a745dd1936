//! The store as the engine sees it, and what holds of lookups and records
//! that run one after the other against it.
//!
//! The store itself is somebody else's: a table of commitments by bucket.
//! Here it is a mathematical value, so that the engine's contracts can be
//! followed from one call to the next.

use vstd::prelude::*;
use vstd::multiset::Multiset;
use crate::hasher::{bcrypt_verdict, index_of};
use crate::lookup::{
    added_reply, lookup_answers, lookup_decision_point, lookup_hits_when_readable,
    lookup_misses_iff, lookup_outcome, record_allows, LookupError, RecordStep, StoreError,
};

verus! {

/// What a store holds: for each bucket the commitments written under it, as
/// often as they were written and in no order.
pub struct Store {
    pub buckets: Map<int, Multiset<Seq<char>>>,
}

impl Store {
    /// The store before anything was written.
    pub open spec fn empty() -> Store {
        Store { buckets: Map::empty() }
    }

    /// The commitments under `index`; none where nothing was written there.
    pub open spec fn bucket(self, index: int) -> Multiset<Seq<char>> {
        if self.buckets.dom().contains(index) {
            self.buckets[index]
        } else {
            Multiset::empty()
        }
    }

    /// The store with one more row: `commitment` under `index`.
    pub open spec fn add(self, index: int, commitment: Seq<char>) -> Store {
        Store { buckets: self.buckets.insert(index, self.bucket(index).insert(commitment)) }
    }

    /// Whether a fetch of bucket `index` may come back with `fetched`: every
    /// row of the bucket once, in whatever order.
    pub open spec fn may_return(self, index: int, fetched: Seq<Seq<char>>) -> bool {
        fetched.to_multiset() == self.bucket(index)
    }

    /// Whether bucket `index` holds nothing that verifies against `nick` and
    /// nothing that cannot be read.
    pub open spec fn unrecorded(self, index: int, nick: Seq<char>) -> bool {
        forall|c: Seq<char>| self.bucket(index).count(c) > 0 ==> bcrypt_verdict(nick, c) == Some(false)
    }

    /// Whether every commitment in bucket `index` can be read.
    pub open spec fn readable(self, index: int, nick: Seq<char>) -> bool {
        forall|c: Seq<char>| self.bucket(index).count(c) > 0 ==> bcrypt_verdict(nick, c) is Some
    }

    /// Whether bucket `index` holds a commitment of `nick`.
    pub open spec fn holds(self, index: int, nick: Seq<char>) -> bool {
        exists|c: Seq<char>| self.bucket(index).count(c) > 0 && bcrypt_verdict(nick, c) == Some(true)
    }

    /// The store after `step` was carried out and the store took the write,
    /// where there was one.
    pub open spec fn after(self, step: RecordStep) -> Store {
        match step {
            RecordStep::Add { index, commitment } => self.add(index as int, commitment@),
            RecordStep::Done(_) => self,
        }
    }
}

impl RecordStep {
    /// The reply of the record that took this step, `written` being what the
    /// store said to the write, where there was one.
    pub open spec fn reply(self, written: Result<(), StoreError>) -> Result<bool, LookupError> {
        match self {
            RecordStep::Done(reply) => reply,
            RecordStep::Add { .. } => added_reply(written),
        }
    }
}

/// In a store that nothing was written to, no nickname is recorded.
pub proof fn empty_store_records_nothing(index: int, nick: Seq<char>)
    ensures
        Store::empty().unrecorded(index, nick),
        Store::empty().may_return(index, Seq::empty()),
{
    assert(Seq::<Seq<char>>::empty().to_multiset() =~= Multiset::empty()) by {
        Seq::<Seq<char>>::empty().to_multiset_ensures();
    }
}

/// Whatever order the store returns it in, a bucket that holds nothing of
/// `nick` reads as a miss.
pub proof fn unrecorded_reads_as_miss(store: Store, index: int, nick: Seq<char>, fetched: Seq<Seq<char>>)
    requires
        store.unrecorded(index, nick),
        store.may_return(index, fetched),
    ensures
        lookup_outcome(nick, fetched) == Some(false),
{
    fetched.to_multiset_ensures();
    lookup_misses_iff(nick, fetched);
    assert forall|j: int| 0 <= j < fetched.len() implies bcrypt_verdict(nick, #[trigger] fetched[j])
        == Some(false) by {
        assert(fetched.contains(fetched[j]));
        assert(fetched.to_multiset().count(fetched[j]) > 0);
    }
}

/// Once a commitment of `nick` is added to a bucket that read as a miss, the
/// bucket reads as a hit, whatever order the store returns it in.
pub proof fn written_reads_as_hit(
    store: Store,
    index: int,
    nick: Seq<char>,
    fetched: Seq<Seq<char>>,
    fresh: Seq<char>,
    later: Seq<Seq<char>>,
)
    requires
        store.may_return(index, fetched),
        lookup_outcome(nick, fetched) == Some(false),
        bcrypt_verdict(nick, fresh) == Some(true),
        store.add(index, fresh).may_return(index, later),
    ensures
        lookup_outcome(nick, later) == Some(true),
{
    fetched.to_multiset_ensures();
    later.to_multiset_ensures();
    lookup_misses_iff(nick, fetched);
    assert(store.add(index, fresh).bucket(index) =~= store.bucket(index).insert(fresh));
    assert(later.to_multiset().count(fresh) > 0);
    assert(later.contains(fresh));
    let hit = choose|k: int| 0 <= k < later.len() && later[k] == fresh;
    assert forall|j: int| 0 <= j < later.len() implies bcrypt_verdict(nick, #[trigger] later[j])
        is Some by {
        if later[j] != fresh {
            assert(later.contains(later[j]));
            assert(later.to_multiset().count(later[j]) > 0);
            assert(fetched.to_multiset().count(later[j]) > 0);
            assert(fetched.contains(later[j]));
            let k = choose|k: int| 0 <= k < fetched.len() && fetched[k] == later[j];
            assert(bcrypt_verdict(nick, fetched[k]) == Some(false));
        }
    }
    lookup_hits_when_readable(nick, later, hit);
}

/// A lookup of a nickname that was not recorded answers `false`, whatever
/// else the bucket holds and in whatever order the store returns it.
pub proof fn lookup_before_record(
    store: Store,
    key: Seq<u8>,
    nick: Seq<char>,
    fetched: Seq<Seq<char>>,
    answer: Result<bool, LookupError>,
)
    requires
        store.unrecorded(index_of(key, nick), nick),
        store.may_return(index_of(key, nick), fetched),
        lookup_answers(nick, Ok(fetched), answer),
    ensures
        answer == Ok::<bool, LookupError>(false),
{
    unrecorded_reads_as_miss(store, index_of(key, nick), nick, fetched);
}

/// A record that replies leaves the nickname recorded: the bucket holds a
/// commitment of it, the one just written or one that was there before.
pub proof fn record_leaves_recorded(
    before: Store,
    key: Seq<u8>,
    nick: Seq<char>,
    fetched: Seq<Seq<char>>,
    step: RecordStep,
)
    requires
        before.may_return(index_of(key, nick), fetched),
        record_allows(index_of(key, nick), nick, Ok(fetched), step),
        step.reply(Ok(())) is Ok,
    ensures
        before.after(step).holds(index_of(key, nick), nick),
        step is Add ==> before.after(step).readable(index_of(key, nick), nick),
{
    let index = index_of(key, nick);
    fetched.to_multiset_ensures();
    lookup_misses_iff(nick, fetched);
    match step {
        RecordStep::Add { index: bucket, commitment } => {
            let fresh = commitment@;
            let after = before.add(index, fresh);
            assert(after.bucket(index) =~= before.bucket(index).insert(fresh));
            assert(after.bucket(index).count(fresh) > 0);
            assert forall|c: Seq<char>| after.bucket(index).count(c) > 0 implies bcrypt_verdict(
                nick,
                c,
            ) is Some by {
                if c != fresh {
                    assert(fetched.to_multiset().count(c) > 0);
                    assert(fetched.contains(c));
                    let k = choose|k: int| 0 <= k < fetched.len() && fetched[k] == c;
                    assert(bcrypt_verdict(nick, fetched[k]) == Some(false));
                }
            }
        },
        RecordStep::Done(reply) => {
            let at = lookup_decision_point(nick, fetched);
            assert(fetched.contains(fetched[at]));
            assert(before.bucket(index).count(fetched[at]) > 0);
        },
    }
}

/// Nothing that is written takes a nickname out of the store again.
pub proof fn recorded_stays_recorded(
    store: Store,
    index: int,
    nick: Seq<char>,
    bucket: int,
    commitment: Seq<char>,
)
    requires
        store.holds(index, nick),
    ensures
        store.add(bucket, commitment).holds(index, nick),
{
    let c = choose|c: Seq<char>| store.bucket(index).count(c) > 0 && bcrypt_verdict(nick, c) == Some(true);
    if bucket == index {
        assert(store.add(bucket, commitment).bucket(index) =~= store.bucket(index).insert(commitment));
    }
    assert(store.add(bucket, commitment).bucket(index).count(c) > 0);
}

/// A lookup of a nickname that the store holds never answers `false`: it
/// answers `true`, or it fails on a commitment that cannot be read, where
/// the bucket holds one and the store returns it ahead of every match.
pub proof fn lookup_of_recorded(
    store: Store,
    key: Seq<u8>,
    nick: Seq<char>,
    fetched: Seq<Seq<char>>,
    answer: Result<bool, LookupError>,
)
    requires
        store.holds(index_of(key, nick), nick),
        store.may_return(index_of(key, nick), fetched),
        lookup_answers(nick, Ok(fetched), answer),
    ensures
        answer != Ok::<bool, LookupError>(false),
        store.readable(index_of(key, nick), nick) ==> answer == Ok::<bool, LookupError>(true),
{
    let index = index_of(key, nick);
    fetched.to_multiset_ensures();
    lookup_misses_iff(nick, fetched);
    let c = choose|c: Seq<char>| store.bucket(index).count(c) > 0 && bcrypt_verdict(nick, c) == Some(true);
    assert(fetched.contains(c));
    let hit = choose|k: int| 0 <= k < fetched.len() && fetched[k] == c;
    assert(bcrypt_verdict(nick, fetched[hit]) == Some(true));
    if store.readable(index, nick) {
        assert forall|j: int| 0 <= j < fetched.len() implies bcrypt_verdict(nick, #[trigger] fetched[j])
            is Some by {
            assert(fetched.contains(fetched[j]));
            assert(fetched.to_multiset().count(fetched[j]) > 0);
        }
        lookup_hits_when_readable(nick, fetched, hit);
    }
}

/// A nickname stays unrecorded while nothing that verifies against it is
/// written into its bucket: what goes into other buckets does not count, nor
/// do commitments of other nicknames in its own.
pub proof fn unrecorded_stays_unrecorded(
    store: Store,
    index: int,
    nick: Seq<char>,
    bucket: int,
    commitment: Seq<char>,
)
    requires
        store.unrecorded(index, nick),
        bucket == index ==> bcrypt_verdict(nick, commitment) == Some(false),
    ensures
        store.add(bucket, commitment).unrecorded(index, nick),
{
    if bucket == index {
        assert(store.add(bucket, commitment).bucket(index) =~= store.bucket(index).insert(commitment));
    }
}

/// A record writes at most one row, and only into the bucket of its
/// nickname: every other bucket is as it was.
pub proof fn record_touches_one_bucket(
    before: Store,
    key: Seq<u8>,
    nick: Seq<char>,
    fetched: Result<Seq<Seq<char>>, StoreError>,
    step: RecordStep,
    other: int,
)
    requires
        record_allows(index_of(key, nick), nick, fetched, step),
        other != index_of(key, nick),
    ensures
        before.after(step).bucket(other) == before.bucket(other),
        before.after(step).bucket(index_of(key, nick)).len() <= before.bucket(
            index_of(key, nick),
        ).len() + 1,
        step is Done ==> before.after(step) == before,
{
    let index = index_of(key, nick);
    if let RecordStep::Add { index: bucket, commitment } = step {
        assert(before.after(step).bucket(index) =~= before.bucket(index).insert(commitment@));
    }
}

/// A lookup that follows a record of the same nickname never answers
/// `false`. It answers `true` where the record wrote; where the record found
/// the nickname there already it answers `true` as well, unless the bucket
/// holds a commitment that cannot be read and the store returns that one
/// first.
pub proof fn lookup_after_record(
    before: Store,
    key: Seq<u8>,
    nick: Seq<char>,
    fetched: Seq<Seq<char>>,
    step: RecordStep,
    later: Seq<Seq<char>>,
    answer: Result<bool, LookupError>,
)
    requires
        before.may_return(index_of(key, nick), fetched),
        record_allows(index_of(key, nick), nick, Ok(fetched), step),
        step.reply(Ok(())) is Ok,
        before.after(step).may_return(index_of(key, nick), later),
        lookup_answers(nick, Ok(later), answer),
    ensures
        answer != Ok::<bool, LookupError>(false),
        step is Add ==> answer == Ok::<bool, LookupError>(true),
        before.readable(index_of(key, nick), nick) ==> answer == Ok::<bool, LookupError>(true),
{
    record_leaves_recorded(before, key, nick, fetched, step);
    lookup_of_recorded(before.after(step), key, nick, later, answer);
}

/// Recording a nickname twice in a row: the first record, finding nothing,
/// writes one commitment and replies `false`; the second finds it, replies
/// `true` and writes nothing.
pub proof fn record_twice(
    before: Store,
    key: Seq<u8>,
    nick: Seq<char>,
    fetched: Seq<Seq<char>>,
    first: RecordStep,
    later: Seq<Seq<char>>,
    second: RecordStep,
    written: Result<(), StoreError>,
)
    requires
        before.unrecorded(index_of(key, nick), nick),
        before.may_return(index_of(key, nick), fetched),
        record_allows(index_of(key, nick), nick, Ok(fetched), first),
        first.reply(Ok(())) is Ok,
        before.after(first).may_return(index_of(key, nick), later),
        record_allows(index_of(key, nick), nick, Ok(later), second),
    ensures
        first is Add,
        first.reply(Ok(())) == Ok::<bool, LookupError>(false),
        before.after(first).bucket(index_of(key, nick)).len() == before.bucket(
            index_of(key, nick),
        ).len() + 1,
        second == RecordStep::Done(Ok(true)),
        second.reply(written) == Ok::<bool, LookupError>(true),
        before.after(first).after(second) == before.after(first),
{
    let index = index_of(key, nick);
    unrecorded_reads_as_miss(before, index, nick, fetched);
    assert(before.after(first).bucket(index) =~= before.bucket(index).insert(first->commitment@));
    written_reads_as_hit(before, index, nick, fetched, first->commitment@, later);
}

} // verus!
