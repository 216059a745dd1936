//! Records of one nickname that run at the same time.
//!
//! A record reads the bucket and writes into it in two separate moves, and
//! nothing keeps another record of the same nickname from moving in between.
//! Two of them may both find nothing and both write. This module follows
//! every way such calls can interleave and shows what holds in all of them:
//! each write that lands is a commitment of the nickname, a call replies
//! `true` only once a write has landed, and from then on every lookup finds
//! the nickname.

use vstd::prelude::*;
use vstd::multiset::Multiset;
use crate::hasher::bcrypt_verdict;
use crate::lookup::{
    added_reply, lookup_answers, lookup_hits_when_readable,
    lookup_misses_iff, lookup_outcome, record_allows, LookupError, RecordStep, StoreError,
};

verus! {

/// How far one of the racing calls has come.
pub enum Call {
    /// It waits for the store to return the bucket.
    Reading,
    /// It found nothing, made this commitment, and waits for the store to
    /// take it.
    Writing(Seq<char>),
    /// It has replied.
    Replied(Result<bool, LookupError>),
}

/// A moment in a race of records of one nickname for one bucket.
pub struct Race {
    /// What the bucket held when the calls came in.
    pub found: Multiset<Seq<char>>,
    /// The commitments written since, in the order the store took them.
    pub landed: Seq<Seq<char>>,
    /// The calls, each as far as it has come.
    pub calls: Seq<Call>,
}

/// How many of `calls` have replied `false`: each of them wrote.
pub open spec fn wrote(calls: Seq<Call>) -> nat
    decreases calls.len(),
{
    if calls.len() == 0 {
        0
    } else {
        wrote(calls.drop_last()) + if calls.last() == Call::Replied(Ok(false)) {
            1nat
        } else {
            0nat
        }
    }
}

impl Race {
    /// What the bucket holds at this moment.
    pub open spec fn bucket(self) -> Multiset<Seq<char>> {
        self.found.add(self.landed.to_multiset())
    }

    /// The start: nothing of `nick` is in the bucket and nothing in it is
    /// unreadable, no call has heard from the store, nothing was written.
    pub open spec fn begins(self, nick: Seq<char>) -> bool {
        &&& forall|c: Seq<char>| self.found.count(c) > 0 ==> bcrypt_verdict(nick, c) == Some(false)
        &&& self.landed.len() == 0
        &&& forall|i: int| 0 <= i < self.calls.len() ==> #[trigger] self.calls[i] is Reading
    }

    /// The store answers the read of a call: with `fetched`, which is the
    /// bucket of this moment in some order unless the store failed, and the
    /// call takes `step` and is at `next` thereafter.
    pub open spec fn hears(
        self,
        index: int,
        nick: Seq<char>,
        fetched: Result<Seq<Seq<char>>, StoreError>,
        step: RecordStep,
        next: Call,
    ) -> bool {
        &&& fetched matches Ok(rows) ==> rows.to_multiset() == self.bucket()
        &&& record_allows(index, nick, fetched, step)
        &&& next == match step {
            RecordStep::Done(reply) => Call::Replied(reply),
            RecordStep::Add { commitment, .. } => Call::Writing(commitment@),
        }
    }

    /// The store answers the write of `commitment` with `written`: the
    /// commitment has landed unless the store failed, and the call replies.
    pub open spec fn takes(
        self,
        commitment: Seq<char>,
        written: Result<(), StoreError>,
        landed: Seq<Seq<char>>,
        next: Call,
    ) -> bool {
        &&& landed == if written is Ok {
            self.landed.push(commitment)
        } else {
            self.landed
        }
        &&& next == Call::Replied(added_reply(written))
    }

    /// One move of the race: the store answers call `who`, and nothing else
    /// changes. A call that has replied moves no more.
    pub open spec fn moves(self, index: int, nick: Seq<char>, who: int, after: Race) -> bool {
        &&& 0 <= who < self.calls.len()
        &&& after.found == self.found
        &&& after.calls == self.calls.update(who, after.calls[who])
        &&& match self.calls[who] {
            Call::Reading => {
                &&& after.landed == self.landed
                &&& exists|fetched: Result<Seq<Seq<char>>, StoreError>, step: RecordStep|
                    self.hears(index, nick, fetched, step, after.calls[who])
            },
            Call::Writing(commitment) => exists|written: Result<(), StoreError>|
                self.takes(commitment, written, after.landed, after.calls[who]),
            Call::Replied(_) => false,
        }
    }

    /// Whether `after` is this moment one move on, whichever call moved.
    pub open spec fn precedes(self, index: int, nick: Seq<char>, after: Race) -> bool {
        exists|who: int| self.moves(index, nick, who, after)
    }

    /// What holds at every moment of a race.
    pub open spec fn sound(self, nick: Seq<char>) -> bool {
        &&& forall|c: Seq<char>| self.found.count(c) > 0 ==> bcrypt_verdict(nick, c) == Some(false)
        &&& forall|k: int|
            0 <= k < self.landed.len() ==> bcrypt_verdict(nick, #[trigger] self.landed[k]) == Some(
                true,
            )
        &&& forall|i: int|
            0 <= i < self.calls.len() && (#[trigger] self.calls[i]) is Writing ==> bcrypt_verdict(
                nick,
                self.calls[i]->Writing_0,
            ) == Some(true)
        &&& forall|i: int|
            0 <= i < self.calls.len() && #[trigger] self.calls[i] == Call::Replied(Ok(true))
                ==> self.landed.len() > 0
        &&& self.landed.len() == wrote(self.calls)
    }
}

/// Whether moment `t + 1` of `trace` is moment `t` one move on.
pub open spec fn moved_at(index: int, nick: Seq<char>, trace: Seq<Race>, t: int) -> bool {
    trace[t].precedes(index, nick, trace[t + 1])
}

/// A race from its start: each moment follows from the one before by one
/// move of one call.
pub open spec fn runs(index: int, nick: Seq<char>, trace: Seq<Race>) -> bool {
    &&& trace.len() > 0
    &&& trace[0].begins(nick)
    &&& forall|t: int| 0 <= t < trace.len() - 1 ==> #[trigger] moved_at(index, nick, trace, t)
}

/// Replacing one call changes the count of writers by that call alone.
pub proof fn wrote_after_move(calls: Seq<Call>, who: int, next: Call)
    requires
        0 <= who < calls.len(),
    ensures
        wrote(calls.update(who, next)) + (if calls[who] == Call::Replied(Ok(false)) {
            1nat
        } else {
            0nat
        }) == wrote(calls) + (if next == Call::Replied(Ok(false)) {
            1nat
        } else {
            0nat
        }),
    decreases calls.len(),
{
    let moved = calls.update(who, next);
    if who == calls.len() - 1 {
        assert(moved.drop_last() =~= calls.drop_last());
    } else {
        wrote_after_move(calls.drop_last(), who, next);
        assert(moved.drop_last() =~= calls.drop_last().update(who, next));
    }
}

/// No call has written before any call has replied.
pub proof fn none_wrote_at_start(calls: Seq<Call>)
    requires
        forall|i: int| 0 <= i < calls.len() ==> #[trigger] calls[i] is Reading,
    ensures
        wrote(calls) == 0,
    decreases calls.len(),
{
    if calls.len() > 0 {
        assert(calls.last() is Reading);
        assert forall|i: int| 0 <= i < calls.drop_last().len() implies #[trigger] calls.drop_last()[i]
            is Reading by {
            assert(calls.drop_last()[i] == calls[i]);
        }
        none_wrote_at_start(calls.drop_last());
    }
}

/// What a read returns at a sound moment: every row can be read, and a row
/// verifies exactly where it was written during the race.
pub proof fn reading_of_sound_bucket(race: Race, nick: Seq<char>, rows: Seq<Seq<char>>)
    requires
        race.sound(nick),
        rows.to_multiset() == race.bucket(),
    ensures
        lookup_outcome(nick, rows) == Some(race.landed.len() > 0),
{
    rows.to_multiset_ensures();
    race.landed.to_multiset_ensures();
    lookup_misses_iff(nick, rows);
    assert forall|j: int| 0 <= j < rows.len() implies (bcrypt_verdict(nick, #[trigger] rows[j])
        is Some && (race.landed.len() == 0 ==> bcrypt_verdict(nick, rows[j]) == Some(false))) by {
        assert(rows.contains(rows[j]));
        assert(rows.to_multiset().count(rows[j]) > 0);
        if race.found.count(rows[j]) == 0 {
            assert(race.landed.to_multiset().count(rows[j]) > 0);
            assert(race.landed.contains(rows[j]));
            let k = choose|k: int| 0 <= k < race.landed.len() && race.landed[k] == rows[j];
            assert(bcrypt_verdict(nick, race.landed[k]) == Some(true));
        }
    }
    if race.landed.len() > 0 {
        let fresh = race.landed[0];
        assert(race.landed.contains(fresh));
        assert(race.landed.to_multiset().count(fresh) > 0);
        assert(rows.to_multiset().count(fresh) > 0);
        assert(rows.contains(fresh));
        let hit = choose|k: int| 0 <= k < rows.len() && rows[k] == fresh;
        lookup_hits_when_readable(nick, rows, hit);
    }
}

/// A move keeps a sound moment sound.
pub proof fn move_keeps_sound(before: Race, index: int, nick: Seq<char>, who: int, after: Race)
    requires
        before.sound(nick),
        before.moves(index, nick, who, after),
    ensures
        after.sound(nick),
        after.calls.len() == before.calls.len(),
{
    let next = after.calls[who];
    wrote_after_move(before.calls, who, next);
    match before.calls[who] {
        Call::Reading => {
            let (fetched, step) = choose|
                fetched: Result<Seq<Seq<char>>, StoreError>,
                step: RecordStep,
            | before.hears(index, nick, fetched, step, next);
            if let Ok(rows) = fetched {
                reading_of_sound_bucket(before, nick, rows);
            }
        },
        Call::Writing(commitment) => {
            let written = choose|written: Result<(), StoreError>|
                before.takes(commitment, written, after.landed, next);
            assert(bcrypt_verdict(nick, commitment) == Some(true));
            if written is Ok {
                assert forall|k: int| 0 <= k < after.landed.len() implies bcrypt_verdict(
                    nick,
                    #[trigger] after.landed[k],
                ) == Some(true) by {
                    if k < before.landed.len() {
                        assert(after.landed[k] == before.landed[k]);
                    }
                }
            }
        },
        Call::Replied(_) => {},
    }
    assert forall|i: int|
        0 <= i < after.calls.len() && (#[trigger] after.calls[i]) is Writing implies bcrypt_verdict(
        nick,
        after.calls[i]->Writing_0,
    ) == Some(true) by {
        if i != who {
            assert(after.calls[i] == before.calls[i]);
        }
    }
    assert forall|i: int|
        0 <= i < after.calls.len() && #[trigger] after.calls[i] == Call::Replied(
            Ok(true),
        ) implies after.landed.len() > 0 by {
        if i != who {
            assert(after.calls[i] == before.calls[i]);
        }
    }
}

/// Every moment of a race is sound, with the calls and the first content of
/// the bucket it began with.
pub proof fn race_stays_sound(index: int, nick: Seq<char>, trace: Seq<Race>, t: int)
    requires
        runs(index, nick, trace),
        0 <= t < trace.len(),
    ensures
        trace[t].sound(nick),
        trace[t].found == trace[0].found,
        trace[t].calls.len() == trace[0].calls.len(),
    decreases t,
{
    if t == 0 {
        none_wrote_at_start(trace[0].calls);
    } else {
        race_stays_sound(index, nick, trace, t - 1);
        let before = trace[t - 1];
        let after = trace[t];
        assert(moved_at(index, nick, trace, t - 1));
        let who = choose|who: int| before.moves(index, nick, who, after);
        move_keeps_sound(before, index, nick, who, after);
    }
}

/// The moves that `calls` have left at most: two for a call that waits for
/// its read, one for a call that waits for its write, none for a call that
/// has replied.
pub open spec fn moves_left(calls: Seq<Call>) -> nat
    decreases calls.len(),
{
    if calls.len() == 0 {
        0
    } else {
        moves_left(calls.drop_last()) + match calls.last() {
            Call::Reading => 2nat,
            Call::Writing(_) => 1nat,
            Call::Replied(_) => 0nat,
        }
    }
}

/// `n` calls have `2 * n` moves left at most, and none exactly where every
/// one of them has replied.
pub proof fn moves_left_bounds(calls: Seq<Call>)
    ensures
        moves_left(calls) <= 2 * calls.len(),
        moves_left(calls) == 0 <==> (forall|i: int|
            0 <= i < calls.len() ==> #[trigger] calls[i] is Replied),
    decreases calls.len(),
{
    if calls.len() > 0 {
        let front = calls.drop_last();
        moves_left_bounds(front);
        if moves_left(calls) == 0 {
            assert forall|i: int| 0 <= i < calls.len() implies #[trigger] calls[i] is Replied by {
                if i < calls.len() - 1 {
                    assert(front[i] == calls[i]);
                }
            }
        }
        if forall|i: int| 0 <= i < calls.len() ==> #[trigger] calls[i] is Replied {
            assert(calls.last() is Replied);
            assert forall|i: int| 0 <= i < front.len() implies #[trigger] front[i] is Replied by {
                assert(front[i] == calls[i]);
            }
        }
    }
}

/// Replacing one call changes the moves left by that call alone.
pub proof fn moves_left_after_move(calls: Seq<Call>, who: int, next: Call)
    requires
        0 <= who < calls.len(),
    ensures
        moves_left(calls.update(who, next)) + moves_left(seq![calls[who]]) == moves_left(calls)
            + moves_left(seq![next]),
    decreases calls.len(),
{
    let moved = calls.update(who, next);
    assert(seq![calls[who]].drop_last() =~= Seq::<Call>::empty());
    assert(seq![next].drop_last() =~= Seq::<Call>::empty());
    if who == calls.len() - 1 {
        assert(moved.drop_last() =~= calls.drop_last());
    } else {
        moves_left_after_move(calls.drop_last(), who, next);
        assert(moved.drop_last() =~= calls.drop_last().update(who, next));
    }
}

/// Every move uses up at least one of the moves that are left.
pub proof fn move_uses_one_up(before: Race, index: int, nick: Seq<char>, who: int, after: Race)
    requires
        before.moves(index, nick, who, after),
    ensures
        moves_left(after.calls) < moves_left(before.calls),
{
    let next = after.calls[who];
    moves_left_after_move(before.calls, who, next);
    assert(seq![before.calls[who]].drop_last() =~= Seq::<Call>::empty());
    assert(seq![next].drop_last() =~= Seq::<Call>::empty());
    match before.calls[who] {
        Call::Reading => {
            let (fetched, step) = choose|
                fetched: Result<Seq<Seq<char>>, StoreError>,
                step: RecordStep,
            | before.hears(index, nick, fetched, step, next);
        },
        Call::Writing(commitment) => {
            let written = choose|written: Result<(), StoreError>|
                before.takes(commitment, written, after.landed, next);
        },
        Call::Replied(_) => {},
    }
}

/// A race comes to an end: after `t` moves at most `2 * n - t` are left to
/// its `n` calls, so that no race has more than `2 * n` moves; and a race in
/// which no call can move is one in which every call has replied.
pub proof fn race_ends(index: int, nick: Seq<char>, trace: Seq<Race>, t: int)
    requires
        runs(index, nick, trace),
        0 <= t < trace.len(),
    ensures
        t + moves_left(trace[t].calls) <= 2 * trace[0].calls.len(),
        moves_left(trace[t].calls) == 0 <==> (forall|i: int|
            0 <= i < trace[t].calls.len() ==> #[trigger] trace[t].calls[i] is Replied),
    decreases t,
{
    moves_left_bounds(trace[t].calls);
    if t > 0 {
        race_ends(index, nick, trace, t - 1);
        let before = trace[t - 1];
        let after = trace[t];
        assert(moved_at(index, nick, trace, t - 1));
        let who = choose|who: int| before.moves(index, nick, who, after);
        move_uses_one_up(before, index, nick, who, after);
    }
}

/// Records of one nickname that race each other do no harm. At every
/// moment of every race, however the calls interleave and whichever of them
/// fail: as many commitments have landed as calls have replied `false`; a
/// call has replied `true` only if one has landed; and a lookup answers
/// `true` once one has landed, `false` before, in whatever order the store
/// returns the bucket and however many commitments of the nickname it holds.
pub proof fn racing_records_agree(
    index: int,
    nick: Seq<char>,
    trace: Seq<Race>,
    t: int,
    later: Seq<Seq<char>>,
    answer: Result<bool, LookupError>,
)
    requires
        runs(index, nick, trace),
        0 <= t < trace.len(),
        later.to_multiset() == trace[t].bucket(),
        lookup_answers(nick, Ok(later), answer),
    ensures
        trace[t].landed.len() == wrote(trace[t].calls),
        forall|i: int|
            0 <= i < trace[t].calls.len() && (#[trigger] trace[t].calls[i] matches Call::Replied(
                Ok(_),
            )) ==> trace[t].landed.len() >= 1,
        answer == Ok::<bool, LookupError>(trace[t].landed.len() >= 1),
{
    race_stays_sound(index, nick, trace, t);
    reading_of_sound_bucket(trace[t], nick, later);
    let race = trace[t];
    assert forall|i: int|
        0 <= i < race.calls.len() && (#[trigger] race.calls[i] matches Call::Replied(
            Ok(_),
        )) implies race.landed.len() >= 1 by {
        let reply = race.calls[i]->Replied_0;
        if reply->Ok_0 {
            assert(reply == Ok::<bool, LookupError>(true));
        } else {
            assert(reply == Ok::<bool, LookupError>(false));
            wrote_counts(race.calls, i);
        }
    }
}

/// A call that replied `false` is counted among the writers.
pub proof fn wrote_counts(calls: Seq<Call>, i: int)
    requires
        0 <= i < calls.len(),
        calls[i] == Call::Replied(Ok(false)),
    ensures
        wrote(calls) >= 1,
    decreases calls.len(),
{
    if i < calls.len() - 1 {
        wrote_counts(calls.drop_last(), i);
    }
}

} // verus!
