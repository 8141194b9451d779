//! Counting within one second at a time.
//!
//! A counter remembers the second it belongs to and how many events that
//! second has seen. A new second starts it afresh.

use vstd::prelude::*;

verus! {

/// What one more event at second `now` does to a counter: whether the event is
/// admitted, and the counter afterwards. A counter that does not exist yet, or
/// belongs to another second, counts as an empty one of this second.
pub open spec fn window_step(entry: Option<(u64, usize)>, now: u64, limit: usize) -> (
    bool,
    (u64, usize),
) {
    let count = match entry {
        Some(e) => if e.0 == now {
            e.1
        } else {
            0usize
        },
        None => 0usize,
    };
    if count >= limit {
        (false, (now, count))
    } else {
        (true, (now, (count + 1) as usize))
    }
}

/// Computes [`window_step`] for a counter that exists.
pub fn count_event(entry: (u64, usize), now: u64, limit: usize) -> (r: (bool, (u64, usize)))
    ensures
        r == window_step(Some(entry), now, limit),
{
    let count: usize = if entry.0 == now {
        entry.1
    } else {
        0
    };
    if count >= limit {
        (false, (now, count))
    } else {
        (true, (now, count + 1))
    }
}

/// Whether a counter of the given second is kept at second `now`: it is while
/// its second is the current one or the one before.
pub open spec fn is_fresh(second: u64, now: u64) -> bool {
    second + 1 >= now
}

/// Computes [`is_fresh`].
pub fn still_fresh(second: u64, now: u64) -> (r: bool)
    ensures
        r == is_fresh(second, now),
{
    second >= now || now - second == 1
}

// ---------- Counters kept by key ----------

/// What one more event of `key` at second `now` does to counters kept by key.
/// Without a limit every event is admitted and none is counted.
pub open spec fn keyed_step<K>(
    counts: Map<K, (u64, usize)>,
    key: K,
    now: u64,
    limit: Option<usize>,
) -> (bool, Map<K, (u64, usize)>) {
    match limit {
        Some(limit) => {
            let step = window_step(counts.get(key), now, limit);
            (step.0, counts.insert(key, step.1))
        },
        None => (true, counts),
    }
}

/// A limit of which zero means that there is none.
pub open spec fn zero_is_none(limit: usize) -> Option<usize> {
    if limit == 0 {
        None
    } else {
        Some(limit)
    }
}

/// Events of one key take nothing away from another.
pub proof fn keys_are_counted_apart<K>(
    counts: Map<K, (u64, usize)>,
    key: K,
    other: K,
    now: u64,
    limit: Option<usize>,
)
    requires
        key != other,
    ensures
        keyed_step(counts, key, now, limit).1.get(other) == counts.get(other),
{
}

// ---------- Sequences of events ----------

/// The counters after events of all kinds of keys, each with its second. Every
/// key has a limit of its own, or none.
pub open spec fn counts_after<K>(
    counts: Map<K, (u64, usize)>,
    events: Seq<(K, u64)>,
    limits: spec_fn(K) -> Option<usize>,
) -> Map<K, (u64, usize)>
    decreases events.len(),
{
    if events.len() == 0 {
        counts
    } else {
        let (key, now) = events.last();
        keyed_step(counts_after(counts, events.drop_last(), limits), key, now, limits(key)).1
    }
}

/// How many of the events of `key` at `second` are admitted.
pub open spec fn admitted_in<K>(
    counts: Map<K, (u64, usize)>,
    events: Seq<(K, u64)>,
    limits: spec_fn(K) -> Option<usize>,
    key: K,
    second: u64,
) -> nat
    decreases events.len(),
{
    if events.len() == 0 {
        0
    } else {
        let before = counts_after(counts, events.drop_last(), limits);
        admitted_in(counts, events.drop_last(), limits, key, second) + if events.last() == (
            key,
            second,
        ) && keyed_step(before, key, second, limits(key)).0 {
            1nat
        } else {
            0
        }
    }
}

/// How many of the events are of `key` and at `second`.
pub open spec fn events_in<K>(events: Seq<(K, u64)>, key: K, second: u64) -> nat
    decreases events.len(),
{
    if events.len() == 0 {
        0
    } else {
        events_in(events.drop_last(), key, second) + if events.last() == (key, second) {
            1nat
        } else {
            0
        }
    }
}

/// The lesser of how many there are and how many there may be.
pub open spec fn up_to(there_are: nat, limit: usize) -> nat {
    if there_are < limit {
        there_are
    } else {
        limit as nat
    }
}

/// Whether time never runs backwards.
pub open spec fn in_order<K>(events: Seq<(K, u64)>) -> bool {
    forall|i: int, j: int| 0 <= i <= j < events.len() ==> (#[trigger] events[i]).1 <= (
    #[trigger] events[j]).1
}

/// Whether the counter of `key`, if there is one, is of an earlier second than
/// every event.
pub open spec fn is_past<K>(
    counts: Map<K, (u64, usize)>,
    key: K,
    events: Seq<(K, u64)>,
) -> bool {
    counts.get(key) matches Some(e) ==> forall|i: int|
        0 <= i < events.len() ==> e.0 < (#[trigger] events[i]).1
}

/// The second of the last event of `key`.
pub open spec fn last_second<K>(events: Seq<(K, u64)>, key: K) -> Option<u64>
    decreases events.len(),
{
    if events.len() == 0 {
        None
    } else if events.last().0 == key {
        Some(events.last().1)
    } else {
        last_second(events.drop_last(), key)
    }
}

proof fn lemma_in_order<K>(events: Seq<(K, u64)>, key: K)
    requires
        in_order(events),
    ensures
        events.len() > 0 ==> in_order(events.drop_last()),
        last_second(events, key) matches Some(t) ==> events.len() > 0 && t <= events.last().1,
    decreases events.len(),
{
    if events.len() > 0 {
        let before = events.drop_last();
        assert forall|i: int, j: int| 0 <= i <= j < before.len() implies (#[trigger] before[i]).1 <= (
        #[trigger] before[j]).1 by {
            assert(events[i].1 <= events[j].1);
        }
        lemma_in_order(before, key);
        if before.len() > 0 {
            assert(events[events.len() - 2].1 <= events[events.len() - 1].1);
            assert(before.last() == events[events.len() - 2]);
        }
    }
}

proof fn lemma_none_later<K>(events: Seq<(K, u64)>, key: K, second: u64)
    requires
        in_order(events),
        last_second(events, key) matches Some(t) ==> t < second,
    ensures
        events_in(events, key, second) == 0,
    decreases events.len(),
{
    if events.len() > 0 {
        lemma_in_order(events, key);
        let before = events.drop_last();
        lemma_in_order(before, key);
        if before.len() > 0 {
            assert(events[events.len() - 2].1 <= events[events.len() - 1].1);
            assert(before.last() == events[events.len() - 2]);
        }
        lemma_none_later(before, key, second);
    }
}

proof fn lemma_counter<K>(
    counts: Map<K, (u64, usize)>,
    events: Seq<(K, u64)>,
    limits: spec_fn(K) -> Option<usize>,
    key: K,
    limit: usize,
    second: u64,
)
    requires
        limits(key) == Some(limit),
        in_order(events),
        is_past(counts, key, events),
    ensures
        admitted_in(counts, events, limits, key, second) == up_to(
            events_in(events, key, second),
            limit,
        ),
        counts_after(counts, events, limits).get(key) == (match last_second(events, key) {
            Some(t) => Some((t, admitted_in(counts, events, limits, key, t) as usize)),
            None => counts.get(key),
        }),
    decreases events.len(),
{
    if events.len() > 0 {
        let before = events.drop_last();
        let (last_key, now) = events.last();
        lemma_in_order(events, key);
        lemma_in_order(before, key);
        assert(is_past(counts, key, before)) by {
            if let Some(e) = counts.get(key) {
                assert forall|i: int| 0 <= i < before.len() implies e.0 < (#[trigger] before[i]).1 by {
                    assert(e.0 < events[i].1);
                }
            }
        }
        lemma_counter(counts, before, limits, key, limit, second);
        lemma_counter(counts, before, limits, key, limit, now);
        if let Some(t) = last_second(before, key) {
            lemma_counter(counts, before, limits, key, limit, t);
            if before.len() > 0 {
                assert(events[events.len() - 2].1 <= events[events.len() - 1].1);
                assert(before.last() == events[events.len() - 2]);
            }
            if t < now {
                lemma_none_later(before, key, now);
            }
            if last_key != key {
                assert(admitted_in(counts, events, limits, key, t) == admitted_in(
                    counts,
                    before,
                    limits,
                    key,
                    t,
                ));
            }
        } else {
            lemma_none_later(before, key, now);
            assert(events[events.len() - 1].1 == now);
        }
    }
}

/// The rate limit of a key: as long as time does not run backwards, of its
/// events of any one second exactly as many are admitted as there are, up to
/// the limit, whatever other keys do in between. A counter that is left over
/// from earlier seconds does not matter.
pub proof fn keys_are_admitted_up_to_their_limits<K>(
    counts: Map<K, (u64, usize)>,
    events: Seq<(K, u64)>,
    limits: spec_fn(K) -> Option<usize>,
    key: K,
    limit: usize,
    second: u64,
)
    requires
        limits(key) == Some(limit),
        in_order(events),
        is_past(counts, key, events),
    ensures
        admitted_in(counts, events, limits, key, second) == up_to(
            events_in(events, key, second),
            limit,
        ),
{
    lemma_counter(counts, events, limits, key, limit, second);
}

/// Whether every event of `key` is at `second`.
pub open spec fn only_at<K>(events: Seq<(K, u64)>, key: K, second: u64) -> bool {
    forall|i: int| 0 <= i < events.len() && (#[trigger] events[i]).0 == key ==> events[i].1 == second
}

/// Whatever has been counted before, of the events of a key within one second no
/// more are admitted than its limit.
pub proof fn no_second_admits_more_than_the_limit<K>(
    counts: Map<K, (u64, usize)>,
    events: Seq<(K, u64)>,
    limits: spec_fn(K) -> Option<usize>,
    key: K,
    limit: usize,
    second: u64,
)
    requires
        limits(key) == Some(limit),
        only_at(events, key, second),
    ensures
        admitted_in(counts, events, limits, key, second) <= limit,
        admitted_in(counts, events, limits, key, second) > 0 ==> (counts_after(
            counts,
            events,
            limits,
        ).get(key) matches Some(e) && e.0 == second && admitted_in(
            counts,
            events,
            limits,
            key,
            second,
        ) <= e.1 <= limit),
    decreases events.len(),
{
    if events.len() > 0 {
        let before = events.drop_last();
        assert(only_at(before, key, second)) by {
            assert forall|i: int| 0 <= i < before.len() && (#[trigger] before[i]).0 == key implies
                before[i].1 == second by {
                assert(events[i].0 == key);
            }
        }
        no_second_admits_more_than_the_limit(counts, before, limits, key, limit, second);
        assert(events[events.len() - 1] == events.last());
    }
}

// ---------- Histories of decisions ----------

/// A question whether one more event of `key` is admitted at second `now`, and
/// the answer that was given.
pub struct Asked<K> {
    pub key: K,
    pub limit: usize,
    pub now: u64,
    pub admitted: bool,
}

/// How often it was asked for `key` in `second`.
pub open spec fn asked_in<K>(history: Seq<Asked<K>>, key: K, second: u64) -> nat
    decreases history.len(),
{
    if history.len() == 0 {
        0
    } else {
        let last = history.last();
        asked_in(history.drop_last(), key, second) + if last.key == key && last.now == second {
            1nat
        } else {
            0
        }
    }
}

/// How often the answer for `key` in `second` was yes.
pub open spec fn granted_in<K>(history: Seq<Asked<K>>, key: K, second: u64) -> nat
    decreases history.len(),
{
    if history.len() == 0 {
        0
    } else {
        let last = history.last();
        granted_in(history.drop_last(), key, second) + if last.key == key && last.now == second
            && last.admitted {
            1nat
        } else {
            0
        }
    }
}

/// Whether time never runs backwards in a history, and `key` always has the same
/// limit.
pub open spec fn is_steady<K>(history: Seq<Asked<K>>, key: K, limit: usize) -> bool {
    &&& forall|i: int, j: int| 0 <= i <= j < history.len() ==> (#[trigger] history[i]).now <= (
    #[trigger] history[j]).now
    &&& forall|i: int|
        0 <= i < history.len() && (#[trigger] history[i]).key == key ==> history[i].limit == limit
}

/// Whether what is known of `key` before and after each question, as a second
/// and a number, is what counting within one second comes to: the number of this
/// second decides, and grows by one with every yes; other keys leave it alone.
pub open spec fn counts_by_second<K>(
    history: Seq<Asked<K>>,
    key: K,
    limit: usize,
    before: Seq<Option<(u64, nat)>>,
    after: Seq<Option<(u64, nat)>>,
) -> bool {
    &&& before.len() == history.len()
    &&& after.len() == history.len()
    &&& forall|i: int| 0 < i < history.len() ==> #[trigger] before[i] == after[i - 1]
    &&& forall|i: int|
        0 <= i < history.len() && history[i].key != key ==> #[trigger] before[i] == after[i]
    &&& forall|i: int|
        0 <= i < history.len() && (#[trigger] history[i]).key == key ==> {
            let have = match before[i] {
                Some(c) => if c.0 == history[i].now {
                    c.1
                } else {
                    0nat
                },
                None => 0nat,
            };
            &&& history[i].admitted == (have < limit)
            &&& after[i] == Some(
                (
                    history[i].now,
                    if have < limit {
                        have + 1
                    } else {
                        have
                    },
                ),
            )
        }
    &&& history.len() > 0 ==> (before[0] matches Some(c) ==> c.0 < history[0].now)
}

/// The second in which it was last asked for `key`.
spec fn last_asked<K>(history: Seq<Asked<K>>, key: K) -> Option<u64>
    decreases history.len(),
{
    if history.len() == 0 {
        None
    } else if history.last().key == key {
        Some(history.last().now)
    } else {
        last_asked(history.drop_last(), key)
    }
}

proof fn lemma_asked<K>(history: Seq<Asked<K>>, key: K, limit: usize, second: u64)
    requires
        is_steady(history, key, limit),
    ensures
        history.len() > 0 ==> is_steady(history.drop_last(), key, limit),
        last_asked(history, key) matches Some(t) ==> history.len() > 0 && t <= history.last().now,
        (last_asked(history, key) matches Some(t) ==> t < second) ==> asked_in(history, key, second)
            == 0 && granted_in(history, key, second) == 0,
    decreases history.len(),
{
    if history.len() > 0 {
        let earlier = history.drop_last();
        assert forall|i: int, j: int| 0 <= i <= j < earlier.len() implies (#[trigger] earlier[i]).now
            <= (#[trigger] earlier[j]).now by {
            assert(history[i].now <= history[j].now);
        }
        assert forall|i: int| 0 <= i < earlier.len() && (#[trigger] earlier[i]).key
            == key implies earlier[i].limit == limit by {
            assert(history[i].key == key);
        }
        lemma_asked(earlier, key, limit, second);
        if earlier.len() > 0 {
            assert(history[history.len() - 2].now <= history[history.len() - 1].now);
            assert(earlier.last() == history[history.len() - 2]);
        }
    }
}

proof fn lemma_history<K>(
    history: Seq<Asked<K>>,
    key: K,
    limit: usize,
    before: Seq<Option<(u64, nat)>>,
    after: Seq<Option<(u64, nat)>>,
    second: u64,
)
    requires
        is_steady(history, key, limit),
        counts_by_second(history, key, limit, before, after),
    ensures
        granted_in(history, key, second) == up_to(asked_in(history, key, second), limit),
        history.len() > 0 ==> after.last() == (match last_asked(history, key) {
            Some(t) => Some((t, granted_in(history, key, t))),
            None => before[0],
        }),
    decreases history.len(),
{
    if history.len() > 0 {
        let n = history.len() - 1;
        let earlier = history.drop_last();
        let now = history[n].now;
        lemma_asked(history, key, limit, second);
        lemma_asked(earlier, key, limit, now);
        let b = before.drop_last();
        let a = after.drop_last();
        assert(counts_by_second(earlier, key, limit, b, a)) by {
            assert forall|i: int| 0 < i < earlier.len() implies #[trigger] b[i] == a[i - 1] by {
                assert(before[i] == after[i - 1]);
            }
            assert forall|i: int| 0 <= i < earlier.len() && earlier[i].key != key implies #[trigger] b[i]
                == a[i] by {
                assert(history[i].key != key);
                assert(before[i] == after[i]);
            }
            assert forall|i: int| 0 <= i < earlier.len() && (#[trigger] earlier[i]).key
                == key implies {
                let have = match b[i] {
                    Some(c) => if c.0 == earlier[i].now {
                        c.1
                    } else {
                        0nat
                    },
                    None => 0nat,
                };
                &&& earlier[i].admitted == (have < limit)
                &&& a[i] == Some(
                    (
                        earlier[i].now,
                        if have < limit {
                            have + 1
                        } else {
                            have
                        },
                    ),
                )
            } by {
                assert(history[i].key == key);
            }
        }
        lemma_history(earlier, key, limit, b, a, second);
        lemma_history(earlier, key, limit, b, a, now);
        if n > 0 {
            assert(before[n] == after[n - 1]);
            assert(a.last() == after[n - 1]);
            assert(history[n - 1].now <= history[n].now);
            assert(history[0].now <= history[n].now);
            assert(earlier.last() == history[n - 1]);
            assert(b[0] == before[0]);
        }
        assert(history.last() == history[n]);
        assert(after.last() == after[n]);
        if let Some(t) = last_asked(earlier, key) {
            lemma_history(earlier, key, limit, b, a, t);
            if history[n].key != key {
                assert(before[n] == after[n]);
            }
        } else {
            if history[n].key != key {
                assert(before[n] == after[n]);
            }
        }
    }
}

/// Counting within one second keeps the limit exactly: of the questions for a
/// key in any one second, as many are answered with yes as there are, up to the
/// limit.
pub proof fn counting_by_second_keeps_the_limit<K>(
    history: Seq<Asked<K>>,
    key: K,
    limit: usize,
    before: Seq<Option<(u64, nat)>>,
    after: Seq<Option<(u64, nat)>>,
    second: u64,
)
    requires
        is_steady(history, key, limit),
        counts_by_second(history, key, limit, before, after),
    ensures
        asked_in(history, key, second) <= limit ==> granted_in(history, key, second) == asked_in(
            history,
            key,
            second,
        ),
        asked_in(history, key, second) > limit ==> granted_in(history, key, second) == limit,
{
    lemma_history(history, key, limit, before, after, second);
}

/// One more event, in so many words: a counter of this second admits it while it
/// is below the limit, and grows by one; any other starts again at this second.
pub proof fn one_more_event(entry: Option<(u64, usize)>, now: u64, limit: usize)
    ensures
        entry matches Some(e) ==> (e.0 == now && e.1 < limit ==> window_step(entry, now, limit) == (
            true,
            (now, (e.1 + 1) as usize),
        )),
        entry matches Some(e) ==> (e.0 == now && e.1 >= limit ==> window_step(entry, now, limit) == (
            false,
            (now, e.1),
        )),
        (entry matches Some(e) ==> e.0 != now) && limit > 0 ==> window_step(entry, now, limit) == (
            true,
            (now, 1usize),
        ),
        (entry matches Some(e) ==> e.0 != now) && limit == 0 ==> window_step(entry, now, limit) == (
            false,
            (now, 0usize),
        ),
{
}

/// A counter is kept in its own second and the one after it, and no longer.
pub proof fn counters_are_kept_for_two_seconds(second: u64, later: nat)
    requires
        second + later <= u64::MAX,
    ensures
        is_fresh(second, (second + later) as u64) <==> later <= 1,
{
}

} // verus!
