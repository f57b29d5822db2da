//! The time-window filter and the early-stop heuristic that lets a
//! timestamp-ordered traversal give up after enough consecutive out-of-window
//! entries.

use vstd::prelude::*;

use crate::model::RelationEvent;

verus! {

/// The inclusive time-window test: a timestamp is inside the tracked window
/// exactly when it is at or after the window start.
pub open spec fn spec_in_window(occurred_at: i64, window_start: i64) -> bool {
    occurred_at >= window_start
}

/// Decides whether a relation that occurred at `occurred_at` falls inside the
/// window that starts at `window_start`; the boundary itself is included.
pub fn in_window(occurred_at: i64, window_start: i64) -> (r: bool)
    ensures
        r == spec_in_window(occurred_at, window_start),
{
    occurred_at >= window_start
}

/// Whether an event falls inside the window. An event without a timestamp is
/// never inside the window.
pub open spec fn event_in_window(ev: RelationEvent, window_start: i64) -> bool {
    match ev.occurred_at {
        Some(t) => spec_in_window(t, window_start),
        None => false,
    }
}

/// The filter a traversal applies to each event: events inside the window are
/// kept, the others are dropped.
pub open spec fn keep_in_window(window_start: i64) -> spec_fn(RelationEvent) -> Option<
    RelationEvent,
> {
    |ev: RelationEvent|
        if event_in_window(ev, window_start) {
            Option::Some(ev)
        } else {
            Option::None
        }
}

/// How one event changes the count of consecutive misses: an in-window event
/// resets it, a timestamped out-of-window event raises it, and an event with
/// no timestamp leaves it alone (ambiguous data must not trigger the stop).
pub open spec fn next_misses(misses: u64, ev: RelationEvent, window_start: i64) -> u64 {
    if event_in_window(ev, window_start) {
        0u64
    } else if ev.occurred_at is Some {
        if misses == u64::MAX {
            misses
        } else {
            (misses + 1) as u64
        }
    } else {
        misses
    }
}

/// How many events a traversal that starts with `misses` consecutive misses
/// consumes from `evs` before the early stop fires or the input ends.
pub open spec fn scan_consumed(
    evs: Seq<RelationEvent>,
    window_start: i64,
    threshold: u64,
    misses: u64,
) -> nat
    decreases evs.len(),
{
    if misses >= threshold || evs.len() == 0 {
        0
    } else {
        1 + scan_consumed(
            evs.drop_first(),
            window_start,
            threshold,
            next_misses(misses, evs[0], window_start),
        )
    }
}

/// The count of consecutive misses once the traversal of `evs` has ended,
/// whether by early stop or by running out of input.
pub open spec fn scan_final_misses(
    evs: Seq<RelationEvent>,
    window_start: i64,
    threshold: u64,
    misses: u64,
) -> u64
    decreases evs.len(),
{
    if misses >= threshold || evs.len() == 0 {
        misses
    } else {
        scan_final_misses(
            evs.drop_first(),
            window_start,
            threshold,
            next_misses(misses, evs[0], window_start),
        )
    }
}

/// Counts consecutive out-of-window results and signals "stop" once their
/// number reaches the configured threshold. Valid only when the traversal is
/// ordered by descending timestamp; entries without a timestamp never count.
pub struct EarlyStopTracker {
    pub threshold: u64,
    pub consecutive_misses: u64,
}

impl EarlyStopTracker {
    /// A fresh tracker that has seen no misses yet.
    pub fn new(threshold: u64) -> (t: EarlyStopTracker)
        ensures
            t.threshold == threshold,
            t.consecutive_misses == 0,
    {
        EarlyStopTracker { threshold, consecutive_misses: 0 }
    }

    /// The stop signal: the threshold of consecutive misses has been reached.
    pub open spec fn spec_should_stop(self) -> bool {
        self.consecutive_misses >= self.threshold
    }

    /// Whether the traversal should stop fetching further entries.
    pub fn should_stop(&self) -> (r: bool)
        ensures
            r == self.spec_should_stop(),
    {
        self.consecutive_misses >= self.threshold
    }

    /// Feeds one traversal event to the counter.
    pub fn observe(&mut self, ev: &RelationEvent, window_start: i64)
        ensures
            final(self).threshold == old(self).threshold,
            final(self).consecutive_misses == next_misses(
                old(self).consecutive_misses,
                *ev,
                window_start,
            ),
    {
        match ev.occurred_at {
            Some(t) => {
                if in_window(t, window_start) {
                    self.consecutive_misses = 0;
                } else if self.consecutive_misses < u64::MAX {
                    self.consecutive_misses = self.consecutive_misses + 1;
                }
            },
            None => {},
        }
    }
}

/// Walks `events` in order under the tracker's early-stop rule, keeping the
/// in-window events of the consumed prefix. Returns the kept events and how
/// many events were consumed; the tracker keeps its state so that a traversal
/// may span several pages.
pub fn filter_page(
    events: &Vec<RelationEvent>,
    window_start: i64,
    tracker: &mut EarlyStopTracker,
) -> (r: (Vec<RelationEvent>, usize))
    ensures
        r.1 <= events@.len(),
        r.1 == scan_consumed(
            events@,
            window_start,
            old(tracker).threshold,
            old(tracker).consecutive_misses,
        ),
        r.0@ == events@.take(r.1 as int).filter_map(keep_in_window(window_start)),
        final(tracker).threshold == old(tracker).threshold,
        final(tracker).consecutive_misses == scan_final_misses(
            events@,
            window_start,
            old(tracker).threshold,
            old(tracker).consecutive_misses,
        ),
{
    let ghost th: u64 = tracker.threshold;
    let ghost m0: u64 = tracker.consecutive_misses;
    let mut kept: Vec<RelationEvent> = Vec::new();
    let mut i: usize = 0;
    proof {
        assert(events@.skip(0) =~= events@);
    }
    loop
        invariant
            i <= events@.len(),
            tracker.threshold == th,
            scan_consumed(events@, window_start, th, m0) == i + scan_consumed(
                events@.skip(i as int),
                window_start,
                th,
                tracker.consecutive_misses,
            ),
            scan_final_misses(events@, window_start, th, m0) == scan_final_misses(
                events@.skip(i as int),
                window_start,
                th,
                tracker.consecutive_misses,
            ),
            kept@ == events@.take(i as int).filter_map(keep_in_window(window_start)),
        ensures
            i <= events@.len(),
            tracker.threshold == th,
            i == scan_consumed(events@, window_start, th, m0),
            tracker.consecutive_misses == scan_final_misses(events@, window_start, th, m0),
            kept@ == events@.take(i as int).filter_map(keep_in_window(window_start)),
        decreases events@.len() - i,
    {
        if i >= events.len() || tracker.should_stop() {
            proof {
                if i >= events@.len() {
                    assert(events@.skip(i as int) =~= Seq::<RelationEvent>::empty());
                }
            }
            break ;
        }
        let ghost pre = events@.skip(i as int);
        proof {
            assert(pre[0] == events@[i as int]);
            assert(pre.drop_first() =~= events@.skip(i as int + 1));
        }
        let ev = &events[i];
        tracker.observe(ev, window_start);
        match ev.occurred_at {
            Some(t) => {
                if in_window(t, window_start) {
                    let new_ev = RelationEvent {
                        kind: ev.kind,
                        login: ev.login.clone(),
                        occurred_at: ev.occurred_at,
                    };
                    proof {
                        assert(new_ev == events@[i as int]);
                    }
                    kept.push(new_ev);
                }
            },
            None => {},
        }
        proof {
            events@.lemma_filter_map_take_succ(keep_in_window(window_start), i as int);
        }
        i = i + 1;
    }
    (kept, i)
}

/// One-shot window filtering of a single event sequence: a fresh tracker with
/// the given threshold walks the events once. Returns the kept in-window
/// events, how many events were consumed, and whether the early stop fired.
pub fn filter_window(events: &Vec<RelationEvent>, window_start: i64, threshold: u64) -> (r: (
    Vec<RelationEvent>,
    usize,
    bool,
))
    ensures
        r.1 <= events@.len(),
        r.1 == scan_consumed(events@, window_start, threshold, 0),
        r.0@ == events@.take(r.1 as int).filter_map(keep_in_window(window_start)),
        r.2 == (scan_final_misses(events@, window_start, threshold, 0) >= threshold),
{
    let mut tracker = EarlyStopTracker::new(threshold);
    let (kept, consumed) = filter_page(events, window_start, &mut tracker);
    let stopped = tracker.should_stop();
    (kept, consumed, stopped)
}

/// In a run made only of timestamped out-of-window events, the traversal
/// consumes no more events than the threshold leaves room for.
proof fn lemma_scan_all_misses(
    evs: Seq<RelationEvent>,
    window_start: i64,
    threshold: u64,
    misses: u64,
)
    requires
        forall|i: int|
            0 <= i < evs.len() ==> !event_in_window(#[trigger] evs[i], window_start)
                && evs[i].occurred_at is Some,
    ensures
        scan_consumed(evs, window_start, threshold, misses) <= if misses >= threshold {
            0int
        } else {
            threshold - misses
        },
    decreases evs.len(),
{
    if misses >= threshold || evs.len() == 0 {
    } else {
        assert(evs.drop_first().len() == evs.len() - 1);
        lemma_scan_all_misses(
            evs.drop_first(),
            window_start,
            threshold,
            next_misses(misses, evs[0], window_start),
        );
    }
}

/// Once every event from position `boundary` on is a timestamped miss, the
/// traversal consumes at most `boundary + threshold` events, whatever came
/// before the boundary.
proof fn lemma_scan_consumed_bound(
    evs: Seq<RelationEvent>,
    window_start: i64,
    threshold: u64,
    misses: u64,
    boundary: int,
)
    requires
        0 <= boundary <= evs.len(),
        forall|i: int|
            boundary <= i < evs.len() ==> !event_in_window(#[trigger] evs[i], window_start)
                && evs[i].occurred_at is Some,
    ensures
        scan_consumed(evs, window_start, threshold, misses) <= boundary + threshold,
    decreases boundary,
{
    if boundary == 0 {
        lemma_scan_all_misses(evs, window_start, threshold, misses);
    } else if misses >= threshold || evs.len() == 0 {
    } else {
        lemma_scan_consumed_bound(
            evs.drop_first(),
            window_start,
            threshold,
            next_misses(misses, evs[0], window_start),
            boundary - 1,
        );
    }
}

/// The early-stop law: on a strictly descending timestamp sequence that
/// crosses the window boundary at position `boundary`, the traversal halts
/// within `threshold` events past the boundary.
pub proof fn lemma_early_stop(
    evs: Seq<RelationEvent>,
    window_start: i64,
    threshold: u64,
    boundary: int,
)
    requires
        forall|i: int| 0 <= i < evs.len() ==> (#[trigger] evs[i]).occurred_at is Some,
        forall|i: int, j: int|
            0 <= i < j < evs.len() ==> (#[trigger] evs[i]).occurred_at->0 > (
            #[trigger] evs[j]).occurred_at->0,
        0 <= boundary <= evs.len(),
        forall|i: int| 0 <= i < boundary ==> event_in_window(#[trigger] evs[i], window_start),
        boundary < evs.len() ==> !event_in_window(evs[boundary], window_start),
    ensures
        scan_consumed(evs, window_start, threshold, 0) <= boundary + threshold,
{
    assert forall|i: int|
        boundary <= i < evs.len() implies !event_in_window(#[trigger] evs[i], window_start)
        && evs[i].occurred_at is Some by {
        if i > boundary {
            assert(evs[i].occurred_at->0 < evs[boundary].occurred_at->0);
        }
    }
    lemma_scan_consumed_bound(evs, window_start, threshold, 0, boundary);
}

} // verus!
