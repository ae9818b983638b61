use vstd::prelude::*;
use crate::controller::{
    action_for, deadline_after, failures, remaining, scheduled, survivors, time_left,
    SchedulerAction, POLL_INTERVAL_MS,
};

verus! {

/// The deadline after a run of `schedule_firing(seconds, now)` calls, given
/// as `(seconds, now)` pairs in order, on a controller whose deadline was
/// `start`.
pub open spec fn after_schedules(start: Option<u64>, calls: Seq<(i32, u64)>) -> Option<u64>
    decreases calls.len(),
{
    if calls.len() == 0 {
        start
    } else {
        scheduled(
            after_schedules(start, calls.drop_last()),
            calls.last().0 as int,
            calls.last().1,
        )
    }
}

/// Last write wins: after any run of schedule calls that ends with a
/// non-negative delay, the deadline is the one that last call set, whatever
/// came before it.
pub proof fn lemma_last_schedule_wins(start: Option<u64>, calls: Seq<(i32, u64)>, now: u64)
    requires
        calls.len() > 0,
        calls.last().0 >= 0,
    ensures
        after_schedules(start, calls) == Some(deadline_after(calls.last().0 as int, calls.last().1)),
        time_left(after_schedules(start, calls), now) == Some(
            remaining(deadline_after(calls.last().0 as int, calls.last().1), now),
        ),
{
}

/// Cancelling clears the deadline whatever it was: the time left is then
/// `None`, and the scheduler only sleeps.
pub proof fn lemma_cancel_clears(fire_time: Option<u64>, now: u64, later: u64)
    ensures
        scheduled(fire_time, -1, now) is None,
        time_left(scheduled(fire_time, -1, now), later) is None,
        action_for(scheduled(fire_time, -1, now), later) == SchedulerAction::Sleep(POLL_INTERVAL_MS),
{
}

/// With no schedule call in between, the time left never grows as the clock
/// advances, and a deadline stays pending until it is consumed.
pub proof fn lemma_time_left_never_increases(fire_time: Option<u64>, earlier: u64, later: u64)
    requires
        earlier <= later,
    ensures
        time_left(fire_time, earlier) is Some <==> time_left(fire_time, later) is Some,
        time_left(fire_time, later) is Some ==> time_left(fire_time, later)->0 <= time_left(
            fire_time,
            earlier,
        )->0,
{
}

/// The scheduler fires exactly when the deadline is due, that is when the
/// time left is zero.
pub proof fn lemma_fires_when_due(fire_time: Option<u64>, now: u64)
    ensures
        (action_for(fire_time, now) == SchedulerAction::Fire) == (time_left(fire_time, now) == Some(
            0u64,
        )),
{
}

/// The scheduler never sleeps for nothing, never more than one poll
/// interval, and never past a pending deadline: a due deadline is seen
/// within one poll interval.
pub proof fn lemma_sleep_bounded(fire_time: Option<u64>, now: u64, nap: u64)
    requires
        action_for(fire_time, now) == SchedulerAction::Sleep(nap),
    ensures
        0 < nap <= POLL_INTERVAL_MS,
        fire_time is Some ==> now + nap <= fire_time->0,
{
}

/// The deadline after one scheduler check at `now`: a check that fires
/// completes the firing, which consumes the deadline; any other check leaves
/// it as it was.
pub open spec fn after_check(fire_time: Option<u64>, now: u64) -> Option<u64> {
    if action_for(fire_time, now) == SchedulerAction::Fire {
        None
    } else {
        fire_time
    }
}

/// How many of the checks at the clock readings `times`, in order and with
/// no schedule call in between, fire.
pub open spec fn firings(fire_time: Option<u64>, times: Seq<u64>) -> nat
    decreases times.len(),
{
    if times.len() == 0 {
        0
    } else {
        (if action_for(fire_time, times[0]) == SchedulerAction::Fire {
            1nat
        } else {
            0nat
        }) + firings(after_check(fire_time, times[0]), times.drop_first())
    }
}

proof fn lemma_idle_never_fires(times: Seq<u64>)
    ensures
        firings(None, times) == 0,
    decreases times.len(),
{
    if times.len() > 0 {
        lemma_idle_never_fires(times.drop_first());
    }
}

/// One firing per deadline: over any run of checks with no schedule call in
/// between, the scheduler fires at most once; a check right after a firing
/// finds nothing scheduled.
pub proof fn lemma_fires_at_most_once(fire_time: Option<u64>, times: Seq<u64>)
    ensures
        firings(fire_time, times) <= 1,
        times.len() > 0 && action_for(fire_time, times[0]) == SchedulerAction::Fire ==> {
            &&& time_left(fire_time, times[0]) == Some(0u64)
            &&& firings(fire_time, times) == 1
            &&& (times.len() > 1 ==> time_left(after_check(fire_time, times[0]), times[1]) is None)
        },
    decreases times.len(),
{
    if times.len() > 0 {
        if action_for(fire_time, times[0]) == SchedulerAction::Fire {
            lemma_idle_never_fires(times.drop_first());
        } else {
            lemma_fires_at_most_once(fire_time, times.drop_first());
        }
    }
}

/// A due deadline fires: over checks at non-decreasing clock readings, with
/// no schedule call in between, the last of which is at or past the
/// deadline, the scheduler fires exactly once.
pub proof fn lemma_due_deadline_fires_once(deadline: u64, times: Seq<u64>)
    requires
        times.len() > 0,
        forall|i: int, j: int| 0 <= i < j < times.len() ==> times[i] <= times[j],
        deadline <= times.last(),
    ensures
        firings(Some(deadline), times) == 1,
    decreases times.len(),
{
    if action_for(Some(deadline), times[0]) == SchedulerAction::Fire {
        lemma_idle_never_fires(times.drop_first());
    } else {
        assert(times.len() > 1);
        let rest = times.drop_first();
        assert(rest.last() == times.last());
        lemma_due_deadline_fires_once(deadline, rest);
    }
}

/// The positions, in increasing order, of the successful deliveries in
/// `delivered`.
pub open spec fn kept_positions(delivered: Seq<bool>) -> Seq<int>
    decreases delivered.len(),
{
    if delivered.len() == 0 {
        Seq::empty()
    } else {
        let rest = kept_positions(delivered.drop_first()).map_values(|i: int| i + 1);
        if delivered[0] {
            seq![0int].add(rest)
        } else {
            rest
        }
    }
}

/// A broadcast keeps the observers in their original relative order: the
/// `j`-th survivor is the observer at the `j`-th position whose delivery
/// succeeded, and those positions increase.
pub proof fn lemma_survivors_keep_order<H>(clients: Seq<H>, delivered: Seq<bool>)
    requires
        clients.len() == delivered.len(),
    ensures
        survivors(clients, delivered).len() == kept_positions(delivered).len(),
        forall|j: int|
            0 <= j < kept_positions(delivered).len() ==> {
                let k = #[trigger] kept_positions(delivered)[j];
                &&& 0 <= k < clients.len()
                &&& delivered[k]
                &&& survivors(clients, delivered)[j] == clients[k]
            },
        forall|i: int, j: int|
            0 <= i < j < kept_positions(delivered).len() ==> kept_positions(delivered)[i]
                < kept_positions(delivered)[j],
    decreases clients.len(),
{
    if clients.len() > 0 {
        let c = clients.drop_first();
        let d = delivered.drop_first();
        lemma_survivors_keep_order(c, d);
        let rp = kept_positions(d);
        let rest = rp.map_values(|i: int| i + 1);
        let p = kept_positions(delivered);
        let sv = survivors(clients, delivered);
        let rs = survivors(c, d);
        assert forall|j: int| 0 <= j < rp.len() implies {
            &&& 0 <= #[trigger] rest[j] - 1 < c.len()
            &&& d[rest[j] - 1]
            &&& rs[j] == c[rest[j] - 1]
            &&& clients[rest[j]] == c[rest[j] - 1]
            &&& delivered[rest[j]] == d[rest[j] - 1]
        } by {
            assert(rest[j] == rp[j] + 1);
        }
        if delivered[0] {
            assert forall|j: int| 0 < j < p.len() implies p[j] == rest[j - 1] && sv[j] == rs[j
                - 1] by {}
        } else {
            assert(p == rest);
            assert(sv == rs);
        }
        assert forall|i: int, j: int| 0 <= i < j < rp.len() implies rest[i] < rest[j] by {
            assert(rest[i] == rp[i] + 1);
            assert(rest[j] == rp[j] + 1);
        }
    }
}

/// A broadcast to `n` observers in which `m` writes fail leaves exactly
/// `n - m` observers registered.
pub proof fn lemma_survivor_count<H>(clients: Seq<H>, delivered: Seq<bool>)
    requires
        clients.len() == delivered.len(),
    ensures
        failures(delivered) <= delivered.len(),
        survivors(clients, delivered).len() == clients.len() - failures(delivered),
    decreases clients.len(),
{
    if clients.len() > 0 {
        lemma_survivor_count(clients.drop_first(), delivered.drop_first());
    }
}

} // verus!
