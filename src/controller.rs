use vstd::prelude::*;
use crate::command::{parse_seconds, parsed_seconds};

verus! {

/// Longest sleep of the scheduler between two checks, in milliseconds.
pub const POLL_INTERVAL_MS: u64 = 100;

/// Milliseconds in one second.
pub const MS_PER_SECOND: u64 = 1000;

/// The deadline that `schedule_firing(seconds, now)` sets, for `seconds >= 0`:
/// `seconds` after `now`, saturated at the end of the clock's range.
pub open spec fn deadline_after(seconds: int, now: u64) -> u64 {
    if now + seconds * MS_PER_SECOND > u64::MAX {
        u64::MAX
    } else {
        (now + seconds * MS_PER_SECOND) as u64
    }
}

/// Time left until `deadline` at `now`: zero once the deadline is reached.
pub open spec fn remaining(deadline: u64, now: u64) -> u64 {
    if deadline > now {
        (deadline - now) as u64
    } else {
        0
    }
}

/// What `time_until_firing` reports for a pending deadline `fire_time` at `now`.
pub open spec fn time_left(fire_time: Option<u64>, now: u64) -> Option<u64> {
    match fire_time {
        Some(d) => Some(remaining(d, now)),
        None => None,
    }
}

/// The deadline after a `schedule_firing(seconds, now)` call on a controller
/// whose deadline was `fire_time`.
pub open spec fn scheduled(fire_time: Option<u64>, seconds: int, now: u64) -> Option<u64> {
    if seconds == -1 {
        None
    } else if seconds < 0 {
        fire_time
    } else {
        Some(deadline_after(seconds, now))
    }
}

/// What the scheduler does on a check at `now` of the deadline `fire_time`:
/// fire when it is due, else sleep until it is due but at most one poll
/// interval, or a whole poll interval when nothing is scheduled.
pub open spec fn action_for(fire_time: Option<u64>, now: u64) -> SchedulerAction {
    match time_left(fire_time, now) {
        Some(left) => if left == 0 {
            SchedulerAction::Fire
        } else if left < POLL_INTERVAL_MS {
            SchedulerAction::Sleep(left)
        } else {
            SchedulerAction::Sleep(POLL_INTERVAL_MS)
        },
        None => SchedulerAction::Sleep(POLL_INTERVAL_MS),
    }
}

/// The observers that remain after a broadcast in which the write to
/// `clients[i]` succeeded exactly when `delivered[i]`, in their order.
pub open spec fn survivors<H>(clients: Seq<H>, delivered: Seq<bool>) -> Seq<H>
    decreases clients.len(),
{
    if clients.len() == 0 || delivered.len() == 0 {
        Seq::empty()
    } else {
        let rest = survivors(clients.drop_first(), delivered.drop_first());
        if delivered[0] {
            seq![clients[0]].add(rest)
        } else {
            rest
        }
    }
}

/// Survivors grow at the end as outcomes are appended.
proof fn lemma_survivors_push<H>(clients: Seq<H>, delivered: Seq<bool>, client: H, ok: bool)
    requires
        clients.len() == delivered.len(),
    ensures
        survivors(clients.push(client), delivered.push(ok)) == survivors(clients, delivered).add(
            if ok {
                seq![client]
            } else {
                Seq::empty()
            },
        ),
    decreases clients.len(),
{
    if clients.len() > 0 {
        assert(clients.push(client).drop_first() =~= clients.drop_first().push(client));
        assert(delivered.push(ok).drop_first() =~= delivered.drop_first().push(ok));
        lemma_survivors_push(clients.drop_first(), delivered.drop_first(), client, ok);
        let rest = survivors(clients.drop_first(), delivered.drop_first());
        let tail: Seq<H> = if ok {
            seq![client]
        } else {
            Seq::empty()
        };
        if delivered[0] {
            assert(seq![clients[0]].add(rest).add(tail) =~= seq![clients[0]].add(rest.add(tail)));
        }
    } else {
        assert(clients.push(client).drop_first() =~= Seq::<H>::empty());
        assert(delivered.push(ok).drop_first() =~= Seq::<bool>::empty());
        assert(survivors(Seq::<H>::empty(), Seq::<bool>::empty()) =~= Seq::<H>::empty());
    }
}

/// Number of failed deliveries in `delivered`.
pub open spec fn failures(delivered: Seq<bool>) -> nat
    decreases delivered.len(),
{
    if delivered.len() == 0 {
        0
    } else {
        (if delivered[0] { 0nat } else { 1nat }) + failures(delivered.drop_first())
    }
}

/// Why a schedule request was turned down.
#[derive(Debug, Clone, Copy, PartialEq, Eq, Structural)]
pub enum ScheduleError {
    /// A negative delay other than the cancel value `-1`.
    NegativeDelay,
}

/// What the scheduler does after one check of the deadline.
#[derive(Debug, Clone, Copy, PartialEq, Eq, Structural)]
pub enum SchedulerAction {
    /// The deadline is due: deliver the notification to every observer, then
    /// report the outcome with `complete_firing`.
    Fire,
    /// Nothing to do yet: sleep this many milliseconds and check again.
    Sleep(u64),
}

/// The shared state: an optional deadline and the observers to notify.
pub struct PropulsionController<H> {
    fire_time: Option<u64>,
    clients: Vec<H>,
}

impl<H> PropulsionController<H> {
    /// The pending deadline, in milliseconds of the clock, if any.
    pub closed spec fn deadline(&self) -> Option<u64> {
        self.fire_time
    }

    /// The registered observers, in the order they were added.
    pub closed spec fn observers(&self) -> Seq<H> {
        self.clients@
    }

    /// A controller with no deadline and no observers.
    pub fn new() -> (r: Self)
        ensures
            r.deadline() is None,
            r.observers() == Seq::<H>::empty(),
    {
        PropulsionController { fire_time: None, clients: Vec::new() }
    }

    /// Sets the deadline `seconds` after `now`, or clears it when `seconds` is
    /// `-1`. Any earlier deadline is replaced. A negative value other than `-1`
    /// is refused and leaves the controller as it was.
    pub fn schedule_firing(&mut self, seconds: i32, now: u64) -> (r: Result<(), ScheduleError>)
        ensures
            final(self).observers() == old(self).observers(),
            final(self).deadline() == scheduled(old(self).deadline(), seconds as int, now),
            seconds == -1 ==> r is Ok && final(self).deadline() is None,
            seconds >= 0 ==> r is Ok && final(self).deadline() == Some(
                deadline_after(seconds as int, now),
            ),
            seconds < -1 ==> r == Err::<(), ScheduleError>(ScheduleError::NegativeDelay)
                && final(self).deadline() == old(self).deadline(),
    {
        if seconds == -1 {
            self.fire_time = None;
            Ok(())
        } else if seconds < 0 {
            Err(ScheduleError::NegativeDelay)
        } else {
            let offset: u64 = seconds as u64 * MS_PER_SECOND;
            self.fire_time = Some(now.saturating_add(offset));
            Ok(())
        }
    }

    /// Milliseconds left until the deadline at `now`: zero once it is due,
    /// `None` when nothing is scheduled.
    pub fn time_until_firing(&self, now: u64) -> (r: Option<u64>)
        ensures
            r == time_left(self.deadline(), now),
    {
        match self.fire_time {
            Some(time) => {
                if time > now {
                    Some(time - now)
                } else {
                    Some(0)
                }
            },
            None => None,
        }
    }

    /// Consumes the deadline, so that a firing does not repeat.
    pub fn clear_deadline(&mut self)
        ensures
            final(self).deadline() is None,
            final(self).observers() == old(self).observers(),
    {
        self.fire_time = None;
    }

    /// Registers an observer after those already present.
    pub fn add_client(&mut self, client: H)
        ensures
            final(self).deadline() == old(self).deadline(),
            final(self).observers() == old(self).observers().push(client),
    {
        self.clients.push(client);
    }

    /// Removes every observer whose delivery failed (`delivered[i]` false for
    /// `clients[i]`), keeping the others in their order.
    pub fn remove_failed(&mut self, delivered: &Vec<bool>)
        requires
            delivered@.len() == old(self).observers().len(),
        ensures
            final(self).deadline() == old(self).deadline(),
            final(self).observers() == survivors(old(self).observers(), delivered@),
    {
        let ghost start = self.clients@;
        let n = self.clients.len();
        let mut rest: Vec<H> = Vec::new();
        std::mem::swap(&mut self.clients, &mut rest);
        // Move the observers, last first, into `pending`.
        let mut pending: Vec<H> = Vec::new();
        while rest.len() > 0
            invariant
                n == start.len(),
                rest@.len() + pending@.len() == n,
                rest@ == start.subrange(0, rest@.len() as int),
                forall|j: int| 0 <= j < pending@.len() ==> #[trigger] pending@[j] == start[n - 1 - j],
            decreases rest@.len(),
        {
            match rest.pop() {
                Some(h) => pending.push(h),
                None => {},
            }
        }
        // Take them back first to last, keeping those that were reached.
        let mut i: usize = 0;
        while pending.len() > 0
            invariant
                n == start.len(),
                n == delivered@.len(),
                i + pending@.len() == n,
                forall|j: int| 0 <= j < pending@.len() ==> #[trigger] pending@[j] == start[n - 1 - j],
                self.fire_time == old(self).fire_time,
                self.clients@ == survivors(
                    start.subrange(0, i as int),
                    delivered@.subrange(0, i as int),
                ),
            decreases pending@.len(),
        {
            let last = pending.len() - 1;
            assert(pending@[last as int] == start[i as int]);
            proof {
                lemma_survivors_push(
                    start.subrange(0, i as int),
                    delivered@.subrange(0, i as int),
                    start[i as int],
                    delivered@[i as int],
                );
                assert(start.subrange(0, i as int).push(start[i as int]) =~= start.subrange(0, i + 1));
                assert(delivered@.subrange(0, i as int).push(delivered@[i as int])
                    =~= delivered@.subrange(0, i + 1));
            }
            match pending.pop() {
                Some(h) => {
                    if delivered[i] {
                        self.clients.push(h);
                    }
                },
                None => {},
            }
            i = i + 1;
        }
        assert(start.subrange(0, n as int) =~= start);
        assert(delivered@.subrange(0, n as int) =~= delivered@);
    }

    /// One check of the scheduler at `now`: what to do next.
    pub fn poll(&self, now: u64) -> (r: SchedulerAction)
        ensures
            r == action_for(self.deadline(), now),
    {
        match self.time_until_firing(now) {
            Some(left) => {
                if left == 0 {
                    SchedulerAction::Fire
                } else if left < POLL_INTERVAL_MS {
                    SchedulerAction::Sleep(left)
                } else {
                    SchedulerAction::Sleep(POLL_INTERVAL_MS)
                }
            },
            None => SchedulerAction::Sleep(POLL_INTERVAL_MS),
        }
    }

    /// Ends a firing: drops the observers whose delivery failed
    /// (`delivered[i]` false for `clients[i]`) and consumes the deadline.
    pub fn complete_firing(&mut self, delivered: &Vec<bool>)
        requires
            delivered@.len() == old(self).observers().len(),
        ensures
            final(self).deadline() is None,
            final(self).observers() == survivors(old(self).observers(), delivered@),
    {
        self.remove_failed(delivered);
        self.clear_deadline();
    }

    /// Applies one command line received at `now`: a signed integer, once
    /// trimmed of whitespace, schedules (or with `-1` cancels) the firing.
    /// Anything else, and a negative delay other than `-1`, is ignored.
    /// Returns whether the line was applied.
    pub fn handle_line(&mut self, line: &[u8], now: u64) -> (r: bool)
        ensures
            final(self).observers() == old(self).observers(),
            r == (parsed_seconds(line@) is Some && parsed_seconds(line@)->0 >= -1),
            final(self).deadline() == match parsed_seconds(line@) {
                Some(seconds) => scheduled(old(self).deadline(), seconds as int, now),
                None => old(self).deadline(),
            },
    {
        match parse_seconds(line) {
            Some(seconds) => self.schedule_firing(seconds, now).is_ok(),
            None => false,
        }
    }

    /// Number of registered observers.
    pub fn client_count(&self) -> (r: usize)
        ensures
            r == self.observers().len(),
    {
        self.clients.len()
    }

    /// The registered observers, in order, for the caller to write to.
    pub fn clients(&self) -> (r: &Vec<H>)
        ensures
            r@ == self.observers(),
    {
        &self.clients
    }
}

} // verus!
