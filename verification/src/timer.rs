use rand::Rng;
use vstd::prelude::*;

verus! {

/// `std::time::Instant`, the moment a timer was started. Timers only carry
/// it and ask how much time has passed since.
#[verifier::external_type_specification]
#[verifier::external_body]
pub struct ExInstant(std::time::Instant);

/// Nanoseconds in a millisecond; every duration here is a count of
/// nanoseconds.
pub const NANOS_PER_MILLI: u128 = 1_000_000;

/// The heartbeat period of every timer: 100 ms.
pub const HEARTBEAT_TIMEOUT: u128 = 100_000_000;

/// The election timeout of a heartbeat timer: 1500 ms.
pub const HEARTBEAT_TIMER_ELECTION_TIMEOUT: u128 = 1_500_000_000;

/// The lower bound, in milliseconds, of a random election timeout.
pub const ELECTION_TIMEOUT_MIN_MS: u64 = 150;

/// The excluded upper bound, in milliseconds, of a random election timeout.
pub const ELECTION_TIMEOUT_MAX_MS: u64 = 300;

/// Which of the two protocol timers a timer is.
#[derive(Debug, Clone, Copy, PartialEq, Eq, Structural)]
pub enum TimerType {
    Election,
    Heartbeat,
}

/// A protocol timer. Durations are in nanoseconds.
pub struct Timer {
    pub election_timeout: u128,
    pub heartbeat_timeout: u128,
    start_time: Option<std::time::Instant>,
    pub is_running: bool,
    pub timer_type: TimerType,
}

/// The value of a timer: its timeouts, whether it holds a start time, whether
/// it runs, and its kind.
pub struct TimerView {
    pub election_timeout: u128,
    pub heartbeat_timeout: u128,
    pub started: bool,
    pub is_running: bool,
    pub timer_type: TimerType,
}

impl View for Timer {
    type V = TimerView;

    closed spec fn view(&self) -> TimerView {
        TimerView {
            election_timeout: self.election_timeout,
            heartbeat_timeout: self.heartbeat_timeout,
            started: self.start_time is Some,
            is_running: self.is_running,
            timer_type: self.timer_type,
        }
    }
}

/// Whether `t` is an election timeout that a random draw can give: a whole
/// number of milliseconds from 150 to 299.
pub open spec fn is_random_election_timeout(t: u128) -> bool {
    &&& t % NANOS_PER_MILLI == 0
    &&& ELECTION_TIMEOUT_MIN_MS * NANOS_PER_MILLI <= t < ELECTION_TIMEOUT_MAX_MS * NANOS_PER_MILLI
}

/// The timeouts that every timer keeps: a heartbeat timeout of 100 ms, and
/// an election timeout of 1500 ms for a heartbeat timer or a random draw in
/// range for an election timer.
pub open spec fn timer_sound(t: TimerView) -> bool {
    &&& t.heartbeat_timeout == HEARTBEAT_TIMEOUT
    &&& match t.timer_type {
        TimerType::Election => is_random_election_timeout(t.election_timeout),
        TimerType::Heartbeat => t.election_timeout == HEARTBEAT_TIMER_ELECTION_TIMEOUT,
    }
}

/// Whether `next` is `prev` after a `start`, a `stop` or a `reset`.
pub open spec fn timer_op(prev: TimerView, next: TimerView) -> bool {
    ||| next == prev.started_from()
    ||| next == prev.stopped()
    ||| prev.reset_to(next)
}

/// A new heartbeat timer: stopped, with the fixed timeouts.
pub open spec fn fresh_heartbeat_timer() -> TimerView {
    TimerView {
        election_timeout: HEARTBEAT_TIMER_ELECTION_TIMEOUT,
        heartbeat_timeout: HEARTBEAT_TIMEOUT,
        started: false,
        is_running: false,
        timer_type: TimerType::Heartbeat,
    }
}

impl TimerView {
    /// The timeout that applies to the timer's kind.
    pub open spec fn timeout(self) -> u128 {
        match self.timer_type {
            TimerType::Election => self.election_timeout,
            TimerType::Heartbeat => self.heartbeat_timeout,
        }
    }

    /// Whether the timer reports expiry once `elapsed` nanoseconds have passed
    /// since its start.
    pub open spec fn expired_after(self, elapsed: u128) -> bool {
        self.is_running && self.started && elapsed >= self.timeout()
    }

    /// What `remaining_time` reports once `elapsed` nanoseconds have passed
    /// since the start.
    pub open spec fn remaining_after(self, elapsed: u128) -> Option<u128> {
        if !self.is_running || !self.started {
            None
        } else if elapsed >= self.timeout() {
            Some(0)
        } else {
            Some((self.timeout() - elapsed) as u128)
        }
    }

    /// The timer once started: running from a fresh start time.
    pub open spec fn started_from(self) -> TimerView {
        TimerView { started: true, is_running: true, ..self }
    }

    /// The timer once stopped.
    pub open spec fn stopped(self) -> TimerView {
        TimerView { started: false, is_running: false, ..self }
    }

    /// Whether `next` is this timer after a reset: started again and, for an
    /// election timer, with a fresh random election timeout.
    pub open spec fn reset_to(self, next: TimerView) -> bool {
        &&& next.started
        &&& next.is_running
        &&& next.timer_type == self.timer_type
        &&& next.heartbeat_timeout == self.heartbeat_timeout
        &&& match self.timer_type {
            TimerType::Election => is_random_election_timeout(next.election_timeout),
            TimerType::Heartbeat => next.election_timeout == self.election_timeout,
        }
    }
}

/// A number drawn at random from `low` included to `high` excluded:
/// `rand::rng().random_range(low..high)`. The crate documents that the
/// draw falls in the range, and panics only on an empty range.
#[verifier::external_body]
fn random_in_range(low: u64, high: u64) -> (r: u64)
    requires
        low < high,
    ensures
        low <= r < high,
{
    rand::rng().random_range(low..high)
}

/// The current moment: `std::time::Instant::now`. Nothing is stated of it.
#[verifier::external_body]
fn now() -> (t: std::time::Instant) {
    std::time::Instant::now()
}

/// The nanoseconds passed since `start`: `start.elapsed().as_nanos()`. It
/// depends on the clock, so nothing is stated of it.
#[verifier::external_body]
fn nanos_since(start: &std::time::Instant) -> (n: u128) {
    start.elapsed().as_nanos()
}

impl Timer {
    /// An election timer, stopped, with a random election timeout.
    pub fn new_election_timer() -> (t: Self)
        ensures
            t@.timer_type == TimerType::Election,
            !t@.is_running,
            !t@.started,
            is_random_election_timeout(t@.election_timeout),
            t@.heartbeat_timeout == HEARTBEAT_TIMEOUT,
            timer_sound(t@),
    {
        Self {
            election_timeout: Self::random_election_timeout(),
            heartbeat_timeout: HEARTBEAT_TIMEOUT,
            start_time: None,
            is_running: false,
            timer_type: TimerType::Election,
        }
    }

    /// A heartbeat timer, stopped.
    pub fn new_heartbeat_timer() -> (t: Self)
        ensures
            t@ == fresh_heartbeat_timer(),
            timer_sound(t@),
    {
        Self {
            election_timeout: HEARTBEAT_TIMER_ELECTION_TIMEOUT,
            heartbeat_timeout: HEARTBEAT_TIMEOUT,
            start_time: None,
            is_running: false,
            timer_type: TimerType::Heartbeat,
        }
    }

    fn random_election_timeout() -> (t: u128)
        ensures
            is_random_election_timeout(t),
    {
        let ms = random_in_range(ELECTION_TIMEOUT_MIN_MS, ELECTION_TIMEOUT_MAX_MS);
        let t = ms as u128 * NANOS_PER_MILLI;
        assert(t % NANOS_PER_MILLI == 0 && ELECTION_TIMEOUT_MIN_MS * NANOS_PER_MILLI <= t
            < ELECTION_TIMEOUT_MAX_MS * NANOS_PER_MILLI) by (nonlinear_arith)
            requires
                t == ms * 1_000_000u128,
                150 <= ms < 300,
        ;
        t
    }

    /// Starts the timer again; an election timer also draws a new timeout.
    pub fn reset(&mut self)
        ensures
            old(self)@.reset_to(final(self)@),
            final(self)@.timer_type == old(self)@.timer_type,
            timer_sound(old(self)@) ==> timer_sound(final(self)@),
    {
        if self.timer_type == TimerType::Election {
            self.election_timeout = Self::random_election_timeout();
        }
        self.start();
    }

    /// Starts the timer from now.
    pub fn start(&mut self)
        ensures
            final(self)@ == old(self)@.started_from(),
            final(self)@.timer_type == old(self)@.timer_type,
            timer_sound(old(self)@) ==> timer_sound(final(self)@),
    {
        self.start_time = Some(now());
        self.is_running = true;
    }

    /// Stops the timer and forgets its start.
    pub fn stop(&mut self)
        ensures
            final(self)@ == old(self)@.stopped(),
            final(self)@.timer_type == old(self)@.timer_type,
            timer_sound(old(self)@) ==> timer_sound(final(self)@),
    {
        self.is_running = false;
        self.start_time = None;
    }

    /// Whether the timer has expired after `elapsed` nanoseconds since its
    /// start.
    pub fn expired_after(&self, elapsed: u128) -> (b: bool)
        ensures
            b == self@.expired_after(elapsed),
    {
        if !self.is_running {
            return false;
        }
        match self.start_time {
            Some(_) => elapsed >= self.get_timeout_duration(),
            None => false,
        }
    }

    /// Whether the timer runs and its timeout has passed since its start.
    pub fn is_expired(&self) -> (b: bool)
        ensures
            exists|elapsed: u128| b == self@.expired_after(elapsed),
            !self@.is_running ==> !b,
            !self@.started ==> !b,
    {
        if !self.is_running {
            assert(!self@.expired_after(0));
            return false;
        }
        match &self.start_time {
            Some(start) => {
                let elapsed = nanos_since(start);
                let b = self.expired_after(elapsed);
                assert(b == self@.expired_after(elapsed));
                b
            },
            None => {
                assert(!self@.expired_after(0));
                false
            },
        }
    }

    /// What is left of the timeout after `elapsed` nanoseconds since the
    /// start; `None` for a timer that does not run.
    pub fn remaining_after(&self, elapsed: u128) -> (r: Option<u128>)
        ensures
            r == self@.remaining_after(elapsed),
    {
        if !self.is_running {
            return None;
        }
        match self.start_time {
            Some(_) => {
                let timeout = self.get_timeout_duration();
                if elapsed >= timeout {
                    Some(0)
                } else {
                    Some(timeout - elapsed)
                }
            },
            None => None,
        }
    }

    /// What is left of the timeout now; `None` for a timer that does not run.
    pub fn remaining_time(&self) -> (r: Option<u128>)
        ensures
            exists|elapsed: u128| r == self@.remaining_after(elapsed),
            !self@.is_running || !self@.started ==> r is None,
            r matches Some(left) ==> left <= self@.timeout(),
    {
        if !self.is_running {
            assert(self@.remaining_after(0) is None);
            return None;
        }
        match &self.start_time {
            Some(start) => {
                let elapsed = nanos_since(start);
                let r = self.remaining_after(elapsed);
                assert(r == self@.remaining_after(elapsed));
                r
            },
            None => {
                assert(self@.remaining_after(0) is None);
                None
            },
        }
    }

    /// The timeout of the timer's kind.
    pub fn get_timeout(&self) -> (t: u128)
        ensures
            t == self@.timeout(),
    {
        match self.timer_type {
            TimerType::Election => self.election_timeout,
            TimerType::Heartbeat => self.heartbeat_timeout,
        }
    }

    fn get_timeout_duration(&self) -> (t: u128)
        ensures
            t == self@.timeout(),
    {
        match self.timer_type {
            TimerType::Election => self.election_timeout,
            TimerType::Heartbeat => self.heartbeat_timeout,
        }
    }

    /// How long a wait for expiry bounded by `max_wait` sleeps, and whether
    /// the timeout has passed at its end: the shorter of the timeout and
    /// `max_wait`, and whether that is the whole timeout.
    pub fn bounded_wait(&self, max_wait: u128) -> (res: (u128, bool))
        ensures
            res.0 == if self@.timeout() <= max_wait {
                self@.timeout()
            } else {
                max_wait
            },
            res.1 == (res.0 >= self@.timeout()),
    {
        let timeout = self.get_timeout_duration();
        let wait = if timeout <= max_wait {
            timeout
        } else {
            max_wait
        };
        (wait, wait >= timeout)
    }

    /// How long is left to wait for expiry after `elapsed` nanoseconds since
    /// the start, whether or not the timer runs: nothing for a timer
    /// without a start or whose timeout has passed.
    pub fn wait_after(&self, elapsed: u128) -> (r: Option<u128>)
        ensures
            r == self.wait_after_spec(elapsed),
    {
        match self.start_time {
            Some(_) => {
                let timeout = self.get_timeout_duration();
                if elapsed < timeout {
                    Some(timeout - elapsed)
                } else {
                    None
                }
            },
            None => None,
        }
    }

    /// How long is left to wait for expiry now: nothing for a timer without a
    /// start or whose timeout has passed.
    pub fn wait_until_expired_delay(&self) -> (r: Option<u128>)
        ensures
            exists|elapsed: u128| r == self.wait_after_spec(elapsed),
            !self@.started ==> r is None,
    {
        match &self.start_time {
            Some(start) => {
                let elapsed = nanos_since(start);
                let r = self.wait_after(elapsed);
                assert(r == self.wait_after_spec(elapsed));
                r
            },
            None => {
                assert(self.wait_after_spec(0) is None);
                None
            },
        }
    }

    /// The value of `wait_after(elapsed)`.
    pub open spec fn wait_after_spec(&self, elapsed: u128) -> Option<u128> {
        if self@.started && elapsed < self@.timeout() {
            Some((self@.timeout() - elapsed) as u128)
        } else {
            None::<u128>
        }
    }
}

/// A stopped timer never reports expiry nor time left, however long ago it
/// was started.
pub proof fn lemma_stopped_timer_silent(t: TimerView, elapsed: u128)
    ensures
        !t.stopped().expired_after(elapsed),
        t.stopped().remaining_after(elapsed) is None,
{
}

/// A started timer reports expiry exactly when no time is left, and what
/// is left together with what has passed makes up the timeout before it
/// expires.
pub proof fn lemma_started_timer_counts_down(t: TimerView, elapsed: u128)
    ensures
        t.started_from().expired_after(elapsed) <==> t.started_from().remaining_after(elapsed)
            == Some(0u128),
        elapsed < t.timeout() ==> t.started_from().remaining_after(elapsed) == Some(
            (t.timeout() - elapsed) as u128,
        ),
{
}

/// A sound timer's timeout is 100 ms for a heartbeat timer, and a whole
/// number of milliseconds from 150 to 299 for an election timer.
pub proof fn lemma_sound_timeout(t: TimerView)
    requires
        timer_sound(t),
    ensures
        t.timer_type == TimerType::Heartbeat ==> t.timeout() == HEARTBEAT_TIMEOUT,
        t.timer_type == TimerType::Election ==> is_random_election_timeout(t.timeout()),
{
}

/// Through any sequence of starts, stops and resets, a timer keeps its kind
/// and its timeouts stay sound; only a reset of an election timer changes
/// its timeout.
pub proof fn lemma_timer_run(ts: Seq<TimerView>)
    requires
        ts.len() > 0,
        timer_sound(ts[0]),
        forall|i: int| 0 <= i < ts.len() - 1 ==> #[trigger] timer_op(ts[i], ts[i + 1]),
    ensures
        forall|i: int|
            #![trigger ts[i]]
            0 <= i < ts.len() ==> timer_sound(ts[i]) && ts[i].timer_type == ts[0].timer_type,
        forall|i: int|
            0 <= i < ts.len() - 1 && ts[i + 1].election_timeout != ts[i].election_timeout
                ==> #[trigger] ts[i].reset_to(ts[i + 1]) && ts[i].timer_type == TimerType::Election,
    decreases ts.len(),
{
    if ts.len() > 1 {
        let init = ts.drop_last();
        assert forall|i: int| 0 <= i < init.len() - 1 implies #[trigger] timer_op(init[i], init[i + 1]) by {
            assert(timer_op(ts[i], ts[i + 1]));
        }
        lemma_timer_run(init);
        let j = ts.len() - 2;
        assert(init[0] == ts[0]);
        assert(timer_sound(init[j]) && init[j].timer_type == ts[0].timer_type);
        assert(init[j] == ts[j]);
        assert(timer_op(ts[j], ts[j + 1]));
        assert(timer_sound(ts[j + 1]));
        let n = j + 1;
        assert forall|i: int|
            #![trigger ts[i]]
            0 <= i < ts.len() implies timer_sound(ts[i]) && ts[i].timer_type == ts[0].timer_type by {
            if i < n {
                assert(init[i] == ts[i]);
                assert(timer_sound(init[i]));
            }
        }
    }
    assert forall|i: int|
        0 <= i < ts.len() - 1 && ts[i + 1].election_timeout != ts[i].election_timeout
            implies #[trigger] ts[i].reset_to(ts[i + 1]) && ts[i].timer_type == TimerType::Election by {
        assert(timer_op(ts[i], ts[i + 1]));
    }
}

} // verus!
