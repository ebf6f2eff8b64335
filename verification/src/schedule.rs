//! The scheduler's arithmetic: parse a cron-style expression, compute the
//! next fire time, and turn it into a non-negative wait. The cron crate does
//! the calendar work behind trusted wrappers; the wait computation and the
//! tick decision are verified.

use vstd::prelude::*;

verus! {

#[verifier::external_type_specification]
#[verifier::external_body]
pub struct ExSchedule(cron::Schedule);

/// Whether the cron crate's grammar accepts an expression. Parsing is a
/// function of the expression text alone.
pub uninterp spec fn cron_accepts(expr: Seq<char>) -> bool;

/// The next fire time of a parsed schedule, in milliseconds since the epoch,
/// as the cron crate computes it from the expression and the instant alone;
/// None when the schedule holds no further fire time or the instant lies
/// outside the calendar's range.
pub uninterp spec fn next_fire_of(expr: Seq<char>, now_ms: i64) -> Option<i64>;

/// Instants this far below the calendar's edge (around year 255,000) leave
/// the next-fire search room to step past them without overflow.
pub const MAX_CLOCK_MS: i64 = 8_000_000_000_000_000;

/// Relies on cron::Schedule::from_str: it parses the expression text alone
/// and returns Ok exactly when the text is a well-formed cron expression.
#[verifier::external_body]
fn parse_schedule(expr: &str) -> (r: Option<cron::Schedule>)
    ensures
        (r is Some) <==> cron_accepts(expr@),
{
    <cron::Schedule as core::str::FromStr>::from_str(expr).ok()
}

/// The schedule expression failed to parse; the scheduling loop cannot start.
#[derive(Debug, PartialEq, Eq, Structural)]
pub enum ScheduleError {
    ScheduleInvalid,
}

/// Waiting time in milliseconds before the next scheduled fire: zero whenever
/// the fire time is already due, the exact distance otherwise.
pub open spec fn wait_of(next: int, now: int) -> int {
    if next <= now {
        0
    } else {
        next - now
    }
}

/// Milliseconds to sleep until a fire time. A fire time at or before `now`
/// yields a zero wait, so a due tick fires immediately and is never stalled.
pub fn wait_millis(next: i64, now: i64) -> (r: u64)
    ensures
        r == wait_of(next as int, now as int),
        next <= now ==> r == 0,
{
    if next <= now {
        0
    } else {
        ((next as i128) - (now as i128)) as u64
    }
}

/// What the scheduling loop does next: sleep the given milliseconds and then
/// fire a poll cycle, or halt because the schedule holds no further fire
/// time.
#[derive(Clone, Copy, Debug, PartialEq, Eq, Structural)]
pub enum TickPlan {
    FireAfter(u64),
    Halt,
}

/// A parsed, valid schedule driving the recurring poll cycle. It remembers
/// the expression it was parsed from, so that contracts can speak of the
/// schedule's fire times by that text.
pub struct Cadence {
    inner: cron::Schedule,
    source: Ghost<Seq<char>>,
}

impl Cadence {
    /// The expression this cadence was parsed from.
    pub closed spec fn expr(&self) -> Seq<char> {
        self.source@
    }

    /// Parses a cron-style expression; a malformed one is the fatal
    /// `ScheduleInvalid` startup error.
    pub fn parse(expr: &str) -> (r: Result<Cadence, ScheduleError>)
        ensures
            (r is Ok) <==> cron_accepts(expr@),
            r matches Ok(c) ==> c.expr() == expr@,
            (r is Err) ==> r == Result::<Cadence, ScheduleError>::Err(
                ScheduleError::ScheduleInvalid,
            ),
    {
        match parse_schedule(expr) {
            Some(inner) => Ok(Cadence { inner, source: Ghost(expr@) }),
            None => Err(ScheduleError::ScheduleInvalid),
        }
    }

    /// Relies on cron::Schedule::after and its iterator: the next fire time
    /// is a function of the parsed schedule and the instant alone, and lies
    /// strictly after the instant — the search starts one whole second past
    /// it, which the bound on the instant keeps inside chrono's calendar.
    /// Naming the result over the expression is sound because `parse` is the
    /// sole constructor and sets the schedule and the ghost expression
    /// together from one text.
    #[verifier::external_body]
    fn next_fire(&self, now_ms: i64) -> (r: Option<i64>)
        requires
            now_ms < MAX_CLOCK_MS,
        ensures
            r == next_fire_of(self.expr(), now_ms),
            r is Some ==> now_ms < r.unwrap(),
    {
        match chrono::DateTime::<chrono::Utc>::from_timestamp_millis(now_ms) {
            None => None,
            Some(now) => match self.inner.after(&now).next() {
                None => None,
                Some(next) => Some(next.timestamp_millis()),
            },
        }
    }

    /// One step of the scheduling loop, recomputed from the wall clock each
    /// iteration: the next absolute fire time becomes a wait from `now`, so
    /// the cadence never drifts and never stalls on a due fire time.
    pub fn plan_tick(&self, now_ms: i64) -> (r: TickPlan)
        requires
            now_ms < MAX_CLOCK_MS,
        ensures
            (r == TickPlan::Halt) <==> (next_fire_of(self.expr(), now_ms) is None),
            r matches TickPlan::FireAfter(w) ==> w > 0 && w == wait_of(
                next_fire_of(self.expr(), now_ms).unwrap() as int,
                now_ms as int,
            ),
    {
        match self.next_fire(now_ms) {
            None => TickPlan::Halt,
            Some(next) => {
                let w = wait_millis(next, now_ms);
                proof {
                    assert(now_ms < next);
                    assert(w == wait_of(next as int, now_ms as int));
                }
                TickPlan::FireAfter(w)
            },
        }
    }
}

/// The fixed cadence of the self-ping loop: once a minute, on second 24.
pub open spec fn self_ping_expr() -> Seq<char> {
    seq!['2', '4', ' ', '*', ' ', '*', ' ', '*', ' ', '*', ' ', '*']
}

/// The self-ping loop's cadence, parsed from its fixed expression.
pub fn self_ping_cadence() -> (r: Result<Cadence, ScheduleError>)
    ensures
        (r is Ok) <==> cron_accepts(self_ping_expr()),
        r matches Ok(c) ==> c.expr() == self_ping_expr(),
{
    let r = Cadence::parse("24 * * * * *");
    proof {
        reveal_strlit("24 * * * * *");
        assert("24 * * * * *"@ =~= self_ping_expr());
    }
    r
}

} // verus!
