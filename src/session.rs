use vstd::prelude::*;
use crate::clock::{MAX_CLOCK_EPOCH, current_time, local_midnight_after};
use crate::errors::Error;

verus! {

/// What a daily session holds: when it started, the midnight that ends its
/// day, whether the budget ran out, and the budget in seconds.
pub struct SessionView {
    pub start_time: i64,
    pub end_of_day: i64,
    pub ended: bool,
    pub duration: u64,
}

/// Checks a computed midnight against the start it should follow: the
/// midnight, where there is one and it lies strictly after `start`.
pub fn end_of_day_from(start: i64, midnight: Option<i64>) -> (r: Result<i64, Error>)
    ensures
        r == (match midnight {
            Some(m) if m > start => Ok::<i64, Error>(m),
            _ => Err::<i64, Error>(Error::CalculateEndOfDayError),
        }),
{
    match midnight {
        Some(m) => {
            if m > start {
                Ok(m)
            } else {
                Err(Error::CalculateEndOfDayError)
            }
        },
        None => Err(Error::CalculateEndOfDayError),
    }
}

/// The local midnight after `day`, which lies strictly after it, or
/// `CalculateEndOfDayError`.
pub fn calculate_end_of_day(day: i64) -> (r: Result<i64, Error>)
    ensures
        r matches Ok(m) ==> m > day,
        r matches Err(e) ==> e == Error::CalculateEndOfDayError,
        !(-MAX_CLOCK_EPOCH <= day <= MAX_CLOCK_EPOCH) ==> r is Err,
{
    end_of_day_from(day, local_midnight_after(day))
}

/// One tick of a session, given the seconds played so far, the instant
/// `now` and the local midnight after `now`: past the end of its day it
/// starts again at `now` (or fails with `CalculateEndOfDayError` where there
/// is no midnight after `now`); else, once the budget is used up, it ends.
pub open spec fn session_step(sv: SessionView, played: nat, now: i64, midnight: Option<i64>) -> Result<
    SessionView,
    Error,
> {
    if now >= sv.end_of_day {
        match midnight {
            Some(m) if m > now => Ok(
                SessionView { start_time: now, end_of_day: m, ended: false, duration: sv.duration },
            ),
            _ => Err(Error::CalculateEndOfDayError),
        }
    } else if sv.duration <= played && !sv.ended {
        Ok(SessionView { ended: true, ..sv })
    } else {
        Ok(sv)
    }
}

/// Within a day, a session ends on the tick where the seconds played reach
/// the budget, and not before; once ended it stays ended within the day.
pub proof fn lemma_budget_boundary(sv: SessionView, played: nat, now: i64, midnight: Option<i64>)
    requires
        now < sv.end_of_day,
    ensures
        session_step(sv, played, now, midnight) matches Ok(next) && next.ended == (sv.ended
            || sv.duration <= played) && next.end_of_day == sv.end_of_day && next.start_time
            == sv.start_time && next.duration == sv.duration,
{
}

/// Past the end of its day an ended session starts again, not ended, for a
/// day that ends strictly after the new start and so strictly after the
/// previous day ended.
pub proof fn lemma_day_rollover(sv: SessionView, played: nat, now: i64, m: i64)
    requires
        sv.end_of_day > sv.start_time,
        now >= sv.end_of_day,
        m > now,
    ensures
        session_step(sv, played, now, Some(m)) matches Ok(next) && !next.ended && next.start_time
            == now && next.end_of_day == m && next.end_of_day > sv.end_of_day
            && next.end_of_day > next.start_time && next.duration == sv.duration,
{
}

/// A daily play-time budget.
#[derive(Debug, Clone)]
pub struct DailyGamingSession {
    start_time: i64,
    end_of_day: i64,
    session_ended: bool,
    duration: u64,
}

impl View for DailyGamingSession {
    type V = SessionView;

    closed spec fn view(&self) -> SessionView {
        SessionView {
            start_time: self.start_time,
            end_of_day: self.end_of_day,
            ended: self.session_ended,
            duration: self.duration,
        }
    }
}

impl DailyGamingSession {
    /// The day of a session ends strictly after it started.
    pub open spec fn wf(&self) -> bool {
        self@.end_of_day > self@.start_time
    }

    /// A session that started at `start_time`, whose day ends at
    /// `end_of_day`, with a budget of `duration` seconds; refused with
    /// `CalculateEndOfDayError` unless the day ends after the start.
    pub fn starting_at(start_time: i64, end_of_day: i64, duration: u64) -> (r: Result<
        DailyGamingSession,
        Error,
    >)
        ensures
            end_of_day > start_time ==> (r matches Ok(s) && s@ == (SessionView {
                start_time,
                end_of_day,
                ended: false,
                duration,
            })),
            end_of_day <= start_time ==> r == Err::<DailyGamingSession, Error>(
                Error::CalculateEndOfDayError,
            ),
            r matches Ok(s) ==> s.wf(),
    {
        if end_of_day > start_time {
            Ok(DailyGamingSession { start_time, end_of_day, session_ended: false, duration })
        } else {
            Err(Error::CalculateEndOfDayError)
        }
    }

    /// A session that starts now, with no budget.
    pub fn new() -> (r: Result<DailyGamingSession, Error>)
        ensures
            r matches Ok(s) ==> s.wf() && !s@.ended && s@.duration == 0,
            r matches Err(e) ==> e == Error::CalculateEndOfDayError,
    {
        let start_time = current_time();
        let end_of_day = calculate_end_of_day(start_time)?;
        DailyGamingSession::starting_at(start_time, end_of_day, 0)
    }

    /// A session that starts now, with a budget of `duration` seconds.
    pub fn from_duration(duration: u64) -> (r: Result<DailyGamingSession, Error>)
        ensures
            r matches Ok(s) ==> s.wf() && !s@.ended && s@.duration == duration,
            r matches Err(e) ==> e == Error::CalculateEndOfDayError,
    {
        let mut session = DailyGamingSession::new()?;
        session.duration = duration;
        Ok(session)
    }

    /// Whether `time_played` seconds use up the budget.
    pub fn should_session_end(&self, time_played: u64) -> (r: bool)
        ensures
            r == (self@.duration <= time_played),
    {
        self.duration <= time_played
    }

    /// Whether the instant `now` is at or past the end of the session's day.
    pub fn day_ended(&self, now: i64) -> (r: bool)
        ensures
            r == (now >= self@.end_of_day),
    {
        now >= self.end_of_day
    }

    pub fn is_session_ended(&self) -> (r: bool)
        ensures
            r == self@.ended,
    {
        self.session_ended
    }

    pub fn duration(&self) -> (r: u64)
        ensures
            r == self@.duration,
    {
        self.duration
    }

    pub fn start_time(&self) -> (r: i64)
        ensures
            r == self@.start_time,
    {
        self.start_time
    }

    pub fn end_of_day(&self) -> (r: i64)
        ensures
            r == self@.end_of_day,
    {
        self.end_of_day
    }

    /// Marks the budget as used up.
    pub fn end_session(&mut self)
        ensures
            final(self)@ == (SessionView { ended: true, ..old(self)@ }),
    {
        self.session_ended = true;
    }

    /// Starts the session again at `now`, for the day that ends at the
    /// midnight `midnight`, and clears the ended flag; the budget stays. Where
    /// there is no such midnight after `now`, the session is left as it was
    /// and `CalculateEndOfDayError` comes back.
    pub fn restart_session_at(&mut self, now: i64, midnight: Option<i64>) -> (r: Result<(), Error>)
        ensures
            (match midnight {
                Some(m) if m > now => r is Ok && final(self)@ == (SessionView {
                    start_time: now,
                    end_of_day: m,
                    ended: false,
                    duration: old(self)@.duration,
                }),
                _ => r == Err::<(), Error>(Error::CalculateEndOfDayError) && final(self)@ == old(
                    self,
                )@,
            }),
    {
        let end_of_day = end_of_day_from(now, midnight)?;
        self.start_time = now;
        self.session_ended = false;
        self.end_of_day = end_of_day;
        Ok(())
    }

    /// One tick (see `session_step`) with `played` seconds played.
    pub fn step(&mut self, played: u64, now: i64, midnight: Option<i64>) -> (r: Result<(), Error>)
        ensures
            (match session_step(old(self)@, played as nat, now, midnight) {
                Ok(next) => r is Ok && final(self)@ == next,
                Err(e) => r == Err::<(), Error>(e) && final(self)@ == old(self)@,
            }),
            old(self).wf() ==> final(self).wf(),
    {
        if self.day_ended(now) {
            self.restart_session_at(now, midnight)
        } else {
            if self.should_session_end(played) && !self.is_session_ended() {
                self.end_session();
            }
            Ok(())
        }
    }

    /// Starts the session again now, until the next local midnight; the
    /// budget stays.
    pub fn restart_session(&mut self) -> (r: Result<(), Error>)
        ensures
            r is Ok ==> final(self).wf() && !final(self)@.ended && final(self)@.duration == old(
                self,
            )@.duration,
            r is Err ==> r == Err::<(), Error>(Error::CalculateEndOfDayError) && final(self)@
                == old(self)@,
    {
        let now = current_time();
        self.restart_session_at(now, local_midnight_after(now))
    }
}

} // verus!
