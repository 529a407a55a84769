//! Stop-watch bookkeeping for the three phases of a run.  The watch
//! stores instants as nanosecond readings supplied by the caller, so
//! the arithmetic on them is verified; only the textual formatting of
//! a duration relies on an outside crate.

use vstd::prelude::*;

verus! {

/// The three measured phases of a run.
#[derive(Clone, Copy, Debug)]
pub enum Timer {
    OverAll,
    List,
    Compute,
}

/// Start and stop readings, in nanoseconds, for each phase.
#[derive(Clone, Copy, Debug)]
pub struct StopWatch {
    start_overall: u64,
    start_list: u64,
    start_compute: u64,
    stop_overall: u64,
    stop_list: u64,
    stop_compute: u64,
}

impl StopWatch {
    /// The recorded start reading of a phase.
    pub closed spec fn start_of(self, timer: Timer) -> u64 {
        match timer {
            Timer::OverAll => self.start_overall,
            Timer::List => self.start_list,
            Timer::Compute => self.start_compute,
        }
    }

    /// The recorded stop reading of a phase.
    pub closed spec fn stop_of(self, timer: Timer) -> u64 {
        match timer {
            Timer::OverAll => self.stop_overall,
            Timer::List => self.stop_list,
            Timer::Compute => self.stop_compute,
        }
    }
}

/// A stop watch with all readings at zero.
pub fn new() -> (w: StopWatch)
    ensures
        forall|t: Timer| w.start_of(t) == 0 && w.stop_of(t) == 0,
{
    StopWatch {
        start_overall: 0,
        start_list: 0,
        start_compute: 0,
        stop_overall: 0,
        stop_list: 0,
        stop_compute: 0,
    }
}

impl StopWatch {
    /// Records `now` as the start reading of `timer`, leaving the
    /// other readings alone.
    pub fn start(&mut self, timer: Timer, now: u64)
        ensures
            final(self).start_of(timer) == now,
            forall|t: Timer|
                !matches_timer(t, timer) ==> final(self).start_of(t) == old(self).start_of(t),
            forall|t: Timer| final(self).stop_of(t) == old(self).stop_of(t),
    {
        match timer {
            Timer::OverAll => self.start_overall = now,
            Timer::List => self.start_list = now,
            Timer::Compute => self.start_compute = now,
        };
    }

    /// Records `now` as the stop reading of `timer`, leaving the
    /// other readings alone.
    pub fn stop(&mut self, timer: Timer, now: u64)
        ensures
            final(self).stop_of(timer) == now,
            forall|t: Timer|
                !matches_timer(t, timer) ==> final(self).stop_of(t) == old(self).stop_of(t),
            forall|t: Timer| final(self).start_of(t) == old(self).start_of(t),
    {
        match timer {
            Timer::OverAll => self.stop_overall = now,
            Timer::List => self.stop_list = now,
            Timer::Compute => self.stop_compute = now,
        };
    }

    /// The elapsed nanoseconds of a phase: the stop reading minus the
    /// start reading, or nothing when the watch was stopped before it
    /// was started.
    pub fn duration(&self, timer: Timer) -> (d: Option<u64>)
        ensures
            d == if self.stop_of(timer) >= self.start_of(timer) {
                Some((self.stop_of(timer) - self.start_of(timer)) as u64)
            } else {
                Option::<u64>::None
            },
    {
        let start = match timer {
            Timer::OverAll => self.start_overall,
            Timer::List => self.start_list,
            Timer::Compute => self.start_compute,
        };
        let stop = match timer {
            Timer::OverAll => self.stop_overall,
            Timer::List => self.stop_list,
            Timer::Compute => self.stop_compute,
        };
        if stop >= start {
            Some(stop - start)
        } else {
            None
        }
    }

    /// The elapsed time of a phase as text: `duration_text`.
    pub fn duration_as_string(&self, timer: Timer) -> (s: String)
        ensures
            s@ == self.duration_text(timer),
    {
        match self.duration(timer) {
            Some(n) => format_duration_nanos(n),
            None => String::new(),
        }
    }
}

impl StopWatch {
    /// The elapsed time of a phase as text, or empty when the phase
    /// has a stop reading before its start reading.
    pub open spec fn duration_text(self, timer: Timer) -> Seq<char> {
        if self.stop_of(timer) >= self.start_of(timer) {
            formatted_duration_of(
                ((self.stop_of(timer) - self.start_of(timer)) as u64 / 1000000000) as u64,
            )
        } else {
            Seq::<char>::empty()
        }
    }
}

/// Whether two timers name the same phase.
pub open spec fn matches_timer(a: Timer, b: Timer) -> bool {
    match (a, b) {
        (Timer::OverAll, Timer::OverAll) => true,
        (Timer::List, Timer::List) => true,
        (Timer::Compute, Timer::Compute) => true,
        _ => false,
    }
}

/// What indicatif's FormattedDuration prints for a duration of the
/// given whole seconds; it depends on the seconds alone.
pub uninterp spec fn formatted_duration_of(secs: u64) -> Seq<char>;

/// Relies on indicatif::FormattedDuration: its text is a function of
/// the duration's whole seconds.
#[verifier::external_body]
fn format_duration_nanos(nanos: u64) -> (s: String)
    ensures
        s@ == formatted_duration_of(nanos / 1000000000),
{
    format!("{}", indicatif::FormattedDuration(std::time::Duration::from_nanos(nanos)))
}

} // verus!
