//! The control loop as a state machine: from a state and an event to the
//! next state and what the caller has to do.
//!
//! The caller owns the clock, the prober and the sleep. It reports what
//! happened as an [`Event`] and carries out the [`Action`] it gets back.
//! Times are milliseconds of a clock that does not run backwards.

use vstd::prelude::*;

verus! {

/// Where the loop stands.
#[derive(Clone, Copy, Debug, PartialEq, Eq, Structural)]
pub enum Phase {
    /// Between rounds.
    Idle,
    /// A round is being probed.
    Probing,
    /// The outcomes of the round are being recorded.
    Accounting,
    /// The rest of the interval is being slept.
    Sleeping,
}

/// What happened.
#[derive(Clone, Copy, Debug, PartialEq, Eq, Structural)]
pub enum Event {
    /// The configuration source changed.
    SourceChanged { now_ms: u64 },
    /// A round is to start.
    RoundDue { now_ms: u64 },
    /// The prober has produced the outcomes of the round.
    RoundDone,
    /// The outcomes have been recorded; `interval_ms` is the probe interval
    /// of the configuration that the round ran with.
    Accounted { now_ms: u64, interval_ms: u64 },
    /// The sleep is over.
    Woke,
}

/// What the caller has to do.
#[derive(Clone, Copy, Debug, PartialEq, Eq, Structural)]
pub enum Action {
    /// Nothing.
    Nothing,
    /// Start a round; first reload the configuration where `reload` is set.
    Probe { reload: bool },
    /// Record the outcomes of the round.
    Account,
    /// Sleep for the rest of the interval.
    Sleep { ms: u64 },
    /// The round took the whole interval and `late_by_ms` more: do not
    /// sleep, and warn of the overrun.
    Overrun { late_by_ms: u64 },
    /// The event does not belong to the phase; the state is unchanged.
    OutOfPlace,
}

/// The state of the loop.
#[derive(Clone, Copy, Debug, PartialEq, Eq, Structural)]
pub struct Scheduler {
    /// Where the loop stands.
    pub phase: Phase,
    /// When the round under way, or the last one, started.
    pub round_start_ms: u64,
    /// When the configuration source last changed, while that change has
    /// not been loaded.
    pub change_seen_ms: Option<u64>,
    /// For how long the source must have been quiet before it is reloaded.
    pub debounce_ms: u64,
}

/// The time from `from_ms` to `to_ms`; nothing where the clock stood still
/// or the times are out of order.
pub open spec fn elapsed(from_ms: u64, to_ms: u64) -> u64 {
    if to_ms >= from_ms {
        (to_ms - from_ms) as u64
    } else {
        0
    }
}

/// What to do once a round is accounted for: sleep for what is left of
/// the interval, or not at all where the round has used it up.
pub open spec fn pause_for(start_ms: u64, now_ms: u64, interval_ms: u64) -> Action {
    let spent = elapsed(start_ms, now_ms);
    if spent < interval_ms {
        Action::Sleep { ms: (interval_ms - spent) as u64 }
    } else {
        Action::Overrun { late_by_ms: (spent - interval_ms) as u64 }
    }
}

impl Scheduler {
    /// Whether a change of the source is due for loading at `now_ms`: one
    /// has been seen, and the source has been quiet for the debounce window
    /// since.
    pub open spec fn reload_due(self, now_ms: u64) -> bool {
        self.change_seen_ms matches Some(seen) && elapsed(seen, now_ms) >= self.debounce_ms
    }

    /// The state after an event.
    pub open spec fn next(self, event: Event) -> Scheduler {
        match (event, self.phase) {
            (Event::SourceChanged { now_ms }, _) => Scheduler {
                change_seen_ms: Some(now_ms),
                ..self
            },
            (Event::RoundDue { now_ms }, Phase::Idle) => Scheduler {
                phase: Phase::Probing,
                round_start_ms: now_ms,
                change_seen_ms: if self.reload_due(now_ms) {
                    None
                } else {
                    self.change_seen_ms
                },
                ..self
            },
            (Event::RoundDone, Phase::Probing) => Scheduler { phase: Phase::Accounting, ..self },
            (Event::Accounted { .. }, Phase::Accounting) => Scheduler {
                phase: Phase::Sleeping,
                ..self
            },
            (Event::Woke, Phase::Sleeping) => Scheduler { phase: Phase::Idle, ..self },
            _ => self,
        }
    }

    /// What the caller has to do after an event.
    pub open spec fn action(self, event: Event) -> Action {
        match (event, self.phase) {
            (Event::SourceChanged { .. }, _) => Action::Nothing,
            (Event::RoundDue { now_ms }, Phase::Idle) => Action::Probe {
                reload: self.reload_due(now_ms),
            },
            (Event::RoundDone, Phase::Probing) => Action::Account,
            (Event::Accounted { now_ms, interval_ms }, Phase::Accounting) => pause_for(
                self.round_start_ms,
                now_ms,
                interval_ms,
            ),
            (Event::Woke, Phase::Sleeping) => Action::Nothing,
            _ => Action::OutOfPlace,
        }
    }

    /// A loop at rest, with no change of the source noted.
    pub open spec fn at_rest(debounce_ms: u64) -> Scheduler {
        Scheduler { phase: Phase::Idle, round_start_ms: 0, change_seen_ms: None, debounce_ms }
    }

    /// A loop at rest that reloads a changed source once it has been quiet
    /// for `debounce_ms`.
    pub fn new(debounce_ms: u64) -> (s: Scheduler)
        ensures
            s == Scheduler::at_rest(debounce_ms),
    {
        Scheduler { phase: Phase::Idle, round_start_ms: 0, change_seen_ms: None, debounce_ms }
    }

    /// Takes an event: the next state, and what the caller has to do.
    pub fn step(self, event: Event) -> (r: (Scheduler, Action))
        ensures
            r.0 == self.next(event),
            r.1 == self.action(event),
    {
        match event {
            Event::SourceChanged { now_ms } => (
                Scheduler { change_seen_ms: Some(now_ms), ..self },
                Action::Nothing,
            ),
            Event::RoundDue { now_ms } => match self.phase {
                Phase::Idle => {
                    let reload = match self.change_seen_ms {
                        Some(seen) => since(seen, now_ms) >= self.debounce_ms,
                        None => false,
                    };
                    (
                        Scheduler {
                            phase: Phase::Probing,
                            round_start_ms: now_ms,
                            change_seen_ms: if reload {
                                None
                            } else {
                                self.change_seen_ms
                            },
                            ..self
                        },
                        Action::Probe { reload },
                    )
                },
                _ => (self, Action::OutOfPlace),
            },
            Event::RoundDone => match self.phase {
                Phase::Probing => (Scheduler { phase: Phase::Accounting, ..self }, Action::Account),
                _ => (self, Action::OutOfPlace),
            },
            Event::Accounted { now_ms, interval_ms } => match self.phase {
                Phase::Accounting => (
                    Scheduler { phase: Phase::Sleeping, ..self },
                    pause(self.round_start_ms, now_ms, interval_ms),
                ),
                _ => (self, Action::OutOfPlace),
            },
            Event::Woke => match self.phase {
                Phase::Sleeping => (Scheduler { phase: Phase::Idle, ..self }, Action::Nothing),
                _ => (self, Action::OutOfPlace),
            },
        }
    }
}

/// The time from `from_ms` to `to_ms`.
pub fn since(from_ms: u64, to_ms: u64) -> (ms: u64)
    ensures
        ms == elapsed(from_ms, to_ms),
{
    if to_ms >= from_ms {
        to_ms - from_ms
    } else {
        0
    }
}

/// Decides the pause after a round that started at `start_ms`, at the time
/// `now_ms`, for a probe interval of `interval_ms`.
pub fn pause(start_ms: u64, now_ms: u64, interval_ms: u64) -> (action: Action)
    ensures
        action == pause_for(start_ms, now_ms, interval_ms),
{
    let spent = since(start_ms, now_ms);
    if spent < interval_ms {
        Action::Sleep { ms: interval_ms - spent }
    } else {
        Action::Overrun { late_by_ms: spent - interval_ms }
    }
}

/// The pause keeps the cadence: a sleep ends exactly one interval after the
/// round began and is never longer than the interval; a round that has used
/// up its interval is followed by no sleep at all.
pub proof fn lemma_pause_keeps_cadence(start_ms: u64, now_ms: u64, interval_ms: u64)
    ensures
        match pause_for(start_ms, now_ms, interval_ms) {
            Action::Sleep { ms } => 0 < ms <= interval_ms && elapsed(start_ms, now_ms) + ms
                == interval_ms,
            Action::Overrun { late_by_ms } => elapsed(start_ms, now_ms) == interval_ms
                + late_by_ms,
            _ => false,
        },
{
}

/// The phases follow one another in a ring, and only the event that
/// belongs to a phase moves the loop on. A change of the source moves
/// nothing: it is only noted.
pub proof fn lemma_phases_cycle(s: Scheduler, event: Event)
    ensures
        s.next(event).debounce_ms == s.debounce_ms,
        s.next(event).phase != s.phase ==> s.next(event).phase == match s.phase {
            Phase::Idle => Phase::Probing,
            Phase::Probing => Phase::Accounting,
            Phase::Accounting => Phase::Sleeping,
            Phase::Sleeping => Phase::Idle,
        },
        event is SourceChanged ==> s.next(event).phase == s.phase,
        s.action(event) is OutOfPlace ==> s.next(event) == s,
{
}

/// A reload is called for only when a round starts, so never while one is
/// under way. Until then a change that was seen stays noted, and once the
/// reload is called for the note is gone.
pub proof fn lemma_reload_only_between_rounds(s: Scheduler, event: Event)
    ensures
        s.action(event) matches Action::Probe { reload } ==> s.phase is Idle && event is RoundDue
            && s.next(event).phase is Probing && (reload ==> s.change_seen_ms is Some && s.next(
            event,
        ).change_seen_ms is None) && (!reload ==> s.next(event).change_seen_ms
            == s.change_seen_ms),
        !(s.action(event) is Probe) && !(event is SourceChanged) ==> s.next(event).change_seen_ms
            == s.change_seen_ms,
{
}

} // verus!
