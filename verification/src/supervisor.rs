//! The restart policy.
//!
//! The supervisor is a state machine. The program that drives it asks which
//! action is due, performs it, and reports what happened as an event. A
//! child that exits with status zero ends the run; anything else, whether a
//! non-zero status, a death by signal, a status that cannot be had, or a
//! child that cannot even be started, leads to another attempt at once,
//! without delay and without a limit on the number of attempts.

use vstd::prelude::*;

verus! {

/// Where the supervisor stands.
#[derive(Clone, Copy, Debug, PartialEq, Eq, Structural)]
pub enum Phase {
    /// About to launch the command.
    Starting,
    /// The child runs and its streams are being drained.
    Running,
    /// The child exited with status zero. Nothing follows.
    ExitedClean,
    /// The child ended in any other way.
    ExitedNonclean,
    /// The child's status could not be obtained.
    WaitError,
    /// The attempt ended before a child ran.
    StartFailed,
}

/// What the driver reports to the supervisor.
#[derive(Clone, Copy, Debug, PartialEq, Eq, Structural)]
pub enum Event {
    /// The child was launched.
    Spawned,
    /// The child could not be launched.
    SpawnFailed,
    /// The log could not be opened.
    LogOpenFailed,
    /// The child ended. `code` is its exit status, or `None` if it has none
    /// (it was ended by a signal).
    Exited { code: Option<i32> },
    /// Waiting for the child failed.
    WaitFailed,
    /// The driver is ready for the next attempt.
    Restart,
}

/// What the driver has to do next.
#[derive(Clone, Copy, Debug, PartialEq, Eq, Structural)]
pub enum Action {
    /// Open the log and launch the command.
    Spawn,
    /// Drain both streams to their end, then wait for the child.
    AwaitExit,
    /// Go round again.
    Restart,
    /// Leave the loop.
    Stop,
}

/// The phase that follows `phase` on `event`. An event that has no meaning
/// in a phase leaves it as it is.
pub open spec fn step(phase: Phase, event: Event) -> Phase {
    match (phase, event) {
        (Phase::Starting, Event::Spawned) => Phase::Running,
        (Phase::Starting, Event::SpawnFailed) => Phase::StartFailed,
        (Phase::Starting, Event::LogOpenFailed) => Phase::StartFailed,
        (Phase::Running, Event::Exited { code }) => if code == Some(0i32) {
            Phase::ExitedClean
        } else {
            Phase::ExitedNonclean
        },
        (Phase::Running, Event::WaitFailed) => Phase::WaitError,
        (Phase::ExitedNonclean, Event::Restart) => Phase::Starting,
        (Phase::WaitError, Event::Restart) => Phase::Starting,
        (Phase::StartFailed, Event::Restart) => Phase::Starting,
        _ => phase,
    }
}

/// The action that is due in `phase`.
pub open spec fn action_for(phase: Phase) -> Action {
    match phase {
        Phase::Starting => Action::Spawn,
        Phase::Running => Action::AwaitExit,
        Phase::ExitedClean => Action::Stop,
        Phase::ExitedNonclean => Action::Restart,
        Phase::WaitError => Action::Restart,
        Phase::StartFailed => Action::Restart,
    }
}

/// The phase reached from `phase` after the events of `events` in turn.
pub open spec fn run(phase: Phase, events: Seq<Event>) -> Phase
    decreases events.len(),
{
    if events.len() == 0 {
        phase
    } else {
        step(run(phase, events.drop_last()), events.last())
    }
}

/// `event` is one of those that end an attempt.
pub open spec fn ends_attempt(event: Event) -> bool {
    event != Event::Spawned && event != Event::Restart
}

/// `event` ends an attempt before a child ran.
pub open spec fn fails_start(event: Event) -> bool {
    event == Event::SpawnFailed || event == Event::LogOpenFailed
}

/// `event` is a clean exit: the child ended with status zero.
pub open spec fn is_clean_exit(event: Event) -> bool {
    event == (Event::Exited { code: Some(0i32) })
}

/// How far a phase is from the point where the driver next needs to learn
/// how an attempt ended.
pub open spec fn distance(phase: Phase) -> nat {
    match phase {
        Phase::Running => 0,
        Phase::Starting => 1,
        _ => 2,
    }
}

/// A run of the driver from `phase`, where `outcomes` says how each attempt
/// in turn will end. The driver does what `action_for` asks and reports it
/// with the matching event. The result is the phase at which the driver
/// stops, or at which the outcomes run out, and the number of attempts it
/// began on the way.
pub open spec fn supervise(phase: Phase, outcomes: Seq<Event>) -> (Phase, nat)
    decreases outcomes.len(), distance(phase),
{
    match action_for(phase) {
        Action::Stop => (phase, 0),
        Action::Restart => supervise(step(phase, Event::Restart), outcomes),
        Action::Spawn => if outcomes.len() == 0 {
            (phase, 0)
        } else if fails_start(outcomes[0]) {
            let rest = supervise(step(phase, outcomes[0]), outcomes.skip(1));
            (rest.0, rest.1 + 1)
        } else {
            let rest = supervise(step(phase, Event::Spawned), outcomes);
            (rest.0, rest.1 + 1)
        },
        Action::AwaitExit => if outcomes.len() == 0 {
            (phase, 0)
        } else {
            supervise(step(phase, outcomes[0]), outcomes.skip(1))
        },
    }
}

/// A child that ends with anything but status zero is launched again: the
/// supervisor asks for a restart, and after it for a spawn.
pub proof fn lemma_nonclean_exit_respawns(code: Option<i32>)
    requires
        code != Some(0i32),
    ensures
        step(Phase::Running, Event::Exited { code }) == Phase::ExitedNonclean,
        action_for(Phase::ExitedNonclean) == Action::Restart,
        step(Phase::ExitedNonclean, Event::Restart) == Phase::Starting,
        action_for(Phase::Starting) == Action::Spawn,
{
}

/// A status that cannot be had, and an attempt that cannot start, lead to
/// another attempt as well.
pub proof fn lemma_failures_respawn()
    ensures
        step(Phase::Running, Event::WaitFailed) == Phase::WaitError,
        step(Phase::Starting, Event::SpawnFailed) == Phase::StartFailed,
        step(Phase::Starting, Event::LogOpenFailed) == Phase::StartFailed,
        action_for(Phase::WaitError) == Action::Restart,
        action_for(Phase::StartFailed) == Action::Restart,
        step(Phase::WaitError, Event::Restart) == Phase::Starting,
        step(Phase::StartFailed, Event::Restart) == Phase::Starting,
{
}

/// A child that exits with status zero ends the run, and only that does:
/// the supervisor asks to stop exactly in the phase that a clean exit leads
/// to, and no event leads out of that phase.
pub proof fn lemma_clean_exit_stops(events: Seq<Event>)
    ensures
        step(Phase::Running, Event::Exited { code: Some(0i32) }) == Phase::ExitedClean,
        forall|phase: Phase| action_for(phase) == Action::Stop <==> phase == Phase::ExitedClean,
        forall|phase: Phase, event: Event| #[trigger]
            step(phase, event) == Phase::ExitedClean ==> phase == Phase::ExitedClean || (phase
                == Phase::Running && is_clean_exit(event)),
        run(Phase::ExitedClean, events) == Phase::ExitedClean,
    decreases events.len(),
{
    if events.len() > 0 {
        lemma_clean_exit_stops(events.drop_last());
    }
}

/// An attempt that ends otherwise than by a clean exit counts as one
/// attempt and leaves the driver about to begin the next.
pub proof fn lemma_nonclean_attempt(outcomes: Seq<Event>)
    requires
        outcomes.len() > 0,
        ends_attempt(outcomes[0]),
        !is_clean_exit(outcomes[0]),
    ensures
        supervise(Phase::Starting, outcomes).0 == supervise(Phase::Starting, outcomes.skip(1)).0,
        supervise(Phase::Starting, outcomes).1 == supervise(Phase::Starting, outcomes.skip(1)).1
            + 1,
{
    let first = outcomes[0];
    let rest = outcomes.skip(1);
    if fails_start(first) {
        assert(supervise(Phase::StartFailed, rest) == supervise(Phase::Starting, rest));
    } else {
        let ended = step(Phase::Running, first);
        assert(supervise(Phase::Running, outcomes) == supervise(ended, rest));
        assert(supervise(ended, rest) == supervise(Phase::Starting, rest));
    }
}

/// The restart policy over a whole run. If the attempts before the `k`-th
/// all end otherwise than by a clean exit, and the `k`-th ends by a clean
/// exit, the driver makes exactly `k + 1` attempts and stops there, whatever
/// the outcomes after it would have been.
pub proof fn lemma_attempts_until_clean(outcomes: Seq<Event>, k: int)
    requires
        0 <= k < outcomes.len(),
        forall|i: int|
            0 <= i < k ==> ends_attempt(#[trigger] outcomes[i]) && !is_clean_exit(outcomes[i]),
        is_clean_exit(outcomes[k]),
    ensures
        supervise(Phase::Starting, outcomes) == (Phase::ExitedClean, (k + 1) as nat),
    decreases k,
{
    let rest = outcomes.skip(1);
    if k == 0 {
        assert(supervise(Phase::Running, outcomes) == supervise(Phase::ExitedClean, rest));
    } else {
        assert forall|i: int| 0 <= i < k - 1 implies ends_attempt(#[trigger] rest[i])
            && !is_clean_exit(rest[i]) by {
            assert(rest[i] == outcomes[i + 1]);
        }
        assert(rest[k - 1] == outcomes[k]);
        lemma_attempts_until_clean(rest, k - 1);
        lemma_nonclean_attempt(outcomes);
    }
}

/// Without a clean exit the driver never stops: if every attempt ends
/// otherwise, it begins as many attempts as there are outcomes and is then
/// about to begin one more.
pub proof fn lemma_no_clean_exit_never_stops(outcomes: Seq<Event>)
    requires
        forall|i: int|
            0 <= i < outcomes.len() ==> ends_attempt(#[trigger] outcomes[i]) && !is_clean_exit(
                outcomes[i],
            ),
    ensures
        supervise(Phase::Starting, outcomes) == (Phase::Starting, outcomes.len()),
    decreases outcomes.len(),
{
    if outcomes.len() > 0 {
        let rest = outcomes.skip(1);
        assert forall|i: int| 0 <= i < rest.len() implies ends_attempt(#[trigger] rest[i])
            && !is_clean_exit(rest[i]) by {
            assert(rest[i] == outcomes[i + 1]);
        }
        lemma_no_clean_exit_never_stops(rest);
        lemma_nonclean_attempt(outcomes);
    }
}

/// The supervisor of one command.
pub struct Supervisor {
    phase: Phase,
}

impl View for Supervisor {
    type V = Phase;

    closed spec fn view(&self) -> Phase {
        self.phase
    }
}

impl Supervisor {
    /// A supervisor that is about to make its first attempt.
    pub fn new() -> (supervisor: Supervisor)
        ensures
            supervisor@ == Phase::Starting,
    {
        Supervisor { phase: Phase::Starting }
    }

    /// The phase the supervisor is in.
    pub fn phase(&self) -> (phase: Phase)
        ensures
            phase == self@,
    {
        self.phase
    }

    /// The action that is due.
    pub fn action(&self) -> (action: Action)
        ensures
            action == action_for(self@),
    {
        match self.phase {
            Phase::Starting => Action::Spawn,
            Phase::Running => Action::AwaitExit,
            Phase::ExitedClean => Action::Stop,
            Phase::ExitedNonclean => Action::Restart,
            Phase::WaitError => Action::Restart,
            Phase::StartFailed => Action::Restart,
        }
    }

    /// Takes note of an event and says which action is due after it.
    pub fn handle(&mut self, event: Event) -> (action: Action)
        ensures
            final(self)@ == step(old(self)@, event),
            action == action_for(final(self)@),
    {
        let next = match self.phase {
            Phase::Starting => match event {
                Event::Spawned => Phase::Running,
                Event::SpawnFailed => Phase::StartFailed,
                Event::LogOpenFailed => Phase::StartFailed,
                _ => Phase::Starting,
            },
            Phase::Running => match event {
                Event::Exited { code } => match code {
                    Some(status) => if status == 0 {
                        Phase::ExitedClean
                    } else {
                        Phase::ExitedNonclean
                    },
                    None => Phase::ExitedNonclean,
                },
                Event::WaitFailed => Phase::WaitError,
                _ => Phase::Running,
            },
            Phase::ExitedClean => Phase::ExitedClean,
            Phase::ExitedNonclean => match event {
                Event::Restart => Phase::Starting,
                _ => Phase::ExitedNonclean,
            },
            Phase::WaitError => match event {
                Event::Restart => Phase::Starting,
                _ => Phase::WaitError,
            },
            Phase::StartFailed => match event {
                Event::Restart => Phase::Starting,
                _ => Phase::StartFailed,
            },
        };
        self.phase = next;
        self.action()
    }
}

} // verus!
