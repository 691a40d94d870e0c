//! A run of the program: which step comes after which, and what a failure ends.

use vstd::prelude::*;

use crate::config::CommandKind;

verus! {

/// A step of a run.
#[derive(Clone, Copy, Debug, PartialEq, Eq, Structural)]
pub enum Step {
    /// Read the secret key from its file, or make a new one.
    ReadKey,
    /// Write a new secret key to its file.
    StoreKey,
    /// Show the peer ID.
    ShowId,
    /// Find out which peer to connect to.
    NamePeer,
    /// Read the address to bind to.
    ParseBind,
    /// Read the authorized keys.
    ReadAuthorized,
    /// Bind the endpoint.
    BindEndpoint,
    /// Wait for the endpoint to come online.
    AwaitOnline,
    /// Announce the server.
    Announce,
    /// Watch for the signals that stop the server.
    WatchSignals,
    /// Take connections on until asked to stop.
    Accept,
    /// Connect to the peer.
    Connect,
    /// Open a stream to the peer.
    OpenStream,
    /// Forward until both directions have ended.
    Forward,
    /// Close the endpoint, after what went well or not.
    Close { ok: bool },
    /// Nothing more; it went well or not.
    Exit { ok: bool },
}

/// How a step ended.
#[derive(Clone, Copy, Debug, PartialEq, Eq, Structural)]
pub enum Outcome {
    Done,
    /// The secret key is a new one.
    NewKey,
    Failed,
    /// The endpoint did not come online in time.
    TimedOut,
}

/// The first step that a command takes once its secret key is in place.
pub open spec fn first_step(kind: CommandKind) -> Step {
    match kind {
        CommandKind::Id => Step::ShowId,
        CommandKind::Serve => Step::ParseBind,
        CommandKind::Connect => Step::NamePeer,
    }
}

/// Whether a step can end in this way.
pub open spec fn can_end(step: Step, outcome: Outcome) -> bool {
    match step {
        Step::ReadKey => !(outcome is TimedOut),
        Step::ShowId | Step::Announce | Step::Accept | Step::Close { .. } => outcome is Done,
        Step::AwaitOnline => outcome is Done || outcome is TimedOut,
        Step::Exit { .. } => false,
        _ => outcome is Done || outcome is Failed,
    }
}

/// The step that comes next. A failure is the end, but for one while forwarding,
/// after which the endpoint is closed; an endpoint that is late is used anyway.
pub open spec fn step_after(kind: CommandKind, step: Step, outcome: Outcome) -> Step {
    if outcome is Failed {
        if step is Forward {
            Step::Close { ok: false }
        } else {
            Step::Exit { ok: false }
        }
    } else {
        match step {
            Step::ReadKey => if outcome is NewKey {
                Step::StoreKey
            } else {
                first_step(kind)
            },
            Step::StoreKey => first_step(kind),
            Step::ShowId => Step::Exit { ok: true },
            Step::NamePeer => Step::ParseBind,
            Step::ParseBind => if kind is Serve {
                Step::ReadAuthorized
            } else {
                Step::BindEndpoint
            },
            Step::ReadAuthorized => Step::BindEndpoint,
            Step::BindEndpoint => Step::AwaitOnline,
            Step::AwaitOnline => if kind is Serve {
                Step::Announce
            } else {
                Step::Connect
            },
            Step::Announce => Step::WatchSignals,
            Step::WatchSignals => Step::Accept,
            Step::Accept => Step::Close { ok: true },
            Step::Connect => Step::OpenStream,
            Step::OpenStream => Step::Forward,
            Step::Forward => Step::Close { ok: true },
            Step::Close { ok } => Step::Exit { ok },
            Step::Exit { ok } => Step::Exit { ok },
        }
    }
}

/// A run of the program.
#[derive(Debug)]
pub struct Run {
    pub kind: CommandKind,
    /// The step that is to be taken.
    pub step: Step,
}

impl Run {
    /// A run that has not begun.
    pub fn new(kind: CommandKind) -> (r: Run)
        ensures
            r == (Run { kind, step: Step::ReadKey }),
    {
        Run { kind, step: Step::ReadKey }
    }

    fn first_step(&self) -> (r: Step)
        ensures
            r == first_step(self.kind),
    {
        match self.kind {
            CommandKind::Id => Step::ShowId,
            CommandKind::Serve => Step::ParseBind,
            CommandKind::Connect => Step::NamePeer,
        }
    }

    /// Takes note of how the step ended, and goes on to the next one.
    pub fn advance(&mut self, outcome: Outcome)
        requires
            can_end(old(self).step, outcome),
        ensures
            final(self).kind == old(self).kind,
            final(self).step == step_after(old(self).kind, old(self).step, outcome),
    {
        let serve: bool = matches!(self.kind, CommandKind::Serve);
        let next: Step = match (self.step, outcome) {
            (Step::Forward, Outcome::Failed) => Step::Close { ok: false },
            (_, Outcome::Failed) => Step::Exit { ok: false },
            (Step::ReadKey, Outcome::NewKey) => Step::StoreKey,
            (Step::ReadKey, _) | (Step::StoreKey, _) => self.first_step(),
            (Step::ShowId, _) => Step::Exit { ok: true },
            (Step::NamePeer, _) => Step::ParseBind,
            (Step::ParseBind, _) => if serve {
                Step::ReadAuthorized
            } else {
                Step::BindEndpoint
            },
            (Step::ReadAuthorized, _) => Step::BindEndpoint,
            (Step::BindEndpoint, _) => Step::AwaitOnline,
            (Step::AwaitOnline, _) => if serve {
                Step::Announce
            } else {
                Step::Connect
            },
            (Step::Announce, _) => Step::WatchSignals,
            (Step::WatchSignals, _) => Step::Accept,
            (Step::Accept, _) | (Step::Forward, _) => Step::Close { ok: true },
            (Step::Connect, _) => Step::OpenStream,
            (Step::OpenStream, _) => Step::Forward,
            (Step::Close { ok }, _) | (Step::Exit { ok }, _) => Step::Exit { ok },
        };
        self.step = next;
    }
}

/// The step that is to be taken once steps have ended in these ways.
pub open spec fn step_at(kind: CommandKind, outcomes: Seq<Outcome>) -> Step
    decreases outcomes.len(),
{
    if outcomes.len() == 0 {
        Step::ReadKey
    } else {
        step_after(kind, step_at(kind, outcomes.drop_last()), outcomes.last())
    }
}

/// Whether each step could end in the way it did.
pub open spec fn is_run_of(kind: CommandKind, outcomes: Seq<Outcome>) -> bool
    decreases outcomes.len(),
{
    outcomes.len() > 0 ==> {
        &&& is_run_of(kind, outcomes.drop_last())
        &&& can_end(step_at(kind, outcomes.drop_last()), outcomes.last())
    }
}

/// The place of a step in the order of steps.
pub open spec fn rank(step: Step) -> nat {
    match step {
        Step::ReadKey => 0,
        Step::StoreKey => 1,
        Step::ShowId => 2,
        Step::NamePeer => 3,
        Step::ParseBind => 4,
        Step::ReadAuthorized => 5,
        Step::BindEndpoint => 6,
        Step::AwaitOnline => 7,
        Step::Announce => 8,
        Step::WatchSignals => 9,
        Step::Accept => 10,
        Step::Connect => 11,
        Step::OpenStream => 12,
        Step::Forward => 13,
        Step::Close { .. } => 14,
        Step::Exit { .. } => 15,
    }
}

/// The steps that a command always takes, unless it fails before them.
pub open spec fn always_taken(kind: CommandKind, step: Step) -> bool {
    match step {
        Step::ReadKey => true,
        Step::ShowId => kind is Id,
        Step::ParseBind | Step::BindEndpoint | Step::AwaitOnline => !(kind is Id),
        Step::ReadAuthorized | Step::Announce | Step::WatchSignals | Step::Accept => kind is Serve,
        Step::NamePeer | Step::Connect | Step::OpenStream | Step::Forward => kind is Connect,
        Step::StoreKey | Step::Close { .. } | Step::Exit { .. } => false,
    }
}

/// Whether a step was taken and did not fail.
pub open spec fn has_done(kind: CommandKind, outcomes: Seq<Outcome>, step: Step) -> bool {
    exists|i: int|
        0 <= i < outcomes.len() && step_at(kind, #[trigger] outcomes.take(i)) == step
            && !(outcomes[i] is Failed)
}

/// A run comes to an end: each step leads to one that is later in the order.
pub proof fn law_each_step_once(kind: CommandKind, outcomes: Seq<Outcome>)
    requires
        is_run_of(kind, outcomes),
        outcomes.len() > 0,
    ensures
        rank(step_at(kind, outcomes)) > rank(step_at(kind, outcomes.drop_last())),
{
    lemma_steps_of_kind(kind, outcomes.drop_last());
}

proof fn lemma_has_done_more(kind: CommandKind, outcomes: Seq<Outcome>, step: Step)
    requires
        outcomes.len() > 0,
        has_done(kind, outcomes.drop_last(), step),
    ensures
        has_done(kind, outcomes, step),
{
    let before = outcomes.drop_last();
    let i = choose|i: int|
        0 <= i < before.len() && step_at(kind, #[trigger] before.take(i)) == step
            && !(before[i] is Failed);
    assert(outcomes.take(i) =~= before.take(i));
    assert(outcomes[i] == before[i]);
}

/// Nothing is skipped: before any step, all the steps that a command takes before
/// it were taken and did not fail. In particular an endpoint is bound only once
/// the secret key is in place, and a server's only once its authorized keys are.
pub proof fn law_nothing_skipped(kind: CommandKind, outcomes: Seq<Outcome>, step: Step)
    requires
        is_run_of(kind, outcomes),
        !(step_at(kind, outcomes) is Exit),
        always_taken(kind, step),
        rank(step) < rank(step_at(kind, outcomes)),
        !(step is Forward),
    ensures
        has_done(kind, outcomes, step),
    decreases outcomes.len(),
{
    lemma_steps_of_kind(kind, outcomes);
    let before = outcomes.drop_last();
    let last = step_at(kind, before);
    lemma_steps_of_kind(kind, before);
    if step == last {
        assert(outcomes.take(outcomes.len() - 1) =~= before);
    } else {
        assert(rank(step) < rank(last));
        law_nothing_skipped(kind, before, step);
        lemma_has_done_more(kind, outcomes, step);
    }
}

/// A run takes the steps of its command.
proof fn lemma_steps_of_kind(kind: CommandKind, outcomes: Seq<Outcome>)
    requires
        is_run_of(kind, outcomes),
    ensures
        match step_at(kind, outcomes) {
            Step::StoreKey | Step::Exit { .. } => true,
            Step::Close { .. } => !(kind is Id),
            step => always_taken(kind, step),
        },
    decreases outcomes.len(),
{
    if outcomes.len() > 0 {
        lemma_steps_of_kind(kind, outcomes.drop_last());
    }
}

/// A new secret key is stored before it is used for anything.
pub proof fn law_new_key_is_stored(kind: CommandKind, outcomes: Seq<Outcome>)
    requires
        is_run_of(kind, outcomes),
        outcomes.len() > 1,
        outcomes[0] is NewKey,
        !(step_at(kind, outcomes) is Exit),
    ensures
        has_done(kind, outcomes, Step::StoreKey),
    decreases outcomes.len(),
{
    let before = outcomes.drop_last();
    if outcomes.len() == 2 {
        assert(step_at(kind, before.drop_last()) == Step::ReadKey);
        assert(before.last() == outcomes[0]);
        assert(step_at(kind, before) == Step::StoreKey);
        assert(outcomes.take(1) =~= before);
    } else {
        assert(before[0] == outcomes[0]);
        law_new_key_is_stored(kind, before);
        lemma_has_done_more(kind, outcomes, Step::StoreKey);
    }
}

/// A run that goes well has taken every step of its command, and none of them
/// failed.
pub proof fn law_success_is_complete(kind: CommandKind, outcomes: Seq<Outcome>, step: Step)
    requires
        is_run_of(kind, outcomes),
        step_at(kind, outcomes) == (Step::Exit { ok: true }),
        always_taken(kind, step),
    ensures
        has_done(kind, outcomes, step),
{
    let before = outcomes.drop_last();
    let last = step_at(kind, before);
    lemma_steps_of_kind(kind, before);
    assert(outcomes.take(outcomes.len() - 1) =~= before);
    if last is Close {
        let earlier = before.drop_last();
        assert(before.len() > 0 && is_run_of(kind, before));
        assert(before.take(before.len() - 1) =~= earlier);
        lemma_steps_of_kind(kind, earlier);
        if step == step_at(kind, earlier) {
            assert(has_done(kind, before, step));
        } else {
            law_nothing_skipped(kind, before, step);
        }
        lemma_has_done_more(kind, outcomes, step);
    } else if step != last {
        law_nothing_skipped(kind, before, step);
        lemma_has_done_more(kind, outcomes, step);
    }
}

/// The steps of a command that meets no failure, in their order: the secret key is
/// read, and stored where it is new; then comes what the command is for, and an
/// endpoint that was used is closed.
pub open spec fn steps_of(kind: CommandKind, new_key: bool) -> Seq<Step> {
    (if new_key {
        seq![Step::ReadKey, Step::StoreKey]
    } else {
        seq![Step::ReadKey]
    }) + match kind {
        CommandKind::Id => seq![Step::ShowId],
        CommandKind::Serve => seq![
            Step::ParseBind,
            Step::ReadAuthorized,
            Step::BindEndpoint,
            Step::AwaitOnline,
            Step::Announce,
            Step::WatchSignals,
            Step::Accept,
            Step::Close { ok: true },
        ],
        CommandKind::Connect => seq![
            Step::NamePeer,
            Step::ParseBind,
            Step::BindEndpoint,
            Step::AwaitOnline,
            Step::Connect,
            Step::OpenStream,
            Step::Forward,
            Step::Close { ok: true },
        ],
    }
}

/// A run takes the steps of its command, one after the other, until one fails; an
/// endpoint that does not come online in time is no failure. After a failure the
/// run is over, but for one while forwarding, after which the endpoint is closed.
pub proof fn law_steps_in_order(kind: CommandKind, outcomes: Seq<Outcome>)
    requires
        is_run_of(kind, outcomes),
    ensures
        ({
            let steps = steps_of(kind, outcomes.len() > 0 && outcomes[0] is NewKey);
            let n = outcomes.len() as int;
            if forall|i: int| 0 <= i < n ==> !(#[trigger] outcomes[i] is Failed) {
                &&& n <= steps.len()
                &&& step_at(kind, outcomes) == if n < steps.len() {
                    steps[n]
                } else {
                    Step::Exit { ok: true }
                }
            } else if outcomes.last() is Failed {
                &&& n <= steps.len()
                &&& step_at(kind, outcomes) == if steps[n - 1] is Forward {
                    Step::Close { ok: false }
                } else {
                    Step::Exit { ok: false }
                }
                &&& forall|i: int| 0 <= i < n - 1 ==> !(#[trigger] outcomes[i] is Failed)
            } else {
                &&& 2 <= n <= steps.len()
                &&& outcomes[n - 2] is Failed && steps[n - 2] is Forward
                &&& step_at(kind, outcomes) == (Step::Exit { ok: false })
            }
        }),
    decreases outcomes.len(),
{
    if outcomes.len() > 0 {
        let before = outcomes.drop_last();
        law_steps_in_order(kind, before);
        assert(outcomes[outcomes.len() - 1] == outcomes.last());
        assert(forall|i: int| 0 <= i < before.len() ==> #[trigger] outcomes[i] == before[i]);
        if before.len() > 0 {
            assert(outcomes[0] == before[0]);
            assert(before[before.len() - 1] == before.last());
        }
    }
}

/// How steps can end: a key that is read may be a new one, an endpoint may be late,
/// and every step that needs something from outside may fail.
pub proof fn law_ends_of_steps(step: Step, outcome: Outcome)
    ensures
        outcome is Done ==> (can_end(step, outcome) <==> !(step is Exit)),
        outcome is NewKey ==> (can_end(step, outcome) <==> step is ReadKey),
        outcome is TimedOut ==> (can_end(step, outcome) <==> step is AwaitOnline),
        outcome is Failed ==> (can_end(step, outcome) <==> !(step is ShowId || step is Announce
            || step is AwaitOnline || step is Accept || step is Close || step is Exit)),
{
}

/// Every run that failed says so, and every run that says so has failed.
pub proof fn law_failure_is_told(kind: CommandKind, outcomes: Seq<Outcome>)
    requires
        is_run_of(kind, outcomes),
        step_at(kind, outcomes) is Exit,
    ensures
        step_at(kind, outcomes) == (Step::Exit { ok: false }) <==> exists|i: int|
            0 <= i < outcomes.len() && #[trigger] outcomes[i] is Failed,
{
    lemma_no_failure_so_far(kind, outcomes.drop_last());
    let before = outcomes.drop_last();
    assert(outcomes[outcomes.len() - 1] == outcomes.last());
    assert(forall|i: int| 0 <= i < before.len() ==> #[trigger] outcomes[i] == before[i]);
    if step_at(kind, before) == (Step::Close { ok: false }) {
        let i = choose|i: int| 0 <= i < before.len() && #[trigger] before[i] is Failed;
        assert(outcomes[i] is Failed);
    }
}

proof fn lemma_no_failure_so_far(kind: CommandKind, outcomes: Seq<Outcome>)
    requires
        is_run_of(kind, outcomes),
        !(step_at(kind, outcomes) is Exit),
    ensures
        step_at(kind, outcomes) == (Step::Close { ok: false }) <==> exists|i: int|
            0 <= i < outcomes.len() && #[trigger] outcomes[i] is Failed,
    decreases outcomes.len(),
{
    if outcomes.len() > 0 {
        let before = outcomes.drop_last();
        lemma_no_failure_so_far(kind, before);
        assert(outcomes[outcomes.len() - 1] == outcomes.last());
        assert(forall|i: int| 0 <= i < before.len() ==> #[trigger] outcomes[i] == before[i]);
        if exists|i: int| 0 <= i < before.len() && #[trigger] before[i] is Failed {
            let i = choose|i: int| 0 <= i < before.len() && #[trigger] before[i] is Failed;
            assert(outcomes[i] is Failed);
        }
    }
}

} // verus!
