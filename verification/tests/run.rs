use p2pssh::config::{Command, CommandKind};
use p2pssh::run::Outcome::{self, Done, Failed, NewKey, TimedOut};
use p2pssh::run::{Run, Step};

fn steps(kind: CommandKind, outcomes: &[Outcome]) -> Vec<Step> {
    let mut run = Run::new(kind);
    let mut steps = vec![run.step];
    for outcome in outcomes {
        run.advance(*outcome);
        steps.push(run.step);
    }
    steps
}

#[test]
fn showing_the_peer_id() {
    assert_eq!(
        steps(CommandKind::Id, &[Done, Done]),
        [Step::ReadKey, Step::ShowId, Step::Exit { ok: true }]
    );
    assert_eq!(
        steps(CommandKind::Id, &[NewKey, Done, Done]),
        [Step::ReadKey, Step::StoreKey, Step::ShowId, Step::Exit { ok: true }]
    );
}

#[test]
fn serving() {
    assert_eq!(
        steps(
            CommandKind::Serve,
            &[NewKey, Done, Done, Done, Done, TimedOut, Done, Done, Done, Done]
        ),
        [
            Step::ReadKey,
            Step::StoreKey,
            Step::ParseBind,
            Step::ReadAuthorized,
            Step::BindEndpoint,
            Step::AwaitOnline,
            Step::Announce,
            Step::WatchSignals,
            Step::Accept,
            Step::Close { ok: true },
            Step::Exit { ok: true },
        ]
    );
}

#[test]
fn connecting() {
    let set_up = [Done, Done, Done, Done, Done, Done, Done];
    let taken = steps(CommandKind::Connect, &set_up);
    assert_eq!(
        taken,
        [
            Step::ReadKey,
            Step::NamePeer,
            Step::ParseBind,
            Step::BindEndpoint,
            Step::AwaitOnline,
            Step::Connect,
            Step::OpenStream,
            Step::Forward,
        ]
    );
    let mut run = Run { kind: CommandKind::Connect, step: Step::Forward };
    run.advance(Failed);
    assert_eq!(run.step, Step::Close { ok: false });
    run.advance(Done);
    assert_eq!(run.step, Step::Exit { ok: false });
}

#[test]
fn a_failure_is_the_end() {
    for step in [
        Step::ReadKey,
        Step::StoreKey,
        Step::NamePeer,
        Step::ParseBind,
        Step::ReadAuthorized,
        Step::BindEndpoint,
        Step::WatchSignals,
        Step::Connect,
        Step::OpenStream,
    ] {
        let mut run = Run { kind: CommandKind::Serve, step };
        run.advance(Outcome::Failed);
        assert_eq!(run.step, Step::Exit { ok: false });
    }
}

#[test]
fn commands_have_a_kind() {
    assert_eq!(Command::Id { key_path: None }.kind(), CommandKind::Id);
}
