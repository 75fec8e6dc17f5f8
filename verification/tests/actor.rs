use locutus::actor::Actor;
use locutus::actor::Error as ActorError;
use locutus::actor::Id;
use locutus::actors::GameOfLife;
use locutus::gameoflife::Error;
use locutus::gameoflife::Message;
use locutus::gameoflife::Simulation;
use locutus::gameoflife::State;

#[test]
fn id_rejects_zero_and_keeps_values() {
    assert!(Id::new(0).is_none());
    let id = Id::new(7).expect("a nonzero value must be accepted");
    assert_eq!(id.into_inner(), 7);
}

#[test]
fn random_id_is_never_zero() {
    for _ in 0..64 {
        assert_ne!(Id::random().into_inner(), 0);
    }
}

#[test]
fn actor_processes_commands_in_order() {
    let game = GameOfLife::new();
    assert_eq!(game.send(Message::Random), Ok(()));
    assert_eq!(game.send(Message::Start), Ok(()));
    assert_eq!(game.on_tick(), Ok(()));
    assert_eq!(game.on_tick(), Ok(()));
    let snapshot = game.state();
    assert_eq!(snapshot.state(), State::Running);
    assert_eq!(snapshot.ticks(), 0);
    assert_eq!(game.send(Message::Tick), Ok(()));
    assert_eq!(game.on_tick(), Ok(()));
    assert_eq!(game.state().ticks(), 1);
}

#[test]
fn actor_scenario_ticks_ten_times() {
    let game = GameOfLife::new();
    assert_eq!(game.send(Message::Random), Ok(()));
    assert_eq!(game.send(Message::Start), Ok(()));
    assert_eq!(game.on_tick(), Ok(()));
    assert_eq!(game.on_tick(), Ok(()));
    for _ in 0..10 {
        assert_eq!(game.send(Message::Tick), Ok(()));
        assert_eq!(game.on_tick(), Ok(()));
    }
    let snapshot = game.state();
    assert_eq!(snapshot.ticks(), 10);
    assert_eq!(snapshot.state(), State::Running);
}

#[test]
fn actor_reports_game_over_after_end() {
    let game = GameOfLife::new();
    assert_eq!(game.send(Message::End), Ok(()));
    assert_eq!(game.on_tick(), Ok(()));
    assert_eq!(game.state().state(), State::Ended);
    let frozen = game.state();
    assert_eq!(game.send(Message::Tick), Ok(()));
    assert_eq!(game.on_tick(), Err(Error::GameOver));
    assert_eq!(game.state(), frozen, "an ended session must not change");
}

#[test]
fn snapshot_is_a_copy_not_a_handle() {
    let game = GameOfLife::new();
    let before = game.state();
    assert_eq!(game.send(Message::ToggleCellule(0)), Ok(()));
    assert_eq!(game.on_tick(), Ok(()));
    assert!(!before.cellules()[0].alive(), "an old snapshot must not see later changes");
    assert!(game.state().cellules()[0].alive());
}

fn drive<A>(actor: &A) -> Simulation
where
    A: Actor<Message = Message, State = Simulation, Failure = Error>,
{
    actor.send(Message::Start).expect("send must succeed while the queue lives");
    actor.on_tick().expect("a legal transition must be applied");
    actor.state()
}

#[test]
fn actor_trait_drives_the_session() {
    let game = GameOfLife::new();
    assert_eq!(Actor::name(&game), "GameOfLife");
    assert_ne!(Actor::id(&game).into_inner(), 0);
    let snapshot = drive(&game);
    assert_eq!(snapshot.state(), State::Running);
}

#[test]
fn error_capability_matches_the_flags() {
    let e = Error::StateTransition { from: State::Ended, to: State::Running };
    assert!(ActorError::recoverable(&e));
    assert!(!ActorError::retryable(&e));
    assert!(!ActorError::recoverable(&Error::GameOver));
    assert!(!ActorError::retryable(&Error::GameOver));
}
