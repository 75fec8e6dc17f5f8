use locutus::gameoflife::Cellule;
use locutus::gameoflife::Error;
use locutus::gameoflife::Message;
use locutus::gameoflife::Simulation;
use locutus::gameoflife::State;

fn alive_indices(sim: &Simulation) -> Vec<usize> {
    sim.cellules()
        .iter()
        .enumerate()
        .filter(|(_, c)| c.alive())
        .map(|(i, _)| i)
        .collect()
}

#[test]
fn new_simulation_is_dead_starting_53_by_40() {
    let sim = Simulation::new();
    assert_eq!(sim.width(), 53);
    assert_eq!(sim.height(), 40);
    assert_eq!(sim.ticks(), 0);
    assert_eq!(sim.state(), State::Starting);
    assert_eq!(sim.cellules().len(), 53 * 40);
    assert!(sim.cellules().iter().all(|c| !c.alive()));
}

#[test]
fn default_state_is_starting() {
    assert_eq!(State::default(), State::Starting);
}

#[test]
fn transition_table_legal_and_illegal() {
    let all = [State::Starting, State::Running, State::Pausing, State::Ended];
    for &from in &all {
        for &to in &all {
            let legal = match (from, to) {
                (State::Starting, _) => true,
                (State::Running, State::Starting) => false,
                (State::Running, _) => true,
                (State::Pausing, State::Starting) => false,
                (State::Pausing, _) => true,
                (State::Ended, State::Ended) => true,
                (State::Ended, _) => false,
            };
            let mut st = from;
            let r = st.try_transition(to);
            if legal {
                assert_eq!(r, Ok(()), "{:?} -> {:?} should be legal", from, to);
                assert_eq!(st, to);
            } else {
                assert_eq!(r, Err(Error::StateTransition { from, to }));
                assert_eq!(st, from, "refused transition must not change the state");
            }
        }
    }
}

#[test]
fn state_predicates() {
    assert!(State::Starting.start());
    assert!(!State::Starting.run());
    assert!(State::Running.run());
    assert!(!State::Running.paused());
    assert!(State::Pausing.paused());
    assert!(!State::Pausing.ended());
    assert!(State::Ended.ended());
    assert!(!State::Ended.start());
}

#[test]
fn error_flags() {
    assert!(!Error::Unknown.may_recover());
    assert!(!Error::GameOver.may_recover());
    assert!(Error::StateTransition { from: State::Ended, to: State::Running }.may_recover());
    assert!(Error::IndexOutOfRange.may_recover());
    assert!(Error::SessionClosed.may_recover());
    assert!(!Error::Unknown.may_retry());
    assert!(!Error::GameOver.may_retry());
    assert!(!Error::StateTransition { from: State::Ended, to: State::Running }.may_retry());
    assert!(!Error::IndexOutOfRange.may_retry());
    assert!(!Error::SessionClosed.may_retry());
}

#[test]
fn step_on_all_dead_grid_stays_dead() {
    let mut sim = Simulation::new();
    let before = sim.clone();
    assert_eq!(sim.update(Message::Step), Ok(()));
    assert!(sim.cellules().iter().all(|c| !c.alive()));
    assert_eq!(sim.ticks(), 1);
    assert_eq!(sim.state(), before.state());
    assert_eq!(sim.cellules(), before.cellules());
}

#[test]
fn step_increments_ticks_in_any_state() {
    let mut sim = Simulation::new();
    assert_eq!(sim.state(), State::Starting);
    assert_eq!(sim.update(Message::Step), Ok(()));
    assert_eq!(sim.update(Message::Step), Ok(()));
    assert_eq!(sim.ticks(), 2);
}

#[test]
fn blinker_oscillates() {
    // A horizontal blinker in row 1, columns 0..=2, on the 53-wide grid.
    let mut sim = Simulation::new();
    let w = sim.width();
    for idx in [w, w + 1, w + 2] {
        assert_eq!(sim.update(Message::ToggleCellule(idx)), Ok(()));
    }
    assert_eq!(sim.update(Message::Step), Ok(()));
    // The dead center-column cells with exactly three live neighbors were
    // born; the live end cells with one live neighbor died.
    assert_eq!(alive_indices(&sim), vec![1, w + 1, 2 * w + 1]);
    assert_eq!(sim.update(Message::Step), Ok(()));
    assert_eq!(alive_indices(&sim), vec![w, w + 1, w + 2]);
}

#[test]
fn toggle_out_of_range_is_refused() {
    let mut sim = Simulation::new();
    let before = sim.clone();
    assert_eq!(sim.update(Message::ToggleCellule(53 * 40)), Err(Error::IndexOutOfRange));
    assert_eq!(sim, before);
}

#[test]
fn toggle_twice_restores_the_snapshot() {
    let mut sim = Simulation::new();
    assert_eq!(sim.update(Message::Random), Ok(()));
    let before = sim.clone();
    assert_eq!(sim.update(Message::ToggleCellule(7)), Ok(()));
    assert_eq!(sim.cellules()[7].alive(), !before.cellules()[7].alive());
    assert_eq!(sim.update(Message::ToggleCellule(7)), Ok(()));
    assert_eq!(sim, before);
}

#[test]
fn reset_kills_every_cell_and_keeps_the_rest() {
    let mut sim = Simulation::new();
    assert_eq!(sim.update(Message::Random), Ok(()));
    assert_eq!(sim.update(Message::Step), Ok(()));
    let ticks = sim.ticks();
    assert_eq!(sim.update(Message::Reset), Ok(()));
    assert!(sim.cellules().iter().all(|c| !c.alive()));
    assert_eq!(sim.ticks(), ticks);
    assert_eq!(sim.state(), State::Starting);
}

#[test]
fn random_keeps_state_ticks_and_dimensions() {
    let mut sim = Simulation::new();
    assert_eq!(sim.update(Message::Random), Ok(()));
    assert_eq!(sim.state(), State::Starting);
    assert_eq!(sim.ticks(), 0);
    assert_eq!(sim.cellules().len(), 53 * 40);
}

#[test]
fn ended_absorbs_every_command() {
    let mut sim = Simulation::new();
    assert_eq!(sim.update(Message::Random), Ok(()));
    assert_eq!(sim.update(Message::End), Ok(()));
    assert_eq!(sim.state(), State::Ended);
    let frozen = sim.clone();
    for msg in [
        Message::Random,
        Message::Start,
        Message::Step,
        Message::Reset,
        Message::Stop,
        Message::ToggleCellule(0),
        Message::Tick,
        Message::End,
    ] {
        assert_eq!(sim.update(msg), Err(Error::GameOver));
        assert_eq!(sim, frozen, "an ended session must not change");
    }
}

#[test]
fn session_scenario_runs_pauses_and_ends() {
    let mut sim = Simulation::new();
    assert_eq!(sim.update(Message::Random), Ok(()));
    assert_eq!(sim.update(Message::Start), Ok(()));
    assert!(sim.state().run());
    for _ in 0..10 {
        assert_eq!(sim.update(Message::Tick), Ok(()));
    }
    assert_eq!(sim.ticks(), 10);
    assert!(sim.state().run());
    assert_eq!(sim.update(Message::Stop), Ok(()));
    assert!(sim.state().paused());
    let paused = sim.clone();
    assert_eq!(sim.update(Message::Tick), Ok(()));
    assert_eq!(sim, paused, "a tick while paused changes nothing");
    assert_eq!(sim.update(Message::End), Ok(()));
    assert!(sim.state().ended());
    assert_eq!(sim.update(Message::Start), Err(Error::GameOver));
    let mut st = State::Ended;
    assert_eq!(
        st.try_transition(State::Starting),
        Err(Error::StateTransition { from: State::Ended, to: State::Starting })
    );
}

#[test]
fn tick_advances_only_while_running() {
    let mut sim = Simulation::new();
    assert_eq!(sim.update(Message::Tick), Ok(()));
    assert_eq!(sim.ticks(), 0, "a tick before Start is a no-op");
    assert_eq!(sim.update(Message::Start), Ok(()));
    assert_eq!(sim.update(Message::Tick), Ok(()));
    assert_eq!(sim.ticks(), 1);
}

#[test]
fn neighbor_counting_helpers() {
    let mut sim = Simulation::new();
    for idx in [0, 1, 2, 3, 4] {
        assert_eq!(sim.update(Message::ToggleCellule(idx)), Ok(()));
    }
    let cells = sim.cellules();
    assert_eq!(Cellule::count_alive_neighbors(&cells[0..3]), 3);
    assert!(Cellule::can_be_revived(&cells[0..3]));
    assert!(!Cellule::alone(&cells[0..3]));
    assert!(!Cellule::overpopulated(&cells[0..3]));
    assert_eq!(Cellule::count_alive_neighbors(&cells[4..6]), 1);
    assert!(Cellule::alone(&cells[4..6]));
    assert_eq!(Cellule::count_alive_neighbors(&cells[10..18]), 0);
    assert!(Cellule::overpopulated(&cells[0..5]));
}

#[test]
fn cells_flip_between_life_states() {
    let sim = Simulation::new();
    let mut cell = sim.cellules()[0];
    assert!(!cell.alive());
    cell.set_alive();
    assert!(cell.alive());
    cell.set_dead();
    assert!(!cell.alive());
}

#[test]
fn blinker_wraps_around_the_torus_edge() {
    // A horizontal blinker across the right edge of row 0: columns 52, 0
    // and 1. Its births land in the wrapped rows 39 and 1 of column 0.
    let mut sim = Simulation::new();
    let w = sim.width();
    let h = sim.height();
    for idx in [52, 0, 1] {
        assert_eq!(sim.update(Message::ToggleCellule(idx)), Ok(()));
    }
    assert_eq!(sim.update(Message::Step), Ok(()));
    assert_eq!(alive_indices(&sim), vec![0, w, (h - 1) * w]);
}
