use locutus::actors::GameOfLife;
use locutus::codec::encode_snapshot;
use locutus::gameoflife::Error;
use locutus::gameoflife::Message;
use locutus::server::Config;
use locutus::server::ConnEvent;
use locutus::server::ConnStep;
use locutus::server::initial_commands;
use locutus::server::on_conn_event;

#[test]
fn config_defaults_match_the_reference() {
    let config = Config::default();
    assert_eq!(config.ip, [127, 0, 0, 1]);
    assert_eq!(config.port, 9001);
    assert_eq!(config.sim_threads, 16);
    assert_eq!(config.sim_thread_stack_size, 2 << 20);
    assert_eq!(config.tick_millis, 33);
}

#[test]
fn every_event_maps_to_exactly_one_step() {
    assert_eq!(on_conn_event(&ConnEvent::TimerFired), ConnStep::SendSnapshot);
    assert_eq!(on_conn_event(&ConnEvent::Inbound { close: false }), ConnStep::SendSnapshot);
    assert_eq!(on_conn_event(&ConnEvent::Inbound { close: true }), ConnStep::EndSession);
    assert_eq!(on_conn_event(&ConnEvent::InboundGone), ConnStep::EndSession);
}

#[test]
fn a_fresh_connection_seeds_random_then_start() {
    assert_eq!(initial_commands(), vec![Message::Random, Message::Start]);
}

#[test]
fn connection_scenario_pushes_frames_until_close() {
    // The handler loop, replayed event by event: two timer expiries push
    // two frames, one client nudge pushes one more, a close frame ends the
    // session and the worker's next tick reports the end.
    let session = GameOfLife::new();
    for command in initial_commands() {
        assert_eq!(session.send(command), Ok(()));
        assert_eq!(session.on_tick(), Ok(()));
    }
    let mut frames: Vec<Vec<u8>> = Vec::new();
    let events = [
        ConnEvent::TimerFired,
        ConnEvent::TimerFired,
        ConnEvent::Inbound { close: false },
        ConnEvent::Inbound { close: true },
    ];
    let mut closed = false;
    for event in events {
        match on_conn_event(&event) {
            ConnStep::SendSnapshot => {
                assert_eq!(session.send(Message::Tick), Ok(()));
                assert_eq!(session.on_tick(), Ok(()));
                frames.push(encode_snapshot(&session.state()));
            }
            ConnStep::EndSession => {
                assert_eq!(session.send(Message::End), Ok(()));
                assert_eq!(session.on_tick(), Ok(()));
                closed = true;
            }
        }
    }
    assert_eq!(frames.len(), 3, "two timer frames and one nudge frame");
    assert!(closed);
    assert_eq!(session.send(Message::Tick), Ok(()));
    assert_eq!(session.on_tick(), Err(Error::GameOver), "the worker loop exits here");
}
