use locutus::codec::decode_snapshot;
use locutus::codec::encode_snapshot;
use locutus::gameoflife::Message;
use locutus::gameoflife::Simulation;
use locutus::gameoflife::State;

#[test]
fn fresh_snapshot_encodes_to_the_exact_bytes() {
    let sim = Simulation::new();
    let bytes = encode_snapshot(&sim);
    assert_eq!(bytes.len(), 25 + 53 * 40);
    assert_eq!(bytes[0], 0, "Starting is tag 0");
    assert_eq!(&bytes[1..9], &0u64.to_le_bytes());
    assert_eq!(&bytes[9..17], &53u64.to_le_bytes());
    assert_eq!(&bytes[17..25], &40u64.to_le_bytes());
    assert!(bytes[25..].iter().all(|&b| b == 0));
}

#[test]
fn live_cells_and_state_show_up_in_the_bytes() {
    let mut sim = Simulation::new();
    assert_eq!(sim.update(Message::ToggleCellule(0)), Ok(()));
    assert_eq!(sim.update(Message::Start), Ok(()));
    let bytes = encode_snapshot(&sim);
    assert_eq!(bytes[0], 1, "Running is tag 1");
    assert_eq!(bytes[25], 1, "a live cell encodes as 1");
    assert_eq!(bytes[26], 0);
}

#[test]
fn ticks_are_little_endian_in_the_frame() {
    let mut sim = Simulation::new();
    for _ in 0..300 {
        assert_eq!(sim.update(Message::Step), Ok(()));
    }
    let bytes = encode_snapshot(&sim);
    assert_eq!(&bytes[1..9], &300u64.to_le_bytes());
}

#[test]
fn encoding_round_trips_through_decode() {
    let mut sim = Simulation::new();
    assert_eq!(sim.update(Message::Random), Ok(()));
    assert_eq!(sim.update(Message::Start), Ok(()));
    assert_eq!(sim.update(Message::Tick), Ok(()));
    let bytes = encode_snapshot(&sim);
    let back = decode_snapshot(&bytes).expect("a fresh encoding must decode");
    assert_eq!(back, sim);
}

#[test]
fn decode_rejects_malformed_frames() {
    assert!(decode_snapshot(&[]).is_none());
    assert!(decode_snapshot(&[0u8; 24]).is_none());
    let sim = Simulation::new();
    let good = encode_snapshot(&sim);
    let mut bad_tag = good.clone();
    bad_tag[0] = 9;
    assert!(decode_snapshot(&bad_tag).is_none());
    let mut bad_cell = good.clone();
    bad_cell[25] = 2;
    assert!(decode_snapshot(&bad_cell).is_none());
    let truncated = &good[..good.len() - 1];
    assert!(decode_snapshot(truncated).is_none());
}

#[test]
fn decode_recovers_the_state_tag() {
    let mut sim = Simulation::new();
    assert_eq!(sim.update(Message::Start), Ok(()));
    assert_eq!(sim.update(Message::Stop), Ok(()));
    let back = decode_snapshot(&encode_snapshot(&sim)).expect("must decode");
    assert_eq!(back.state(), State::Pausing);
}
