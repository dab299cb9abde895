use room_core::protocol::{ClientFrame, JoinInner, PlayerState};
use room_core::race::{RaceStage, RaceState};
use room_core::room::Room;

fn frame(time: u32, tag: u8) -> ClientFrame {
    ClientFrame { time, players: vec![PlayerState { data: vec![tag] }] }
}

#[test]
fn rendezvous_waits_for_every_client() {
    let mut race = RaceState::new(2, 2);
    assert_eq!(race.stage, RaceStage::Rendezvous);
    race.handle_ping(0);
    assert_eq!(race.stage, RaceStage::Rendezvous);
    // a duplicate ping changes nothing
    race.handle_ping(0);
    assert_eq!(race.stage, RaceStage::Rendezvous);
    race.handle_ping(1);
    assert_eq!(race.stage, RaceStage::Collecting);
}

#[test]
fn collection_waits_for_every_slot() {
    let mut race = RaceState::new(2, 2);
    race.handle_ping(0);
    race.handle_ping(1);
    race.handle_initial_frame(0, frame(10, 0xA0));
    // one slot still empty: no tick yet, nothing emitted
    assert_eq!(race.stage, RaceStage::Collecting);
    assert_eq!(race.time, 0);
    race.handle_initial_frame(1, frame(11, 0xB0));
    assert_eq!(race.stage, RaceStage::Ticking);
    assert_eq!(race.time, 0);
}

#[test]
fn race_tick_ordering() {
    // after rendezvous, the two clients report their initial frames with
    // times 10 and 11; each later frame then drives exactly one tick
    let mut race = RaceState::new(2, 2);
    race.handle_ping(0);
    race.handle_ping(1);
    race.handle_initial_frame(0, frame(10, 0xA0));
    race.handle_initial_frame(1, frame(11, 0xB0));
    let first = race.handle_tick_frame(0, frame(12, 0xA1));
    assert_eq!(first.time, 0);
    assert_eq!(first.player_times, vec![12, 11]);
    assert_eq!(first.players[0], PlayerState { data: vec![0xA1] });
    assert_eq!(first.players[1], PlayerState { data: vec![0xB0] });
    let second = race.handle_tick_frame(1, frame(13, 0xB1));
    assert_eq!(second.time, 1);
    assert_eq!(second.player_times, vec![12, 13]);
    assert_eq!(second.players[1], PlayerState { data: vec![0xB1] });
}

#[test]
fn tick_uses_first_player_state() {
    let mut race = RaceState::new(1, 1);
    race.handle_ping(0);
    race.handle_initial_frame(
        0,
        ClientFrame {
            time: 5,
            players: vec![PlayerState { data: vec![0x01] }, PlayerState { data: vec![0x02] }],
        },
    );
    let sf = race.handle_tick_frame(
        0,
        ClientFrame {
            time: 6,
            players: vec![PlayerState { data: vec![0x03] }, PlayerState { data: vec![0x04] }],
        },
    );
    assert_eq!(sf.players, vec![PlayerState { data: vec![0x03] }]);
}

#[test]
fn begin_race_matches_roster() {
    let mut room = Room::new(None);
    room.handle_join(
        vec![1],
        vec![2],
        JoinInner {
            miis: vec![vec![0xA0], vec![0xA1]],
            location: 1,
            latitude: 2,
            longitude: 3,
            region_line_color: 4,
            login_info: None,
            settings: vec![7],
        },
    )
    .expect("host join admitted");
    room.handle_join(
        vec![3],
        vec![4],
        JoinInner {
            miis: vec![vec![0xB0]],
            location: 1,
            latitude: 2,
            longitude: 3,
            region_line_color: 4,
            login_info: None,
            settings: vec![7],
        },
    )
    .expect("guest join admitted");
    let race = room.begin_race();
    assert_eq!(race.pending, vec![true, true]);
    assert_eq!(race.slots.len(), 3);
    assert!(race.slots.iter().all(|s| s.is_none()));
    assert_eq!(race.stage, RaceStage::Rendezvous);
    assert_eq!(race.time, 0);
}
