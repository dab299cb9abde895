use room_core::matchmaking::{MatchmakingState, MatchmakingUpdate};
use room_core::protocol::{Event, JoinInner, LoginInfo, Properties, Request, RoomEvent};
use room_core::room::{RequestOutcome, Room, RoomError, RoomState};

fn inner(miis: Vec<Vec<u8>>, settings: Vec<u32>) -> JoinInner {
    JoinInner {
        miis,
        location: 1,
        latitude: 2,
        longitude: 3,
        region_line_color: 4,
        login_info: None,
        settings,
    }
}

fn props(course: u32) -> Properties {
    Properties { course, extra: vec![] }
}

#[test]
fn two_client_happy_path() {
    let mut room = Room::new(None);
    let host = room
        .handle_join(vec![1; 32], vec![2; 32], inner(vec![vec![0xAA]], vec![7]))
        .expect("host join admitted");
    assert!(host.client_key.is_host());
    assert_eq!(host.broadcasts.len(), 1);
    let guest = room
        .handle_join(vec![3; 32], vec![4; 32], inner(vec![vec![0xBB]], vec![9]))
        .expect("guest join admitted");
    assert!(!guest.client_key.is_host());
    // the guest's reply batch: the host's player first, then the settings
    assert_eq!(guest.reply_events.len(), 2);
    match &guest.reply_events[0] {
        RoomEvent::Join { mii, .. } => assert_eq!(mii, &vec![0xAA]),
        other => panic!("expected roster Join, got {:?}", other),
    }

    let start_events = room.handle_start(3);
    assert_eq!(start_events, vec![Event::Start { gamemode: 3 }]);

    let pulse0 = room.handle_vote(0, props(5));
    assert_eq!(
        pulse0,
        vec![Event::Forward { inner: RoomEvent::SelectPulse { player_id: 0 } }]
    );
    let finish = room.handle_vote(1, props(9));
    assert_eq!(finish.len(), 2);
    let (selected_player, player_properties) = match &finish[1] {
        Event::Forward { inner: RoomEvent::SelectInfo { player_properties, selected_player } } => {
            (*selected_player, player_properties.clone())
        },
        other => panic!("expected SelectInfo, got {:?}", other),
    };
    assert!(selected_player == 0 || selected_player == 1);
    assert_eq!(player_properties.len(), 2);
    assert_eq!(player_properties[0].course, 5);
    assert_eq!(player_properties[1].course, 9);
    match room.room_state {
        RoomState::Playing { gamemode, course } => {
            assert_eq!(gamemode, 3);
            assert!(course == 5 || course == 9);
            assert_eq!(course, player_properties[selected_player as usize].course);
        },
        other => panic!("expected Playing, got {:?}", other),
    }
    // every vote was drained
    assert!(room.players.iter().all(|p| p.properties.is_none()));
}

#[test]
fn settings_frozen() {
    let mut room = Room::new(None);
    room.handle_join(vec![1], vec![2], inner(vec![vec![0xAA]], vec![1, 2]))
        .expect("host join admitted");
    let guest = room
        .handle_join(vec![3], vec![4], inner(vec![vec![0xBB]], vec![9, 9]))
        .expect("guest join admitted");
    let last = guest.reply_events.last().expect("settings event present");
    assert_eq!(last, &RoomEvent::Settings { settings: vec![1, 2] });
    assert_eq!(room.settings, Some(vec![1, 2]));
}

#[test]
fn over_capacity() {
    let mut room = Room::new(None);
    // the host brings one mii; the other 31 admitted clients bring none
    room.handle_join(vec![0], vec![0], inner(vec![vec![0x01]], vec![7]))
        .expect("host join admitted");
    for _ in 0..31 {
        let joined = room
            .handle_join(vec![0], vec![0], inner(vec![], vec![8]))
            .expect("join admitted below the cap");
        // no miis, so nothing is broadcast and no player is added
        assert!(joined.broadcasts.is_empty());
    }
    assert_eq!(room.clients.len(), 32);
    let refused = room.handle_join(vec![0], vec![0], inner(vec![], vec![8]));
    assert!(refused.is_none());
    assert_eq!(room.clients.len(), 32);
}

#[test]
fn player_capacity() {
    let mut room = Room::new(None);
    let twelve: Vec<Vec<u8>> = (0..12u8).map(|b| vec![b]).collect();
    room.handle_join(vec![0], vec![0], inner(twelve, vec![7]))
        .expect("twelve miis fit");
    let refused = room.handle_join(vec![0], vec![0], inner(vec![vec![0xFF]], vec![7]));
    assert!(refused.is_none());
    assert_eq!(room.players.len(), 12);
}

#[test]
fn double_vote() {
    let mut room = Room::new(None);
    room.handle_join(vec![1], vec![2], inner(vec![vec![0xAA]], vec![7]))
        .expect("host join admitted");
    room.handle_join(vec![3], vec![4], inner(vec![vec![0xBB]], vec![7]))
        .expect("guest join admitted");
    room.handle_start(3);
    let first = room.handle_vote(0, props(4));
    assert_eq!(
        first,
        vec![Event::Forward { inner: RoomEvent::SelectPulse { player_id: 0 } }]
    );
    let second = room.handle_vote(0, props(7));
    assert!(second.is_empty());
    assert_eq!(room.players[0].properties.as_ref().unwrap().course, 4);
    // the poll closes with the other player's vote; player 0 kept course 4
    let finish = room.handle_vote(1, props(6));
    match &finish[1] {
        Event::Forward { inner: RoomEvent::SelectInfo { player_properties, .. } } => {
            assert_eq!(player_properties[0].course, 4);
        },
        other => panic!("expected SelectInfo, got {:?}", other),
    }
}

#[test]
fn vote_outside_voting_ignored() {
    let mut room = Room::new(None);
    room.handle_join(vec![1], vec![2], inner(vec![vec![0xAA]], vec![7]))
        .expect("host join admitted");
    let events = room.handle_vote(0, props(4));
    assert!(events.is_empty());
    assert_eq!(room.room_state, RoomState::Lobby);
}

#[test]
fn vote_unknown_player_ignored() {
    let mut room = Room::new(None);
    room.handle_join(vec![1], vec![2], inner(vec![vec![0xAA]], vec![7]))
        .expect("host join admitted");
    room.handle_start(1);
    let events = room.handle_vote(5, props(4));
    assert!(events.is_empty());
}

#[test]
fn host_leave_terminates() {
    let mut room = Room::new(None);
    let host = room
        .handle_join(vec![1], vec![2], inner(vec![vec![0xAA]], vec![7]))
        .expect("host join admitted");
    room.handle_join(vec![3], vec![4], inner(vec![vec![0xBB]], vec![7]))
        .expect("guest join admitted");
    let handle = host.client_key.get();
    assert!(room.contains_client(handle));
    let outcome = room.handle_leave(handle, host.client_key.is_host());
    // the removed record is the host's: the room task halts on this flag
    assert!(outcome.removed.is_host);
    assert_eq!(
        outcome.broadcasts,
        vec![Event::Forward { inner: RoomEvent::Leave { player_id: 0 } }]
    );
    assert!(!room.contains_client(handle));
    assert_eq!(room.players.len(), 1);
}

#[test]
fn leave_events_reverse_walk() {
    let mut room = Room::new(None);
    let host = room
        .handle_join(vec![9], vec![8], inner(vec![vec![0xA0], vec![0xA1]], vec![7]))
        .expect("host join admitted");
    room.handle_join(vec![7], vec![6], inner(vec![vec![0xB0]], vec![7]))
        .expect("guest join admitted");
    let outcome = room.handle_leave(host.client_key.get(), true);
    // reverse walk: indices at removal time, highest first
    assert_eq!(
        outcome.broadcasts,
        vec![
            Event::Forward { inner: RoomEvent::Leave { player_id: 1 } },
            Event::Forward { inner: RoomEvent::Leave { player_id: 0 } },
        ]
    );
    // the guest's player shifted down to index 0
    assert_eq!(room.players.len(), 1);
    assert_eq!(room.players[0].mii, vec![0xB0]);
}

#[test]
fn leave_returns_client_record() {
    let mut room = Room::new(None);
    let host = room
        .handle_join(vec![0x11, 0x22], vec![0x33, 0x44], inner(vec![vec![0xAA]], vec![7]))
        .expect("host join admitted");
    let outcome = room.handle_leave(host.client_key.get(), true);
    // the record stored at admission comes back unchanged
    assert_eq!(outcome.removed.read_key, vec![0x11, 0x22]);
    assert_eq!(outcome.removed.write_key, vec![0x33, 0x44]);
    assert!(!outcome.removed.is_spectator);
}

#[test]
fn matchmaking_updates() {
    let mut room = Room::new(Some(MatchmakingState::new(77)));
    let mut join = inner(vec![vec![0xAA]], vec![7]);
    join.login_info = Some(LoginInfo { client_id: 42 });
    let host = room.handle_join(vec![1], vec![2], join).expect("host join admitted");
    assert_eq!(
        host.matchmaking_update,
        Some(MatchmakingUpdate { room_id: 77, client_id: 42, is_join: true, is_host: true })
    );
    let outcome = room.handle_leave(host.client_key.get(), true);
    assert_eq!(
        outcome.matchmaking_update,
        Some(MatchmakingUpdate { room_id: 77, client_id: 42, is_join: false, is_host: true })
    );
}

#[test]
fn matchmaking_requires_login_info() {
    let mut room = Room::new(Some(MatchmakingState::new(77)));
    let refused = room.handle_join(vec![1], vec![2], inner(vec![vec![0xAA]], vec![7]));
    assert!(refused.is_none());
    assert_eq!(room.clients.len(), 0);
    assert!(room.settings.is_none());
}

#[test]
fn client_frame_is_protocol_violation() {
    let mut room = Room::new(None);
    let frame = room_core::protocol::ClientFrame { time: 0, players: vec![] };
    let result = room.handle_request(Request::ClientFrame { player_id: 0, inner: frame });
    assert_eq!(result.unwrap_err(), RoomError::UnexpectedRequest);
}

#[test]
fn comment_only_in_lobby() {
    let mut room = Room::new(None);
    room.handle_join(vec![1], vec![2], inner(vec![vec![0xAA]], vec![7]))
        .expect("host join admitted");
    let lobby_comment = room.handle_request(Request::Comment { inner: vec![0x68, 0x69] }).unwrap();
    match lobby_comment {
        RequestOutcome::Broadcasts(events) => assert_eq!(
            events,
            vec![Event::Forward { inner: RoomEvent::Comment { message: vec![0x68, 0x69] } }]
        ),
        other => panic!("expected broadcasts, got {:?}", other),
    }
    room.handle_start(1);
    let voting_comment = room.handle_request(Request::Comment { inner: vec![0x68] }).unwrap();
    assert!(matches!(voting_comment, RequestOutcome::Ignored));
}

#[test]
fn start_only_in_lobby() {
    let mut room = Room::new(None);
    room.handle_join(vec![1], vec![2], inner(vec![vec![0xAA]], vec![7]))
        .expect("host join admitted");
    room.handle_start(3);
    assert_eq!(room.room_state, RoomState::Voting { gamemode: 3 });
    let again = room.handle_start(5);
    assert!(again.is_empty());
    assert_eq!(room.room_state, RoomState::Voting { gamemode: 3 });
}

#[test]
fn join_broadcast_per_mii() {
    let mut room = Room::new(None);
    let host = room
        .handle_join(vec![1], vec![2], inner(vec![vec![0xA0], vec![0xA1]], vec![7]))
        .expect("host join admitted");
    let miis: Vec<Vec<u8>> = host
        .broadcasts
        .iter()
        .map(|e| match e {
            Event::Forward { inner: RoomEvent::Join { mii, .. } } => mii.clone(),
            other => panic!("expected Join broadcast, got {:?}", other),
        })
        .collect();
    assert_eq!(miis, vec![vec![0xA0], vec![0xA1]]);
}

#[test]
fn client_entries_in_handle_order() {
    let mut room = Room::new(None);
    let a = room
        .handle_join(vec![0x01], vec![0x02], inner(vec![vec![0xAA]], vec![7]))
        .expect("host join admitted");
    let b = room
        .handle_join(vec![0x03], vec![0x04], inner(vec![vec![0xBB]], vec![7]))
        .expect("guest join admitted");
    let entries = room.client_entries();
    assert_eq!(entries.len(), 2);
    assert!(entries[0].0 < entries[1].0);
    assert_eq!(entries[0].0, a.client_key.get());
    assert_eq!(entries[1].0, b.client_key.get());
    assert_eq!(entries[0].1.read_key, vec![0x01]);
    assert_eq!(entries[1].1.read_key, vec![0x03]);
}

#[test]
fn join_ignored_outside_lobby() {
    let mut room = Room::new(None);
    room.handle_join(vec![1], vec![2], inner(vec![vec![0xAA]], vec![7]))
        .expect("host join admitted");
    room.handle_start(1);
    let refused = room.handle_join(vec![3], vec![4], inner(vec![vec![0xBB]], vec![7]));
    assert!(refused.is_none());
    assert_eq!(room.clients.len(), 1);
}

#[test]
fn matchmaking_lookup_after_handle_reuse() {
    let mut room = Room::new(Some(MatchmakingState::new(5)));
    let mut first = inner(vec![], vec![7]);
    first.login_info = Some(LoginInfo { client_id: 100 });
    let host = room.handle_join(vec![1], vec![2], first).expect("host join admitted");
    let mut second = inner(vec![], vec![7]);
    second.login_info = Some(LoginInfo { client_id: 200 });
    let guest = room.handle_join(vec![3], vec![4], second).expect("guest join admitted");
    // the guest leaves; its handle becomes free and is reused
    let gone = room.handle_leave(guest.client_key.get(), false);
    assert_eq!(gone.matchmaking_update.unwrap().client_id, 200);
    let mut third = inner(vec![], vec![7]);
    third.login_info = Some(LoginInfo { client_id: 300 });
    let reuse = room.handle_join(vec![5], vec![6], third).expect("rejoin admitted");
    assert_eq!(reuse.client_key.get(), guest.client_key.get());
    // the directory's newest entry for the reused handle wins
    let gone_again = room.handle_leave(reuse.client_key.get(), false);
    assert_eq!(gone_again.matchmaking_update.unwrap().client_id, 300);
    let _ = host;
}
