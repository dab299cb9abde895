use room_core::protocol::{Event, JoinInner, RoomEvent};
use room_core::room::{ClientKey, Room};
use tokio::sync::{broadcast, mpsc};

struct KeyGuard {
    key: Option<ClientKey>,
    leave_tx: mpsc::Sender<(usize, bool)>,
}

impl Drop for KeyGuard {
    fn drop(&mut self) {
        if let Some(key) = self.key.take() {
            let _ = self.leave_tx.try_send((key.get(), key.is_host()));
        }
    }
}

#[test]
fn subscribers_see_identical_sequences() {
    // the room publishes each handler's events in order on one bus; two
    // subscribers that keep up read back the same sequence
    let mut room = Room::new(None);
    let host = room
        .handle_join(
            vec![1],
            vec![2],
            JoinInner {
                miis: vec![vec![0xA0], vec![0xA1]],
                location: 1,
                latitude: 2,
                longitude: 3,
                region_line_color: 4,
                login_info: None,
                settings: vec![7],
            },
        )
        .expect("host join admitted");
    let mut published: Vec<Event> = host.broadcasts.clone();
    published.extend(room.handle_start(3));

    let (tx, _) = broadcast::channel::<Event>(32);
    let mut sub_a = tx.subscribe();
    let mut sub_b = tx.subscribe();
    for event in &published {
        tx.send(event.clone()).expect("both subscribers are alive");
    }
    let mut seen_a: Vec<Event> = Vec::new();
    let mut seen_b: Vec<Event> = Vec::new();
    while let Ok(event) = sub_a.try_recv() {
        seen_a.push(event);
    }
    while let Ok(event) = sub_b.try_recv() {
        seen_b.push(event);
    }
    assert_eq!(seen_a, published);
    assert_eq!(seen_b, published);
}

#[test]
fn key_guard_sends_one_leave_signal() {
    let mut room = Room::new(None);
    let host = room
        .handle_join(
            vec![1],
            vec![2],
            JoinInner {
                miis: vec![vec![0xA0]],
                location: 1,
                latitude: 2,
                longitude: 3,
                region_line_color: 4,
                login_info: None,
                settings: vec![7],
            },
        )
        .expect("host join admitted");
    let handle = host.client_key.get();
    let (leave_tx, mut leave_rx) = mpsc::channel::<(usize, bool)>(32);
    let guard = KeyGuard { key: Some(host.client_key), leave_tx };
    drop(guard);
    assert_eq!(leave_rx.try_recv(), Ok((handle, true)));
    // destruction happened exactly once, so no second signal exists
    assert!(leave_rx.try_recv().is_err());
}

#[test]
fn lost_leave_signal_is_tolerated() {
    // with the room's receiver gone the guard's send fails silently, as the
    // drop path must never block or panic
    let (leave_tx, leave_rx) = mpsc::channel::<(usize, bool)>(1);
    drop(leave_rx);
    let guard = KeyGuard { key: Some(ClientKey { inner: 3, is_host: false }), leave_tx };
    drop(guard);
}
