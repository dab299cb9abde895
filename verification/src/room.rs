//! The room state machine: roster, settings, votes and phase.
//!
//! Each handler consumes one request as plain values and returns the events
//! to broadcast (and, for joins and leaves, the reply batch and the
//! matchmaking update) instead of touching any channel itself.

use vstd::prelude::*;

use crate::clients::{
    slab_contains, slab_entries, slab_insert, slab_len, slab_new, slab_remove, slab_view, Client,
    ClientV,
};
use crate::matchmaking::{lookup_spec, MatchmakingState, MatchmakingUpdate};
use crate::protocol::{
    copy_bytes, copy_words, Event, EventV, JoinInner, JoinInnerV, LoginInfo, Properties,
    PropertiesV, Request, RequestV, RoomEvent, RoomEventV,
};

verus! {

broadcast use crate::protocol::lemma_bytes_view, crate::protocol::lemma_words_view;

/// Most clients a room admits.
pub const MAX_CLIENT_COUNT: usize = 32;

/// Most players a room admits across all its clients.
pub const MAX_PLAYER_COUNT: usize = 12;

/// The room's lifecycle phase.
#[derive(Debug, Clone, Copy, PartialEq, Eq, Structural)]
pub enum RoomState {
    Lobby,
    Voting { gamemode: u8 },
    Playing { gamemode: u8, course: u32 },
}

/// The one fatal condition: a request kind the current phase cannot accept.
#[derive(Debug, Clone, Copy, PartialEq, Eq, Structural)]
pub enum RoomError {
    UnexpectedRequest,
}

/// A persona attached to a client; its index in the room's player list is
/// the externally visible player id.
#[derive(Debug, PartialEq)]
pub struct Player {
    pub client_key: usize,
    pub mii: Vec<u8>,
    pub location: u32,
    pub latitude: u32,
    pub longitude: u32,
    pub region_line_color: u32,
    pub properties: Option<Properties>,
}

/// Mathematical image of [`Player`].
pub struct PlayerV {
    pub client_key: usize,
    pub mii: Seq<u8>,
    pub location: u32,
    pub latitude: u32,
    pub longitude: u32,
    pub region_line_color: u32,
    pub properties: Option<PropertiesV>,
}

impl DeepView for Player {
    type V = PlayerV;

    open spec fn deep_view(&self) -> PlayerV {
        PlayerV {
            client_key: self.client_key,
            mii: self.mii.deep_view(),
            location: self.location,
            latitude: self.latitude,
            longitude: self.longitude,
            region_line_color: self.region_line_color,
            properties: self.properties.deep_view(),
        }
    }
}

/// Exclusive handle returned to an admitted client.  It is not clonable, so
/// whoever holds it can surrender it (and thereby report the leave) at most
/// once; the surrounding task does so when the client's session ends.
#[derive(Debug)]
pub struct ClientKey {
    pub inner: usize,
    pub is_host: bool,
}

impl ClientKey {
    /// The stable handle of the client this key belongs to.
    pub fn get(&self) -> (handle: usize)
        ensures
            handle == self.inner,
    {
        self.inner
    }

    /// Whether the client this key belongs to is the host.
    pub fn is_host(&self) -> (host: bool)
        ensures
            host == self.is_host,
    {
        self.is_host
    }
}

/// Everything an admission hands back for the joiner: its key, the reply
/// batch it receives before subscribing, the events to broadcast to the
/// room, and the matchmaking update to post (before the key is given out).
#[derive(Debug)]
pub struct JoinOutcome {
    pub client_key: ClientKey,
    pub reply_events: Vec<RoomEvent>,
    pub broadcasts: Vec<Event>,
    pub matchmaking_update: Option<MatchmakingUpdate>,
}

/// Everything a departure hands back: the removed client record (whose
/// `is_host` flag tells the room's task whether to halt), the Leave
/// broadcasts, and the matchmaking update to post.
#[derive(Debug)]
pub struct LeaveOutcome {
    pub removed: Client,
    pub broadcasts: Vec<Event>,
    pub matchmaking_update: Option<MatchmakingUpdate>,
}

/// A room: the roster of clients, the ordered player list, the settings
/// fixed by the first admission, the matchmaking directory, and the phase.
#[derive(Debug)]
pub struct Room {
    pub clients: slab::Slab<Client>,
    pub players: Vec<Player>,
    pub settings: Option<Vec<u32>>,
    pub matchmaking_state: Option<MatchmakingState>,
    pub room_state: RoomState,
}

impl Room {
    /// The roster as a map from stable handle to client image.
    pub open spec fn clients_view(self) -> Map<int, ClientV> {
        slab_view(self.clients)
    }

    /// The player list as a sequence of player images.
    pub open spec fn players_view(self) -> Seq<PlayerV> {
        self.players.deep_view()
    }

    /// The frozen settings, if any admission happened yet.
    pub open spec fn settings_view(self) -> Option<Seq<u32>> {
        self.settings.deep_view()
    }

    /// At most one admitted client carries the host flag.  (The host leaves
    /// only by surrendering its key, which ends the room.)
    pub open spec fn at_most_one_host(self) -> bool {
        forall|k1: int, k2: int|
            #![trigger self.clients_view()[k1], self.clients_view()[k2]]
            self.clients_view().dom().contains(k1) && self.clients_view().dom().contains(k2)
                && self.clients_view()[k1].is_host && self.clients_view()[k2].is_host ==> k1 == k2
    }

    /// Well-formedness: the capacity bounds, an empty room before the first
    /// admission, at most one host, and every player owned by a present
    /// client.
    pub open spec fn wf(self) -> bool {
        &&& self.clients_view().dom().finite()
        &&& self.clients_view().dom().len() <= MAX_CLIENT_COUNT
        &&& self.players_view().len() <= MAX_PLAYER_COUNT
        &&& (self.settings is None ==> self.clients_view() == Map::<int, ClientV>::empty()
            && self.players_view().len() == 0)
        &&& self.at_most_one_host()
        &&& forall|i: int|
            0 <= i < self.players_view().len() ==> self.clients_view().dom().contains(
                (#[trigger] self.players_view()[i]).client_key as int,
            )
    }

    /// Creates an empty room in Lobby.
    pub fn new(matchmaking_state: Option<MatchmakingState>) -> (room: Room)
        ensures
            room.wf(),
            room.clients_view() == Map::<int, ClientV>::empty(),
            room.players_view() == Seq::<PlayerV>::empty(),
            room.settings is None,
            room.matchmaking_state == matchmaking_state,
            room.room_state == RoomState::Lobby,
    {
        let room = Room {
            clients: slab_new(),
            players: Vec::new(),
            settings: None,
            matchmaking_state,
            room_state: RoomState::Lobby,
        };
        proof {
            assert(room.players.deep_view() =~= Seq::<PlayerV>::empty());
        }
        room
    }

    /// Moves the room from Lobby to Voting and announces the gamemode;
    /// ignored in any other phase.
    pub fn handle_start(&mut self, gamemode: u8) -> (events: Vec<Event>)
        requires
            old(self).wf(),
        ensures
            final(self).wf(),
            old(self).room_state is Lobby ==> final(self).room_state == (RoomState::Voting {
                gamemode,
            }) && events.deep_view() == start_events(gamemode),
            !(old(self).room_state is Lobby) ==> *final(self) == *old(self) && events.deep_view()
                == Seq::<EventV>::empty(),
            final(self).clients == old(self).clients,
            final(self).players == old(self).players,
            final(self).settings == old(self).settings,
            final(self).matchmaking_state == old(self).matchmaking_state,
    {
        let mut events: Vec<Event> = Vec::new();
        if self.room_state != RoomState::Lobby {
            proof {
                assert(events.deep_view() =~= Seq::<EventV>::empty());
            }
            return events;
        }
        self.room_state = RoomState::Voting { gamemode };
        events.push(Event::Start { gamemode });
        proof {
            assert(events.deep_view() =~= start_events(gamemode));
        }
        events
    }

    /// Forwards a comment to the room while it is in Lobby; ignored in any
    /// other phase.  The room itself never changes.
    pub fn handle_comment(&mut self, inner: Vec<u8>) -> (events: Vec<Event>)
        requires
            old(self).wf(),
        ensures
            final(self).wf(),
            *final(self) == *old(self),
            old(self).room_state is Lobby ==> events.deep_view() == comment_events(
                inner.deep_view(),
            ),
            !(old(self).room_state is Lobby) ==> events.deep_view() == Seq::<EventV>::empty(),
    {
        let mut events: Vec<Event> = Vec::new();
        if self.room_state != RoomState::Lobby {
            proof {
                assert(events.deep_view() =~= Seq::<EventV>::empty());
            }
            return events;
        }
        let ghost message = inner.deep_view();
        events.push(Event::Forward { inner: RoomEvent::Comment { message: inner } });
        proof {
            assert(events.deep_view() =~= comment_events(message));
        }
        events
    }

    /// Admits one client while the room is in Lobby.  An inadmissible Join
    /// (wrong phase, over capacity, or missing login info under
    /// matchmaking) is silently ignored and changes nothing.
    #[verifier::loop_isolation(false)]
    pub fn handle_join(&mut self, read_key: Vec<u8>, write_key: Vec<u8>, inner: JoinInner) -> (r:
        Option<JoinOutcome>)
        requires
            old(self).wf(),
        ensures
            final(self).wf(),
            r is Some <==> join_admissible(*old(self), inner.deep_view()),
            r is None ==> *final(self) == *old(self),
            r matches Some(out) ==> join_post(
                *old(self),
                *final(self),
                read_key.deep_view(),
                write_key.deep_view(),
                inner.deep_view(),
                out,
            ),
            old(self).settings is Some ==> final(self).settings == old(self).settings,
    {
        let ghost pre = *old(self);
        let ghost inner_v = inner.deep_view();
        if self.room_state != RoomState::Lobby {
            return None;
        }
        let n_clients = slab_len(&self.clients);
        if n_clients + 1 > MAX_CLIENT_COUNT {
            return None;
        }
        if inner.miis.len() > MAX_PLAYER_COUNT - self.players.len() {
            return None;
        }
        if self.matchmaking_state.is_some() && inner.login_info.is_none() {
            return None;
        }
        let is_host = self.settings.is_none();
        let client = Client { read_key, write_key, is_host, is_spectator: false };
        let ghost client_v = client.deep_view();
        let handle = slab_insert(&mut self.clients, client);
        let mut matchmaking_update: Option<MatchmakingUpdate> = None;
        if let Some(mm) = &mut self.matchmaking_state {
            let li = match inner.login_info {
                Some(li) => li,
                None => {
                    proof {
                        assert(false);
                    }
                    LoginInfo { client_id: 0 }
                },
            };
            mm.record(handle, li.client_id);
            matchmaking_update = Some(
                MatchmakingUpdate {
                    room_id: mm.room_id,
                    client_id: li.client_id,
                    is_join: true,
                    is_host,
                },
            );
        }
        let ghost mid = *self;
        let mut reply_events: Vec<RoomEvent> = Vec::new();
        let mut i: usize = 0;
        while i < self.players.len()
            invariant
                i <= self.players@.len(),
                reply_events.deep_view().len() == i,
                forall|j: int|
                    0 <= j < i ==> #[trigger] reply_events.deep_view()[j] == roster_event(
                        self.players.deep_view()[j],
                    ),
            decreases self.players@.len() - i,
        {
            let ghost reply_prefix = reply_events.deep_view();
            let p = &self.players[i];
            reply_events.push(
                RoomEvent::Join {
                    mii: copy_bytes(&p.mii),
                    location: p.location,
                    latitude: p.latitude,
                    longitude: p.longitude,
                    region_line_color: p.region_line_color,
                },
            );
            proof {
                assert(reply_events.deep_view().len() == i + 1);
                assert(reply_events.deep_view()[i as int] == roster_event(
                    self.players.deep_view()[i as int],
                ));
                assert forall|j: int| 0 <= j < i implies #[trigger] reply_events.deep_view()[j]
                    == roster_event(self.players.deep_view()[j]) by {
                    assert(reply_events.deep_view()[j] == reply_prefix[j]);
                }
            }
            i = i + 1;
        }
        let ghost players_before = self.players.deep_view();
        let mut k: usize = 0;
        while k < inner.miis.len()
            invariant
                k <= inner.miis@.len(),
                self.players@.len() == players_before.len() + k,
                self.clients == mid.clients,
                self.settings == mid.settings,
                self.matchmaking_state == mid.matchmaking_state,
                self.room_state == mid.room_state,
                forall|j: int|
                    0 <= j < players_before.len() ==> #[trigger] self.players.deep_view()[j]
                        == players_before[j],
                forall|j: int|
                    0 <= j < k ==> #[trigger] self.players.deep_view()[players_before.len() + j]
                        == joined_player(handle, inner_v, inner_v.miis[j]),
            decreases inner.miis@.len() - k,
        {
            let ghost grown = self.players.deep_view();
            let mii_copy = copy_bytes(&inner.miis[k]);
            self.players.push(
                Player {
                    client_key: handle,
                    mii: mii_copy,
                    location: inner.location,
                    latitude: inner.latitude,
                    longitude: inner.longitude,
                    region_line_color: inner.region_line_color,
                    properties: None,
                },
            );
            proof {
                assert(self.players@.len() == grown.len() + 1);
                assert(self.players@[grown.len() as int].mii@ == inner.miis@[k as int]@);
                assert(self.players@[grown.len() as int].mii.deep_view() == inner.miis@[
                    k as int
                ].deep_view());
                assert(inner_v.miis[k as int] == inner.miis@[k as int].deep_view());
                assert(self.players.deep_view()[grown.len() as int] == joined_player(
                    handle,
                    inner_v,
                    inner_v.miis[k as int],
                ));
                assert forall|j: int| 0 <= j < grown.len() implies #[trigger] self.players
                    .deep_view()[j] == grown[j] by {}
            }
            k = k + 1;
        }
        if self.settings.is_none() {
            self.settings = Some(copy_words(&inner.settings));
        }
        let ghost frozen = if pre.settings is Some {
            pre.settings_view()->0
        } else {
            inner_v.settings
        };
        let frozen_copy = match &self.settings {
            Some(s) => copy_words(s),
            None => {
                proof {
                    assert(false);
                }
                Vec::new()
            },
        };
        let ghost reply_prefix = reply_events.deep_view();
        reply_events.push(RoomEvent::Settings { settings: frozen_copy });
        proof {
            assert(reply_events.deep_view() =~= roster_events(pre.players_view()).push(
                RoomEventV::Settings { settings: frozen },
            )) by {
                assert(reply_events.deep_view().len() == reply_prefix.len() + 1);
                assert(roster_events(pre.players_view()).len() == pre.players_view().len());
                assert forall|j: int| 0 <= j < reply_prefix.len() implies #[trigger] reply_events
                    .deep_view()[j] == roster_events(pre.players_view())[j] by {
                    assert(reply_events.deep_view()[j] == reply_prefix[j]);
                    assert(reply_prefix[j] == roster_event(players_before[j]));
                }
                assert(reply_events.deep_view()[reply_prefix.len() as int]
                    == (RoomEventV::Settings { settings: frozen }));
            }
        }
        let mut broadcasts: Vec<Event> = Vec::new();
        let mut t: usize = 0;
        while t < inner.miis.len()
            invariant
                t <= inner.miis@.len(),
                broadcasts.deep_view().len() == t,
                forall|j: int|
                    0 <= j < t ==> #[trigger] broadcasts.deep_view()[j] == join_broadcast(
                        inner_v,
                        inner_v.miis[j],
                    ),
            decreases inner.miis@.len() - t,
        {
            let ghost bcast_prefix = broadcasts.deep_view();
            broadcasts.push(
                Event::Forward {
                    inner: RoomEvent::Join {
                        mii: copy_bytes(&inner.miis[t]),
                        location: inner.location,
                        latitude: inner.latitude,
                        longitude: inner.longitude,
                        region_line_color: inner.region_line_color,
                    },
                },
            );
            proof {
                assert(broadcasts.deep_view().len() == t + 1);
                assert(broadcasts.deep_view()[t as int] == join_broadcast(
                    inner_v,
                    inner_v.miis[t as int],
                ));
                assert forall|j: int| 0 <= j < t implies #[trigger] broadcasts.deep_view()[j]
                    == join_broadcast(inner_v, inner_v.miis[j]) by {
                    assert(broadcasts.deep_view()[j] == bcast_prefix[j]);
                }
            }
            t = t + 1;
        }
        let client_key = ClientKey { inner: handle, is_host };
        let outcome = JoinOutcome { client_key, reply_events, broadcasts, matchmaking_update };
        proof {
            assert(join_broadcasts(inner_v).len() == inner_v.miis.len());
            assert(joined_players(handle, inner_v).len() == inner_v.miis.len());
            assert forall|j: int| 0 <= j < inner_v.miis.len() implies #[trigger] joined_players(
                handle,
                inner_v,
            )[j] == joined_player(handle, inner_v, inner_v.miis[j]) by {}
            assert(broadcasts.deep_view() =~= join_broadcasts(inner_v));
            assert forall|j2: int|
                players_before.len() <= j2 < self.players.deep_view().len() implies #[trigger] self
                .players.deep_view()[j2] == joined_players(handle, inner_v)[j2
                - players_before.len()] by {
                let d = j2 - players_before.len();
                assert(self.players.deep_view()[players_before.len() + d] == joined_player(
                    handle,
                    inner_v,
                    inner_v.miis[d],
                ));
            }
            assert(self.players.deep_view() =~= pre.players_view() + joined_players(
                handle,
                inner_v,
            ));
            assert(self.settings_view() == Some(frozen));
            assert(self.clients_view() == pre.clients_view().insert(handle as int, client_v));
            assert(client_v == (ClientV {
                read_key: read_key.deep_view(),
                write_key: write_key.deep_view(),
                is_host,
                is_spectator: false,
            }));
            assert forall|j: int| 0 <= j < self.players_view().len() implies slab_view(
                self.clients,
            ).dom().contains((#[trigger] self.players_view()[j]).client_key as int) by {
                if j < players_before.len() {
                    assert(self.players_view()[j] == pre.players_view()[j]);
                } else {
                    assert(self.players_view()[j] == joined_player(
                        handle,
                        inner_v,
                        inner_v.miis[j - players_before.len()],
                    ));
                }
            }
            assert(join_post(
                pre,
                *self,
                read_key.deep_view(),
                write_key.deep_view(),
                inner_v,
                outcome,
            ));
        }
        Some(outcome)
    }

    /// Processes the departure of the client behind `handle`, reported when
    /// its key was surrendered.  The handle must still be in the roster, and
    /// under matchmaking its external id must have been recorded (admission
    /// guarantees both).
    #[verifier::loop_isolation(false)]
    pub fn handle_leave(&mut self, handle: usize, is_host: bool) -> (out: LeaveOutcome)
        requires
            old(self).wf(),
            old(self).clients_view().dom().contains(handle as int),
            old(self).matchmaking_state matches Some(mm) ==> lookup_spec(
                mm.client_lookup@,
                handle,
            ) is Some,
        ensures
            final(self).wf(),
            leave_post(*old(self), *final(self), handle, is_host, out),
    {
        let ghost pre = *old(self);
        let mut broadcasts: Vec<Event> = Vec::new();
        let mut i: usize = self.players.len();
        proof {
            assert(pre.players_view().take(i as int) =~= pre.players_view());
            assert(pre.players_view().skip(i as int) =~= Seq::<PlayerV>::empty());
            assert(self.players.deep_view() =~= pre.players_view().take(i as int)
                + remaining_players(pre.players_view().skip(i as int), handle));
        }
        while i > 0
            invariant
                i <= pre.players_view().len(),
                self.players.deep_view() == pre.players_view().take(i as int) + remaining_players(
                    pre.players_view().skip(i as int),
                    handle,
                ),
                leave_events(pre.players_view(), handle) == broadcasts.deep_view() + leave_events(
                    pre.players_view().take(i as int),
                    handle,
                ),
                self.clients == pre.clients,
                self.settings == pre.settings,
                self.matchmaking_state == pre.matchmaking_state,
                self.room_state == pre.room_state,
            decreases i,
        {
            i = i - 1;
            proof {
                lemma_remaining_players(pre.players_view().skip(i as int + 1), handle);
                assert(pre.players_view().skip(i as int) =~= seq![
                    pre.players_view()[i as int]
                ] + pre.players_view().skip(i as int + 1));
                assert(pre.players_view().skip(i as int).skip(1) =~= pre.players_view().skip(
                    i as int + 1,
                ));
                assert(pre.players_view().take(i as int + 1).drop_last() =~= pre.players_view()
                    .take(i as int));
                assert(pre.players_view().take(i as int + 1) =~= pre.players_view().take(i as int)
                    + seq![pre.players_view()[i as int]]);
                assert(self.players.deep_view()[i as int] == pre.players_view()[i as int]);
            }
            let ghost events_before = broadcasts.deep_view();
            let ghost deep_before = self.players.deep_view();
            if self.players[i].client_key == handle {
                let _removed_player = self.players.remove(i);
                broadcasts.push(Event::Forward { inner: RoomEvent::Leave { player_id: i as u32 } });
                proof {
                    assert(pre.players_view()[i as int].client_key == handle);
                    assert(remaining_players(pre.players_view().skip(i as int), handle)
                        == remaining_players(pre.players_view().skip(i as int + 1), handle));
                    assert(self.players.deep_view() =~= deep_before.remove(i as int));
                    assert(self.players.deep_view() =~= pre.players_view().take(i as int)
                        + remaining_players(pre.players_view().skip(i as int), handle));
                    assert(broadcasts.deep_view() =~= events_before + seq![
                        leave_event(i as u32)
                    ]);
                    assert(leave_events(pre.players_view().take(i as int + 1), handle) == seq![
                        leave_event(i as u32)
                    ] + leave_events(pre.players_view().take(i as int), handle));
                    assert(leave_events(pre.players_view(), handle) =~= broadcasts.deep_view()
                        + leave_events(pre.players_view().take(i as int), handle));
                }
            } else {
                proof {
                    assert(self.players.deep_view() =~= pre.players_view().take(i as int)
                        + remaining_players(pre.players_view().skip(i as int), handle));
                    assert(leave_events(pre.players_view().take(i as int + 1), handle)
                        == leave_events(pre.players_view().take(i as int), handle));
                }
            }
        }
        proof {
            assert(pre.players_view().take(0) =~= Seq::<PlayerV>::empty());
            assert(pre.players_view().skip(0) =~= pre.players_view());
            assert(self.players.deep_view() =~= remaining_players(pre.players_view(), handle));
            assert(broadcasts.deep_view() =~= leave_events(pre.players_view(), handle));
        }
        let mut matchmaking_update: Option<MatchmakingUpdate> = None;
        if let Some(mm) = &self.matchmaking_state {
            let client_id = match mm.lookup(handle) {
                Some(client_id) => client_id,
                None => {
                    proof {
                        assert(false);
                    }
                    0
                },
            };
            matchmaking_update = Some(
                MatchmakingUpdate { room_id: mm.room_id, client_id, is_join: false, is_host },
            );
        }
        let removed = slab_remove(&mut self.clients, handle);
        proof {
            lemma_remaining_players(pre.players_view(), handle);
            assert forall|j: int| 0 <= j < self.players_view().len() implies slab_view(
                self.clients,
            ).dom().contains((#[trigger] self.players_view()[j]).client_key as int) by {
                let w = choose|j2: int|
                    0 <= j2 < pre.players_view().len() && pre.players_view()[j2]
                        == remaining_players(pre.players_view(), handle)[j];
                assert(pre.clients_view().dom().contains(pre.players_view()[w].client_key as int));
            }
        }
        LeaveOutcome { removed, broadcasts, matchmaking_update }
    }

    /// Records one player's vote.  A vote in the wrong phase, for an unknown
    /// player or for one that already voted is silently ignored; once a vote
    /// is set it cannot be changed.  The last vote closes the poll.
    pub fn handle_vote(&mut self, player_id: u32, properties: Properties) -> (events: Vec<Event>)
        requires
            old(self).wf(),
        ensures
            final(self).wf(),
            !vote_allowed(*old(self), player_id) ==> *final(self) == *old(self)
                && events.deep_view() == Seq::<EventV>::empty(),
            vote_allowed(*old(self), player_id) ==> vote_post(
                *old(self),
                *final(self),
                player_id,
                properties.deep_view(),
                events.deep_view(),
            ) && events.deep_view().len() >= 1,
            final(self).clients == old(self).clients,
            final(self).settings == old(self).settings,
            final(self).matchmaking_state == old(self).matchmaking_state,
    {
        let mut events: Vec<Event> = Vec::new();
        let gamemode = match self.room_state {
            RoomState::Voting { gamemode } => gamemode,
            _ => {
                proof {
                    assert(events.deep_view() =~= Seq::<EventV>::empty());
                }
                return events;
            },
        };
        let pid = player_id as usize;
        if pid >= self.players.len() {
            proof {
                assert(events.deep_view() =~= Seq::<EventV>::empty());
            }
            return events;
        }
        if self.players[pid].properties.is_some() {
            proof {
                assert(events.deep_view() =~= Seq::<EventV>::empty());
            }
            return events;
        }
        let ghost pre = *self;
        let ghost props = properties.deep_view();
        let ghost voted = with_vote(pre.players_view(), player_id, props);
        let slot = &mut self.players[pid];
        slot.properties = Some(properties);
        proof {
            assert(self.players.deep_view() =~= voted);
        }
        events.push(Event::Forward { inner: RoomEvent::SelectPulse { player_id } });
        if all_players_voted(&self.players) {
            proof {
                assert(votes_of(voted).len() == voted.len());
                assert(drained(voted).len() == voted.len());
                assert forall|j: int| 0 <= j < voted.len() implies #[trigger] votes_of(voted)[j]
                    == voted[j].properties->0 by {}
                assert forall|j: int| 0 <= j < voted.len() implies (#[trigger] drained(
                    voted,
                )[j]).client_key == voted[j].client_key && drained(voted)[j].properties is None by {}
            }
            let w = crate::rng::random_below(self.players.len());
            proof {
                assert(self.players.deep_view()[w as int] == voted[w as int]);
                assert(voted[w as int].properties is Some);
                assert(self.players@[w as int].properties is Some);
            }
            let course = match &self.players[w].properties {
                Some(p) => p.course,
                None => {
                    proof {
                        assert(false);
                    }
                    0
                },
            };
            proof {
                assert(self.players@[w as int].properties.deep_view() == voted[
                    w as int
                ].properties);
                assert(voted[w as int].properties->0.course == course);
            }
            self.room_state = RoomState::Playing { gamemode, course };
            let mut player_properties: Vec<Properties> = Vec::new();
            let mut i: usize = 0;
            while i < self.players.len()
                invariant
                    i <= self.players@.len(),
                    self.players@.len() == voted.len(),
                    all_voted(voted),
                    self.room_state == (RoomState::Playing { gamemode, course }),
                    self.clients == pre.clients,
                    self.settings == pre.settings,
                    self.matchmaking_state == pre.matchmaking_state,
                    voted[w as int].properties->0.course == course,
                    0 <= w < voted.len(),
                    forall|j: int| i <= j < voted.len() ==> self.players.deep_view()[j] == voted[j],
                    forall|j: int|
                        0 <= j < i ==> self.players.deep_view()[j] == drained(voted)[j],
                    player_properties.deep_view().len() == i,
                    forall|j: int|
                        0 <= j < i ==> #[trigger] player_properties.deep_view()[j] == votes_of(
                            voted,
                        )[j],
                decreases self.players@.len() - i,
            {
                proof {
                    assert(self.players.deep_view()[i as int] == voted[i as int]);
                    assert(voted[i as int].properties is Some);
                    assert(self.players@[i as int].properties is Some);
                }
                let slot_i = &mut self.players[i];
                let taken = slot_i.properties.take();
                proof {
                    assert(taken.deep_view() == voted[i as int].properties);
                    assert(taken is Some);
                    assert(self.players.deep_view()[i as int] =~= drained(voted)[i as int]);
                }
                let ghost votes_prefix = player_properties.deep_view();
                player_properties.push(taken.unwrap());
                proof {
                    assert((taken->0).deep_view() == voted[i as int].properties->0);
                    assert(votes_of(voted)[i as int] == voted[i as int].properties->0);
                    assert(player_properties.deep_view().len() == i + 1);
                    assert(player_properties.deep_view()[i as int] == (taken->0).deep_view());
                    assert forall|j: int| 0 <= j < i implies #[trigger] player_properties
                        .deep_view()[j] == votes_of(voted)[j] by {
                        assert(player_properties.deep_view()[j] == votes_prefix[j]);
                    }
                }
                i = i + 1;
            }
            proof {
                assert(self.players.deep_view() =~= drained(voted));
                assert(player_properties.deep_view() =~= votes_of(voted));
            }
            events.push(
                Event::Forward {
                    inner: RoomEvent::SelectInfo { player_properties, selected_player: w as u32 },
                },
            );
            proof {
                assert(events.deep_view() =~= seq![
                    pulse_event(player_id),
                    select_info_event(voted, w as u32),
                ]);
                assert(voted[w as int].properties->0.course == course);
                assert(self.room_state == (RoomState::Playing {
                    gamemode,
                    course: voted[w as int].properties->0.course,
                }));
                assert forall|j: int| 0 <= j < self.players_view().len() implies slab_view(
                    self.clients,
                ).dom().contains((#[trigger] self.players_view()[j]).client_key as int) by {
                    assert(self.players_view()[j] == drained(voted)[j]);
                    assert(drained(voted)[j].client_key == voted[j].client_key);
                    assert(voted[j].client_key == pre.players_view()[j].client_key);
                }
                assert(vote_post(pre, *self, player_id, props, events.deep_view()));
            }
        } else {
            proof {
                assert(events.deep_view() =~= seq![pulse_event(player_id)]);
                assert forall|j: int| 0 <= j < self.players_view().len() implies slab_view(
                    self.clients,
                ).dom().contains((#[trigger] self.players_view()[j]).client_key as int) by {
                    assert(self.players_view()[j] == voted[j]);
                    assert(voted[j].client_key == pre.players_view()[j].client_key);
                }
            }
        }
        events
    }

    /// Answers one request outside the race loop, dispatching on its kind.
    /// Inadmissible requests are silently ignored; a ClientFrame here is a
    /// protocol violation and yields the room's one fatal error.
    #[verifier::rlimit(50)]
    pub fn handle_request(&mut self, request: Request) -> (r: Result<RequestOutcome, RoomError>)
        requires
            old(self).wf(),
        ensures
            final(self).wf(),
            request_post(*old(self), *final(self), request, r),
    {
        let ghost pre = *old(self);
        let ghost req_snap = request;
        let r: Result<RequestOutcome, RoomError> = match request {
            Request::Join { read_key, write_key, inner } => {
                let rr: Result<RequestOutcome, RoomError> = match self.handle_join(
                    read_key,
                    write_key,
                    inner,
                ) {
                    Some(outcome) => Ok(RequestOutcome::Joined(outcome)),
                    None => Ok(RequestOutcome::Ignored),
                };
                proof {
                    assert(request_post(pre, *self, req_snap, rr));
                }
                rr
            },
            Request::Comment { inner } => {
                let events = self.handle_comment(inner);
                proof {
                    if pre.room_state is Lobby {
                        assert(events.deep_view().len() == 1);
                        assert(events@.len() == 1);
                    } else {
                        assert(events.deep_view().len() == 0);
                        assert(events@.len() == 0);
                    }
                }
                let rr: Result<RequestOutcome, RoomError> = if events.len() == 0 {
                    Ok(RequestOutcome::Ignored)
                } else {
                    Ok(RequestOutcome::Broadcasts(events))
                };
                proof {
                    assert(request_post(pre, *self, req_snap, rr));
                }
                rr
            },
            Request::Start { gamemode } => {
                let events = self.handle_start(gamemode);
                proof {
                    if pre.room_state is Lobby {
                        assert(events.deep_view().len() == 1);
                        assert(events@.len() == 1);
                    } else {
                        assert(events.deep_view().len() == 0);
                        assert(events@.len() == 0);
                    }
                }
                let rr: Result<RequestOutcome, RoomError> = if events.len() == 0 {
                    Ok(RequestOutcome::Ignored)
                } else {
                    Ok(RequestOutcome::Broadcasts(events))
                };
                proof {
                    assert(request_post(pre, *self, req_snap, rr));
                }
                rr
            },
            Request::Vote { player_id, properties } => {
                let events = self.handle_vote(player_id, properties);
                proof {
                    if vote_allowed(pre, player_id) {
                        assert(events.deep_view().len() >= 1);
                        assert(events@.len() >= 1);
                    } else {
                        assert(events.deep_view().len() == 0);
                        assert(events@.len() == 0);
                    }
                }
                let rr: Result<RequestOutcome, RoomError> = if events.len() == 0 {
                    Ok(RequestOutcome::Ignored)
                } else {
                    Ok(RequestOutcome::Broadcasts(events))
                };
                proof {
                    assert(request_post(pre, *self, req_snap, rr));
                }
                rr
            },
            Request::ClientFrame { player_id: _, inner: _ } => Err(RoomError::UnexpectedRequest),
        };
        proof {
            assert(request_post(pre, *self, req_snap, r));
        }
        r
    }

    /// Whether `handle` currently names an admitted client.  The room's task
    /// checks this before reporting a departure.
    pub fn contains_client(&self, handle: usize) -> (b: bool)
        ensures
            b == self.clients_view().dom().contains(handle as int),
    {
        slab_contains(&self.clients, handle)
    }

    /// The admitted clients with their handles, in increasing handle order;
    /// the race transport builds one connection per entry from its keys.
    pub fn client_entries(&self) -> (v: Vec<(usize, Client)>)
        ensures
            forall|i: int|
                0 <= i < v@.len() ==> self.clients_view().dom().contains(
                    (#[trigger] v@[i]).0 as int,
                ),
            forall|i: int|
                0 <= i < v@.len() ==> (#[trigger] v@[i]).1.deep_view() == self.clients_view()[v@[
                    i
                ].0 as int],
            forall|i: int, j: int| 0 <= i < j < v@.len() ==> v@[i].0 < v@[j].0,
            forall|k: int|
                #[trigger] self.clients_view().dom().contains(k) ==> exists|i: int|
                    0 <= i < v@.len() && v@[i].0 == k,
    {
        let v = slab_entries(&self.clients);
        proof {
            assert forall|i: int| 0 <= i < v@.len() implies self.clients_view().dom().contains(
                (#[trigger] v@[i]).0 as int,
            ) && v@[i].1.deep_view() == self.clients_view()[v@[i].0 as int] by {
                assert(slab_view(self.clients).dom().contains(v@[i].0 as int));
            }
        }
        v
    }

    /// Sets up the race loop for the current roster: one pending flag per
    /// admitted client, one empty frame slot per player.
    pub fn begin_race(&self) -> (r: crate::race::RaceState)
        requires
            self.wf(),
        ensures
            r.wf(),
            r.stage == crate::race::RaceStage::Rendezvous,
            r.time == 0,
            r.pending@.len() == self.clients_view().dom().len(),
            forall|i: int| 0 <= i < r.pending@.len() ==> r.pending@[i],
            r.slots_view() =~= Seq::new(
                self.players_view().len(),
                |i: int| None::<crate::protocol::ClientFrameV>,
            ),
    {
        crate::race::RaceState::new(slab_len(&self.clients), self.players.len())
    }
}

/// The Join event describing one present player, sent to a joiner so it
/// learns the roster.
pub open spec fn roster_event(p: PlayerV) -> RoomEventV {
    RoomEventV::Join {
        mii: p.mii,
        location: p.location,
        latitude: p.latitude,
        longitude: p.longitude,
        region_line_color: p.region_line_color,
    }
}

/// The reply batch's roster part: one Join event per present player.
pub open spec fn roster_events(ps: Seq<PlayerV>) -> Seq<RoomEventV> {
    ps.map_values(|p: PlayerV| roster_event(p))
}

/// The player a joiner's mii becomes.
pub open spec fn joined_player(handle: usize, inner: JoinInnerV, mii: Seq<u8>) -> PlayerV {
    PlayerV {
        client_key: handle,
        mii,
        location: inner.location,
        latitude: inner.latitude,
        longitude: inner.longitude,
        region_line_color: inner.region_line_color,
        properties: None,
    }
}

/// The players appended by an admission, in mii order.
pub open spec fn joined_players(handle: usize, inner: JoinInnerV) -> Seq<PlayerV> {
    inner.miis.map_values(|m: Seq<u8>| joined_player(handle, inner, m))
}

/// The broadcast announcing one of the joiner's miis to the room.
pub open spec fn join_broadcast(inner: JoinInnerV, mii: Seq<u8>) -> EventV {
    EventV::Forward {
        inner: RoomEventV::Join {
            mii,
            location: inner.location,
            latitude: inner.latitude,
            longitude: inner.longitude,
            region_line_color: inner.region_line_color,
        },
    }
}

/// The admission broadcasts: exactly one Join event per new mii, in order.
pub open spec fn join_broadcasts(inner: JoinInnerV) -> Seq<EventV> {
    inner.miis.map_values(|m: Seq<u8>| join_broadcast(inner, m))
}

/// Whether a Join is admitted: Lobby phase, room for one more client, room
/// for every new mii, and login info whenever matchmaking is configured.
pub open spec fn join_admissible(pre: Room, inner: JoinInnerV) -> bool {
    &&& pre.room_state is Lobby
    &&& pre.clients_view().dom().len() + 1 <= MAX_CLIENT_COUNT
    &&& pre.players_view().len() + inner.miis.len() <= MAX_PLAYER_COUNT
    &&& (pre.matchmaking_state is Some ==> inner.login_info is Some)
}

/// What an admission does: the joiner is stored under a fresh handle, is the
/// host exactly if it is the first admission, its miis become the last
/// players, the settings freeze on first admission, the reply batch carries
/// the prior roster plus the frozen settings, one Join broadcast goes out
/// per new mii, and the matchmaking directory learns the new client.
pub open spec fn join_post(
    pre: Room,
    post: Room,
    read_key: Seq<u8>,
    write_key: Seq<u8>,
    inner: JoinInnerV,
    out: JoinOutcome,
) -> bool {
    let handle = out.client_key.inner;
    let is_host = pre.settings is None;
    let frozen = if pre.settings is Some {
        pre.settings_view()->0
    } else {
        inner.settings
    };
    &&& out.client_key.is_host == is_host
    &&& !pre.clients_view().dom().contains(handle as int)
    &&& post.clients_view() == pre.clients_view().insert(
        handle as int,
        ClientV { read_key, write_key, is_host, is_spectator: false },
    )
    &&& post.players_view() == pre.players_view() + joined_players(handle, inner)
    &&& post.settings_view() == Some(frozen)
    &&& post.room_state == pre.room_state
    &&& out.reply_events.deep_view() == roster_events(pre.players_view()).push(
        RoomEventV::Settings { settings: frozen },
    )
    &&& out.broadcasts.deep_view() == join_broadcasts(inner)
    &&& match pre.matchmaking_state {
        None => post.matchmaking_state is None && out.matchmaking_update is None,
        Some(mm) => {
            &&& inner.login_info is Some
            &&& post.matchmaking_state matches Some(mm2) && mm2.room_id == mm.room_id
                && mm2.client_lookup@ == mm.client_lookup@.push(
                (handle, inner.login_info->0.client_id),
            )
            &&& out.matchmaking_update == Some(
                MatchmakingUpdate {
                    room_id: mm.room_id,
                    client_id: inner.login_info->0.client_id,
                    is_join: true,
                    is_host,
                },
            )
        },
    }
}

/// After any sequence of operations that keeps the room well-formed, the
/// roster respects both caps: at most `MAX_PLAYER_COUNT` players and at most
/// `MAX_CLIENT_COUNT` clients.
pub proof fn lemma_room_capacity(room: Room)
    requires
        room.wf(),
    ensures
        room.players_view().len() <= MAX_PLAYER_COUNT,
        room.clients_view().dom().len() <= MAX_CLIENT_COUNT,
{
}

/// Once any admission has fixed the settings, a later admission leaves them
/// unchanged: the first Join freezes them for the room's life.
pub proof fn lemma_settings_frozen(
    pre: Room,
    post: Room,
    read_key: Seq<u8>,
    write_key: Seq<u8>,
    inner: JoinInnerV,
    out: JoinOutcome,
)
    requires
        pre.settings is Some,
        join_post(pre, post, read_key, write_key, inner, out),
    ensures
        post.settings_view() == pre.settings_view(),
{
}

/// Whether a Vote for `player_id` is accepted: the room is in Voting, the id
/// names a player, and that player has not voted yet.
pub open spec fn vote_allowed(pre: Room, player_id: u32) -> bool {
    &&& pre.room_state is Voting
    &&& (player_id as int) < pre.players_view().len()
    &&& pre.players_view()[player_id as int].properties is None
}

/// Whether every player has submitted properties.
pub open spec fn all_voted(ps: Seq<PlayerV>) -> bool {
    forall|i: int| 0 <= i < ps.len() ==> (#[trigger] ps[i]).properties is Some
}

/// The player list after `player_id` submits `props`.
pub open spec fn with_vote(ps: Seq<PlayerV>, player_id: u32, props: PropertiesV) -> Seq<PlayerV> {
    ps.update(player_id as int, PlayerV { properties: Some(props), ..ps[player_id as int] })
}

/// The player list after every vote has been collected out of it.
pub open spec fn drained(ps: Seq<PlayerV>) -> Seq<PlayerV> {
    ps.map_values(|p: PlayerV| PlayerV { properties: None, ..p })
}

/// The submitted properties, in player order.
pub open spec fn votes_of(ps: Seq<PlayerV>) -> Seq<PropertiesV> {
    ps.map_values(|p: PlayerV| p.properties->0)
}

/// The broadcast acknowledging one accepted vote.
pub open spec fn pulse_event(player_id: u32) -> EventV {
    EventV::Forward { inner: RoomEventV::SelectPulse { player_id } }
}

/// The broadcast closing the vote: every submission plus the winning player.
pub open spec fn select_info_event(ps: Seq<PlayerV>, selected: u32) -> EventV {
    EventV::Forward {
        inner: RoomEventV::SelectInfo { player_properties: votes_of(ps), selected_player: selected },
    }
}

/// What an accepted Vote does.  With votes still missing, the room stays in
/// Voting and only the pulse goes out.  With the last vote in, some player
/// `w` is selected, the winning course is `w`'s pick, the room enters
/// Playing, and the collected votes are broadcast and drained.
pub open spec fn vote_post(
    pre: Room,
    post: Room,
    player_id: u32,
    props: PropertiesV,
    out: Seq<EventV>,
) -> bool {
    let voted = with_vote(pre.players_view(), player_id, props);
    let gamemode = pre.room_state->Voting_gamemode;
    if all_voted(voted) {
        exists|w: int|
            #![auto]
            0 <= w < voted.len() && {
                &&& post.room_state == (RoomState::Playing {
                    gamemode,
                    course: voted[w].properties->0.course,
                })
                &&& post.players_view() == drained(voted)
                &&& out == seq![pulse_event(player_id), select_info_event(voted, w as u32)]
            }
    } else {
        &&& post.room_state == pre.room_state
        &&& post.players_view() == voted
        &&& out == seq![pulse_event(player_id)]
    }
}

/// Whether every player in the list has voted, checked slot by slot.
fn all_players_voted(players: &Vec<Player>) -> (b: bool)
    ensures
        b == all_voted(players.deep_view()),
{
    let mut i: usize = 0;
    while i < players.len()
        invariant
            i <= players@.len(),
            forall|j: int| 0 <= j < i ==> (#[trigger] players.deep_view()[j]).properties is Some,
        decreases players@.len() - i,
    {
        if players[i].properties.is_none() {
            assert(players.deep_view()[i as int].properties is None);
            return false;
        }
        i = i + 1;
    }
    true
}

/// How the room answered one request.
#[derive(Debug)]
pub enum RequestOutcome {
    /// The request was silently ignored and nothing changed.
    Ignored,
    /// A Join was admitted.
    Joined(JoinOutcome),
    /// The events to put on the broadcast bus, in order.
    Broadcasts(Vec<Event>),
}

/// What one request does to the room, by request kind.  A ClientFrame
/// outside the race loop is the one protocol violation and halts the room.
pub open spec fn request_post(
    pre: Room,
    post: Room,
    req: Request,
    r: Result<RequestOutcome, RoomError>,
) -> bool {
    match req.deep_view() {
        RequestV::Join { read_key, write_key, inner } => {
            &&& r is Ok
            &&& (join_admissible(pre, inner) ==> {
                &&& r->Ok_0 matches RequestOutcome::Joined(out)
                &&& join_post(pre, post, read_key, write_key, inner, out)
            })
            &&& (!join_admissible(pre, inner) ==> r->Ok_0 is Ignored && post == pre)
        },
        RequestV::Comment { inner } => {
            &&& r is Ok
            &&& post == pre
            &&& (pre.room_state is Lobby ==> {
                &&& r->Ok_0 matches RequestOutcome::Broadcasts(events)
                &&& events.deep_view() == comment_events(inner)
            })
            &&& (!(pre.room_state is Lobby) ==> r->Ok_0 is Ignored)
        },
        RequestV::Start { gamemode } => {
            &&& r is Ok
            &&& (pre.room_state is Lobby ==> {
                &&& r->Ok_0 matches RequestOutcome::Broadcasts(events)
                &&& events.deep_view() == start_events(gamemode)
                &&& post.room_state == (RoomState::Voting { gamemode })
                &&& post.clients == pre.clients
                &&& post.players == pre.players
                &&& post.settings == pre.settings
                &&& post.matchmaking_state == pre.matchmaking_state
            })
            &&& (!(pre.room_state is Lobby) ==> r->Ok_0 is Ignored && post == pre)
        },
        RequestV::Vote { player_id, properties } => {
            &&& r is Ok
            &&& (vote_allowed(pre, player_id) ==> {
                &&& r->Ok_0 matches RequestOutcome::Broadcasts(events)
                &&& vote_post(pre, post, player_id, properties, events.deep_view())
            })
            &&& (!vote_allowed(pre, player_id) ==> r->Ok_0 is Ignored && post == pre)
        },
        RequestV::ClientFrame { .. } => {
            &&& r == Err::<RequestOutcome, RoomError>(RoomError::UnexpectedRequest)
            &&& post == pre
        },
    }
}

/// The broadcast announcing that one player left, with its pre-shift index.
pub open spec fn leave_event(player_id: u32) -> EventV {
    EventV::Forward { inner: RoomEventV::Leave { player_id } }
}

/// The players that stay when client `handle` leaves, in order.
pub open spec fn remaining_players(ps: Seq<PlayerV>, handle: usize) -> Seq<PlayerV>
    decreases ps.len(),
{
    if ps.len() == 0 {
        ps
    } else {
        let tail = remaining_players(ps.skip(1), handle);
        if ps[0].client_key == handle {
            tail
        } else {
            seq![ps[0]] + tail
        }
    }
}

/// The Leave broadcasts a departure of client `handle` produces: one per
/// removed player, highest index first, each with the index the player had
/// at its removal (the reverse walk keeps lower indices stable).
pub open spec fn leave_events(ps: Seq<PlayerV>, handle: usize) -> Seq<EventV>
    decreases ps.len(),
{
    if ps.len() == 0 {
        Seq::empty()
    } else {
        let head = if ps.last().client_key == handle {
            seq![leave_event((ps.len() - 1) as u32)]
        } else {
            Seq::empty()
        };
        head + leave_events(ps.drop_last(), handle)
    }
}

/// Each staying player is one of the old players, keeps its relative order,
/// and is not owned by the departing client.
pub proof fn lemma_remaining_players(ps: Seq<PlayerV>, handle: usize)
    ensures
        remaining_players(ps, handle).len() <= ps.len(),
        forall|j: int|
            0 <= j < remaining_players(ps, handle).len() ==> (#[trigger] remaining_players(
                ps,
                handle,
            )[j]).client_key != handle && exists|j2: int|
                0 <= j2 < ps.len() && ps[j2] == remaining_players(ps, handle)[j],
    decreases ps.len(),
{
    if ps.len() == 0 {
    } else {
        let tail = ps.skip(1);
        lemma_remaining_players(tail, handle);
        assert forall|j: int|
            0 <= j < remaining_players(ps, handle).len() implies (#[trigger] remaining_players(
            ps,
            handle,
        )[j]).client_key != handle && exists|j2: int|
            0 <= j2 < ps.len() && ps[j2] == remaining_players(ps, handle)[j] by {
            if ps[0].client_key == handle {
                assert(remaining_players(ps, handle)[j] == remaining_players(tail, handle)[j]);
                let w = choose|j2: int|
                    0 <= j2 < tail.len() && tail[j2] == remaining_players(tail, handle)[j];
                assert(ps[w + 1] == remaining_players(ps, handle)[j]);
            } else {
                if j == 0 {
                    assert(ps[0] == remaining_players(ps, handle)[j]);
                } else {
                    assert(remaining_players(ps, handle)[j] == remaining_players(tail, handle)[j
                        - 1]);
                    let w = choose|j2: int|
                        0 <= j2 < tail.len() && tail[j2] == remaining_players(tail, handle)[j - 1];
                    assert(ps[w + 1] == remaining_players(ps, handle)[j]);
                }
            }
        }
    }
}

/// What a departure of client `handle` does: its players leave the list in
/// one reverse walk, one Leave broadcast per removed player, the client's
/// record comes out of the roster, and (under matchmaking) its recorded
/// external id is posted as a leave update.  Settings and phase stay.
pub open spec fn leave_post(
    pre: Room,
    post: Room,
    handle: usize,
    is_host: bool,
    out: LeaveOutcome,
) -> bool {
    &&& out.removed.deep_view() == pre.clients_view()[handle as int]
    &&& post.clients_view() == pre.clients_view().remove(handle as int)
    &&& post.players_view() == remaining_players(pre.players_view(), handle)
    &&& out.broadcasts.deep_view() == leave_events(pre.players_view(), handle)
    &&& post.settings == pre.settings
    &&& post.room_state == pre.room_state
    &&& match pre.matchmaking_state {
        None => post.matchmaking_state is None && out.matchmaking_update is None,
        Some(mm) => {
            &&& post.matchmaking_state == pre.matchmaking_state
            &&& out.matchmaking_update == Some(
                MatchmakingUpdate {
                    room_id: mm.room_id,
                    client_id: lookup_spec(mm.client_lookup@, handle)->0,
                    is_join: false,
                    is_host,
                },
            )
        },
    }
}

/// The single event a Start broadcast carries.
pub open spec fn start_events(gamemode: u8) -> Seq<EventV> {
    seq![EventV::Start { gamemode }]
}

/// The single event a Comment broadcast carries.
pub open spec fn comment_events(message: Seq<u8>) -> Seq<EventV> {
    seq![EventV::Forward { inner: RoomEventV::Comment { message } }]
}

} // verus!
