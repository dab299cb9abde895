//! Plain-value messages exchanged with a room: inbound requests, outbound
//! events, and the per-tick race frames.  Each executable type has a
//! mathematical image (`...V`) used by the contracts.

use vstd::prelude::*;

verus! {

/// Course pick plus any further voting payload a player submits during Voting.
#[derive(Debug, Clone, PartialEq)]
pub struct Properties {
    pub course: u32,
    pub extra: Vec<u8>,
}

/// Mathematical image of [`Properties`].
pub struct PropertiesV {
    pub course: u32,
    pub extra: Seq<u8>,
}

impl DeepView for Properties {
    type V = PropertiesV;

    open spec fn deep_view(&self) -> PropertiesV {
        PropertiesV { course: self.course, extra: self.extra.deep_view() }
    }
}

/// Opaque per-player race payload; its on-wire layout belongs to the codec.
#[derive(Debug, PartialEq)]
pub struct PlayerState {
    pub data: Vec<u8>,
}

/// Mathematical image of [`PlayerState`].
pub struct PlayerStateV {
    pub data: Seq<u8>,
}

impl DeepView for PlayerState {
    type V = PlayerStateV;

    open spec fn deep_view(&self) -> PlayerStateV {
        PlayerStateV { data: self.data.deep_view() }
    }
}

impl Clone for PlayerState {
    fn clone(&self) -> (r: Self)
        ensures
            r.deep_view() == self.deep_view(),
    {
        PlayerState { data: copy_bytes(&self.data) }
    }
}

/// One client's report for one tick of the race.
#[derive(Debug, Clone, PartialEq)]
pub struct ClientFrame {
    pub time: u32,
    pub players: Vec<PlayerState>,
}

/// Mathematical image of [`ClientFrame`].
pub struct ClientFrameV {
    pub time: u32,
    pub players: Seq<PlayerStateV>,
}

impl DeepView for ClientFrame {
    type V = ClientFrameV;

    open spec fn deep_view(&self) -> ClientFrameV {
        ClientFrameV { time: self.time, players: self.players.deep_view() }
    }
}

/// The server's aggregated frame for one tick; entry `i` of `player_times`
/// and `players` belongs to the player with stable index `i`.
#[derive(Debug, Clone, PartialEq)]
pub struct RaceServerFrame {
    pub time: u32,
    pub player_times: Vec<u32>,
    pub players: Vec<PlayerState>,
}

/// Mathematical image of [`RaceServerFrame`].
pub struct RaceServerFrameV {
    pub time: u32,
    pub player_times: Seq<u32>,
    pub players: Seq<PlayerStateV>,
}

impl DeepView for RaceServerFrame {
    type V = RaceServerFrameV;

    open spec fn deep_view(&self) -> RaceServerFrameV {
        RaceServerFrameV {
            time: self.time,
            player_times: self.player_times.deep_view(),
            players: self.players.deep_view(),
        }
    }
}

/// External identity carried by a joiner when matchmaking is configured.
#[derive(Debug, Clone, Copy, PartialEq, Eq, Structural)]
pub struct LoginInfo {
    pub client_id: u64,
}

impl DeepView for LoginInfo {
    type V = LoginInfo;

    open spec fn deep_view(&self) -> LoginInfo {
        *self
    }
}

/// Payload of a Join request: the joiner's personas and fixed metadata.
#[derive(Debug, Clone, PartialEq)]
pub struct JoinInner {
    pub miis: Vec<Vec<u8>>,
    pub location: u32,
    pub latitude: u32,
    pub longitude: u32,
    pub region_line_color: u32,
    pub login_info: Option<LoginInfo>,
    pub settings: Vec<u32>,
}

/// Mathematical image of [`JoinInner`].
pub struct JoinInnerV {
    pub miis: Seq<Seq<u8>>,
    pub location: u32,
    pub latitude: u32,
    pub longitude: u32,
    pub region_line_color: u32,
    pub login_info: Option<LoginInfo>,
    pub settings: Seq<u32>,
}

impl DeepView for JoinInner {
    type V = JoinInnerV;

    open spec fn deep_view(&self) -> JoinInnerV {
        JoinInnerV {
            miis: self.miis.deep_view(),
            location: self.location,
            latitude: self.latitude,
            longitude: self.longitude,
            region_line_color: self.region_line_color,
            login_info: self.login_info,
            settings: self.settings.deep_view(),
        }
    }
}

/// A reliable event the room forwards to every subscriber.
#[derive(Debug, Clone, PartialEq)]
pub enum RoomEvent {
    Join { mii: Vec<u8>, location: u32, latitude: u32, longitude: u32, region_line_color: u32 },
    Leave { player_id: u32 },
    Comment { message: Vec<u8> },
    SelectPulse { player_id: u32 },
    SelectInfo { player_properties: Vec<Properties>, selected_player: u32 },
    Settings { settings: Vec<u32> },
}

/// Mathematical image of [`RoomEvent`].
pub enum RoomEventV {
    Join { mii: Seq<u8>, location: u32, latitude: u32, longitude: u32, region_line_color: u32 },
    Leave { player_id: u32 },
    Comment { message: Seq<u8> },
    SelectPulse { player_id: u32 },
    SelectInfo { player_properties: Seq<PropertiesV>, selected_player: u32 },
    Settings { settings: Seq<u32> },
}

impl DeepView for RoomEvent {
    type V = RoomEventV;

    open spec fn deep_view(&self) -> RoomEventV {
        match self {
            RoomEvent::Join { mii, location, latitude, longitude, region_line_color } => {
                RoomEventV::Join {
                    mii: mii.deep_view(),
                    location: *location,
                    latitude: *latitude,
                    longitude: *longitude,
                    region_line_color: *region_line_color,
                }
            },
            RoomEvent::Leave { player_id } => RoomEventV::Leave { player_id: *player_id },
            RoomEvent::Comment { message } => RoomEventV::Comment { message: message.deep_view() },
            RoomEvent::SelectPulse { player_id } => {
                RoomEventV::SelectPulse { player_id: *player_id }
            },
            RoomEvent::SelectInfo { player_properties, selected_player } => {
                RoomEventV::SelectInfo {
                    player_properties: player_properties.deep_view(),
                    selected_player: *selected_player,
                }
            },
            RoomEvent::Settings { settings } => {
                RoomEventV::Settings { settings: settings.deep_view() }
            },
        }
    }
}

/// An entry on the room's broadcast bus.
#[derive(Debug, Clone, PartialEq)]
pub enum Event {
    Forward { inner: RoomEvent },
    Start { gamemode: u8 },
}

/// Mathematical image of [`Event`].
pub enum EventV {
    Forward { inner: RoomEventV },
    Start { gamemode: u8 },
}

impl DeepView for Event {
    type V = EventV;

    open spec fn deep_view(&self) -> EventV {
        match self {
            Event::Forward { inner } => EventV::Forward { inner: inner.deep_view() },
            Event::Start { gamemode } => EventV::Start { gamemode: *gamemode },
        }
    }
}

/// A request pushed into the room's inbox by a per-client task.
#[derive(Debug)]
pub enum Request {
    Join { read_key: Vec<u8>, write_key: Vec<u8>, inner: JoinInner },
    Comment { inner: Vec<u8> },
    Start { gamemode: u8 },
    Vote { player_id: u32, properties: Properties },
    ClientFrame { player_id: u32, inner: ClientFrame },
}

/// Mathematical image of [`Request`].
pub enum RequestV {
    Join { read_key: Seq<u8>, write_key: Seq<u8>, inner: JoinInnerV },
    Comment { inner: Seq<u8> },
    Start { gamemode: u8 },
    Vote { player_id: u32, properties: PropertiesV },
    ClientFrame { player_id: u32, inner: ClientFrameV },
}

impl DeepView for Request {
    type V = RequestV;

    open spec fn deep_view(&self) -> RequestV {
        match self {
            Request::Join { read_key, write_key, inner } => {
                RequestV::Join {
                    read_key: read_key.deep_view(),
                    write_key: write_key.deep_view(),
                    inner: inner.deep_view(),
                }
            },
            Request::Comment { inner } => RequestV::Comment { inner: inner.deep_view() },
            Request::Start { gamemode } => RequestV::Start { gamemode: *gamemode },
            Request::Vote { player_id, properties } => {
                RequestV::Vote { player_id: *player_id, properties: properties.deep_view() }
            },
            Request::ClientFrame { player_id, inner } => {
                RequestV::ClientFrame { player_id: *player_id, inner: inner.deep_view() }
            },
        }
    }
}

/// For vectors of plain bytes the deep image and the plain image agree.
pub broadcast proof fn lemma_bytes_view(v: Vec<u8>)
    ensures
        #[trigger] v.deep_view() == v@,
{
    assert(v.deep_view() =~= v@);
}

/// For vectors of plain words the deep image and the plain image agree.
pub broadcast proof fn lemma_words_view(v: Vec<u32>)
    ensures
        #[trigger] v.deep_view() == v@,
{
    assert(v.deep_view() =~= v@);
}

/// Copies a vector of bytes element by element.
pub fn copy_bytes(v: &Vec<u8>) -> (r: Vec<u8>)
    ensures
        r@ == v@,
{
    let mut r: Vec<u8> = Vec::new();
    let mut i: usize = 0;
    while i < v.len()
        invariant
            i <= v@.len(),
            r@ == v@.take(i as int),
        decreases v@.len() - i,
    {
        r.push(v[i]);
        i = i + 1;
    }
    assert(v@.take(v@.len() as int) == v@);
    r
}

/// Copies a vector of words element by element.
pub fn copy_words(v: &Vec<u32>) -> (r: Vec<u32>)
    ensures
        r@ == v@,
{
    let mut r: Vec<u32> = Vec::new();
    let mut i: usize = 0;
    while i < v.len()
        invariant
            i <= v@.len(),
            r@ == v@.take(i as int),
        decreases v@.len() - i,
    {
        r.push(v[i]);
        i = i + 1;
    }
    assert(v@.take(v@.len() as int) == v@);
    r
}

} // verus!
