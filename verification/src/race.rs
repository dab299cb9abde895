//! The race loop's state machine.  On entry every client is pending; each
//! readiness ping clears one.  Then one frame slot per player is filled; no
//! server frame goes out before the last slot is filled.  From then on each
//! incoming frame overwrites its player's slot and yields one server frame,
//! with tick times counting up from zero.

use vstd::pervasive::VecAdditionalExecFns;
use vstd::prelude::*;

use crate::protocol::{ClientFrame, ClientFrameV, PlayerState, RaceServerFrame, RaceServerFrameV};

verus! {

/// Where the race loop stands.
#[derive(Debug, Clone, Copy, PartialEq, Eq, Structural)]
pub enum RaceStage {
    Rendezvous,
    Collecting,
    Ticking,
}

/// Whether any client has not pinged yet.
pub open spec fn has_pending(pending: Seq<bool>) -> bool {
    exists|i: int| 0 <= i < pending.len() && pending[i]
}

/// Whether every player's frame slot is filled.
pub open spec fn all_slots_filled(slots: Seq<Option<ClientFrameV>>) -> bool {
    forall|i: int| 0 <= i < slots.len() ==> (#[trigger] slots[i]) is Some
}

/// The server frame for one tick: entry `i` of the times and of the player
/// states comes from the frame in slot `i`.
pub open spec fn server_frame_of(time: u32, slots: Seq<Option<ClientFrameV>>) -> RaceServerFrameV {
    RaceServerFrameV {
        time,
        player_times: slots.map_values(|s: Option<ClientFrameV>| s->0.time),
        players: slots.map_values(|s: Option<ClientFrameV>| s->0.players[0]),
    }
}

/// The per-room race loop state: the rendezvous pending flags (one per
/// client), the per-player frame slots, and the next tick number.
#[derive(Debug)]
pub struct RaceState {
    pub pending: Vec<bool>,
    pub slots: Vec<Option<ClientFrame>>,
    pub time: u32,
    pub stage: RaceStage,
}

impl RaceState {
    /// The frame slots as mathematical values.
    pub open spec fn slots_view(self) -> Seq<Option<ClientFrameV>> {
        self.slots.deep_view()
    }

    /// Well-formedness: every stored frame reports at least one player
    /// state, and once ticking every slot is filled.
    pub open spec fn wf(self) -> bool {
        &&& forall|i: int|
            0 <= i < self.slots_view().len() ==> ((#[trigger] self.slots_view()[i]) matches Some(f)
                ==> f.players.len() >= 1)
        &&& self.stage is Ticking ==> all_slots_filled(self.slots_view())
    }

    /// Starts a race for `n_clients` clients and `n_players` players: every
    /// client pending, every slot empty, the tick counter at zero.
    pub fn new(n_clients: usize, n_players: usize) -> (r: RaceState)
        ensures
            r.wf(),
            r.pending@.len() == n_clients,
            forall|i: int| 0 <= i < n_clients ==> r.pending@[i],
            r.slots_view() =~= Seq::new(n_players as nat, |i: int| None::<ClientFrameV>),
            r.time == 0,
            r.stage == RaceStage::Rendezvous,
    {
        let mut pending: Vec<bool> = Vec::new();
        let mut i: usize = 0;
        while i < n_clients
            invariant
                i <= n_clients,
                pending@.len() == i,
                forall|j: int| 0 <= j < i ==> pending@[j],
            decreases n_clients - i,
        {
            pending.push(true);
            i = i + 1;
        }
        let mut slots: Vec<Option<ClientFrame>> = Vec::new();
        let mut k: usize = 0;
        while k < n_players
            invariant
                k <= n_players,
                slots@.len() == k,
                forall|j: int| 0 <= j < k ==> (#[trigger] slots.deep_view()[j]) is None,
            decreases n_players - k,
        {
            let ghost slots_prefix = slots.deep_view();
            slots.push(None);
            proof {
                assert(slots.deep_view()[k as int] is None);
                assert forall|j: int| 0 <= j < k implies (#[trigger] slots.deep_view()[j])
                    is None by {
                    assert(slots.deep_view()[j] == slots_prefix[j]);
                }
            }
            k = k + 1;
        }
        RaceState { pending, slots, time: 0, stage: RaceStage::Rendezvous }
    }

    /// Clears client `index` from the pending set; when the last pending
    /// client has pinged, collection begins.  A repeated ping changes
    /// nothing.  No frame is emitted.
    #[verifier::loop_isolation(false)]
    pub fn handle_ping(&mut self, index: usize)
        requires
            old(self).wf(),
            old(self).stage is Rendezvous,
            index < old(self).pending@.len(),
        ensures
            final(self).wf(),
            final(self).pending@ == old(self).pending@.update(index as int, false),
            final(self).slots == old(self).slots,
            final(self).time == old(self).time,
            final(self).stage == if has_pending(old(self).pending@.update(index as int, false)) {
                RaceStage::Rendezvous
            } else {
                RaceStage::Collecting
            },
    {
        self.pending.set(index, false);
        let mut any: bool = false;
        let mut j: usize = 0;
        while j < self.pending.len()
            invariant
                j <= self.pending@.len(),
                any == exists|t: int| 0 <= t < j && self.pending@[t],
            decreases self.pending@.len() - j,
        {
            if self.pending[j] {
                any = true;
            }
            j = j + 1;
        }
        if !any {
            self.stage = RaceStage::Collecting;
        }
    }

    /// Stores one initial frame in its player's slot during collection.
    /// Nothing is emitted; once the last slot fills, ticking begins.
    pub fn handle_initial_frame(&mut self, player_id: u32, frame: ClientFrame)
        requires
            old(self).wf(),
            old(self).stage is Collecting,
            (player_id as int) < old(self).slots_view().len(),
            frame.players@.len() >= 1,
        ensures
            final(self).wf(),
            final(self).slots_view() == old(self).slots_view().update(
                player_id as int,
                Some(frame.deep_view()),
            ),
            final(self).pending == old(self).pending,
            final(self).time == old(self).time,
            final(self).stage == if all_slots_filled(
                old(self).slots_view().update(player_id as int, Some(frame.deep_view())),
            ) {
                RaceStage::Ticking
            } else {
                RaceStage::Collecting
            },
    {
        let ghost frame_v = frame.deep_view();
        self.slots.set(player_id as usize, Some(frame));
        proof {
            assert(self.slots.deep_view() =~= old(self).slots_view().update(
                player_id as int,
                Some(frame_v),
            ));
        }
        if self.all_filled() {
            self.stage = RaceStage::Ticking;
        }
    }

    /// Whether every slot currently holds a frame.
    #[verifier::loop_isolation(false)]
    fn all_filled(&self) -> (b: bool)
        ensures
            b == all_slots_filled(self.slots_view()),
    {
        let mut j: usize = 0;
        while j < self.slots.len()
            invariant
                j <= self.slots@.len(),
                forall|t: int| 0 <= t < j ==> (#[trigger] self.slots_view()[t]) is Some,
            decreases self.slots@.len() - j,
        {
            if self.slots[j].is_none() {
                proof {
                    assert(self.slots_view()[j as int] is None);
                }
                return false;
            }
            j = j + 1;
        }
        true
    }

    /// One tick: the incoming frame overwrites its player's slot, and the
    /// server frame for the current tick number is built from the slots,
    /// entry `i` from player `i`.  The tick counter then advances.
    #[verifier::loop_isolation(false)]
    pub fn handle_tick_frame(&mut self, player_id: u32, frame: ClientFrame) -> (sf: RaceServerFrame)
        requires
            old(self).wf(),
            old(self).stage is Ticking,
            (player_id as int) < old(self).slots_view().len(),
            frame.players@.len() >= 1,
            old(self).time < u32::MAX,
        ensures
            final(self).wf(),
            final(self).slots_view() == old(self).slots_view().update(
                player_id as int,
                Some(frame.deep_view()),
            ),
            final(self).pending == old(self).pending,
            final(self).stage == RaceStage::Ticking,
            final(self).time == old(self).time + 1,
            sf.deep_view() == server_frame_of(old(self).time, final(self).slots_view()),
    {
        let ghost frame_v = frame.deep_view();
        self.slots.set(player_id as usize, Some(frame));
        proof {
            assert(self.slots.deep_view() =~= old(self).slots_view().update(
                player_id as int,
                Some(frame_v),
            ));
        }
        let ghost slots_v = self.slots.deep_view();
        let mut player_times: Vec<u32> = Vec::new();
        let mut players: Vec<PlayerState> = Vec::new();
        let mut j: usize = 0;
        while j < self.slots.len()
            invariant
                j <= slots_v.len(),
                player_times@.len() == j,
                players.deep_view().len() == j,
                forall|t: int| 0 <= t < j ==> player_times@[t] == (#[trigger] slots_v[t])->0.time,
                forall|t: int|
                    0 <= t < j ==> #[trigger] players.deep_view()[t] == slots_v[t]->0.players[0],
            decreases slots_v.len() - j,
        {
            let ghost players_prefix = players.deep_view();
            match &self.slots[j] {
                Some(f) => {
                    player_times.push(f.time);
                    players.push(f.players[0].clone());
                },
                None => {
                    proof {
                        assert(self.slots_view()[j as int] is Some);
                        assert(false);
                    }
                },
            }
            proof {
                assert(players.deep_view()[j as int] == slots_v[j as int]->0.players[0]);
                assert forall|t: int| 0 <= t < j implies #[trigger] players.deep_view()[t]
                    == slots_v[t]->0.players[0] by {
                    assert(players.deep_view()[t] == players_prefix[t]);
                }
            }
            j = j + 1;
        }
        let sf = RaceServerFrame { time: self.time, player_times, players };
        self.time = self.time + 1;
        proof {
            assert(sf.deep_view().player_times =~= slots_v.map_values(
                |s: Option<ClientFrameV>| s->0.time,
            ));
            assert(sf.deep_view().players =~= slots_v.map_values(
                |s: Option<ClientFrameV>| s->0.players[0],
            ));
            assert(sf.deep_view() == server_frame_of(old(self).time, slots_v));
        }
        sf
    }
}

} // verus!
