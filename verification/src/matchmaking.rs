//! The room's share of the matchmaking protocol: the client-handle to
//! external-id directory and the update messages posted on admission and
//! departure.  The web-socket connection that carries the updates lives
//! outside the core; the room only produces the message values.

use vstd::prelude::*;

verus! {

/// Update posted to the matchmaking registry; delivery is best-effort.
#[derive(Debug, Clone, Copy, PartialEq, Eq, Structural)]
pub struct MatchmakingUpdate {
    pub room_id: u64,
    pub client_id: u64,
    pub is_join: bool,
    pub is_host: bool,
}

/// Matchmaking bookkeeping owned by a room: its registry id and the
/// directory from client handle to external client id.  The directory is
/// filled on admission and read on departure; a reused handle shadows the
/// earlier entry, so lookups read the newest one.
#[derive(Debug)]
pub struct MatchmakingState {
    pub room_id: u64,
    pub client_lookup: Vec<(usize, u64)>,
}

/// The external id recorded for `handle`: the newest entry wins.
pub open spec fn lookup_spec(entries: Seq<(usize, u64)>, handle: usize) -> Option<u64>
    decreases entries.len(),
{
    if entries.len() == 0 {
        None
    } else if entries.last().0 == handle {
        Some(entries.last().1)
    } else {
        lookup_spec(entries.drop_last(), handle)
    }
}

impl MatchmakingState {
    /// Creates a directory for the given registry id with no entries.
    pub fn new(room_id: u64) -> (r: MatchmakingState)
        ensures
            r.room_id == room_id,
            r.client_lookup@ == Seq::<(usize, u64)>::empty(),
    {
        MatchmakingState { room_id, client_lookup: Vec::new() }
    }

    /// Records the external id of a newly admitted client.
    pub fn record(&mut self, handle: usize, client_id: u64)
        ensures
            final(self).room_id == old(self).room_id,
            final(self).client_lookup@ == old(self).client_lookup@.push((handle, client_id)),
    {
        self.client_lookup.push((handle, client_id));
    }

    /// Looks the handle up in the directory; the newest entry wins.
    pub fn lookup(&self, handle: usize) -> (r: Option<u64>)
        ensures
            r == lookup_spec(self.client_lookup@, handle),
    {
        let mut i: usize = self.client_lookup.len();
        proof {
            assert(self.client_lookup@.take(i as int) =~= self.client_lookup@);
        }
        while i > 0
            invariant
                i <= self.client_lookup@.len(),
                lookup_spec(self.client_lookup@, handle) == lookup_spec(
                    self.client_lookup@.take(i as int),
                    handle,
                ),
            decreases i,
        {
            i = i - 1;
            let entry = self.client_lookup[i];
            if entry.0 == handle {
                proof {
                    assert(self.client_lookup@.take(i as int + 1).last() == self.client_lookup@[
                        i as int
                    ]);
                }
                return Some(entry.1);
            }
            proof {
                assert(self.client_lookup@.take(i as int + 1).drop_last() =~= self.client_lookup@
                    .take(i as int));
            }
        }
        proof {
            assert(self.client_lookup@.take(0) =~= Seq::<(usize, u64)>::empty());
        }
        None
    }
}

} // verus!
