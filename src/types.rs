use vstd::prelude::*;

verus! {

/// Identifier of a room, as the device writes it.
pub type RoomId = String;

/// Identifier of a device.
pub type DeviceId = String;

/// Identifier of a speaker position within a room.
pub type PositionId = String;

/// A mute state.
pub type MuteState = bool;

/// A device's record.
#[derive(Clone, Debug)]
pub struct Device {
    pub name: String,
    /// Product tags, such as a model name.
    pub tags: Vec<String>,
    /// Licensed features.
    pub licenses: Vec<String>,
}

/// Mute states of a room: the global one and one per speaker position.
#[derive(Clone, Debug)]
pub struct MuteData {
    /// Global mute state.
    pub global: bool,
    /// Per-position mute states, by position id, each id once.
    pub positions: Vec<(PositionId, bool)>,
}

/// Model of a list of position states.
pub open spec fn positions_view(ps: Seq<(String, bool)>) -> Seq<(Seq<char>, bool)> {
    Seq::new(ps.len(), |i: int| (ps[i].0@, ps[i].1))
}

/// The state recorded for `id` among `ps[i..]`.
pub open spec fn position_state(ps: Seq<(Seq<char>, bool)>, id: Seq<char>, i: int) -> Option<bool>
    decreases ps.len() - i,
{
    if i < 0 || i >= ps.len() {
        None
    } else if ps[i].0 == id {
        Some(ps[i].1)
    } else {
        position_state(ps, id, i + 1)
    }
}

impl MuteData {
    /// Positions are listed in ascending id order, each id once, as decoding
    /// makes them.
    pub open spec fn wf(&self) -> bool {
        crate::order::ascending(crate::order::keys_of(self.positions@))
    }

    /// Model of the per-position states.
    pub open spec fn positions_model(&self) -> Seq<(Seq<char>, bool)> {
        positions_view(self.positions@)
    }

    /// The mute state of position `position_id`, where it has one.
    pub fn position(&self, position_id: &str) -> (r: Option<bool>)
        ensures
            r == position_state(self.positions_model(), position_id@, 0),
    {
        let ghost ps = self.positions_model();
        let mut i: usize = 0;
        while i < self.positions.len()
            invariant
                0 <= i <= self.positions@.len(),
                ps == self.positions_model(),
                position_state(ps, position_id@, 0) == position_state(ps, position_id@, i as int),
            decreases self.positions.len() - i,
        {
            if crate::json::text_eq(self.positions[i].0.as_str(), position_id) {
                return Some(self.positions[i].1);
            }
            i = i + 1;
        }
        None
    }

    /// The ids of the positions that have a mute state, in stored order:
    /// ascending and distinct for a well-formed record.
    pub fn position_ids(&self) -> (r: Vec<String>)
        ensures
            r@.len() == self.positions@.len(),
            forall|i: int| 0 <= i < r@.len() ==> (#[trigger] r@[i])@ == self.positions@[i].0@,
            self.wf() ==> crate::order::ascending(Seq::new(r@.len(), |i: int| r@[i]@)),
    {
        let mut out: Vec<String> = Vec::new();
        let mut i: usize = 0;
        while i < self.positions.len()
            invariant
                0 <= i <= self.positions@.len(),
                out@.len() == i,
                forall|j: int| 0 <= j < i ==> (#[trigger] out@[j])@ == self.positions@[j].0@,
            decreases self.positions.len() - i,
        {
            out.push(self.positions[i].0.clone());
            i = i + 1;
        }
        proof {
            assert(Seq::new(out@.len(), |i: int| out@[i]@) =~= crate::order::keys_of(self.positions@));
        }
        out
    }

    /// Whether some position is muted, whatever the global state.
    pub fn any_position_muted(&self) -> (r: bool)
        ensures
            r == exists|i: int| 0 <= i < self.positions@.len() && #[trigger] self.positions@[i].1,
    {
        let mut i: usize = 0;
        while i < self.positions.len()
            invariant
                0 <= i <= self.positions@.len(),
                forall|j: int| 0 <= j < i ==> !#[trigger] self.positions@[j].1,
            decreases self.positions.len() - i,
        {
            if self.positions[i].1 {
                return true;
            }
            i = i + 1;
        }
        false
    }
}

} // verus!
