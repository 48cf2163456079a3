use vstd::prelude::*;

use crate::error::AscendError;
use crate::json::{opt_str, text_eq, Json, JsonValue};
use crate::network::{collect_rooms, network_rooms, state_members};
use crate::room::{decodes_to, room_error, with_label_fix, Room};
use crate::order::{ascending, lemma_text_order, text_less, text_lt};
use crate::types::RoomId;

verus! {

/// No text occurs twice in `s`.
pub open spec fn distinct(s: Seq<Seq<char>>) -> bool {
    forall|i: int, j: int| 0 <= i < s.len() && 0 <= j < s.len() && s[i] == s[j] ==> i == j
}

/// The device links in use, one per device address; `L` is the link handle.
pub struct LinkRegistry<L> {
    links: Vec<(String, L)>,
}

/// How `adopt` changes the addresses: a new address is appended and reported
/// as inserted; a known one changes nothing.
pub open spec fn adopt_outcome(before: Seq<Seq<char>>, address: Seq<char>, after: Seq<Seq<char>>, inserted: bool) -> bool {
    if before.contains(address) {
        !inserted && after == before
    } else {
        inserted && after == before.push(address)
    }
}

impl<L> LinkRegistry<L> {
    /// The addresses that have a link, in order of creation.
    pub closed spec fn addresses(&self) -> Seq<Seq<char>> {
        Seq::new(self.links@.len(), |i: int| self.links@[i].0@)
    }

    /// The link kept for the `i`-th address.
    pub closed spec fn link_at(&self, i: int) -> L {
        self.links@[i].1
    }

    /// Each address has at most one link.
    pub open spec fn wf(&self) -> bool {
        distinct(self.addresses())
    }

    /// An empty registry.
    pub fn new() -> (r: Self)
        ensures
            r.wf(),
            r.addresses() == Seq::<Seq<char>>::empty(),
    {
        let r = LinkRegistry { links: Vec::new() };
        proof {
            assert(r.addresses() =~= Seq::<Seq<char>>::empty());
        }
        r
    }

    /// Number of addresses with a link.
    pub fn len(&self) -> (r: usize)
        ensures
            r == self.addresses().len(),
    {
        self.links.len()
    }

    /// The link of `address`, where it has one.
    pub fn find(&self, address: &str) -> (r: Option<&L>)
        ensures
            match r {
                Some(l) => exists|i: int|
                    0 <= i < self.addresses().len() && self.addresses()[i] == address@ && #[trigger] self.link_at(i) == *l,
                None => !self.addresses().contains(address@),
            },
    {
        let mut i: usize = 0;
        while i < self.links.len()
            invariant
                0 <= i <= self.links@.len(),
                forall|j: int| 0 <= j < i ==> self.addresses()[j] != address@,
            decreases self.links.len() - i,
        {
            if text_eq(self.links[i].0.as_str(), address) {
                proof {
                    assert(self.link_at(i as int) == self.links@[i as int].1);
                }
                return Some(&self.links[i].1);
            }
            i = i + 1;
        }
        None
    }

    /// Keeps `link` for `address` unless the address already has one, in which
    /// case the existing link stays and `link` is dropped. Returns whether
    /// `link` was kept.
    pub fn adopt(&mut self, address: &str, link: L) -> (r: bool)
        requires
            old(self).wf(),
        ensures
            final(self).wf(),
            adopt_outcome(old(self).addresses(), address@, final(self).addresses(), r),
            forall|i: int|
                0 <= i < old(self).addresses().len() ==> #[trigger] final(self).link_at(i) == old(
                    self,
                ).link_at(i),
    {
        match self.find(address) {
            Some(_) => false,
            None => {
                let ghost before = self.addresses();
                self.links.push((crate::json::text(address), link));
                proof {
                    assert(self.addresses() =~= before.push(address@));
                }
                true
            },
        }
    }
}

/// However many passes report an address, it ends up with exactly one link:
/// after two adoptions for the same address the registry lists it once, and
/// the second adoption creates nothing.
pub proof fn lemma_one_link_per_address(
    s0: Seq<Seq<char>>,
    address: Seq<char>,
    s1: Seq<Seq<char>>,
    first: bool,
    s2: Seq<Seq<char>>,
    second: bool,
)
    requires
        distinct(s0),
        adopt_outcome(s0, address, s1, first),
        adopt_outcome(s1, address, s2, second),
    ensures
        !second,
        s2 == s1,
        s2.contains(address),
        distinct(s2),
        forall|i: int, j: int|
            0 <= i < s2.len() && 0 <= j < s2.len() && s2[i] == address && s2[j] == address ==> i
                == j,
{
    if !s0.contains(address) {
        assert(s1[s0.len() as int] == address);
        assert forall|i: int, j: int|
            0 <= i < s1.len() && 0 <= j < s1.len() && s1[i] == s1[j] implies i == j by {
            if i < s0.len() && j == s0.len() {
                assert(s0.contains(s0[i]));
            }
            if j < s0.len() && i == s0.len() {
                assert(s0.contains(s0[j]));
            }
        }
    }
}

/// The ids of `rooms`, in order.
pub open spec fn room_keys(rooms: Seq<Room>) -> Seq<Seq<char>> {
    Seq::new(rooms.len(), |i: int| rooms[i].key())
}

/// Number of texts of `ks` that sort before `key`: where `key` goes in `ks`.
pub open spec fn rank(ks: Seq<Seq<char>>, key: Seq<char>) -> int
    decreases ks.len(),
{
    if ks.len() == 0 {
        0
    } else {
        rank(ks.drop_last(), key) + if text_lt(ks.last(), key) {
            1int
        } else {
            0int
        }
    }
}

proof fn lemma_rank(ks: Seq<Seq<char>>, key: Seq<char>, p: int)
    requires
        0 <= p <= ks.len(),
        forall|i: int| 0 <= i < p ==> text_lt(#[trigger] ks[i], key),
        forall|i: int| p <= i < ks.len() ==> !text_lt(#[trigger] ks[i], key),
    ensures
        rank(ks, key) == p,
    decreases ks.len(),
{
    if ks.len() > 0 {
        let d = ks.drop_last();
        if p == ks.len() {
            assert forall|i: int| 0 <= i < p - 1 implies text_lt(#[trigger] d[i], key) by {
                assert(d[i] == ks[i]);
            }
            lemma_rank(d, key, p - 1);
        } else {
            assert forall|i: int| 0 <= i < p implies text_lt(#[trigger] d[i], key) by {
                assert(d[i] == ks[i]);
            }
            assert forall|i: int| p <= i < d.len() implies !text_lt(#[trigger] d[i], key) by {
                assert(d[i] == ks[i]);
            }
            lemma_rank(d, key, p);
        }
    }
}

/// `known` with `room` put at its place in id order.
pub open spec fn with_room(known: Seq<Room>, room: Room) -> Seq<Room> {
    known.insert(rank(room_keys(known), room.key()), room)
}

/// `rooms` merged into `known`, in id order: a room whose id is already known
/// is left out, so the first record of an id wins.
pub open spec fn merged(known: Seq<Room>, rooms: Seq<Room>) -> Seq<Room>
    decreases rooms.len(),
{
    if rooms.len() == 0 {
        known
    } else {
        let m = merged(known, rooms.drop_last());
        if room_keys(m).contains(rooms.last().key()) {
            m
        } else {
            with_room(m, rooms.last())
        }
    }
}

/// The rooms known to discovery, in ascending id order, each id once.
pub struct RoomRegistry {
    rooms: Vec<Room>,
}

/// How applying a room record changes the registry: a record without a string
/// id changes nothing; a known id is updated in place when the record decodes;
/// an unknown id is inserted at its place when it decodes. The id is reported exactly when
/// the registry changed.
pub open spec fn update_outcome(before: Seq<Room>, record: Json, address: Seq<char>, after: Seq<Room>, r: Option<Seq<char>>) -> bool {
    match opt_str(record.get("id"@)) {
        None => r is None && after == before,
        Some(id) => {
            let decodes = room_error(with_label_fix(record)) is None;
            if !decodes {
                r is None && after == before
            } else if room_keys(before).contains(id) {
                &&& r == Some(id)
                &&& after.len() == before.len()
                &&& forall|i: int|
                    0 <= i < before.len() ==> if before[i].key() == id {
                        decodes_to(with_label_fix(record), (#[trigger] after[i]).current())
                            && after[i].host() == before[i].host()
                    } else {
                        after[i] == before[i]
                    }
            } else {
                &&& r == Some(id)
                &&& exists|room: Room|
                    #![trigger with_room(before, room)]
                    after == with_room(before, room) && room.key() == id && decodes_to(
                        with_label_fix(record),
                        room.current(),
                    ) && room.host() == address
            }
        },
    }
}

/// The label fix leaves every member but the input labels as it was.
pub proof fn lemma_fix_keeps_member(j: Json, key: Seq<char>)
    requires
        key != "inputModes"@,
        key != "selectedInput"@,
    ensures
        with_label_fix(j).get(key) == j.get(key),
{
    match j {
        Json::Object(ms) => {
            let fixed = Seq::new(
                ms.len(),
                |i: int| (ms[i].0, crate::room::remap_member(ms[i].0, ms[i].1)),
            );
            lemma_lookup_fixed(ms, fixed, key, 0);
        },
        _ => {},
    }
}

/// The label fix leaves a record's `id` as it was.
pub proof fn lemma_fix_keeps_id(j: Json)
    ensures
        with_label_fix(j).get("id"@) == j.get("id"@),
{
    assert("id"@ != "inputModes"@) by {
        reveal_strlit("id");
        reveal_strlit("inputModes");
        assert("id"@.len() == 2);
        assert("inputModes"@.len() == 10);
    }
    assert("id"@ != "selectedInput"@) by {
        reveal_strlit("id");
        reveal_strlit("selectedInput");
        assert("id"@.len() == 2);
        assert("selectedInput"@.len() == 13);
    }
    lemma_fix_keeps_member(j, "id"@);
}

proof fn lemma_lookup_fixed(
    ms: Seq<(Seq<char>, Json)>,
    fixed: Seq<(Seq<char>, Json)>,
    key: Seq<char>,
    i: int,
)
    requires
        key != "inputModes"@,
        key != "selectedInput"@,
        fixed == Seq::new(ms.len(), |k: int| (ms[k].0, crate::room::remap_member(ms[k].0, ms[k].1))),
        0 <= i,
    ensures
        crate::json::lookup_from(fixed, key, i) == crate::json::lookup_from(ms, key, i),
    decreases ms.len() - i,
{
    if i < ms.len() {
        lemma_lookup_fixed(ms, fixed, key, i + 1);
    }
}

impl RoomRegistry {
    /// The rooms, in ascending id order.
    pub closed spec fn entries(&self) -> Seq<Room> {
        self.rooms@
    }

    /// Rooms are listed in ascending id order, each id once.
    pub open spec fn wf(&self) -> bool {
        ascending(room_keys(self.entries()))
    }

    /// An empty registry.
    pub fn new() -> (r: Self)
        ensures
            r.wf(),
            r.entries() == Seq::<Room>::empty(),
    {
        let r = RoomRegistry { rooms: Vec::new() };
        proof {
            assert(room_keys(r.entries()) =~= Seq::<Seq<char>>::empty());
        }
        r
    }

    /// Number of rooms known.
    pub fn room_count(&self) -> (r: usize)
        ensures
            r == self.entries().len(),
    {
        self.rooms.len()
    }

    /// Forgets every room.
    pub fn clear_rooms(&mut self)
        ensures
            final(self).wf(),
            final(self).entries() == Seq::<Room>::empty(),
    {
        self.rooms = Vec::new();
        proof {
            assert(room_keys(self.entries()) =~= Seq::<Seq<char>>::empty());
        }
    }

    /// Copies of every room, in ascending id order.
    pub fn rooms(&self) -> (r: Vec<Room>)
        requires
            self.wf(),
        ensures
            ascending(room_keys(r@)),
            r@.len() == self.entries().len(),
            forall|i: int|
                0 <= i < r@.len() ==> (#[trigger] r@[i]).current().same_as(self.entries()[i].current())
                    && r@[i].host() == self.entries()[i].host(),
    {
        let mut out: Vec<Room> = Vec::new();
        let mut i: usize = 0;
        while i < self.rooms.len()
            invariant
                0 <= i <= self.rooms@.len(),
                out@.len() == i,
                forall|j: int|
                    0 <= j < i ==> (#[trigger] out@[j]).current().same_as(self.rooms@[j].current())
                        && out@[j].host() == self.rooms@[j].host(),
            decreases self.rooms.len() - i,
        {
            out.push(self.rooms[i].duplicate());
            i = i + 1;
        }
        proof {
            assert(room_keys(out@) =~= room_keys(self.rooms@));
        }
        out
    }

    /// Puts a room of a new id at its place in id order.
    fn insert_room(&mut self, room: Room)
        requires
            old(self).wf(),
            !room_keys(old(self).entries()).contains(room.key()),
        ensures
            final(self).wf(),
            final(self).entries() == with_room(old(self).entries(), room),
    {
        let ghost before = self.rooms@;
        let ghost ks = room_keys(before);
        let key = room.id();
        let mut p: usize = 0;
        while p < self.rooms.len() && text_less(self.rooms[p].id().as_str(), key.as_str())
            invariant
                self.rooms@ == before,
                ks == room_keys(before),
                p <= before.len(),
                key@ == room.key(),
                forall|i: int| 0 <= i < p ==> text_lt(#[trigger] ks[i], key@),
            decreases self.rooms.len() - p,
        {
            p = p + 1;
        }
        proof {
            assert forall|i: int| p <= i < ks.len() implies !text_lt(#[trigger] ks[i], key@) by {
                if i > p {
                    lemma_text_order(ks[p as int], ks[i], key@);
                }
            }
            lemma_rank(ks, key@, p as int);
            if p < ks.len() {
                lemma_text_order(ks[p as int], key@, key@);
                assert(ks[p as int] != key@);
            }
        }
        self.rooms.insert(p, room);
        proof {
            let nk = room_keys(self.rooms@);
            assert(nk =~= ks.insert(p as int, key@));
            assert forall|i: int, j: int| 0 <= i < j < nk.len() implies text_lt(#[trigger] nk[i], #[trigger] nk[j]) by {
                if j == p {
                    assert(nk[i] == ks[i]);
                } else if i == p {
                    assert(nk[j] == ks[j - 1]);
                    if j - 1 > p {
                        lemma_text_order(key@, ks[p as int], ks[j - 1]);
                    }
                } else if i < p && j > p {
                    if j - 1 > p {
                        lemma_text_order(key@, ks[p as int], ks[j - 1]);
                    }
                    lemma_text_order(ks[i], key@, ks[j - 1]);
                } else if i < p {
                    assert(nk[i] == ks[i] && nk[j] == ks[j]);
                } else {
                    assert(nk[i] == ks[i - 1] && nk[j] == ks[j - 1]);
                }
            }
        }
    }

    /// The position of the room with id `id`, where there is one.
    fn position(&self, id: &str) -> (r: Option<usize>)
        ensures
            match r {
                Some(i) => i < self.entries().len() && self.entries()[i as int].key() == id@,
                None => !room_keys(self.entries()).contains(id@),
            },
    {
        let mut i: usize = 0;
        while i < self.rooms.len()
            invariant
                0 <= i <= self.rooms@.len(),
                forall|j: int| 0 <= j < i ==> self.rooms@[j].key() != id@,
            decreases self.rooms.len() - i,
        {
            let rid = self.rooms[i].id();
            if text_eq(rid.as_str(), id) {
                return Some(i);
            }
            i = i + 1;
        }
        proof {
            if room_keys(self.entries()).contains(id@) {
                let k = choose|k: int| 0 <= k < room_keys(self.entries()).len() && room_keys(self.entries())[k] == id@;
                assert(self.rooms@[k].key() == id@);
            }
        }
        None
    }

    /// Adds the rooms of a discovery scan whose ids are not known yet; rooms
    /// already known keep their state (updates come from notifications).
    pub fn merge_scanned(&mut self, scanned: Vec<Room>)
        requires
            old(self).wf(),
        ensures
            final(self).wf(),
            final(self).entries() == merged(old(self).entries(), scanned@),
    {
        let ghost all = scanned@;
        let n = scanned.len();
        let mut rest = scanned;
        let mut incoming: Vec<Room> = Vec::new();
        while rest.len() > 0
            invariant
                incoming@.len() + rest@.len() == all.len(),
                forall|k: int| 0 <= k < rest@.len() ==> #[trigger] rest@[k] == all[k],
                forall|k: int| 0 <= k < incoming@.len() ==> #[trigger] incoming@[k] == all[all.len() - 1 - k],
            decreases rest.len(),
        {
            let room = rest.pop().unwrap();
            incoming.push(room);
        }
        let ghost start = self.rooms@;
        let mut done: usize = 0;
        while incoming.len() > 0
            invariant
                done + incoming@.len() == all.len(),
                all.len() == n,
                forall|k: int| 0 <= k < incoming@.len() ==> #[trigger] incoming@[k] == all[all.len() - 1 - k],
                self.rooms@ == merged(start, all.take(done as int)),
                ascending(room_keys(self.rooms@)),
            decreases incoming.len(),
        {
            let room = incoming.pop().unwrap();
            proof {
                assert(room == all[done as int]);
                let t = all.take(done as int + 1);
                assert(t.drop_last() =~= all.take(done as int));
                assert(t.last() == room);
            }
            let rid = room.id();
            let ghost before = self.rooms@;
            match self.position(rid.as_str()) {
                Some(i) => {
                    proof {
                        assert(room_keys(before)[i as int] == rid@);
                        assert(room_keys(before).contains(room.key()));
                    }
                },
                None => {
                    self.insert_room(room);
                },
            }
            done = done + 1;
        }
        proof {
            assert(all.take(all.len() as int) =~= all);
        }
    }

    /// Applies a room record pushed by the device hosted at `address`: updates
    /// the room with the record's id in place, or inserts it when the id is new.
    /// Returns the id exactly when the registry changed.
    pub fn apply_update(&mut self, record: &JsonValue, address: &str) -> (r: Option<RoomId>)
        requires
            old(self).wf(),
        ensures
            final(self).wf(),
            update_outcome(old(self).entries(), record@, address@, final(self).entries(), crate::json::text_view(r)),
    {
        let id = match record.get("id") {
            Some(v) => match v.as_str() {
                Some(s) => crate::json::text(s),
                None => return None,
            },
            None => return None,
        };
        proof {
            lemma_fix_keeps_id(record@);
        }
        let ghost before = self.rooms@;
        match self.position(id.as_str()) {
            Some(i) => {
                let mut room = self.rooms.remove(i);
                match room.update_from_json(record) {
                    Ok(()) => {
                        self.rooms.insert(i, room);
                        proof {
                            assert(self.rooms@ =~= before.update(i as int, self.rooms@[i as int]));
                            assert(room_keys(self.rooms@) =~= room_keys(before));
                            let after = self.rooms@;
                            assert(room_keys(before)[i as int] == id@);
                            assert(room_keys(before).contains(id@));
                            assert forall|j: int| 0 <= j < before.len() implies if before[j].key() == id@ {
                                decodes_to(with_label_fix(record@), (#[trigger] after[j]).current())
                                    && after[j].host() == before[j].host()
                            } else {
                                after[j] == before[j]
                            } by {
                                if j != i && before[j].key() == id@ {
                                    assert(room_keys(before)[j] == room_keys(before)[i as int]);
                                    lemma_text_order(before[j].key(), before[j].key(), before[j].key());
                                }
                            }
                        }
                        assert(update_outcome(before, record@, address@, self.rooms@, Some(id@)));
                        Some(id)
                    },
                    Err(_) => {
                        self.rooms.insert(i, room);
                        proof {
                            assert(self.rooms@ =~= before);
                            assert(update_outcome(before, record@, address@, self.rooms@, None));
                        }
                        None
                    },
                }
            },
            None => match Room::new(address, record) {
                Ok(room) => {
                    proof {
                        lemma_new_room_key(record@, room);
                    }
                    let ghost added = room;
                    self.insert_room(room);
                    assert(update_outcome(before, record@, address@, self.rooms@, Some(id@)));
                    Some(id)
                },
                Err(_) => {
                    assert(update_outcome(before, record@, address@, self.rooms@, None));
                    None
                },
            },
        }
    }
}

/// A pushed frame changes only the room its record names. A frame whose token
/// awaits no reply becomes a room notification exactly when it is a network
/// notification nesting a room record; applying that record updates the room
/// with the record's id, or adds it when the id is new, and every room with
/// another id stays, with no other room added. Any other frame leaves the
/// rooms unchanged.
pub proof fn lemma_notification_touches_one_room<H>(
    table: Map<crate::protocol::RequestId, H>,
    frame: Json,
    table_after: Map<crate::protocol::RequestId, H>,
    routed: crate::connection::Inbound<H>,
    before: Seq<Room>,
    address: Seq<char>,
    after: Seq<Room>,
    applied: Option<Seq<char>>,
)
    requires
        crate::connection::route_outcome(table, frame, table_after, routed),
        match routed {
            crate::connection::Inbound::Notification(crate::subscription::StateUpdate::RoomUpdate(v)) => update_outcome(
                before,
                v@,
                address,
                after,
                applied,
            ),
            _ => after == before,
        },
    ensures
        forall|resp: crate::protocol::Response|
            #![trigger crate::connection::response_decodes_to(frame, resp)]
            crate::connection::response_decodes_to(frame, resp) && !table.contains_key(resp.meta.id)
                ==> ((routed is Notification) <==> crate::connection::response_room(resp) is Some),
        !(routed is Notification) ==> after == before,
        routed matches crate::connection::Inbound::Notification(crate::subscription::StateUpdate::RoomUpdate(v)) ==> {
            let id = opt_str(v@.get("id"@));
            &&& table_after == table
            &&& forall|i: int|
                0 <= i < before.len() && Some(#[trigger] before[i].key()) != id ==> after.contains(
                    before[i],
                )
            &&& forall|j: int|
                0 <= j < after.len() && Some(#[trigger] after[j].key()) != id ==> before.contains(
                    after[j],
                )
            &&& forall|j: int|
                0 <= j < after.len() && Some(#[trigger] after[j].key()) == id && applied is Some
                    ==> decodes_to(with_label_fix(v@), after[j].current())
            &&& (applied is Some ==> applied == id)
        },
{
    if let crate::connection::Inbound::Notification(crate::subscription::StateUpdate::RoomUpdate(v)) = routed {
        let id = opt_str(v@.get("id"@));
        if id is Some && room_error(with_label_fix(v@)) is None {
            if room_keys(before).contains(id->0) {
                assert forall|i: int|
                    0 <= i < before.len() && Some(#[trigger] before[i].key()) != id implies after.contains(before[i]) by {
                    assert(after[i] == before[i]);
                }
                assert forall|j: int|
                    0 <= j < after.len() && Some(#[trigger] after[j].key()) != id implies before.contains(after[j]) by {
                    if before[j].key() == id->0 {
                        assert(decodes_to(with_label_fix(v@), after[j].current()));
                        lemma_new_room_key(v@, after[j]);
                    }
                    assert(after[j] == before[j]);
                }
                assert forall|j: int|
                    0 <= j < after.len() && Some(#[trigger] after[j].key()) == id && applied is Some
                    implies decodes_to(with_label_fix(v@), after[j].current()) by {
                    if before[j].key() != id->0 {
                        assert(after[j] == before[j]);
                    }
                }
            } else {
                let room = choose|room: Room|
                    #![trigger with_room(before, room)]
                    after == with_room(before, room) && room.key() == id->0 && decodes_to(
                        with_label_fix(v@),
                        room.current(),
                    ) && room.host() == address;
                let p = rank(room_keys(before), room.key());
                lemma_rank_bounds(room_keys(before), room.key());
                assert forall|i: int|
                    0 <= i < before.len() && Some(#[trigger] before[i].key()) != id implies after.contains(before[i]) by {
                    if i < p {
                        assert(after[i] == before[i]);
                    } else {
                        assert(after[i + 1] == before[i]);
                    }
                }
                assert forall|j: int|
                    0 <= j < after.len() && Some(#[trigger] after[j].key()) != id implies before.contains(after[j]) by {
                    if j < p {
                        assert(after[j] == before[j]);
                    } else if j > p {
                        assert(after[j] == before[j - 1]);
                    }
                }
                assert forall|j: int|
                    0 <= j < after.len() && Some(#[trigger] after[j].key()) == id && applied is Some
                    implies decodes_to(with_label_fix(v@), after[j].current()) by {
                    if j < p {
                        assert(after[j] == before[j]);
                        assert(room_keys(before)[j] == id->0);
                    } else if j > p {
                        assert(after[j] == before[j - 1]);
                        assert(room_keys(before)[j - 1] == id->0);
                    }
                }
            }
        }
    }
}

proof fn lemma_rank_bounds(ks: Seq<Seq<char>>, key: Seq<char>)
    ensures
        0 <= rank(ks, key) <= ks.len(),
    decreases ks.len(),
{
    if ks.len() > 0 {
        lemma_rank_bounds(ks.drop_last(), key);
    }
}

/// A room decoded from a record carries the record's id.
pub proof fn lemma_new_room_key(record: Json, room: Room)
    requires
        decodes_to(with_label_fix(record), room.current()),
        opt_str(record.get("id"@)) is Some,
    ensures
        Some(room.key()) == opt_str(record.get("id"@)),
{
    lemma_fix_keeps_id(record);
}

/// The records among `records` that decode as rooms, in order.
pub open spec fn decodable(records: Seq<Json>) -> Seq<Json>
    decreases records.len(),
{
    if records.len() == 0 {
        Seq::empty()
    } else if room_error(with_label_fix(records.last())) is None {
        decodable(records.drop_last()).push(records.last())
    } else {
        decodable(records.drop_last())
    }
}

/// The rooms of a network document, hosted at `address`: every room record
/// that decodes, in order; records that do not decode are skipped. Fails when
/// the document has no state map.
pub fn parse_rooms_from_network_data(data: &JsonValue, address: &str) -> (r: Result<Vec<Room>, AscendError>)
    ensures
        match r {
            Ok(rooms) => state_members(data@) is Some && rooms@.len() == decodable(network_rooms(data@)).len()
                && forall|k: int|
                0 <= k < rooms@.len() ==> decodes_to(
                    with_label_fix(decodable(network_rooms(data@))[k]),
                    (#[trigger] rooms@[k]).current(),
                ) && rooms@[k].host() == address@,
            Err(e) => state_members(data@) is None && e is InvalidResponse,
        },
{
    let records = match collect_rooms(data) {
        Ok(records) => records,
        Err(e) => return Err(e),
    };
    let ghost all = network_rooms(data@);
    let mut rooms: Vec<Room> = Vec::new();
    let mut i: usize = 0;
    while i < records.len()
        invariant
            0 <= i <= records@.len(),
            records@.len() == all.len(),
            forall|k: int| 0 <= k < records@.len() ==> (#[trigger] records@[k])@ == all[k],
            rooms@.len() == decodable(all.take(i as int)).len(),
            forall|k: int|
                0 <= k < rooms@.len() ==> decodes_to(
                    with_label_fix(decodable(all.take(i as int))[k]),
                    (#[trigger] rooms@[k]).current(),
                ) && rooms@[k].host() == address@,
        decreases records.len() - i,
    {
        proof {
            let t = all.take(i as int + 1);
            assert(t.drop_last() =~= all.take(i as int));
            assert(t.last() == records@[i as int]@);
        }
        match Room::new(address, &records[i]) {
            Ok(room) => {
                rooms.push(room);
            },
            Err(_) => {},
        }
        i = i + 1;
    }
    proof {
        assert(all.take(all.len() as int) =~= all);
    }
    Ok(rooms)
}

} // verus!
