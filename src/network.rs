use vstd::prelude::*;

use crate::error::AscendError;
use crate::json::{lemma_members_view, members_view, opt_str, text, Json, JsonValue};

verus! {

/// The room record inside one entry of a network state map: the entry's
/// `data`, where its declared `type` is `"room"`.
pub open spec fn room_data(entry: Json) -> Option<Json> {
    match entry.get("data"@) {
        Some(d) => if opt_str(d.get("type"@)) == Some("room"@) {
            Some(d)
        } else {
            None
        },
        None => None,
    }
}

/// The first room record among `members[i..]`.
pub open spec fn first_room_from(members: Seq<(Seq<char>, Json)>, i: int) -> Option<Json>
    decreases members.len() - i,
{
    if i < 0 || i >= members.len() {
        None
    } else if room_data(members[i].1) is Some {
        room_data(members[i].1)
    } else {
        first_room_from(members, i + 1)
    }
}

/// The room records among `members[i..]`, in order.
pub open spec fn rooms_from(members: Seq<(Seq<char>, Json)>, i: int) -> Seq<Json>
    decreases members.len() - i,
{
    if i < 0 || i >= members.len() {
        Seq::empty()
    } else {
        match room_data(members[i].1) {
            Some(d) => seq![d] + rooms_from(members, i + 1),
            None => rooms_from(members, i + 1),
        }
    }
}

/// The `state` map of a network document, where it is an object.
pub open spec fn state_members(data: Json) -> Option<Seq<(Seq<char>, Json)>> {
    match data.get("state"@) {
        Some(Json::Object(ms)) => Some(ms),
        _ => None,
    }
}

/// The first room record of a network document.
pub open spec fn first_room(data: Json) -> Option<Json> {
    match state_members(data) {
        Some(ms) => first_room_from(ms, 0),
        None => None,
    }
}

/// The room records of a network document, in order.
pub open spec fn network_rooms(data: Json) -> Seq<Json> {
    match state_members(data) {
        Some(ms) => rooms_from(ms, 0),
        None => Seq::empty(),
    }
}

/// The room record held by one entry of a state map, if any.
pub fn entry_room(entry: &JsonValue) -> (r: Option<&JsonValue>)
    ensures
        match r {
            Some(d) => room_data(entry@) == Some(d@),
            None => room_data(entry@) is None,
        },
{
    match entry.get("data") {
        Some(d) => {
            let is_room = match d.get("type") {
                Some(t) => match t.as_str() {
                    Some(s) => crate::json::text_eq(s, "room"),
                    None => false,
                },
                None => false,
            };
            if is_room {
                Some(d)
            } else {
                None
            }
        },
        None => None,
    }
}

/// The `state` map of a network document.
pub fn state_map(data: &JsonValue) -> (r: Option<&Vec<(String, JsonValue)>>)
    ensures
        match r {
            Some(ms) => state_members(data@) == Some(members_view(ms@, ms@.len() as int)),
            None => state_members(data@) is None,
        },
{
    match data.get("state") {
        Some(JsonValue::Object(ms)) => Some(ms),
        _ => None,
    }
}

/// The first room record of a network document.
pub fn find_first_room(data: &JsonValue) -> (r: Option<&JsonValue>)
    ensures
        match r {
            Some(d) => first_room(data@) == Some(d@),
            None => first_room(data@) is None,
        },
{
    let ms = match state_map(data) {
        Some(ms) => ms,
        None => return None,
    };
    let ghost model = members_view(ms@, ms@.len() as int);
    proof {
        lemma_members_view(ms@, ms@.len() as int);
    }
    let mut i: usize = 0;
    while i < ms.len()
        invariant
            0 <= i <= ms@.len(),
            model == members_view(ms@, ms@.len() as int),
            model.len() == ms@.len(),
            state_members(data@) == Some(model),
            forall|j: int| 0 <= j < ms@.len() ==> #[trigger] model[j] == (ms@[j].0@, ms@[j].1@),
            first_room_from(model, 0) == first_room_from(model, i as int),
        decreases ms.len() - i,
    {
        match entry_room(&ms[i].1) {
            Some(d) => {
                proof {
                    assert(model[i as int].1 == ms@[i as int].1@);
                }
                return Some(d);
            },
            None => {
                proof {
                    assert(model[i as int].1 == ms@[i as int].1@);
                }
            },
        }
        i = i + 1;
    }
    None
}

/// Copies of the room records of a network document, in order; fails when
/// the document has no `state` map.
pub fn collect_rooms(data: &JsonValue) -> (r: Result<Vec<JsonValue>, AscendError>)
    ensures
        match r {
            Ok(rooms) => state_members(data@) is Some && rooms@.len() == network_rooms(
                data@,
            ).len() && forall|k: int|
                0 <= k < rooms@.len() ==> (#[trigger] rooms@[k])@ == network_rooms(data@)[k],
            Err(e) => state_members(data@) is None && e is InvalidResponse,
        },
{
    let ms = match state_map(data) {
        Some(ms) => ms,
        None => {
            let missing = match data.get("state") {
                Some(_) => text("State is not an object"),
                None => text("No state in network response"),
            };
            return Err(AscendError::InvalidResponse(missing));
        },
    };
    let ghost model = members_view(ms@, ms@.len() as int);
    proof {
        lemma_members_view(ms@, ms@.len() as int);
    }
    let mut out: Vec<JsonValue> = Vec::new();
    let mut i: usize = ms.len();
    while i > 0
        invariant
            0 <= i <= ms@.len(),
            model == members_view(ms@, ms@.len() as int),
            model.len() == ms@.len(),
            forall|j: int| 0 <= j < ms@.len() ==> #[trigger] model[j] == (ms@[j].0@, ms@[j].1@),
            out@.len() == rooms_from(model, i as int).len(),
            forall|k: int|
                0 <= k < out@.len() ==> (#[trigger] out@[k])@ == rooms_from(model, i as int)[out@.len() - 1 - k],
        decreases i,
    {
        i = i - 1;
        proof {
            assert(model[i as int].1 == ms@[i as int].1@);
        }
        match entry_room(&ms[i].1) {
            Some(d) => {
                out.push(d.duplicate());
                proof {
                    let tail = rooms_from(model, i as int + 1);
                    assert(rooms_from(model, i as int) == seq![d@] + tail);
                }
            },
            None => {},
        }
    }
    let mut rooms: Vec<JsonValue> = Vec::new();
    let ghost all = rooms_from(model, 0);
    let n = out.len();
    while out.len() > 0
        invariant
            n == all.len(),
            out@.len() + rooms@.len() == n,
            forall|k: int| 0 <= k < out@.len() ==> (#[trigger] out@[k])@ == all[n - 1 - k],
            forall|k: int| 0 <= k < rooms@.len() ==> (#[trigger] rooms@[k])@ == all[k],
        decreases out.len(),
    {
        let v = out.pop().unwrap();
        rooms.push(v);
    }
    Ok(rooms)
}

} // verus!
