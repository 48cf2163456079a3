use vstd::prelude::*;

use crate::error::AscendError;
use crate::json::{
    json_view, lemma_items_view, lemma_members_view, members_view, opt_bool, opt_str, text,
    text_eq, text_view, Json, JsonValue,
};
use crate::network::{collect_rooms, network_rooms, state_members};
use crate::protocol::{opt_ref, Method, Request, TargetType};
use crate::order::{ascending, entry_in, insert_sorted, keys_of};
use crate::types::{positions_view, DeviceId, MuteData, RoomId};

verus! {

/// The input label some firmware reports in place of the XLR input.
pub open spec fn aliased_label() -> Seq<char> {
    "AES Streamer"@
}

/// The label under which that input is presented.
pub open spec fn xlr_label() -> Seq<char> {
    "XLR"@
}

/// A label with the alias replaced.
pub open spec fn remap_label(j: Json) -> Json {
    if j == Json::Str(aliased_label()) {
        Json::Str(xlr_label())
    } else {
        j
    }
}

/// A room member with the alias replaced in `inputModes` (each entry) and in
/// `selectedInput`; other members are untouched.
pub open spec fn remap_member(key: Seq<char>, v: Json) -> Json {
    if key == "inputModes"@ {
        match v {
            Json::Array(items) => Json::Array(Seq::new(items.len(), |i: int| remap_label(items[i]))),
            _ => v,
        }
    } else if key == "selectedInput"@ {
        remap_label(v)
    } else {
        v
    }
}

/// A room record with the input-label alias replaced.
pub open spec fn with_label_fix(j: Json) -> Json {
    match j {
        Json::Object(ms) => Json::Object(
            Seq::new(ms.len(), |i: int| (ms[i].0, remap_member(ms[i].0, ms[i].1))),
        ),
        _ => j,
    }
}

/// Names of the XLR input modes.
pub open spec fn is_xlr_mode(s: Seq<char>) -> bool {
    s == "aes"@ || s == "analogLowGain"@ || s == "analogHighGain"@
}

/// The modes of `s` that are XLR modes (`xlr`) or that are not (`!xlr`), in order.
pub open spec fn modes_where(s: Seq<Seq<char>>, xlr: bool) -> Seq<Seq<char>>
    decreases s.len(),
{
    if s.len() == 0 {
        Seq::empty()
    } else if is_xlr_mode(s.last()) == xlr {
        modes_where(s.drop_last(), xlr).push(s.last())
    } else {
        modes_where(s.drop_last(), xlr)
    }
}

/// Model of a list of strings.
pub open spec fn texts_view(v: Seq<String>) -> Seq<Seq<char>> {
    Seq::new(v.len(), |i: int| v[i]@)
}

/// The texts of a list whose entries are all strings; empty otherwise.
pub open spec fn string_list(v: Option<Json>) -> Seq<Seq<char>> {
    match v {
        Some(Json::Array(items)) => if forall|i: int|
            0 <= i < items.len() ==> (#[trigger] items[i]) is Str {
            Seq::new(items.len(), |i: int| items[i]->Str_0)
        } else {
            Seq::empty()
        },
        _ => Seq::empty(),
    }
}

/// The last string value of key `k` among `ms`.
pub open spec fn last_text(ms: Seq<(Seq<char>, Json)>, k: Seq<char>) -> Option<Seq<char>>
    decreases ms.len(),
{
    if ms.len() == 0 {
        None
    } else if ms.last().0 == k {
        Some(ms.last().1->Str_0)
    } else {
        last_text(ms.drop_last(), k)
    }
}

/// The text that a map whose values are all strings gives key `k` (the last
/// one written, as a map keeps); none when some value is not a string.
pub open spec fn member_text(v: Option<Json>, k: Seq<char>) -> Option<Seq<char>> {
    match v {
        Some(Json::Object(ms)) => if forall|i: int|
            0 <= i < ms.len() ==> (#[trigger] ms[i]).1 is Str {
            last_text(ms, k)
        } else {
            None
        },
        _ => None,
    }
}

/// The list holds the pair `k: t`.
pub open spec fn text_entry_in(s: Seq<(String, String)>, k: Seq<char>, t: Seq<char>) -> bool {
    exists|i: int| 0 <= i < s.len() && #[trigger] s[i].0@ == k && s[i].1@ == t
}

/// A member that is absent or a number.
pub open spec fn optional_number(v: Option<Json>) -> bool {
    v is None || v->0 is Number
}

/// A gain record: a numeric `global` and optional `limits` whose `min`, `max`
/// and `step` are numbers where present.
pub open spec fn gain_ok(g: Json) -> bool {
    &&& g is Object
    &&& g.get("global"@) matches Some(Json::Number(_))
    &&& match g.get("limits"@) {
        None => true,
        Some(l) => l is Object && optional_number(l.get("min"@)) && optional_number(
            l.get("max"@),
        ) && optional_number(l.get("step"@)),
    }
}

/// A mute record: an object whose `global` and every other member are booleans.
pub open spec fn mute_ok(m: Json) -> bool {
    match m {
        Json::Object(ms) => {
            &&& opt_bool(m.get("global"@)) is Some
            &&& forall|i: int| 0 <= i < ms.len() ==> (#[trigger] ms[i]).1 is Bool
        },
        _ => false,
    }
}

/// The last boolean value of key `k` among `ms`.
pub open spec fn last_bool(ms: Seq<(Seq<char>, Json)>, k: Seq<char>) -> Option<bool>
    decreases ms.len(),
{
    if ms.len() == 0 {
        None
    } else if ms.last().0 == k {
        Some(ms.last().1->Bool_0)
    } else {
        last_bool(ms.drop_last(), k)
    }
}

/// The state a mute record gives position `k`: every member but `global` is a
/// position, and a repeated one keeps its last value, as a map keeps.
pub open spec fn mute_position(ms: Seq<(Seq<char>, Json)>, k: Seq<char>) -> Option<bool> {
    if k == "global"@ {
        None
    } else {
        last_bool(ms, k)
    }
}

/// Why a (label-fixed) room record does not decode, if it does not.
pub open spec fn room_error(q: Json) -> Option<RoomDefect> {
    if opt_str(q.get("id"@)) is None {
        Some(RoomDefect::BadId)
    } else if opt_str(q.get("name"@)) is None {
        Some(RoomDefect::NoName)
    } else if q.get("gain"@) is None {
        Some(RoomDefect::NoGain)
    } else if !gain_ok(q.get("gain"@)->0) {
        Some(RoomDefect::BadGain)
    } else if q.get("mute"@) is None {
        Some(RoomDefect::NoMute)
    } else if !mute_ok(q.get("mute"@)->0) {
        Some(RoomDefect::BadMute)
    } else {
        None
    }
}

/// The reasons a room record is refused.
pub enum RoomDefect {
    BadId,
    NoName,
    NoGain,
    BadGain,
    NoMute,
    BadMute,
}

/// The error reported for each refusal.
pub open spec fn reports(kind: RoomDefect, e: AscendError) -> bool {
    match kind {
        RoomDefect::BadId => e matches AscendError::InvalidResponse(m) && m@
            == "Missing or invalid room id"@,
        RoomDefect::NoName => e matches AscendError::InvalidResponse(m) && m@
            == "Missing room name"@,
        RoomDefect::NoGain => e matches AscendError::InvalidResponse(m) && m@
            == "Missing gain data"@,
        RoomDefect::BadGain => e matches AscendError::Json(m) && m@ == "Invalid gain data"@,
        RoomDefect::NoMute => e matches AscendError::InvalidResponse(m) && m@
            == "Missing mute data"@,
        RoomDefect::BadMute => e matches AscendError::Json(m) && m@ == "Invalid mute data"@,
    }
}

/// A snapshot of one room's state.
#[derive(Clone, Debug)]
pub struct RoomState {
    pub id: RoomId,
    pub name: String,
    /// Member devices and the position each occupies.
    pub members: Vec<(DeviceId, String)>,
    /// The gain record: global value and limits.
    pub gain: JsonValue,
    pub mute: MuteData,
    pub sleep: bool,
    pub selected_input: Option<String>,
    pub selected_xlr: Option<String>,
    /// Every input mode the device reports.
    pub input_modes_raw: Vec<String>,
    /// The input modes that are not XLR modes.
    pub input_modes: Vec<String>,
    /// The XLR input modes.
    pub xlr_input_modes: Vec<String>,
    pub selected_voicing_profile: Option<String>,
    /// The voicing profiles record, as reported.
    pub voicing: Option<JsonValue>,
    /// The presets record, as reported.
    pub presets: Option<JsonValue>,
    pub last_selected_preset: Option<String>,
    /// The channel mapping record, as reported.
    pub channel_mapping: Option<JsonValue>,
    pub streaming: Option<bool>,
    pub linear_phase: bool,
    /// The record the state was decoded from, with the input-label alias replaced.
    pub raw_json: JsonValue,
}

/// `st` is the state decoded from the label-fixed record `q`.
pub open spec fn decodes_to(q: Json, st: RoomState) -> bool {
    &&& st.id@ == opt_str(q.get("id"@))->0
    &&& st.name@ == opt_str(q.get("name"@))->0
    &&& ascending(keys_of(st.members@))
    &&& forall|k: Seq<char>, t: Seq<char>|
        #![trigger text_entry_in(st.members@, k, t)]
        text_entry_in(st.members@, k, t) <==> member_text(q.get("members"@), k) == Some(t)
    &&& st.gain@ == q.get("gain"@)->0
    &&& st.mute.global == opt_bool(q.get("mute"@)->0.get("global"@))->0
    &&& st.mute.wf()
    &&& forall|k: Seq<char>, x: bool|
        #![trigger entry_in(st.mute.positions@, k, x)]
        entry_in(st.mute.positions@, k, x) <==> mute_position(q.get("mute"@)->0->Object_0, k) == Some(x)
    &&& st.sleep == (opt_bool(q.get("sleep"@)) == Some(true))
    &&& text_view(st.selected_input) == opt_str(q.get("selectedInput"@))
    &&& text_view(st.selected_xlr) == opt_str(q.get("selectedXLR"@))
    &&& texts_view(st.input_modes_raw@) == string_list(q.get("inputModes"@))
    &&& texts_view(st.input_modes@) == modes_where(string_list(q.get("inputModes"@)), false)
    &&& texts_view(st.xlr_input_modes@) == modes_where(string_list(q.get("inputModes"@)), true)
    &&& text_view(st.selected_voicing_profile) == opt_str(q.get("selectedVoicingProfile"@))
    &&& json_view(st.voicing) == q.get("voicing"@)
    &&& json_view(st.presets) == q.get("presets"@)
    &&& text_view(st.last_selected_preset) == opt_str(q.get("lastSelectedPreset"@))
    &&& json_view(st.channel_mapping) == q.get("channelMapping"@)
    &&& st.streaming == opt_bool(q.get("streaming"@))
    &&& st.linear_phase == (opt_bool(q.get("linearPhase"@)) == Some(true))
    &&& st.raw_json@ == q
}

/// A label with the alias replaced.
fn fix_label(v: &JsonValue) -> (r: JsonValue)
    ensures
        r@ == remap_label(v@),
{
    match v {
        JsonValue::Str(s) => if text_eq(s.as_str(), "AES Streamer") {
            JsonValue::Str(text("XLR"))
        } else {
            v.duplicate()
        },
        _ => v.duplicate(),
    }
}

/// A copy of a room member with the alias replaced.
fn fix_member(key: &str, v: &JsonValue) -> (r: JsonValue)
    ensures
        r@ == remap_member(key@, v@),
{
    if text_eq(key, "inputModes") {
        match v {
            JsonValue::Array(items) => {
                proof {
                    lemma_items_view(items@, items@.len() as int);
                }
                let mut out: Vec<JsonValue> = Vec::new();
                let mut i: usize = 0;
                while i < items.len()
                    invariant
                        0 <= i <= items@.len(),
                        out@.len() == i,
                        forall|j: int| 0 <= j < i ==> (#[trigger] out@[j])@ == remap_label(items@[j]@),
                    decreases items.len() - i,
                {
                    out.push(fix_label(&items[i]));
                    i = i + 1;
                }
                proof {
                    lemma_items_view(out@, out@.len() as int);
                    let m = crate::json::items_view(items@, items@.len() as int);
                    assert(crate::json::items_view(out@, out@.len() as int) =~= Seq::new(
                        m.len(),
                        |k: int| remap_label(m[k]),
                    ));
                }
                JsonValue::Array(out)
            },
            _ => v.duplicate(),
        }
    } else if text_eq(key, "selectedInput") {
        fix_label(v)
    } else {
        v.duplicate()
    }
}

/// A copy of a room record with the input-label alias replaced.
pub fn fix_labels(json: &JsonValue) -> (r: JsonValue)
    ensures
        r@ == with_label_fix(json@),
{
    match json {
        JsonValue::Object(ms) => {
            proof {
                lemma_members_view(ms@, ms@.len() as int);
            }
            let mut out: Vec<(String, JsonValue)> = Vec::new();
            let mut i: usize = 0;
            while i < ms.len()
                invariant
                    0 <= i <= ms@.len(),
                    out@.len() == i,
                    forall|j: int|
                        0 <= j < i ==> (#[trigger] out@[j]).0@ == ms@[j].0@ && out@[j].1@
                            == remap_member(ms@[j].0@, ms@[j].1@),
                decreases ms.len() - i,
            {
                let v = fix_member(ms[i].0.as_str(), &ms[i].1);
                out.push((ms[i].0.clone(), v));
                i = i + 1;
            }
            proof {
                lemma_members_view(out@, out@.len() as int);
                let m = members_view(ms@, ms@.len() as int);
                assert(members_view(out@, out@.len() as int) =~= Seq::new(
                    m.len(),
                    |k: int| (m[k].0, remap_member(m[k].0, m[k].1)),
                ));
            }
            JsonValue::Object(out)
        },
        _ => json.duplicate(),
    }
}

/// The texts of a list member whose entries are all strings; empty otherwise.
fn string_list_of(v: Option<&JsonValue>) -> (r: Vec<String>)
    ensures
        texts_view(r@) == string_list(json_view(opt_ref(v))),
{
    let items = match v {
        Some(JsonValue::Array(items)) => items,
        _ => {
            let r: Vec<String> = Vec::new();
            proof {
                assert(texts_view(r@) =~= string_list(json_view(opt_ref(v))));
            }
            return r;
        },
    };
    proof {
        lemma_items_view(items@, items@.len() as int);
    }
    let ghost m = crate::json::items_view(items@, items@.len() as int);
    let mut out: Vec<String> = Vec::new();
    let mut i: usize = 0;
    while i < items.len()
        invariant
            0 <= i <= items@.len(),
            m == crate::json::items_view(items@, items@.len() as int),
            json_view(opt_ref(v)) == Some(Json::Array(m)),
            m.len() == items@.len(),
            forall|j: int| 0 <= j < items@.len() ==> #[trigger] m[j] == items@[j]@,
            out@.len() == i,
            forall|j: int| 0 <= j < i ==> m[j] == Json::Str((#[trigger] out@[j])@),
        decreases items.len() - i,
    {
        match &items[i] {
            JsonValue::Str(s) => out.push(s.clone()),
            _ => {
                let r: Vec<String> = Vec::new();
                proof {
                    assert(!(m[i as int] is Str));
                    assert(texts_view(r@) =~= string_list(json_view(opt_ref(v))));
                }
                return r;
            },
        }
        i = i + 1;
    }
    proof {
        assert forall|j: int| 0 <= j < m.len() implies (#[trigger] m[j]) is Str by {
            assert(m[j] == Json::Str(out@[j]@));
        }
        assert(texts_view(out@) =~= string_list(json_view(opt_ref(v))));
    }
    out
}

/// The modes of `raw` that are XLR modes (`xlr`) or that are not (`!xlr`).
fn split_modes(raw: &Vec<String>, xlr: bool) -> (r: Vec<String>)
    ensures
        texts_view(r@) == modes_where(texts_view(raw@), xlr),
{
    let mut out: Vec<String> = Vec::new();
    let mut i: usize = 0;
    while i < raw.len()
        invariant
            0 <= i <= raw@.len(),
            texts_view(out@) == modes_where(texts_view(raw@).take(i as int), xlr),
        decreases raw.len() - i,
    {
        let m = raw[i].as_str();
        let is_xlr = text_eq(m, "aes") || text_eq(m, "analogLowGain") || text_eq(
            m,
            "analogHighGain",
        );
        let ghost before = out@;
        proof {
            let t = texts_view(raw@).take(i as int + 1);
            assert(t.drop_last() =~= texts_view(raw@).take(i as int));
            assert(t.last() == raw@[i as int]@);
        }
        if is_xlr == xlr {
            out.push(raw[i].clone());
            proof {
                assert(texts_view(out@) =~= texts_view(before).push(raw@[i as int]@));
            }
        }
        i = i + 1;
    }
    proof {
        assert(texts_view(raw@).take(raw@.len() as int) =~= texts_view(raw@));
    }
    out
}

/// The pairs of a map member whose values are all strings, in ascending key
/// order, a repeated key keeping its last value; empty otherwise.
fn string_map_of(v: Option<&JsonValue>) -> (r: Vec<(String, String)>)
    ensures
        ascending(keys_of(r@)),
        forall|k: Seq<char>, t: Seq<char>|
            #![trigger text_entry_in(r@, k, t)]
            text_entry_in(r@, k, t) <==> member_text(json_view(opt_ref(v)), k) == Some(t),
{
    let ms = match v {
        Some(JsonValue::Object(ms)) => ms,
        _ => {
            let r: Vec<(String, String)> = Vec::new();
            proof {
                assert(keys_of(r@) =~= Seq::<Seq<char>>::empty());
            }
            return r;
        },
    };
    proof {
        lemma_members_view(ms@, ms@.len() as int);
    }
    let ghost m = members_view(ms@, ms@.len() as int);
    let mut i: usize = 0;
    while i < ms.len()
        invariant
            0 <= i <= ms@.len(),
            m == members_view(ms@, ms@.len() as int),
            json_view(opt_ref(v)) == Some(Json::Object(m)),
            m.len() == ms@.len(),
            forall|j: int| 0 <= j < ms@.len() ==> #[trigger] m[j] == (ms@[j].0@, ms@[j].1@),
            forall|j: int| 0 <= j < i ==> (#[trigger] m[j]).1 is Str,
        decreases ms.len() - i,
    {
        match &ms[i].1 {
            JsonValue::Str(_) => {},
            _ => {
                let r: Vec<(String, String)> = Vec::new();
                proof {
                    assert(!(m[i as int].1 is Str));
                    assert(keys_of(r@) =~= Seq::<Seq<char>>::empty());
                }
                return r;
            },
        }
        i = i + 1;
    }
    let mut out: Vec<(String, String)> = Vec::new();
    proof {
        assert(keys_of(out@) =~= Seq::<Seq<char>>::empty());
    }
    let mut i: usize = 0;
    while i < ms.len()
        invariant
            0 <= i <= ms@.len(),
            m == members_view(ms@, ms@.len() as int),
            m.len() == ms@.len(),
            forall|j: int| 0 <= j < ms@.len() ==> #[trigger] m[j] == (ms@[j].0@, ms@[j].1@),
            forall|j: int| 0 <= j < ms@.len() ==> (#[trigger] m[j]).1 is Str,
            ascending(keys_of(out@)),
            forall|k: Seq<char>, t: Seq<char>|
                #![trigger text_entry_in(out@, k, t)]
                text_entry_in(out@, k, t) <==> last_text(m.take(i as int), k) == Some(t),
        decreases ms.len() - i,
    {
        let val = match &ms[i].1 {
            JsonValue::Str(t) => t.clone(),
            _ => String::new(),
        };
        let ghost before = out@;
        proof {
            assert(m[i as int].1 is Str);
            assert(val@ == m[i as int].1->Str_0);
            let t1 = m.take(i as int + 1);
            assert(t1.drop_last() =~= m.take(i as int));
            assert(t1.last() == m[i as int]);
        }
        insert_sorted(&mut out, ms[i].0.clone(), val);
        proof {
            assert forall|k: Seq<char>, t: Seq<char>| #![trigger text_entry_in(out@, k, t)]
                text_entry_in(out@, k, t) <==> last_text(m.take(i as int + 1), k) == Some(t) by {
                if text_entry_in(out@, k, t) {
                    let j = choose|j: int| 0 <= j < out@.len() && #[trigger] out@[j].0@ == k && out@[j].1@ == t;
                    assert(entry_in(out@, k, out@[j].1));
                    if k != ms@[i as int].0@ {
                        let jj = choose|jj: int| 0 <= jj < before.len() && #[trigger] before[jj].0@ == k && before[jj].1 == out@[j].1;
                        assert(text_entry_in(before, k, t));
                    }
                }
                if last_text(m.take(i as int + 1), k) == Some(t) {
                    if k == ms@[i as int].0@ {
                        assert(entry_in(out@, k, val));
                        let j = choose|j: int| 0 <= j < out@.len() && #[trigger] out@[j].0@ == k && out@[j].1 == val;
                        assert(out@[j].1@ == t);
                    } else {
                        assert(text_entry_in(before, k, t));
                        let jj = choose|jj: int| 0 <= jj < before.len() && #[trigger] before[jj].0@ == k && before[jj].1@ == t;
                        assert(entry_in(before, k, before[jj].1));
                        assert(entry_in(out@, k, before[jj].1));
                        let j = choose|j: int| 0 <= j < out@.len() && #[trigger] out@[j].0@ == k && out@[j].1 == before[jj].1;
                        assert(out@[j].1@ == t);
                    }
                }
            }
        }
        i = i + 1;
    }
    proof {
        assert(m.take(ms@.len() as int) =~= m);
    }
    out
}

/// A member that is absent or a number.
fn number_or_absent(v: Option<&JsonValue>) -> (r: bool)
    ensures
        r == optional_number(json_view(opt_ref(v))),
{
    match v {
        None => true,
        Some(JsonValue::Number(_)) => true,
        Some(_) => false,
    }
}

/// Whether `g` is a well-formed gain record.
fn check_gain(g: &JsonValue) -> (r: bool)
    ensures
        r == gain_ok(g@),
{
    let global_ok = match g.get("global") {
        Some(JsonValue::Number(_)) => true,
        _ => false,
    };
    if !global_ok {
        return false;
    }
    match g.get("limits") {
        None => true,
        Some(l) => match l {
            JsonValue::Object(_) => number_or_absent(l.get("min")) && number_or_absent(
                l.get("max"),
            ) && number_or_absent(l.get("step")),
            _ => false,
        },
    }
}

/// Decodes a mute record, positions in ascending order, a repeated position
/// keeping its last value; `None` when it is not a mute record.
fn decode_mute(m: &JsonValue) -> (r: Option<MuteData>)
    ensures
        r is Some <==> mute_ok(m@),
        r matches Some(d) ==> d.global == opt_bool(m@.get("global"@))->0 && d.wf() && forall|
            k: Seq<char>,
            x: bool,
        |
            #![trigger entry_in(d.positions@, k, x)]
            entry_in(d.positions@, k, x) <==> mute_position(m@->Object_0, k) == Some(x),
{
    let global = match m.get("global") {
        Some(g) => match g.as_bool() {
            Some(b) => b,
            None => return None,
        },
        None => return None,
    };
    let ms = match m {
        JsonValue::Object(ms) => ms,
        _ => return None,
    };
    proof {
        lemma_members_view(ms@, ms@.len() as int);
        assert("global"@.len() == 6) by {
            reveal_strlit("global");
        }
    }
    let ghost model = members_view(ms@, ms@.len() as int);
    let mut positions: Vec<(String, bool)> = Vec::new();
    proof {
        assert(keys_of(positions@) =~= Seq::<Seq<char>>::empty());
    }
    let mut i: usize = 0;
    while i < ms.len()
        invariant
            0 <= i <= ms@.len(),
            model == members_view(ms@, ms@.len() as int),
            m@ == Json::Object(model),
            model.len() == ms@.len(),
            forall|j: int| 0 <= j < ms@.len() ==> #[trigger] model[j] == (ms@[j].0@, ms@[j].1@),
            forall|j: int| 0 <= j < i ==> (#[trigger] model[j]).1 is Bool,
            ascending(keys_of(positions@)),
            forall|k: Seq<char>, x: bool|
                #![trigger entry_in(positions@, k, x)]
                entry_in(positions@, k, x) <==> mute_position(model.take(i as int), k) == Some(x),
        decreases ms.len() - i,
    {
        let b = match &ms[i].1 {
            JsonValue::Bool(b) => *b,
            _ => {
                proof {
                    assert(!(model[i as int].1 is Bool));
                }
                return None;
            },
        };
        let ghost before = positions@;
        proof {
            let t = model.take(i as int + 1);
            assert(t.drop_last() =~= model.take(i as int));
            assert(t.last() == model[i as int]);
        }
        if !text_eq(ms[i].0.as_str(), "global") {
            insert_sorted(&mut positions, ms[i].0.clone(), b);
        }
        proof {
            assert forall|k: Seq<char>, x: bool| #![trigger entry_in(positions@, k, x)]
                entry_in(positions@, k, x) <==> mute_position(model.take(i as int + 1), k) == Some(x) by {
                if k == "global"@ {
                    if entry_in(positions@, k, x) && ms@[i as int].0@ != "global"@ {
                        assert(entry_in(before, k, x));
                    }
                }
            }
        }
        i = i + 1;
    }
    proof {
        assert(model.take(ms@.len() as int) =~= model);
    }
    Some(MuteData { global, positions })
}

/// Decodes a room record. The input-label alias is replaced first, in the
/// record kept as `raw_json` and in every field decoded from it; a record
/// without a string `id` or `name`, or without a well-formed gain or mute
/// record, is refused.
pub fn parse_room_state(json: &JsonValue) -> (r: Result<RoomState, AscendError>)
    ensures
        match r {
            Ok(st) => room_error(with_label_fix(json@)) is None && decodes_to(
                with_label_fix(json@),
                st,
            ),
            Err(e) => room_error(with_label_fix(json@)) matches Some(k) && reports(k, e),
        },
{
    let q = fix_labels(json);
    let id = match q.get("id") {
        Some(v) => match v.as_str() {
            Some(s) => text(s),
            None => return Err(AscendError::InvalidResponse(text("Missing or invalid room id"))),
        },
        None => return Err(AscendError::InvalidResponse(text("Missing or invalid room id"))),
    };
    let name = match q.get("name") {
        Some(v) => match v.as_str() {
            Some(s) => text(s),
            None => return Err(AscendError::InvalidResponse(text("Missing room name"))),
        },
        None => return Err(AscendError::InvalidResponse(text("Missing room name"))),
    };
    let members = string_map_of(q.get("members"));
    let gain = match q.get("gain") {
        Some(g) => if check_gain(g) {
            g.duplicate()
        } else {
            return Err(AscendError::Json(text("Invalid gain data")));
        },
        None => return Err(AscendError::InvalidResponse(text("Missing gain data"))),
    };
    let mute = match q.get("mute") {
        Some(m) => match decode_mute(m) {
            Some(d) => d,
            None => return Err(AscendError::Json(text("Invalid mute data"))),
        },
        None => return Err(AscendError::InvalidResponse(text("Missing mute data"))),
    };
    let sleep = match q.get("sleep") {
        Some(v) => match v.as_bool() {
            Some(b) => b,
            None => false,
        },
        None => false,
    };
    let selected_input = optional_string(q.get("selectedInput"));
    let selected_xlr = optional_string(q.get("selectedXLR"));
    let input_modes_raw = string_list_of(q.get("inputModes"));
    let input_modes = split_modes(&input_modes_raw, false);
    let xlr_input_modes = split_modes(&input_modes_raw, true);
    let selected_voicing_profile = optional_string(q.get("selectedVoicingProfile"));
    let voicing = optional_copy(q.get("voicing"));
    let presets = optional_copy(q.get("presets"));
    let last_selected_preset = optional_string(q.get("lastSelectedPreset"));
    let channel_mapping = optional_copy(q.get("channelMapping"));
    let streaming = match q.get("streaming") {
        Some(v) => v.as_bool(),
        None => None,
    };
    let linear_phase = match q.get("linearPhase") {
        Some(v) => match v.as_bool() {
            Some(b) => b,
            None => false,
        },
        None => false,
    };
    Ok(
        RoomState {
            id,
            name,
            members,
            gain,
            mute,
            sleep,
            selected_input,
            selected_xlr,
            input_modes_raw,
            input_modes,
            xlr_input_modes,
            selected_voicing_profile,
            voicing,
            presets,
            last_selected_preset,
            channel_mapping,
            streaming,
            linear_phase,
            raw_json: q,
        },
    )
}

/// The text of a member that is a string.
fn optional_string(v: Option<&JsonValue>) -> (r: Option<String>)
    ensures
        text_view(r) == opt_str(json_view(opt_ref(v))),
{
    match v {
        Some(x) => match x.as_str() {
            Some(s) => Some(text(s)),
            None => None,
        },
        None => None,
    }
}

/// A copy of a member, where present.
fn optional_copy(v: Option<&JsonValue>) -> (r: Option<JsonValue>)
    ensures
        json_view(r) == json_view(opt_ref(v)),
{
    match v {
        Some(x) => Some(x.duplicate()),
        None => None,
    }
}

/// A copy of a list of strings.
fn copy_texts(v: &Vec<String>) -> (r: Vec<String>)
    ensures
        texts_view(r@) == texts_view(v@),
{
    let mut out: Vec<String> = Vec::new();
    let mut i: usize = 0;
    while i < v.len()
        invariant
            0 <= i <= v@.len(),
            out@.len() == i,
            forall|j: int| 0 <= j < i ==> (#[trigger] out@[j])@ == v@[j]@,
        decreases v.len() - i,
    {
        out.push(v[i].clone());
        i = i + 1;
    }
    proof {
        assert(texts_view(out@) =~= texts_view(v@));
    }
    out
}

/// A copy of a list of string pairs.
fn copy_pairs(v: &Vec<(String, String)>) -> (r: Vec<(String, String)>)
    ensures
        r@.len() == v@.len(),
        forall|j: int| 0 <= j < v@.len() ==> (#[trigger] r@[j]).0@ == v@[j].0@ && r@[j].1@ == v@[j].1@,
{
    let mut out: Vec<(String, String)> = Vec::new();
    let mut i: usize = 0;
    while i < v.len()
        invariant
            0 <= i <= v@.len(),
            out@.len() == i,
            forall|j: int| 0 <= j < i ==> (#[trigger] out@[j]).0@ == v@[j].0@ && out@[j].1@ == v@[j].1@,
        decreases v.len() - i,
    {
        out.push((v[i].0.clone(), v[i].1.clone()));
        i = i + 1;
    }
    out
}

/// A copy of a list of position states.
fn copy_positions(v: &Vec<(String, bool)>) -> (r: Vec<(String, bool)>)
    ensures
        positions_view(r@) == positions_view(v@),
{
    let mut out: Vec<(String, bool)> = Vec::new();
    let mut i: usize = 0;
    while i < v.len()
        invariant
            0 <= i <= v@.len(),
            out@.len() == i,
            forall|j: int| 0 <= j < i ==> (#[trigger] out@[j]).0@ == v@[j].0@ && out@[j].1 == v@[j].1,
        decreases v.len() - i,
    {
        out.push((v[i].0.clone(), v[i].1));
        i = i + 1;
    }
    proof {
        assert(positions_view(out@) =~= positions_view(v@));
    }
    out
}

/// A copy of an optional string.
fn copy_opt_text(v: &Option<String>) -> (r: Option<String>)
    ensures
        text_view(r) == text_view(*v),
{
    match v {
        Some(s) => Some(s.clone()),
        None => None,
    }
}

/// A copy of an optional document.
fn copy_opt_json(v: &Option<JsonValue>) -> (r: Option<JsonValue>)
    ensures
        json_view(r) == json_view(*v),
{
    match v {
        Some(x) => Some(x.duplicate()),
        None => None,
    }
}

impl RoomState {
    /// Every field of `self` and `other` holds the same value.
    pub open spec fn same_as(&self, other: RoomState) -> bool {
        &&& self.id@ == other.id@
        &&& self.name@ == other.name@
        &&& Seq::new(self.members@.len(), |i: int| (self.members@[i].0@, self.members@[i].1@))
            == Seq::new(other.members@.len(), |i: int| (other.members@[i].0@, other.members@[i].1@))
        &&& self.gain@ == other.gain@
        &&& self.mute.global == other.mute.global
        &&& positions_view(self.mute.positions@) == positions_view(other.mute.positions@)
        &&& self.sleep == other.sleep
        &&& text_view(self.selected_input) == text_view(other.selected_input)
        &&& text_view(self.selected_xlr) == text_view(other.selected_xlr)
        &&& texts_view(self.input_modes_raw@) == texts_view(other.input_modes_raw@)
        &&& texts_view(self.input_modes@) == texts_view(other.input_modes@)
        &&& texts_view(self.xlr_input_modes@) == texts_view(other.xlr_input_modes@)
        &&& text_view(self.selected_voicing_profile) == text_view(other.selected_voicing_profile)
        &&& json_view(self.voicing) == json_view(other.voicing)
        &&& json_view(self.presets) == json_view(other.presets)
        &&& text_view(self.last_selected_preset) == text_view(other.last_selected_preset)
        &&& json_view(self.channel_mapping) == json_view(other.channel_mapping)
        &&& self.streaming == other.streaming
        &&& self.linear_phase == other.linear_phase
        &&& self.raw_json@ == other.raw_json@
    }

    /// A copy of this snapshot.
    pub fn duplicate(&self) -> (r: RoomState)
        ensures
            r.same_as(*self),
    {
        let members = copy_pairs(&self.members);
        let r = RoomState {
            id: self.id.clone(),
            name: self.name.clone(),
            members,
            gain: self.gain.duplicate(),
            mute: MuteData {
                global: self.mute.global,
                positions: copy_positions(&self.mute.positions),
            },
            sleep: self.sleep,
            selected_input: copy_opt_text(&self.selected_input),
            selected_xlr: copy_opt_text(&self.selected_xlr),
            input_modes_raw: copy_texts(&self.input_modes_raw),
            input_modes: copy_texts(&self.input_modes),
            xlr_input_modes: copy_texts(&self.xlr_input_modes),
            selected_voicing_profile: copy_opt_text(&self.selected_voicing_profile),
            voicing: copy_opt_json(&self.voicing),
            presets: copy_opt_json(&self.presets),
            last_selected_preset: copy_opt_text(&self.last_selected_preset),
            channel_mapping: copy_opt_json(&self.channel_mapping),
            streaming: self.streaming,
            linear_phase: self.linear_phase,
            raw_json: self.raw_json.duplicate(),
        };
        proof {
            assert(Seq::new(r.members@.len(), |i: int| (r.members@[i].0@, r.members@[i].1@))
                =~= Seq::new(self.members@.len(), |i: int| (self.members@[i].0@, self.members@[i].1@)));
        }
        r
    }
}

/// A room known to the engine: its current state and the address of the
/// device that hosts it.
#[derive(Clone, Debug)]
pub struct Room {
    address: String,
    state: RoomState,
}

/// The first record among `rooms[i..]` whose `id` is `id`.
pub open spec fn room_with_id(rooms: Seq<Json>, id: Seq<char>, i: int) -> Option<Json>
    decreases rooms.len() - i,
{
    if i < 0 || i >= rooms.len() {
        None
    } else if opt_str(rooms[i].get("id"@)) == Some(id) {
        Some(rooms[i])
    } else {
        room_with_id(rooms, id, i + 1)
    }
}

/// `r` is a command to room `room` at `endpoint` with `method` and payload `data`.
pub open spec fn room_command(r: Request, room: Seq<char>, endpoint: Seq<char>, method: Method, data: Json) -> bool {
    &&& r.meta.endpoint@ == endpoint
    &&& r.meta.method == method
    &&& r.meta.target_type == Some(TargetType::Room)
    &&& text_view(r.meta.target) == Some(room)
    &&& json_view(r.data) == Some(data)
}

/// The object `{key: v}`.
pub open spec fn single(key: Seq<char>, v: Json) -> Json {
    Json::Object(seq![(key, v)])
}

/// The object `{key: v}`.
fn make_single(key: &str, v: JsonValue) -> (r: JsonValue)
    ensures
        r@ == single(key@, v@),
{
    let mut ms: Vec<(String, JsonValue)> = Vec::new();
    ms.push((text(key), v));
    proof {
        lemma_members_view(ms@, 1);
        assert(members_view(ms@, ms@.len() as int) =~= seq![(key@, v@)]);
    }
    JsonValue::Object(ms)
}

impl Room {
    /// The address of the hosting device.
    pub closed spec fn host(&self) -> Seq<char> {
        self.address@
    }

    /// The current state.
    pub closed spec fn current(&self) -> RoomState {
        self.state
    }

    /// The identifier of the room.
    pub open spec fn key(&self) -> Seq<char> {
        self.current().id@
    }

    /// A room hosted at `address`, decoded from its record as
    /// `parse_room_state` does.
    pub fn new(address: &str, json: &JsonValue) -> (r: Result<Room, AscendError>)
        ensures
            match r {
                Ok(room) => room_error(with_label_fix(json@)) is None && decodes_to(
                    with_label_fix(json@),
                    room.current(),
                ) && room.host() == address@,
                Err(e) => room_error(with_label_fix(json@)) matches Some(k) && reports(k, e),
            },
    {
        match parse_room_state(json) {
            Ok(state) => Ok(Room { address: text(address), state }),
            Err(e) => Err(e),
        }
    }

    /// A copy of this room.
    pub fn duplicate(&self) -> (r: Room)
        ensures
            r.host() == self.host(),
            r.current().same_as(self.current()),
    {
        Room { address: self.address.clone(), state: self.state.duplicate() }
    }

    /// The identifier of the room.
    pub fn id(&self) -> (r: RoomId)
        ensures
            r@ == self.key(),
    {
        self.state.id.clone()
    }

    /// The name of the room.
    pub fn name(&self) -> (r: String)
        ensures
            r@ == self.current().name@,
    {
        self.state.name.clone()
    }

    /// The address of the device hosting the room.
    pub fn address(&self) -> (r: String)
        ensures
            r@ == self.host(),
    {
        self.address.clone()
    }

    /// The record the state was decoded from.
    pub fn raw_json(&self) -> (r: JsonValue)
        ensures
            r@ == self.current().raw_json@,
    {
        self.state.raw_json.duplicate()
    }

    /// A copy of the whole state.
    pub fn state_snapshot(&self) -> (r: RoomState)
        ensures
            r.same_as(self.current()),
    {
        self.state.duplicate()
    }

    /// The gain record.
    pub fn gain_record(&self) -> (r: JsonValue)
        ensures
            r@ == self.current().gain@,
    {
        self.state.gain.duplicate()
    }

    /// The mute states.
    pub fn mute(&self) -> (r: MuteData)
        ensures
            r.global == self.current().mute.global,
            positions_view(r.positions@) == positions_view(self.current().mute.positions@),
    {
        MuteData { global: self.state.mute.global, positions: copy_positions(&self.state.mute.positions) }
    }

    /// The standby state.
    pub fn sleep(&self) -> (r: bool)
        ensures
            r == self.current().sleep,
    {
        self.state.sleep
    }

    /// The selected input.
    pub fn selected_input(&self) -> (r: Option<String>)
        ensures
            text_view(r) == text_view(self.current().selected_input),
    {
        copy_opt_text(&self.state.selected_input)
    }

    /// The selected XLR mode.
    pub fn selected_xlr(&self) -> (r: Option<String>)
        ensures
            text_view(r) == text_view(self.current().selected_xlr),
    {
        copy_opt_text(&self.state.selected_xlr)
    }

    /// The input modes that are not XLR modes.
    pub fn input_modes(&self) -> (r: Vec<String>)
        ensures
            texts_view(r@) == texts_view(self.current().input_modes@),
    {
        copy_texts(&self.state.input_modes)
    }

    /// The XLR input modes.
    pub fn xlr_input_modes(&self) -> (r: Vec<String>)
        ensures
            texts_view(r@) == texts_view(self.current().xlr_input_modes@),
    {
        copy_texts(&self.state.xlr_input_modes)
    }

    /// The linear-phase filter state.
    pub fn linear_phase(&self) -> (r: bool)
        ensures
            r == self.current().linear_phase,
    {
        self.state.linear_phase
    }

    /// The number of member devices.
    pub fn member_count(&self) -> (r: usize)
        ensures
            r == self.current().members@.len(),
    {
        self.state.members.len()
    }

    /// The selected voicing profile.
    pub fn selected_voicing_profile(&self) -> (r: Option<String>)
        ensures
            text_view(r) == text_view(self.current().selected_voicing_profile),
    {
        copy_opt_text(&self.state.selected_voicing_profile)
    }

    /// The last selected preset.
    pub fn last_selected_preset(&self) -> (r: Option<String>)
        ensures
            text_view(r) == text_view(self.current().last_selected_preset),
    {
        copy_opt_text(&self.state.last_selected_preset)
    }

    /// The voicing profiles record, as reported.
    pub fn voicing_record(&self) -> (r: Option<JsonValue>)
        ensures
            json_view(r) == json_view(self.current().voicing),
    {
        copy_opt_json(&self.state.voicing)
    }

    /// The presets record, as reported.
    pub fn presets_record(&self) -> (r: Option<JsonValue>)
        ensures
            json_view(r) == json_view(self.current().presets),
    {
        copy_opt_json(&self.state.presets)
    }

    /// Replaces the state with the one decoded from `json`; on a record that
    /// does not decode the room is left as it was.
    pub fn update_from_json(&mut self, json: &JsonValue) -> (r: Result<(), AscendError>)
        ensures
            final(self).host() == old(self).host(),
            match r {
                Ok(()) => room_error(with_label_fix(json@)) is None && decodes_to(
                    with_label_fix(json@),
                    final(self).current(),
                ),
                Err(e) => room_error(with_label_fix(json@)) matches Some(k) && reports(k, e)
                    && *final(self) == *old(self),
            },
    {
        match parse_room_state(json) {
            Ok(state) => {
                self.state = state;
                Ok(())
            },
            Err(e) => Err(e),
        }
    }

    /// Re-reads this room from a network document: its record is the first
    /// room record with the same id. Fails without change when the document
    /// has no state map, holds no such record, or the record does not decode.
    pub fn refresh_from(&mut self, data: &JsonValue) -> (r: Result<(), AscendError>)
        ensures
            final(self).host() == old(self).host(),
            match r {
                Ok(()) => room_with_id(network_rooms(data@), old(self).key(), 0) matches Some(j)
                    && room_error(with_label_fix(j)) is None && decodes_to(
                    with_label_fix(j),
                    final(self).current(),
                ),
                Err(e) => final(self).current() == old(self).current() && {
                    ||| state_members(data@) is None && e is InvalidResponse
                    ||| state_members(data@) is Some && room_with_id(
                        network_rooms(data@),
                        old(self).key(),
                        0,
                    ) is None && (e matches AscendError::RoomNotFound(m) && m@ == old(self).key())
                    ||| (room_with_id(network_rooms(data@), old(self).key(), 0) matches Some(j)
                        && (room_error(with_label_fix(j)) matches Some(k) && reports(k, e)))
                },
            },
    {
        let rooms = match collect_rooms(data) {
            Ok(rooms) => rooms,
            Err(e) => return Err(e),
        };
        let ghost all = network_rooms(data@);
        let mut i: usize = 0;
        while i < rooms.len()
            invariant
                0 <= i <= rooms@.len(),
                *self == *old(self),
                state_members(data@) is Some,
                all == network_rooms(data@),
                rooms@.len() == all.len(),
                forall|k: int| 0 <= k < rooms@.len() ==> (#[trigger] rooms@[k])@ == all[k],
                room_with_id(all, self.key(), 0) == room_with_id(all, self.key(), i as int),
            decreases rooms.len() - i,
        {
            let same = match rooms[i].get("id") {
                Some(v) => match v.as_str() {
                    Some(s) => text_eq(s, self.state.id.as_str()),
                    None => false,
                },
                None => false,
            };
            proof {
                assert(rooms@[i as int]@ == all[i as int]);
            }
            if same {
                return self.update_from_json(&rooms[i]);
            }
            i = i + 1;
        }
        Err(AscendError::RoomNotFound(self.state.id.clone()))
    }

    /// A command to this room.
    fn command(&self, endpoint: &str, method: Method, data: JsonValue) -> (r: Request)
        ensures
            room_command(r, self.key(), endpoint@, method, data@),
    {
        Request::new(endpoint, method).with_target(TargetType::Room, self.state.id.as_str()).with_data(
            data,
        )
    }

    /// Sets the global volume: `gain2` update with `{gain}`.
    pub fn gain_request(&self, gain: JsonValue) -> (r: Request)
        ensures
            room_command(r, self.key(), "gain2"@, Method::Update, single("gain"@, gain@)),
    {
        self.command("gain2", Method::Update, make_single("gain", gain))
    }

    /// Sets the global mute: `mute` update with `[{mute, positionID: "global"}]`.
    pub fn mute_request(&self, mute: bool) -> (r: Request)
        ensures
            room_command(
                r,
                self.key(),
                "mute"@,
                Method::Update,
                Json::Array(
                    seq![Json::Object(seq![("mute"@, Json::Bool(mute)), ("positionID"@, Json::Str("global"@))])],
                ),
            ),
    {
        let mut ms: Vec<(String, JsonValue)> = Vec::new();
        ms.push((text("mute"), JsonValue::Bool(mute)));
        ms.push((text("positionID"), JsonValue::Str(text("global"))));
        proof {
            lemma_members_view(ms@, 2);
            assert(members_view(ms@, ms@.len() as int) =~= seq![("mute"@, Json::Bool(mute)), ("positionID"@, Json::Str("global"@))]);
        }
        let entry = JsonValue::Object(ms);
        let mut items: Vec<JsonValue> = Vec::new();
        items.push(entry);
        proof {
            lemma_items_view(items@, 1);
            assert(crate::json::items_view(items@, items@.len() as int) =~= seq![items@[0]@]);
        }
        self.command("mute", Method::Update, JsonValue::Array(items))
    }

    /// Enters or leaves standby: `sleep` update with `{enable}`.
    pub fn standby_request(&self, standby: bool) -> (r: Request)
        ensures
            room_command(r, self.key(), "sleep"@, Method::Update, single("enable"@, Json::Bool(standby))),
    {
        self.command("sleep", Method::Update, make_single("enable", JsonValue::Bool(standby)))
    }

    /// Selects an input: `selectedInput` update with `{input}`.
    pub fn input_request(&self, input: &str) -> (r: Request)
        ensures
            room_command(r, self.key(), "selectedInput"@, Method::Update, single("input"@, Json::Str(input@))),
    {
        self.command("selectedInput", Method::Update, make_single("input", JsonValue::Str(text(input))))
    }

    /// Selects an XLR mode: `selectedXLR` update with `{xlr}`.
    pub fn xlr_mode_request(&self, mode: &str) -> (r: Request)
        ensures
            room_command(r, self.key(), "selectedXLR"@, Method::Update, single("xlr"@, Json::Str(mode@))),
    {
        self.command("selectedXLR", Method::Update, make_single("xlr", JsonValue::Str(text(mode))))
    }

    /// Switches the linear-phase filter: `linear-phase` update with `{enable}`.
    pub fn linear_phase_request(&self, enabled: bool) -> (r: Request)
        ensures
            room_command(r, self.key(), "linear-phase"@, Method::Update, single("enable"@, Json::Bool(enabled))),
    {
        self.command("linear-phase", Method::Update, make_single("enable", JsonValue::Bool(enabled)))
    }

    /// Selects a voicing profile: `tone-control` select with `{voicing}`.
    pub fn voicing_request(&self, profile: &str) -> (r: Request)
        ensures
            room_command(r, self.key(), "tone-control"@, Method::Select, single("voicing"@, Json::Str(profile@))),
    {
        self.command("tone-control", Method::Select, make_single("voicing", JsonValue::Str(text(profile))))
    }

    /// Adjusts tone controls: `tone-control` update with the settings record.
    pub fn tone_request(&self, tone: JsonValue) -> (r: Request)
        ensures
            room_command(r, self.key(), "tone-control"@, Method::Update, tone@),
    {
        self.command("tone-control", Method::Update, tone)
    }

    /// Applies a preset: `preset2` select with `{id}`.
    pub fn preset_request(&self, preset_id: &str) -> (r: Request)
        ensures
            room_command(r, self.key(), "preset2"@, Method::Select, single("id"@, Json::Str(preset_id@))),
    {
        self.command("preset2", Method::Select, make_single("id", JsonValue::Str(text(preset_id))))
    }
}

} // verus!
