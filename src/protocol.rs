use vstd::prelude::*;

use crate::json::{
    items_view, json_view, lemma_items_view, lemma_members_view, members_view, opt_str, text, text_eq, text_view,
    Json, JsonValue,
};

verus! {

/// A correlation token: a UUID held as its 128-bit value.
pub type RequestId = u128;

/// Methods of the protocol.
#[derive(Clone, Copy, Debug, PartialEq, Eq, Structural)]
pub enum Method {
    Read,
    Write,
    Update,
    Subscribe,
    Create,
    Delete,
    Select,
    Notify,
}

/// Kinds of request target.
#[derive(Clone, Copy, Debug, PartialEq, Eq, Structural)]
pub enum TargetType {
    Room,
    Device,
}

/// Named endpoints of the device API.
#[derive(Clone, Copy, Debug, PartialEq, Eq, Structural)]
pub enum Endpoint {
    Discovery,
    Master,
    Targets,
    Gain,
    Mute,
    ToneControl,
    Preset2,
    ChannelMapping,
}

/// An application error reported by the device.
#[derive(Clone, Debug)]
pub struct ApiError {
    pub detail: String,
}

/// Header of a request.
#[derive(Clone, Debug)]
pub struct RequestMeta {
    pub id: RequestId,
    pub endpoint: String,
    pub method: Method,
    pub target_type: Option<TargetType>,
    pub target: Option<String>,
}

/// A request envelope.
#[derive(Clone, Debug)]
pub struct Request {
    pub meta: RequestMeta,
    pub data: Option<JsonValue>,
}

/// Header of a response.
#[derive(Clone, Debug)]
pub struct ResponseMeta {
    pub id: RequestId,
    pub endpoint: Option<String>,
    pub method: Method,
    pub response_type: Option<String>,
}

/// A response envelope: a reply to a request or a pushed notification.
#[derive(Clone, Debug)]
pub struct Response {
    pub meta: ResponseMeta,
    pub data: Option<JsonValue>,
    pub errors: Option<Vec<ApiError>>,
}

/// Wire name of a method.
pub open spec fn method_name(m: Method) -> Seq<char> {
    match m {
        Method::Read => "read"@,
        Method::Write => "write"@,
        Method::Update => "update"@,
        Method::Subscribe => "subscribe"@,
        Method::Create => "create"@,
        Method::Delete => "delete"@,
        Method::Select => "select"@,
        Method::Notify => "notify"@,
    }
}

/// The method whose wire name is `s`.
pub open spec fn method_named(s: Seq<char>) -> Option<Method> {
    if s == "read"@ {
        Some(Method::Read)
    } else if s == "write"@ {
        Some(Method::Write)
    } else if s == "update"@ {
        Some(Method::Update)
    } else if s == "subscribe"@ {
        Some(Method::Subscribe)
    } else if s == "create"@ {
        Some(Method::Create)
    } else if s == "delete"@ {
        Some(Method::Delete)
    } else if s == "select"@ {
        Some(Method::Select)
    } else if s == "notify"@ {
        Some(Method::Notify)
    } else {
        None
    }
}

/// Wire name of a target kind.
pub open spec fn target_type_name(t: TargetType) -> Seq<char> {
    match t {
        TargetType::Room => "room"@,
        TargetType::Device => "device"@,
    }
}

/// Wire name of an endpoint.
pub open spec fn endpoint_name(e: Endpoint) -> Seq<char> {
    match e {
        Endpoint::Discovery => "discovery"@,
        Endpoint::Master => "master"@,
        Endpoint::Targets => "targets"@,
        Endpoint::Gain => "gain"@,
        Endpoint::Mute => "mute"@,
        Endpoint::ToneControl => "tone-control"@,
        Endpoint::Preset2 => "preset2"@,
        Endpoint::ChannelMapping => "channel-mapping"@,
    }
}

/// Lower-case hexadecimal digit of `n`, for `0 <= n < 16`.
pub open spec fn hex_digit(n: u128) -> char {
    seq!['0', '1', '2', '3', '4', '5', '6', '7', '8', '9', 'a', 'b', 'c', 'd', 'e', 'f'][n as int]
}

/// The `k`-th hexadecimal digit of `v`, counting from the most significant.
pub open spec fn nibble(v: u128, k: int) -> u128 {
    (v >> ((124 - 4 * k) as u128)) & 15u128
}

/// Number of hyphens before position `i` of the hyphenated form.
pub open spec fn hyphens_before(i: int) -> int {
    if i > 23 {
        4
    } else if i > 18 {
        3
    } else if i > 13 {
        2
    } else if i > 8 {
        1
    } else {
        0
    }
}

/// The hyphenated lower-case text of a UUID: 8-4-4-4-12 hexadecimal digits.
pub open spec fn hyphenated(v: u128) -> Seq<char> {
    Seq::new(
        36,
        |i: int|
            if i == 8 || i == 13 || i == 18 || i == 23 {
                '-'
            } else {
                hex_digit(nibble(v, i - hyphens_before(i)))
            },
    )
}

/// What `uuid::Uuid::parse_str` yields for a text, as a 128-bit value.
pub uninterp spec fn uuid_parse_of(s: Seq<char>) -> Option<u128>;

/// Relies on uuid::Uuid::new_v4 (a random UUID), taken as its 128-bit value.
#[verifier::external_body]
fn fresh_request_id() -> (r: RequestId) {
    uuid::Uuid::new_v4().as_u128()
}

/// Relies on uuid::Uuid::parse_str: the result depends on the text alone, and
/// the hyphenated form that uuid writes parses back to its value.
#[verifier::external_body]
fn parse_uuid(s: &str) -> (r: Option<RequestId>)
    ensures
        r == uuid_parse_of(s@),
        forall|x: u128| #[trigger] hyphenated(x) == s@ ==> r == Some(x),
{
    uuid::Uuid::parse_str(s).ok().map(|u| u.as_u128())
}

/// Relies on the Display of uuid::Uuid, which writes the hyphenated lower-case form.
#[verifier::external_body]
fn uuid_text(id: RequestId) -> (r: String)
    ensures
        r@ == hyphenated(id),
{
    uuid::Uuid::from_u128(id).to_string()
}

impl Method {
    /// The wire name of this method.
    pub fn name(&self) -> (r: &'static str)
        ensures
            r@ == method_name(*self),
    {
        match self {
            Method::Read => "read",
            Method::Write => "write",
            Method::Update => "update",
            Method::Subscribe => "subscribe",
            Method::Create => "create",
            Method::Delete => "delete",
            Method::Select => "select",
            Method::Notify => "notify",
        }
    }

    /// The method whose wire name is `s`, if any.
    pub fn from_name(s: &str) -> (r: Option<Method>)
        ensures
            r == method_named(s@),
    {
        if text_eq(s, "read") {
            Some(Method::Read)
        } else if text_eq(s, "write") {
            Some(Method::Write)
        } else if text_eq(s, "update") {
            Some(Method::Update)
        } else if text_eq(s, "subscribe") {
            Some(Method::Subscribe)
        } else if text_eq(s, "create") {
            Some(Method::Create)
        } else if text_eq(s, "delete") {
            Some(Method::Delete)
        } else if text_eq(s, "select") {
            Some(Method::Select)
        } else if text_eq(s, "notify") {
            Some(Method::Notify)
        } else {
            None
        }
    }
}

impl TargetType {
    /// The wire name of this target kind.
    pub fn name(&self) -> (r: &'static str)
        ensures
            r@ == target_type_name(*self),
    {
        match self {
            TargetType::Room => "room",
            TargetType::Device => "device",
        }
    }
}

impl Endpoint {
    /// The wire name of this endpoint.
    pub fn name(&self) -> (r: &'static str)
        ensures
            r@ == endpoint_name(*self),
    {
        match self {
            Endpoint::Discovery => "discovery",
            Endpoint::Master => "master",
            Endpoint::Targets => "targets",
            Endpoint::Gain => "gain",
            Endpoint::Mute => "mute",
            Endpoint::ToneControl => "tone-control",
            Endpoint::Preset2 => "preset2",
            Endpoint::ChannelMapping => "channel-mapping",
        }
    }
}

/// A one-member list holding `key: v` where `v` is present, else an empty list.
pub open spec fn optional_member(key: Seq<char>, v: Option<Json>) -> Seq<(Seq<char>, Json)> {
    match v {
        Some(j) => seq![(key, j)],
        None => Seq::empty(),
    }
}

/// The string document holding `s`, where `s` is present.
pub open spec fn opt_str_json(s: Option<Seq<char>>) -> Option<Json> {
    match s {
        Some(t) => Some(Json::Str(t)),
        None => None,
    }
}

/// Model of a whole list of documents.
pub open spec fn items_view_all(items: Seq<JsonValue>) -> Seq<Json> {
    items_view(items, items.len() as int)
}

/// The wire form of a request:
/// `{meta: {id, endpoint, method, targetType?, target?}, data?}`.
pub open spec fn request_wire(
    id: RequestId,
    endpoint: Seq<char>,
    method: Method,
    target_type: Option<TargetType>,
    target: Option<Seq<char>>,
    data: Option<Json>,
) -> Json {
    let tt = match target_type {
        Some(t) => Some(Json::Str(target_type_name(t))),
        None => None,
    };
    let meta = seq![
        ("id"@, Json::Str(hyphenated(id))),
        ("endpoint"@, Json::Str(endpoint)),
        ("method"@, Json::Str(method_name(method))),
    ] + optional_member("targetType"@, tt) + optional_member("target"@, opt_str_json(target));
    Json::Object(seq![("meta"@, Json::Object(meta))] + optional_member("data"@, data))
}

/// A header field that may be absent, null or a string.
pub open spec fn optional_text_ok(v: Option<Json>) -> bool {
    match v {
        None => true,
        Some(Json::Null) => true,
        Some(Json::Str(_)) => true,
        _ => false,
    }
}

/// The detail text of one entry of an error list.
pub open spec fn error_detail(j: Json) -> Option<Seq<char>> {
    opt_str(j.get("detail"@))
}

/// An error list that is absent, null, or a list of `{detail: string}`.
pub open spec fn errors_ok(v: Option<Json>) -> bool {
    match v {
        None => true,
        Some(Json::Null) => true,
        Some(Json::Array(items)) => forall|i: int|
            0 <= i < items.len() ==> (#[trigger] error_detail(items[i])) is Some,
        _ => false,
    }
}

/// The detail texts of an error list, where one is present.
pub open spec fn error_details(v: Option<Json>) -> Option<Seq<Seq<char>>> {
    match v {
        Some(Json::Array(items)) => Some(Seq::new(items.len(), |i: int| error_detail(items[i])->0)),
        _ => None,
    }
}

/// The payload of an envelope: absent and null both mean none.
pub open spec fn payload(v: Option<Json>) -> Option<Json> {
    match v {
        Some(Json::Null) => None,
        _ => v,
    }
}

/// The correlation token written in a header.
pub open spec fn header_token(meta: Json) -> Option<RequestId> {
    match opt_str(meta.get("id"@)) {
        Some(t) => uuid_parse_of(t),
        None => None,
    }
}

/// The method written in a header.
pub open spec fn header_method(meta: Json) -> Option<Method> {
    match opt_str(meta.get("method"@)) {
        Some(t) => method_named(t),
        None => None,
    }
}

/// A header that decodes: a token, a known method, and optional texts.
pub open spec fn header_ok(meta: Json) -> bool {
    &&& header_token(meta) is Some
    &&& header_method(meta) is Some
    &&& optional_text_ok(meta.get("endpoint"@))
    &&& optional_text_ok(meta.get("type"@))
}

/// A document that decodes as a response envelope.
pub open spec fn response_ok(v: Json) -> bool {
    &&& v is Object
    &&& v.get("meta"@) is Some
    &&& header_ok(v.get("meta"@)->0)
    &&& errors_ok(v.get("errors"@))
}

impl Request {
    /// The wire form of this request.
    pub open spec fn wire(&self) -> Json {
        request_wire(
            self.meta.id,
            self.meta.endpoint@,
            self.meta.method,
            self.meta.target_type,
            text_view(self.meta.target),
            json_view(self.data),
        )
    }

    /// A request for `endpoint` with `method`, a fresh correlation token, no
    /// target and no payload.
    pub fn new(endpoint: &str, method: Method) -> (r: Request)
        ensures
            r.meta.endpoint@ == endpoint@,
            r.meta.method == method,
            r.meta.target_type is None,
            r.meta.target is None,
            r.data is None,
    {
        Request {
            meta: RequestMeta {
                id: fresh_request_id(),
                endpoint: text(endpoint),
                method,
                target_type: None,
                target: None,
            },
            data: None,
        }
    }

    /// This request addressed to `target` of kind `target_type`.
    pub fn with_target(self, target_type: TargetType, target: &str) -> (r: Request)
        ensures
            r.meta.id == self.meta.id,
            r.meta.endpoint == self.meta.endpoint,
            r.meta.method == self.meta.method,
            r.meta.target_type == Some(target_type),
            text_view(r.meta.target) == Some(target@),
            r.data == self.data,
    {
        let mut r = self;
        r.meta.target_type = Some(target_type);
        r.meta.target = Some(text(target));
        r
    }

    /// This request carrying `data`.
    pub fn with_data(self, data: JsonValue) -> (r: Request)
        ensures
            r.meta == self.meta,
            r.data == Some(data),
    {
        let mut r = self;
        r.data = Some(data);
        r
    }

    /// The correlation token of this request.
    pub fn id(&self) -> (r: RequestId)
        ensures
            r == self.meta.id,
    {
        self.meta.id
    }

    /// The document sent on the socket for this request.
    pub fn to_json(&self) -> (r: JsonValue)
        ensures
            r@ == self.wire(),
    {
        let mut meta: Vec<(String, JsonValue)> = Vec::new();
        meta.push((text("id"), JsonValue::Str(uuid_text(self.meta.id))));
        meta.push((text("endpoint"), JsonValue::Str(self.meta.endpoint.clone())));
        meta.push((text("method"), JsonValue::Str(text(self.meta.method.name()))));
        let ghost base = meta@;
        match self.meta.target_type {
            Some(t) => meta.push((text("targetType"), JsonValue::Str(text(t.name())))),
            None => {},
        }
        let ghost with_tt = meta@;
        match &self.meta.target {
            Some(t) => meta.push((text("target"), JsonValue::Str(t.clone()))),
            None => {},
        }
        let mut top: Vec<(String, JsonValue)> = Vec::new();
        proof {
            lemma_members_view(meta@, meta@.len() as int);
        }
        let ghost meta_view = members_view(meta@, meta@.len() as int);
        top.push((text("meta"), JsonValue::Object(meta)));
        match &self.data {
            Some(d) => top.push((text("data"), d.duplicate())),
            None => {},
        }
        proof {
            lemma_members_view(top@, top@.len() as int);
            let tt = match self.meta.target_type {
                Some(t) => Some(Json::Str(target_type_name(t))),
                None => None,
            };
            let expect_meta = seq![
                ("id"@, Json::Str(hyphenated(self.meta.id))),
                ("endpoint"@, Json::Str(self.meta.endpoint@)),
                ("method"@, Json::Str(method_name(self.meta.method))),
            ] + optional_member("targetType"@, tt) + optional_member(
                "target"@,
                opt_str_json(text_view(self.meta.target)),
            );
            assert(meta_view =~= expect_meta);
            let expect = seq![("meta"@, Json::Object(expect_meta))] + optional_member(
                "data"@,
                json_view(self.data),
            );
            assert(members_view(top@, top@.len() as int) =~= expect);
        }
        JsonValue::Object(top)
    }
}

/// Decodes a header field that may be absent, null or a string: `None` when it
/// is something else.
fn optional_text(f: Option<&JsonValue>) -> (r: Option<Option<String>>)
    ensures
        r is Some <==> optional_text_ok(json_view(opt_ref(f))),
        r is Some ==> text_view(r->0) == opt_str(json_view(opt_ref(f))),
{
    match f {
        None => Some(None),
        Some(JsonValue::Null) => Some(None),
        Some(JsonValue::Str(s)) => Some(Some(s.clone())),
        Some(_) => None,
    }
}

/// The value behind an optional reference.
pub open spec fn opt_ref<'a>(f: Option<&'a JsonValue>) -> Option<JsonValue> {
    match f {
        Some(v) => Some(*v),
        None => None,
    }
}

/// Decodes the entries of an error list; `None` when one is not `{detail: string}`.
fn decode_errors(items: &Vec<JsonValue>) -> (r: Option<Vec<ApiError>>)
    ensures
        r is Some <==> forall|j: int|
            0 <= j < items@.len() ==> (#[trigger] error_detail(items@[j]@)) is Some,
        r is Some ==> r->0@.len() == items@.len() && forall|j: int|
            0 <= j < items@.len() ==> error_detail(items@[j]@) == Some(
                (#[trigger] r->0@[j]).detail@,
            ),
{
    let mut out: Vec<ApiError> = Vec::new();
    let mut i: usize = 0;
    while i < items.len()
        invariant
            0 <= i <= items@.len(),
            out@.len() == i,
            forall|j: int|
                0 <= j < i ==> error_detail(items@[j]@) == Some((#[trigger] out@[j]).detail@),
        decreases items.len() - i,
    {
        let d = match items[i].get("detail") {
            Some(f) => f.as_str(),
            None => None,
        };
        match d {
            Some(t) => out.push(ApiError { detail: text(t) }),
            None => {
                proof {
                    assert(error_detail(items@[i as int]@) is None);
                }
                return None;
            },
        }
        i = i + 1;
    }
    proof {
        assert forall|j: int| 0 <= j < items@.len() implies (#[trigger] error_detail(
            items@[j]@,
        )) is Some by {
            assert(error_detail(items@[j]@) == Some(out@[j].detail@));
        }
    }
    Some(out)
}

impl Response {
    /// The detail texts of the error list, where one is present.
    pub open spec fn details(&self) -> Option<Seq<Seq<char>>> {
        match self.errors {
            Some(es) => Some(Seq::new(es@.len(), |i: int| es@[i].detail@)),
            None => None,
        }
    }

    /// The response carries a non-empty error list.
    pub open spec fn is_error(&self) -> bool {
        self.details() is Some && self.details()->0.len() > 0
    }

    /// Whether the response carries a non-empty error list.
    pub fn has_errors(&self) -> (r: bool)
        ensures
            r == self.is_error(),
    {
        match &self.errors {
            Some(es) => es.len() > 0,
            None => false,
        }
    }

    /// The detail of the first error, where the error list is non-empty.
    pub fn error_message(&self) -> (r: Option<String>)
        ensures
            text_view(r) == (if self.is_error() {
                Some(self.details()->0[0])
            } else {
                None
            }),
    {
        match &self.errors {
            Some(es) => if es.len() > 0 {
                Some(es[0].detail.clone())
            } else {
                None
            },
            None => None,
        }
    }

    /// Decodes a response envelope; `None` when `v` is not one.
    pub fn from_json(v: &JsonValue) -> (r: Option<Response>)
        ensures
            match r {
                Some(resp) => {
                    let meta = v@.get("meta"@)->0;
                    &&& response_ok(v@)
                    &&& resp.meta.id == header_token(meta)->0
                    &&& forall|x: u128|
                        #[trigger] hyphenated(x) == opt_str(meta.get("id"@))->0 ==> resp.meta.id == x
                    &&& resp.meta.method == header_method(meta)->0
                    &&& text_view(resp.meta.endpoint) == opt_str(meta.get("endpoint"@))
                    &&& text_view(resp.meta.response_type) == opt_str(meta.get("type"@))
                    &&& json_view(resp.data) == payload(v@.get("data"@))
                    &&& resp.details() == error_details(v@.get("errors"@))
                },
                None => !response_ok(v@),
            },
    {
        let meta = match v.get("meta") {
            Some(m) => m,
            None => return None,
        };
        let id = match meta.get("id") {
            Some(f) => match f.as_str() {
                Some(t) => match parse_uuid(t) {
                    Some(x) => x,
                    None => return None,
                },
                None => return None,
            },
            None => return None,
        };
        let method = match meta.get("method") {
            Some(f) => match f.as_str() {
                Some(t) => match Method::from_name(t) {
                    Some(m) => m,
                    None => return None,
                },
                None => return None,
            },
            None => return None,
        };
        let endpoint = match optional_text(meta.get("endpoint")) {
            Some(e) => e,
            None => return None,
        };
        let response_type = match optional_text(meta.get("type")) {
            Some(e) => e,
            None => return None,
        };
        let errors = match v.get("errors") {
            None => None,
            Some(JsonValue::Null) => None,
            Some(JsonValue::Array(items)) => {
                proof {
                    lemma_items_view(items@, items@.len() as int);
                }
                match decode_errors(items) {
                    Some(out) => {
                        let ghost r = Response {
                            meta: ResponseMeta { id, endpoint: None, method, response_type: None },
                            data: None,
                            errors: Some(out),
                        };
                        proof {
                            assert(r.details()->0 =~= error_details(v@.get("errors"@))->0);
                            let all = items_view_all(items@);
                            assert forall|k: int| 0 <= k < all.len() implies (#[trigger] error_detail(
                                all[k],
                            )) is Some by {
                                assert(all[k] == items@[k]@);
                            }
                            assert(errors_ok(v@.get("errors"@)));
                        }
                        Some(out)
                    },
                    None => {
                        proof {
                            let k = choose|k: int|
                                0 <= k < items@.len() && (#[trigger] error_detail(items@[k]@)) is None;
                            assert(error_detail(items_view_all(items@)[k]) is None);
                        }
                        return None;
                    },
                }
            },
            Some(_) => return None,
        };
        let data = match v.get("data") {
            None => None,
            Some(JsonValue::Null) => None,
            Some(d) => Some(d.duplicate()),
        };
        let resp = Response { meta: ResponseMeta { id, endpoint, method, response_type }, data, errors };
        Some(resp)
    }
}

} // verus!
