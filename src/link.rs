use vstd::prelude::*;

use crate::error::AscendError;
use crate::json::{json_view, text, JsonValue};
use crate::network::{network_rooms, state_members};
use crate::protocol::{Method, Request, Response};
use crate::registry::{decodable, parse_rooms_from_network_data};
use crate::room::{decodes_to, with_label_fix, Room};
use crate::subscription::{decimal, decimal_text};

verus! {

/// Port on which devices accept control connections.
pub const SPEAKER_PORT: u16 = 8768;

/// The discovery service.
pub const DISCOVERY_URL: &'static str = "wss://api.ascend.audio/";

/// The address of a device's control socket: `ws://{ip}:{port}`.
pub fn device_url(ip: &str, port: u16) -> (r: String)
    ensures
        r@ == "ws://"@ + ip@ + ":"@ + decimal(port as nat),
{
    let mut url = text("ws://");
    url.append(ip);
    url.append(":");
    url.append(decimal_text(port as u64).as_str());
    url
}

/// The request for a device's network state: a read of `network`.
pub fn network_state_request() -> (r: Request)
    ensures
        r.meta.endpoint@ == "network"@,
        r.meta.method == Method::Read,
        r.meta.target_type is None,
        r.data is None,
{
    Request::new("network", Method::Read)
}

/// The request subscribing to a device's pushed state: a subscribe to `network`.
pub fn subscribe_request() -> (r: Request)
    ensures
        r.meta.endpoint@ == "network"@,
        r.meta.method == Method::Subscribe,
        r.meta.target_type is None,
        r.data is None,
{
    Request::new("network", Method::Subscribe)
}

/// The request the discovery service answers with the local device addresses.
pub fn discovery_request() -> (r: Request)
    ensures
        r.meta.endpoint@ == "discovery:local-ips"@,
        r.meta.method == Method::Read,
        r.meta.target_type is None,
        r.data is None,
{
    Request::new("discovery:local-ips", Method::Read)
}

/// The payload of a network-state reply; a reply without one is invalid.
pub fn network_data(resp: Response) -> (r: Result<JsonValue, AscendError>)
    ensures
        match r {
            Ok(d) => json_view(resp.data) == Some(d@),
            Err(e) => resp.data is None && (e matches AscendError::InvalidResponse(m) && m@
                == "No data in network response"@),
        },
{
    match resp.data {
        Some(d) => Ok(d),
        None => Err(AscendError::InvalidResponse(text("No data in network response"))),
    }
}

/// The rooms a device's network state lists, as a direct client sees them:
/// every room record that decodes; a state without any is invalid.
pub fn rooms_of_network(data: &JsonValue, address: &str) -> (r: Result<Vec<Room>, AscendError>)
    ensures
        match r {
            Ok(rooms) => state_members(data@) is Some && rooms@.len() > 0 && rooms@.len()
                == decodable(network_rooms(data@)).len() && forall|k: int|
                0 <= k < rooms@.len() ==> decodes_to(
                    with_label_fix(decodable(network_rooms(data@))[k]),
                    (#[trigger] rooms@[k]).current(),
                ) && rooms@[k].host() == address@,
            Err(e) => e is InvalidResponse && (state_members(data@) is None || decodable(
                network_rooms(data@),
            ).len() == 0),
        },
{
    let rooms = match parse_rooms_from_network_data(data, address) {
        Ok(rooms) => rooms,
        Err(e) => return Err(e),
    };
    if rooms.len() == 0 {
        return Err(AscendError::InvalidResponse(text("No rooms found in network state")));
    }
    Ok(rooms)
}

} // verus!
