use dutchdutch_ascend::connection::{parse_state_update, settle};
use dutchdutch_ascend::discovery::{next_backoff, plan_scan, parse_speaker_ips};
use dutchdutch_ascend::link::{device_url, network_data, rooms_of_network, SPEAKER_PORT};
use dutchdutch_ascend::registry::parse_rooms_from_network_data;
use dutchdutch_ascend::room::parse_room_state;
use dutchdutch_ascend::{
    AscendError, DiscoveryCore, DiscoveryLoop, Inbound, JsonValue, LinkRegistry, LoopAction,
    LoopEvent, Method, MuteData, PendingTable, Phase, RecvFailure, Request, Response,
    RoomRegistry, StateUpdate, TargetType, WaitOutcome,
};

fn s(t: &str) -> JsonValue {
    JsonValue::Str(t.to_string())
}

fn num(t: &str) -> JsonValue {
    JsonValue::Number(t.to_string())
}

fn obj(members: Vec<(&str, JsonValue)>) -> JsonValue {
    JsonValue::Object(members.into_iter().map(|(k, v)| (k.to_string(), v)).collect())
}

fn arr(items: Vec<JsonValue>) -> JsonValue {
    JsonValue::Array(items)
}

const TOKEN_TEXT: &str = "67e55044-10b1-426f-9247-bb680e5fe0c8";
const TOKEN: u128 = 0x67e5504410b1426f9247bb680e5fe0c8;

fn room_record(id: &str, name: &str) -> JsonValue {
    obj(vec![
        ("type", s("room")),
        ("id", s(id)),
        ("name", s(name)),
        ("gain", obj(vec![("global", num("-20.5"))])),
        ("mute", obj(vec![("global", JsonValue::Bool(false))])),
    ])
}

fn network_doc(entries: Vec<(&str, JsonValue)>) -> JsonValue {
    obj(vec![(
        "state",
        obj(entries.into_iter().map(|(k, v)| (k, obj(vec![("data", v)]))).collect()),
    )])
}

fn frame(id: &str, method: &str, rtype: Option<&str>, data: Option<JsonValue>) -> JsonValue {
    let mut meta = vec![("id", s(id)), ("method", s(method))];
    if let Some(t) = rtype {
        meta.push(("type", s(t)));
    }
    let mut top = vec![("meta", obj(meta))];
    if let Some(d) = data {
        top.push(("data", d));
    }
    obj(top)
}

fn notification(record: JsonValue) -> JsonValue {
    frame(
        "00000000-0000-4000-8000-000000000001",
        "notify",
        Some("network"),
        Some(network_doc(vec![("a", record)])),
    )
}

#[test]
fn network_read_yields_named_room() {
    let data = network_doc(vec![("a", room_record("R1", "Kitchen"))]);
    let rooms = parse_rooms_from_network_data(&data, "10.0.0.5").unwrap();
    let mut registry = RoomRegistry::new();
    registry.merge_scanned(rooms);
    let all = registry.rooms();
    assert_eq!(all.len(), 1);
    assert_eq!(all[0].id(), "R1");
    assert_eq!(all[0].name(), "Kitchen");
    assert_eq!(all[0].address(), "10.0.0.5");
    assert_eq!(registry.room_count(), 1);
}

#[test]
fn two_passes_same_address_keep_one_link() {
    let mut links: LinkRegistry<u32> = LinkRegistry::new();
    for pass in 0..2u32 {
        if links.find("192.168.1.20").is_none() {
            assert!(links.adopt("192.168.1.20", pass));
        } else {
            assert!(!links.adopt("192.168.1.20", pass));
        }
    }
    assert_eq!(links.len(), 1);
    assert_eq!(links.find("192.168.1.20"), Some(&0));
}

#[test]
fn stop_during_backoff_sleep_exits() {
    let mut lp = DiscoveryLoop::new();
    assert_eq!(lp.step(LoopEvent::Started), LoopAction::Scan);
    assert_eq!(lp.step(LoopEvent::ScanFailed), LoopAction::Sleep(1));
    assert_eq!(lp.phase, Phase::Sleeping);
    assert_eq!(lp.step(LoopEvent::StopRequested), LoopAction::Exit);
    assert_eq!(lp.phase, Phase::Stopped);
    assert_eq!(lp.step(LoopEvent::SleepElapsed), LoopAction::Exit);
}

#[test]
fn backoff_sequence_is_exact() {
    let mut b: u64 = 0;
    let mut seen = Vec::new();
    for _ in 0..10 {
        b = next_backoff(b, false);
        seen.push(b);
    }
    assert_eq!(seen, vec![1, 2, 4, 8, 16, 32, 60, 60, 60, 60]);
    assert_eq!(next_backoff(b, true), 0);
    assert_eq!(next_backoff(0, false), 1);
}

#[test]
fn loop_sleeps_the_backoff_sequence_and_resets() {
    let mut lp = DiscoveryLoop::new();
    assert_eq!(lp.step(LoopEvent::Started), LoopAction::Scan);
    let mut sleeps = Vec::new();
    for _ in 0..8 {
        match lp.step(LoopEvent::ScanFailed) {
            LoopAction::Sleep(d) => sleeps.push(d),
            other => panic!("unexpected {:?}", other),
        }
        assert_eq!(lp.step(LoopEvent::SleepElapsed), LoopAction::Scan);
    }
    assert_eq!(sleeps, vec![1, 2, 4, 8, 16, 32, 60, 60]);
    assert_eq!(lp.step(LoopEvent::ScanSucceeded), LoopAction::Scan);
    assert_eq!(lp.backoff, 0);
    assert_eq!(lp.step(LoopEvent::ScanFailed), LoopAction::Sleep(1));
}

#[test]
fn reply_goes_to_the_registered_caller() {
    let mut table: PendingTable<&str> = PendingTable::new();
    table.register(TOKEN, "caller-a").unwrap();
    table.register(7, "caller-b").unwrap();
    match table.route(&frame(TOKEN_TEXT, "read", None, Some(obj(vec![])))) {
        Inbound::Reply(h, resp) => {
            assert_eq!(h, "caller-a");
            assert_eq!(resp.meta.id, TOKEN);
            assert_eq!(resp.meta.method, Method::Read);
        }
        _ => panic!("expected a reply"),
    }
    assert_eq!(table.len(), 1);
    assert!(table.contains(7));
}

#[test]
fn repeated_reply_is_delivered_once() {
    let mut table: PendingTable<u8> = PendingTable::new();
    table.register(TOKEN, 1).unwrap();
    let f = frame(TOKEN_TEXT, "read", None, None);
    assert!(matches!(table.route(&f), Inbound::Reply(1, _)));
    assert!(matches!(table.route(&f), Inbound::Dropped));
    assert_eq!(table.len(), 0);
}

#[test]
fn late_reply_after_timeout_resolves_nothing() {
    let mut table: PendingTable<u8> = PendingTable::new();
    table.register(TOKEN, 1).unwrap();
    assert!(table.expire(TOKEN));
    assert!(!table.expire(TOKEN));
    assert!(matches!(settle(WaitOutcome::TimedOut), Err(AscendError::Timeout)));
    let f = frame(TOKEN_TEXT, "read", None, None);
    assert!(matches!(table.route(&f), Inbound::Dropped));
}

#[test]
fn late_reply_shaped_as_notification_is_published_not_delivered() {
    let mut table: PendingTable<u8> = PendingTable::new();
    table.register(TOKEN, 1).unwrap();
    table.expire(TOKEN);
    let f = frame(
        TOKEN_TEXT,
        "notify",
        Some("network"),
        Some(network_doc(vec![("a", room_record("R1", "Kitchen"))])),
    );
    assert!(matches!(table.route(&f), Inbound::Notification(StateUpdate::RoomUpdate(_))));
}

#[test]
fn close_discards_pending_and_refuses_new_requests() {
    let mut table: PendingTable<u8> = PendingTable::new();
    table.register(1, 1).unwrap();
    table.register(2, 2).unwrap();
    table.close();
    assert!(table.closed());
    assert_eq!(table.len(), 0);
    assert!(matches!(table.register(3, 3), Err(AscendError::ConnectionClosed)));
    assert!(matches!(settle(WaitOutcome::Discarded), Err(AscendError::ConnectionClosed)));
    assert!(matches!(table.route(&frame(TOKEN_TEXT, "read", None, None)), Inbound::Dropped));
}

#[test]
fn settle_reports_first_api_error() {
    let f = obj(vec![
        ("meta", obj(vec![("id", s(TOKEN_TEXT)), ("method", s("update"))])),
        (
            "errors",
            arr(vec![obj(vec![("detail", s("bad gain"))]), obj(vec![("detail", s("other"))])]),
        ),
    ]);
    let resp = Response::from_json(&f).unwrap();
    assert!(resp.has_errors());
    assert_eq!(resp.error_message(), Some("bad gain".to_string()));
    match settle(WaitOutcome::Replied(resp)) {
        Err(AscendError::ApiError { detail }) => assert_eq!(detail, "bad gain"),
        other => panic!("unexpected {:?}", other),
    }
    let ok = Response::from_json(&frame(TOKEN_TEXT, "read", None, Some(s("x")))).unwrap();
    assert!(!ok.has_errors());
    assert_eq!(ok.error_message(), None);
    assert!(settle(WaitOutcome::Replied(ok)).is_ok());
}

#[test]
fn restart_keeps_rooms_and_links() {
    let mut core: DiscoveryCore<u32> = DiscoveryCore::new();
    let first = core.start();
    assert!(core.adopt_link("10.0.0.5", 5));
    let data = network_doc(vec![("a", room_record("R1", "Kitchen"))]);
    core.merge_scanned(parse_rooms_from_network_data(&data, "10.0.0.5").unwrap());
    let second = core.start();
    assert_ne!(first, second);
    assert_eq!(core.room_count(), 1);
    assert_eq!(core.link_count(), 1);
    assert_eq!(core.find_link("10.0.0.5"), Some(&5));
    assert!(!core.adopt_link("10.0.0.5", 6));
    assert_eq!(core.link_count(), 1);
    assert_eq!(core.step(first, LoopEvent::ScanFailed), LoopAction::Exit);
    assert_eq!(core.step(second, LoopEvent::ScanFailed), LoopAction::Sleep(1));
    core.stop();
    assert_eq!(core.step(second, LoopEvent::SleepElapsed), LoopAction::Exit);
    assert_eq!(core.room_count(), 1);
}

#[test]
fn stop_when_not_running_is_harmless() {
    let mut core: DiscoveryCore<u32> = DiscoveryCore::new();
    core.stop();
    core.stop();
    assert_eq!(core.room_count(), 0);
    let run = core.start();
    assert_eq!(core.step(run, LoopEvent::ScanSucceeded), LoopAction::Scan);
}

#[test]
fn notification_updates_matching_room_only() {
    let mut registry = RoomRegistry::new();
    let data = network_doc(vec![
        ("a", room_record("R1", "Kitchen")),
        ("b", room_record("R2", "Study")),
    ]);
    registry.merge_scanned(parse_rooms_from_network_data(&data, "10.0.0.5").unwrap());
    let mut table: PendingTable<u8> = PendingTable::new();
    let update = match table.route(&notification(room_record("R2", "Office"))) {
        Inbound::Notification(StateUpdate::RoomUpdate(v)) => v,
        _ => panic!("expected a room notification"),
    };
    assert_eq!(registry.apply_update(&update, "10.0.0.5"), Some("R2".to_string()));
    let rooms = registry.rooms();
    assert_eq!(rooms[0].name(), "Kitchen");
    assert_eq!(rooms[1].name(), "Office");
}

#[test]
fn notification_for_unknown_room_inserts_it() {
    let mut registry = RoomRegistry::new();
    assert_eq!(
        registry.apply_update(&room_record("R9", "Garage"), "10.0.0.7"),
        Some("R9".to_string())
    );
    let rooms = registry.rooms();
    assert_eq!(rooms.len(), 1);
    assert_eq!(rooms[0].id(), "R9");
    assert_eq!(rooms[0].address(), "10.0.0.7");
}

#[test]
fn malformed_notification_leaves_registry_unchanged() {
    let mut registry = RoomRegistry::new();
    registry.merge_scanned(
        parse_rooms_from_network_data(
            &network_doc(vec![("a", room_record("R1", "Kitchen"))]),
            "h",
        )
        .unwrap(),
    );
    let mut table: PendingTable<u8> = PendingTable::new();
    let not_room = obj(vec![("type", s("device")), ("id", s("R1"))]);
    assert!(matches!(table.route(&notification(not_room)), Inbound::Dropped));
    let wrong_type = frame(
        "00000000-0000-4000-8000-000000000001",
        "notify",
        Some("settings"),
        Some(network_doc(vec![("a", room_record("R1", "Other"))])),
    );
    assert!(matches!(table.route(&wrong_type), Inbound::Dropped));
    let no_name = obj(vec![("type", s("room")), ("id", s("R1"))]);
    assert_eq!(registry.apply_update(&no_name, "h"), None);
    assert_eq!(registry.apply_update(&obj(vec![("name", s("x"))]), "h"), None);
    assert_eq!(registry.room_count(), 1);
    assert_eq!(registry.rooms()[0].name(), "Kitchen");
}

#[test]
fn scan_keeps_first_record_of_a_room() {
    let mut registry = RoomRegistry::new();
    let first = network_doc(vec![("a", room_record("R1", "Kitchen"))]);
    let second = network_doc(vec![("a", room_record("R1", "Renamed")), ("b", room_record("R2", "Hall"))]);
    registry.merge_scanned(parse_rooms_from_network_data(&first, "h").unwrap());
    registry.merge_scanned(parse_rooms_from_network_data(&second, "h").unwrap());
    let rooms = registry.rooms();
    assert_eq!(rooms.len(), 2);
    assert_eq!(rooms[0].name(), "Kitchen");
    assert_eq!(rooms[1].name(), "Hall");
    registry.clear_rooms();
    assert_eq!(registry.room_count(), 0);
}

#[test]
fn aes_streamer_label_is_presented_as_xlr() {
    let record = obj(vec![
        ("id", s("R1")),
        ("name", s("Kitchen")),
        ("gain", obj(vec![("global", num("-10"))])),
        ("mute", obj(vec![("global", JsonValue::Bool(true)), ("left", JsonValue::Bool(false))])),
        ("selectedInput", s("AES Streamer")),
        ("inputModes", arr(vec![s("AES Streamer"), s("aes"), s("Analog"), s("analogLowGain")])),
        ("description", s("AES Streamer")),
    ]);
    let st = parse_room_state(&record).unwrap();
    assert_eq!(st.selected_input, Some("XLR".to_string()));
    assert_eq!(st.input_modes_raw, vec!["XLR", "aes", "Analog", "analogLowGain"]);
    assert_eq!(st.input_modes, vec!["XLR", "Analog"]);
    assert_eq!(st.xlr_input_modes, vec!["aes", "analogLowGain"]);
    assert_eq!(st.raw_json.get("selectedInput"), Some(&s("XLR")));
    assert_eq!(st.raw_json.get("description"), Some(&s("AES Streamer")));
    assert!(st.mute.global);
    assert_eq!(st.mute.position("left"), Some(false));
    assert_eq!(st.mute.position("global"), None);
}

#[test]
fn room_record_defaults_and_optionals() {
    let record = obj(vec![
        ("id", s("R1")),
        ("name", s("Kitchen")),
        ("gain", obj(vec![("global", num("-10")), ("limits", obj(vec![("min", num("-60"))]))])),
        ("mute", obj(vec![("global", JsonValue::Bool(false))])),
        ("members", obj(vec![("dev-1", s("left")), ("dev-2", s("right"))])),
        ("sleep", JsonValue::Bool(true)),
        ("linearPhase", s("yes")),
        ("streaming", JsonValue::Bool(false)),
        ("selectedXLR", s("aes")),
        ("lastSelectedPreset", s("p1")),
        ("selectedVoicingProfile", s("Neutral")),
    ]);
    let st = parse_room_state(&record).unwrap();
    assert_eq!(st.members.len(), 2);
    assert!(st.sleep);
    assert!(!st.linear_phase);
    assert_eq!(st.streaming, Some(false));
    assert_eq!(st.selected_xlr, Some("aes".to_string()));
    assert_eq!(st.last_selected_preset, Some("p1".to_string()));
    assert_eq!(st.selected_voicing_profile, Some("Neutral".to_string()));
    assert!(st.input_modes_raw.is_empty());
    assert!(st.voicing.is_none());
}

#[test]
fn room_record_refusals() {
    let bad_id = obj(vec![("name", s("x"))]);
    assert!(matches!(parse_room_state(&bad_id), Err(AscendError::InvalidResponse(m)) if m == "Missing or invalid room id"));
    let no_name = obj(vec![("id", s("R1"))]);
    assert!(matches!(parse_room_state(&no_name), Err(AscendError::InvalidResponse(m)) if m == "Missing room name"));
    let no_gain = obj(vec![("id", s("R1")), ("name", s("x"))]);
    assert!(matches!(parse_room_state(&no_gain), Err(AscendError::InvalidResponse(m)) if m == "Missing gain data"));
    let bad_gain = obj(vec![("id", s("R1")), ("name", s("x")), ("gain", obj(vec![("global", s("loud"))]))]);
    assert!(matches!(parse_room_state(&bad_gain), Err(AscendError::Json(_))));
    let no_mute = obj(vec![("id", s("R1")), ("name", s("x")), ("gain", obj(vec![("global", num("1"))]))]);
    assert!(matches!(parse_room_state(&no_mute), Err(AscendError::InvalidResponse(m)) if m == "Missing mute data"));
    let bad_mute = obj(vec![
        ("id", s("R1")),
        ("name", s("x")),
        ("gain", obj(vec![("global", num("1"))])),
        ("mute", obj(vec![("global", JsonValue::Bool(true)), ("left", num("1"))])),
    ]);
    assert!(matches!(parse_room_state(&bad_mute), Err(AscendError::Json(_))));
}

#[test]
fn mute_data_queries() {
    let m = MuteData {
        global: false,
        positions: vec![("left".to_string(), false), ("right".to_string(), true)],
    };
    assert_eq!(m.position("right"), Some(true));
    assert_eq!(m.position("sub"), None);
    assert_eq!(m.position_ids(), vec!["left", "right"]);
    assert!(m.any_position_muted());
    let quiet = MuteData { global: true, positions: vec![("left".to_string(), false)] };
    assert!(!quiet.any_position_muted());
    let empty = MuteData { global: true, positions: vec![] };
    assert!(!empty.any_position_muted());
    assert!(empty.position_ids().is_empty());
}

#[test]
fn request_wire_form() {
    let r = Request::new("gain2", Method::Update)
        .with_target(TargetType::Room, "R1")
        .with_data(obj(vec![("gain", num("-20"))]));
    let j = r.to_json();
    let meta = j.get("meta").unwrap();
    let id_text = meta.get("id").unwrap().as_str().unwrap().to_string();
    assert_eq!(id_text.len(), 36);
    assert_eq!(id_text, uuid::Uuid::from_u128(r.id()).to_string());
    assert_eq!(meta.get("endpoint"), Some(&s("gain2")));
    assert_eq!(meta.get("method"), Some(&s("update")));
    assert_eq!(meta.get("targetType"), Some(&s("room")));
    assert_eq!(meta.get("target"), Some(&s("R1")));
    assert_eq!(j.get("data").unwrap().get("gain"), Some(&num("-20")));
    let bare = Request::new("network", Method::Subscribe).to_json();
    assert_eq!(bare.get("data"), None);
    assert_eq!(bare.get("meta").unwrap().get("targetType"), None);
    assert_eq!(bare.get("meta").unwrap().get("method"), Some(&s("subscribe")));
}

#[test]
fn fresh_requests_get_distinct_tokens() {
    let a = Request::new("network", Method::Read);
    let b = Request::new("network", Method::Read);
    assert_ne!(a.id(), b.id());
}

#[test]
fn response_decoding() {
    let resp = Response::from_json(&frame(TOKEN_TEXT, "notify", Some("network"), None)).unwrap();
    assert_eq!(resp.meta.id, TOKEN);
    assert_eq!(resp.meta.method, Method::Notify);
    assert_eq!(resp.meta.response_type, Some("network".to_string()));
    assert!(resp.data.is_none());
    let upper = Response::from_json(&frame("67E55044-10B1-426F-9247-BB680E5FE0C8", "read", None, None)).unwrap();
    assert_eq!(upper.meta.id, TOKEN);
    assert!(Response::from_json(&frame("not-a-uuid", "read", None, None)).is_none());
    assert!(Response::from_json(&frame(TOKEN_TEXT, "shout", None, None)).is_none());
    assert!(Response::from_json(&s("meta")).is_none());
    let null_data = obj(vec![
        ("meta", obj(vec![("id", s(TOKEN_TEXT)), ("method", s("read")), ("endpoint", JsonValue::Null)])),
        ("data", JsonValue::Null),
    ]);
    let r = Response::from_json(&null_data).unwrap();
    assert!(r.data.is_none());
    assert!(r.meta.endpoint.is_none());
    let bad_errors = obj(vec![
        ("meta", obj(vec![("id", s(TOKEN_TEXT)), ("method", s("read"))])),
        ("errors", arr(vec![obj(vec![("code", num("1"))])])),
    ]);
    assert!(Response::from_json(&bad_errors).is_none());
}

#[test]
fn method_names_round_trip() {
    for m in [
        Method::Read,
        Method::Write,
        Method::Update,
        Method::Subscribe,
        Method::Create,
        Method::Delete,
        Method::Select,
        Method::Notify,
    ] {
        assert_eq!(Method::from_name(m.name()), Some(m));
    }
    assert_eq!(Method::from_name("READ"), None);
}

#[test]
fn notification_decoding_picks_first_room() {
    let data = network_doc(vec![
        ("a", obj(vec![("type", s("device")), ("id", s("D1"))])),
        ("b", room_record("R2", "Hall")),
        ("c", room_record("R3", "Den")),
    ]);
    let resp = Response::from_json(&frame(TOKEN_TEXT, "notify", Some("network"), Some(data))).unwrap();
    match parse_state_update(&resp) {
        Some(StateUpdate::RoomUpdate(v)) => assert_eq!(v.get("id"), Some(&s("R2"))),
        _ => panic!("expected a room update"),
    }
    let read = Response::from_json(&frame(TOKEN_TEXT, "read", Some("network"), None)).unwrap();
    assert!(parse_state_update(&read).is_none());
}

#[test]
fn discovery_reply_lists_addresses() {
    let data = obj(vec![(
        "local",
        obj(vec![
            ("dev-a", obj(vec![("localIp4", arr(vec![s("192.168.1.20"), num("5"), s("192.168.1.21")]))])),
            ("dev-b", obj(vec![("other", s("x"))])),
            ("dev-c", obj(vec![("localIp4", arr(vec![s("192.168.1.30")]))])),
        ]),
    )]);
    assert_eq!(
        parse_speaker_ips(&data),
        Some(vec!["192.168.1.20".to_string(), "192.168.1.21".to_string(), "192.168.1.30".to_string()])
    );
    assert_eq!(parse_speaker_ips(&obj(vec![("local", obj(vec![]))])), None);
    assert_eq!(parse_speaker_ips(&obj(vec![("local", s("x"))])), None);
    let reply = frame(TOKEN_TEXT, "read", None, Some(data));
    assert_eq!(plan_scan(&reply).unwrap().len(), 3);
    let empty = frame(TOKEN_TEXT, "read", None, None);
    assert_eq!(plan_scan(&empty).unwrap().len(), 0);
}

#[test]
fn discovery_reply_failures() {
    assert!(matches!(plan_scan(&s("garbage")), Err(AscendError::Json(_))));
    let with_errors = obj(vec![
        ("meta", obj(vec![("id", s(TOKEN_TEXT)), ("method", s("read"))])),
        ("errors", arr(vec![obj(vec![("detail", s("unauthorised"))])])),
    ]);
    match plan_scan(&with_errors) {
        Err(AscendError::ApiError { detail }) => assert_eq!(detail, "unauthorised"),
        other => panic!("unexpected {:?}", other),
    }
}

#[test]
fn device_url_and_requests() {
    assert_eq!(device_url("192.168.1.20", SPEAKER_PORT), "ws://192.168.1.20:8768");
    assert_eq!(device_url("h", 0), "ws://h:0");
    let resp = Response::from_json(&frame(TOKEN_TEXT, "read", None, None)).unwrap();
    assert!(matches!(network_data(resp), Err(AscendError::InvalidResponse(_))));
    let resp = Response::from_json(&frame(TOKEN_TEXT, "read", None, Some(s("d")))).unwrap();
    assert_eq!(network_data(resp).unwrap(), s("d"));
}

#[test]
fn client_rooms_require_a_room() {
    let none = network_doc(vec![("a", obj(vec![("type", s("device"))]))]);
    assert!(matches!(rooms_of_network(&none, "h"), Err(AscendError::InvalidResponse(_))));
    assert!(matches!(rooms_of_network(&obj(vec![]), "h"), Err(AscendError::InvalidResponse(m)) if m == "No state in network response"));
    assert!(matches!(rooms_of_network(&obj(vec![("state", num("1"))]), "h"), Err(AscendError::InvalidResponse(m)) if m == "State is not an object"));
    let some = network_doc(vec![("a", room_record("R1", "Kitchen")), ("b", obj(vec![("type", s("room"))]))]);
    assert_eq!(rooms_of_network(&some, "h").unwrap().len(), 1);
}

#[test]
fn lag_and_close_errors() {
    match RecvFailure::Lagged(3).into_error() {
        AscendError::ChannelError(m) => assert_eq!(m, "Lagged by 3 messages"),
        other => panic!("unexpected {:?}", other),
    }
    match RecvFailure::Lagged(120).into_error() {
        AscendError::ChannelError(m) => assert_eq!(m, "Lagged by 120 messages"),
        other => panic!("unexpected {:?}", other),
    }
    assert!(matches!(RecvFailure::Closed.into_error(), AscendError::ConnectionClosed));
}

#[test]
fn refresh_finds_room_by_id() {
    let data = network_doc(vec![("a", room_record("R1", "Kitchen"))]);
    let mut room = parse_rooms_from_network_data(&data, "h").unwrap().pop().unwrap();
    let newer = network_doc(vec![("x", room_record("R0", "Else")), ("y", room_record("R1", "Kitchen 2"))]);
    room.refresh_from(&newer).unwrap();
    assert_eq!(room.name(), "Kitchen 2");
    let missing = network_doc(vec![("x", room_record("R0", "Else"))]);
    assert!(matches!(room.refresh_from(&missing), Err(AscendError::RoomNotFound(id)) if id == "R1"));
    assert_eq!(room.name(), "Kitchen 2");
}

#[test]
fn room_commands() {
    let data = network_doc(vec![("a", room_record("R1", "Kitchen"))]);
    let room = parse_rooms_from_network_data(&data, "h").unwrap().pop().unwrap();
    let m = room.mute_request(true);
    assert_eq!(m.meta.endpoint, "mute");
    assert_eq!(m.meta.method, Method::Update);
    assert_eq!(m.meta.target_type, Some(TargetType::Room));
    assert_eq!(m.meta.target, Some("R1".to_string()));
    assert_eq!(
        m.data,
        Some(arr(vec![obj(vec![("mute", JsonValue::Bool(true)), ("positionID", s("global"))])]))
    );
    let p = room.preset_request("p1");
    assert_eq!(p.meta.endpoint, "preset2");
    assert_eq!(p.meta.method, Method::Select);
    assert_eq!(p.data, Some(obj(vec![("id", s("p1"))])));
    let v = room.voicing_request("Neutral");
    assert_eq!(v.meta.endpoint, "tone-control");
    assert_eq!(v.data, Some(obj(vec![("voicing", s("Neutral"))])));
    assert_eq!(room.standby_request(true).data, Some(obj(vec![("enable", JsonValue::Bool(true))])));
    assert_eq!(room.input_request("XLR").data, Some(obj(vec![("input", s("XLR"))])));
    assert_eq!(room.xlr_mode_request("aes").meta.endpoint, "selectedXLR");
    assert_eq!(room.linear_phase_request(false).meta.endpoint, "linear-phase");
    assert_eq!(room.gain_request(num("-3")).data, Some(obj(vec![("gain", num("-3"))])));
    assert_eq!(room.tone_request(obj(vec![])).meta.method, Method::Update);
}

#[test]
fn registry_lists_rooms_by_id() {
    let mut registry = RoomRegistry::new();
    let data = network_doc(vec![("a", room_record("b", "Second")), ("c", room_record("a", "First"))]);
    registry.merge_scanned(parse_rooms_from_network_data(&data, "h").unwrap());
    assert_eq!(registry.apply_update(&room_record("ab", "Middle"), "h"), Some("ab".to_string()));
    assert_eq!(registry.apply_update(&room_record("0", "Zero"), "h"), Some("0".to_string()));
    let ids: Vec<String> = registry.rooms().iter().map(|r| r.id()).collect();
    assert_eq!(ids, vec!["0", "a", "ab", "b"]);
    let mut core: DiscoveryCore<u32> = DiscoveryCore::new();
    core.merge_scanned(parse_rooms_from_network_data(&data, "h").unwrap());
    let ids: Vec<String> = core.rooms().iter().map(|r| r.id()).collect();
    assert_eq!(ids, vec!["a", "b"]);
}

#[test]
fn mute_positions_decode_sorted_and_distinct() {
    let record = obj(vec![
        ("id", s("R1")),
        ("name", s("Kitchen")),
        ("gain", obj(vec![("global", num("-10"))])),
        (
            "mute",
            obj(vec![
                ("right", JsonValue::Bool(true)),
                ("global", JsonValue::Bool(false)),
                ("left", JsonValue::Bool(true)),
                ("right", JsonValue::Bool(false)),
            ]),
        ),
        ("members", obj(vec![("dev-b", s("right")), ("dev-a", s("left")), ("dev-b", s("sub"))])),
    ]);
    let st = parse_room_state(&record).unwrap();
    assert_eq!(st.mute.position_ids(), vec!["left", "right"]);
    assert_eq!(st.mute.position("right"), Some(false));
    assert_eq!(st.mute.position("left"), Some(true));
    assert!(!st.mute.global);
    assert_eq!(
        st.members,
        vec![("dev-a".to_string(), "left".to_string()), ("dev-b".to_string(), "sub".to_string())]
    );
}

#[test]
fn members_with_a_non_string_value_are_dropped() {
    let record = obj(vec![
        ("id", s("R1")),
        ("name", s("Kitchen")),
        ("gain", obj(vec![("global", num("-10"))])),
        ("mute", obj(vec![("global", JsonValue::Bool(false))])),
        ("members", obj(vec![("dev-a", s("left")), ("dev-b", num("2"))])),
    ]);
    assert!(parse_room_state(&record).unwrap().members.is_empty());
}

#[test]
fn ids_sort_by_code_point() {
    let mut registry = RoomRegistry::new();
    for id in ["é", "Z", "a", "", "aa"] {
        registry.apply_update(&room_record(id, "x"), "h");
    }
    let ids: Vec<String> = registry.rooms().iter().map(|r| r.id()).collect();
    let mut expected: Vec<String> = vec!["é", "Z", "a", "", "aa"].into_iter().map(String::from).collect();
    expected.sort();
    assert_eq!(ids, expected);
}
