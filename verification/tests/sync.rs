use dashboard::codec::{decode_message, encode_message, Message};
use dashboard::dashboard::Dashboard;
use dashboard::gateway::{
    dashboard_name_from_resource, frame_for_lookup, handle_client_frame, listener_frame,
    listener_on_event, on_open_plan, upsert_and_notify, Lookup, OpenPlan,
};
use dashboard::store::{get_dashboard_channel, Store};

const PREFIX: &str = "dashboard-events";

fn test_store() -> Store {
    let mut store = Store::new(PREFIX.to_string());
    let dashboard = Dashboard::new(
        "dashboard-test".to_string(),
        "login@email.com".to_string(),
        "2x4".to_string(),
    );
    store.upsert_dashboard(&dashboard).unwrap();
    store
}

fn json_eq(a: &str, b: &str) {
    assert_eq!(
        serde_json::from_str::<serde_json::Value>(a).unwrap(),
        serde_json::from_str::<serde_json::Value>(b).unwrap()
    );
}

#[test]
fn ws_sends_tile_data_when_it_is_requested() {
    let mut store = test_store();
    let dashboard_name = "dashboard-test".to_string();
    store
        .upsert_tile(&dashboard_name, "tile-test", "{\"tile-data\": {}}")
        .unwrap();

    // The client requests data from the server.
    let client_msg = Message {
        kind: format!("update"),
        text: format!("[\"tile-test\"]"),
    };
    let raw = encode_message(&client_msg);
    let frames = handle_client_frame(&store, Some(&dashboard_name), &raw);

    // It receives the update of the tile data.
    assert_eq!(frames.len(), 1);
    let msg = &frames[0];
    assert_eq!(msg.kind, "tile");
    json_eq(&msg.text, "{\"tile-id\": \"tile-test\", \"tile-data\": {}}");
}

#[test]
fn update_response_survives_the_wire() {
    let mut store = test_store();
    let dashboard_name = "dashboard-test".to_string();
    store
        .upsert_tile(&dashboard_name, "tile-test", "{\"tile-data\":{}}")
        .unwrap();

    let request = encode_message(&Message {
        kind: "update".to_string(),
        text: "[\"tile-test\"]".to_string(),
    });
    let frames = handle_client_frame(&store, Some(&dashboard_name), &request);

    assert_eq!(frames.len(), 1);
    let sent = encode_message(&frames[0]);
    let received = decode_message(&sent).unwrap();
    assert_eq!(received.kind, "tile");
    json_eq(&received.text, "{\"tile-id\":\"tile-test\",\"tile-data\":{}}");
}

#[test]
fn publish_pushes_the_tile_to_the_open_session() {
    // Same setup as the request test, with a subscribed session; a second,
    // independent actor writes the tile, and the session receives the same
    // frame without having sent any request.
    let mut store = test_store();
    let channel = get_dashboard_channel(PREFIX, "dashboard-test");
    store.subscribe(7, &channel);

    let deliveries = upsert_and_notify(
        &mut store,
        "dashboard-test",
        "tile-test",
        "{\"tile-data\": {}}",
    )
    .unwrap();

    assert_eq!(deliveries.len(), 1);
    let (session, frame) = &deliveries[0];
    assert_eq!(*session, 7);
    assert_eq!(frame.kind, "tile");
    json_eq(&frame.text, "{\"tile-id\": \"tile-test\", \"tile-data\": {}}");
}

#[test]
fn publish_reaches_every_subscribed_session_once() {
    let mut store = test_store();
    let channel = get_dashboard_channel(PREFIX, "dashboard-test");
    let other = get_dashboard_channel(PREFIX, "dashboard-other");
    store.subscribe(1, &channel);
    store.subscribe(2, &other);
    store.subscribe(3, &channel);

    let deliveries =
        upsert_and_notify(&mut store, "dashboard-test", "tile-test", "{\"a\":1}").unwrap();

    let sessions: Vec<u64> = deliveries.iter().map(|d| d.0).collect();
    assert_eq!(sessions, vec![1, 3]);
    for (_, frame) in &deliveries {
        assert_eq!(frame.kind, "tile");
        json_eq(&frame.text, "{\"a\":1,\"tile-id\":\"tile-test\"}");
    }
}

#[test]
fn update_of_missing_tile_gives_one_error_frame() {
    // An update naming a tile id never written returns one error frame and
    // never a tile frame.
    let store = test_store();
    let dashboard_name = "dashboard-test".to_string();

    let raw = encode_message(&Message {
        kind: "update".to_string(),
        text: "[\"tile-missing\"]".to_string(),
    });
    let frames = handle_client_frame(&store, Some(&dashboard_name), &raw);

    assert_eq!(frames.len(), 1);
    assert_eq!(frames[0].kind, "error");
    assert_eq!(frames[0].text, "FAILED tile data doesn't exist");
}

#[test]
fn update_gives_one_frame_per_id_in_request_order() {
    let mut store = test_store();
    let dashboard_name = "dashboard-test".to_string();
    store
        .upsert_tile(&dashboard_name, "tile-a", "{\"n\":1}")
        .unwrap();
    store
        .upsert_tile(&dashboard_name, "tile-c", "{\"n\":3}")
        .unwrap();

    let raw = encode_message(&Message {
        kind: "update".to_string(),
        text: "[\"tile-a\",\"tile-b\",\"tile-c\"]".to_string(),
    });
    let frames = handle_client_frame(&store, Some(&dashboard_name), &raw);

    assert_eq!(frames.len(), 3);
    assert_eq!(frames[0].kind, "tile");
    json_eq(&frames[0].text, "{\"n\":1,\"tile-id\":\"tile-a\"}");
    assert_eq!(frames[1].kind, "error");
    assert_eq!(frames[1].text, "FAILED tile data doesn't exist");
    assert_eq!(frames[2].kind, "tile");
    json_eq(&frames[2].text, "{\"n\":3,\"tile-id\":\"tile-c\"}");
}

#[test]
fn malformed_frame_gives_one_error_and_session_goes_on() {
    let mut store = test_store();
    let dashboard_name = "dashboard-test".to_string();
    store
        .upsert_tile(&dashboard_name, "tile-test", "{\"tile-data\":{}}")
        .unwrap();

    for raw in [
        "not json",
        "{\"kind\":\"update\"}",
        "{\"kind\":5,\"text\":\"[]\"}",
        "",
    ] {
        let frames = handle_client_frame(&store, Some(&dashboard_name), raw);
        assert_eq!(frames.len(), 1);
        assert_eq!(frames[0].kind, "error");
    }

    // The session still accepts further frames after each failure.
    let raw = encode_message(&Message {
        kind: "update".to_string(),
        text: "[\"tile-test\"]".to_string(),
    });
    let frames = handle_client_frame(&store, Some(&dashboard_name), &raw);
    assert_eq!(frames.len(), 1);
    assert_eq!(frames[0].kind, "tile");
}

#[test]
fn unknown_kind_gives_one_error_naming_it() {
    let store = test_store();
    let dashboard_name = "dashboard-test".to_string();

    let raw = encode_message(&Message {
        kind: "bogus".to_string(),
        text: "".to_string(),
    });
    let frames = handle_client_frame(&store, Some(&dashboard_name), &raw);

    assert_eq!(frames.len(), 1);
    assert_eq!(frames[0].kind, "error");
    assert_eq!(frames[0].text, "Unknown message kind: (bogus)");
}

#[test]
fn unparsable_id_list_gives_one_error() {
    let store = test_store();
    let dashboard_name = "dashboard-test".to_string();

    let raw = encode_message(&Message {
        kind: "update".to_string(),
        text: "tile-test".to_string(),
    });
    let frames = handle_client_frame(&store, Some(&dashboard_name), &raw);

    assert_eq!(frames.len(), 1);
    assert_eq!(frames[0].kind, "error");
    assert_eq!(frames[0].text, "FAILED unjsoning: 'tile-test'");
}

#[test]
fn handshake_resource_names_the_dashboard() {
    assert_eq!(dashboard_name_from_resource("/dashboard-test"), "dashboard-test");
    assert_eq!(dashboard_name_from_resource("/a/b/"), "a/b");
    assert_eq!(dashboard_name_from_resource("///x///"), "x");
    assert_eq!(dashboard_name_from_resource("plain"), "plain");
    assert_eq!(dashboard_name_from_resource("/"), "");
}

#[test]
fn open_spawns_one_listener_on_the_dashboard_channel() {
    let name = "dashboard-test".to_string();

    match on_open_plan(Some(&name), PREFIX) {
        OpenPlan::Subscribe(channel) => {
            assert_eq!(channel, "dashboard-events:dashboard-test");
        }
        _ => panic!("expected a listener"),
    }
}

#[test]
fn open_without_a_name_errors_and_spawns_nothing() {
    let empty = String::new();
    for plan in [on_open_plan(None, PREFIX), on_open_plan(Some(&empty), PREFIX)] {
        match plan {
            OpenPlan::Reject(m) => {
                assert_eq!(m.kind, "error");
                assert_eq!(m.text, "Can't find dashboard name");
            }
            _ => panic!("expected a rejection"),
        }
    }
}

#[test]
fn listener_round_answers_a_published_id() {
    let mut store = test_store();
    store
        .upsert_tile("dashboard-test", "tile-test", "{\"tile-data\":{}}")
        .unwrap();

    let hit = listener_on_event(&store, "dashboard-test", "tile-test");
    assert_eq!(hit.kind, "tile");
    json_eq(&hit.text, "{\"tile-id\":\"tile-test\",\"tile-data\":{}}");

    let miss = listener_on_event(&store, "dashboard-test", "tile-gone");
    assert_eq!(miss.kind, "error");
    assert_eq!(miss.text, "Tile doesn't exists: tile-gone");
}

#[test]
fn rejected_payload_reaches_no_session() {
    let mut store = test_store();
    let channel = get_dashboard_channel(PREFIX, "dashboard-test");
    store.subscribe(7, &channel);

    let r = upsert_and_notify(&mut store, "dashboard-test", "tile-test", "not json");

    assert_eq!(r.unwrap_err(), "Payload is not an object");
    assert!(store.get_tile("dashboard-test", "tile-test").is_none());
}

#[test]
fn store_failure_becomes_one_error_frame() {
    let m = frame_for_lookup("tile-x", Lookup::Failed("boom".to_string()));
    assert_eq!(m.kind, "error");
    assert_eq!(m.text, "FAILED getting value for tile-x (boom)");

    let m = listener_frame("tile-x", Lookup::Failed("boom".to_string()));
    assert_eq!(m.kind, "error");
    assert_eq!(m.text, "Can't get tile data");
}

#[test]
fn store_addressing_is_exact() {
    let store = Store::new("events".to_string());
    assert_eq!(store.get_tile_space("dash", "tile"), "dash:tile");
    assert_eq!(get_dashboard_channel("events", "dash"), "events:dash");
    assert_eq!(dashboard::store::redis_url("h:1"), "redis://h:1/");
}
