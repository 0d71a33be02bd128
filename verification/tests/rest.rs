use dashboard::dashboard::Dashboard;
use dashboard::gateway::Lookup;
use dashboard::pages::{
    dashboard_post, dashboard_show_plan, message_response_json, tile_get_decision, tile_post,
    websocket_uri, ShowPlan,
};
use dashboard::store::Store;

const PREFIX: &str = "dashboard-events";

fn upsert_dashboard(store: &mut Store, dashboard_name: &str) -> Dashboard {
    let dashboard = Dashboard::new(
        dashboard_name.to_string(),
        "login@email.com".to_string(),
        "2x4".to_string(),
    );
    store.upsert_dashboard(&dashboard).unwrap();
    store.get_dashboard(dashboard_name).unwrap()
}

fn tile_get_setup() -> Store {
    let mut store = Store::new(PREFIX.to_string());
    let dashboard_name = "dashboard-test";
    let dashboard = upsert_dashboard(&mut store, dashboard_name);
    let api_key = dashboard.get_api_token().unwrap().clone();
    let (status, _) = tile_post(
        &mut store,
        dashboard_name,
        "tile-test",
        Some(&api_key),
        "{}",
    );
    assert_eq!(status, 201);
    store
}

fn lookup_in(store: &Store, dashboard_name: &str, tile_id: &str) -> Lookup {
    match store.get_tile(dashboard_name, tile_id) {
        Some(json) => Lookup::Found(json),
        None => Lookup::Missing,
    }
}

#[test]
fn tile_get_returns_200() {
    let store = tile_get_setup();

    let (status, body) = tile_get_decision(lookup_in(&store, "dashboard-test", "tile-test"));

    assert_eq!(status, 200);
    assert_eq!(body, "{\"tile-id\":\"tile-test\"}");
}

#[test]
fn tile_get_returns_404_when_dashboard_is_missing() {
    let store = tile_get_setup();

    let (status, _) = tile_get_decision(lookup_in(&store, "dashboard-missing", "tile-test"));

    assert_eq!(status, 404);
}

#[test]
fn tile_get_returns_404_when_tile_is_missing() {
    let store = tile_get_setup();

    let (status, _) = tile_get_decision(lookup_in(&store, "dashboard-test", "tile-missing"));

    assert_eq!(status, 404);
}

#[test]
fn tile_get_reports_a_store_failure() {
    let (status, body) = tile_get_decision(Lookup::Failed("store unreachable".to_string()));

    assert_eq!(status, 500);
    assert_eq!(body, "store unreachable");
}

#[test]
fn tile_post_returns_201() {
    let mut store = Store::new(PREFIX.to_string());
    let dashboard = upsert_dashboard(&mut store, "dashboard-test");
    let api_key = dashboard.get_api_token().unwrap().clone();

    let (status, _) = tile_post(&mut store, "dashboard-test", "tile_id", Some(&api_key), "{}");

    assert_eq!(status, 201);
}

#[test]
fn tile_post_saves_tile_id_in_tile_data() {
    let mut store = Store::new(PREFIX.to_string());
    let dashboard = upsert_dashboard(&mut store, "dashboard-test");
    let api_key = dashboard.get_api_token().unwrap().clone();
    let tile_data = "{}";

    let (status, _) = tile_post(
        &mut store,
        "dashboard-test",
        "tile-test",
        Some(&api_key),
        tile_data,
    );

    assert_eq!(status, 201);
    let json = store.get_tile("dashboard-test", "tile-test");
    assert_eq!(json, Some("{\"tile-id\":\"tile-test\"}".to_string()));
}

#[test]
fn tile_post_returns_400_when_json_invalid() {
    let mut store = Store::new(PREFIX.to_string());
    let dashboard = upsert_dashboard(&mut store, "dashboard-test");
    let api_key = dashboard.get_api_token().unwrap().clone();

    let (status, _) = tile_post(
        &mut store,
        "dashboard-test",
        "tile_id",
        Some(&api_key),
        "{,}",
    );

    assert_eq!(status, 400);
}

#[test]
fn tile_post_gives_err_when_token_missing() {
    let mut store = Store::new(PREFIX.to_string());
    upsert_dashboard(&mut store, "dashboard-test");

    let (status, body) = tile_post(&mut store, "dashboard-test", "tile-test", None, "{}");

    assert_eq!(status, 403);
    assert_eq!(body, "Token missing");
}

#[test]
fn tile_post_gives_err_when_token_is_different() {
    let mut store = Store::new(PREFIX.to_string());
    upsert_dashboard(&mut store, "dashboard-test");
    let wrong = "incorrect-token".to_string();

    let (status, body) = tile_post(&mut store, "dashboard-test", "tile-test", Some(&wrong), "{}");

    assert_eq!(status, 403);
    assert_eq!(body, "Tokens unmatched");
}

#[test]
fn tile_post_rejects_a_payload_that_is_no_object() {
    let mut store = Store::new(PREFIX.to_string());
    let dashboard = upsert_dashboard(&mut store, "dashboard-test");
    let api_key = dashboard.get_api_token().unwrap().clone();

    let (status, body) = tile_post(&mut store, "dashboard-test", "tile-test", Some(&api_key), "5");

    assert_eq!(status, 500);
    assert_eq!(body, "We're working on fix");
    assert!(store.get_tile("dashboard-test", "tile-test").is_none());
}

#[test]
fn test_dashboard_post_creates_dashboard_when_ok() {
    let mut store = Store::new(PREFIX.to_string());
    let payload = Dashboard {
        name: "some-name".to_string(),
        owner_email: "some-dude@some-email.com".to_string(),
        layout: "single-tile".to_string(),
        api_token: None,
    };

    let (status, body) = dashboard_post(&mut store, Some(payload));

    assert_eq!(status, 201);
    let dashboard = store.get_dashboard("some-name").unwrap();
    assert_eq!(&dashboard.owner_email, "some-dude@some-email.com");
    let expected = format!(
        "{{\"message\":\"Dashboard is created! Save your personal token: {}\"}}",
        dashboard.get_api_token().unwrap()
    );
    assert_eq!(body, expected);
}

#[test]
fn dashboard_post_rejects_a_taken_name() {
    let mut store = Store::new(PREFIX.to_string());
    upsert_dashboard(&mut store, "some-name");
    let payload = Dashboard {
        name: "some-name".to_string(),
        owner_email: "other@some-email.com".to_string(),
        layout: "2x4".to_string(),
        api_token: None,
    };

    let (status, body) = dashboard_post(&mut store, Some(payload));

    assert_eq!(status, 400);
    assert_eq!(
        body,
        "{\"message\":\"Couldn't create dashboard (Dashboard some-name already exists)\"}"
    );
}

#[test]
fn dashboard_post_rejects_a_missing_payload() {
    let mut store = Store::new(PREFIX.to_string());

    let (status, body) = dashboard_post(&mut store, None);

    assert_eq!(status, 400);
    assert_eq!(
        body,
        "{\"message\":\"Couldn't create dashboard (Payload is missing)\"}"
    );
}

#[test]
fn message_response_escapes_the_details() {
    let body = message_response_json(false, "a \"quote\"");

    assert_eq!(
        body,
        "{\"message\":\"Couldn't create dashboard (a \\\"quote\\\")\"}"
    );
}

#[test]
fn test_dashboard_shows_created_dashboard() {
    let mut store = Store::new(PREFIX.to_string());
    let dashboard_name = "Uber-dashboard-name".to_string();
    let dashboard = Dashboard::new(
        dashboard_name.clone(),
        "login@email.com".to_string(),
        "2x4".to_string(),
    );
    store.create_dashboard(&dashboard).unwrap();

    let plan = dashboard_show_plan(&store, &dashboard_name, false, "localhost:9000");

    match plan {
        ShowPlan::Render {
            template,
            websocket_uri: uri,
            dashboard_name: name,
        } => {
            assert_eq!(template, "dashboards/2x4");
            assert_eq!(uri, "ws://localhost:9000");
            assert_eq!(name, "Uber-dashboard-name");
        }
        _ => panic!("expected the dashboard page"),
    }
}

#[test]
fn dashboard_show_reports_a_missing_dashboard() {
    let store = Store::new(PREFIX.to_string());

    match dashboard_show_plan(&store, "nope", true, "host") {
        ShowPlan::NotFound(m) => assert_eq!(m, "Dashboard missing"),
        _ => panic!("expected a miss"),
    }
}

#[test]
fn websocket_uri_follows_the_ssl_switch() {
    assert_eq!(websocket_uri(false, "h:1"), "ws://h:1");
    assert_eq!(websocket_uri(true, "h:1"), "wss://h:1");
}

#[test]
fn api_tokens_are_hyphenated_uuids() {
    let d = Dashboard::new(
        "n".to_string(),
        "e@example.com".to_string(),
        "2x4".to_string(),
    );
    let token = d.get_api_token().unwrap();

    assert_eq!(token.len(), 36);
    assert!(token.chars().all(|c| c == '-' || c.is_ascii_hexdigit()));

    let mut d2 = d.clone();
    d2.assign_api_token();
    assert_ne!(d2.get_api_token(), d.get_api_token());
}
