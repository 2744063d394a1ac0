//! The signaling server: tokens, rooms, messages, pages and settings.

use ai_remote::access::{bearer_token, setup_credentials, token_matches, valid_room, Access};
use ai_remote::ice::{build_ice_servers, split_urls, BrowserServer};
use ai_remote::json::Json;
use ai_remote::rooms::{Peer, Refusal, Role, Room, Rooms, MAX_ROOMS};
use ai_remote::signaling::{
    accepts, validate_signal, write_notice, write_ready, Connection, Incoming, Notice, Outcome,
    Signal, SILENCE_NANOS, WINDOW_NANOS,
};
use ai_remote::site::{
    asset_path_of, asset_policy, cache_policy, resolve_host_info, serve_asset, setup_response, startup_links,
    startup_token_shown, Asset, PageHeaders, Site,
};
use ai_remote::startup::{SettingsErrorOf, SignalingEnvironment, SignalingSettings};
use ai_remote::table::Table;

fn value(text: &str) -> serde_json::Value {
    serde_json::from_str(text).unwrap()
}

fn object(members: &[(&str, &str)]) -> Json {
    Json::Object(
        members
            .iter()
            .map(|(name, text)| (name.to_string(), text.to_string()))
            .collect(),
    )
}

#[test]
fn validates_room_and_signaling_role() {
    assert!(valid_room("home_1-a"));
    assert!(!valid_room("../home"));
    assert!(!valid_room(""));
    let offer = object(&[
        ("type", r#""offer""#),
        ("session", r#""s1""#),
        ("sdp", r#""test""#),
    ]);
    assert!(validate_signal(&offer, Role::Browser));
    assert!(!validate_signal(&offer, Role::Home));
    assert!(!validate_signal(
        &object(&[("type", r#""offer""#), ("sdp", r#""test""#)]),
        Role::Browser
    ));
}

fn test_access(token: &str, room_tokens: &[(&str, &str)]) -> Access {
    let mut table = Table::new();
    for (room, token) in room_tokens {
        table.insert(room.to_string(), token.to_string());
    }
    Access {
        token: token.to_string(),
        default_room: "default".to_string(),
        room_tokens: table,
    }
}

fn bearer(value: &str) -> Option<String> {
    Some(value.to_string())
}

fn server(urls: &[&str], login: Option<(&str, &str)>) -> (Vec<String>, Option<(String, String)>) {
    (
        urls.iter().map(|url| url.to_string()).collect(),
        login.map(|(user, pass)| (user.to_string(), pass.to_string())),
    )
}

fn plain(servers: Vec<BrowserServer>) -> Vec<(Vec<String>, Option<(String, String)>)> {
    servers
        .into_iter()
        .map(|server| (server.urls, server.login))
        .collect()
}

#[test]
fn builds_browser_style_ice_servers_for_both_peers() {
    let servers = build_ice_servers(
        Some("stun:1.2.3.4:3478"),
        Some("turn:1.2.3.4:3478?transport=udp, turn:1.2.3.4:3478?transport=tcp"),
        Some("user"),
        Some("pass"),
    )
    .unwrap_or_default();
    let ready = value(&write_ready(false, &servers));
    assert_eq!(
        ready["iceServers"],
        value(
            r#"[
                {"urls": ["stun:1.2.3.4:3478"]},
                {"urls": ["turn:1.2.3.4:3478?transport=udp", "turn:1.2.3.4:3478?transport=tcp"], "username": "user", "credential": "pass"}
            ]"#
        )
    );
    assert_eq!(
        plain(servers),
        [
            server(&["stun:1.2.3.4:3478"], None),
            server(
                &[
                    "turn:1.2.3.4:3478?transport=udp",
                    "turn:1.2.3.4:3478?transport=tcp"
                ],
                Some(("user", "pass"))
            )
        ]
    );
    assert!(build_ice_servers(None, None, None, None).is_ok_and(|servers| servers.is_empty()));
    assert!(build_ice_servers(None, Some("turn:1.2.3.4:3478"), None, None).is_err());
    assert!(build_ice_servers(Some("http://1.2.3.4"), None, None, None).is_err());
    assert!(build_ice_servers(None, Some("stun:1.2.3.4"), Some("u"), Some("p")).is_err());
}

#[test]
fn names_what_is_wrong_with_ice_settings() {
    let words = |stun, turn, user| {
        build_ice_servers(stun, turn, user, Some("p"))
            .err()
            .unwrap()
            .message()
    };
    assert_eq!(words(Some("x"), Some("y"), None), "STUN_URL entries must start with stun:");
    assert_eq!(
        words(None, Some("stun:y"), None),
        "TURN_URL entries must start with turn: or turns:"
    );
    assert_eq!(
        words(None, Some("turns:y"), None),
        "TURN_URL requires TURN_USER and TURN_PASS"
    );
}

#[test]
fn splits_lists_at_commas_and_white_space() {
    assert_eq!(split_urls(Some("a, b\tc,,\n d ")), ["a", "b", "c", "d"]);
    assert_eq!(split_urls(Some("a\u{3000}b")), ["a", "b"]);
    assert!(split_urls(Some(" , ")).is_empty());
    assert!(split_urls(None).is_empty());
}

#[test]
fn compares_tokens() {
    assert!(token_matches("0123456789abcdef", "0123456789abcdef"));
    assert!(!token_matches("0123456789abcdeF", "0123456789abcdef"));
    assert!(!token_matches("0123456789abcde", "0123456789abcdef"));
    assert!(!token_matches("", ""));
    assert!(token_matches("密钥", "密钥"));
}

#[test]
fn setup_details_require_the_room_token() {
    let access = test_access("0123456789abcdef", &[]);
    assert!(setup_credentials(&access, &None).is_none());
    assert!(setup_credentials(&access, &bearer("Bearer wrong-token-000000")).is_none());
    assert!(setup_credentials(&access, &bearer("0123456789abcdef")).is_none());
    assert_eq!(
        setup_credentials(&access, &bearer("Bearer 0123456789abcdef")),
        Some(("default".into(), "0123456789abcdef".into()))
    );
    let access = test_access("", &[("r1", "room-one-secret-0001")]);
    assert_eq!(
        setup_credentials(&access, &bearer("Bearer room-one-secret-0001")),
        Some(("r1".into(), "room-one-secret-0001".into()))
    );
    assert!(setup_credentials(&access, &bearer("Bearer ")).is_none());
}

#[test]
fn takes_the_token_out_of_the_header() {
    assert_eq!(bearer_token(&bearer("Bearer  abc ")).as_deref(), Some("abc"));
    assert_eq!(bearer_token(&bearer("Bearer ")).as_deref(), Some(""));
    assert_eq!(bearer_token(&bearer("bearer abc")), None);
    assert_eq!(bearer_token(&None), None);
}

#[test]
fn entry_html_is_revalidated_and_hashed_assets_are_immutable() {
    assert_eq!(cache_policy("/", 200), Some("no-cache"));
    assert_eq!(cache_policy("/index.html", 200), Some("no-cache"));
    assert_eq!(
        cache_policy("/assets/index-abc.js", 200),
        Some("public, max-age=31536000, immutable")
    );
    assert_eq!(cache_policy("/assets/index-old.js", 404), Some("no-cache"));
    assert_eq!(cache_policy("/api/setup", 200), Some("no-store"));
    assert_eq!(cache_policy("/setup", 200), Some("no-store"));
    assert_eq!(cache_policy("/ws", 101), None);
}

#[test]
fn old_cleanup_does_not_remove_a_replacement() {
    let access = test_access("test", &[]);
    let mut rooms = Rooms::new();
    let current: u128 = 1;
    assert_eq!(
        rooms.let_in(&access, "test", Role::Browser, "test", current),
        Ok(())
    );
    rooms.activate("test", Role::Browser);
    assert_eq!(rooms.cleanup("test", Role::Browser, 2), None);
    assert_eq!(
        rooms.get("test").unwrap().browser.as_ref().unwrap().id,
        current
    );
    rooms.cleanup("test", Role::Browser, current);
    assert_eq!(rooms.len(), 0);
}

#[test]
fn refuses_peers() {
    let access = test_access("0123456789abcdef", &[]);
    let mut rooms = Rooms::new();
    let refused = |rooms: &mut Rooms, room: &str, token: &str| {
        rooms
            .connect(&access, room, Role::Home, token)
            .err()
            .unwrap()
    };
    let unauthorized = refused(&mut rooms, "bad room", "wrong");
    assert_eq!(unauthorized, Refusal::Unauthorized);
    assert_eq!(unauthorized.status(), 401);
    assert_eq!(unauthorized.message(), "invalid room or token");
    let invalid = refused(&mut rooms, "bad room", "0123456789abcdef");
    assert_eq!(invalid, Refusal::InvalidRoom);
    assert_eq!(invalid.status(), 400);
    assert_eq!(invalid.message(), "invalid room");
    assert!(rooms.connect(&access, "room", Role::Home, "0123456789abcdef").is_ok());
    let taken = refused(&mut rooms, "room", "0123456789abcdef");
    assert_eq!(taken, Refusal::Taken);
    assert_eq!(taken.status(), 409);
    assert_eq!(taken.message(), "role already connected");
    for i in 1..MAX_ROOMS {
        assert!(rooms
            .connect(&access, &format!("r{i}"), Role::Browser, "0123456789abcdef")
            .is_ok());
    }
    let full = refused(&mut rooms, "one-more", "0123456789abcdef");
    assert_eq!(full, Refusal::Full);
    assert_eq!(full.status(), 503);
    assert_eq!(full.message(), "room capacity reached");
    // A room that is there already has room for the other side.
    assert!(rooms.connect(&access, "r1", Role::Home, "0123456789abcdef").is_ok());
}

#[test]
fn gives_peers_different_numbers() {
    let access = test_access("0123456789abcdef", &[]);
    let mut rooms = Rooms::new();
    let home = rooms.connect(&access, "a", Role::Home, "0123456789abcdef").unwrap();
    let browser = rooms.connect(&access, "a", Role::Browser, "0123456789abcdef").unwrap();
    assert_ne!(home, browser);
    assert_eq!(
        rooms.get("a"),
        Some(Room {
            home: Some(Peer { id: home, active: false }),
            browser: Some(Peer { id: browser, active: false }),
        })
    );
}

#[test]
fn a_room_token_opens_its_room_alone() {
    let access = test_access("", &[("a", "token-of-room-aaaa"), ("b", "token-of-room-bbbb")]);
    assert!(access.authorizes("a", "token-of-room-aaaa"));
    assert!(!access.authorizes("b", "token-of-room-aaaa"));
    assert!(!access.authorizes("c", "token-of-room-aaaa"));
    assert!(!access.authorizes("c", ""));
}

#[test]
fn peers_find_each_other() {
    let access = test_access("0123456789abcdef", &[]);
    let mut rooms = Rooms::new();
    rooms.let_in(&access, "a", Role::Home, "0123456789abcdef", 1).unwrap();
    assert_eq!(rooms.activate("a", Role::Home), None);
    assert_eq!(rooms.target("a", Role::Home), None);
    rooms.let_in(&access, "a", Role::Browser, "0123456789abcdef", 2).unwrap();
    assert_eq!(rooms.target("a", Role::Home), None);
    assert_eq!(rooms.activate("a", Role::Browser), Some(1));
    assert_eq!(rooms.target("a", Role::Home), Some(2));
    assert_eq!(rooms.target("a", Role::Browser), Some(1));
    assert_eq!(rooms.target("b", Role::Browser), None);
    assert_eq!(rooms.cleanup("a", Role::Home, 1), Some(2));
    assert_eq!(rooms.cleanup("a", Role::Browser, 2), None);
    assert_eq!(rooms.len(), 0);
}

#[test]
fn a_peer_that_never_opened_leaves_in_silence() {
    let access = test_access("0123456789abcdef", &[]);
    let mut rooms = Rooms::new();
    rooms.let_in(&access, "a", Role::Home, "0123456789abcdef", 1).unwrap();
    rooms.activate("a", Role::Home);
    rooms.let_in(&access, "a", Role::Browser, "0123456789abcdef", 2).unwrap();
    assert_eq!(rooms.cleanup("a", Role::Browser, 2), None);
    assert_eq!(rooms.len(), 1);
}

fn signal(kind: &str, session: &str, sdp: Option<&str>, has_candidate: bool) -> Signal {
    Signal {
        kind: Some(kind.to_string()),
        session: session.to_string(),
        sdp: sdp.map(str::to_string),
        has_candidate,
    }
}

#[test]
fn tells_which_messages_are_passed_on() {
    assert!(accepts(&signal("answer", "s", Some("x"), false), Role::Home));
    assert!(!accepts(&signal("answer", "s", Some("x"), false), Role::Browser));
    assert!(!accepts(&signal("answer", "s", Some(""), false), Role::Home));
    assert!(!accepts(&signal("offer", "s", None, false), Role::Browser));
    assert!(accepts(&signal("ice", "s", None, true), Role::Home));
    assert!(!accepts(&signal("ice", "s", None, false), Role::Home));
    assert!(accepts(&signal("hangup", "s", None, false), Role::Browser));
    assert!(!accepts(&signal("ready", "s", None, false), Role::Browser));
    assert!(accepts(&signal("hangup", &"s".repeat(64), None, false), Role::Browser));
    assert!(!accepts(&signal("hangup", &"s".repeat(65), None, false), Role::Browser));
    assert!(!accepts(&signal("hangup", &"é".repeat(33), None, false), Role::Browser));
}

fn reply(outcome: Outcome) -> serde_json::Value {
    match outcome {
        Outcome::Reply(text) => value(&text),
        _ => panic!("no reply"),
    }
}

#[test]
fn handles_what_comes_over_a_connection() {
    let access = test_access("0123456789abcdef", &[]);
    let mut rooms = Rooms::new();
    rooms.let_in(&access, "a", Role::Browser, "0123456789abcdef", 1).unwrap();
    rooms.activate("a", Role::Browser);
    let mut connection = Connection::new(0);
    let mut text = |rooms: &Rooms, text: &str| {
        connection.on_message(Incoming::Text(text.to_string()), rooms, "a", Role::Browser, 0)
    };
    assert_eq!(reply(text(&rooms, r#"{"type":"ping"}"#)), value(r#"{"type":"pong"}"#));
    assert_eq!(
        reply(text(&rooms, r#"{"type":"answer","session":"s","sdp":"x"}"#)),
        value(r#"{"type":"error","message":"invalid signaling message"}"#)
    );
    let offer = r#"{"type":"offer","session":"s","sdp":"x"}"#;
    assert_eq!(reply(text(&rooms, offer)), value(r#"{"type":"peer-unavailable"}"#));
    rooms.let_in(&access, "a", Role::Home, "0123456789abcdef", 2).unwrap();
    rooms.activate("a", Role::Home);
    assert!(matches!(text(&rooms, offer), Outcome::Forward(2)));
    assert!(matches!(
        text(&rooms, r#"{"type":"ice","session":"s","candidate":{}}"#),
        Outcome::Forward(2)
    ));
    // A candidate is an object, however deep it is.
    let inner = format!("{}{}", "[".repeat(120), "]".repeat(120));
    let deep = format!(
        r#"{}{{"$serde_json::private::RawValue":"{inner}"}}{}"#,
        r#"{"a":"#.repeat(20),
        "}".repeat(20)
    );
    assert!(matches!(
        text(&rooms, &format!(r#"{{"type":"ice","session":"s","candidate":{deep}}}"#)),
        Outcome::Forward(2)
    ));
    for other in ["null", "1", "\"{\"", "[{}]", "true"] {
        let message = format!(r#"{{"type":"ice","session":"s","candidate":{other}}}"#);
        assert_eq!(
            reply(text(&rooms, &message)),
            value(r#"{"type":"error","message":"invalid signaling message"}"#)
        );
    }
    assert!(matches!(text(&rooms, "{"), Outcome::Close));
    let mut connection = Connection::new(0);
    let mut on = |message: Incoming| connection.on_message(message, &rooms, "a", Role::Browser, 9);
    assert!(matches!(on(Incoming::Ping(vec![1, 2])), Outcome::Pong(data) if data == [1, 2]));
    assert!(matches!(on(Incoming::Pong), Outcome::Nothing));
    assert!(matches!(on(Incoming::Binary), Outcome::Close));
    assert!(matches!(on(Incoming::Close), Outcome::Close));
    assert_eq!(connection.last_message, 9);
    assert_eq!(connection.count, 0);
}

#[test]
fn ends_a_connection_with_too_many_messages() {
    let mut connection = Connection::new(0);
    let ping = || Some(signal("ping", "", None, false));
    for _ in 0..128 {
        let outcome = connection.on_signal(ping(), Role::Home, None, WINDOW_NANOS - 1);
        assert!(matches!(outcome, Outcome::Reply(_)));
    }
    let mut later = connection;
    assert!(matches!(
        connection.on_signal(ping(), Role::Home, None, WINDOW_NANOS - 1),
        Outcome::Close
    ));
    // A new window of time begins the count anew.
    assert!(matches!(
        later.on_signal(ping(), Role::Home, None, WINDOW_NANOS),
        Outcome::Reply(_)
    ));
    assert_eq!(later.count, 1);
    assert_eq!(later.window, WINDOW_NANOS);
}

#[test]
fn notices_silence() {
    let connection = Connection::new(5);
    assert!(!connection.is_silent(SILENCE_NANOS + 5));
    assert!(connection.is_silent(SILENCE_NANOS + 6));
    assert!(!connection.is_silent(0));
}

#[test]
fn writes_notices() {
    assert_eq!(value(&write_notice(Notice::PeerLeft)), value(r#"{"type":"peer-left"}"#));
    assert_eq!(value(&write_notice(Notice::PeerJoined)), value(r#"{"type":"peer-joined"}"#));
    assert_eq!(
        value(&write_ready(true, &Vec::new())),
        value(r#"{"type":"ready","protocol":1,"peerOnline":true,"iceServers":[]}"#)
    );
}

fn headers(authorization: Option<&str>, host: Option<&str>, proto: Option<&str>) -> PageHeaders {
    PageHeaders {
        authorization: authorization.map(str::to_string),
        host: host.map(str::to_string),
        forwarded_proto: proto.map(str::to_string),
    }
}

fn site(public_host: &str) -> Site {
    Site {
        public_host: public_host.to_string(),
        stun_url: Some("stun:s".to_string()),
        turn_url: Some("turn:t".to_string()),
    }
}

#[test]
fn finds_the_host_of_links() {
    let info = |headers: PageHeaders, public: &str| {
        let info = resolve_host_info(&headers, public);
        (info.host, info.secure)
    };
    let none = || headers(None, None, None);
    assert_eq!(info(none(), ""), ("127.0.0.1:8080".to_string(), false));
    assert_eq!(
        info(headers(None, Some("h:1"), Some("https")), ""),
        ("h:1".to_string(), true)
    );
    assert_eq!(
        info(headers(None, Some("h:1"), Some("http")), "https://p.example"),
        ("p.example".to_string(), true)
    );
    assert_eq!(info(none(), "p.example:443"), ("p.example:443".to_string(), true));
    assert_eq!(info(none(), "http://p.example"), ("p.example".to_string(), false));
    assert_eq!(info(none(), "https://https://http://p"), ("p".to_string(), true));
    assert_eq!(info(none(), "http://https://p"), ("https://p".to_string(), false));
}

#[test]
fn shows_setup_details_to_whoever_knows_a_token() {
    let access = test_access("0123456789abcdef", &[]);
    let mut rooms = Rooms::new();
    rooms.let_in(&access, "a", Role::Home, "0123456789abcdef", 1).unwrap();
    rooms.activate("a", Role::Home);
    rooms.let_in(&access, "b", Role::Browser, "0123456789abcdef", 2).unwrap();
    let closed = setup_response(&access, &rooms, &site(""), &headers(None, Some("h"), None));
    assert!(!closed.authenticated);
    assert_eq!(closed.room, "default");
    assert_eq!(closed.signaling_ws, "ws://h/ws");
    assert_eq!(closed.setup_url, "http://h/setup");
    assert_eq!(closed.stun_url.as_deref(), Some("stun:s"));
    assert_eq!(closed.turn_url.as_deref(), Some("turn:t"));
    assert!(closed.token.is_none() && closed.web_url.is_none() && closed.active_rooms.is_none());
    assert!(closed.agent_cmd_sh.is_none() && closed.agent_cmd_ps.is_none());
    let open = setup_response(
        &access,
        &rooms,
        &site("https://p"),
        &headers(Some("Bearer 0123456789abcdef"), None, None),
    );
    assert!(open.authenticated);
    assert_eq!(open.token.as_deref(), Some("0123456789abcdef"));
    assert_eq!(
        open.web_url.as_deref(),
        Some("https://p/#room=default&token=0123456789abcdef")
    );
    assert_eq!(
        open.agent_cmd_sh.as_deref(),
        Some(r#"SIGNALING_URL="wss://p/ws" ROOM_ID="default" SIGNALING_TOKEN="0123456789abcdef" ai-remote-agent"#)
    );
    assert_eq!(
        open.agent_cmd_ps.as_deref(),
        Some(r#"$env:SIGNALING_URL="wss://p/ws"; $env:ROOM_ID="default"; $env:SIGNALING_TOKEN="0123456789abcdef"; ai-remote-agent"#)
    );
    let mut list: Vec<(String, bool, bool)> = open
        .active_rooms
        .unwrap()
        .into_iter()
        .map(|info| (info.name, info.has_home, info.has_browser))
        .collect();
    list.sort();
    assert_eq!(
        list,
        [("a".to_string(), true, false), ("b".to_string(), false, false)]
    );
}

#[test]
fn a_room_token_shows_its_own_room_alone() {
    let access = test_access("", &[("a", "token-of-room-aaaa"), ("b", "token-of-room-bbbb")]);
    let mut rooms = Rooms::new();
    rooms.let_in(&access, "a", Role::Home, "token-of-room-aaaa", 1).unwrap();
    rooms.let_in(&access, "b", Role::Home, "token-of-room-bbbb", 2).unwrap();
    let open = setup_response(
        &access,
        &rooms,
        &site(""),
        &headers(Some("Bearer token-of-room-bbbb"), None, None),
    );
    assert_eq!(open.room, "b");
    let list = open.active_rooms.unwrap();
    assert_eq!(list.len(), 1);
    assert_eq!(list[0].name, "b");
}

#[test]
fn prints_links_at_start() {
    let access = test_access("0123456789abcdef", &[("default", "token-of-the-room1")]);
    assert_eq!(startup_token_shown(&access), "token-of-the-room1");
    let access = test_access("0123456789abcdef", &[]);
    let links = startup_links(&access, &site(""), true, "8080", "0.0.0.0:8080");
    assert_eq!(
        links.web_url,
        "http://<YOUR_SERVER_IP>:8080/#room=default&token=0123456789abcdef"
    );
    assert_eq!(
        links.setup_url,
        "http://<YOUR_SERVER_IP>:8080/setup#token=0123456789abcdef"
    );
    assert_eq!(links.signaling_ws, "ws://<YOUR_SERVER_IP>:8080/ws");
    let links = startup_links(&access, &site(""), false, "8080", "10.0.0.1:8080");
    assert_eq!(links.signaling_ws, "ws://10.0.0.1:8080/ws");
    let links = startup_links(&access, &site("https://p"), true, "8080", "0.0.0.0:8080");
    assert_eq!(links.signaling_ws, "wss://p/ws");
    assert!(links.agent_sh.starts_with(r#"SIGNALING_URL="wss://p/ws""#));
    assert!(links.agent_ps.starts_with(r#"$env:SIGNALING_URL="wss://p/ws""#));
}

#[test]
fn serves_assets() {
    assert_eq!(asset_path_of("/"), "index.html");
    assert_eq!(asset_path_of("//assets/a.js"), "assets/a.js");
    assert!(matches!(
        serve_asset("/style.css", true, true),
        Asset::File(path, kind) if path == "style.css" && kind == "text/css"
    ));
    assert!(matches!(
        serve_asset("/unknown.zzzz", true, true),
        Asset::File(_, kind) if kind == "application/octet-stream"
    ));
    assert!(matches!(serve_asset("/missing", false, true), Asset::Index));
    assert!(matches!(serve_asset("/missing", false, false), Asset::Fallback));
}

#[test]
fn a_page_in_place_of_a_file_is_revalidated() {
    let hashed = "/assets/index-abc.js";
    let index = serve_asset(hashed, false, true);
    assert_eq!(asset_policy(hashed, 200, &index), Some("no-cache"));
    let fallback = serve_asset(hashed, false, false);
    assert_eq!(asset_policy(hashed, 200, &fallback), Some("no-cache"));
    let file = serve_asset(hashed, true, true);
    assert_eq!(
        asset_policy(hashed, 200, &file),
        Some("public, max-age=31536000, immutable")
    );
    assert_eq!(asset_policy("/", 200, &serve_asset("/", true, true)), Some("no-cache"));
    assert_eq!(asset_policy("/ws", 200, &file), None);
    for path in ["/api/unknown", "/setup", "/config"] {
        assert_eq!(asset_policy(path, 200, &index), Some("no-store"));
        assert_eq!(asset_policy(path, 200, &fallback), Some("no-store"));
    }
    assert_eq!(asset_policy("/chat", 200, &index), Some("no-cache"));
}

fn environment() -> SignalingEnvironment {
    SignalingEnvironment {
        room_tokens_json: None,
        signaling_token: None,
        room_id: None,
        public_host: None,
        public_ip: None,
        stun_url: None,
        turn_url: None,
        turn_user: None,
        turn_pass: None,
        signaling_bind: None,
    }
}

fn refusal(env: SignalingEnvironment) -> String {
    SignalingSettings::from_env(env).err().unwrap().message()
}

#[test]
fn makes_up_a_token_where_none_is_set() {
    let settings = SignalingSettings::from_env(environment()).ok().unwrap();
    assert!(settings.generated);
    assert_eq!(settings.access.token.len(), 32);
    assert!(settings
        .access
        .token
        .bytes()
        .all(|b| b.is_ascii_digit() || (b'a'..=b'f').contains(&b)));
    assert_eq!(settings.access.default_room, "default");
    assert_eq!(settings.bind, "0.0.0.0:8080");
    assert_eq!(settings.site.public_host, "");
    let other = SignalingSettings::from_env(environment()).ok().unwrap();
    assert_ne!(settings.access.token, other.access.token);
}

#[test]
fn reads_the_settings_of_the_signaling_server() {
    let mut env = environment();
    env.room_tokens_json = Some(r#"{"a":"token-of-room-aaaa","b":"token-of-room-bbbb"}"#.to_string());
    env.room_id = Some("a".to_string());
    env.public_ip = Some("1.2.3.4".to_string());
    env.stun_url = Some("stun:s".to_string());
    env.turn_url = Some(String::new());
    let settings = SignalingSettings::from_env(env).ok().unwrap();
    assert!(!settings.generated);
    assert_eq!(settings.access.token, "");
    assert_eq!(settings.access.room_tokens.len(), 2);
    assert_eq!(settings.site.public_host, "1.2.3.4");
    assert_eq!(settings.site.turn_url, None);
    assert_eq!(settings.ice_servers.len(), 1);
}

#[test]
fn names_what_is_wrong_with_the_settings() {
    let mut env = environment();
    env.room_tokens_json = Some("[]".to_string());
    assert!(refusal(env).contains("invalid type"));
    let mut env = environment();
    env.room_tokens_json = Some(r#"{"bad room":"token-of-room-aaaa"}"#.to_string());
    let words = "ROOM_TOKENS_JSON must contain room-specific secrets with valid names and at least 16 characters";
    assert_eq!(refusal(env), words);
    let mut env = environment();
    env.room_tokens_json = Some(r#"{"a":"short"}"#.to_string());
    assert_eq!(refusal(env), words);
    let mut env = environment();
    env.signaling_token = Some("short".to_string());
    assert_eq!(refusal(env), "SIGNALING_TOKEN must contain at least 16 characters");
    let mut env = environment();
    env.stun_url = Some("turn:x".to_string());
    assert_eq!(refusal(env), "STUN_URL entries must start with stun:");
    assert!(matches!(
        SignalingSettings::build(environment(), Table::new(), "short".to_string()),
        Err(SettingsErrorOf::TokenTooShort)
    ));
}
