//! The agent's connection to the signaling server.

use ai_remote::agent::{
    offered, write_answer, write_hangup, write_ice, AgentIncoming, AgentMessage, AgentStep,
    Backoff, Candidate, CandidateOf, ChannelGate, PeerState, Session, SessionError,
    SessionErrorOf, MAX_EARLY, STABLE_NANOS,
};
use ai_remote::config::Config;
use ai_remote::ice::{build_ice_servers, IceServer, RtcConfiguration};
use ai_remote::signaling::{write_ready, SILENCE_NANOS};

fn config() -> Config {
    Config {
        signaling: String::new(),
        rtc: RtcConfiguration {
            ice_servers: vec![IceServer::open(vec!["stun:local".to_string()])],
            relay: true,
        },
        base: String::new(),
        openai_base: String::new(),
        openai_api_key: None,
        allowed: Vec::new(),
        timeout: 600,
    }
}

fn value(text: &str) -> serde_json::Value {
    serde_json::from_str(text).unwrap()
}

fn candidate(text: &str) -> Candidate {
    CandidateOf {
        candidate: text.to_string(),
        sdp_mid: None,
        sdp_mline_index: None,
        username_fragment: None,
    }
}

fn text(session: &mut Session, text: &str) -> AgentStep {
    session.on_message(AgentIncoming::Text(text.to_string()), &config(), 1)
}

#[test]
fn uses_the_servers_that_were_signaled() {
    let servers = build_ice_servers(
        Some("stun:vps,stun:local"),
        Some("turn:vps?transport=udp turn:vps?transport=tcp turns:vps"),
        Some("u"),
        Some("p"),
    )
    .unwrap_or_default();
    let mut session = Session::new(0);
    assert!(matches!(text(&mut session, &write_ready(true, &servers)), AgentStep::Nothing));
    match text(&mut session, r#"{"type":"offer","session":"s1","sdp":"v=0"}"#) {
        AgentStep::Negotiate(offer) => {
            assert_eq!(offer.session, "s1");
            assert_eq!(offer.sdp.as_deref(), Some("v=0"));
            assert!(offer.rtc.relay);
            let urls: Vec<&str> = offer
                .rtc
                .ice_servers
                .iter()
                .flat_map(|server| server.urls.iter().map(String::as_str))
                .collect();
            assert_eq!(urls, ["stun:local", "stun:vps", "turn:vps?transport=udp"]);
            assert_eq!(offer.rtc.ice_servers[2].username, "u");
            assert_eq!(offer.rtc.ice_servers[2].credential, "p");
        }
        _ => panic!("no negotiation"),
    }
}

#[test]
fn an_ice_server_may_have_any_other_member() {
    let mut session = Session::new(0);
    let ready = r#"{"type":"ready","protocol":1,"iceServers":[
        {"urls":"stun:other","$serde_json::private::RawValue":"1","port":1e300,"deep":[[{}]]}
    ]}"#;
    assert!(matches!(text(&mut session, ready), AgentStep::Nothing));
    assert_eq!(session.signaled.len(), 1);
    assert_eq!(session.signaled[0].urls, ["stun:other"]);
}

#[test]
fn speaks_one_protocol() {
    let mut session = Session::new(0);
    for ready in [r#"{"type":"ready"}"#, r#"{"type":"ready","protocol":2}"#, r#"{"type":"ready","protocol":"1"}"#] {
        assert!(matches!(
            text(&mut session, ready),
            AgentStep::Fail(SessionErrorOf::Protocol)
        ));
    }
    assert!(matches!(
        text(&mut session, r#"{"type":"ready","protocol":1}"#),
        AgentStep::Nothing
    ));
}

#[test]
fn gives_up_on_what_it_cannot_read() {
    let mut session = Session::new(0);
    match text(&mut session, "{") {
        AgentStep::Fail(error) => {
            assert!(matches!(error, SessionErrorOf::NotJson(_)));
            assert_eq!(error.message(), "EOF while parsing an object at line 1 column 1");
        }
        _ => panic!("not given up"),
    }
    assert!(matches!(
        text(&mut session, &" ".repeat(65537)),
        AgentStep::Fail(SessionErrorOf::TooLarge)
    ));
    assert_eq!(SessionError::TooLarge.message(), "signaling message too large");
    assert_eq!(SessionError::Protocol.message(), "unsupported signaling protocol");
    assert_eq!(SessionError::Silence.message(), "signaling heartbeat timed out");
}

#[test]
fn passes_over_offers_without_a_session() {
    let mut session = Session::new(0);
    assert!(matches!(
        text(&mut session, r#"{"type":"offer","sdp":"x"}"#),
        AgentStep::Nothing
    ));
    let long = format!(r#"{{"type":"offer","session":"{}","sdp":"x"}}"#, "s".repeat(65));
    assert!(matches!(text(&mut session, &long), AgentStep::Nothing));
    // An offer without a description is negotiated, and fails then.
    assert!(matches!(
        text(&mut session, r#"{"type":"offer","session":"s"}"#),
        AgentStep::Negotiate(offer) if offer.sdp.is_none()
    ));
}

#[test]
fn hands_over_early_candidates_of_the_session() {
    let mut session = Session::new(0);
    let ice = |id: &str, candidate: &str| {
        format!(r#"{{"type":"ice","session":"{id}","candidate":{{"candidate":"{candidate}","sdpMid":"0","sdpMLineIndex":0}}}}"#)
    };
    for (id, name) in [("s", "one"), ("other", "two"), ("s", "three"), ("", "four")] {
        assert!(matches!(text(&mut session, &ice(id, name)), AgentStep::Nothing));
    }
    assert_eq!(session.early.len(), 3);
    let early = session.take_early("s");
    assert_eq!(early.len(), 2);
    assert_eq!(early[0].candidate, "one");
    assert_eq!(early[0].sdp_mid.as_deref(), Some("0"));
    assert_eq!(early[0].sdp_mline_index, Some(0));
    assert_eq!(early[0].username_fragment, None);
    assert_eq!(early[1].candidate, "three");
    assert!(session.early.is_empty());
    session.negotiated("s".to_string());
    assert!(matches!(
        text(&mut session, &ice("s", "five")),
        AgentStep::AddCandidate(candidate) if candidate.candidate == "five"
    ));
    assert!(matches!(text(&mut session, &ice("t", "six")), AgentStep::Nothing));
    // What is no candidate is passed over.
    assert!(matches!(
        text(&mut session, r#"{"type":"ice","session":"s","candidate":{"sdpMid":"0"}}"#),
        AgentStep::Nothing
    ));
    assert!(matches!(
        text(&mut session, r#"{"type":"ice","session":"s"}"#),
        AgentStep::Nothing
    ));
    assert_eq!(session.early.len(), 1);
}

#[test]
fn keeps_a_limited_number_of_early_candidates() {
    let mut session = Session::new(0);
    for _ in 0..MAX_EARLY + 5 {
        session.handle(
            AgentMessage::Ice("s".to_string(), Some(candidate("c"))),
            &config(),
        );
    }
    assert_eq!(session.early.len(), MAX_EARLY);
}

#[test]
fn closes_the_peer_when_the_browser_is_gone() {
    for gone in ["peer-left", "peer-unavailable"] {
        let mut session = Session::new(0);
        session.negotiated("s".to_string());
        session.handle(AgentMessage::Ice("t".to_string(), Some(candidate("c"))), &config());
        let message = format!(r#"{{"type":"{gone}"}}"#);
        assert!(matches!(text(&mut session, &message), AgentStep::ClosePeer));
        assert!(session.peer.is_none());
        assert!(session.early.is_empty());
    }
    let mut session = Session::new(0);
    session.negotiated("s".to_string());
    assert!(matches!(
        text(&mut session, r#"{"type":"hangup","session":"t"}"#),
        AgentStep::Nothing
    ));
    assert!(matches!(
        text(&mut session, r#"{"type":"hangup","session":"s"}"#),
        AgentStep::ClosePeer
    ));
    assert!(matches!(text(&mut session, r#"{"type":"error"}"#), AgentStep::Warn));
    assert!(matches!(text(&mut session, r#"{"type":"peer-joined"}"#), AgentStep::Nothing));
    assert!(matches!(text(&mut session, r#"{}"#), AgentStep::Nothing));
}

#[test]
fn a_new_offer_takes_the_place_of_the_peer() {
    let mut session = Session::new(0);
    session.negotiated("s".to_string());
    assert!(matches!(
        text(&mut session, r#"{"type":"offer","session":"t","sdp":"x"}"#),
        AgentStep::Negotiate(_)
    ));
    assert!(session.peer.is_none());
    session.negotiated("t".to_string());
    assert_eq!(session.peer_stopped().as_deref(), Some("t"));
    assert_eq!(session.peer_stopped(), None);
}

#[test]
fn handles_other_messages() {
    let mut session = Session::new(0);
    let mut on = |incoming: AgentIncoming| session.on_message(incoming, &config(), 7);
    assert!(matches!(on(AgentIncoming::Ping(vec![3])), AgentStep::Pong(data) if data == [3]));
    assert!(matches!(on(AgentIncoming::Other), AgentStep::Nothing));
    assert!(matches!(on(AgentIncoming::Close), AgentStep::End));
    assert!(matches!(on(AgentIncoming::Ended), AgentStep::End));
    assert_eq!(session.last_message, 7);
    assert!(session.on_heartbeat(SILENCE_NANOS + 7).is_ok());
    assert!(matches!(
        session.on_heartbeat(SILENCE_NANOS + 8),
        Err(SessionErrorOf::Silence)
    ));
}

#[test]
fn writes_its_messages() {
    assert_eq!(
        value(&write_answer("s", "v=0\r\n")),
        value(r#"{"type":"answer","session":"s","sdp":"v=0\r\n"}"#)
    );
    assert_eq!(value(&write_hangup("s")), value(r#"{"type":"hangup","session":"s"}"#));
    let init = webrtc::ice_transport::ice_candidate::RTCIceCandidateInit {
        candidate: "candidate:1".to_string(),
        sdp_mid: Some("0".to_string()),
        sdp_mline_index: None,
        username_fragment: Some("f".to_string()),
    };
    let mine = CandidateOf {
        candidate: init.candidate.clone(),
        sdp_mid: init.sdp_mid.clone(),
        sdp_mline_index: init.sdp_mline_index,
        username_fragment: init.username_fragment.clone(),
    };
    let message = value(&write_ice("s", &mine));
    assert_eq!(message["type"], "ice");
    assert_eq!(message["session"], "s");
    assert_eq!(message["candidate"], serde_json::to_value(&init).unwrap());
}

#[test]
fn stops_a_peer_connection_that_failed_or_closed() {
    for (state, stopped) in [
        (PeerState::Unspecified, false),
        (PeerState::New, false),
        (PeerState::Connecting, false),
        (PeerState::Connected, false),
        (PeerState::Disconnected, false),
        (PeerState::Failed, true),
        (PeerState::Closed, true),
    ] {
        assert_eq!(state.stops(), stopped);
    }
}

#[test]
fn an_offer_without_a_description_is_missing() {
    assert_eq!(offered(Some("v=0".to_string())), Ok("v=0".to_string()));
    assert_eq!(offered(None), Err("missing offer"));
}

#[test]
fn lets_one_channel_through() {
    let mut gate = ChannelGate::new();
    assert!(!gate.accept("other"));
    assert!(gate.accept("ollama"));
    assert!(!gate.accept("ollama"));
}

#[test]
fn waits_longer_and_longer() {
    let mut backoff = Backoff::new();
    let waits: Vec<u64> = (0..7).map(|_| backoff.after(0)).collect();
    assert_eq!(waits, [500, 1000, 2000, 4000, 8000, 15000, 15000]);
    assert_eq!(backoff.after(STABLE_NANOS), 15000);
    assert_eq!(backoff.after(STABLE_NANOS + 1), 500);
    assert_eq!(backoff.after(0), 1000);
}
