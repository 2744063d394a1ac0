//! The TURN server: frames on a stream, the state of a stream, login and settings.

use ai_remote::stream::{
    is_sendable, padding, read_packet, speaks_http, Endpoint, Prefixed, Progress, RecvEvent,
    SendEvent, StreamConn, StreamError, FIRST_PACKET_NANOS,
};
use ai_remote::turn::{
    is_loopback, read_port_range, upstream_for, IpNumber, StaticAuth, TurnEnvironment,
    TurnErrorOf, TurnSettings,
};

/// Reads one packet from the front of `stream`, as many bytes at a time as are asked for.
fn take_packet(stream: &mut Vec<u8>, capacity: usize) -> Result<Vec<u8>, StreamError> {
    let mut received: Vec<u8> = Vec::new();
    loop {
        match read_packet(&received, capacity)? {
            Progress::More(n) => received.extend(stream.drain(..n)),
            Progress::Complete(length) => {
                received.truncate(length);
                return Ok(received);
            }
        }
    }
}

#[test]
fn reads_split_stun_and_padded_channel_frames() {
    let first = vec![0x40, 0x01, 0, 3, 1, 2, 3, 0];
    let mut second = vec![0; 20];
    second[4..8].copy_from_slice(&[0x21, 0x12, 0xa4, 0x42]);
    let expected = second.clone();
    let mut stream: Vec<u8> = first.into_iter().chain(second).collect();
    let packet = take_packet(&mut stream, 128).unwrap();
    assert_eq!(packet.len(), 7);
    assert_eq!(packet, [0x40, 1, 0, 3, 1, 2, 3]);
    let packet = take_packet(&mut stream, 128).unwrap();
    assert_eq!(packet.len(), 20);
    assert_eq!(packet, expected);
    assert!(stream.is_empty());
}

#[test]
fn rejects_oversized_stream_frame() {
    assert!(read_packet(&[0x40, 0, 0xff, 0xff], 1500).is_err());
    assert_eq!(
        read_packet(&[0x40, 0, 0xff, 0xff], 1500),
        Err(StreamError::TooLarge)
    );
    assert_eq!(read_packet(&[0, 1, 0, 8], 27), Err(StreamError::TooLarge));
    assert_eq!(read_packet(&[0, 1, 0, 8], 28), Ok(Progress::More(24)));
}

#[test]
fn rejects_what_is_no_frame() {
    assert_eq!(read_packet(&[0x80, 0, 0, 0], 1500), Err(StreamError::InvalidFrame));
    assert_eq!(read_packet(&[0xc0, 0, 0, 0], 1500), Err(StreamError::InvalidFrame));
    // The content of a STUN message is a multiple of four.
    assert_eq!(read_packet(&[0, 1, 0, 2], 1500), Err(StreamError::InvalidFrame));
    assert_eq!(read_packet(&[], 1500), Ok(Progress::More(4)));
    assert_eq!(read_packet(&[0x80], 1500), Ok(Progress::More(3)));
}

#[test]
fn what_is_written_is_read() {
    for size in 0..9u8 {
        let mut packet = vec![0x40, 0x02, 0, size];
        packet.extend((0..size).map(|i| i + 1));
        assert!(is_sendable(&packet));
        let mut stream = packet.clone();
        stream.extend(padding(&packet));
        assert_eq!(stream.len() % 4, 0);
        assert_eq!(take_packet(&mut stream, 128).unwrap(), packet);
        assert!(stream.is_empty());
    }
    assert!(padding(&[0, 1, 0, 0]).is_empty());
    assert!(padding(&[0x40]).is_empty());
    // Channel data that is shorter than its header says cannot be filled up.
    assert!(!is_sendable(&[0x40, 0, 0, 4]));
    assert_eq!(padding(&[0x40, 0, 0, 4, 1]), [0, 0, 0]);
}

fn endpoint(v4: bool, ip: u128, port: u16) -> Endpoint {
    Endpoint { v4, ip, port, flowinfo: 0, scope_id: 0 }
}

#[test]
fn a_stream_closes_when_nothing_comes() {
    let address = endpoint(true, 0x7f00_0001, 3478);
    let mut conn = StreamConn::new(address, address, 20_000_000);
    assert_eq!(conn.recv_wait(), 20_000_000);
    assert!(conn.on_recv(RecvEvent::TimedOut).is_err());
    assert!(conn.closed);
    let mut conn = StreamConn::new(address, address, 60_000_000_000);
    assert_eq!(conn.recv_wait(), FIRST_PACKET_NANOS);
    assert_eq!(conn.on_recv(RecvEvent::Packet(7)), Ok(7));
    assert_eq!(conn.recv_wait(), 60_000_000_000);
    conn.close();
    assert!(conn.closed);
    assert_eq!(conn.on_recv(RecvEvent::Closed), Err(StreamError::Closed));
}

#[test]
fn a_stream_stays_with_its_peer() {
    let local = endpoint(true, 1, 2);
    let remote = endpoint(true, 3, 4);
    let mut conn = StreamConn::new(local, remote, 1);
    assert_eq!(conn.local_addr(), local);
    assert_eq!(conn.remote_addr(), remote);
    assert_eq!(conn.connect(remote), Ok(()));
    assert_eq!(conn.connect(local), Err(StreamError::PeerChange));
    assert_eq!(conn.check_target(remote), Ok(()));
    assert_eq!(conn.check_target(endpoint(false, 3, 4)), Err(StreamError::WrongPeer));
    assert_eq!(conn.on_send(SendEvent::Done, 9), Ok(9));
    assert!(!conn.closed);
    assert_eq!(conn.on_send(SendEvent::TimedOut, 9), Err(StreamError::WriteTimedOut));
    assert!(conn.closed);
}

#[test]
fn says_why_a_stream_gives_nothing() {
    let mut conn = StreamConn::new(endpoint(true, 1, 2), endpoint(true, 3, 4), 1);
    for (event, words) in [
        (RecvEvent::Refused(StreamError::InvalidFrame), "invalid TURN stream frame"),
        (RecvEvent::Refused(StreamError::TooLarge), "TURN packet exceeds buffer"),
        (RecvEvent::Closed, "TURN stream closed"),
        (RecvEvent::TimedOut, "TURN stream read timed out"),
        (RecvEvent::Failed, "TURN stream failed"),
    ] {
        assert_eq!(conn.on_recv(event).unwrap_err().message(), words);
    }
    assert_eq!(StreamError::WriteTimedOut.message(), "TURN stream write timed out");
    assert_eq!(StreamError::PeerChange.message(), "stream peer cannot change");
    assert_eq!(StreamError::WrongPeer.message(), "wrong TURN stream peer");
    assert_eq!(conn.on_send(SendEvent::Closed, 1), Err(StreamError::Closed));
    assert_eq!(conn.on_send(SendEvent::Failed, 1), Err(StreamError::Broken));
}

#[test]
fn gives_the_first_byte_back_once() {
    let mut prefixed = Prefixed { first: Some(7), stream: "rest" };
    assert_eq!(prefixed.take_first(0), None);
    assert_eq!(prefixed.take_first(1), Some(7));
    assert_eq!(prefixed.take_first(1), None);
    assert_eq!(prefixed.stream, "rest");
}

#[test]
fn tells_http_from_turn() {
    for method in ["GET", "HEAD", "POST", "PUT", "PATCH", "DELETE", "OPTIONS", "TRACE", "CONNECT"] {
        assert!(speaks_http(method.as_bytes()[0]), "{method}");
    }
    for first in [0x00, 0x01, 0x40, 0x41, 0x42, 0x16] {
        assert!(!speaks_http(first));
    }
}

#[test]
fn knows_one_login() {
    let auth = StaticAuth::new("user", "realm", "pass");
    assert_eq!(
        auth.key,
        turn::auth::generate_auth_key("user", "realm", "pass")
    );
    // MD5 of "user:realm:pass".
    let hex: String = auth.key.iter().map(|byte| format!("{byte:02x}")).collect();
    assert_eq!(hex, "8493fbc53ba582fb4c044c456bdc40eb");
    assert_eq!(auth.auth_handle("user", "realm"), Some(auth.key.clone()));
    assert_eq!(auth.auth_handle("User", "realm"), None);
    assert_eq!(auth.auth_handle("user", "other"), None);
}

fn environment() -> TurnEnvironment {
    TurnEnvironment {
        public_ip: Ok(IpNumber { v4: true, ip: 0x7f00_0001 }),
        turn_user: None,
        turn_pass: None,
        realm: None,
        relay_min_port: None,
        relay_max_port: None,
        https_upstream: None,
        turn_idle_timeout_secs: None,
        relay_bind: None,
        turn_udp_bind: None,
        turn_tcp_bind: None,
        turn_tls_bind: None,
    }
}

fn refusal(env: TurnEnvironment) -> String {
    TurnSettings::from_env(env).err().unwrap().message()
}

#[test]
fn reads_the_defaults_of_the_turn_server() {
    let settings = TurnSettings::from_env(environment()).ok().unwrap();
    assert!(settings.generated);
    assert_eq!(settings.password.len(), 32);
    assert_eq!(settings.auth.user, "ollama-link");
    assert_eq!(settings.auth.realm, "webrtc-ollama");
    assert_eq!(
        settings.auth.key,
        turn::auth::generate_auth_key("ollama-link", "webrtc-ollama", &settings.password)
    );
    assert_eq!((settings.min_port, settings.max_port), (49160, 49200));
    assert_eq!(settings.idle_secs, 600);
    assert_eq!(settings.idle_nanos(), 600_000_000_000);
    assert_eq!(settings.relay_bind, "0.0.0.0");
    assert_eq!(settings.udp_bind, "0.0.0.0:3478");
    assert_eq!(settings.tcp_bind, "0.0.0.0:3478");
    assert_eq!(settings.tls_bind, "0.0.0.0:5349");
    assert!(settings.check_tls(false).is_ok());
}

#[test]
fn names_what_is_wrong_with_the_turn_settings() {
    let mut env = environment();
    env.public_ip = Err("no address".to_string());
    assert_eq!(refusal(env), "no address");
    for (user, pass) in [("", "0123456789abcdef"), ("u", "short"), (&"u".repeat(65), "0123456789abcdef")] {
        let mut env = environment();
        env.turn_user = Some(user.to_string());
        env.turn_pass = Some(pass.to_string());
        assert_eq!(
            refusal(env),
            "Use TURN_USER and a TURN_PASS of at least 16 characters"
        );
    }
    let mut env = environment();
    env.relay_min_port = Some("65536".to_string());
    assert_eq!(refusal(env), "number too large to fit in target type");
    let mut env = environment();
    env.relay_max_port = Some("1".to_string());
    assert_eq!(refusal(env), "Invalid relay port range");
    let mut env = environment();
    env.https_upstream = Some(Err("no upstream".to_string()));
    assert_eq!(refusal(env), "no upstream");
    let mut env = environment();
    env.turn_idle_timeout_secs = Some("x".to_string());
    assert_eq!(refusal(env), "invalid digit found in string");
    let mut env = environment();
    env.turn_idle_timeout_secs = Some("0".to_string());
    assert_eq!(refusal(env), "TURN_IDLE_TIMEOUT_SECS must be positive");
    let mut env = environment();
    env.https_upstream = Some(Ok(endpoint(true, 0x0a00_0001, 80)));
    assert_eq!(refusal(env), "HTTPS_UPSTREAM must be a loopback address");
}

#[test]
fn asks_for_tls_where_it_is_needed() {
    let mut env = environment();
    env.https_upstream = Some(Ok(endpoint(true, 0x7f00_0001, 8080)));
    let settings = TurnSettings::from_env(env).ok().unwrap();
    assert!(settings.check_tls(true).is_ok());
    assert_eq!(
        settings.check_tls(false).err().unwrap().message(),
        "HTTPS_UPSTREAM requires TLS_CERT and TLS_KEY"
    );
    assert!(upstream_for(&settings, b'G').is_some());
    assert!(upstream_for(&settings, 0).is_none());
    let mut env = environment();
    env.turn_tls_bind = Some("0.0.0.0:443".to_string());
    let settings = TurnSettings::from_env(env).ok().unwrap();
    assert_eq!(settings.tls_bind, "0.0.0.0:443");
    assert_eq!(
        settings.check_tls(false).err().unwrap().message(),
        "TURN_TLS_BIND requires TLS_CERT and TLS_KEY"
    );
    assert!(upstream_for(&settings, b'G').is_none());
}

#[test]
fn tells_addresses_of_this_machine() {
    assert!(is_loopback(&endpoint(true, 0x7f00_0001, 1)));
    assert!(is_loopback(&endpoint(true, 0x7fff_ffff, 1)));
    assert!(!is_loopback(&endpoint(true, 0x8000_0000, 1)));
    assert!(is_loopback(&endpoint(false, 1, 1)));
    assert!(!is_loopback(&endpoint(false, 0x7f00_0001, 1)));
}

#[test]
fn reads_port_ranges() {
    assert_eq!(read_port_range("1", "65535").ok(), Some((1, 65535)));
    assert_eq!(read_port_range("7", "7").ok(), Some((7, 7)));
    assert!(matches!(read_port_range("0", "7"), Err(TurnErrorOf::PortRange)));
    assert!(matches!(read_port_range("", "7"), Err(TurnErrorOf::Port(_))));
}
