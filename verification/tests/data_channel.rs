//! The data channel: frames, uploads in pieces, the window and forwarding.

use ai_remote::answer::{Answer, Turn};
use ai_remote::config::{Config, PathErrorOf, CHUNK_BYTES, MAX_FRAME_BYTES, MAX_REQUEST_BYTES};
use ai_remote::forward::{
    check_frame, may_send, response_headers, split_chunks, upstream_bearer, upstream_headers,
    SendError,
};
use ai_remote::frames::{
    check_piece, chunk_frame, done_frame, error_frame, read_message, read_request, response_frame,
    Inbound, Piece, Request,
};
use ai_remote::ice::RtcConfiguration;
use ai_remote::json::Json;
use ai_remote::rpc::{Failure, Rpc, Step, UPLOAD_NANOS, WINDOW};
use ai_remote::table::Table;

fn config() -> Config {
    Config {
        signaling: String::new(),
        rtc: RtcConfiguration { ice_servers: Vec::new(), relay: false },
        base: "http://127.0.0.1:11434/".to_string(),
        openai_base: "http://127.0.0.1:8000/".to_string(),
        openai_api_key: Some("key".to_string()),
        allowed: vec!["/api/chat".to_string(), "/v1/models".to_string()],
        timeout: 600,
    }
}

fn request(id: &str) -> Request {
    Request {
        id: id.to_string(),
        method: "POST".to_string(),
        path: "/api/chat".to_string(),
        headers: Table::new(),
        body: None,
    }
}

fn value(text: &str) -> serde_json::Value {
    serde_json::from_str(text).unwrap()
}

fn sent(step: Step) -> serde_json::Value {
    match step {
        Step::Send(frame) => value(&frame),
        _ => panic!("no frame"),
    }
}

fn error(id: &str, status: u16, message: &str) -> serde_json::Value {
    value(&format!(
        r#"{{"type":"error","id":"{id}","status":{status},"message":"{message}"}}"#
    ))
}

fn base64(bytes: &[u8]) -> String {
    base64::Engine::encode(&base64::engine::general_purpose::STANDARD, bytes)
}

fn unbase64(text: &str) -> Vec<u8> {
    base64::Engine::decode(&base64::engine::general_purpose::STANDARD, text).unwrap()
}

fn piece_frame(id: &str, seq: u64, bytes: &[u8], done: bool) -> String {
    format!(
        r#"{{"type":"request-fragment","id":"{id}","seq":{seq},"data":"{}","done":{done}}}"#,
        base64(bytes)
    )
}

#[test]
fn starts_a_request_and_answers_with_the_url() {
    let mut rpc = Rpc::attach();
    let frame = r#"{"id":"r1","method":"POST","path":"/api/chat","headers":{"Accept":"text/plain"},"body":"hi"}"#;
    match rpc.receive(frame.as_bytes(), &config(), 0) {
        Step::Start(request, url) => {
            assert_eq!(url, "http://127.0.0.1:11434/api/chat");
            assert_eq!(request.id, "r1");
            assert_eq!(request.body.as_deref(), Some("hi"));
            assert_eq!(request.headers.get("Accept").map(String::as_str), Some("text/plain"));
        }
        _ => panic!("not started"),
    }
    // The id is taken until the request is released.
    assert_eq!(
        sent(rpc.receive(frame.as_bytes(), &config(), 0)),
        error("r1", 409, "duplicate request id")
    );
    rpc.release("r1");
    assert!(matches!(rpc.receive(frame.as_bytes(), &config(), 0), Step::Start(_, _)));
}

#[test]
fn refuses_frames_that_cannot_be_read() {
    let mut rpc = Rpc::attach();
    let large = vec![b' '; MAX_FRAME_BYTES + 1];
    assert_eq!(
        sent(rpc.receive(&large, &config(), 0)),
        error("", 413, "message too large; use request fragments")
    );
    assert_eq!(sent(rpc.receive(b"{", &config(), 0)), error("", 400, "invalid JSON"));
    for frame in [r#"{}"#, r#"{"id":""}"#, r#"{"id":"a b"}"#, r#"{"id":5}"#, r#"[1]"#] {
        assert_eq!(
            sent(rpc.receive(frame.as_bytes(), &config(), 0)),
            error("", 400, "invalid request id"),
            "{frame}"
        );
        rpc.error_sent();
    }
    assert_eq!(
        sent(rpc.receive(br#"{"id":"a","type":"what"}"#, &config(), 0)),
        error("a", 400, "unknown frame type")
    );
    assert_eq!(
        sent(rpc.receive(br#"{"id":"a","type":"request"}"#, &config(), 0)),
        error("a", 400, "invalid request")
    );
}

#[test]
fn refuses_requests_that_are_not_allowed() {
    let mut rpc = Rpc::attach();
    let mut other = request("a");
    other.path = "/api/delete".to_string();
    let target = config().request_url("POST", "/api/delete");
    assert_eq!(sent(rpc.submit(other, target)), error("a", 403, "path not allowed"));
    assert_eq!(
        sent(rpc.submit(request("a"), Err(PathErrorOf::MethodNotAllowed))),
        error("a", 403, "method not allowed")
    );
    let mut many = request("a");
    for i in 0..33 {
        many.headers.insert(format!("h{i}"), String::new());
    }
    assert_eq!(
        sent(rpc.submit(many, Ok("u".to_string()))),
        error("a", 413, "request too large")
    );
    let mut long = request("a");
    long.body = Some("x".repeat(MAX_REQUEST_BYTES + 1));
    assert_eq!(
        sent(rpc.submit(long, Ok("u".to_string()))),
        error("a", 413, "request too large")
    );
    let mut full = request("a");
    full.body = Some("x".repeat(MAX_REQUEST_BYTES));
    for i in 0..32 {
        full.headers.insert(format!("h{i}"), String::new());
    }
    assert!(matches!(rpc.submit(full, Ok("u".to_string())), Step::Start(_, _)));
}

#[test]
fn runs_four_requests_at_once() {
    let mut rpc = Rpc::attach();
    for id in ["a", "b", "c", "d"] {
        assert!(matches!(rpc.submit(request(id), Ok("u".to_string())), Step::Start(_, _)));
    }
    assert_eq!(
        sent(rpc.submit(request("e"), Ok("u".to_string()))),
        error("e", 429, "too many concurrent requests")
    );
    rpc.release("b");
    assert!(matches!(rpc.submit(request("e"), Ok("u".to_string())), Step::Start(_, _)));
}

#[test]
fn queues_eight_error_frames() {
    let mut rpc = Rpc::attach();
    for _ in 0..8 {
        assert!(matches!(rpc.receive(b"{", &config(), 0), Step::Send(_)));
    }
    assert!(matches!(rpc.receive(b"{", &config(), 0), Step::Nothing));
    rpc.error_sent();
    assert!(matches!(rpc.receive(b"{", &config(), 0), Step::Send(_)));
}

#[test]
fn a_request_in_pieces_comes_out_as_it_went_in() {
    let mut rpc = Rpc::attach();
    let whole = br#"{"id":"up","method":"POST","path":"/api/chat"}"#;
    let mut step = Step::Nothing;
    let pieces: Vec<&[u8]> = whole.chunks(10).collect();
    for (i, part) in pieces.iter().enumerate() {
        assert!(matches!(step, Step::Nothing));
        let frame = piece_frame("up", i as u64, part, i + 1 == pieces.len());
        step = rpc.receive(frame.as_bytes(), &config(), i as u64);
    }
    match step {
        Step::Assembled(id, bytes) => {
            assert_eq!(id, "up");
            assert_eq!(bytes, whole);
        }
        _ => panic!("not assembled"),
    }
    match rpc.submit_assembled("up", Some(request("up")), &config()) {
        Step::Start(request, url) => {
            assert_eq!(request.id, "up");
            assert_eq!(url, "http://127.0.0.1:11434/api/chat");
        }
        _ => panic!("not started"),
    }
    assert_eq!(
        sent(rpc.submit_assembled("up", Some(request("other")), &config())),
        error("up", 400, "invalid fragmented request")
    );
    assert_eq!(
        sent(rpc.submit_assembled("up", None, &config())),
        error("up", 400, "invalid fragmented request")
    );
}

#[test]
fn two_uploads_and_other_frames_may_come_between_pieces() {
    let mut rpc = Rpc::attach();
    let first: Vec<&[u8]> = vec![b"one ", b"two ", b"three"];
    let second: Vec<&[u8]> = vec![b"uno ", b"due ", b"tre"];
    let mut now: u64 = 0;
    let mut take = |rpc: &mut Rpc, frame: &str| {
        now += 1;
        rpc.receive(frame.as_bytes(), &config(), now)
    };
    for i in 0..2 {
        let frame = piece_frame("a", i, first[i as usize], false);
        assert!(matches!(take(&mut rpc, &frame), Step::Nothing));
        let frame = piece_frame("b", i, second[i as usize], false);
        assert!(matches!(take(&mut rpc, &frame), Step::Nothing));
        let whole = format!(r#"{{"id":"r{i}","method":"POST","path":"/api/chat"}}"#);
        assert!(matches!(take(&mut rpc, &whole), Step::Start(_, _)));
        assert!(matches!(take(&mut rpc, "{"), Step::Send(_)));
        let cancel = format!(r#"{{"type":"cancel","id":"r{i}"}}"#);
        assert!(matches!(take(&mut rpc, &cancel), Step::Cancel(_)));
        rpc.error_sent();
        rpc.release("r0");
        assert!(rpc.expire_uploads(UPLOAD_NANOS).is_empty());
    }
    let frame = piece_frame("a", 2, first[2], true);
    assert!(matches!(
        take(&mut rpc, &frame),
        Step::Assembled(id, bytes) if id == "a" && bytes == first.concat()
    ));
    let frame = piece_frame("b", 2, second[2], true);
    assert!(matches!(
        take(&mut rpc, &frame),
        Step::Assembled(id, bytes) if id == "b" && bytes == second.concat()
    ));
    assert!(rpc.expire_uploads(u64::MAX).is_empty());
}

#[test]
fn refuses_pieces_out_of_turn_and_late() {
    let mut rpc = Rpc::attach();
    let refused = |rpc: &mut Rpc, frame: String, now: u64| {
        let frame = sent(rpc.receive(frame.as_bytes(), &config(), now));
        rpc.error_sent();
        frame["message"].as_str().unwrap().to_string()
    };
    assert_eq!(
        refused(&mut rpc, piece_frame("a", 1, b"x", false), 0),
        "invalid or excessive upload"
    );
    assert!(matches!(
        rpc.receive(piece_frame("a", 0, b"x", false).as_bytes(), &config(), 0),
        Step::Nothing
    ));
    assert_eq!(
        refused(&mut rpc, piece_frame("a", 2, b"x", false), 0),
        "invalid fragment sequence or expired upload"
    );
    // The upload has ended with the refusal.
    assert_eq!(
        refused(&mut rpc, piece_frame("a", 1, b"x", false), 0),
        "invalid or excessive upload"
    );
    rpc.receive(piece_frame("a", 0, b"x", false).as_bytes(), &config(), 0);
    assert!(matches!(
        rpc.receive(piece_frame("a", 1, b"x", false).as_bytes(), &config(), UPLOAD_NANOS - 1),
        Step::Nothing
    ));
    assert_eq!(
        refused(&mut rpc, piece_frame("a", 2, b"x", false), UPLOAD_NANOS),
        "invalid fragment sequence or expired upload"
    );
    for id in ["a", "b", "c", "d"] {
        rpc.receive(piece_frame(id, 0, b"x", false).as_bytes(), &config(), 0);
    }
    assert_eq!(
        refused(&mut rpc, piece_frame("e", 0, b"x", false), 0),
        "invalid or excessive upload"
    );
}

#[test]
fn refuses_pieces_with_missing_parts() {
    let words = |piece: Result<Piece, String>| piece.err().unwrap();
    let data = || Some(Ok(vec![1]));
    assert_eq!(words(check_piece(None, data(), Some(true))), "missing fragment sequence");
    assert_eq!(words(check_piece(Some(0), None, Some(true))), "missing fragment data");
    assert_eq!(words(check_piece(Some(0), data(), None)), "missing fragment end flag");
    assert_eq!(
        words(check_piece(Some(0), Some(Ok(vec![0; CHUNK_BYTES + 1])), Some(true))),
        "fragment too large"
    );
    assert_eq!(
        words(check_piece(Some(0), Some(Err("why".to_string())), Some(true))),
        "why"
    );
    assert!(check_piece(Some(0), Some(Ok(vec![0; CHUNK_BYTES])), Some(true)).is_ok());
    match read_message(br#"{"type":"request-fragment","id":"a","seq":0,"data":"AQI=","done":true}"#) {
        Inbound::Fragment(id, Ok(piece)) => {
            assert_eq!(id, "a");
            assert_eq!(piece.data, [1, 2]);
            assert!(piece.done);
        }
        _ => panic!("no piece"),
    }
    match read_message(br#"{"type":"request-fragment","id":"a","seq":0,"data":"!","done":true}"#) {
        Inbound::Fragment(_, Err(words)) => assert!(words.contains("Invalid")),
        _ => panic!("no refusal"),
    }
}

#[test]
fn limits_an_upload_to_eight_mebibytes() {
    let mut rpc = Rpc::attach();
    let full = MAX_REQUEST_BYTES / CHUNK_BYTES;
    for i in 0..full {
        let piece = Piece { seq: i as u64, data: vec![7; CHUNK_BYTES], done: false };
        let step = rpc.handle(Inbound::Fragment("a".to_string(), Ok(piece)), &config(), 0);
        assert!(matches!(step, Step::Nothing));
    }
    let piece = Piece { seq: full as u64, data: vec![7], done: true };
    assert_eq!(
        sent(rpc.handle(Inbound::Fragment("a".to_string(), Ok(piece)), &config(), 0)),
        error("a", 400, "request exceeds 8 MiB")
    );
}

#[test]
fn ends_uploads_that_take_too_long() {
    let mut rpc = Rpc::attach();
    rpc.receive(piece_frame("a", 0, b"x", false).as_bytes(), &config(), 0);
    rpc.receive(piece_frame("b", 0, b"x", false).as_bytes(), &config(), 5);
    assert!(rpc.expire_uploads(UPLOAD_NANOS).is_empty());
    let frames = rpc.expire_uploads(UPLOAD_NANOS + 1);
    assert_eq!(frames.len(), 1);
    assert_eq!(value(&frames[0]), error("a", 408, "request upload timed out"));
    assert_eq!(rpc.expire_uploads(UPLOAD_NANOS + 6).len(), 1);
    assert!(rpc.expire_uploads(u64::MAX).is_empty());
}

#[test]
fn the_window_holds_eight_chunks() {
    let mut rpc = Rpc::attach();
    rpc.submit(request("a"), Ok("u".to_string()));
    for i in 0..WINDOW {
        assert_eq!(rpc.take_credit("a"), Some(i));
    }
    assert_eq!(rpc.take_credit("a"), None);
    let ack = |rpc: &mut Rpc, seq: u64| {
        rpc.receive(
            format!(r#"{{"type":"ack","id":"a","seq":{seq}}}"#).as_bytes(),
            &config(),
            0,
        )
    };
    // Only the chunk that is next in turn is acknowledged, and only once.
    assert!(matches!(ack(&mut rpc, 1), Step::Nothing));
    assert!(matches!(ack(&mut rpc, 0), Step::Credit(id) if id == "a"));
    assert!(matches!(ack(&mut rpc, 0), Step::Nothing));
    assert!(matches!(ack(&mut rpc, 4294967296), Step::Nothing));
    assert_eq!(rpc.take_credit("a"), Some(8));
    assert_eq!(rpc.take_credit("a"), None);
    assert_eq!(rpc.take_credit("other"), None);
}

#[test]
fn an_acknowledgement_of_an_unsent_chunk_is_passed_over() {
    let mut rpc = Rpc::attach();
    rpc.submit(request("a"), Ok("u".to_string()));
    let frame = br#"{"type":"ack","id":"a","seq":0}"#;
    assert!(matches!(rpc.receive(frame, &config(), 0), Step::Nothing));
    let frame = br#"{"type":"ack","id":"a"}"#;
    assert!(matches!(rpc.receive(frame, &config(), 0), Step::Nothing));
}

#[test]
fn giving_up_stops_a_request_and_ends_its_upload() {
    let mut rpc = Rpc::attach();
    rpc.submit(request("a"), Ok("u".to_string()));
    let cancel = br#"{"type":"cancel","id":"a"}"#;
    assert_eq!(value(&rpc.conclude("a", &Failure::Other("boom".to_string())).unwrap()), error("a", 502, "boom"));
    assert!(matches!(rpc.receive(cancel, &config(), 0), Step::Cancel(id) if id == "a"));
    assert_eq!(
        value(&rpc.conclude("a", &Failure::Cancelled).unwrap()),
        error("a", 499, "request cancelled")
    );
    rpc.release("a");
    rpc.receive(piece_frame("a", 0, b"x", false).as_bytes(), &config(), 0);
    assert!(matches!(rpc.receive(cancel, &config(), 0), Step::Nothing));
    assert!(matches!(
        rpc.receive(piece_frame("a", 0, b"x", false).as_bytes(), &config(), 0),
        Step::Nothing
    ));
}

#[test]
fn a_request_that_takes_too_long_is_answered_504() {
    let mut rpc = Rpc::attach();
    rpc.submit(request("a"), Ok("u".to_string()));
    assert_eq!(
        value(&rpc.conclude("a", &Failure::TimedOut).unwrap()),
        error("a", 504, "request timed out")
    );
}

#[test]
fn a_closed_channel_is_silent() {
    let mut rpc = Rpc::attach();
    rpc.submit(request("a"), Ok("u".to_string()));
    rpc.close();
    assert!(rpc.is_closed());
    assert!(matches!(rpc.receive(b"{", &config(), 0), Step::Nothing));
    assert_eq!(rpc.conclude("a", &Failure::TimedOut), None);
}

#[test]
fn reads_requests() {
    let object = |members: &[(&str, &str)]| {
        Json::Object(
            members
                .iter()
                .map(|(name, text)| (name.to_string(), text.to_string()))
                .collect(),
        )
    };
    let base = [("id", r#""a""#), ("method", r#""GET""#), ("path", r#""/x""#)];
    let read = read_request(&object(&base)).unwrap();
    assert_eq!(read.body, None);
    assert_eq!(read.headers.len(), 0);
    let with = |name: &'static str, text: &'static str| {
        let mut members = base.to_vec();
        members.push((name, text));
        read_request(&object(&members))
    };
    assert_eq!(with("body", "null").unwrap().body, None);
    assert_eq!(with("body", r#""b""#).unwrap().body.as_deref(), Some("b"));
    assert!(with("body", "1").is_none());
    assert!(with("headers", "null").is_none());
    assert!(with("headers", r#"{"a":1}"#).is_none());
    assert_eq!(with("headers", r#"{"a":"b"}"#).unwrap().headers.len(), 1);
    assert!(with("extra", "{}").is_some());
    assert!(read_request(&object(&base[..2])).is_none());
    assert!(read_request(&Json::Null).is_none());
}

#[test]
fn writes_answers() {
    let mut headers = Table::new();
    headers.insert("content-type".to_string(), "text/\"plain\"".to_string());
    assert_eq!(
        value(&response_frame("a", 200, &headers)),
        value(r#"{"type":"response","id":"a","status":200,"headers":{"content-type":"text/\"plain\""}}"#)
    );
    assert_eq!(
        value(&chunk_frame("a", 3, b"hello")),
        value(r#"{"type":"chunk","id":"a","seq":3,"data":"aGVsbG8="}"#)
    );
    assert_eq!(value(&done_frame("a")), value(r#"{"type":"done","id":"a"}"#));
    assert_eq!(value(&error_frame("a", 400, "no")), error("a", 400, "no"));
    // The largest chunk fits a frame.
    let id = "i".repeat(64);
    let frame = chunk_frame(&id, u32::MAX, &vec![0xff; CHUNK_BYTES]);
    assert!(check_frame(&frame).is_ok());
}

#[test]
fn any_name_may_stand_in_an_object() {
    let reserved = "$serde_json::private::RawValue";
    let mut rpc = Rpc::attach();
    let frame = format!(
        r#"{{"id":"a","method":"POST","path":"/api/chat","headers":{{"accept":"x","{reserved}":"y"}}}}"#
    );
    match rpc.receive(frame.as_bytes(), &config(), 0) {
        Step::Start(request, _) => {
            assert_eq!(request.headers.len(), 2);
            assert_eq!(request.headers.get("accept").map(String::as_str), Some("x"));
            assert_eq!(request.headers.get(reserved).map(String::as_str), Some("y"));
        }
        _ => panic!("not started"),
    }
    let mut headers = Table::new();
    headers.insert(reserved.to_string(), "y".to_string());
    assert_eq!(
        response_frame("a", 200, &headers),
        format!(r#"{{"headers":{{"{reserved}":"y"}},"id":"a","status":200,"type":"response"}}"#)
    );
}

#[test]
fn cuts_answers_into_chunks() {
    let bytes: Vec<u8> = (0..2 * CHUNK_BYTES + 1).map(|i| i as u8).collect();
    let chunks = split_chunks(&bytes);
    assert_eq!(chunks.len(), 3);
    assert_eq!(chunks[2].len(), 1);
    assert_eq!(chunks.concat(), bytes);
    assert_eq!(split_chunks(&bytes[..CHUNK_BYTES]).len(), 1);
    assert!(split_chunks(&[]).is_empty());
}

#[test]
fn an_answer_is_sent_in_order_and_within_the_window() {
    let mut rpc = Rpc::attach();
    rpc.submit(request("a"), Ok("u".to_string()));
    rpc.submit(request("b"), Ok("u".to_string()));
    let list = vec![
        ("content-type".to_string(), Some("text/plain".to_string())),
        ("set-cookie".to_string(), Some("secret".to_string())),
    ];
    let (mut answer, begun) = Answer::begin("a", 201, &list);
    assert_eq!(
        value(&begun),
        value(r#"{"type":"response","id":"a","status":201,"headers":{"content-type":"text/plain"}}"#)
    );
    assert!(matches!(answer.advance(&mut rpc), Turn::Drained));
    let body: Vec<u8> = (0..9 * CHUNK_BYTES + 1).map(|i| (i / 7) as u8).collect();
    let (early, late) = body.split_at(3 * CHUNK_BYTES + 5);
    answer.supply(early);
    answer.supply(&[]);
    answer.supply(late);
    assert!(answer.end().is_none());
    let mut received: Vec<u8> = Vec::new();
    let mut next: u64 = 0;
    loop {
        match answer.advance(&mut rpc) {
            Turn::Send(frame) => {
                assert!(check_frame(&frame).is_ok());
                let frame = value(&frame);
                assert_eq!(frame["type"], "chunk");
                assert_eq!(frame["id"], "a");
                assert_eq!(frame["seq"], next);
                let bytes = unbase64(frame["data"].as_str().unwrap());
                assert!(!bytes.is_empty() && bytes.len() <= CHUNK_BYTES);
                received.extend(bytes);
                next += 1;
                assert_eq!(rpc.take_credit("b").is_some(), next <= 8);
            }
            Turn::Wait => {
                assert!(next >= 8);
                let ack = format!(r#"{{"type":"ack","id":"a","seq":{}}}"#, next - 8);
                assert!(matches!(
                    rpc.receive(ack.as_bytes(), &config(), 0),
                    Step::Credit(id) if id == "a"
                ));
            }
            Turn::Drained => break,
        }
    }
    // Bytes that come in two parts are cut apart where the parts meet.
    assert_eq!(next, 10);
    assert_eq!(received, body);
    assert_eq!(value(&answer.end().unwrap()), value(r#"{"type":"done","id":"a"}"#));
    assert!(answer.end().is_none());
    answer.supply(b"more");
    assert!(matches!(answer.advance(&mut rpc), Turn::Drained));
}

#[test]
fn passes_headers_on() {
    let mut with_headers = request("a");
    for name in ["Content-Type", "ACCEPT", "x-mock-scenario", "Cookie", "Host"] {
        with_headers.headers.insert(name.to_string(), format!("value of {name}"));
    }
    let headers = upstream_headers(&with_headers);
    assert_eq!(headers.len(), 3);
    assert_eq!(headers.get("ACCEPT").map(String::as_str), Some("value of ACCEPT"));
    assert!(headers.get("Cookie").is_none());
    let answer = |name: &str, text: Option<&str>| (name.to_string(), text.map(str::to_string));
    let passed = response_headers(&vec![
        answer("content-type", Some("a")),
        answer("set-cookie", Some("secret")),
        answer("connection", Some("close")),
        answer("transfer-encoding", Some("chunked")),
        answer("keep-alive", Some("5")),
        answer("upgrade", Some("h2")),
        answer("trailer", Some("x")),
        answer("x-binary", None),
        answer("x-twice", Some("one")),
        answer("x-twice", Some("two")),
    ]);
    assert_eq!(passed.len(), 2);
    assert_eq!(passed.get("x-twice").map(String::as_str), Some("two"));
}

#[test]
fn the_key_goes_along_under_v1_alone() {
    assert_eq!(upstream_bearer(&config(), "/v1/models").as_deref(), Some("key"));
    assert_eq!(upstream_bearer(&config(), "/api/chat"), None);
    let mut keyless = config();
    keyless.openai_api_key = None;
    assert_eq!(upstream_bearer(&keyless, "/v1/models"), None);
}

#[test]
fn sends_when_the_channel_has_drained() {
    assert_eq!(may_send(false, true, 262144), Ok(true));
    assert_eq!(may_send(false, true, 262145), Ok(false));
    assert_eq!(may_send(true, true, 0), Err(SendError::Closed));
    assert_eq!(may_send(false, false, 0), Err(SendError::Closed));
    assert_eq!(check_frame(&"x".repeat(MAX_FRAME_BYTES)), Ok(()));
    assert_eq!(
        check_frame(&"x".repeat(MAX_FRAME_BYTES + 1)).unwrap_err().message(),
        "outbound frame too large"
    );
    assert_eq!(SendError::Closed.message(), "data channel closed");
}
