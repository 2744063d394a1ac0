//! A connection to the signaling server: which messages are passed on, and what
//! the server says itself.
//!
//! Time is counted in nanoseconds on a clock that does not run backwards.

use crate::ice::{
    lemma_servers_read_back, sent_specs, servers_tree, specs_in, usable_servers, write_servers,
    BrowserServer, BrowserServerModel,
};
use crate::json::{
    flag_member_of, json_document, lemma_member_reads, lemma_only_members, lemma_own_names,
    member, member_of,
    member_texts, members_map, parse_json, reads_back, spells, text_member, text_member_of,
    tree_shape, tree_text, unsigned_member_of, write_flag, write_object, write_text,
    write_unsigned, Json, JsonShape, JsonTree,
};
use crate::rooms::{open_opposite, Role, Rooms};
use crate::rpc::elapsed;
use crate::text::{byte_len, byte_length, text_equal};
use vstd::prelude::*;
use vstd::utf8::encode_utf8;

verus! {

/// Most bytes of one signaling message.
pub const MAX_SIGNAL_BYTES: usize = 65536;

/// Most messages in one window of time.
pub const MAX_MESSAGES: usize = 128;

/// The window of time in which messages are counted.
pub const WINDOW_NANOS: u64 = 1_000_000_000;

/// Silence after which a connection is given up.
pub const SILENCE_NANOS: u64 = 65_000_000_000;

/// What the server reads of a signaling message.
pub struct Signal {
    pub kind: Option<String>,
    /// The session, empty where none is named.
    pub session: String,
    pub sdp: Option<String>,
    /// The message holds a candidate.
    pub has_candidate: bool,
}

/// What a [`Signal`] holds.
pub struct SignalModel {
    pub kind: Option<Seq<char>>,
    pub session: Seq<char>,
    pub sdp: Option<Seq<char>>,
    pub has_candidate: bool,
}

impl DeepView for Signal {
    type V = SignalModel;

    open spec fn deep_view(&self) -> SignalModel {
        SignalModel {
            kind: self.kind.deep_view(),
            session: self.session@,
            sdp: self.sdp.deep_view(),
            has_candidate: self.has_candidate,
        }
    }
}

/// The signaling message in a document.
pub open spec fn signal_in(document: JsonShape) -> SignalModel {
    SignalModel {
        kind: text_member_of(document, "type"@),
        session: match text_member_of(document, "session"@) {
            Some(session) => session,
            None => Seq::empty(),
        },
        sdp: text_member_of(document, "sdp"@),
        has_candidate: member_of(document, "candidate"@) matches Some(JsonShape::Object(_)),
    }
}

/// Reads a signaling message.
pub fn read_signal(document: &Json) -> (signal: Signal)
    ensures
        signal.deep_view() == signal_in(document.deep_view()),
{
    let session = match text_member(document, "session") {
        Some(session) => session,
        None => String::new(),
    };
    Signal {
        kind: text_member(document, "type"),
        session,
        sdp: text_member(document, "sdp"),
        has_candidate: match member(document, "candidate") {
            Some(Json::Object(_)) => true,
            _ => false,
        },
    }
}

/// A description of a session is given.
pub open spec fn has_sdp(signal: SignalModel) -> bool {
    signal.sdp matches Some(sdp) && sdp.len() > 0
}

/// A message that is passed on: it names a session; a browser offers, a home
/// agent answers, and either may give a candidate or hang up.
pub open spec fn acceptable(signal: SignalModel, role: Role) -> bool {
    &&& 1 <= byte_length(signal.session) <= 64
    &&& signal.kind matches Some(kind) && {
        ||| kind == "offer"@ && role == Role::Browser && has_sdp(signal)
        ||| kind == "answer"@ && role == Role::Home && has_sdp(signal)
        ||| kind == "ice"@ && signal.has_candidate
        ||| kind == "hangup"@
    }
}

/// Whether a message that was read is passed on.
pub fn accepts(signal: &Signal, role: Role) -> (accepted: bool)
    ensures
        accepted == acceptable(signal.deep_view(), role),
{
    let length: usize = byte_len(signal.session.as_str());
    if length < 1 || length > 64 {
        return false;
    }
    let described = match &signal.sdp {
        Some(sdp) => !sdp.as_str().is_empty(),
        None => false,
    };
    proof {
        reveal_strlit("offer");
        reveal_strlit("answer");
        reveal_strlit("ice");
        reveal_strlit("hangup");
        assert("offer"@.len() == 5 && "answer"@.len() == 6 && "ice"@.len() == 3);
        assert("answer"@[0] == 'a' && "hangup"@[0] == 'h');
    }
    match &signal.kind {
        Some(kind) => if text_equal(kind.as_str(), "offer") {
            role == Role::Browser && described
        } else if text_equal(kind.as_str(), "answer") {
            role == Role::Home && described
        } else if text_equal(kind.as_str(), "ice") {
            signal.has_candidate
        } else {
            text_equal(kind.as_str(), "hangup")
        },
        None => false,
    }
}

/// Whether a message is passed on.
pub fn validate_signal(value: &Json, role: Role) -> (valid: bool)
    ensures
        valid == acceptable(signal_in(value.deep_view()), role),
{
    accepts(&read_signal(value), role)
}

/// What the server says itself.
#[derive(Clone, Copy, Debug, PartialEq, Eq, Structural)]
pub enum Notice {
    PeerLeft,
    PeerJoined,
    PeerUnavailable,
    Pong,
    InvalidMessage,
}

/// A notice as it is sent.
pub open spec fn notice_tree(notice: Notice) -> JsonTree {
    match notice {
        Notice::PeerLeft => JsonTree::Object(seq![("type"@, JsonTree::Text("peer-left"@))]),
        Notice::PeerJoined => JsonTree::Object(seq![("type"@, JsonTree::Text("peer-joined"@))]),
        Notice::PeerUnavailable => JsonTree::Object(
            seq![("type"@, JsonTree::Text("peer-unavailable"@))],
        ),
        Notice::Pong => JsonTree::Object(seq![("type"@, JsonTree::Text("pong"@))]),
        Notice::InvalidMessage => JsonTree::Object(
            seq![
                ("type"@, JsonTree::Text("error"@)),
                ("message"@, JsonTree::Text("invalid signaling message"@)),
            ],
        ),
    }
}

/// Writes a notice. Whoever reads it finds what it says.
pub fn write_notice(notice: Notice) -> (text: String)
    ensures
        spells(text@, notice_tree(notice), 1),
        json_document(encode_utf8(text@)) matches Some(document) && {
            &&& notice is PeerLeft ==> text_member_of(document, "type"@) == Some("peer-left"@)
            &&& notice is PeerJoined ==> text_member_of(document, "type"@) == Some("peer-joined"@)
            &&& notice is PeerUnavailable ==> text_member_of(document, "type"@) == Some(
                "peer-unavailable"@,
            )
            &&& notice is Pong ==> text_member_of(document, "type"@) == Some("pong"@)
            &&& notice is InvalidMessage ==> text_member_of(document, "type"@) == Some("error"@)
                && text_member_of(document, "message"@) == Some("invalid signaling message"@)
        },
{
    let ghost trees = notice_tree(notice)->Object_0;
    let mut members: Vec<(String, String)> = Vec::new();
    let kind = match notice {
        Notice::PeerLeft => "peer-left",
        Notice::PeerJoined => "peer-joined",
        Notice::PeerUnavailable => "peer-unavailable",
        Notice::Pong => "pong",
        Notice::InvalidMessage => "error",
    };
    members.push(("type".to_owned(), write_text(kind)));
    if notice == Notice::InvalidMessage {
        members.push(("message".to_owned(), write_text("invalid signaling message")));
    }
    proof {
        lemma_own_names();
    }
    let text = write_object(members, Ghost(trees), Ghost(0));
    proof {
        lemma_notice_read(notice);
    }
    text
}

/// The first message to a peer: the protocol, whether the other peer is there,
/// and the ICE servers.
pub open spec fn ready_tree(online: bool, servers: Seq<BrowserServerModel>) -> JsonTree {
    JsonTree::Object(
        seq![
            ("type"@, JsonTree::Text("ready"@)),
            ("protocol"@, JsonTree::Unsigned(1)),
            ("peerOnline"@, JsonTree::Bool(online)),
            ("iceServers"@, servers_tree(servers)),
        ],
    )
}

/// Writes the first message to a peer. Whoever reads it finds the kind, the
/// protocol and the ICE servers as they were written.
pub fn write_ready(online: bool, servers: &Vec<BrowserServer>) -> (text: String)
    ensures
        spells(text@, ready_tree(online, servers.deep_view()), 4),
        json_document(encode_utf8(text@)) matches Some(document) && {
            &&& text_member_of(document, "type"@) == Some("ready"@)
            &&& unsigned_member_of(document, "protocol"@) == Some(1u64)
            &&& flag_member_of(document, "peerOnline"@) == Some(online)
            &&& member_of(document, "iceServers"@) == Some(
                tree_shape(servers_tree(servers.deep_view())),
            )
        },
{
    let ghost tree = ready_tree(online, servers.deep_view());
    let ghost trees = tree->Object_0;
    let mut members: Vec<(String, String)> = Vec::new();
    members.push(("type".to_owned(), write_text("ready")));
    members.push(("protocol".to_owned(), write_unsigned(1)));
    members.push(("peerOnline".to_owned(), write_flag(online)));
    members.push(("iceServers".to_owned(), write_servers(servers)));
    proof {
        lemma_own_names();
    }
    let text = write_object(members, Ghost(trees), Ghost(3));
    proof {
        lemma_ready_members(online, servers.deep_view());
    }
    text
}

/// What is found in the first message to a peer.
pub proof fn lemma_ready_members(online: bool, servers: Seq<BrowserServerModel>)
    requires
        reads_back(ready_tree(online, servers)),
    ensures
        ({
            let document = tree_shape(ready_tree(online, servers));
            &&& text_member_of(document, "type"@) == Some("ready"@)
            &&& unsigned_member_of(document, "protocol"@) == Some(1u64)
            &&& flag_member_of(document, "peerOnline"@) == Some(online)
            &&& member_of(document, "iceServers"@) == Some(tree_shape(servers_tree(servers)))
            &&& forall|name: Seq<char>|
                #![trigger member_of(document, name)]
                name != "type"@ && name != "protocol"@ && name != "peerOnline"@ && name
                    != "iceServers"@ ==> member_of(document, name) is None
        }),
{
    reveal_strlit("type");
    reveal_strlit("protocol");
    reveal_strlit("peerOnline");
    reveal_strlit("iceServers");
    assert("type"@.len() == 4 && "protocol"@.len() == 8);
    assert("peerOnline"@.len() == 10 && "iceServers"@.len() == 10);
    assert("peerOnline"@[0] == 'p' && "iceServers"@[0] == 'i');
    reveal_with_fuel(members_map, 5);
    let trees = ready_tree(online, servers)->Object_0;
    lemma_only_members(trees);
    let texts = member_texts(trees);
    assert(texts =~= seq![
        ("type"@, tree_text(JsonTree::Text("ready"@))),
        ("protocol"@, tree_text(JsonTree::Unsigned(1))),
        ("peerOnline"@, tree_text(JsonTree::Bool(online))),
        ("iceServers"@, tree_text(servers_tree(servers))),
    ]);
    assert(texts.drop_last().drop_last().drop_last().drop_last() =~= Seq::empty());
    let map = members_map(texts);
    assert(map =~= Map::<Seq<char>, Seq<char>>::empty().insert(texts[0].0, texts[0].1).insert(
        texts[1].0,
        texts[1].1,
    ).insert(texts[2].0, texts[2].1).insert(texts[3].0, texts[3].1));
    assert(map["type"@] == texts[0].1);
    assert(map["protocol"@] == texts[1].1);
    assert(map["peerOnline"@] == texts[2].1);
    assert(map["iceServers"@] == texts[3].1);
    assert(reads_back(trees[0].1));
    assert(reads_back(trees[1].1));
    assert(reads_back(trees[2].1));
    assert(reads_back(trees[3].1));
}

/// The home agent is given the servers that the signaling server was set up
/// with: those of them that it can use, read from the first message.
pub proof fn lemma_ready_gives_servers(online: bool, servers: Seq<BrowserServerModel>)
    requires
        reads_back(ready_tree(online, servers)),
    ensures
        member_of(tree_shape(ready_tree(online, servers)), "iceServers"@) matches Some(list)
            && usable_servers(specs_in(list)) == usable_servers(sent_specs(servers)),
{
    lemma_ready_members(online, servers);
    let trees = ready_tree(online, servers)->Object_0;
    assert(reads_back(trees[3].1));
    lemma_servers_read_back(servers);
}

/// What comes over a connection.
pub enum Incoming {
    Close,
    Ping(Vec<u8>),
    Pong,
    Text(String),
    Binary,
}

/// What is to be done with it.
pub enum Outcome {
    /// End the connection.
    Close,
    Nothing,
    /// Answer a ping with the same bytes.
    Pong(Vec<u8>),
    /// Say something to the peer itself.
    Reply(String),
    /// Pass the message on, as it came, to the peer with this number.
    Forward(u128),
}

/// What an [`Outcome`] holds.
pub enum OutcomeModel {
    Close,
    Nothing,
    Pong(Seq<u8>),
    Reply(Seq<char>),
    Forward(u128),
}

impl DeepView for Outcome {
    type V = OutcomeModel;

    open spec fn deep_view(&self) -> OutcomeModel {
        match self {
            Outcome::Close => OutcomeModel::Close,
            Outcome::Nothing => OutcomeModel::Nothing,
            Outcome::Pong(data) => OutcomeModel::Pong(data@),
            Outcome::Reply(text) => OutcomeModel::Reply(text@),
            Outcome::Forward(id) => OutcomeModel::Forward(*id),
        }
    }
}

/// What the server keeps of a connection.
#[derive(Clone, Copy, Debug, PartialEq, Eq, Structural)]
pub struct Connection {
    /// When a message last came.
    pub last_message: u64,
    /// When the window of time began.
    pub window: u64,
    /// Messages in the window.
    pub count: usize,
}

/// A connection that begins.
pub open spec fn begun_connection(now: u64) -> Connection {
    Connection { last_message: now, window: now, count: 0 }
}

/// The connection once a text came, the text counted.
pub open spec fn counted(connection: Connection, now: u64) -> Connection {
    if elapsed(now, connection.window) >= WINDOW_NANOS {
        Connection { last_message: now, window: now, count: 1 }
    } else {
        Connection {
            last_message: now,
            window: connection.window,
            count: (connection.count + 1) as usize,
        }
    }
}

/// What is done with a text: it ends the connection where it is one too many
/// or cannot be read; a ping is answered; what is not acceptable is refused;
/// the rest is passed on where the other peer is there.
pub open spec fn text_outcome(
    connection: Connection,
    signal: Option<SignalModel>,
    role: Role,
    target: Option<u128>,
    now: u64,
) -> OutcomeModel {
    if counted(connection, now).count > MAX_MESSAGES {
        OutcomeModel::Close
    } else {
        match signal {
            None => OutcomeModel::Close,
            Some(signal) => if signal.kind == Some("ping"@) {
                OutcomeModel::Reply(tree_text(notice_tree(Notice::Pong)))
            } else if !acceptable(signal, role) {
                OutcomeModel::Reply(tree_text(notice_tree(Notice::InvalidMessage)))
            } else {
                match target {
                    Some(id) => OutcomeModel::Forward(id),
                    None => OutcomeModel::Reply(tree_text(notice_tree(Notice::PeerUnavailable))),
                }
            },
        }
    }
}

/// The signaling message in a text, `None` where it is not JSON.
pub open spec fn signal_of(text: Seq<char>) -> Option<SignalModel> {
    match json_document(encode_utf8(text)) {
        Some(document) => Some(signal_in(document)),
        None => None,
    }
}

/// The connection once something came over it.
pub open spec fn heard(connection: Connection, message: Incoming, now: u64) -> Connection {
    match message {
        Incoming::Text(_) => counted(connection, now),
        _ => Connection { last_message: now, ..connection },
    }
}

/// What is done with what comes over a connection.
pub open spec fn message_outcome(
    connection: Connection,
    message: Incoming,
    role: Role,
    target: Option<u128>,
    now: u64,
) -> OutcomeModel {
    match message {
        Incoming::Close => OutcomeModel::Close,
        Incoming::Ping(data) => OutcomeModel::Pong(data@),
        Incoming::Pong => OutcomeModel::Nothing,
        Incoming::Binary => OutcomeModel::Close,
        Incoming::Text(text) => text_outcome(connection, signal_of(text@), role, target, now),
    }
}

/// Nothing came over a connection for too long.
pub open spec fn fallen_silent(connection: Connection, now: u64) -> bool {
    elapsed(now, connection.last_message) > SILENCE_NANOS
}

impl Connection {
    /// Not too many messages came in the window of time.
    pub open spec fn open(self) -> bool {
        self.count <= MAX_MESSAGES
    }

    /// A connection that begins.
    pub fn new(now: u64) -> (connection: Connection)
        ensures
            connection.open(),
            connection == begun_connection(now),
    {
        Connection { last_message: now, window: now, count: 0 }
    }

    /// Takes a text that was read already.
    pub fn on_signal(
        &mut self,
        signal: Option<Signal>,
        role: Role,
        target: Option<u128>,
        now: u64,
    ) -> (outcome: Outcome)
        requires
            old(self).open(),
        ensures
            *final(self) == counted(*old(self), now),
            outcome.deep_view() == text_outcome(
                *old(self),
                signal.deep_view(),
                role,
                target,
                now,
            ),
            !(outcome is Close) ==> final(self).open(),
    {
        self.last_message = now;
        let age: u64 = if now >= self.window { now - self.window } else { 0 };
        if age >= WINDOW_NANOS {
            self.count = 0;
            self.window = now;
        }
        self.count = self.count + 1;
        if self.count > MAX_MESSAGES {
            return Outcome::Close;
        }
        let signal = match signal {
            Some(signal) => signal,
            None => return Outcome::Close,
        };
        if let Some(kind) = &signal.kind {
            if text_equal(kind.as_str(), "ping") {
                return Outcome::Reply(write_notice(Notice::Pong));
            }
        }
        if !accepts(&signal, role) {
            return Outcome::Reply(write_notice(Notice::InvalidMessage));
        }
        match target {
            Some(id) => Outcome::Forward(id),
            None => Outcome::Reply(write_notice(Notice::PeerUnavailable)),
        }
    }

    /// Takes what comes over the connection of the peer in a place. Once the
    /// connection is ended nothing more is taken.
    pub fn on_message(
        &mut self,
        message: Incoming,
        rooms: &Rooms,
        room: &str,
        role: Role,
        now: u64,
    ) -> (outcome: Outcome)
        requires
            old(self).open(),
            rooms.wf(),
        ensures
            *final(self) == heard(*old(self), message, now),
            outcome.deep_view() == message_outcome(
                *old(self),
                message,
                role,
                open_opposite(rooms@, room@, role),
                now,
            ),
            !(outcome is Close) ==> final(self).open(),
    {
        match message {
            Incoming::Close => {
                self.last_message = now;
                Outcome::Close
            },
            Incoming::Ping(data) => {
                self.last_message = now;
                Outcome::Pong(data)
            },
            Incoming::Pong => {
                self.last_message = now;
                Outcome::Nothing
            },
            Incoming::Binary => {
                self.last_message = now;
                Outcome::Close
            },
            Incoming::Text(text) => {
                let signal = match parse_json(text.as_str().as_bytes()) {
                    Some(document) => Some(read_signal(&document)),
                    None => None,
                };
                self.on_signal(signal, role, rooms.target(room, role), now)
            },
        }
    }

    /// Whether the connection is given up, because nothing came for too long.
    pub fn is_silent(&self, now: u64) -> (silent: bool)
        ensures
            silent == fallen_silent(*self, now),
    {
        now >= self.last_message && now - self.last_message > SILENCE_NANOS
    }
}

/// A message is only ever passed to the open connection opposite in the same
/// room, and only where it is acceptable from that side.
pub proof fn lemma_forwards_inside_room(
    connection: Connection,
    signal: Option<SignalModel>,
    role: Role,
    target: Option<u128>,
    now: u64,
)
    requires
        text_outcome(connection, signal, role, target, now) is Forward,
    ensures
        target is Some,
        text_outcome(connection, signal, role, target, now) == OutcomeModel::Forward(target->0),
        signal matches Some(signal) && acceptable(signal, role),
{
}

/// Whoever reads a notice finds what it says.
pub proof fn lemma_notice_read(notice: Notice)
    requires
        reads_back(notice_tree(notice)),
    ensures
        ({
            let document = tree_shape(notice_tree(notice));
            &&& notice is PeerLeft ==> text_member_of(document, "type"@) == Some("peer-left"@)
            &&& notice is PeerJoined ==> text_member_of(document, "type"@) == Some("peer-joined"@)
            &&& notice is PeerUnavailable ==> text_member_of(document, "type"@) == Some(
                "peer-unavailable"@,
            )
            &&& notice is Pong ==> text_member_of(document, "type"@) == Some("pong"@)
            &&& notice is InvalidMessage ==> text_member_of(document, "type"@) == Some("error"@)
                && text_member_of(document, "message"@) == Some("invalid signaling message"@)
            &&& forall|name: Seq<char>|
                #![trigger member_of(document, name)]
                name != "type"@ && !(notice is InvalidMessage && name == "message"@) ==> member_of(
                    document,
                    name,
                ) is None
        }),
{
    reveal_strlit("type");
    reveal_strlit("message");
    assert("type"@.len() == 4 && "message"@.len() == 7);
    let members = notice_tree(notice)->Object_0;
    lemma_only_members(members);
    lemma_member_reads(members, 0);
    if notice == Notice::InvalidMessage {
        lemma_member_reads(members, 1);
    }
}

/// The words of the kinds of message are different words.
proof fn lemma_kinds_differ()
    ensures
        "ping"@ != "offer"@ && "ping"@ != "answer"@ && "ping"@ != "ice"@ && "ping"@ != "hangup"@,
        "offer"@ != "answer"@ && "offer"@ != "ice"@ && "offer"@ != "hangup"@,
        "answer"@ != "ice"@ && "answer"@ != "hangup"@ && "ice"@ != "hangup"@,
{
    reveal_strlit("ping");
    reveal_strlit("offer");
    reveal_strlit("answer");
    reveal_strlit("ice");
    reveal_strlit("hangup");
    assert("ping"@.len() == 4 && "offer"@.len() == 5 && "answer"@.len() == 6 && "ice"@.len() == 3
        && "hangup"@.len() == 6);
    assert("answer"@[0] == 'a' && "hangup"@[0] == 'h');
}

/// What is done with a message, whichever side it comes from. At most 128 in a
/// second are taken; the next ends the connection, as does one that is not JSON. A
/// ping is answered. An offer of the browser and an answer of the home agent,
/// each with a description, a candidate and a hangup of either are passed to the
/// other side, where they name a session of 1 to 64 bytes; where the other side
/// is not there the sender is told so. Anything else is refused.
pub proof fn lemma_message_passed_on(
    connection: Connection,
    text: Seq<char>,
    role: Role,
    target: Option<u128>,
    now: u64,
)
    requires
        connection.open(),
    ensures
        ({
            let outcome = text_outcome(connection, signal_of(text), role, target, now);
            let fits = now >= connection.window + 1_000_000_000 || connection.count < 128;
            &&& !fits ==> outcome is Close
            &&& json_document(encode_utf8(text)) is None ==> outcome is Close
            &&& fits ==> (json_document(encode_utf8(text)) matches Some(document) ==> {
                let kind = text_member_of(document, "type"@);
                let described = text_member_of(document, "sdp"@) matches Some(sdp) && sdp.len()
                    > 0;
                let passes = {
                    &&& text_member_of(document, "session"@) matches Some(session) && 1
                        <= byte_length(session) <= 64
                    &&& {
                        ||| role == Role::Browser && kind == Some("offer"@) && described
                        ||| role == Role::Home && kind == Some("answer"@) && described
                        ||| kind == Some("ice"@) && (member_of(document, "candidate"@) matches Some(
                            JsonShape::Object(_),
                        ))
                        ||| kind == Some("hangup"@)
                    }
                };
                &&& kind == Some("ping"@) ==> outcome == OutcomeModel::Reply(
                    tree_text(JsonTree::Object(seq![("type"@, JsonTree::Text("pong"@))])),
                )
                &&& passes ==> (target matches Some(id) ==> outcome == OutcomeModel::Forward(id))
                &&& passes && target is None ==> outcome == OutcomeModel::Reply(
                    tree_text(
                        JsonTree::Object(seq![("type"@, JsonTree::Text("peer-unavailable"@))]),
                    ),
                )
                &&& !passes && kind != Some("ping"@) ==> outcome == OutcomeModel::Reply(
                    tree_text(
                        JsonTree::Object(
                            seq![
                                ("type"@, JsonTree::Text("error"@)),
                                ("message"@, JsonTree::Text("invalid signaling message"@)),
                            ],
                        ),
                    ),
                )
            })
        }),
{
    lemma_kinds_differ();
}

/// A text is counted in the second that runs, or begins a new one where a second
/// has passed; the time of the last message is now whatever came.
pub proof fn lemma_counted(connection: Connection, message: Incoming, now: u64)
    requires
        connection.open(),
    ensures
        connection.count <= 128,
        begun_connection(now).count == 0 && begun_connection(now).window == now
            && begun_connection(now).last_message == now,
        heard(connection, message, now).last_message == now,
        message is Text && now >= connection.window + 1_000_000_000 ==> heard(
            connection,
            message,
            now,
        ).count == 1 && heard(connection, message, now).window == now,
        message is Text && now < connection.window + 1_000_000_000 ==> heard(
            connection,
            message,
            now,
        ).count == connection.count + 1 && heard(connection, message, now).window
            == connection.window,
        !(message is Text) ==> heard(connection, message, now).count == connection.count && heard(
            connection,
            message,
            now,
        ).window == connection.window,
{
}

/// A ping of the connection is answered with its own bytes and a pong with
/// nothing; a binary message ends the connection, as its end does.
pub proof fn lemma_message_kinds(
    connection: Connection,
    message: Incoming,
    role: Role,
    target: Option<u128>,
    now: u64,
)
    ensures
        ({
            let outcome = message_outcome(connection, message, role, target, now);
            &&& message is Close || message is Binary ==> outcome is Close
            &&& message is Pong ==> outcome is Nothing
            &&& message matches Incoming::Ping(data) ==> outcome == OutcomeModel::Pong(data@)
            &&& message matches Incoming::Text(text) ==> outcome == text_outcome(
                connection,
                signal_of(text@),
                role,
                target,
                now,
            )
        }),
{
}

/// A connection is given up exactly where nothing came for more than 65 seconds.
pub proof fn lemma_silence(connection: Connection, now: u64)
    ensures
        fallen_silent(connection, now) <==> now > connection.last_message + 65_000_000_000,
        MAX_SIGNAL_BYTES == 65536,
{
}

} // verus!
