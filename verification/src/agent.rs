//! The agent's connection to the signaling server: what it does with each
//! message, and what it says.
//!
//! [`Session`] decides; the caller makes and closes peer connections, sends
//! what it is told to send and reports back. Time is counted in nanoseconds on
//! a clock that does not run backwards.

use crate::config::Config;
use crate::ice::{
    ice_servers_from_signaling, merged_rtc, sent_specs, specs_in, usable_servers,
    BrowserServerModel, IceServer, IceServerModel, RtcConfiguration, RtcModel,
};
use crate::json::{
    decode_json, json_document, json_reading, last_member, lemma_member_reads, lemma_only_members,
    lemma_own_names, member, member_of, reads_back, spells, text_member, text_member_of, tree_shape,
    unsigned_member, unsigned_member_of, write_object, write_text, write_unsigned, Json, JsonShape,
    JsonTree,
};
use crate::rpc::elapsed;
use crate::signaling::{
    lemma_ready_gives_servers, lemma_ready_members, ready_tree, MAX_SIGNAL_BYTES, SILENCE_NANOS,
};
use crate::text::{byte_len, byte_length, text_equal};
use vstd::prelude::*;
use vstd::utf8::encode_utf8;

verus! {

/// Most candidates that are kept for a session that was not offered yet.
pub const MAX_EARLY: usize = 128;

/// A candidate for a connection.
pub struct CandidateOf<T> {
    pub candidate: T,
    pub sdp_mid: Option<T>,
    pub sdp_mline_index: Option<u16>,
    pub username_fragment: Option<T>,
}

/// A candidate for a connection.
pub type Candidate = CandidateOf<String>;

impl DeepView for CandidateOf<String> {
    type V = CandidateOf<Seq<char>>;

    open spec fn deep_view(&self) -> CandidateOf<Seq<char>> {
        CandidateOf {
            candidate: self.candidate@,
            sdp_mid: self.sdp_mid.deep_view(),
            sdp_mline_index: self.sdp_mline_index,
            username_fragment: self.username_fragment.deep_view(),
        }
    }
}

/// The candidate that `webrtc`'s `RTCIceCandidateInit` is read from a JSON text
/// as, `None` where it cannot be read.
pub uninterp spec fn candidate_in(text: Seq<char>) -> Option<CandidateOf<Seq<char>>>;

/// Reads a candidate with `serde_json::from_str` as `webrtc`'s
/// `RTCIceCandidateInit`. The result is named [`candidate_in`].
#[verifier::external_body]
fn parse_candidate(text: &str) -> (candidate: Option<Candidate>)
    ensures
        candidate.deep_view() == candidate_in(text@),
{
    serde_json::from_str::<webrtc::ice_transport::ice_candidate::RTCIceCandidateInit>(text)
        .ok()
        .map(
            |init| CandidateOf {
                candidate: init.candidate,
                sdp_mid: init.sdp_mid,
                sdp_mline_index: init.sdp_mline_index,
                username_fragment: init.username_fragment,
            },
        )
}

/// What the agent reads of a signaling message.
pub enum AgentMessage {
    /// The signaling server is ready: the ICE servers, or `None` where it
    /// speaks another protocol.
    Ready(Option<Vec<IceServer>>),
    /// A browser offers a session.
    Offer(String, Option<String>),
    /// A candidate for a session, where it can be read.
    Ice(String, Option<Candidate>),
    /// There is no browser.
    PeerGone,
    Hangup(String),
    /// The signaling server refused a message.
    Refused,
    Other,
}

/// What an [`AgentMessage`] holds.
pub enum AgentMessageModel {
    Ready(Option<Seq<IceServerModel>>),
    Offer(Seq<char>, Option<Seq<char>>),
    Ice(Seq<char>, Option<CandidateOf<Seq<char>>>),
    PeerGone,
    Hangup(Seq<char>),
    Refused,
    Other,
}

impl DeepView for AgentMessage {
    type V = AgentMessageModel;

    open spec fn deep_view(&self) -> AgentMessageModel {
        match self {
            AgentMessage::Ready(servers) => AgentMessageModel::Ready(servers.deep_view()),
            AgentMessage::Offer(session, sdp) => AgentMessageModel::Offer(
                session@,
                sdp.deep_view(),
            ),
            AgentMessage::Ice(session, candidate) => AgentMessageModel::Ice(
                session@,
                candidate.deep_view(),
            ),
            AgentMessage::PeerGone => AgentMessageModel::PeerGone,
            AgentMessage::Hangup(session) => AgentMessageModel::Hangup(session@),
            AgentMessage::Refused => AgentMessageModel::Refused,
            AgentMessage::Other => AgentMessageModel::Other,
        }
    }
}

/// The ICE servers that a document gives the agent.
pub open spec fn signaled_in(document: JsonShape) -> Seq<IceServerModel> {
    match member_of(document, "iceServers"@) {
        Some(list) => usable_servers(specs_in(list)),
        None => Seq::empty(),
    }
}

/// The session that a document names, empty where it names none.
pub open spec fn session_in(document: JsonShape) -> Seq<char> {
    match text_member_of(document, "session"@) {
        Some(session) => session,
        None => Seq::empty(),
    }
}

/// The candidate that a document gives, where it can be read.
pub open spec fn given_candidate(document: JsonShape) -> Option<CandidateOf<Seq<char>>> {
    match document {
        JsonShape::Object(members) => if members.contains_key("candidate"@) {
            candidate_in(members["candidate"@])
        } else {
            None
        },
        _ => None,
    }
}

/// The message in a document.
pub open spec fn agent_message(document: JsonShape) -> AgentMessageModel {
    match text_member_of(document, "type"@) {
        None => AgentMessageModel::Other,
        Some(kind) => if kind == "ready"@ {
            if unsigned_member_of(document, "protocol"@) == Some(1u64) {
                AgentMessageModel::Ready(Some(signaled_in(document)))
            } else {
                AgentMessageModel::Ready(None)
            }
        } else if kind == "offer"@ {
            AgentMessageModel::Offer(session_in(document), text_member_of(document, "sdp"@))
        } else if kind == "ice"@ {
            AgentMessageModel::Ice(session_in(document), given_candidate(document))
        } else if kind == "peer-left"@ || kind == "peer-unavailable"@ {
            AgentMessageModel::PeerGone
        } else if kind == "hangup"@ {
            AgentMessageModel::Hangup(session_in(document))
        } else if kind == "error"@ {
            AgentMessageModel::Refused
        } else {
            AgentMessageModel::Other
        },
    }
}

/// Reads the session that a document names.
fn read_session(document: &Json) -> (session: String)
    ensures
        session@ == session_in(document.deep_view()),
{
    match text_member(document, "session") {
        Some(session) => session,
        None => String::new(),
    }
}

/// Reads the candidate that a document gives.
fn read_candidate(document: &Json) -> (candidate: Option<Candidate>)
    ensures
        candidate.deep_view() == given_candidate(document.deep_view()),
{
    match document {
        Json::Object(members) => match last_member(members, "candidate") {
            Some(i) => parse_candidate(members[i].1.as_str()),
            None => None,
        },
        _ => None,
    }
}

/// Reads the message in a document.
pub fn read_agent_message(document: &Json) -> (message: AgentMessage)
    ensures
        message.deep_view() == agent_message(document.deep_view()),
{
    let kind = match text_member(document, "type") {
        Some(kind) => kind,
        None => return AgentMessage::Other,
    };
    if text_equal(kind.as_str(), "ready") {
        let speaks = match unsigned_member(document, "protocol") {
            Some(protocol) => protocol == 1,
            None => false,
        };
        if !speaks {
            return AgentMessage::Ready(None);
        }
        let servers = match member(document, "iceServers") {
            Some(list) => ice_servers_from_signaling(&list),
            None => {
                let none: Vec<IceServer> = Vec::new();
                assert(none.deep_view() =~= Seq::<IceServerModel>::empty());
                none
            },
        };
        AgentMessage::Ready(Some(servers))
    } else if text_equal(kind.as_str(), "offer") {
        AgentMessage::Offer(read_session(document), text_member(document, "sdp"))
    } else if text_equal(kind.as_str(), "ice") {
        AgentMessage::Ice(read_session(document), read_candidate(document))
    } else if text_equal(kind.as_str(), "peer-left") || text_equal(
        kind.as_str(),
        "peer-unavailable",
    ) {
        AgentMessage::PeerGone
    } else if text_equal(kind.as_str(), "hangup") {
        AgentMessage::Hangup(read_session(document))
    } else if text_equal(kind.as_str(), "error") {
        AgentMessage::Refused
    } else {
        AgentMessage::Other
    }
}

/// Why a connection to the signaling server is given up.
pub enum SessionErrorOf<T> {
    Silence,
    TooLarge,
    /// A message is no JSON, for this reason.
    NotJson(T),
    Protocol,
}

/// Why a connection to the signaling server is given up.
pub type SessionError = SessionErrorOf<String>;

impl DeepView for SessionErrorOf<String> {
    type V = SessionErrorOf<Seq<char>>;

    open spec fn deep_view(&self) -> SessionErrorOf<Seq<char>> {
        match self {
            SessionErrorOf::Silence => SessionErrorOf::Silence,
            SessionErrorOf::TooLarge => SessionErrorOf::TooLarge,
            SessionErrorOf::NotJson(words) => SessionErrorOf::NotJson(words@),
            SessionErrorOf::Protocol => SessionErrorOf::Protocol,
        }
    }
}

/// A reason in words.
pub open spec fn session_error_words(error: SessionErrorOf<Seq<char>>) -> Seq<char> {
    match error {
        SessionErrorOf::Silence => "signaling heartbeat timed out"@,
        SessionErrorOf::TooLarge => "signaling message too large"@,
        SessionErrorOf::NotJson(words) => words,
        SessionErrorOf::Protocol => "unsupported signaling protocol"@,
    }
}

impl SessionErrorOf<String> {
    /// The reason in words.
    pub fn message(&self) -> (text: String)
        ensures
            text@ == session_error_words(self.deep_view()),
    {
        match self {
            SessionErrorOf::Silence => "signaling heartbeat timed out".to_owned(),
            SessionErrorOf::TooLarge => "signaling message too large".to_owned(),
            SessionErrorOf::NotJson(words) => words.clone(),
            SessionErrorOf::Protocol => "unsupported signaling protocol".to_owned(),
        }
    }
}

/// What the agent keeps of its connection to the signaling server.
pub struct Session {
    /// The session of the peer connection, where there is one.
    pub peer: Option<String>,
    /// Candidates that came before their session was offered.
    pub early: Vec<(String, Candidate)>,
    /// The ICE servers that the signaling server gave.
    pub signaled: Vec<IceServer>,
    /// When a message last came.
    pub last_message: u64,
}

/// What a [`Session`] holds.
pub struct SessionModel {
    pub peer: Option<Seq<char>>,
    pub early: Seq<(Seq<char>, CandidateOf<Seq<char>>)>,
    pub signaled: Seq<IceServerModel>,
    pub last_message: u64,
}

impl DeepView for Session {
    type V = SessionModel;

    open spec fn deep_view(&self) -> SessionModel {
        SessionModel {
            peer: self.peer.deep_view(),
            early: self.early.deep_view(),
            signaled: self.signaled.deep_view(),
            last_message: self.last_message,
        }
    }
}

/// What the caller is to do.
pub enum AgentStep {
    Nothing,
    /// End the connection.
    End,
    /// Give the connection up.
    Fail(SessionError),
    /// Answer a ping with the same bytes.
    Pong(Vec<u8>),
    /// Close the peer connection, where there is one, and negotiate another.
    Negotiate(Offer),
    /// Hand the candidate to the peer connection.
    AddCandidate(Candidate),
    /// Close the peer connection, where there is one.
    ClosePeer,
    /// Note that the signaling server refused a message.
    Warn,
}

/// A session to be negotiated.
pub struct Offer {
    pub session: String,
    /// The description of the session; without one the negotiation fails.
    pub sdp: Option<String>,
    pub rtc: RtcConfiguration,
}

/// What an [`AgentStep`] holds.
pub enum AgentStepModel {
    Nothing,
    End,
    Fail(SessionErrorOf<Seq<char>>),
    Pong(Seq<u8>),
    Negotiate(Seq<char>, Option<Seq<char>>, RtcModel),
    AddCandidate(CandidateOf<Seq<char>>),
    ClosePeer,
    Warn,
}

impl DeepView for AgentStep {
    type V = AgentStepModel;

    open spec fn deep_view(&self) -> AgentStepModel {
        match self {
            AgentStep::Nothing => AgentStepModel::Nothing,
            AgentStep::End => AgentStepModel::End,
            AgentStep::Fail(error) => AgentStepModel::Fail(error.deep_view()),
            AgentStep::Pong(data) => AgentStepModel::Pong(data@),
            AgentStep::Negotiate(offer) => AgentStepModel::Negotiate(
                offer.session@,
                offer.sdp.deep_view(),
                offer.rtc.deep_view(),
            ),
            AgentStep::AddCandidate(candidate) => AgentStepModel::AddCandidate(
                candidate.deep_view(),
            ),
            AgentStep::ClosePeer => AgentStepModel::ClosePeer,
            AgentStep::Warn => AgentStepModel::Warn,
        }
    }
}

/// What a message does.
pub open spec fn stepped(
    session: SessionModel,
    message: AgentMessageModel,
    local: RtcModel,
) -> (SessionModel, AgentStepModel) {
    match message {
        AgentMessageModel::Ready(None) => (session, AgentStepModel::Fail(SessionErrorOf::Protocol)),
        AgentMessageModel::Ready(Some(servers)) => (
            SessionModel { signaled: servers, ..session },
            AgentStepModel::Nothing,
        ),
        AgentMessageModel::Offer(id, sdp) => if 1 <= byte_length(id) <= 64 {
            (
                SessionModel { peer: None, ..session },
                AgentStepModel::Negotiate(id, sdp, merged_rtc(local, session.signaled)),
            )
        } else {
            (session, AgentStepModel::Nothing)
        },
        AgentMessageModel::Ice(_, None) => (session, AgentStepModel::Nothing),
        AgentMessageModel::Ice(id, Some(candidate)) => if session.peer == Some(id) {
            (session, AgentStepModel::AddCandidate(candidate))
        } else if id.len() > 0 && session.early.len() < MAX_EARLY {
            (
                SessionModel { early: session.early.push((id, candidate)), ..session },
                AgentStepModel::Nothing,
            )
        } else {
            (session, AgentStepModel::Nothing)
        },
        AgentMessageModel::PeerGone => (
            SessionModel { peer: None, early: Seq::empty(), ..session },
            AgentStepModel::ClosePeer,
        ),
        AgentMessageModel::Hangup(id) => if session.peer == Some(id) {
            (
                SessionModel { peer: None, early: Seq::empty(), ..session },
                AgentStepModel::ClosePeer,
            )
        } else {
            (session, AgentStepModel::Nothing)
        },
        AgentMessageModel::Refused => (session, AgentStepModel::Warn),
        AgentMessageModel::Other => (session, AgentStepModel::Nothing),
    }
}

/// What a text does.
pub open spec fn stepped_by_text(session: SessionModel, text: Seq<char>, local: RtcModel) -> (
    SessionModel,
    AgentStepModel,
) {
    if byte_length(text) > MAX_SIGNAL_BYTES {
        (session, AgentStepModel::Fail(SessionErrorOf::TooLarge))
    } else {
        match json_reading(encode_utf8(text)) {
            Err(words) => (session, AgentStepModel::Fail(SessionErrorOf::NotJson(words))),
            Ok(document) => stepped(session, agent_message(document), local),
        }
    }
}

/// What comes over the connection.
pub enum AgentIncoming {
    /// The connection has ended.
    Ended,
    Close,
    Ping(Vec<u8>),
    Text(String),
    Other,
}

/// What something that comes over the connection does.
pub open spec fn stepped_by(
    session: SessionModel,
    incoming: AgentIncoming,
    local: RtcModel,
    now: u64,
) -> (SessionModel, AgentStepModel) {
    let heard = SessionModel { last_message: now, ..session };
    match incoming {
        AgentIncoming::Ended => (session, AgentStepModel::End),
        AgentIncoming::Close => (heard, AgentStepModel::End),
        AgentIncoming::Ping(data) => (heard, AgentStepModel::Pong(data@)),
        AgentIncoming::Text(text) => stepped_by_text(heard, text@, local),
        AgentIncoming::Other => (heard, AgentStepModel::Nothing),
    }
}

/// The candidates that came for a session, in their order.
pub open spec fn candidates_for(
    early: Seq<(Seq<char>, CandidateOf<Seq<char>>)>,
    session: Seq<char>,
) -> Seq<CandidateOf<Seq<char>>>
    decreases early.len(),
{
    if early.len() == 0 {
        Seq::empty()
    } else {
        let before = candidates_for(early.drop_last(), session);
        if early.last().0 == session {
            before.push(early.last().1)
        } else {
            before
        }
    }
}

/// A connection that begins.
pub open spec fn begun_session(now: u64) -> SessionModel {
    SessionModel { peer: None, early: Seq::empty(), signaled: Seq::empty(), last_message: now }
}

/// The connection with another peer connection, or with none.
pub open spec fn with_peer(session: SessionModel, peer: Option<Seq<char>>) -> SessionModel {
    SessionModel { peer, ..session }
}

/// The connection without the candidates that waited.
pub open spec fn without_early(session: SessionModel) -> SessionModel {
    SessionModel { early: Seq::empty(), ..session }
}

/// Nothing came over a connection for too long.
pub open spec fn grown_silent(last_message: u64, now: u64) -> bool {
    elapsed(now, last_message) > SILENCE_NANOS
}

impl Session {
    /// Not too many candidates wait.
    pub open spec fn wf(&self) -> bool {
        self.early@.len() <= MAX_EARLY
    }

    /// A connection that begins.
    pub fn new(now: u64) -> (session: Session)
        ensures
            session.wf(),
            session.deep_view() == begun_session(now),
    {
        let session = Session {
            peer: None,
            early: Vec::new(),
            signaled: Vec::new(),
            last_message: now,
        };
        proof {
            assert(session.early.deep_view() =~= Seq::empty());
            assert(session.signaled.deep_view() =~= Seq::empty());
        }
        session
    }

    /// The peer connection belongs to the session.
    fn has_peer(&self, session: &str) -> (found: bool)
        ensures
            found == (self.peer.deep_view() == Some(session@)),
    {
        match &self.peer {
            Some(peer) => text_equal(peer.as_str(), session),
            None => false,
        }
    }

    /// Forgets the peer connection and the candidates that wait.
    fn forget_peer(&mut self)
        ensures
            final(self).wf(),
            final(self).deep_view() == (SessionModel {
                peer: None,
                early: Seq::empty(),
                ..old(self).deep_view()
            }),
    {
        self.peer = None;
        self.early = Vec::new();
        assert(self.early.deep_view() =~= Seq::empty());
    }

    /// Takes a message that was read.
    pub fn handle(&mut self, message: AgentMessage, config: &Config) -> (step: AgentStep)
        requires
            old(self).wf(),
        ensures
            final(self).wf(),
            (final(self).deep_view(), step.deep_view()) == stepped(
                old(self).deep_view(),
                message.deep_view(),
                config.rtc.deep_view(),
            ),
    {
        match message {
            AgentMessage::Ready(None) => AgentStep::Fail(SessionErrorOf::Protocol),
            AgentMessage::Ready(Some(servers)) => {
                self.signaled = servers;
                AgentStep::Nothing
            },
            AgentMessage::Offer(session, sdp) => {
                let length: usize = byte_len(session.as_str());
                if length < 1 || length > 64 {
                    return AgentStep::Nothing;
                }
                self.peer = None;
                let rtc = config.rtc_configuration(&self.signaled);
                AgentStep::Negotiate(Offer { session, sdp, rtc })
            },
            AgentMessage::Ice(_, None) => AgentStep::Nothing,
            AgentMessage::Ice(session, Some(candidate)) => {
                if self.has_peer(session.as_str()) {
                    AgentStep::AddCandidate(candidate)
                } else {
                    if !session.as_str().is_empty() && self.early.len() < MAX_EARLY {
                        let ghost before = self.early.deep_view();
                        let ghost model = (session@, candidate.deep_view());
                        self.early.push((session, candidate));
                        assert(self.early.deep_view() =~= before.push(model));
                    }
                    AgentStep::Nothing
                }
            },
            AgentMessage::PeerGone => {
                self.forget_peer();
                AgentStep::ClosePeer
            },
            AgentMessage::Hangup(session) => {
                if self.has_peer(session.as_str()) {
                    self.forget_peer();
                    AgentStep::ClosePeer
                } else {
                    AgentStep::Nothing
                }
            },
            AgentMessage::Refused => AgentStep::Warn,
            AgentMessage::Other => AgentStep::Nothing,
        }
    }

    /// Takes what comes over the connection.
    pub fn on_message(&mut self, incoming: AgentIncoming, config: &Config, now: u64) -> (step:
        AgentStep)
        requires
            old(self).wf(),
        ensures
            final(self).wf(),
            (final(self).deep_view(), step.deep_view()) == stepped_by(
                old(self).deep_view(),
                incoming,
                config.rtc.deep_view(),
                now,
            ),
    {
        let text = match incoming {
            AgentIncoming::Ended => return AgentStep::End,
            AgentIncoming::Close => {
                self.last_message = now;
                return AgentStep::End;
            },
            AgentIncoming::Ping(data) => {
                self.last_message = now;
                return AgentStep::Pong(data);
            },
            AgentIncoming::Other => {
                self.last_message = now;
                return AgentStep::Nothing;
            },
            AgentIncoming::Text(text) => text,
        };
        self.last_message = now;
        if byte_len(text.as_str()) > MAX_SIGNAL_BYTES {
            return AgentStep::Fail(SessionErrorOf::TooLarge);
        }
        match decode_json(text.as_str().as_bytes()) {
            Err(words) => AgentStep::Fail(SessionErrorOf::NotJson(words)),
            Ok(document) => self.handle(read_agent_message(&document), config),
        }
    }

    /// Checks whether the connection is still alive.
    pub fn on_heartbeat(&self, now: u64) -> (result: Result<(), SessionError>)
        ensures
            match result {
                Ok(()) => !grown_silent(self.last_message, now),
                Err(error) => error is Silence && grown_silent(self.last_message, now),
            },
    {
        if now >= self.last_message && now - self.last_message > SILENCE_NANOS {
            Err(SessionErrorOf::Silence)
        } else {
            Ok(())
        }
    }

    /// Takes the candidates that came before a session was offered; those of
    /// other sessions are dropped.
    pub fn take_early(&mut self, session: &str) -> (candidates: Vec<Candidate>)
        requires
            old(self).wf(),
        ensures
            final(self).wf(),
            final(self).deep_view() == without_early(old(self).deep_view()),
            candidates.deep_view() == candidates_for(old(self).deep_view().early, session@),
    {
        let mut waiting: Vec<(String, Candidate)> = Vec::new();
        std::mem::swap(&mut waiting, &mut self.early);
        assert(self.early.deep_view() =~= Seq::empty());
        let ghost all = waiting.deep_view();
        let mut candidates: Vec<Candidate> = Vec::new();
        assert(candidates.deep_view() =~= Seq::empty());
        for entry in it: waiting
            invariant
                it.seq() == waiting@,
                all == waiting.deep_view(),
                candidates.deep_view() == candidates_for(all.take(it.index()), session@),
        {
            let ghost model = entry.deep_view();
            let ghost before = candidates.deep_view();
            proof {
                assert(all.take(it.index() + 1).drop_last() =~= all.take(it.index()));
                assert(all[it.index()] == model);
            }
            let (id, candidate) = entry;
            if text_equal(id.as_str(), session) {
                candidates.push(candidate);
                assert(candidates.deep_view() =~= before.push(model.1));
            }
        }
        assert(all.take(all.len() as int) =~= all);
        candidates
    }

    /// The session was negotiated: the peer connection is its own from now on.
    pub fn negotiated(&mut self, session: String)
        requires
            old(self).wf(),
        ensures
            final(self).wf(),
            final(self).deep_view() == with_peer(old(self).deep_view(), Some(session@)),
    {
        self.peer = Some(session);
    }

    /// The peer connection has stopped: gives its session, which is to be hung up.
    pub fn peer_stopped(&mut self) -> (session: Option<String>)
        requires
            old(self).wf(),
        ensures
            final(self).wf(),
            final(self).deep_view() == with_peer(old(self).deep_view(), None),
            session.deep_view() == old(self).deep_view().peer,
    {
        self.peer.take()
    }
}

/// An answer to an offer.
pub open spec fn answer_tree(session: Seq<char>, sdp: Seq<char>) -> JsonTree {
    JsonTree::Object(
        seq![
            ("type"@, JsonTree::Text("answer"@)),
            ("session"@, JsonTree::Text(session)),
            ("sdp"@, JsonTree::Text(sdp)),
        ],
    )
}

/// Writes an answer to an offer. Whoever reads it finds the session and its
/// description.
pub fn write_answer(session: &str, sdp: &str) -> (text: String)
    ensures
        spells(text@, answer_tree(session@, sdp@), 1),
        json_document(encode_utf8(text@)) matches Some(document) && {
            &&& text_member_of(document, "type"@) == Some("answer"@)
            &&& text_member_of(document, "session"@) == Some(session@)
            &&& text_member_of(document, "sdp"@) == Some(sdp@)
        },
{
    let ghost trees = answer_tree(session@, sdp@)->Object_0;
    let mut members: Vec<(String, String)> = Vec::new();
    members.push(("type".to_owned(), write_text("answer")));
    members.push(("session".to_owned(), write_text(session)));
    members.push(("sdp".to_owned(), write_text(sdp)));
    proof {
        lemma_own_names();
    }
    let text = write_object(members, Ghost(trees), Ghost(0));
    proof {
        lemma_answer_read(session@, sdp@);
    }
    text
}

/// The end of a session.
pub open spec fn hangup_tree(session: Seq<char>) -> JsonTree {
    JsonTree::Object(
        seq![("type"@, JsonTree::Text("hangup"@)), ("session"@, JsonTree::Text(session))],
    )
}

/// Writes the end of a session. Whoever reads it finds the session.
pub fn write_hangup(session: &str) -> (text: String)
    ensures
        spells(text@, hangup_tree(session@), 1),
        json_document(encode_utf8(text@)) matches Some(document) && {
            &&& text_member_of(document, "type"@) == Some("hangup"@)
            &&& text_member_of(document, "session"@) == Some(session@)
        },
{
    let ghost trees = hangup_tree(session@)->Object_0;
    let mut members: Vec<(String, String)> = Vec::new();
    members.push(("type".to_owned(), write_text("hangup")));
    members.push(("session".to_owned(), write_text(session)));
    proof {
        lemma_own_names();
    }
    let text = write_object(members, Ghost(trees), Ghost(0));
    proof {
        lemma_hangup_read(session@);
    }
    text
}

/// A text that may be absent.
pub open spec fn optional_tree(text: Option<Seq<char>>) -> JsonTree {
    match text {
        Some(text) => JsonTree::Text(text),
        None => JsonTree::Null,
    }
}

/// A candidate as it is sent.
pub open spec fn candidate_tree(candidate: CandidateOf<Seq<char>>) -> JsonTree {
    JsonTree::Object(
        seq![
            ("candidate"@, JsonTree::Text(candidate.candidate)),
            ("sdpMid"@, optional_tree(candidate.sdp_mid)),
            (
                "sdpMLineIndex"@,
                match candidate.sdp_mline_index {
                    Some(index) => JsonTree::Unsigned(index as u64),
                    None => JsonTree::Null,
                },
            ),
            ("usernameFragment"@, optional_tree(candidate.username_fragment)),
        ],
    )
}

/// A candidate for a session.
pub open spec fn ice_tree(session: Seq<char>, candidate: CandidateOf<Seq<char>>) -> JsonTree {
    JsonTree::Object(
        seq![
            ("type"@, JsonTree::Text("ice"@)),
            ("session"@, JsonTree::Text(session)),
            ("candidate"@, candidate_tree(candidate)),
        ],
    )
}

/// What is read of a candidate that was sent: each of its parts under its name,
/// or null where the part is absent.
pub open spec fn holds_candidate(parts: JsonShape, candidate: CandidateOf<Seq<char>>) -> bool {
    &&& text_member_of(parts, "candidate"@) == Some(candidate.candidate)
    &&& match candidate.sdp_mid {
        Some(mid) => text_member_of(parts, "sdpMid"@) == Some(mid),
        None => member_of(parts, "sdpMid"@) == Some(JsonShape::Null),
    }
    &&& match candidate.sdp_mline_index {
        Some(index) => unsigned_member_of(parts, "sdpMLineIndex"@) == Some(index as u64),
        None => member_of(parts, "sdpMLineIndex"@) == Some(JsonShape::Null),
    }
    &&& match candidate.username_fragment {
        Some(fragment) => text_member_of(parts, "usernameFragment"@) == Some(fragment),
        None => member_of(parts, "usernameFragment"@) == Some(JsonShape::Null),
    }
}

/// Writes a text that may be absent.
fn write_optional(text: &Option<String>) -> (written: String)
    ensures
        spells(written@, optional_tree(text.deep_view()), 0),
{
    match text {
        Some(text) => write_text(text.as_str()),
        None => crate::json::write_null(),
    }
}

/// Writes a candidate for a session. Whoever reads it finds the session and the
/// parts of the candidate.
pub fn write_ice(session: &str, candidate: &Candidate) -> (text: String)
    ensures
        spells(text@, ice_tree(session@, candidate.deep_view()), 2),
        json_document(encode_utf8(text@)) matches Some(document) && {
            &&& text_member_of(document, "type"@) == Some("ice"@)
            &&& text_member_of(document, "session"@) == Some(session@)
            &&& member_of(document, "candidate"@) matches Some(parts) && holds_candidate(
                parts,
                candidate.deep_view(),
            )
        },
{
    let ghost inner = candidate_tree(candidate.deep_view())->Object_0;
    let mut parts: Vec<(String, String)> = Vec::new();
    parts.push(("candidate".to_owned(), write_text(candidate.candidate.as_str())));
    parts.push(("sdpMid".to_owned(), write_optional(&candidate.sdp_mid)));
    let index = match candidate.sdp_mline_index {
        Some(index) => write_unsigned(index as u64),
        None => crate::json::write_null(),
    };
    parts.push(("sdpMLineIndex".to_owned(), index));
    parts.push(("usernameFragment".to_owned(), write_optional(&candidate.username_fragment)));
    proof {
        lemma_own_names();
    }
    let written = write_object(parts, Ghost(inner), Ghost(0));
    let ghost trees = ice_tree(session@, candidate.deep_view())->Object_0;
    let mut members: Vec<(String, String)> = Vec::new();
    members.push(("type".to_owned(), write_text("ice")));
    members.push(("session".to_owned(), write_text(session)));
    members.push(("candidate".to_owned(), written));
    proof {
        lemma_own_names();
    }
    let text = write_object(members, Ghost(trees), Ghost(1));
    proof {
        lemma_ice_read(session@, candidate.deep_view());
    }
    text
}

/// The description in an offer, or why no session is negotiated.
pub open spec fn offered_sdp(sdp: Option<Seq<char>>) -> Result<Seq<char>, Seq<char>> {
    match sdp {
        Some(sdp) => Ok(sdp),
        None => Err("missing offer"@),
    }
}

/// The description in an offer, without which no session is negotiated.
pub fn offered(sdp: Option<String>) -> (result: Result<String, &'static str>)
    ensures
        match result {
            Ok(text) => offered_sdp(sdp.deep_view()) == Ok::<Seq<char>, Seq<char>>(text@),
            Err(words) => offered_sdp(sdp.deep_view()) == Err::<Seq<char>, Seq<char>>(words@),
        },
{
    match sdp {
        Some(sdp) => Ok(sdp),
        None => Err("missing offer"),
    }
}

/// The state of a peer connection.
#[derive(Clone, Copy, Debug, PartialEq, Eq, Structural)]
pub enum PeerState {
    Unspecified,
    New,
    Connecting,
    Connected,
    Disconnected,
    Failed,
    Closed,
}

/// A peer connection is stopped in this state.
pub open spec fn stopped_in(state: PeerState) -> bool {
    state == PeerState::Failed || state == PeerState::Closed
}

impl PeerState {
    /// Whether a peer connection is stopped in this state. One that is
    /// disconnected may still recover.
    pub fn stops(self) -> (stopped: bool)
        ensures
            stopped == stopped_in(self),
    {
        match self {
            PeerState::Failed | PeerState::Closed => true,
            _ => false,
        }
    }
}

/// Lets one data channel through: the first with the right label.
#[derive(Clone, Copy, Debug, PartialEq, Eq, Structural)]
pub struct ChannelGate {
    pub taken: bool,
}

/// Whether a channel with a label is let through, and whether one was from then on.
pub open spec fn let_through(taken: bool, label: Seq<char>) -> (bool, bool) {
    (label == "ollama"@ && !taken, taken || label == "ollama"@)
}

impl ChannelGate {
    /// No channel was let through yet.
    pub fn new() -> (gate: ChannelGate)
        ensures
            !gate.taken,
    {
        ChannelGate { taken: false }
    }

    /// Whether a channel is let through; one with another label changes nothing.
    pub fn accept(&mut self, label: &str) -> (accepted: bool)
        ensures
            (accepted, final(self).taken) == let_through(old(self).taken, label@),
    {
        if !text_equal(label, "ollama") {
            return false;
        }
        let accepted = !self.taken;
        self.taken = true;
        accepted
    }
}

/// The shortest time between two connections, in milliseconds.
pub const MIN_BACKOFF_MILLIS: u64 = 500;

/// The longest time between two connections, in milliseconds.
pub const MAX_BACKOFF_MILLIS: u64 = 15_000;

/// A connection that lasted longer counts as a success.
pub const STABLE_NANOS: u64 = 10_000_000_000;

/// How long the agent waits before it connects again.
#[derive(Clone, Copy, Debug, PartialEq, Eq, Structural)]
pub struct Backoff {
    pub millis: u64,
}

/// The time that the agent waits after a connection.
pub open spec fn waits(backoff: Backoff, lasted: u64) -> u64 {
    if lasted > STABLE_NANOS {
        MIN_BACKOFF_MILLIS
    } else {
        backoff.millis
    }
}

/// The time that the agent waits after the connection that follows, where that
/// does not last.
pub open spec fn next_wait(backoff: Backoff, lasted: u64) -> u64 {
    if 2 * waits(backoff, lasted) < MAX_BACKOFF_MILLIS {
        (2 * waits(backoff, lasted)) as u64
    } else {
        MAX_BACKOFF_MILLIS
    }
}

impl Backoff {
    /// The time stays between the shortest and the longest.
    pub open spec fn wf(self) -> bool {
        MIN_BACKOFF_MILLIS <= self.millis <= MAX_BACKOFF_MILLIS
    }

    /// The shortest time at first.
    pub fn new() -> (backoff: Backoff)
        ensures
            backoff.wf(),
            backoff.millis == MIN_BACKOFF_MILLIS,
            backoff.millis == 500,
    {
        Backoff { millis: MIN_BACKOFF_MILLIS }
    }

    /// The time to wait after a connection that lasted so long; the time after
    /// the next one is twice that, up to the longest.
    pub fn after(&mut self, lasted: u64) -> (millis: u64)
        requires
            old(self).wf(),
        ensures
            final(self).wf(),
            millis == waits(*old(self), lasted),
            final(self).millis == next_wait(*old(self), lasted),
    {
        let millis: u64 = if lasted > STABLE_NANOS { MIN_BACKOFF_MILLIS } else { self.millis };
        self.millis = if 2 * millis < MAX_BACKOFF_MILLIS { 2 * millis } else { MAX_BACKOFF_MILLIS };
        millis
    }
}

/// The first message of the signaling server makes the agent use the servers
/// that the signaling server was set up with, as far as it can use them, in
/// every session that is offered afterwards.
pub proof fn lemma_ready_servers_are_used(
    session: SessionModel,
    local: RtcModel,
    online: bool,
    servers: Seq<BrowserServerModel>,
    id: Seq<char>,
    sdp: Option<Seq<char>>,
)
    requires
        reads_back(ready_tree(online, servers)),
        1 <= byte_length(id) <= 64,
    ensures
        ({
            let document = tree_shape(ready_tree(online, servers));
            let (after, step) = stepped(session, agent_message(document), local);
            &&& step == AgentStepModel::Nothing
            &&& after.signaled == usable_servers(sent_specs(servers))
            &&& stepped(after, AgentMessageModel::Offer(id, sdp), local).1
                == AgentStepModel::Negotiate(
                id,
                sdp,
                merged_rtc(local, usable_servers(sent_specs(servers))),
            )
        }),
{
    lemma_ready_members(online, servers);
    lemma_ready_gives_servers(online, servers);
}

/// A candidate that comes before its session is offered is handed over once
/// the session is, after those that came before it.
pub proof fn lemma_early_candidate_kept(
    session: SessionModel,
    id: Seq<char>,
    candidate: CandidateOf<Seq<char>>,
    local: RtcModel,
)
    requires
        session.peer != Some(id),
        id.len() > 0,
        session.early.len() < MAX_EARLY,
    ensures
        ({
            let after = stepped(session, AgentMessageModel::Ice(id, Some(candidate)), local).0;
            candidates_for(after.early, id) == candidates_for(session.early, id).push(candidate)
        }),
{
    let after = stepped(session, AgentMessageModel::Ice(id, Some(candidate)), local).0;
    assert(after.early.drop_last() =~= session.early);
}

/// Only candidates of the session that is offered are handed over.
pub proof fn lemma_early_of_one_session(
    early: Seq<(Seq<char>, CandidateOf<Seq<char>>)>,
    session: Seq<char>,
    i: int,
)
    requires
        0 <= i < candidates_for(early, session).len(),
    ensures
        exists|k: int|
            0 <= k < early.len() && (#[trigger] early[k]).0 == session && early[k].1
                == candidates_for(early, session)[i],
    decreases early.len(),
{
    if early.len() > 0 {
        let before = candidates_for(early.drop_last(), session);
        if i < before.len() {
            lemma_early_of_one_session(early.drop_last(), session, i);
            let k = choose|k: int|
                0 <= k < early.drop_last().len() && (#[trigger] early.drop_last()[k]).0 == session
                    && early.drop_last()[k].1 == before[i];
            assert(early[k].0 == session);
        } else {
            assert(early[early.len() - 1].0 == session);
        }
    }
}

/// Once the browser is gone, nothing of its session is left.
pub proof fn lemma_peer_gone_forgets(session: SessionModel, local: RtcModel, id: Seq<char>)
    ensures
        ({
            let after = stepped(session, AgentMessageModel::PeerGone, local).0;
            &&& after.peer is None
            &&& after.early.len() == 0
            &&& stepped(after, AgentMessageModel::Hangup(id), local) == (
                after,
                AgentStepModel::Nothing,
            )
        }),
{
}

/// Whoever reads an answer to an offer finds the session and its description.
pub proof fn lemma_answer_read(session: Seq<char>, sdp: Seq<char>)
    requires
        reads_back(answer_tree(session, sdp)),
    ensures
        ({
            let document = tree_shape(answer_tree(session, sdp));
            &&& text_member_of(document, "type"@) == Some("answer"@)
            &&& text_member_of(document, "session"@) == Some(session)
            &&& text_member_of(document, "sdp"@) == Some(sdp)
            &&& forall|name: Seq<char>|
                #![trigger member_of(document, name)]
                name != "type"@ && name != "session"@ && name != "sdp"@ ==> member_of(
                    document,
                    name,
                ) is None
        }),
{
    lemma_names_differ();
    let members = answer_tree(session, sdp)->Object_0;
    lemma_only_members(members);
    lemma_member_reads(members, 0);
    lemma_member_reads(members, 1);
    lemma_member_reads(members, 2);
}

/// Whoever reads the end of a session finds the session.
pub proof fn lemma_hangup_read(session: Seq<char>)
    requires
        reads_back(hangup_tree(session)),
    ensures
        text_member_of(tree_shape(hangup_tree(session)), "type"@) == Some("hangup"@),
        text_member_of(tree_shape(hangup_tree(session)), "session"@) == Some(session),
        forall|name: Seq<char>|
            #![trigger member_of(tree_shape(hangup_tree(session)), name)]
            name != "type"@ && name != "session"@ ==> member_of(
                tree_shape(hangup_tree(session)),
                name,
            ) is None,
{
    lemma_names_differ();
    let members = hangup_tree(session)->Object_0;
    lemma_only_members(members);
    lemma_member_reads(members, 0);
    lemma_member_reads(members, 1);
}

/// Whoever reads a candidate finds the session and each part of the candidate
/// under its name, null where it is absent.
pub proof fn lemma_ice_read(session: Seq<char>, candidate: CandidateOf<Seq<char>>)
    requires
        reads_back(ice_tree(session, candidate)),
    ensures
        ({
            let document = tree_shape(ice_tree(session, candidate));
            &&& text_member_of(document, "type"@) == Some("ice"@)
            &&& text_member_of(document, "session"@) == Some(session)
            &&& member_of(document, "candidate"@) matches Some(parts) && {
                &&& text_member_of(parts, "candidate"@) == Some(candidate.candidate)
                &&& candidate.sdp_mid matches Some(mid) ==> text_member_of(parts, "sdpMid"@)
                    == Some(mid)
                &&& candidate.sdp_mid is None ==> member_of(parts, "sdpMid"@) == Some(
                    JsonShape::Null,
                )
                &&& candidate.sdp_mline_index matches Some(index) ==> unsigned_member_of(
                    parts,
                    "sdpMLineIndex"@,
                ) == Some(index as u64)
                &&& candidate.sdp_mline_index is None ==> member_of(parts, "sdpMLineIndex"@)
                    == Some(JsonShape::Null)
                &&& candidate.username_fragment matches Some(fragment) ==> text_member_of(
                    parts,
                    "usernameFragment"@,
                ) == Some(fragment)
                &&& candidate.username_fragment is None ==> member_of(parts, "usernameFragment"@)
                    == Some(JsonShape::Null)
                &&& holds_candidate(parts, candidate)
            }
            &&& forall|name: Seq<char>|
                #![trigger member_of(document, name)]
                name != "type"@ && name != "session"@ && name != "candidate"@ ==> member_of(
                    document,
                    name,
                ) is None
        }),
{
    lemma_names_differ();
    let members = ice_tree(session, candidate)->Object_0;
    lemma_only_members(members);
    lemma_member_reads(members, 0);
    lemma_member_reads(members, 1);
    lemma_member_reads(members, 2);
    assert(reads_back(members[2].1));
    let parts = candidate_tree(candidate)->Object_0;
    lemma_member_reads(parts, 0);
    lemma_member_reads(parts, 1);
    lemma_member_reads(parts, 2);
    lemma_member_reads(parts, 3);
}

/// The names of the members of a message are different names.
proof fn lemma_names_differ()
    ensures
        "type"@ != "session"@ && "type"@ != "sdp"@ && "session"@ != "sdp"@ && "type"@
            != "candidate"@ && "session"@ != "candidate"@,
        "candidate"@ != "sdpMid"@ && "candidate"@ != "sdpMLineIndex"@ && "candidate"@
            != "usernameFragment"@,
        "sdpMid"@ != "sdpMLineIndex"@ && "sdpMid"@ != "usernameFragment"@ && "sdpMLineIndex"@
            != "usernameFragment"@,
{
    reveal_strlit("type");
    reveal_strlit("session");
    reveal_strlit("sdp");
    reveal_strlit("candidate");
    reveal_strlit("sdpMid");
    reveal_strlit("sdpMLineIndex");
    reveal_strlit("usernameFragment");
    assert("type"@.len() == 4 && "session"@.len() == 7 && "sdp"@.len() == 3);
    assert("candidate"@.len() == 9 && "sdpMid"@.len() == 6 && "sdpMLineIndex"@.len() == 13
        && "usernameFragment"@.len() == 16);
}

/// What a message of the signaling server says, by its kind. It is ready with
/// protocol 1 and the servers that can be used, or ready with something else; a
/// session is offered, given a candidate or hung up; the browser is not there;
/// or a message was refused. Any other kind says nothing.
pub proof fn lemma_agent_message(document: JsonShape)
    ensures
        ({
            let kind = text_member_of(document, "type"@);
            let message = agent_message(document);
            let session = match text_member_of(document, "session"@) {
                Some(session) => session,
                None => Seq::empty(),
            };
            &&& kind == Some("ready"@) && unsigned_member_of(document, "protocol"@) == Some(1u64)
                ==> (message matches AgentMessageModel::Ready(Some(servers)) && {
                &&& member_of(document, "iceServers"@) matches Some(list) ==> servers
                    == usable_servers(specs_in(list))
                &&& member_of(document, "iceServers"@) is None ==> servers.len() == 0
            })
            &&& kind == Some("ready"@) && unsigned_member_of(document, "protocol"@) != Some(1u64)
                ==> message == AgentMessageModel::Ready(None)
            &&& kind == Some("offer"@) ==> message == AgentMessageModel::Offer(
                session,
                text_member_of(document, "sdp"@),
            )
            &&& kind == Some("ice"@) ==> (message matches AgentMessageModel::Ice(named, candidate)
                && named == session && (document matches JsonShape::Object(members) ==> candidate
                == if members.contains_key("candidate"@) {
                candidate_in(members["candidate"@])
            } else {
                None
            }))
            &&& kind == Some("peer-left"@) || kind == Some("peer-unavailable"@) ==> message
                is PeerGone
            &&& kind == Some("hangup"@) ==> message == AgentMessageModel::Hangup(session)
            &&& kind == Some("error"@) ==> message is Refused
            &&& kind is None ==> message is Other
            &&& kind != Some("ready"@) && kind != Some("offer"@) && kind != Some("ice"@) && kind
                != Some("peer-left"@) && kind != Some("peer-unavailable"@) && kind != Some(
                "hangup"@,
            ) && kind != Some("error"@) ==> message is Other
        }),
{
    reveal_strlit("ready");
    reveal_strlit("offer");
    reveal_strlit("ice");
    reveal_strlit("peer-left");
    reveal_strlit("peer-unavailable");
    reveal_strlit("hangup");
    reveal_strlit("error");
    assert("ready"@.len() == 5 && "offer"@.len() == 5 && "ice"@.len() == 3 && "peer-left"@.len()
        == 9 && "peer-unavailable"@.len() == 16 && "hangup"@.len() == 6 && "error"@.len() == 5);
    assert("ready"@[0] == 'r' && "offer"@[0] == 'o' && "error"@[0] == 'e');
}

/// A session whose name has 1 to 64 bytes is negotiated as soon as it is offered,
/// with the servers of both sides; the peer connection that was there is dropped,
/// while candidates that wait go on waiting. An offer with another name does
/// nothing.
pub proof fn lemma_offer(
    session: SessionModel,
    id: Seq<char>,
    sdp: Option<Seq<char>>,
    local: RtcModel,
)
    ensures
        ({
            let (after, step) = stepped(session, AgentMessageModel::Offer(id, sdp), local);
            let named = 1 <= byte_length(id) <= 64;
            &&& !named ==> (after, step) == (session, AgentStepModel::Nothing)
            &&& named ==> {
                &&& step == AgentStepModel::Negotiate(
                    id,
                    sdp,
                    merged_rtc(local, session.signaled),
                )
                &&& after.peer is None
                &&& after.early == session.early && after.signaled == session.signaled
                    && after.last_message == session.last_message
            }
        }),
{
}

/// A candidate goes to the peer connection of its session. Where that is another
/// one it waits, up to 128 of them, if it names a session at all; one that could
/// not be read is dropped.
pub proof fn lemma_candidate(
    session: SessionModel,
    id: Seq<char>,
    candidate: CandidateOf<Seq<char>>,
    local: RtcModel,
)
    ensures
        ({
            let (after, step) = stepped(
                session,
                AgentMessageModel::Ice(id, Some(candidate)),
                local,
            );
            let own = session.peer == Some(id);
            &&& own ==> after == session && step == AgentStepModel::AddCandidate(candidate)
            &&& !own ==> step is Nothing
            &&& !own && id.len() > 0 && session.early.len() < 128 ==> {
                &&& after.early == session.early.push((id, candidate))
                &&& after.peer == session.peer && after.signaled == session.signaled
                    && after.last_message == session.last_message
            }
            &&& !own && (id.len() == 0 || session.early.len() >= 128) ==> after == session
        }),
        stepped(session, AgentMessageModel::Ice(id, None), local) == (
            session,
            AgentStepModel::Nothing,
        ),
{
}

/// A hangup of the session that is connected closes the peer connection and drops
/// what waits, and one of another session does nothing; a browser that is gone
/// closes it in any case. The servers that were signaled stay.
pub proof fn lemma_session_ends(session: SessionModel, id: Seq<char>, local: RtcModel)
    ensures
        session.peer != Some(id) ==> stepped(session, AgentMessageModel::Hangup(id), local) == (
            session,
            AgentStepModel::Nothing,
        ),
        session.peer == Some(id) ==> stepped(session, AgentMessageModel::Hangup(id), local)
            == stepped(session, AgentMessageModel::PeerGone, local),
        ({
            let (after, step) = stepped(session, AgentMessageModel::PeerGone, local);
            &&& step is ClosePeer
            &&& after.peer is None && after.early.len() == 0
            &&& after.signaled == session.signaled && after.last_message == session.last_message
        }),
{
}

/// Servers that are signaled take the place of those before, a server that speaks
/// another protocol is given up, a refusal is noted, and anything else does
/// nothing.
pub proof fn lemma_other_messages(
    session: SessionModel,
    servers: Seq<IceServerModel>,
    local: RtcModel,
)
    ensures
        ({
            let (after, step) = stepped(session, AgentMessageModel::Ready(Some(servers)), local);
            &&& step is Nothing
            &&& after.signaled == servers
            &&& after.peer == session.peer && after.early == session.early && after.last_message
                == session.last_message
        }),
        stepped(session, AgentMessageModel::Ready(None), local) == (
            session,
            AgentStepModel::Fail(SessionErrorOf::Protocol),
        ),
        stepped(session, AgentMessageModel::Refused, local) == (session, AgentStepModel::Warn),
        stepped(session, AgentMessageModel::Other, local) == (session, AgentStepModel::Nothing),
{
}

/// What comes over the connection: a text of more than 65536 bytes, and one that
/// is not JSON, give it up; any other text does what it says. A ping is answered
/// with its bytes, the end ends it. Whatever comes while it lasts is noted as the
/// last that came.
pub proof fn lemma_comes_in(
    session: SessionModel,
    incoming: AgentIncoming,
    local: RtcModel,
    now: u64,
)
    ensures
        ({
            let (after, step) = stepped_by(session, incoming, local, now);
            let heard = SessionModel { last_message: now, ..session };
            &&& incoming is Ended ==> after == session && step is End
            &&& incoming is Close ==> after == heard && step is End
            &&& incoming is Other ==> after == heard && step is Nothing
            &&& incoming matches AgentIncoming::Ping(data) ==> after == heard && step
                == AgentStepModel::Pong(data@)
            &&& incoming matches AgentIncoming::Text(text) ==> {
                &&& byte_length(text@) > 65536 ==> after == heard && step == AgentStepModel::Fail(
                    SessionErrorOf::TooLarge,
                )
                &&& byte_length(text@) <= 65536 ==> (json_reading(encode_utf8(text@)) matches Err(
                    words,
                ) ==> after == heard && step == AgentStepModel::Fail(
                    SessionErrorOf::NotJson(words),
                ))
                &&& byte_length(text@) <= 65536 ==> (json_reading(encode_utf8(text@)) matches Ok(
                    document,
                ) ==> (after, step) == stepped(heard, agent_message(document), local))
            }
            &&& !(incoming is Ended) ==> after.last_message == now
        }),
{
}

/// The candidates of a session are those that came for it, in their order: one
/// more for it comes behind them, one for another changes nothing.
pub proof fn lemma_candidates_for(
    early: Seq<(Seq<char>, CandidateOf<Seq<char>>)>,
    session: Seq<char>,
    other: Seq<char>,
    candidate: CandidateOf<Seq<char>>,
)
    ensures
        candidates_for(Seq::empty(), session).len() == 0,
        candidates_for(early.push((session, candidate)), session) == candidates_for(
            early,
            session,
        ).push(candidate),
        other != session ==> candidates_for(early.push((other, candidate)), session)
            == candidates_for(early, session),
{
    assert(early.push((session, candidate)).drop_last() =~= early);
    assert(early.push((other, candidate)).drop_last() =~= early);
}

/// A connection begins with nothing but its time, and is given up exactly where
/// nothing came for more than 65 seconds.
pub proof fn lemma_begun_session(now: u64, last_message: u64)
    ensures
        begun_session(now).peer is None && begun_session(now).early.len() == 0
            && begun_session(now).signaled.len() == 0 && begun_session(now).last_message == now,
        grown_silent(last_message, now) <==> now > last_message + 65_000_000_000,
{
}

/// A peer connection is stopped once it failed or was closed, and in no other
/// state.
pub proof fn lemma_stopped_in()
    ensures
        stopped_in(PeerState::Failed) && stopped_in(PeerState::Closed),
        !stopped_in(PeerState::Unspecified) && !stopped_in(PeerState::New) && !stopped_in(
            PeerState::Connecting,
        ) && !stopped_in(PeerState::Connected) && !stopped_in(PeerState::Disconnected),
{
}

/// The first channel that is called `ollama` is let through, whatever other
/// channels came before it, and none after it.
pub proof fn lemma_one_channel(label: Seq<char>, taken: bool)
    ensures
        let_through(false, "ollama"@) == (true, true),
        let_through(true, label) == (false, true),
        label != "ollama"@ ==> let_through(taken, label) == (false, taken),
{
}

/// The agent waits half a second after a connection that lasted more than ten
/// seconds. After one that did not, it waits twice as long as the time before,
/// but never more than 15 seconds.
pub proof fn lemma_backoff(backoff: Backoff, lasted: u64, again: u64)
    requires
        backoff.wf(),
    ensures
        500 <= backoff.millis <= 15000,
        lasted > 10_000_000_000 ==> waits(backoff, lasted) == 500,
        lasted <= 10_000_000_000 ==> waits(backoff, lasted) == backoff.millis,
        again <= 10_000_000_000 ==> {
            let next = waits(Backoff { millis: next_wait(backoff, lasted) }, again);
            &&& 2 * waits(backoff, lasted) <= 15000 ==> next == 2 * waits(backoff, lasted)
            &&& 2 * waits(backoff, lasted) > 15000 ==> next == 15000
        },
{
}

/// Why the agent gives a connection up, in words.
pub proof fn lemma_session_error_words(words: Seq<char>)
    ensures
        session_error_words(SessionErrorOf::Silence) == "signaling heartbeat timed out"@,
        session_error_words(SessionErrorOf::TooLarge) == "signaling message too large"@,
        session_error_words(SessionErrorOf::NotJson(words)) == words,
        session_error_words(SessionErrorOf::Protocol) == "unsupported signaling protocol"@,
{
}

/// Once a session is negotiated its candidates go to the peer connection and its
/// hangup closes that; once the peer connection has stopped they do neither. What
/// waits, the servers and the time of the last message stay meanwhile, and taking
/// what waits changes nothing else.
pub proof fn lemma_negotiated(
    session: SessionModel,
    id: Seq<char>,
    candidate: CandidateOf<Seq<char>>,
    local: RtcModel,
)
    ensures
        ({
            let connected = with_peer(session, Some(id));
            &&& stepped(connected, AgentMessageModel::Ice(id, Some(candidate)), local) == (
                connected,
                AgentStepModel::AddCandidate(candidate),
            )
            &&& stepped(connected, AgentMessageModel::Hangup(id), local).1 is ClosePeer
            &&& connected.early == session.early && connected.signaled == session.signaled
                && connected.last_message == session.last_message
        }),
        ({
            let stopped = with_peer(session, None);
            &&& stopped.peer is None
            &&& stepped(stopped, AgentMessageModel::Hangup(id), local) == (
                stopped,
                AgentStepModel::Nothing,
            )
            &&& stopped.early == session.early && stopped.signaled == session.signaled
                && stopped.last_message == session.last_message
        }),
        ({
            let taken = without_early(session);
            &&& taken.early.len() == 0
            &&& taken.peer == session.peer && taken.signaled == session.signaled
                && taken.last_message == session.last_message
        }),
{
}

/// A session is negotiated with the description that was offered, and not without
/// one.
pub proof fn lemma_offered_sdp(sdp: Seq<char>)
    ensures
        offered_sdp(Some(sdp)) == Ok::<Seq<char>, Seq<char>>(sdp),
        offered_sdp(None) == Err::<Seq<char>, Seq<char>>("missing offer"@),
        MAX_EARLY == 128,
{
}

} // verus!
