//! The agent's side of the data channel: uploads that come in pieces, requests
//! that are under way, and the window of chunks that may be unacknowledged.
//!
//! [`Rpc`] decides; the caller sends what it is told to send, runs the
//! requests it is told to start and reports back. Time is counted in
//! nanoseconds on a clock that does not run backwards.

use crate::codec::base64_decoded;
use crate::config::{
    path_error_words, request_target, Config, ConfigModel, PathError, PathErrorOf, CHUNK_BYTES,
    MAX_REQUESTS, MAX_REQUEST_BYTES,
};
use crate::frames::{
    error_frame, error_tree, inbound, piece_in, read_message, Inbound, InboundModel, Piece,
    PieceModel, Request, RequestModel,
};
use crate::json::{
    flag_member_of, json_document, text_member_of, tree_text, unsigned_member_of, JsonShape,
};
use crate::table::{
    lemma_deep_insert, lemma_deep_names, lemma_deep_remove, names_distinct, Table,
};
use crate::text::{byte_len, byte_length, result_view, text_equal, valid_name};
use vstd::prelude::*;

verus! {

/// Chunks of one answer that may be unacknowledged.
pub const WINDOW: u32 = 8;

/// Error frames that may wait to be sent.
pub const MAX_PENDING_ERRORS: usize = 8;

/// Most headers of a request.
pub const MAX_HEADERS: usize = 32;

/// Time that an upload may take.
pub const UPLOAD_NANOS: u64 = 30_000_000_000;

/// A request that is under way.
#[derive(Clone, Copy, Debug, PartialEq, Eq, Structural)]
pub struct Active {
    /// Chunks that may be sent before another is acknowledged.
    pub credits: u32,
    /// Number of the next chunk.
    pub sent: u32,
    /// Number of the next chunk to be acknowledged.
    pub acknowledged: u32,
    /// The browser gave the request up.
    pub cancelled: bool,
}

/// A request of which pieces have come.
pub struct Upload {
    pub bytes: Vec<u8>,
    /// Number of the next piece.
    pub next: u64,
    pub started: u64,
}

/// What an [`Upload`] holds.
pub struct UploadModel {
    pub bytes: Seq<u8>,
    pub next: u64,
    pub started: u64,
}

impl DeepView for Upload {
    type V = UploadModel;

    open spec fn deep_view(&self) -> UploadModel {
        UploadModel { bytes: self.bytes@, next: self.next, started: self.started }
    }
}

/// The state of one data channel.
pub struct Rpc {
    active: Table<Active>,
    uploads: Table<Upload>,
    error_slots: usize,
    cancelled: bool,
}

/// What an [`Rpc`] holds.
pub struct RpcModel {
    pub active: Map<Seq<char>, Active>,
    pub uploads: Map<Seq<char>, UploadModel>,
    /// Error frames that can be queued.
    pub error_slots: nat,
    /// The channel is closed.
    pub cancelled: bool,
}

impl View for Rpc {
    type V = RpcModel;

    closed spec fn view(&self) -> RpcModel {
        RpcModel {
            active: self.active@,
            uploads: self.uploads.deep_view(),
            error_slots: self.error_slots as nat,
            cancelled: self.cancelled,
        }
    }
}

/// Chunks between two numbers, which count on from zero after the largest.
pub open spec fn in_flight(sent: u32, acknowledged: u32) -> int {
    if sent >= acknowledged {
        sent - acknowledged
    } else {
        sent + 0x1_0000_0000 - acknowledged
    }
}

/// A request has no more unacknowledged chunks than the window holds.
pub open spec fn in_window(active: Active) -> bool {
    active.credits + in_flight(active.sent, active.acknowledged) == WINDOW
}

/// The limits of a data channel: requests and uploads at once, bytes of an
/// upload, error frames that wait, and unacknowledged chunks of a request.
pub open spec fn within_limits(rpc: RpcModel) -> bool {
    &&& rpc.active.dom().finite()
    &&& rpc.active.dom().len() <= MAX_REQUESTS
    &&& rpc.uploads.dom().finite()
    &&& rpc.uploads.dom().len() <= MAX_REQUESTS
    &&& rpc.error_slots <= MAX_PENDING_ERRORS
    &&& forall|id: Seq<char>| #[trigger]
        rpc.active.contains_key(id) ==> in_window(rpc.active[id])
    &&& forall|id: Seq<char>| #[trigger]
        rpc.uploads.contains_key(id) ==> rpc.uploads[id].bytes.len() <= MAX_REQUEST_BYTES
}

/// What the caller is to do.
pub enum Step {
    Nothing,
    /// Send an error frame, then report with [`Rpc::error_sent`].
    Send(String),
    /// Let the request go on: it may send another chunk.
    Credit(String),
    /// Stop the request.
    Cancel(String),
    /// Read a request from the bytes and hand it to [`Rpc::submit_assembled`].
    Assembled(String, Vec<u8>),
    /// Send the request to the URL.
    Start(Request, String),
}

/// What a [`Step`] holds.
pub enum StepModel {
    Nothing,
    Send(Seq<char>),
    Credit(Seq<char>),
    Cancel(Seq<char>),
    Assembled(Seq<char>, Seq<u8>),
    Start(RequestModel, Seq<char>),
}

impl DeepView for Step {
    type V = StepModel;

    open spec fn deep_view(&self) -> StepModel {
        match self {
            Step::Nothing => StepModel::Nothing,
            Step::Send(frame) => StepModel::Send(frame@),
            Step::Credit(id) => StepModel::Credit(id@),
            Step::Cancel(id) => StepModel::Cancel(id@),
            Step::Assembled(id, bytes) => StepModel::Assembled(id@, bytes@),
            Step::Start(request, url) => StepModel::Start(request.deep_view(), url@),
        }
    }
}

/// A data channel that was just opened.
pub open spec fn attached() -> RpcModel {
    RpcModel {
        active: Map::empty(),
        uploads: Map::empty(),
        error_slots: MAX_PENDING_ERRORS as nat,
        cancelled: false,
    }
}

/// An error is answered while error frames can be queued, and dropped otherwise.
pub open spec fn failed(
    rpc: RpcModel,
    id: Seq<char>,
    status: u16,
    message: Seq<char>,
) -> (RpcModel, StepModel) {
    if rpc.error_slots == 0 {
        (rpc, StepModel::Nothing)
    } else {
        (
            RpcModel { error_slots: (rpc.error_slots - 1) as nat, ..rpc },
            StepModel::Send(tree_text(error_tree(id, status, message))),
        )
    }
}

/// The chunk with this number is the one to be acknowledged next, and was sent.
pub open spec fn awaits(active: Active, seq: u64) -> bool {
    seq < active.sent && seq == active.acknowledged
}

/// An acknowledgement of the chunk that is next in turn gives a credit back;
/// any other is passed over.
pub open spec fn acknowledged(rpc: RpcModel, id: Seq<char>, seq: Option<u64>) -> (
    RpcModel,
    StepModel,
) {
    match seq {
        Some(seq) => if rpc.active.contains_key(id) && awaits(rpc.active[id], seq) {
            let active = rpc.active[id];
            (
                RpcModel {
                    active: rpc.active.insert(
                        id,
                        Active {
                            acknowledged: (active.acknowledged + 1) as u32,
                            credits: (active.credits + 1) as u32,
                            ..active
                        },
                    ),
                    ..rpc
                },
                StepModel::Credit(id),
            )
        } else {
            (rpc, StepModel::Nothing)
        },
        None => (rpc, StepModel::Nothing),
    }
}

/// Giving a request up ends its upload and stops it where it is under way.
pub open spec fn given_up(rpc: RpcModel, id: Seq<char>) -> (RpcModel, StepModel) {
    let rest = RpcModel { uploads: rpc.uploads.remove(id), ..rpc };
    if rpc.active.contains_key(id) {
        (
            RpcModel {
                active: rpc.active.insert(id, Active { cancelled: true, ..rpc.active[id] }),
                ..rest
            },
            StepModel::Cancel(id),
        )
    } else {
        (rest, StepModel::Nothing)
    }
}

/// Time that has passed.
pub open spec fn elapsed(now: u64, since: u64) -> int {
    if now >= since {
        now - since
    } else {
        0
    }
}

/// An upload that begins.
pub open spec fn new_upload(now: u64) -> UploadModel {
    UploadModel { bytes: Seq::empty(), next: 0, started: now }
}

/// The number after another, from zero on after the largest.
pub open spec fn number_after(n: u64) -> u64 {
    if n == u64::MAX {
        0
    } else {
        (n + 1) as u64
    }
}

/// The upload with a piece more, or why the piece is refused.
pub open spec fn extended(rpc: RpcModel, id: Seq<char>, piece: PieceModel, now: u64) -> Result<
    UploadModel,
    Seq<char>,
> {
    let known = rpc.uploads.contains_key(id);
    let upload = if known {
        rpc.uploads[id]
    } else {
        new_upload(now)
    };
    if !known && !(piece.seq == 0 && rpc.uploads.dom().len() < MAX_REQUESTS
        && !rpc.active.contains_key(id)) {
        Err("invalid or excessive upload"@)
    } else if upload.next != piece.seq || elapsed(now, upload.started) >= UPLOAD_NANOS {
        Err("invalid fragment sequence or expired upload"@)
    } else if upload.bytes.len() + piece.data.len() > MAX_REQUEST_BYTES {
        Err("request exceeds 8 MiB"@)
    } else {
        Ok(
            UploadModel {
                bytes: upload.bytes + piece.data,
                next: number_after(upload.next),
                started: upload.started,
            },
        )
    }
}

/// A piece goes onto its upload; the last one ends the upload, and so does one
/// that is refused.
pub open spec fn fragmented(
    rpc: RpcModel,
    id: Seq<char>,
    piece: Result<PieceModel, Seq<char>>,
    now: u64,
) -> (RpcModel, StepModel) {
    let without = RpcModel { uploads: rpc.uploads.remove(id), ..rpc };
    match piece {
        Err(words) => failed(without, id, 400, words),
        Ok(piece) => match extended(rpc, id, piece, now) {
            Err(words) => failed(without, id, 400, words),
            Ok(upload) => if piece.done {
                (without, StepModel::Assembled(id, upload.bytes))
            } else {
                (
                    RpcModel { uploads: rpc.uploads.insert(id, upload), ..rpc },
                    StepModel::Nothing,
                )
            },
        },
    }
}

/// A request that begins.
pub open spec fn new_active() -> Active {
    Active { credits: WINDOW, sent: 0, acknowledged: 0, cancelled: false }
}

/// A request has more headers or a longer body than is allowed.
pub open spec fn oversized(request: RequestModel) -> bool {
    request.headers.dom().len() > MAX_HEADERS || (request.body matches Some(body) && byte_length(
        body,
    ) > MAX_REQUEST_BYTES)
}

/// A request is started where its URL is let through, its size is allowed, its
/// id is free and not too many requests are under way.
pub open spec fn submitted(
    rpc: RpcModel,
    request: RequestModel,
    target: Result<Seq<char>, PathErrorOf<Seq<char>>>,
) -> (RpcModel, StepModel) {
    match target {
        Err(error) => failed(rpc, request.id, 403, path_error_words(error)),
        Ok(url) => if oversized(request) {
            failed(rpc, request.id, 413, "request too large"@)
        } else if rpc.active.contains_key(request.id) {
            failed(rpc, request.id, 409, "duplicate request id"@)
        } else if rpc.active.dom().len() >= MAX_REQUESTS {
            failed(rpc, request.id, 429, "too many concurrent requests"@)
        } else {
            (
                RpcModel { active: rpc.active.insert(request.id, new_active()), ..rpc },
                StepModel::Start(request, url),
            )
        },
    }
}

/// What a frame does.
pub open spec fn handled(rpc: RpcModel, frame: InboundModel, config: ConfigModel, now: u64) -> (
    RpcModel,
    StepModel,
) {
    match frame {
        InboundModel::TooLarge => failed(
            rpc,
            Seq::empty(),
            413,
            "message too large; use request fragments"@,
        ),
        InboundModel::NotJson => failed(rpc, Seq::empty(), 400, "invalid JSON"@),
        InboundModel::BadId => failed(rpc, Seq::empty(), 400, "invalid request id"@),
        InboundModel::Ack(id, seq) => acknowledged(rpc, id, seq),
        InboundModel::Cancel(id) => given_up(rpc, id),
        InboundModel::Fragment(id, piece) => fragmented(rpc, id, piece, now),
        InboundModel::Request(id, None) => failed(rpc, id, 400, "invalid request"@),
        InboundModel::Request(_, Some(request)) => submitted(
            rpc,
            request,
            request_target(config, request.method, request.path),
        ),
        InboundModel::Unknown(id) => failed(rpc, id, 400, "unknown frame type"@),
    }
}

/// What a message does; nothing once the channel is closed.
pub open spec fn received(rpc: RpcModel, bytes: Seq<u8>, config: ConfigModel, now: u64) -> (
    RpcModel,
    StepModel,
) {
    if rpc.cancelled {
        (rpc, StepModel::Nothing)
    } else {
        handled(rpc, inbound(bytes), config, now)
    }
}

/// A request that came in pieces is started like any other, and refused where
/// it cannot be read or has another id than its pieces.
pub open spec fn assembled(
    rpc: RpcModel,
    id: Seq<char>,
    request: Option<RequestModel>,
    config: ConfigModel,
) -> (RpcModel, StepModel) {
    match request {
        Some(request) => if request.id == id {
            submitted(rpc, request, request_target(config, request.method, request.path))
        } else {
            failed(rpc, id, 400, "invalid fragmented request"@)
        },
        None => failed(rpc, id, 400, "invalid fragmented request"@),
    }
}

/// The place of an error frame is free again.
pub open spec fn freed(rpc: RpcModel) -> RpcModel {
    RpcModel {
        error_slots: if rpc.error_slots < MAX_PENDING_ERRORS {
            rpc.error_slots + 1
        } else {
            rpc.error_slots
        },
        ..rpc
    }
}

/// A request is no longer under way.
pub open spec fn released(rpc: RpcModel, id: Seq<char>) -> RpcModel {
    RpcModel { active: rpc.active.remove(id), ..rpc }
}

/// The uploads that have taken too long are ended, and answered while error
/// frames can be queued.
pub open spec fn expired(rpc: RpcModel, now: u64) -> RpcModel {
    RpcModel {
        uploads: kept_uploads(rpc.uploads, now),
        error_slots: (rpc.error_slots - lesser(
            expired_ids(rpc.uploads, now).len(),
            rpc.error_slots,
        )) as nat,
        ..rpc
    }
}

/// The frame that says that an upload has taken too long.
pub open spec fn expiry_text(id: Seq<char>) -> Seq<char> {
    tree_text(error_tree(id, 408, "request upload timed out"@))
}

/// Frames are passed over from now on.
pub open spec fn closed(rpc: RpcModel) -> RpcModel {
    RpcModel { cancelled: true, ..rpc }
}

impl Rpc {
    /// The tables hold no name twice, and the limits are kept.
    pub closed spec fn wf(&self) -> bool {
        self.active.wf() && self.uploads.wf() && within_limits(self@)
    }

    /// The limits are kept.
    pub proof fn lemma_limits(&self)
        requires
            self.wf(),
        ensures
            within_limits(self@),
    {
    }

    /// The state of a data channel that was just opened.
    pub fn attach() -> (rpc: Rpc)
        ensures
            rpc.wf(),
            rpc@ == attached(),
    {
        let rpc = Rpc {
            active: Table::new(),
            uploads: Table::new(),
            error_slots: MAX_PENDING_ERRORS,
            cancelled: false,
        };
        assert(rpc@.uploads =~= Map::empty());
        rpc
    }

    /// Closes the channel: frames are passed over from now on.
    pub fn close(&mut self)
        requires
            old(self).wf(),
        ensures
            final(self).wf(),
            final(self)@ == closed(old(self)@),
    {
        self.cancelled = true;
    }

    /// Whether the channel is closed.
    pub fn is_closed(&self) -> (closed: bool)
        ensures
            closed == self@.cancelled,
    {
        self.cancelled
    }

    /// Answers an error where error frames can be queued.
    fn fail(&mut self, id: &str, status: u16, message: &str) -> (step: Step)
        requires
            old(self).wf(),
        ensures
            final(self).wf(),
            (final(self)@, step.deep_view()) == failed(old(self)@, id@, status, message@),
    {
        if self.error_slots == 0 {
            return Step::Nothing;
        }
        self.error_slots = self.error_slots - 1;
        Step::Send(error_frame(id, status, message))
    }

    /// Frees the place of an error frame that was sent or dropped.
    pub fn error_sent(&mut self)
        requires
            old(self).wf(),
        ensures
            final(self).wf(),
            final(self)@ == freed(old(self)@),
    {
        if self.error_slots < MAX_PENDING_ERRORS {
            self.error_slots = self.error_slots + 1;
        }
    }

    /// Takes an acknowledgement.
    fn acknowledge(&mut self, id: String, seq: Option<u64>) -> (step: Step)
        requires
            old(self).wf(),
        ensures
            final(self).wf(),
            (final(self)@, step.deep_view()) == acknowledged(old(self)@, id@, seq),
    {
        let ghost before = self@;
        let seq: u64 = match seq {
            Some(seq) => seq,
            None => return Step::Nothing,
        };
        let active: Active = match self.active.get(id.as_str()) {
            Some(active) => *active,
            None => return Step::Nothing,
        };
        if seq >= active.sent as u64 || seq != active.acknowledged as u64 {
            return Step::Nothing;
        }
        assert(in_window(before.active[id@]));
        let changed = Active {
            acknowledged: active.acknowledged + 1,
            credits: active.credits + 1,
            ..active
        };
        self.active.insert(id.clone(), changed);
        proof {
            lemma_replace_active(before, id@, changed);
        }
        Step::Credit(id)
    }

    /// Gives a request up.
    fn give_up(&mut self, id: String) -> (step: Step)
        requires
            old(self).wf(),
        ensures
            final(self).wf(),
            (final(self)@, step.deep_view()) == given_up(old(self)@, id@),
    {
        let ghost before = self@;
        self.forget_upload(id.as_str());
        let ghost between = self@;
        let active: Active = match self.active.get(id.as_str()) {
            Some(active) => *active,
            None => return Step::Nothing,
        };
        let changed = Active { cancelled: true, ..active };
        self.active.insert(id.clone(), changed);
        proof {
            lemma_replace_active(between, id@, changed);
        }
        Step::Cancel(id)
    }

    /// Ends an upload.
    fn forget_upload(&mut self, id: &str)
        requires
            old(self).wf(),
        ensures
            final(self).wf(),
            final(self)@ == (RpcModel { uploads: old(self)@.uploads.remove(id@), ..old(self)@ }),
    {
        let ghost before = *self;
        self.uploads.remove(id);
        proof {
            lemma_deep_remove(before.uploads@, id@);
            lemma_remove_upload(before@, id@);
        }
    }

    /// Puts a piece onto its upload.
    fn fragment(&mut self, id: String, piece: Result<Piece, String>, now: u64) -> (step: Step)
        requires
            old(self).wf(),
        ensures
            final(self).wf(),
            (final(self)@, step.deep_view()) == fragmented(
                old(self)@,
                id@,
                result_view(piece),
                now,
            ),
    {
        let ghost before = *self;
        proof {
            lemma_deep_names(before.uploads@);
        }
        let piece = match piece {
            Ok(piece) => piece,
            Err(words) => {
                self.forget_upload(id.as_str());
                return self.fail(id.as_str(), 400, words.as_str());
            },
        };
        let known = self.uploads.contains(id.as_str());
        if !known && !(piece.seq == 0 && self.uploads.len() < MAX_REQUESTS && !self.active.contains(
            id.as_str(),
        )) {
            self.forget_upload(id.as_str());
            return self.fail(id.as_str(), 400, "invalid or excessive upload");
        }
        let (next, started, held): (u64, u64, usize) = match self.uploads.get(id.as_str()) {
            Some(upload) => (upload.next, upload.started, upload.bytes.len()),
            None => (0, now, 0),
        };
        let ghost upload = if known {
            before@.uploads[id@]
        } else {
            new_upload(now)
        };
        assert(known ==> before@.uploads.contains_key(id@));
        assert(upload.next == next && upload.started == started && upload.bytes.len() == held);
        let age: u64 = if now >= started { now - started } else { 0 };
        if next != piece.seq || age >= UPLOAD_NANOS {
            self.forget_upload(id.as_str());
            return self.fail(id.as_str(), 400, "invalid fragment sequence or expired upload");
        }
        assert(held <= MAX_REQUEST_BYTES);
        if piece.data.len() > MAX_REQUEST_BYTES - held {
            self.forget_upload(id.as_str());
            return self.fail(id.as_str(), 400, "request exceeds 8 MiB");
        }
        let mut data = piece.data;
        let ghost added = data@;
        let mut bytes: Vec<u8> = match self.uploads.remove(id.as_str()) {
            Some(upload) => upload.bytes,
            None => Vec::new(),
        };
        assert(bytes@ =~= upload.bytes);
        bytes.append(&mut data);
        assert(bytes@ =~= upload.bytes + added);
        proof {
            lemma_deep_remove(before.uploads@, id@);
            lemma_remove_upload(before@, id@);
        }
        if piece.done {
            return Step::Assembled(id, bytes);
        }
        let ghost between = *self;
        let extended_upload = Upload { bytes, next: next.wrapping_add(1), started };
        let ghost model = extended_upload.deep_view();
        self.uploads.insert(id, extended_upload);
        proof {
            lemma_deep_insert(between.uploads@, id@, extended_upload);
            assert(before@.uploads.remove(id@).insert(id@, model) =~= before@.uploads.insert(
                id@,
                model,
            ));
            lemma_insert_upload(before@, id@, model);
        }
        Step::Nothing
    }

    /// Starts a request, once its URL was checked.
    pub fn submit(&mut self, request: Request, target: Result<String, PathError>) -> (step: Step)
        requires
            old(self).wf(),
            request.wf(),
        ensures
            final(self).wf(),
            (final(self)@, step.deep_view()) == submitted(
                old(self)@,
                request.deep_view(),
                result_view(target),
            ),
            step matches Step::Start(started, _) ==> started.wf(),
    {
        let ghost before = self@;
        proof {
            lemma_deep_names(request.headers@);
        }
        let url = match target {
            Ok(url) => url,
            Err(error) => {
                let words = error.message();
                return self.fail(request.id.as_str(), 403, words.as_str());
            },
        };
        let long_body = match &request.body {
            Some(body) => byte_len(body.as_str()) > MAX_REQUEST_BYTES,
            None => false,
        };
        if request.headers.len() > MAX_HEADERS || long_body {
            return self.fail(request.id.as_str(), 413, "request too large");
        }
        if self.active.contains(request.id.as_str()) {
            return self.fail(request.id.as_str(), 409, "duplicate request id");
        }
        if self.active.len() >= MAX_REQUESTS {
            return self.fail(request.id.as_str(), 429, "too many concurrent requests");
        }
        let active = Active { credits: WINDOW, sent: 0, acknowledged: 0, cancelled: false };
        self.active.insert(request.id.clone(), active);
        proof {
            lemma_add_active(before, request.id@, active);
        }
        Step::Start(request, url)
    }

    /// Starts a request that came in pieces, or refuses it where it cannot be
    /// read or has another id than its pieces.
    pub fn submit_assembled(&mut self, id: &str, request: Option<Request>, config: &Config) -> (step:
        Step)
        requires
            old(self).wf(),
            request matches Some(request) ==> request.wf(),
        ensures
            final(self).wf(),
            (final(self)@, step.deep_view()) == assembled(
                old(self)@,
                id@,
                request.deep_view(),
                config.deep_view(),
            ),
            step matches Step::Start(started, _) ==> started.wf(),
    {
        match request {
            Some(request) if text_equal(request.id.as_str(), id) => {
                let target = config.request_url(request.method.as_str(), request.path.as_str());
                self.submit(request, target)
            },
            _ => self.fail(id, 400, "invalid fragmented request"),
        }
    }

    /// Takes a frame.
    pub fn handle(&mut self, frame: Inbound, config: &Config, now: u64) -> (step: Step)
        requires
            old(self).wf(),
            frame.wf(),
        ensures
            final(self).wf(),
            (final(self)@, step.deep_view()) == handled(
                old(self)@,
                frame.deep_view(),
                config.deep_view(),
                now,
            ),
            step matches Step::Start(started, _) ==> started.wf(),
    {
        assert(""@ =~= Seq::empty()) by {
            reveal_strlit("");
        }
        match frame {
            Inbound::TooLarge => self.fail("", 413, "message too large; use request fragments"),
            Inbound::NotJson => self.fail("", 400, "invalid JSON"),
            Inbound::BadId => self.fail("", 400, "invalid request id"),
            Inbound::Ack(id, seq) => self.acknowledge(id, seq),
            Inbound::Cancel(id) => self.give_up(id),
            Inbound::Fragment(id, piece) => self.fragment(id, piece, now),
            Inbound::Request(id, None) => self.fail(id.as_str(), 400, "invalid request"),
            Inbound::Request(_, Some(request)) => {
                let target = config.request_url(request.method.as_str(), request.path.as_str());
                self.submit(request, target)
            },
            Inbound::Unknown(id) => self.fail(id.as_str(), 400, "unknown frame type"),
        }
    }

    /// Takes a message.
    pub fn receive(&mut self, bytes: &[u8], config: &Config, now: u64) -> (step: Step)
        requires
            old(self).wf(),
        ensures
            final(self).wf(),
            (final(self)@, step.deep_view()) == received(
                old(self)@,
                bytes@,
                config.deep_view(),
                now,
            ),
            step matches Step::Start(started, _) ==> started.wf(),
    {
        if self.cancelled {
            return Step::Nothing;
        }
        self.handle(read_message(bytes), config, now)
    }

    /// Takes the number of the next chunk of an answer, `None` while the window is full.
    pub fn take_credit(&mut self, id: &str) -> (seq: Option<u32>)
        requires
            old(self).wf(),
        ensures
            final(self).wf(),
            (final(self)@, seq) == spent(old(self)@, id@),
    {
        let ghost before = self@;
        let active: Active = match self.active.get(id) {
            Some(active) => *active,
            None => return None,
        };
        if active.credits == 0 {
            return None;
        }
        assert(in_window(before.active[id@]));
        let changed = Active {
            credits: active.credits - 1,
            sent: active.sent.wrapping_add(1),
            ..active
        };
        self.active.insert(id.to_owned(), changed);
        proof {
            lemma_replace_active(before, id@, changed);
        }
        Some(active.sent)
    }

    /// The frame that answers a request that failed, `None` once the channel is closed.
    pub fn conclude(&self, id: &str, failure: &Failure) -> (frame: Option<String>)
        requires
            self.wf(),
        ensures
            frame.deep_view() == concluded(self@, id@, failure_words(*failure)),
    {
        if self.cancelled {
            return None;
        }
        let words = failure.message();
        let message = words.as_str();
        let given_up = match self.active.get(id) {
            Some(active) => active.cancelled,
            None => false,
        };
        let status: u16 = if given_up {
            499
        } else if text_equal(message, "request timed out") {
            504
        } else {
            502
        };
        Some(error_frame(id, status, message))
    }

    /// Ends a request.
    pub fn release(&mut self, id: &str)
        requires
            old(self).wf(),
        ensures
            final(self).wf(),
            final(self)@ == released(old(self)@, id@),
    {
        let ghost before = self@;
        self.active.remove(id);
        proof {
            let rest = before.active.remove(id@);
            assert(rest.dom() =~= before.active.dom().remove(id@));
            assert forall|other: Seq<char>| #[trigger] rest.contains_key(other) implies in_window(
                rest[other],
            ) by {
                assert(before.active.contains_key(other));
            }
        }
    }

    /// Lists the uploads that have taken too long.
    fn list_expired(&self, now: u64) -> (ids: Vec<String>)
        requires
            self.wf(),
        ensures
            ids.deep_view().no_duplicates(),
            ids.deep_view().to_set() == expired_ids(self@.uploads, now),
    {
        let ghost list = self.uploads.list();
        let mut ids: Vec<String> = Vec::new();
        let total: usize = self.uploads.len();
        assert(ids.deep_view() =~= expired_names(list.take(0), now));
        for i in 0..total
            invariant
                self.wf(),
                list == self.uploads.list(),
                total == list.len(),
                ids.deep_view() == expired_names(list.take(i as int), now),
        {
            let (id, upload) = self.uploads.at(i);
            let age: u64 = if now >= upload.started { now - upload.started } else { 0 };
            let ghost earlier = ids.deep_view();
            assert(list.take(i + 1).drop_last() =~= list.take(i as int));
            if age > UPLOAD_NANOS {
                ids.push(id.clone());
                assert(ids.deep_view() =~= earlier.push(id@));
            }
        }
        proof {
            assert(list.take(list.len() as int) =~= list);
            self.uploads.lemma_list();
            lemma_expired_names(list, now);
            let gone = expired_ids(self@.uploads, now);
            assert forall|id: Seq<char>| gone.contains(id) <==> ids.deep_view().contains(id) by {
                if gone.contains(id) {
                    assert(self.uploads@.contains_key(id));
                    let i = choose|i: int| 0 <= i < list.len() && (#[trigger] list[i]).0@ == id;
                    assert(ids.deep_view().contains(list[i].0@));
                }
                if ids.deep_view().contains(id) {
                    let i = choose|i: int| 0 <= i < list.len() && (#[trigger] list[i]).0@ == id;
                    assert(self.uploads@.contains_key(list[i].0@));
                }
            }
            assert(ids.deep_view().to_set() =~= gone);
        }
        ids
    }

    /// Ends the uploads that have taken too long, and answers each while error
    /// frames can be queued. Which uploads are answered where not all can be is
    /// left open.
    pub fn expire_uploads(&mut self, now: u64) -> (frames: Vec<String>)
        requires
            old(self).wf(),
        ensures
            final(self).wf(),
            final(self)@ == expired(old(self)@, now),
            frames@.len() == lesser(
                expired_ids(old(self)@.uploads, now).len(),
                old(self)@.error_slots,
            ),
            exists|ids: Seq<Seq<char>>|
                {
                    &&& ids.no_duplicates()
                    &&& ids.len() == frames@.len()
                    &&& forall|i: int|
                        0 <= i < ids.len() ==> {
                            &&& expired_ids(old(self)@.uploads, now).contains(#[trigger] ids[i])
                            &&& frames@[i]@ == expiry_text(ids[i])
                        }
                },
    {
        let ghost before = *self;
        let ghost all = before@.uploads;
        let ghost gone = expired_ids(all, now);
        let mut frames: Vec<String> = Vec::new();
        let ids = self.list_expired(now);
        let ghost listed = ids.deep_view();
        proof {
            listed.unique_seq_to_set();
            assert(all =~= all.remove_keys(listed.take(0).to_set()));
        }
        for i in 0..ids.len()
            invariant
                self.wf(),
                listed == ids.deep_view(),
                listed.no_duplicates(),
                self@.active == before@.active,
                self@.cancelled == before@.cancelled,
                all == before@.uploads,
                self@.uploads =~= all.remove_keys(listed.take(i as int).to_set()),
                frames@.len() == lesser(i as nat, before@.error_slots),
                self@.error_slots == before@.error_slots - frames@.len(),
                forall|k: int|
                    0 <= k < frames@.len() ==> (#[trigger] frames@[k])@ == tree_text(
                        error_tree(listed[k], 408, "request upload timed out"@),
                    ),
        {
            let id = ids[i].as_str();
            let ghost earlier = self@;
            self.forget_upload(id);
            proof {
                assert(listed.take(i + 1).to_set() =~= listed.take(i as int).to_set().insert(id@))
                    by {
                    assert(listed.take(i + 1) =~= listed.take(i as int).push(id@));
                    assert(listed.take(i + 1).last() == id@);
                    assert forall|other: Seq<char>|
                        listed.take(i + 1).contains(other) <==> (listed.take(i as int).contains(
                            other,
                        ) || other == id@) by {
                        if listed.take(i as int).contains(other) {
                            let k = listed.take(i as int).index_of(other);
                            assert(listed.take(i + 1)[k] == other);
                        }
                        if other == id@ {
                            assert(listed.take(i + 1)[i as int] == other);
                        }
                        if listed.take(i + 1).contains(other) {
                            let k = listed.take(i + 1).index_of(other);
                            if k < i {
                                assert(listed.take(i as int)[k] == other);
                            }
                        }
                    }
                }
            }
            match self.fail(id, 408, "request upload timed out") {
                Step::Send(frame) => {
                    frames.push(frame);
                },
                _ => {},
            }
        }
        proof {
            assert(listed.take(listed.len() as int) =~= listed);
            assert(self@.uploads =~= kept_uploads(all, now));
            let answered = listed.take(frames@.len() as int);
            assert(answered.no_duplicates());
            assert forall|i: int| 0 <= i < answered.len() implies {
                &&& gone.contains(#[trigger] answered[i])
                &&& frames@[i]@ == tree_text(
                    error_tree(answered[i], 408, "request upload timed out"@),
                )
            } by {
                assert(answered[i] == listed[i]);
                assert(listed.contains(listed[i]));
            }
        }
        frames
    }
}

/// Sending a chunk takes a credit and a number, where a credit is left.
pub open spec fn spent(rpc: RpcModel, id: Seq<char>) -> (RpcModel, Option<u32>) {
    if rpc.active.contains_key(id) && rpc.active[id].credits > 0 {
        let active = rpc.active[id];
        (
            RpcModel {
                active: rpc.active.insert(
                    id,
                    Active {
                        credits: (active.credits - 1) as u32,
                        sent: if active.sent == u32::MAX {
                            0
                        } else {
                            (active.sent + 1) as u32
                        },
                        ..active
                    },
                ),
                ..rpc
            },
            Some(active.sent),
        )
    } else {
        (rpc, None)
    }
}

/// Why a request that was started failed.
pub enum Failure {
    /// The browser gave it up.
    Cancelled,
    /// It took longer than a request may take.
    TimedOut,
    /// It could not be forwarded or answered, for this reason.
    Other(String),
}

/// A failure in words.
pub open spec fn failure_words(failure: Failure) -> Seq<char> {
    match failure {
        Failure::Cancelled => "request cancelled"@,
        Failure::TimedOut => "request timed out"@,
        Failure::Other(words) => words@,
    }
}

impl Failure {
    /// The reason in words.
    pub fn message(&self) -> (text: String)
        ensures
            text@ == failure_words(*self),
    {
        match self {
            Failure::Cancelled => "request cancelled".to_owned(),
            Failure::TimedOut => "request timed out".to_owned(),
            Failure::Other(words) => words.clone(),
        }
    }
}

/// The answer to a request that failed: 499 where it was given up, 504 where it
/// took too long, 502 otherwise.
pub open spec fn concluded(rpc: RpcModel, id: Seq<char>, message: Seq<char>) -> Option<Seq<char>> {
    if rpc.cancelled {
        None
    } else {
        let status: u16 = if rpc.active.contains_key(id) && rpc.active[id].cancelled {
            499
        } else if message == "request timed out"@ {
            504
        } else {
            502
        };
        Some(tree_text(error_tree(id, status, message)))
    }
}

/// An upload has taken too long.
spec fn overdue(upload: Upload, now: u64) -> bool {
    elapsed(now, upload.started) > UPLOAD_NANOS
}

/// The names of the uploads in a list that have taken too long.
spec fn expired_names(list: Seq<(String, Upload)>, now: u64) -> Seq<Seq<char>>
    decreases list.len(),
{
    if list.len() == 0 {
        Seq::empty()
    } else {
        let before = expired_names(list.drop_last(), now);
        if overdue(list.last().1, now) {
            before.push(list.last().0@)
        } else {
            before
        }
    }
}

/// Of a list without repetition, each upload that has taken too long is named once.
proof fn lemma_expired_names(list: Seq<(String, Upload)>, now: u64)
    requires
        names_distinct(list),
    ensures
        expired_names(list, now).no_duplicates(),
        forall|i: int|
            0 <= i < list.len() ==> (expired_names(list, now).contains((#[trigger] list[i]).0@)
                == overdue(list[i].1, now)),
        forall|id: Seq<char>| #[trigger]
            expired_names(list, now).contains(id) ==> exists|i: int|
                0 <= i < list.len() && (#[trigger] list[i]).0@ == id,
    decreases list.len(),
{
    if list.len() > 0 {
        let rest = list.drop_last();
        let before = expired_names(rest, now);
        let after = expired_names(list, now);
        let last = list.len() - 1;
        assert(names_distinct(rest)) by {
            assert forall|i: int, j: int| 0 <= i < j < rest.len() implies (#[trigger] rest[i]).0@
                != (#[trigger] rest[j]).0@ by {
                assert(list[i].0@ != list[j].0@);
            }
        }
        lemma_expired_names(rest, now);
        assert(!before.contains(list[last].0@)) by {
            if before.contains(list[last].0@) {
                let i = choose|i: int|
                    0 <= i < rest.len() && (#[trigger] rest[i]).0@ == list[last].0@;
                assert(list[i].0@ != list[last].0@);
            }
        }
        assert forall|id: Seq<char>| #[trigger] after.contains(id) implies exists|i: int|
            0 <= i < list.len() && (#[trigger] list[i]).0@ == id by {
            let k = after.index_of(id);
            if k < before.len() {
                assert(before[k] == id);
                assert(before.contains(id));
                let i = choose|i: int| 0 <= i < rest.len() && (#[trigger] rest[i]).0@ == id;
                assert(list[i].0@ == id);
            } else {
                assert(list[last].0@ == id);
            }
        }
        assert forall|i: int| 0 <= i < list.len() implies (after.contains(
            (#[trigger] list[i]).0@,
        ) == overdue(list[i].1, now)) by {
            let id = list[i].0@;
            if i < last {
                assert(rest[i] == list[i]);
                assert(id != list[last].0@);
                if before.contains(id) {
                    let k = before.index_of(id);
                    assert(after[k] == id);
                }
                if after.contains(id) {
                    let k = after.index_of(id);
                    if k < before.len() {
                        assert(before[k] == id);
                    }
                }
            } else {
                if overdue(list[last].1, now) {
                    assert(after[before.len() as int] == id);
                }
            }
        }
    }
}

/// The smaller of two numbers.
pub open spec fn lesser(a: nat, b: nat) -> nat {
    if a < b {
        a
    } else {
        b
    }
}

/// The uploads that have taken too long.
pub open spec fn expired_ids(uploads: Map<Seq<char>, UploadModel>, now: u64) -> Set<Seq<char>> {
    uploads.dom().filter(|id: Seq<char>| elapsed(now, uploads[id].started) > UPLOAD_NANOS)
}

/// The uploads that may go on.
pub open spec fn kept_uploads(uploads: Map<Seq<char>, UploadModel>, now: u64) -> Map<
    Seq<char>,
    UploadModel,
> {
    uploads.remove_keys(expired_ids(uploads, now))
}

/// Another record of a request that is under way keeps the limits.
proof fn lemma_replace_active(rpc: RpcModel, id: Seq<char>, active: Active)
    requires
        within_limits(rpc),
        rpc.active.contains_key(id),
        in_window(active),
    ensures
        within_limits(RpcModel { active: rpc.active.insert(id, active), ..rpc }),
{
    assert(rpc.active.insert(id, active).dom() =~= rpc.active.dom());
}

/// One more request keeps the limits while there is room.
proof fn lemma_add_active(rpc: RpcModel, id: Seq<char>, active: Active)
    requires
        within_limits(rpc),
        !rpc.active.contains_key(id),
        rpc.active.dom().len() < MAX_REQUESTS,
        in_window(active),
    ensures
        within_limits(RpcModel { active: rpc.active.insert(id, active), ..rpc }),
{
    assert(rpc.active.insert(id, active).dom() =~= rpc.active.dom().insert(id));
}

/// An upload less keeps the limits.
proof fn lemma_remove_upload(rpc: RpcModel, id: Seq<char>)
    requires
        within_limits(rpc),
    ensures
        within_limits(RpcModel { uploads: rpc.uploads.remove(id), ..rpc }),
{
    let rest = rpc.uploads.remove(id);
    assert(rest.dom() =~= rpc.uploads.dom().remove(id));
    assert forall|other: Seq<char>| #[trigger] rest.contains_key(other) implies rest[
        other
    ].bytes.len() <= MAX_REQUEST_BYTES by {
        assert(rpc.uploads.contains_key(other));
    }
}

/// An upload that is known, or one more while there is room, keeps the limits.
proof fn lemma_insert_upload(rpc: RpcModel, id: Seq<char>, upload: UploadModel)
    requires
        within_limits(rpc),
        rpc.uploads.contains_key(id) || rpc.uploads.dom().len() < MAX_REQUESTS,
        upload.bytes.len() <= MAX_REQUEST_BYTES,
    ensures
        within_limits(RpcModel { uploads: rpc.uploads.insert(id, upload), ..rpc }),
{
    let more = rpc.uploads.insert(id, upload);
    assert(more.dom() =~= rpc.uploads.dom().insert(id));
    assert forall|other: Seq<char>| #[trigger] more.contains_key(other) implies more[
        other
    ].bytes.len() <= MAX_REQUEST_BYTES by {
        if other != id {
            assert(rpc.uploads.contains_key(other));
        }
    }
}

/// No request ever has more than a window of unacknowledged chunks.
pub proof fn lemma_window(rpc: RpcModel, id: Seq<char>)
    requires
        within_limits(rpc),
        rpc.active.contains_key(id),
    ensures
        in_flight(rpc.active[id].sent, rpc.active[id].acknowledged) <= WINDOW,
        spent(rpc, id).1 is None <==> in_flight(rpc.active[id].sent, rpc.active[id].acknowledged)
            == WINDOW,
{
    assert(in_window(rpc.active[id]));
}

/// An acknowledgement that comes again gives no second credit.
pub proof fn lemma_replayed_ack(rpc: RpcModel, id: Seq<char>, seq: u64)
    requires
        within_limits(rpc),
        acknowledged(rpc, id, Some(seq)).1 is Credit,
    ensures
        acknowledged(acknowledged(rpc, id, Some(seq)).0, id, Some(seq)) == (
            acknowledged(rpc, id, Some(seq)).0,
            StepModel::Nothing,
        ),
{
}

/// A request that is started and released leaves the channel as it was.
pub proof fn lemma_started_and_released(
    rpc: RpcModel,
    request: RequestModel,
    target: Result<Seq<char>, PathErrorOf<Seq<char>>>,
)
    requires
        submitted(rpc, request, target).1 is Start,
    ensures
        ({
            let started = submitted(rpc, request, target).0;
            RpcModel { active: started.active.remove(request.id), ..started } == rpc
        }),
{
    let started = submitted(rpc, request, target).0;
    assert(started.active.remove(request.id) =~= rpc.active);
}

/// A request starts exactly where its URL is let through, its size is allowed,
/// its id is free and fewer than the most requests are under way.
pub proof fn lemma_starts_exactly(
    rpc: RpcModel,
    request: RequestModel,
    target: Result<Seq<char>, PathErrorOf<Seq<char>>>,
)
    ensures
        submitted(rpc, request, target).1 is Start <==> {
            &&& target is Ok
            &&& !oversized(request)
            &&& !rpc.active.contains_key(request.id)
            &&& rpc.active.dom().len() < MAX_REQUESTS
        },
{
}

/// The bytes of a request that comes in pieces, one after the other.
pub open spec fn joined(parts: Seq<Seq<u8>>) -> Seq<u8>
    decreases parts.len(),
{
    if parts.len() == 0 {
        Seq::empty()
    } else {
        joined(parts.drop_last()) + parts.last()
    }
}

/// The pieces of a request: numbered from zero, the last one marked.
pub open spec fn piece_at(parts: Seq<Seq<u8>>, i: int) -> PieceModel {
    PieceModel { seq: i as u64, data: parts[i], done: i == parts.len() - 1 }
}

/// A piece that a frame carries as base64, with its number and whether it is the
/// last, is read as it was cut, up to the size of a chunk.
pub proof fn lemma_piece_read(document: JsonShape, text: Seq<char>, parts: Seq<Seq<u8>>, i: int)
    requires
        0 <= i < parts.len() <= u64::MAX,
        parts[i].len() <= CHUNK_BYTES,
        base64_decoded(text) == Ok::<Seq<u8>, Seq<char>>(parts[i]),
        unsigned_member_of(document, "seq"@) == Some(i as u64),
        text_member_of(document, "data"@) == Some(text),
        flag_member_of(document, "done"@) == Some(i == parts.len() - 1),
    ensures
        piece_in(document) == Ok::<PieceModel, Seq<char>>(piece_at(parts, i)),
{
}

/// What happens on a channel, in the order in which it happens.
pub enum ChannelEvent {
    /// A frame comes at a time.
    Frame(InboundModel, u64),
    /// What was read from the bytes of a request that came in pieces.
    Assembled(Seq<char>, Option<RequestModel>),
    /// A chunk of an answer is to be sent.
    Chunk(Seq<char>),
    /// A request ends.
    Release(Seq<char>),
    /// An error frame was sent.
    ErrorSent,
    /// The uploads that have taken too long are looked for.
    Expire(u64),
    /// The channel is closed.
    Close,
}

/// What an event does to a channel, and the step that it brings about.
pub open spec fn event_step(rpc: RpcModel, event: ChannelEvent, config: ConfigModel) -> (
    RpcModel,
    StepModel,
) {
    match event {
        ChannelEvent::Frame(frame, now) => if rpc.cancelled {
            (rpc, StepModel::Nothing)
        } else {
            handled(rpc, frame, config, now)
        },
        ChannelEvent::Assembled(id, request) => assembled(rpc, id, request, config),
        ChannelEvent::Chunk(id) => (spent(rpc, id).0, StepModel::Nothing),
        ChannelEvent::Release(id) => (released(rpc, id), StepModel::Nothing),
        ChannelEvent::ErrorSent => (freed(rpc), StepModel::Nothing),
        ChannelEvent::Expire(now) => (expired(rpc, now), StepModel::Nothing),
        ChannelEvent::Close => (closed(rpc), StepModel::Nothing),
    }
}

/// The channel after a series of events.
pub open spec fn channel_after(
    rpc: RpcModel,
    events: Seq<ChannelEvent>,
    config: ConfigModel,
) -> RpcModel
    decreases events.len(),
{
    if events.len() == 0 {
        rpc
    } else {
        event_step(channel_after(rpc, events.drop_last(), config), events.last(), config).0
    }
}

/// The piece of a request that comes with an event, and its time.
pub open spec fn own_piece(event: ChannelEvent, id: Seq<char>) -> Option<(PieceModel, u64)> {
    match event {
        ChannelEvent::Frame(InboundModel::Fragment(named, Ok(piece)), now) => if named == id {
            Some((piece, now))
        } else {
            None
        },
        _ => None,
    }
}

/// The pieces of a request among the events, in their order.
pub open spec fn own_pieces(events: Seq<ChannelEvent>, id: Seq<char>) -> Seq<(PieceModel, u64)>
    decreases events.len(),
{
    if events.len() == 0 {
        Seq::empty()
    } else {
        let before = own_pieces(events.drop_last(), id);
        match own_piece(events.last(), id) {
            Some(piece) => before.push(piece),
            None => before,
        }
    }
}

/// An event that does not bear on the upload of a request that began at a time:
/// a frame that neither gives the request up nor holds a piece of it, a search
/// for old uploads that comes in time, or anything else but the end of the
/// channel.
pub open spec fn leaves_upload(event: ChannelEvent, id: Seq<char>, started: u64) -> bool {
    match event {
        ChannelEvent::Frame(InboundModel::Cancel(named), _) => named != id,
        ChannelEvent::Frame(InboundModel::Fragment(named, _), _) => named != id,
        ChannelEvent::Expire(now) => elapsed(now, started) <= UPLOAD_NANOS,
        ChannelEvent::Close => false,
        _ => true,
    }
}

/// A request comes in pieces, in their order and in time, from the first event
/// to the last; between its pieces anything may happen that does not bear on it.
pub open spec fn arrives_in_pieces(
    events: Seq<ChannelEvent>,
    id: Seq<char>,
    parts: Seq<Seq<u8>>,
) -> bool {
    let pieces = own_pieces(events, id);
    &&& events.len() > 0
    &&& own_piece(events[0], id) is Some
    &&& own_piece(events.last(), id) is Some
    &&& 1 <= parts.len() <= u64::MAX
    &&& pieces.len() == parts.len()
    &&& forall|i: int|
        0 <= i < pieces.len() ==> {
            &&& (#[trigger] pieces[i]).0 == piece_at(parts, i)
            &&& elapsed(pieces[i].1, pieces[0].1) < UPLOAD_NANOS
        }
    &&& forall|k: int|
        0 <= k < events.len() ==> own_piece(#[trigger] events[k], id) is Some || leaves_upload(
            events[k],
            id,
            pieces[0].1,
        )
}

/// Fewer parts have no more bytes.
proof fn lemma_joined_prefix(parts: Seq<Seq<u8>>, n: int)
    requires
        0 <= n <= parts.len(),
    ensures
        joined(parts.take(n)).len() <= joined(parts).len(),
    decreases parts.len(),
{
    if n < parts.len() {
        assert(parts.drop_last().take(n) =~= parts.take(n));
        lemma_joined_prefix(parts.drop_last(), n);
    } else {
        assert(parts.take(n) =~= parts);
    }
}

/// An event that does not bear on an upload leaves it as it is.
proof fn lemma_upload_stays(rpc: RpcModel, event: ChannelEvent, config: ConfigModel, id: Seq<char>)
    requires
        !rpc.cancelled,
        rpc.uploads.contains_key(id),
        leaves_upload(event, id, rpc.uploads[id].started),
    ensures
        !event_step(rpc, event, config).0.cancelled,
        event_step(rpc, event, config).0.uploads.contains_key(id),
        event_step(rpc, event, config).0.uploads[id] == rpc.uploads[id],
{
}

/// The pieces among the first events are the first pieces; while the last
/// event is still to come and holds a piece, they are not all of them.
proof fn lemma_first_pieces(events: Seq<ChannelEvent>, id: Seq<char>, n: int)
    requires
        0 <= n <= events.len(),
    ensures
        own_pieces(events.take(n), id).len() <= own_pieces(events, id).len(),
        own_pieces(events.take(n), id) == own_pieces(events, id).take(
            own_pieces(events.take(n), id).len() as int,
        ),
        n < events.len() && own_piece(events.last(), id) is Some ==> own_pieces(
            events.take(n),
            id,
        ).len() < own_pieces(events, id).len(),
    decreases events.len(),
{
    let all = own_pieces(events, id);
    if n == events.len() {
        assert(events.take(n) =~= events);
        assert(all.take(all.len() as int) =~= all);
    } else {
        let rest = events.drop_last();
        assert(rest.take(n) =~= events.take(n));
        lemma_first_pieces(rest, id, n);
        let m = own_pieces(events.take(n), id).len() as int;
        assert(own_pieces(rest, id).take(m) =~= all.take(m));
    }
}

/// The upload while the pieces of a request come in: after the first `n` events
/// it holds the pieces among them, and none of these has brought about a step.
proof fn lemma_upload_grows(
    rpc: RpcModel,
    events: Seq<ChannelEvent>,
    config: ConfigModel,
    id: Seq<char>,
    parts: Seq<Seq<u8>>,
    n: int,
)
    requires
        !rpc.cancelled,
        !rpc.uploads.contains_key(id),
        !rpc.active.contains_key(id),
        rpc.uploads.dom().len() < MAX_REQUESTS,
        joined(parts).len() <= MAX_REQUEST_BYTES,
        arrives_in_pieces(events, id, parts),
        1 <= n < events.len(),
    ensures
        ({
            let m = own_pieces(events.take(n), id).len();
            let after = channel_after(rpc, events.take(n), config);
            &&& 1 <= m < parts.len()
            &&& !after.cancelled
            &&& after.uploads.contains_key(id)
            &&& after.uploads[id] == UploadModel {
                bytes: joined(parts.take(m as int)),
                next: m as u64,
                started: own_pieces(events, id)[0].1,
            }
        }),
        own_piece(events[n - 1], id) is Some ==> event_step(
            channel_after(rpc, events.take(n - 1), config),
            events[n - 1],
            config,
        ).1 == StepModel::Nothing,
    decreases n,
{
    let pieces = own_pieces(events, id);
    let first = events.take(n);
    let event = events[n - 1];
    let before = channel_after(rpc, events.take(n - 1), config);
    lemma_first_pieces(events, id, n);
    lemma_first_pieces(events, id, n - 1);
    assert(first.drop_last() =~= events.take(n - 1));
    assert(first.last() == event);
    let m = own_pieces(first, id).len() as int;
    if n == 1 {
        assert(events.take(0) =~= Seq::empty());
        assert(before == rpc);
        assert(own_pieces(first, id) =~= seq![own_piece(event, id)->0]);
        assert(pieces.take(1)[0] == pieces[0]);
        assert(pieces[0].0 == piece_at(parts, 0));
        assert(parts.take(0) =~= Seq::<Seq<u8>>::empty());
        assert(parts.take(1).drop_last() =~= parts.take(0));
        assert(new_upload(pieces[0].1).bytes + parts[0] =~= joined(parts.take(1)));
        lemma_joined_prefix(parts, 1);
    } else {
        lemma_upload_grows(rpc, events, config, id, parts, n - 1);
        if own_piece(event, id) is Some {
            assert(own_pieces(first, id).last() == own_piece(event, id)->0);
            assert(pieces.take(m)[m - 1] == pieces[m - 1]);
            assert(pieces[m - 1].0 == piece_at(parts, m - 1));
            assert(parts.take(m).drop_last() =~= parts.take(m - 1));
            lemma_joined_prefix(parts, m);
        } else {
            assert(leaves_upload(event, id, pieces[0].1));
            lemma_upload_stays(before, event, config, id);
        }
    }
}

/// A request that is sent in pieces, in their order and in time, comes out as
/// it went in, whatever happens to other requests between its pieces: no piece
/// brings about a step before the last, the last hands over the bytes of all,
/// and no upload is left.
pub proof fn lemma_pieces_reassemble(
    rpc: RpcModel,
    events: Seq<ChannelEvent>,
    config: ConfigModel,
    id: Seq<char>,
    parts: Seq<Seq<u8>>,
)
    requires
        !rpc.cancelled,
        !rpc.uploads.contains_key(id),
        !rpc.active.contains_key(id),
        rpc.uploads.dom().len() < MAX_REQUESTS,
        joined(parts).len() <= MAX_REQUEST_BYTES,
        arrives_in_pieces(events, id, parts),
    ensures
        forall|k: int|
            0 <= k < events.len() - 1 && own_piece(#[trigger] events[k], id) is Some ==> event_step(
                channel_after(rpc, events.take(k), config),
                events[k],
                config,
            ).1 == StepModel::Nothing,
        event_step(channel_after(rpc, events.drop_last(), config), events.last(), config).1
            == StepModel::Assembled(id, joined(parts)),
        !channel_after(rpc, events, config).uploads.contains_key(id),
{
    assert forall|k: int|
        0 <= k < events.len() - 1 && own_piece(#[trigger] events[k], id) is Some implies event_step(
        channel_after(rpc, events.take(k), config),
        events[k],
        config,
    ).1 == StepModel::Nothing by {
        lemma_upload_grows(rpc, events, config, id, parts, k + 1);
    }
    let pieces = own_pieces(events, id);
    let n = events.len() - 1;
    let last = parts.len() - 1;
    let before = channel_after(rpc, events.drop_last(), config);
    assert(events.drop_last() =~= events.take(n));
    assert(pieces.last() == own_piece(events.last(), id)->0);
    assert(pieces[last].0 == piece_at(parts, last));
    assert(parts.drop_last() =~= parts.take(last));
    if n > 0 {
        lemma_upload_grows(rpc, events, config, id, parts, n);
    } else {
        assert(events.drop_last() =~= Seq::empty());
        assert(before == rpc);
        assert(own_pieces(events.drop_last(), id) =~= Seq::empty());
        assert(parts.drop_last() =~= Seq::<Seq<u8>>::empty());
        assert(joined(parts.drop_last()) =~= Seq::empty());
        assert(new_upload(pieces[0].1).bytes + parts[0] =~= joined(parts));
    }
}

/// An event that neither takes the number of a chunk of a request nor ends the
/// request.
pub open spec fn leaves_answer(event: ChannelEvent, id: Seq<char>) -> bool {
    match event {
        ChannelEvent::Chunk(named) => named != id,
        ChannelEvent::Release(named) => named != id,
        _ => true,
    }
}

/// Only sending a chunk of a request changes the number of its next chunk, and
/// only its end takes it out of the channel: not a frame, a second request with
/// its id among them.
pub proof fn lemma_answer_stays(
    rpc: RpcModel,
    event: ChannelEvent,
    config: ConfigModel,
    id: Seq<char>,
)
    requires
        rpc.active.contains_key(id),
        leaves_answer(event, id),
    ensures
        event_step(rpc, event, config).0.active.contains_key(id),
        event_step(rpc, event, config).0.active[id].sent == rpc.active[id].sent,
{
}

/// Every event keeps the limits of a channel.
pub proof fn lemma_limits_kept(rpc: RpcModel, event: ChannelEvent, config: ConfigModel)
    requires
        within_limits(rpc),
    ensures
        within_limits(event_step(rpc, event, config).0),
{
    match event {
        ChannelEvent::Frame(InboundModel::Ack(id, Some(seq)), _) => {
            if rpc.active.contains_key(id) && awaits(rpc.active[id], seq) {
                let active = rpc.active[id];
                assert(in_window(active));
                lemma_replace_active(
                    rpc,
                    id,
                    Active {
                        acknowledged: (active.acknowledged + 1) as u32,
                        credits: (active.credits + 1) as u32,
                        ..active
                    },
                );
            }
        },
        ChannelEvent::Frame(InboundModel::Cancel(id), _) => {
            lemma_remove_upload(rpc, id);
            let rest = RpcModel { uploads: rpc.uploads.remove(id), ..rpc };
            if rpc.active.contains_key(id) {
                lemma_replace_active(rest, id, Active { cancelled: true, ..rpc.active[id] });
            }
        },
        ChannelEvent::Frame(InboundModel::Fragment(id, piece), now) => {
            lemma_remove_upload(rpc, id);
            if let Ok(piece) = piece {
                if let Ok(upload) = extended(rpc, id, piece, now) {
                    lemma_insert_upload(rpc, id, upload);
                }
            }
        },
        ChannelEvent::Frame(InboundModel::Request(_, Some(request)), _) => {
            if !rpc.active.contains_key(request.id) && rpc.active.dom().len() < MAX_REQUESTS {
                lemma_add_active(rpc, request.id, new_active());
            }
        },
        ChannelEvent::Assembled(_, Some(request)) => {
            if !rpc.active.contains_key(request.id) && rpc.active.dom().len() < MAX_REQUESTS {
                lemma_add_active(rpc, request.id, new_active());
            }
        },
        ChannelEvent::Chunk(id) => {
            if rpc.active.contains_key(id) && rpc.active[id].credits > 0 {
                assert(in_window(rpc.active[id]));
                lemma_replace_active(rpc, id, spent(rpc, id).0.active[id]);
            }
        },
        ChannelEvent::Release(id) => {
            let rest = rpc.active.remove(id);
            assert(rest.dom() =~= rpc.active.dom().remove(id));
            assert forall|other: Seq<char>| #[trigger] rest.contains_key(other) implies in_window(
                rest[other],
            ) by {
                assert(rpc.active.contains_key(other));
            }
        },
        ChannelEvent::Expire(now) => {
            let rest = kept_uploads(rpc.uploads, now);
            assert(rest.dom() =~= rpc.uploads.dom().difference(expired_ids(rpc.uploads, now)));
            vstd::set_lib::lemma_len_difference(rpc.uploads.dom(), expired_ids(rpc.uploads, now));
            assert forall|other: Seq<char>| #[trigger] rest.contains_key(other) implies rest[
                other
            ].bytes.len() <= MAX_REQUEST_BYTES by {
                assert(rpc.uploads.contains_key(other));
            }
        },
        _ => {},
    }
}

/// A piece that is out of turn ends its upload, so that nothing of it is used.
pub proof fn lemma_piece_out_of_turn(rpc: RpcModel, id: Seq<char>, piece: PieceModel, now: u64)
    requires
        rpc.uploads.contains_key(id),
        rpc.uploads[id].next != piece.seq,
    ensures
        fragmented(rpc, id, Ok(piece), now).0.uploads == rpc.uploads.remove(id),
        !(fragmented(rpc, id, Ok(piece), now).1 is Assembled),
{
}

/// Nothing is started, stopped or answered once the channel is closed.
pub proof fn lemma_closed_is_silent(rpc: RpcModel, bytes: Seq<u8>, config: ConfigModel, now: u64)
    requires
        rpc.cancelled,
    ensures
        received(rpc, bytes, config, now) == (rpc, StepModel::Nothing),
{
}

/// An error is answered with its status and its words where the place of an error
/// frame is free, and takes that place; else it is dropped. Nothing else changes.
pub proof fn lemma_failed(rpc: RpcModel, id: Seq<char>, status: u16, message: Seq<char>)
    ensures
        rpc.error_slots == 0 ==> failed(rpc, id, status, message) == (rpc, StepModel::Nothing),
        rpc.error_slots > 0 ==> {
            let (after, step) = failed(rpc, id, status, message);
            &&& step == StepModel::Send(tree_text(error_tree(id, status, message)))
            &&& after.error_slots + 1 == rpc.error_slots
            &&& after.active == rpc.active && after.uploads == rpc.uploads && after.cancelled
                == rpc.cancelled
        },
        failed(rpc, id, status, message).1 is Nothing || failed(rpc, id, status, message).1 is Send,
{
}

/// A channel that was just opened runs nothing, holds nothing, is open, and has
/// places for eight error frames. A place is given back by each frame that was
/// sent, up to these eight.
pub proof fn lemma_attached(rpc: RpcModel)
    ensures
        attached().active.dom().len() == 0,
        attached().uploads.dom().len() == 0,
        attached().error_slots == 8,
        !attached().cancelled,
        within_limits(attached()),
        rpc.error_slots < 8 ==> freed(rpc).error_slots == rpc.error_slots + 1,
        rpc.error_slots >= 8 ==> freed(rpc).error_slots == rpc.error_slots,
        freed(rpc).active == rpc.active && freed(rpc).uploads == rpc.uploads
            && freed(rpc).cancelled == rpc.cancelled,
{
}

/// At most four requests and four uploads at once, at most 8388608 bytes in an
/// upload, at most eight error frames that wait, and of each request as many
/// credits and unacknowledged chunks together as eight.
pub proof fn lemma_limits_spelled_out(rpc: RpcModel, id: Seq<char>)
    requires
        within_limits(rpc),
    ensures
        rpc.active.dom().len() <= 4,
        rpc.uploads.dom().len() <= 4,
        rpc.error_slots <= 8,
        rpc.uploads.contains_key(id) ==> rpc.uploads[id].bytes.len() <= 8388608,
        rpc.active.contains_key(id) ==> {
            let active = rpc.active[id];
            let waiting = in_flight(active.sent, active.acknowledged);
            &&& active.credits + waiting == 8
            &&& 0 <= waiting <= 8
            &&& (active.acknowledged + waiting) % 0x1_0000_0000 == active.sent
            &&& spent(rpc, id).1 is None <==> waiting == 8
        },
{
    if rpc.active.contains_key(id) {
        assert(in_window(rpc.active[id]));
    }
}

/// What is said of a message that is no frame: one of more than 16384 bytes is
/// too large, and one that is not JSON or names no valid id is wrong. None of
/// these is answered with an id.
pub proof fn lemma_no_frame(rpc: RpcModel, bytes: Seq<u8>, config: ConfigModel, now: u64)
    requires
        !rpc.cancelled,
    ensures
        bytes.len() > 16384 ==> received(rpc, bytes, config, now) == failed(
            rpc,
            Seq::empty(),
            413,
            "message too large; use request fragments"@,
        ),
        bytes.len() <= 16384 && json_document(bytes) is None ==> received(rpc, bytes, config, now)
            == failed(rpc, Seq::empty(), 400, "invalid JSON"@),
        bytes.len() <= 16384 ==> (json_document(bytes) matches Some(document) ==> !(text_member_of(
            document,
            "id"@,
        ) matches Some(id) && valid_name(id)) ==> received(rpc, bytes, config, now) == failed(
            rpc,
            Seq::empty(),
            400,
            "invalid request id"@,
        )),
{
}

/// A frame of no known kind, and a request that cannot be read, are answered
/// with their id.
pub proof fn lemma_bad_frame(rpc: RpcModel, config: ConfigModel, id: Seq<char>, now: u64)
    ensures
        handled(rpc, InboundModel::Unknown(id), config, now) == failed(
            rpc,
            id,
            400,
            "unknown frame type"@,
        ),
        handled(rpc, InboundModel::Request(id, None), config, now) == failed(
            rpc,
            id,
            400,
            "invalid request"@,
        ),
{
}

/// What becomes of a request. Where its path or its method is not allowed it is
/// answered 403, where it has more than 32 headers or more than 8388608 bytes
/// of a body 413, where its id is in use 409, where four requests are under way
/// 429. Every other request is started at its URL, with eight credits and
/// nothing sent; no other request is touched.
pub proof fn lemma_request_handled(
    rpc: RpcModel,
    request: RequestModel,
    config: ConfigModel,
    named: Seq<char>,
    now: u64,
    other: Seq<char>,
)
    ensures
        ({
            let (after, step) = handled(
                rpc,
                InboundModel::Request(named, Some(request)),
                config,
                now,
            );
            let id = request.id;
            let large = request.headers.dom().len() > 32 || (request.body matches Some(body)
                && byte_length(body) > 8388608);
            match request_target(config, request.method, request.path) {
                Err(error) => (after, step) == failed(rpc, id, 403, path_error_words(error)),
                Ok(url) => {
                    &&& large ==> (after, step) == failed(rpc, id, 413, "request too large"@)
                    &&& !large && rpc.active.contains_key(id) ==> (after, step) == failed(
                        rpc,
                        id,
                        409,
                        "duplicate request id"@,
                    )
                    &&& !large && !rpc.active.contains_key(id) && rpc.active.dom().len() >= 4 ==> (
                    after, step) == failed(rpc, id, 429, "too many concurrent requests"@)
                    &&& !large && !rpc.active.contains_key(id) && rpc.active.dom().len() < 4 ==> {
                        &&& step == StepModel::Start(request, url)
                        &&& after.active.contains_key(id)
                        &&& after.active[id].credits == 8 && after.active[id].sent == 0
                        &&& after.active[id].acknowledged == 0 && !after.active[id].cancelled
                        &&& after.active.dom() == rpc.active.dom().insert(id)
                        &&& other != id && rpc.active.contains_key(other) ==> after.active[other]
                            == rpc.active[other]
                        &&& after.uploads == rpc.uploads && after.error_slots == rpc.error_slots
                            && after.cancelled == rpc.cancelled
                    }
                },
            }
        }),
{
}

/// A request that came in pieces is handled as one that came whole, where it has
/// the id of its pieces; else, and where it cannot be read, it is answered 400
/// with that id.
pub proof fn lemma_assembled_handled(
    rpc: RpcModel,
    id: Seq<char>,
    request: Option<RequestModel>,
    config: ConfigModel,
    now: u64,
)
    ensures
        request matches Some(request) ==> request.id == id ==> assembled(
            rpc,
            id,
            Some(request),
            config,
        ) == handled(rpc, InboundModel::Request(id, Some(request)), config, now),
        !(request matches Some(request) && request.id == id) ==> assembled(
            rpc,
            id,
            request,
            config,
        ) == failed(rpc, id, 400, "invalid fragmented request"@),
{
}

/// The acknowledgement of the chunk that is next in turn, and was sent, gives one
/// credit and moves on to the next chunk; any other, and one without a number,
/// changes nothing.
pub proof fn lemma_acknowledged(
    rpc: RpcModel,
    id: Seq<char>,
    seq: Option<u64>,
    config: ConfigModel,
    now: u64,
    other: Seq<char>,
)
    requires
        within_limits(rpc),
    ensures
        ({
            let (after, step) = handled(rpc, InboundModel::Ack(id, seq), config, now);
            let next = rpc.active.contains_key(id) && (seq matches Some(seq) && seq
                == rpc.active[id].acknowledged && rpc.active[id].acknowledged
                < rpc.active[id].sent);
            &&& !next ==> (after, step) == (rpc, StepModel::Nothing)
            &&& next ==> {
                &&& step == StepModel::Credit(id)
                &&& after.active.dom() == rpc.active.dom()
                &&& after.active[id].credits == rpc.active[id].credits + 1
                &&& after.active[id].acknowledged == rpc.active[id].acknowledged + 1
                &&& after.active[id].sent == rpc.active[id].sent
                &&& after.active[id].cancelled == rpc.active[id].cancelled
                &&& other != id ==> after.active[other] == rpc.active[other]
                &&& after.uploads == rpc.uploads && after.error_slots == rpc.error_slots
                    && after.cancelled == rpc.cancelled
            }
        }),
{
    if rpc.active.contains_key(id) {
        assert(in_window(rpc.active[id]));
    }
    let after = handled(rpc, InboundModel::Ack(id, seq), config, now).0;
    if rpc.active.contains_key(id) {
        assert(after.active.dom() =~= rpc.active.dom());
    }
}

/// A chunk goes out with the number that is next, counted on from zero after the
/// largest, and costs one credit; without a credit, and where the request is not
/// under way, none goes out and nothing changes.
pub proof fn lemma_spent(rpc: RpcModel, id: Seq<char>, other: Seq<char>)
    ensures
        ({
            let (after, seq) = spent(rpc, id);
            let may = rpc.active.contains_key(id) && rpc.active[id].credits > 0;
            &&& !may ==> seq is None && after == rpc
            &&& may ==> {
                &&& seq == Some(rpc.active[id].sent)
                &&& after.active.dom() == rpc.active.dom()
                &&& after.active[id].credits + 1 == rpc.active[id].credits
                &&& after.active[id].sent == (rpc.active[id].sent + 1) % 0x1_0000_0000
                &&& after.active[id].acknowledged == rpc.active[id].acknowledged
                &&& after.active[id].cancelled == rpc.active[id].cancelled
                &&& other != id ==> after.active[other] == rpc.active[other]
                &&& after.uploads == rpc.uploads && after.error_slots == rpc.error_slots
                    && after.cancelled == rpc.cancelled
            }
        }),
{
    let (after, seq) = spent(rpc, id);
    if rpc.active.contains_key(id) {
        assert(after.active.dom() =~= rpc.active.dom());
    }
}

/// Giving a request up forgets its upload, and where it is under way marks it
/// and stops it; everything else stays.
pub proof fn lemma_given_up(
    rpc: RpcModel,
    id: Seq<char>,
    config: ConfigModel,
    now: u64,
    other: Seq<char>,
)
    ensures
        ({
            let (after, step) = handled(rpc, InboundModel::Cancel(id), config, now);
            &&& after.uploads == rpc.uploads.remove(id)
            &&& after.active.dom() == rpc.active.dom()
            &&& rpc.active.contains_key(id) ==> {
                &&& step == StepModel::Cancel(id)
                &&& after.active[id].cancelled
                &&& after.active[id].credits == rpc.active[id].credits
                &&& after.active[id].sent == rpc.active[id].sent
                &&& after.active[id].acknowledged == rpc.active[id].acknowledged
            }
            &&& !rpc.active.contains_key(id) ==> step is Nothing
            &&& other != id && rpc.active.contains_key(other) ==> after.active[other]
                == rpc.active[other]
            &&& after.error_slots == rpc.error_slots && after.cancelled == rpc.cancelled
        }),
{
    let after = handled(rpc, InboundModel::Cancel(id), config, now).0;
    assert(after.active.dom() =~= rpc.active.dom());
}

/// What becomes of the first piece of an upload: it has the number zero, there
/// are fewer than four uploads, and its id is not under way; else it is refused
/// with 400, as one that could not be read is with its own words. It is the
/// whole request where it is the last as well.
pub proof fn lemma_first_piece(
    rpc: RpcModel,
    id: Seq<char>,
    piece: PieceModel,
    config: ConfigModel,
    now: u64,
    other: Seq<char>,
)
    requires
        !rpc.uploads.contains_key(id),
    ensures
        ({
            let (after, step) = handled(rpc, InboundModel::Fragment(id, Ok(piece)), config, now);
            let begins = piece.seq == 0 && rpc.uploads.dom().len() < 4 && !rpc.active.contains_key(
                id,
            );
            &&& !begins ==> (after, step) == failed(rpc, id, 400, "invalid or excessive upload"@)
            &&& begins && piece.data.len() > 8388608 ==> (after, step) == failed(
                rpc,
                id,
                400,
                "request exceeds 8 MiB"@,
            )
            &&& begins && piece.data.len() <= 8388608 && piece.done ==> step
                == StepModel::Assembled(id, piece.data) && after == rpc
            &&& begins && piece.data.len() <= 8388608 && !piece.done ==> {
                &&& step is Nothing
                &&& after.uploads.dom() == rpc.uploads.dom().insert(id)
                &&& after.uploads[id].bytes == piece.data
                &&& after.uploads[id].next == 1 && after.uploads[id].started == now
                &&& other != id && rpc.uploads.contains_key(other) ==> after.uploads[other]
                    == rpc.uploads[other]
                &&& after.active == rpc.active && after.error_slots == rpc.error_slots
                    && after.cancelled == rpc.cancelled
            }
        }),
{
    assert(rpc.uploads.remove(id) =~= rpc.uploads);
    assert(new_upload(now).bytes + piece.data =~= piece.data);
}

/// What becomes of a later piece: it has the number that is next and comes
/// within 30 seconds of the first, and the bytes together are at most 8388608;
/// else the upload is ended and answered 400. The last piece hands the bytes
/// over, any other waits for the next.
pub proof fn lemma_later_piece(
    rpc: RpcModel,
    id: Seq<char>,
    piece: PieceModel,
    config: ConfigModel,
    now: u64,
    other: Seq<char>,
)
    requires
        rpc.uploads.contains_key(id),
    ensures
        ({
            let (after, step) = handled(rpc, InboundModel::Fragment(id, Ok(piece)), config, now);
            let upload = rpc.uploads[id];
            let without = RpcModel { uploads: rpc.uploads.remove(id), ..rpc };
            let in_turn = piece.seq == upload.next && now < upload.started + 30_000_000_000;
            let fits = upload.bytes.len() + piece.data.len() <= 8388608;
            &&& !in_turn ==> (after, step) == failed(
                without,
                id,
                400,
                "invalid fragment sequence or expired upload"@,
            )
            &&& in_turn && !fits ==> (after, step) == failed(
                without,
                id,
                400,
                "request exceeds 8 MiB"@,
            )
            &&& in_turn && fits && piece.done ==> step == StepModel::Assembled(
                id,
                upload.bytes + piece.data,
            ) && after == without
            &&& in_turn && fits && !piece.done ==> {
                &&& step is Nothing
                &&& after.uploads.dom() == rpc.uploads.dom()
                &&& after.uploads[id].bytes == upload.bytes + piece.data
                &&& after.uploads[id].next == (upload.next + 1) % 0x1_0000_0000_0000_0000
                &&& after.uploads[id].started == upload.started
                &&& other != id ==> after.uploads[other] == rpc.uploads[other]
                &&& after.active == rpc.active && after.error_slots == rpc.error_slots
                    && after.cancelled == rpc.cancelled
            }
        }),
{
    let after = handled(rpc, InboundModel::Fragment(id, Ok(piece)), config, now).0;
    if after.uploads.contains_key(id) {
        assert(after.uploads.dom() =~= rpc.uploads.dom());
    }
}

/// A piece that could not be read ends its upload and is answered 400 in its own
/// words.
pub proof fn lemma_unread_piece(
    rpc: RpcModel,
    id: Seq<char>,
    words: Seq<char>,
    config: ConfigModel,
    now: u64,
)
    ensures
        handled(rpc, InboundModel::Fragment(id, Err(words)), config, now) == failed(
            RpcModel { uploads: rpc.uploads.remove(id), ..rpc },
            id,
            400,
            words,
        ),
{
}

/// An upload is ended where it began more than 30 seconds ago, and no other is;
/// each is answered 408 while there are places for error frames.
pub proof fn lemma_expired(rpc: RpcModel, now: u64, id: Seq<char>)
    ensures
        ({
            let after = expired(rpc, now);
            let gone = expired_ids(rpc.uploads, now);
            &&& gone.contains(id) <==> rpc.uploads.contains_key(id) && now > rpc.uploads[id].started
                + 30_000_000_000
            &&& after.uploads.contains_key(id) <==> rpc.uploads.contains_key(id) && now
                <= rpc.uploads[id].started + 30_000_000_000
            &&& after.uploads.contains_key(id) ==> after.uploads[id] == rpc.uploads[id]
            &&& after.error_slots == if gone.len() <= rpc.error_slots {
                rpc.error_slots - gone.len()
            } else {
                0
            }
            &&& after.active == rpc.active && after.cancelled == rpc.cancelled
        }),
        expiry_text(id) == tree_text(error_tree(id, 408, "request upload timed out"@)),
{
}

/// A request that ends leaves the others; a channel that is closed takes nothing
/// more and otherwise stays as it is.
pub proof fn lemma_released(rpc: RpcModel, id: Seq<char>, other: Seq<char>)
    ensures
        !released(rpc, id).active.contains_key(id),
        other != id ==> (released(rpc, id).active.contains_key(other) <==> rpc.active.contains_key(
            other,
        )) && released(rpc, id).active[other] == rpc.active[other],
        released(rpc, id).uploads == rpc.uploads && released(rpc, id).error_slots
            == rpc.error_slots && released(rpc, id).cancelled == rpc.cancelled,
        closed(rpc).cancelled,
        closed(rpc).active == rpc.active && closed(rpc).uploads == rpc.uploads
            && closed(rpc).error_slots == rpc.error_slots,
{
}

/// A request that failed is answered in the words of its failure: with 499 where
/// the browser gave it up, with 504 where it took too long, and with 502
/// otherwise; nothing is answered once the channel is closed.
pub proof fn lemma_concluded(rpc: RpcModel, id: Seq<char>, failure: Failure)
    ensures
        ({
            let words = failure_words(failure);
            let result = concluded(rpc, id, words);
            let gone = rpc.active.contains_key(id) && rpc.active[id].cancelled;
            &&& rpc.cancelled ==> result is None
            &&& !rpc.cancelled && gone ==> result == Some(tree_text(error_tree(id, 499, words)))
            &&& !rpc.cancelled && !gone && failure is TimedOut ==> result == Some(
                tree_text(error_tree(id, 504, words)),
            )
            &&& !rpc.cancelled && !gone && words != "request timed out"@ ==> result == Some(
                tree_text(error_tree(id, 502, words)),
            )
            &&& failure is Cancelled ==> words == "request cancelled"@
            &&& failure is TimedOut ==> words == "request timed out"@
            &&& failure matches Failure::Other(reason) ==> words == reason@
        }),
{
}

/// The bytes of pieces, one after the other, are as many as those of each
/// together, and one piece more adds its bytes behind.
pub proof fn lemma_joined(parts: Seq<Seq<u8>>, part: Seq<u8>)
    ensures
        joined(Seq::empty()).len() == 0,
        joined(parts.push(part)) == joined(parts) + part,
        joined(seq![part]) == part,
{
    assert(parts.push(part).drop_last() =~= parts);
    assert(seq![part].drop_last() =~= Seq::<Seq<u8>>::empty());
    assert(joined(Seq::empty()) + part =~= part);
}

} // verus!
