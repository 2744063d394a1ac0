//! The answer to a request, as it goes over the data channel: one frame that
//! begins it, numbered chunks, and one frame that ends it.
//!
//! [`Answer`] decides what is sent next; the caller hands it the bytes as they
//! come, sends the frames that it gets, and waits where the window is full.

use crate::codec::{base64_decoded, base64_encoded};
use crate::config::{ConfigModel, CHUNK_BYTES, MAX_FRAME_BYTES};
use crate::forward::{
    chunks_of, lemma_chunk_inside, lemma_chunk_places, lemma_chunks, lemma_joined_front,
    passed_headers, response_headers, split_chunks,
};
use crate::frames::{
    chunk_frame, chunk_tree, done_frame, done_tree, headers_shape, ordinary_headers, response_frame,
    response_shape,
};
use crate::json::{
    json_document, json_level, json_text, member_of, spells, text_member_of, tree_text,
    unsigned_member_of,
};
use crate::rpc::{
    event_step, in_flight, joined, leaves_answer, lemma_answer_stays, lemma_limits_kept,
    lemma_window, spent, within_limits, ChannelEvent, Rpc, RpcModel, WINDOW,
};
use crate::text::{byte_length, valid_name};
use vstd::prelude::*;
use vstd::utf8::encode_utf8;

verus! {

/// An answer that is being sent.
pub struct Answer {
    id: String,
    pending: Vec<Vec<u8>>,
    ended: bool,
}

/// What an [`Answer`] holds.
pub struct AnswerModel {
    /// The request that is answered.
    pub id: Seq<char>,
    /// Chunks that came and are not sent yet.
    pub pending: Seq<Seq<u8>>,
    /// The frame that ends the answer was given out.
    pub ended: bool,
}

impl View for Answer {
    type V = AnswerModel;

    closed spec fn view(&self) -> AnswerModel {
        AnswerModel { id: self.id@, pending: self.pending.deep_view(), ended: self.ended }
    }
}

/// A frame of an answer.
pub enum Outgoing {
    Response(u16, Map<Seq<char>, Seq<char>>),
    Chunk(u32, Seq<u8>),
    Done,
}

/// The text of a frame of an answer.
pub open spec fn frame_text(id: Seq<char>, frame: Outgoing) -> Seq<char> {
    match frame {
        Outgoing::Response(status, headers) => json_text(response_shape(id, status, headers)),
        Outgoing::Chunk(seq, bytes) => tree_text(chunk_tree(id, seq, base64_encoded(bytes))),
        Outgoing::Done => tree_text(done_tree(id)),
    }
}

/// Each holds at least one byte, and at most as many as a frame carries.
pub open spec fn cut(chunks: Seq<Seq<u8>>) -> bool {
    forall|i: int| 0 <= i < chunks.len() ==> 1 <= (#[trigger] chunks[i]).len() <= CHUNK_BYTES
}

/// An answer that was begun.
pub open spec fn fresh_answer(id: Seq<char>) -> AnswerModel {
    AnswerModel { id, pending: Seq::empty(), ended: false }
}

/// Bytes of an answer are cut into chunks, which wait behind those that came
/// before; none are taken once the answer ended.
pub open spec fn supplied(answer: AnswerModel, bytes: Seq<u8>) -> AnswerModel {
    if answer.ended {
        answer
    } else {
        AnswerModel { pending: answer.pending + chunks_of(bytes), ..answer }
    }
}

/// The chunk that waits longest goes out with the next number, where the window
/// has room for it.
pub open spec fn advanced(answer: AnswerModel, rpc: RpcModel) -> (
    AnswerModel,
    RpcModel,
    Option<Outgoing>,
) {
    if answer.pending.len() == 0 {
        (answer, rpc, None)
    } else {
        match spent(rpc, answer.id) {
            (rest, Some(seq)) => (
                AnswerModel { pending: answer.pending.skip(1), ..answer },
                rest,
                Some(Outgoing::Chunk(seq, answer.pending[0])),
            ),
            (rest, None) => (answer, rest, None),
        }
    }
}

/// The answer ends once no chunk waits, and only once.
pub open spec fn concluded_answer(answer: AnswerModel) -> (AnswerModel, Option<Outgoing>) {
    if answer.ended || answer.pending.len() > 0 {
        (answer, None)
    } else {
        (AnswerModel { ended: true, ..answer }, Some(Outgoing::Done))
    }
}

/// What is to be done with an answer.
pub enum Turn {
    /// Send the frame.
    Send(String),
    /// Wait until the request gets a credit.
    Wait,
    /// Every chunk was given out.
    Drained,
}

impl Answer {
    /// Every chunk that waits can be sent.
    pub closed spec fn wf(&self) -> bool {
        cut(self@.pending)
    }

    /// Every chunk that waits can be sent.
    pub proof fn lemma_cut(&self)
        requires
            self.wf(),
        ensures
            cut(self@.pending),
    {
    }

    /// Begins an answer, with the frame that says so. Whoever reads the frame
    /// finds the status and the headers that are passed on.
    pub fn begin(id: &str, status: u16, list: &Vec<(String, Option<String>)>) -> (begun: (
        Answer,
        String,
    ))
        ensures
            begun.0.wf(),
            begun.0@ == fresh_answer(id@),
            begun.1@ == frame_text(
                id@,
                Outgoing::Response(status, passed_headers(list.deep_view())),
            ),
            ordinary_headers(passed_headers(list.deep_view())) ==> {
                let headers = passed_headers(list.deep_view());
                &&& json_document(encode_utf8(begun.1@)) == Some(
                    response_shape(id@, status, headers),
                )
                &&& json_level(json_text(headers_shape(headers))) == Some(
                    headers_shape(headers),
                )
            },
            ordinary_headers(passed_headers(list.deep_view())) ==> (json_document(
                encode_utf8(begun.1@),
            ) matches Some(document) && {
                let headers = passed_headers(list.deep_view());
                &&& text_member_of(document, "type"@) == Some("response"@)
                &&& text_member_of(document, "id"@) == Some(id@)
                &&& unsigned_member_of(document, "status"@) == Some(status as u64)
                &&& member_of(document, "headers"@) matches Some(found) && forall|name: Seq<char>|
                    #![trigger text_member_of(found, name)]
                    text_member_of(found, name) == if headers.contains_key(name) {
                        Some(headers[name])
                    } else {
                        None
                    }
            }),
    {
        let headers = response_headers(list);
        let frame = response_frame(id, status, &headers);
        let answer = Answer { id: id.to_owned(), pending: Vec::new(), ended: false };
        assert(answer@.pending =~= Seq::empty());
        (answer, frame)
    }

    /// Takes bytes of the answer.
    pub fn supply(&mut self, bytes: &[u8])
        requires
            old(self).wf(),
        ensures
            final(self).wf(),
            final(self)@ == supplied(old(self)@, bytes@),
    {
        if self.ended {
            return ;
        }
        let ghost before = self@.pending;
        let mut chunks = split_chunks(bytes);
        let ghost added = chunks.deep_view();
        self.pending.append(&mut chunks);
        proof {
            assert(self@.pending =~= before + added);
            lemma_chunks(bytes@);
            assert forall|i: int| 0 <= i < self@.pending.len() implies 1 <= (
            #[trigger] self@.pending[i]).len() <= CHUNK_BYTES by {
                if i >= before.len() {
                    assert(self@.pending[i] == added[i - before.len()]);
                } else {
                    assert(self@.pending[i] == before[i]);
                }
            }
        }
    }

    /// Gives out the next chunk, where there is one and the window has room for
    /// it. Whoever reads the frame finds the bytes of the chunk, and the frame is
    /// never too large to be sent.
    pub fn advance(&mut self, rpc: &mut Rpc) -> (turn: Turn)
        requires
            old(self).wf(),
            old(rpc).wf(),
        ensures
            final(self).wf(),
            final(rpc).wf(),
            (final(self)@, final(rpc)@) == (
                advanced(old(self)@, old(rpc)@).0,
                advanced(old(self)@, old(rpc)@).1,
            ),
            match turn {
                Turn::Send(frame) => {
                    &&& advanced(old(self)@, old(rpc)@).2 matches Some(Outgoing::Chunk(seq, bytes))
                    &&& frame@ == frame_text(old(self)@.id, Outgoing::Chunk(seq, bytes))
                    &&& spells(
                        frame@,
                        chunk_tree(old(self)@.id, seq, base64_encoded(bytes)),
                        1,
                    )
                    &&& (base64_decoded(base64_encoded(bytes)) == Ok::<Seq<u8>, Seq<char>>(bytes))
                    &&& valid_name(old(self)@.id) ==> byte_length(frame@) <= MAX_FRAME_BYTES
                    &&& json_document(encode_utf8(frame@)) matches Some(document) && {
                        &&& text_member_of(document, "type"@) == Some("chunk"@)
                        &&& text_member_of(document, "id"@) == Some(old(self)@.id)
                        &&& unsigned_member_of(document, "seq"@) == Some(seq as u64)
                        &&& text_member_of(document, "data"@) matches Some(data) && (
                        base64_decoded(data) == Ok::<Seq<u8>, Seq<char>>(bytes))
                    }
                },
                Turn::Wait => old(self)@.pending.len() > 0 && advanced(
                    old(self)@,
                    old(rpc)@,
                ).2 is None,
                Turn::Drained => old(self)@.pending.len() == 0,
            },
    {
        if self.pending.len() == 0 {
            return Turn::Drained;
        }
        match rpc.take_credit(self.id.as_str()) {
            None => Turn::Wait,
            Some(seq) => {
                let ghost before = self@.pending;
                let chunk = self.pending.remove(0);
                proof {
                    assert(chunk@ == before[0]);
                    assert(self@.pending =~= before.skip(1));
                    assert forall|i: int| 0 <= i < self@.pending.len() implies 1 <= (
                    #[trigger] self@.pending[i]).len() <= CHUNK_BYTES by {
                        assert(self@.pending[i] == before[i + 1]);
                    }
                }
                Turn::Send(chunk_frame(self.id.as_str(), seq, chunk.as_slice()))
            },
        }
    }

    /// Ends the answer, `None` while chunks wait and once it ended.
    pub fn end(&mut self) -> (frame: Option<String>)
        requires
            old(self).wf(),
        ensures
            final(self).wf(),
            final(self)@ == concluded_answer(old(self)@).0,
            match frame {
                Some(frame) => {
                    &&& concluded_answer(old(self)@).1 == Some(Outgoing::Done)
                    &&& frame@ == frame_text(old(self)@.id, Outgoing::Done)
                    &&& spells(frame@, done_tree(old(self)@.id), 1)
                    &&& json_document(encode_utf8(frame@)) matches Some(document)
                        && text_member_of(document, "type"@) == Some("done"@) && text_member_of(
                        document,
                        "id"@,
                    ) == Some(old(self)@.id)
                },
                None => concluded_answer(old(self)@).1 is None,
            },
    {
        if self.ended || self.pending.len() > 0 {
            return None;
        }
        self.ended = true;
        Some(done_frame(self.id.as_str()))
    }
}

/// What happens while an answer is sent, in the order in which it happens.
pub enum AnswerEvent {
    /// Bytes of the answer come.
    Supply(Seq<u8>),
    /// The next chunk is asked for.
    Advance,
    /// The end is asked for.
    End,
    /// Something else happens on the channel.
    Channel(ChannelEvent),
}

/// An answer under way: the channel, what is left to send, the frames that were
/// given out and the bytes that came.
pub struct AnswerRun {
    pub rpc: RpcModel,
    pub answer: AnswerModel,
    pub frames: Seq<Outgoing>,
    pub body: Seq<u8>,
}

/// An answer that was begun with this status and these headers.
pub open spec fn begun(
    rpc: RpcModel,
    id: Seq<char>,
    status: u16,
    headers: Map<Seq<char>, Seq<char>>,
) -> AnswerRun {
    AnswerRun {
        rpc,
        answer: fresh_answer(id),
        frames: seq![Outgoing::Response(status, headers)],
        body: Seq::empty(),
    }
}

/// One frame more, where there is one.
pub open spec fn with_frame(frames: Seq<Outgoing>, frame: Option<Outgoing>) -> Seq<Outgoing> {
    match frame {
        Some(frame) => frames.push(frame),
        None => frames,
    }
}

/// What an event does to an answer under way.
pub open spec fn run_step(run: AnswerRun, event: AnswerEvent, config: ConfigModel) -> AnswerRun {
    match event {
        AnswerEvent::Supply(bytes) => AnswerRun {
            answer: supplied(run.answer, bytes),
            body: if run.answer.ended {
                run.body
            } else {
                run.body + bytes
            },
            ..run
        },
        AnswerEvent::Advance => {
            let (answer, rpc, frame) = advanced(run.answer, run.rpc);
            AnswerRun { rpc, answer, frames: with_frame(run.frames, frame), ..run }
        },
        AnswerEvent::End => {
            let (answer, frame) = concluded_answer(run.answer);
            AnswerRun { answer, frames: with_frame(run.frames, frame), ..run }
        },
        AnswerEvent::Channel(event) => AnswerRun {
            rpc: event_step(run.rpc, event, config).0,
            ..run
        },
    }
}

/// An answer after a series of events.
pub open spec fn run_after(
    run: AnswerRun,
    events: Seq<AnswerEvent>,
    config: ConfigModel,
) -> AnswerRun
    decreases events.len(),
{
    if events.len() == 0 {
        run
    } else {
        run_step(run_after(run, events.drop_last(), config), events.last(), config)
    }
}

/// How many chunks were given out.
pub open spec fn chunk_count(run: AnswerRun) -> int {
    run.frames.len() - if run.answer.ended {
        2int
    } else {
        1int
    }
}

/// The bytes of the chunks that were given out.
pub open spec fn given_out(run: AnswerRun) -> Seq<Seq<u8>> {
    Seq::new(
        chunk_count(run) as nat,
        |i: int|
            match run.frames[i + 1] {
                Outgoing::Chunk(_, bytes) => bytes,
                _ => Seq::empty(),
            },
    )
}

/// The frames that were given out are one that begins the answer, chunks that
/// are numbered from zero on, with zero again after the largest number, and,
/// once the answer ended, one that ends it. What the chunks hold and what still
/// waits are, one after the other, the bytes that came; nothing waits once the
/// answer ended.
pub open spec fn in_order(
    run: AnswerRun,
    status: u16,
    headers: Map<Seq<char>, Seq<char>>,
) -> bool {
    &&& chunk_count(run) >= 0
    &&& run.frames[0] == Outgoing::Response(status, headers)
    &&& forall|i: int|
        0 <= i < chunk_count(run) ==> (#[trigger] run.frames[i + 1]) == Outgoing::Chunk(
            (i % 0x1_0000_0000) as u32,
            given_out(run)[i],
        )
    &&& cut(given_out(run))
    &&& cut(run.answer.pending)
    &&& joined(given_out(run)) + joined(run.answer.pending) == run.body
    &&& run.answer.ended ==> run.frames.last() is Done && run.answer.pending.len() == 0
}

/// The chunk that is next to go out has the number after those that went.
spec fn numbered(run: AnswerRun, id: Seq<char>) -> bool {
    &&& run.answer.id == id
    &&& within_limits(run.rpc)
    &&& run.rpc.active.contains_key(id)
    &&& run.rpc.active[id].sent == chunk_count(run) % 0x1_0000_0000
}

/// Joining two lists of parts is joining each and then the two.
proof fn lemma_joined_both(first: Seq<Seq<u8>>, second: Seq<Seq<u8>>)
    ensures
        joined(first + second) == joined(first) + joined(second),
    decreases second.len(),
{
    let both = first + second;
    if second.len() == 0 {
        assert(both =~= first);
        assert(joined(first) + joined(second) =~= joined(first));
    } else {
        assert(both.drop_last() =~= first + second.drop_last());
        lemma_joined_both(first, second.drop_last());
        assert((joined(first) + joined(second.drop_last())) + second.last() =~= joined(first) + (
        joined(second.drop_last()) + second.last()));
    }
}

/// Bytes that come keep an answer in order.
proof fn lemma_supply_in_order(
    run: AnswerRun,
    bytes: Seq<u8>,
    config: ConfigModel,
    status: u16,
    headers: Map<Seq<char>, Seq<char>>,
)
    requires
        in_order(run, status, headers),
    ensures
        in_order(run_step(run, AnswerEvent::Supply(bytes), config), status, headers),
{
    let after = run_step(run, AnswerEvent::Supply(bytes), config);
    assert(given_out(after) =~= given_out(run));
    if !run.answer.ended {
        let before = run.answer.pending;
        let added = chunks_of(bytes);
        lemma_chunks(bytes);
        lemma_joined_both(before, added);
        assert((joined(given_out(run)) + joined(before)) + bytes =~= joined(given_out(run)) + (
        joined(before) + bytes));
        assert forall|i: int| 0 <= i < after.answer.pending.len() implies 1 <= (
        #[trigger] after.answer.pending[i]).len() <= CHUNK_BYTES by {
            if i >= before.len() {
                assert(after.answer.pending[i] == added[i - before.len()]);
            } else {
                assert(after.answer.pending[i] == before[i]);
            }
        }
    }
}

/// A chunk that goes out keeps an answer in order.
proof fn lemma_advance_in_order(
    run: AnswerRun,
    config: ConfigModel,
    id: Seq<char>,
    status: u16,
    headers: Map<Seq<char>, Seq<char>>,
)
    requires
        in_order(run, status, headers),
        numbered(run, id),
    ensures
        in_order(run_step(run, AnswerEvent::Advance, config), status, headers),
        numbered(run_step(run, AnswerEvent::Advance, config), id),
{
    let after = run_step(run, AnswerEvent::Advance, config);
    let pending = run.answer.pending;
    lemma_limits_kept(run.rpc, ChannelEvent::Chunk(id), config);
    if pending.len() > 0 && spent(run.rpc, id).1 is Some {
        let n = chunk_count(run);
        let seq = run.rpc.active[id].sent;
        assert(seq == (n % 0x1_0000_0000) as u32);
        assert(chunk_count(after) == n + 1);
        assert(given_out(after) =~= given_out(run).push(pending[0]));
        assert forall|i: int| 0 <= i < n + 1 implies (#[trigger] after.frames[i + 1])
            == Outgoing::Chunk((i % 0x1_0000_0000) as u32, given_out(after)[i]) by {
            if i < n {
                assert(after.frames[i + 1] == run.frames[i + 1]);
            }
        }
        assert(cut(given_out(after))) by {
            assert forall|i: int| 0 <= i < given_out(after).len() implies 1 <= (
            #[trigger] given_out(after)[i]).len() <= CHUNK_BYTES by {
                if i < n {
                    assert(given_out(after)[i] == given_out(run)[i]);
                } else {
                    assert(given_out(after)[i] == pending[0]);
                }
            }
        }
        assert(cut(after.answer.pending)) by {
            assert forall|i: int| 0 <= i < after.answer.pending.len() implies 1 <= (
            #[trigger] after.answer.pending[i]).len() <= CHUNK_BYTES by {
                assert(after.answer.pending[i] == pending[i + 1]);
            }
        }
        lemma_joined_front(pending[0], pending.skip(1));
        assert(seq![pending[0]] + pending.skip(1) =~= pending);
        assert(given_out(after).drop_last() =~= given_out(run));
        assert((joined(given_out(run)) + pending[0]) + joined(pending.skip(1)) =~= joined(
            given_out(run),
        ) + (pending[0] + joined(pending.skip(1))));
        assert((n + 1) % 0x1_0000_0000 == if seq == u32::MAX {
            0int
        } else {
            seq + 1
        });
    } else {
        assert(after.frames == run.frames && after.answer == run.answer);
        assert(given_out(after) =~= given_out(run));
    }
}

/// The end keeps an answer in order.
proof fn lemma_end_in_order(
    run: AnswerRun,
    config: ConfigModel,
    status: u16,
    headers: Map<Seq<char>, Seq<char>>,
)
    requires
        in_order(run, status, headers),
    ensures
        in_order(run_step(run, AnswerEvent::End, config), status, headers),
        chunk_count(run_step(run, AnswerEvent::End, config)) == chunk_count(run),
{
    let after = run_step(run, AnswerEvent::End, config);
    if !run.answer.ended && run.answer.pending.len() == 0 {
        assert(given_out(after) =~= given_out(run)) by {
            assert forall|i: int| 0 <= i < chunk_count(run) implies given_out(after)[i]
                == given_out(run)[i] by {
                assert(after.frames[i + 1] == run.frames[i + 1]);
            }
        }
        assert forall|i: int| 0 <= i < chunk_count(after) implies (#[trigger] after.frames[i + 1])
            == Outgoing::Chunk((i % 0x1_0000_0000) as u32, given_out(after)[i]) by {
            assert(after.frames[i + 1] == run.frames[i + 1]);
        }
    }
}

/// An answer is sent in order, whatever else happens on the channel meanwhile:
/// one frame that begins it, chunks that are numbered 0, 1, 2 and so on and hold
/// at most as many bytes as a frame carries, and one frame that ends it after
/// which nothing follows. The chunks of an answer that ended are, one after the
/// other, the bytes that came. At no time are more chunks unacknowledged than
/// the window holds.
pub proof fn lemma_answer_in_order(
    rpc: RpcModel,
    id: Seq<char>,
    status: u16,
    headers: Map<Seq<char>, Seq<char>>,
    events: Seq<AnswerEvent>,
    config: ConfigModel,
)
    requires
        within_limits(rpc),
        rpc.active.contains_key(id),
        rpc.active[id].sent == 0,
        forall|k: int|
            0 <= k < events.len() ==> ((#[trigger] events[k]) matches AnswerEvent::Channel(event)
                ==> leaves_answer(event, id)),
    ensures
        ({
            let run = run_after(begun(rpc, id, status, headers), events, config);
            &&& in_order(run, status, headers)
            &&& run.answer.ended ==> joined(given_out(run)) == run.body
            &&& run.rpc.active.contains_key(id)
            &&& in_flight(run.rpc.active[id].sent, run.rpc.active[id].acknowledged) <= WINDOW
            &&& in_flight(run.rpc.active[id].sent, run.rpc.active[id].acknowledged) <= 8
        }),
{
    let run = run_after(begun(rpc, id, status, headers), events, config);
    lemma_run(rpc, id, status, headers, events, config);
    lemma_window(run.rpc, id);
    if run.answer.ended {
        assert(joined(run.answer.pending) =~= Seq::empty());
        assert(joined(given_out(run)) + joined(run.answer.pending) =~= joined(given_out(run)));
    }
}

/// The answer is in order after every series of events.
proof fn lemma_run(
    rpc: RpcModel,
    id: Seq<char>,
    status: u16,
    headers: Map<Seq<char>, Seq<char>>,
    events: Seq<AnswerEvent>,
    config: ConfigModel,
)
    requires
        within_limits(rpc),
        rpc.active.contains_key(id),
        rpc.active[id].sent == 0,
        forall|k: int|
            0 <= k < events.len() ==> ((#[trigger] events[k]) matches AnswerEvent::Channel(event)
                ==> leaves_answer(event, id)),
    ensures
        in_order(run_after(begun(rpc, id, status, headers), events, config), status, headers),
        numbered(run_after(begun(rpc, id, status, headers), events, config), id),
    decreases events.len(),
{
    let start = begun(rpc, id, status, headers);
    if events.len() == 0 {
        assert(given_out(start) =~= Seq::<Seq<u8>>::empty());
        assert(joined(given_out(start)) + joined(start.answer.pending) =~= start.body);
    } else {
        let before = run_after(start, events.drop_last(), config);
        let event = events.last();
        assert forall|k: int| 0 <= k < events.drop_last().len() implies ((
        #[trigger] events.drop_last()[k]) matches AnswerEvent::Channel(event) ==> leaves_answer(
            event,
            id,
        )) by {
            assert(events.drop_last()[k] == events[k]);
        }
        lemma_run(rpc, id, status, headers, events.drop_last(), config);
        match event {
            AnswerEvent::Supply(bytes) => {
                lemma_supply_in_order(before, bytes, config, status, headers);
            },
            AnswerEvent::Advance => {
                lemma_advance_in_order(before, config, id, status, headers);
            },
            AnswerEvent::End => {
                lemma_end_in_order(before, config, status, headers);
            },
            AnswerEvent::Channel(other) => {
                let after = run_step(before, event, config);
                assert(events[events.len() - 1] == event);
                lemma_limits_kept(before.rpc, other, config);
                lemma_answer_stays(before.rpc, other, config, id);
                assert(given_out(after) =~= given_out(before));
            },
        }
    }
}

/// Bytes that come wait behind the chunks that came before, in chunks of 8192
/// bytes and what is left; none are taken once the answer ended.
pub proof fn lemma_supplied(answer: AnswerModel, bytes: Seq<u8>)
    ensures
        answer.ended ==> supplied(answer, bytes) == answer,
        !answer.ended ==> {
            let after = supplied(answer, bytes);
            let n = answer.pending.len();
            &&& after.id == answer.id && !after.ended
            &&& after.pending.len() == n + (bytes.len() + 8191) / 8192
            &&& after.pending.take(n as int) == answer.pending
            &&& joined(after.pending) == joined(answer.pending) + bytes
            &&& forall|i: int|
                n <= i < after.pending.len() - 1 ==> (#[trigger] after.pending[i]).len() == 8192
        },
{
    if !answer.ended {
        let after = supplied(answer, bytes);
        let n = answer.pending.len();
        let added = chunks_of(bytes);
        lemma_chunks(bytes);
        lemma_chunk_places(bytes, 0);
        lemma_joined_both(answer.pending, added);
        assert(after.pending.take(n as int) =~= answer.pending);
        assert forall|i: int| n <= i < after.pending.len() - 1 implies (
        #[trigger] after.pending[i]).len() == 8192 by {
            lemma_chunk_places(bytes, i - n);
            lemma_chunk_inside(bytes, i - n);
        }
    }
}

/// The chunk that waits longest goes out, once, with the number that is next
/// for the request, exactly where one waits and the request has a credit.
pub proof fn lemma_advanced(answer: AnswerModel, rpc: RpcModel)
    ensures
        ({
            let (after, channel, frame) = advanced(answer, rpc);
            let may = answer.pending.len() > 0 && rpc.active.contains_key(answer.id)
                && rpc.active[answer.id].credits > 0;
            &&& !may ==> frame is None && after == answer && channel == rpc
            &&& may ==> {
                &&& frame == Some(Outgoing::Chunk(rpc.active[answer.id].sent, answer.pending[0]))
                &&& seq![answer.pending[0]] + after.pending == answer.pending
                &&& after.id == answer.id && after.ended == answer.ended
                &&& channel == spent(rpc, answer.id).0
            }
        }),
{
    if answer.pending.len() > 0 {
        assert(seq![answer.pending[0]] + answer.pending.skip(1) =~= answer.pending);
    }
}

/// An answer that was begun has nothing to send. It ends where nothing waits,
/// with the frame that says so, and only once.
pub proof fn lemma_ends_once(answer: AnswerModel, id: Seq<char>)
    ensures
        fresh_answer(id).id == id && fresh_answer(id).pending.len() == 0 && !fresh_answer(id).ended,
        answer.pending.len() == 0 && !answer.ended ==> {
            let (after, frame) = concluded_answer(answer);
            &&& frame == Some(Outgoing::Done)
            &&& after.ended && after.id == answer.id && after.pending == answer.pending
            &&& concluded_answer(after) == (after, None::<Outgoing>)
        },
        answer.pending.len() > 0 || answer.ended ==> concluded_answer(answer) == (
            answer,
            None::<Outgoing>,
        ),
{
}

/// Every chunk that waits to be sent holds 1 to 8192 bytes.
pub proof fn lemma_cut_sizes(chunks: Seq<Seq<u8>>, i: int)
    requires
        cut(chunks),
        0 <= i < chunks.len(),
    ensures
        1 <= chunks[i].len() <= 8192,
{
}

} // verus!
