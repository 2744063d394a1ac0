//! Forwarding a request: which headers go along, how the answer is cut into
//! chunks, and when a frame may be sent.

use crate::config::{Config, CHUNK_BYTES, MAX_FRAME_BYTES};
use crate::frames::Request;
use crate::rpc::joined;
use crate::table::{lemma_deep_insert, names_distinct, Table};
use crate::text::{byte_len, byte_length, lowercase, lowered, starts_with, text_equal};
use vstd::prelude::*;

verus! {

/// Bytes that may wait in the data channel before another frame is sent.
pub const MAX_BUFFERED_BYTES: usize = 262144;

/// A header that goes along with a request, in whatever case it is written.
pub open spec fn forwarded_header(name: Seq<char>) -> bool {
    let lower = lowered(name);
    lower == "content-type"@ || lower == "accept"@ || lower == "x-mock-scenario"@
}

/// The headers that go along with a request.
pub open spec fn forwarded_headers(headers: Map<Seq<char>, Seq<char>>) -> Map<
    Seq<char>,
    Seq<char>,
> {
    Map::new(
        |name: Seq<char>| headers.contains_key(name) && forwarded_header(name),
        |name: Seq<char>| headers[name],
    )
}

/// Whether a header goes along with a request.
fn is_forwarded(name: &str) -> (kept: bool)
    ensures
        kept == forwarded_header(name@),
{
    let lower = lowercase(name);
    text_equal(lower.as_str(), "content-type") || text_equal(lower.as_str(), "accept")
        || text_equal(lower.as_str(), "x-mock-scenario")
}

/// Takes the headers that go along with a request.
pub fn upstream_headers(request: &Request) -> (headers: Table<String>)
    requires
        request.wf(),
    ensures
        headers.wf(),
        headers.deep_view() == forwarded_headers(request.headers.deep_view()),
{
    let ghost list = request.headers.list();
    let ghost all = request.headers.deep_view();
    let mut headers: Table<String> = Table::new();
    let total: usize = request.headers.len();
    proof {
        request.headers.lemma_list();
    }
    for i in 0..total
        invariant
            headers.wf(),
            list == request.headers.list(),
            all == request.headers.deep_view(),
            total == list.len(),
            names_distinct(list),
            forall|k: int|
                0 <= k < list.len() ==> {
                    &&& all.contains_key((#[trigger] list[k]).0@)
                    &&& all[list[k].0@] == list[k].1@
                },
            forall|name: Seq<char>| #[trigger]
                headers.deep_view().contains_key(name) ==> {
                    &&& all.contains_key(name)
                    &&& forwarded_header(name)
                    &&& headers.deep_view()[name] == all[name]
                },
            forall|k: int|
                0 <= k < i && forwarded_header((#[trigger] list[k]).0@)
                    ==> headers.deep_view().contains_key(list[k].0@),
    {
        let (name, value) = request.headers.at(i);
        let ghost before = headers.deep_view();
        assert(list[i as int].0@ == name@);
        if is_forwarded(name.as_str()) {
            proof {
                lemma_deep_insert(headers@, name@, *value);
            }
            headers.insert(name.clone(), value.clone());
            assert(headers.deep_view() =~= before.insert(name@, value@));
        }
    }
    proof {
        let wanted = forwarded_headers(all);
        assert forall|name: Seq<char>|
            #![trigger wanted.dom().contains(name)]
            #![trigger headers.deep_view().dom().contains(name)]
            wanted.dom().contains(name) == headers.deep_view().dom().contains(name) && (
            wanted.dom().contains(name) ==> wanted[name] == headers.deep_view()[name]) by {
            if wanted.contains_key(name) {
                assert(request.headers@.contains_key(name));
                let k = choose|k: int| 0 <= k < list.len() && (#[trigger] list[k]).0@ == name;
                assert(headers.deep_view().contains_key(list[k].0@));
            }
            if headers.deep_view().contains_key(name) {
            }
        }
        assert(headers.deep_view() =~= wanted);
    }
    headers
}

/// The key that goes along with a request: only under `/v1/`, and where there is one.
pub open spec fn bearer_of(key: Option<Seq<char>>, path: Seq<char>) -> Option<Seq<char>> {
    if "/v1/"@.is_prefix_of(path) {
        key
    } else {
        None
    }
}

/// Takes the key that goes along with a request.
pub fn upstream_bearer(config: &Config, path: &str) -> (key: Option<String>)
    ensures
        key.deep_view() == bearer_of(config.openai_api_key.deep_view(), path@),
{
    if starts_with(path, "/v1/") {
        match &config.openai_api_key {
            Some(key) => Some(key.clone()),
            None => None,
        }
    } else {
        None
    }
}

/// A header of an answer that is for the connection to the agent alone.
pub open spec fn withheld_header(name: Seq<char>) -> bool {
    name == "connection"@ || name == "transfer-encoding"@ || name == "keep-alive"@ || name
        == "upgrade"@ || name == "trailer"@ || name == "set-cookie"@
}

/// The headers of an answer that are passed on: those that are text, and of
/// several with one name the last.
pub open spec fn passed_headers(list: Seq<(Seq<char>, Option<Seq<char>>)>) -> Map<
    Seq<char>,
    Seq<char>,
>
    decreases list.len(),
{
    if list.len() == 0 {
        Map::empty()
    } else {
        let before = passed_headers(list.drop_last());
        let (name, value) = list.last();
        match value {
            Some(value) => if withheld_header(name) {
                before
            } else {
                before.insert(name, value)
            },
            None => before,
        }
    }
}

/// Whether a header of an answer is for the connection to the agent alone.
fn is_withheld(name: &str) -> (withheld: bool)
    ensures
        withheld == withheld_header(name@),
{
    text_equal(name, "connection") || text_equal(name, "transfer-encoding") || text_equal(
        name,
        "keep-alive",
    ) || text_equal(name, "upgrade") || text_equal(name, "trailer") || text_equal(
        name,
        "set-cookie",
    )
}

/// Takes the headers of an answer that are passed on. A value that is no text
/// is given as `None`.
pub fn response_headers(list: &Vec<(String, Option<String>)>) -> (headers: Table<String>)
    ensures
        headers.wf(),
        headers.deep_view() == passed_headers(list.deep_view()),
{
    let ghost all = list.deep_view();
    let mut headers: Table<String> = Table::new();
    assert(headers.deep_view() =~= Map::empty());
    for i in 0..list.len()
        invariant
            headers.wf(),
            all == list.deep_view(),
            headers.deep_view() == passed_headers(all.take(i as int)),
    {
        assert(all.take(i + 1).drop_last() =~= all.take(i as int));
        let name = list[i].0.as_str();
        if !is_withheld(name) {
            if let Some(value) = &list[i].1 {
                proof {
                    lemma_deep_insert(headers@, name@, *value);
                }
                headers.insert(name.to_owned(), value.clone());
            }
        }
    }
    assert(all.take(all.len() as int) =~= all);
    headers
}

/// Bytes cut into chunks: full ones, and what is left.
pub open spec fn chunks_of(bytes: Seq<u8>) -> Seq<Seq<u8>>
    decreases bytes.len(),
{
    if bytes.len() == 0 {
        Seq::empty()
    } else if bytes.len() <= CHUNK_BYTES {
        seq![bytes]
    } else {
        seq![bytes.take(CHUNK_BYTES as int)] + chunks_of(bytes.skip(CHUNK_BYTES as int))
    }
}

/// A copy of a range of bytes.
fn copy_range(bytes: &[u8], from: usize, to: usize) -> (copy: Vec<u8>)
    requires
        from <= to <= bytes@.len(),
    ensures
        copy@ == bytes@.subrange(from as int, to as int),
{
    let mut copy: Vec<u8> = Vec::new();
    for i in from..to
        invariant
            from <= i <= to <= bytes@.len(),
            copy@ =~= bytes@.subrange(from as int, i as int),
    {
        copy.push(bytes[i]);
    }
    copy
}

/// Cuts bytes into chunks.
pub fn split_chunks(bytes: &[u8]) -> (chunks: Vec<Vec<u8>>)
    ensures
        chunks.deep_view() == chunks_of(bytes@),
{
    let total: usize = bytes.len();
    let mut chunks: Vec<Vec<u8>> = Vec::new();
    let mut from: usize = 0;
    proof {
        assert(bytes@.skip(0) =~= bytes@);
        assert(chunks.deep_view() + chunks_of(bytes@) =~= chunks_of(bytes@));
    }
    while from < total
        invariant
            total == bytes@.len(),
            from <= total,
            chunks.deep_view() + chunks_of(bytes@.skip(from as int)) == chunks_of(bytes@),
        decreases total - from,
    {
        let ghost rest = bytes@.skip(from as int);
        let ghost before = chunks.deep_view();
        let to: usize = if total - from > CHUNK_BYTES { from + CHUNK_BYTES } else { total };
        let chunk = copy_range(bytes, from, to);
        let ghost model = chunk.deep_view();
        chunks.push(chunk);
        proof {
            assert(model =~= rest.take(to - from));
            assert(chunks.deep_view() =~= before.push(model));
            assert(rest.skip(to - from) =~= bytes@.skip(to as int));
            if rest.len() > CHUNK_BYTES {
                assert(before + (seq![model] + chunks_of(bytes@.skip(to as int)))
                    =~= chunks.deep_view() + chunks_of(bytes@.skip(to as int)));
            } else {
                assert(rest.take(rest.len() as int) =~= rest);
                assert(bytes@.skip(to as int) =~= Seq::empty());
                assert(chunks_of(Seq::<u8>::empty()) =~= Seq::<Seq<u8>>::empty());
                assert(before + seq![model] =~= chunks.deep_view() + Seq::<Seq<u8>>::empty());
            }
        }
        from = to;
    }
    proof {
        assert(bytes@.skip(total as int) =~= Seq::empty());
        assert(chunks_of(Seq::<u8>::empty()) =~= Seq::<Seq<u8>>::empty());
        assert(chunks.deep_view() + Seq::<Seq<u8>>::empty() =~= chunks.deep_view());
    }
    chunks
}

/// Joining behind a first part is joining the rest behind it.
pub(crate) proof fn lemma_joined_front(first: Seq<u8>, rest: Seq<Seq<u8>>)
    ensures
        joined(seq![first] + rest) == first + joined(rest),
    decreases rest.len(),
{
    let parts = seq![first] + rest;
    if rest.len() == 0 {
        assert(parts.drop_last() =~= Seq::empty());
        assert(joined(parts.drop_last()) =~= Seq::empty());
        assert(joined(parts) =~= first + joined(rest));
    } else {
        assert(parts.drop_last() =~= seq![first] + rest.drop_last());
        lemma_joined_front(first, rest.drop_last());
        assert((first + joined(rest.drop_last())) + rest.last() =~= first + (joined(
            rest.drop_last(),
        ) + rest.last()));
    }
}

/// The chunks of an answer, one after the other, are its bytes; each holds at
/// least one byte and at most as many as a frame carries.
pub proof fn lemma_chunks(bytes: Seq<u8>)
    ensures
        joined(chunks_of(bytes)) == bytes,
        forall|i: int|
            0 <= i < chunks_of(bytes).len() ==> 1 <= (#[trigger] chunks_of(bytes)[i]).len()
                <= CHUNK_BYTES,
    decreases bytes.len(),
{
    if bytes.len() == 0 {
        assert(bytes =~= Seq::empty());
    } else if bytes.len() <= CHUNK_BYTES {
        assert(seq![bytes].drop_last() =~= Seq::<Seq<u8>>::empty());
        assert(joined(Seq::<Seq<u8>>::empty()) =~= Seq::<u8>::empty());
        assert(joined(seq![bytes]) =~= bytes);
    } else {
        let first = bytes.take(CHUNK_BYTES as int);
        let rest = bytes.skip(CHUNK_BYTES as int);
        lemma_chunks(rest);
        lemma_joined_front(first, chunks_of(rest));
        assert(first + rest =~= bytes);
        assert forall|i: int| 0 <= i < chunks_of(bytes).len() implies 1 <= (
        #[trigger] chunks_of(bytes)[i]).len() <= CHUNK_BYTES by {
            if i > 0 {
                assert(chunks_of(bytes)[i] == chunks_of(rest)[i - 1]);
            }
        }
    }
}

/// Why a frame is not sent.
#[derive(Clone, Copy, Debug, PartialEq, Eq, Structural)]
pub enum SendError {
    TooLarge,
    Closed,
}

/// Why a frame is not sent, in words.
pub open spec fn send_error_words(error: SendError) -> Seq<char> {
    match error {
        SendError::TooLarge => "outbound frame too large"@,
        SendError::Closed => "data channel closed"@,
    }
}

/// A frame that is small enough is sent.
pub open spec fn frame_checked(payload: Seq<char>) -> Result<(), SendError> {
    if byte_length(payload) > MAX_FRAME_BYTES {
        Err(SendError::TooLarge)
    } else {
        Ok(())
    }
}

/// A frame is sent once little enough waits, as long as the channel is open.
pub open spec fn send_allowed(cancelled: bool, open: bool, buffered: usize) -> Result<
    bool,
    SendError,
> {
    if cancelled || !open {
        Err(SendError::Closed)
    } else {
        Ok(buffered <= MAX_BUFFERED_BYTES)
    }
}

impl SendError {
    /// The reason in words.
    pub fn message(&self) -> (text: &'static str)
        ensures
            text@ == send_error_words(*self),
    {
        match self {
            SendError::TooLarge => "outbound frame too large",
            SendError::Closed => "data channel closed",
        }
    }
}

/// Whether a frame is small enough to be sent.
pub fn check_frame(payload: &str) -> (result: Result<(), SendError>)
    ensures
        result == frame_checked(payload@),
{
    if byte_len(payload) > MAX_FRAME_BYTES {
        Err(SendError::TooLarge)
    } else {
        Ok(())
    }
}

/// Whether a frame may be sent now, or has to wait until the channel has
/// drained: an error once the channel is closed.
pub fn may_send(cancelled: bool, open: bool, buffered: usize) -> (result: Result<bool, SendError>)
    ensures
        result == send_allowed(cancelled, open, buffered),
{
    if cancelled || !open {
        Err(SendError::Closed)
    } else {
        Ok(buffered <= MAX_BUFFERED_BYTES)
    }
}

/// Of the headers of a request the content type, what is accepted and the mock
/// scenario go along, in whatever case they are written, with their values; no
/// other does.
pub proof fn lemma_forwarded_headers(headers: Map<Seq<char>, Seq<char>>, name: Seq<char>)
    ensures
        forwarded_headers(headers).contains_key(name) <==> headers.contains_key(name) && (lowered(
            name,
        ) == "content-type"@ || lowered(name) == "accept"@ || lowered(name)
            == "x-mock-scenario"@),
        forwarded_headers(headers).contains_key(name) ==> forwarded_headers(headers)[name]
            == headers[name],
{
}

/// The key goes along with every request under `/v1/` and with no other.
pub proof fn lemma_bearer(key: Option<Seq<char>>, path: Seq<char>)
    ensures
        "/v1/"@.is_prefix_of(path) ==> bearer_of(key, path) == key,
        !"/v1/"@.is_prefix_of(path) ==> bearer_of(key, path) is None,
{
}

/// Six headers of an answer are for the connection to the agent alone and are
/// never passed on; every other is, where its value is text, and the last of
/// several with one name counts.
pub proof fn lemma_passed_headers(
    list: Seq<(Seq<char>, Option<Seq<char>>)>,
    name: Seq<char>,
    value: Seq<char>,
    other: Seq<char>,
)
    ensures
        ({
            let withheld = name == "connection"@ || name == "transfer-encoding"@ || name
                == "keep-alive"@ || name == "upgrade"@ || name == "trailer"@ || name
                == "set-cookie"@;
            let more = passed_headers(list.push((name, Some(value))));
            &&& withheld ==> !passed_headers(list).contains_key(name)
            &&& withheld ==> more == passed_headers(list)
            &&& !withheld ==> more.contains_key(name) && more[name] == value
            &&& other != name ==> (more.contains_key(other) <==> passed_headers(
                list,
            ).contains_key(other)) && (more.contains_key(other) ==> more[other]
                == passed_headers(list)[other])
        }),
        passed_headers(list.push((name, None))) == passed_headers(list),
        passed_headers(Seq::empty()).dom().len() == 0,
    decreases list.len(),
{
    assert(list.push((name, Some(value))).drop_last() =~= list);
    assert(list.push((name, None)).drop_last() =~= list);
    if list.len() > 0 {
        lemma_passed_headers(list.drop_last(), name, value, other);
    }
}

/// An answer is cut every 8192 bytes: every chunk but the last holds as many,
/// the chunk with a number begins at so many times 8192 bytes, and there are no
/// more chunks than are needed.
pub proof fn lemma_chunk_places(bytes: Seq<u8>, i: int)
    ensures
        chunks_of(bytes).len() == (bytes.len() + 8191) / 8192,
        0 <= i < chunks_of(bytes).len() - 1 ==> chunks_of(bytes)[i] == bytes.subrange(
            8192 * i,
            8192 * i + 8192,
        ),
        0 <= i && i == chunks_of(bytes).len() - 1 ==> chunks_of(bytes)[i] == bytes.subrange(
            8192 * i,
            bytes.len() as int,
        ),
    decreases bytes.len(),
{
    if bytes.len() == 0 {
    } else if bytes.len() <= 8192 {
        if i == 0 {
            assert(bytes.subrange(0, bytes.len() as int) =~= bytes);
        }
    } else {
        let rest = bytes.skip(8192);
        lemma_chunk_places(rest, i - 1);
        assert(bytes.take(8192) =~= bytes.subrange(0, 8192));
        if 0 < i < chunks_of(bytes).len() {
            assert(chunks_of(bytes)[i] == chunks_of(rest)[i - 1]);
            if i < chunks_of(bytes).len() - 1 {
                assert(rest.subrange(8192 * (i - 1), 8192 * (i - 1) + 8192) =~= bytes.subrange(
                    8192 * i,
                    8192 * i + 8192,
                )) by {
                    lemma_chunk_inside(rest, i - 1);
                }
            } else {
                assert(rest.subrange(8192 * (i - 1), rest.len() as int) =~= bytes.subrange(
                    8192 * i,
                    bytes.len() as int,
                ));
            }
        }
    }
}

/// A chunk that is not the last stands within the bytes.
pub(crate) proof fn lemma_chunk_inside(bytes: Seq<u8>, i: int)
    ensures
        0 <= i < chunks_of(bytes).len() - 1 ==> 8192 * i + 8192 <= bytes.len(),
    decreases bytes.len(),
{
    if bytes.len() > 8192 && i > 0 {
        lemma_chunk_inside(bytes.skip(8192), i - 1);
    }
}

/// A frame of more than 16384 bytes is not sent, any other is. It waits while
/// more than 262144 bytes do, and goes nowhere once the channel is closed.
pub proof fn lemma_sending(payload: Seq<char>, cancelled: bool, open: bool, buffered: usize)
    ensures
        byte_length(payload) > 16384 ==> frame_checked(payload) == Err::<(), SendError>(
            SendError::TooLarge,
        ),
        byte_length(payload) <= 16384 ==> frame_checked(payload) == Ok::<(), SendError>(()),
        cancelled || !open ==> send_allowed(cancelled, open, buffered) == Err::<bool, SendError>(
            SendError::Closed,
        ),
        !cancelled && open && buffered <= 262144 ==> send_allowed(cancelled, open, buffered)
            == Ok::<bool, SendError>(true),
        !cancelled && open && buffered > 262144 ==> send_allowed(cancelled, open, buffered) == Ok::<
            bool,
            SendError,
        >(false),
        send_error_words(SendError::TooLarge) == "outbound frame too large"@,
        send_error_words(SendError::Closed) == "data channel closed"@,
{
}

} // verus!
