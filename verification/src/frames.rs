//! The frames of the data channel: what the browser sends to the agent, and
//! what the agent answers.

use crate::codec::{base64_decoded, base64_encoded, decode_base64, encode_base64};
use crate::config::{CHUNK_BYTES, MAX_FRAME_BYTES};
use crate::ice::json_string;
use crate::json::{
    flag_member, flag_member_of, json_document, json_level, json_text, last_member,
    lemma_member_reads, lemma_only_members, lemma_own_names, member_of, member_texts, members_map, open_json,
    parse_json, plain_char, plain_text, reads_back, reserved_name, sound_members, spells,
    text_member, text_member_of, tree_shape, tree_text, unsigned_member, unsigned_member_of,
    write_object, write_text, write_unsigned, Json, JsonShape, JsonTree,
};
use crate::table::{lemma_deep_insert, names_distinct, Table};
use crate::text::{byte_length, is_name, name_char, result_view, text_equal, valid_name};
use vstd::prelude::*;
use vstd::utf8::encode_utf8;

verus! {

/// A request that the browser makes.
pub struct Request {
    pub id: String,
    pub method: String,
    pub path: String,
    pub headers: Table<String>,
    pub body: Option<String>,
}

/// What a [`Request`] holds.
pub struct RequestModel {
    pub id: Seq<char>,
    pub method: Seq<char>,
    pub path: Seq<char>,
    pub headers: Map<Seq<char>, Seq<char>>,
    pub body: Option<Seq<char>>,
}

impl DeepView for Request {
    type V = RequestModel;

    open spec fn deep_view(&self) -> RequestModel {
        RequestModel {
            id: self.id@,
            method: self.method@,
            path: self.path@,
            headers: self.headers.deep_view(),
            body: self.body.deep_view(),
        }
    }
}

impl Request {
    /// No header stands twice.
    pub open spec fn wf(&self) -> bool {
        self.headers.wf()
    }
}

/// A piece of a request that comes in several frames.
pub struct Piece {
    pub seq: u64,
    pub data: Vec<u8>,
    pub done: bool,
}

/// What a [`Piece`] holds.
pub struct PieceModel {
    pub seq: u64,
    pub data: Seq<u8>,
    pub done: bool,
}

impl DeepView for Piece {
    type V = PieceModel;

    open spec fn deep_view(&self) -> PieceModel {
        PieceModel { seq: self.seq, data: self.data@, done: self.done }
    }
}

/// A frame that the browser sends.
pub enum Inbound {
    TooLarge,
    NotJson,
    BadId,
    Ack(String, Option<u64>),
    Cancel(String),
    /// A piece, or why it is refused.
    Fragment(String, Result<Piece, String>),
    /// A whole request, where it can be read.
    Request(String, Option<Request>),
    Unknown(String),
}

/// What an [`Inbound`] holds.
pub enum InboundModel {
    TooLarge,
    NotJson,
    BadId,
    Ack(Seq<char>, Option<u64>),
    Cancel(Seq<char>),
    Fragment(Seq<char>, Result<PieceModel, Seq<char>>),
    Request(Seq<char>, Option<RequestModel>),
    Unknown(Seq<char>),
}

impl DeepView for Inbound {
    type V = InboundModel;

    open spec fn deep_view(&self) -> InboundModel {
        match self {
            Inbound::TooLarge => InboundModel::TooLarge,
            Inbound::NotJson => InboundModel::NotJson,
            Inbound::BadId => InboundModel::BadId,
            Inbound::Ack(id, seq) => InboundModel::Ack(id@, *seq),
            Inbound::Cancel(id) => InboundModel::Cancel(id@),
            Inbound::Fragment(id, piece) => InboundModel::Fragment(id@, result_view(*piece)),
            Inbound::Request(id, request) => InboundModel::Request(id@, request.deep_view()),
            Inbound::Unknown(id) => InboundModel::Unknown(id@),
        }
    }
}

impl Inbound {
    /// A request in the frame is well formed.
    pub open spec fn wf(&self) -> bool {
        match self {
            Inbound::Request(_, Some(request)) => request.wf(),
            _ => true,
        }
    }
}

/// The texts of an object whose members are all strings.
pub open spec fn strings_in(members: Map<Seq<char>, Seq<char>>) -> Option<
    Map<Seq<char>, Seq<char>>,
> {
    if forall|name: Seq<char>| #[trigger]
        members.contains_key(name) ==> json_string(members[name]) is Some {
        Some(
            Map::new(
                |name: Seq<char>| members.contains_key(name),
                |name: Seq<char>| json_string(members[name])->0,
            ),
        )
    } else {
        None
    }
}

/// The headers of a request: an object of strings, none where the member is absent.
pub open spec fn headers_in(members: Map<Seq<char>, Seq<char>>) -> Option<
    Map<Seq<char>, Seq<char>>,
> {
    if members.contains_key("headers"@) {
        match json_level(members["headers"@]) {
            Some(JsonShape::Object(headers)) => strings_in(headers),
            _ => None,
        }
    } else {
        Some(Map::empty())
    }
}

/// The body of a request: a string, or nothing where the member is absent or null.
pub open spec fn body_in(members: Map<Seq<char>, Seq<char>>) -> Option<Option<Seq<char>>> {
    if members.contains_key("body"@) {
        match json_level(members["body"@]) {
            Some(JsonShape::Null) => Some(None),
            Some(JsonShape::Text(body)) => Some(Some(body)),
            _ => None,
        }
    } else {
        Some(None)
    }
}

/// The request in an object with the members `id`, `method`, `path`, `headers` and `body`.
pub open spec fn request_in(document: JsonShape) -> Option<RequestModel> {
    match document {
        JsonShape::Object(members) => match (
            text_member_of(document, "id"@),
            text_member_of(document, "method"@),
            text_member_of(document, "path"@),
            headers_in(members),
            body_in(members),
        ) {
            (Some(id), Some(method), Some(path), Some(headers), Some(body)) => Some(
                RequestModel { id, method, path, headers, body },
            ),
            _ => None,
        },
        _ => None,
    }
}

/// Reads the texts of an object whose members are all strings.
fn read_strings(members: &Vec<(String, String)>) -> (texts: Option<Table<String>>)
    ensures
        texts.deep_view() == strings_in(members_map(members.deep_view())),
        texts matches Some(table) ==> table.wf(),
{
    let ghost all = members.deep_view();
    let mut texts: Table<String> = Table::new();
    proof {
        assert(all.take(0) =~= Seq::empty());
        assert(texts.deep_view() =~= Map::empty());
    }
    // Of several members with one name the last counts, so only that one is read.
    for i in 0..members.len()
        invariant
            all == members.deep_view(),
            texts.wf(),
            forall|name: Seq<char>| #[trigger]
                texts.deep_view().contains_key(name) <==> members_map(
                    all.take(i as int),
                ).contains_key(name),
            forall|name: Seq<char>| #[trigger]
                texts.deep_view().contains_key(name) ==> {
                    &&& members_map(all).contains_key(name)
                    &&& json_string(members_map(all)[name]) == Some(texts.deep_view()[name])
                },
    {
        let name = members[i].0.as_str();
        let ghost before = texts.deep_view();
        proof {
            assert(all.take(i + 1).drop_last() =~= all.take(i as int));
            lemma_member_listed(all, i as int);
        }
        match last_member(members, name) {
            Some(at) => match open_json(members[at].1.as_str()) {
                Some(Json::Text(text)) => {
                    proof {
                        lemma_deep_insert(texts@, name@, text);
                    }
                    texts.insert(members[i].0.clone(), text);
                },
                _ => {
                    assert(json_string(members_map(all)[name@]) is None);
                    return None;
                },
            },
            None => return None,
        }
    }
    proof {
        assert(all.take(all.len() as int) =~= all);
        let map = members_map(all);
        assert forall|name: Seq<char>| #[trigger] map.contains_key(name) implies json_string(
            map[name],
        ) is Some by {
            assert(texts.deep_view().contains_key(name));
        }
        let wanted = Map::new(
            |name: Seq<char>| map.contains_key(name),
            |name: Seq<char>| json_string(map[name])->0,
        );
        assert forall|name: Seq<char>| texts.deep_view().dom().contains(name) == wanted.dom().contains(
            name,
        ) by {
            assert(texts.deep_view().contains_key(name) <==> map.contains_key(name));
        }
        assert(texts.deep_view() =~= wanted);
    }
    Some(texts)
}

/// Every member of a list stands in its map.
proof fn lemma_member_listed(members: Seq<(Seq<char>, Seq<char>)>, i: int)
    requires
        0 <= i < members.len(),
    ensures
        members_map(members).contains_key(members[i].0),
    decreases members.len(),
{
    if i < members.len() - 1 {
        lemma_member_listed(members.drop_last(), i);
    }
}

/// Reads a request from an object.
pub fn read_request(document: &Json) -> (request: Option<Request>)
    ensures
        request.deep_view() == request_in(document.deep_view()),
        request matches Some(request) ==> request.wf(),
{
    match document {
        Json::Object(members) => {
            let headers = match last_member(members, "headers") {
                Some(i) => match open_json(members[i].1.as_str()) {
                    Some(Json::Object(headers)) => read_strings(&headers),
                    _ => None,
                },
                None => {
                    let none: Table<String> = Table::new();
                    assert(none.deep_view() =~= Map::empty());
                    Some(none)
                },
            };
            let body = match last_member(members, "body") {
                Some(i) => match open_json(members[i].1.as_str()) {
                    Some(Json::Null) => Some(None),
                    Some(Json::Text(body)) => Some(Some(body)),
                    _ => None,
                },
                None => Some(None),
            };
            let id = text_member(document, "id");
            let method = text_member(document, "method");
            let path = text_member(document, "path");
            match (id, method, path, headers, body) {
                (Some(id), Some(method), Some(path), Some(headers), Some(body)) => Some(
                    Request { id, method, path, headers, body },
                ),
                _ => None,
            }
        },
        _ => None,
    }
}

/// A piece once its data is decoded, or why it is refused.
pub open spec fn piece_of(
    seq: Option<u64>,
    data: Option<Result<Seq<u8>, Seq<char>>>,
    done: Option<bool>,
) -> Result<PieceModel, Seq<char>> {
    match seq {
        None => Err("missing fragment sequence"@),
        Some(seq) => match data {
            None => Err("missing fragment data"@),
            Some(Err(words)) => Err(words),
            Some(Ok(data)) => if data.len() > CHUNK_BYTES {
                Err("fragment too large"@)
            } else {
                match done {
                    None => Err("missing fragment end flag"@),
                    Some(done) => Ok(PieceModel { seq, data, done }),
                }
            },
        },
    }
}

/// The piece in a frame.
pub open spec fn piece_in(document: JsonShape) -> Result<PieceModel, Seq<char>> {
    piece_of(
        unsigned_member_of(document, "seq"@),
        match text_member_of(document, "data"@) {
            Some(text) => Some(base64_decoded(text)),
            None => None,
        },
        flag_member_of(document, "done"@),
    )
}

/// The view of data that may be absent or may not decode.
pub open spec fn data_view(data: Option<Result<Vec<u8>, String>>) -> Option<
    Result<Seq<u8>, Seq<char>>,
> {
    match data {
        None => None,
        Some(Ok(bytes)) => Some(Ok(bytes@)),
        Some(Err(words)) => Some(Err(words@)),
    }
}

/// Checks the parts of a piece.
pub fn check_piece(
    seq: Option<u64>,
    data: Option<Result<Vec<u8>, String>>,
    done: Option<bool>,
) -> (piece: Result<Piece, String>)
    ensures
        result_view(piece) == piece_of(seq, data_view(data), done),
{
    match seq {
        None => Err("missing fragment sequence".to_owned()),
        Some(seq) => match data {
            None => Err("missing fragment data".to_owned()),
            Some(Err(words)) => Err(words),
            Some(Ok(data)) => if data.len() > CHUNK_BYTES {
                Err("fragment too large".to_owned())
            } else {
                match done {
                    None => Err("missing fragment end flag".to_owned()),
                    Some(done) => Ok(Piece { seq, data, done }),
                }
            },
        },
    }
}

/// Reads the piece in a frame.
fn read_piece(document: &Json) -> (piece: Result<Piece, String>)
    ensures
        result_view(piece) == piece_in(document.deep_view()),
{
    let data = match text_member(document, "data") {
        Some(text) => Some(decode_base64(text.as_str())),
        None => None,
    };
    check_piece(unsigned_member(document, "seq"), data, flag_member(document, "done"))
}

/// The frame in a document.
pub open spec fn frame_in(document: JsonShape) -> InboundModel {
    match text_member_of(document, "id"@) {
        None => InboundModel::BadId,
        Some(id) => if !valid_name(id) {
            InboundModel::BadId
        } else {
            match text_member_of(document, "type"@) {
                None => InboundModel::Request(id, request_in(document)),
                Some(kind) => if kind == "ack"@ {
                    InboundModel::Ack(id, unsigned_member_of(document, "seq"@))
                } else if kind == "cancel"@ {
                    InboundModel::Cancel(id)
                } else if kind == "request-fragment"@ {
                    InboundModel::Fragment(id, piece_in(document))
                } else if kind == "request"@ {
                    InboundModel::Request(id, request_in(document))
                } else {
                    InboundModel::Unknown(id)
                },
            }
        },
    }
}

/// The frame in a message.
pub open spec fn inbound(bytes: Seq<u8>) -> InboundModel {
    if bytes.len() > MAX_FRAME_BYTES {
        InboundModel::TooLarge
    } else {
        match json_document(bytes) {
            None => InboundModel::NotJson,
            Some(document) => frame_in(document),
        }
    }
}

/// Reads the frame in a document.
pub fn read_frame(document: &Json) -> (frame: Inbound)
    ensures
        frame.deep_view() == frame_in(document.deep_view()),
        frame.wf(),
{
    let id = match text_member(document, "id") {
        Some(id) => id,
        None => return Inbound::BadId,
    };
    if !is_name(id.as_str()) {
        return Inbound::BadId;
    }
    match text_member(document, "type") {
        None => Inbound::Request(id, read_request(document)),
        Some(kind) => if text_equal(kind.as_str(), "ack") {
            Inbound::Ack(id, unsigned_member(document, "seq"))
        } else if text_equal(kind.as_str(), "cancel") {
            Inbound::Cancel(id)
        } else if text_equal(kind.as_str(), "request-fragment") {
            Inbound::Fragment(id, read_piece(document))
        } else if text_equal(kind.as_str(), "request") {
            Inbound::Request(id, read_request(document))
        } else {
            Inbound::Unknown(id)
        },
    }
}

/// Reads a message.
pub fn read_message(bytes: &[u8]) -> (frame: Inbound)
    ensures
        frame.deep_view() == inbound(bytes@),
        frame.wf(),
{
    if bytes.len() > MAX_FRAME_BYTES {
        return Inbound::TooLarge;
    }
    match parse_json(bytes) {
        None => Inbound::NotJson,
        Some(document) => read_frame(&document),
    }
}

/// A frame that says why a request failed.
pub open spec fn error_tree(id: Seq<char>, status: u16, message: Seq<char>) -> JsonTree {
    JsonTree::Object(
        seq![
            ("type"@, JsonTree::Text("error"@)),
            ("id"@, JsonTree::Text(id)),
            ("status"@, JsonTree::Unsigned(status as u64)),
            ("message"@, JsonTree::Text(message)),
        ],
    )
}

/// Writes a frame that says why a request failed. Whoever reads it finds the
/// id, the status and the reason.
pub fn error_frame(id: &str, status: u16, message: &str) -> (text: String)
    ensures
        spells(text@, error_tree(id@, status, message@), 1),
        json_document(encode_utf8(text@)) matches Some(document) && {
            &&& text_member_of(document, "type"@) == Some("error"@)
            &&& text_member_of(document, "id"@) == Some(id@)
            &&& unsigned_member_of(document, "status"@) == Some(status as u64)
            &&& text_member_of(document, "message"@) == Some(message@)
        },
{
    let ghost trees = error_tree(id@, status, message@)->Object_0;
    let mut members: Vec<(String, String)> = Vec::new();
    members.push(("type".to_owned(), write_text("error")));
    members.push(("id".to_owned(), write_text(id)));
    members.push(("status".to_owned(), write_unsigned(status as u64)));
    members.push(("message".to_owned(), write_text(message)));
    proof {
        lemma_own_names();
    }
    let text = write_object(members, Ghost(trees), Ghost(0));
    proof {
        lemma_error_read(id@, status, message@);
    }
    text
}

/// A frame with bytes of an answer.
pub open spec fn chunk_tree(id: Seq<char>, seq: u32, data: Seq<char>) -> JsonTree {
    JsonTree::Object(
        seq![
            ("type"@, JsonTree::Text("chunk"@)),
            ("id"@, JsonTree::Text(id)),
            ("seq"@, JsonTree::Unsigned(seq as u64)),
            ("data"@, JsonTree::Text(data)),
        ],
    )
}

/// Writes a frame with bytes of an answer, as base64. The receiver decodes the
/// data to the bytes, and the frame is never too large to be sent.
pub fn chunk_frame(id: &str, seq: u32, bytes: &[u8]) -> (text: String)
    requires
        bytes@.len() <= CHUNK_BYTES,
    ensures
        spells(text@, chunk_tree(id@, seq, base64_encoded(bytes@)), 1),
        (base64_decoded(base64_encoded(bytes@)) == Ok::<Seq<u8>, Seq<char>>(bytes@)),
        valid_name(id@) ==> byte_length(text@) <= MAX_FRAME_BYTES,
        json_document(encode_utf8(text@)) matches Some(document) && {
            &&& text_member_of(document, "type"@) == Some("chunk"@)
            &&& text_member_of(document, "id"@) == Some(id@)
            &&& unsigned_member_of(document, "seq"@) == Some(seq as u64)
            &&& text_member_of(document, "data"@) matches Some(data) && (base64_decoded(data)
                == Ok::<Seq<u8>, Seq<char>>(bytes@))
        },
{
    let data = encode_base64(bytes);
    let ghost trees = chunk_tree(id@, seq, data@)->Object_0;
    let mut members: Vec<(String, String)> = Vec::new();
    members.push(("type".to_owned(), write_text("chunk")));
    members.push(("id".to_owned(), write_text(id)));
    members.push(("seq".to_owned(), write_unsigned(seq as u64)));
    members.push(("data".to_owned(), write_text(data.as_str())));
    let ghost list = members.deep_view();
    proof {
        lemma_own_names();
    }
    let text = write_object(members, Ghost(trees), Ghost(0));
    proof {
        lemma_chunk_read(id@, seq, data@);
        if valid_name(id@) {
            assert(list.len() == 4);
            assert(list[0].0 == "type"@ && list[1].0 == "id"@ && list[2].0 == "seq"@ && list[3].0
                == "data"@);
            lemma_plain_words();
            assert(plain_text(id@)) by {
                assert forall|i: int| 0 <= i < id@.len() implies plain_char(#[trigger] id@[i]) by {
                    assert(name_char(id@[i]));
                }
            }
            reveal_with_fuel(crate::json::object_bytes, 5);
            assert(list.drop_last().last() == list[2]);
            assert(list.drop_last().drop_last().last() == list[1]);
            assert(list.drop_last().drop_last().drop_last().last() == list[0]);
        }
    }
    text
}

/// The words of a chunk frame are plain.
proof fn lemma_plain_words()
    ensures
        plain_text("type"@) && "type"@.len() == 4,
        plain_text("id"@) && "id"@.len() == 2,
        plain_text("seq"@) && "seq"@.len() == 3,
        plain_text("data"@) && "data"@.len() == 4,
        plain_text("chunk"@) && "chunk"@.len() == 5,
{
    reveal_strlit("type");
    reveal_strlit("id");
    reveal_strlit("seq");
    reveal_strlit("data");
    reveal_strlit("chunk");
}

/// A frame that ends an answer.
pub open spec fn done_tree(id: Seq<char>) -> JsonTree {
    JsonTree::Object(seq![("type"@, JsonTree::Text("done"@)), ("id"@, JsonTree::Text(id))])
}

/// Writes a frame that ends an answer. Whoever reads it finds the id.
pub fn done_frame(id: &str) -> (text: String)
    ensures
        spells(text@, done_tree(id@), 1),
        json_document(encode_utf8(text@)) matches Some(document) && {
            &&& text_member_of(document, "type"@) == Some("done"@)
            &&& text_member_of(document, "id"@) == Some(id@)
        },
{
    let ghost trees = done_tree(id@)->Object_0;
    let mut members: Vec<(String, String)> = Vec::new();
    members.push(("type".to_owned(), write_text("done")));
    members.push(("id".to_owned(), write_text(id)));
    proof {
        lemma_own_names();
    }
    let text = write_object(members, Ghost(trees), Ghost(0));
    proof {
        lemma_done_read(id@);
    }
    text
}

/// The headers of an answer, each value as a JSON string.
pub open spec fn headers_shape(headers: Map<Seq<char>, Seq<char>>) -> JsonShape {
    JsonShape::Object(
        Map::new(
            |name: Seq<char>| headers.contains_key(name),
            |name: Seq<char>| tree_text(JsonTree::Text(headers[name])),
        ),
    )
}

/// A frame that begins an answer.
pub open spec fn response_shape(
    id: Seq<char>,
    status: u16,
    headers: Map<Seq<char>, Seq<char>>,
) -> JsonShape {
    JsonShape::Object(
        map![
            "type"@ => tree_text(JsonTree::Text("response"@)),
            "id"@ => tree_text(JsonTree::Text(id)),
            "status"@ => tree_text(JsonTree::Unsigned(status as u64)),
            "headers"@ => json_text(headers_shape(headers)),
        ],
    )
}

/// The members of a header object in the order of a table.
spec fn header_trees(list: Seq<(String, String)>) -> Seq<(Seq<char>, JsonTree)> {
    list.map_values(|entry: (String, String)| (entry.0@, JsonTree::Text(entry.1@)))
}

/// A list of headers without repetition is written as its map is.
proof fn lemma_header_shape(list: Seq<(String, String)>, headers: Map<Seq<char>, Seq<char>>)
    requires
        names_distinct(list),
        forall|i: int|
            0 <= i < list.len() ==> {
                &&& headers.contains_key((#[trigger] list[i]).0@)
                &&& headers[list[i].0@] == list[i].1@
            },
        forall|name: Seq<char>| #[trigger]
            headers.contains_key(name) ==> exists|i: int|
                0 <= i < list.len() && (#[trigger] list[i]).0@ == name,
    ensures
        tree_shape(JsonTree::Object(header_trees(list))) == headers_shape(headers),
{
    let texts = member_texts(header_trees(list));
    lemma_header_map(list);
    let map = members_map(texts);
    let wanted = headers_shape(headers)->Object_0;
    assert forall|name: Seq<char>|
        #![trigger map.dom().contains(name)]
        #![trigger wanted.dom().contains(name)]
        map.dom().contains(name) == wanted.dom().contains(name) && (map.dom().contains(name)
            ==> map[name] == wanted[name]) by {
        if headers.contains_key(name) {
            let i = choose|i: int| 0 <= i < list.len() && (#[trigger] list[i]).0@ == name;
            assert(map.contains_key(list[i].0@));
        }
        if map.contains_key(name) {
            let i = choose|i: int| 0 <= i < list.len() && (#[trigger] list[i]).0@ == name;
            assert(headers.contains_key(list[i].0@));
        }
    }
    assert(map =~= wanted);
}

/// What the members of a header object are in the order of a table.
proof fn lemma_header_map(list: Seq<(String, String)>)
    requires
        names_distinct(list),
    ensures
        forall|i: int|
            0 <= i < list.len() ==> {
                &&& members_map(member_texts(header_trees(list))).contains_key(
                    (#[trigger] list[i]).0@,
                )
                &&& members_map(member_texts(header_trees(list)))[list[i].0@] == tree_text(
                    JsonTree::Text(list[i].1@),
                )
            },
        forall|name: Seq<char>| #[trigger]
            members_map(member_texts(header_trees(list))).contains_key(name) ==> exists|i: int|
                0 <= i < list.len() && (#[trigger] list[i]).0@ == name,
    decreases list.len(),
{
    let texts = member_texts(header_trees(list));
    if list.len() > 0 {
        let before = list.drop_last();
        let last = list.len() - 1;
        assert forall|i: int, j: int| 0 <= i < j < before.len() implies (#[trigger] before[i]).0@
            != (#[trigger] before[j]).0@ by {
            assert(list[i].0@ != list[j].0@);
        }
        lemma_header_map(before);
        assert(texts.drop_last() =~= member_texts(header_trees(before)));
        assert(texts.last() == (list[last].0@, tree_text(JsonTree::Text(list[last].1@))));
        assert forall|i: int| 0 <= i < list.len() implies {
            &&& members_map(texts).contains_key((#[trigger] list[i]).0@)
            &&& members_map(texts)[list[i].0@] == tree_text(JsonTree::Text(list[i].1@))
        } by {
            if i < last {
                assert(before[i] == list[i]);
                assert(list[i].0@ != list[last].0@);
            }
        }
        assert forall|name: Seq<char>| #[trigger]
            members_map(texts).contains_key(name) implies exists|i: int|
            0 <= i < list.len() && (#[trigger] list[i]).0@ == name by {
            if name == list[last].0@ {
            } else {
                assert(members_map(member_texts(header_trees(before))).contains_key(name));
                let i = choose|i: int| 0 <= i < before.len() && (#[trigger] before[i]).0@ == name;
                assert(list[i].0@ == name);
            }
        }
    } else {
        assert(texts =~= Seq::empty());
    }
}

/// No header has a name that `serde_json` keeps for itself. An HTTP header never
/// has: such a name holds a colon.
pub open spec fn ordinary_headers(headers: Map<Seq<char>, Seq<char>>) -> bool {
    forall|name: Seq<char>| #[trigger] headers.contains_key(name) ==> !reserved_name(name)
}

/// A tree stands for the headers of an answer as they are written.
spec fn stands_for_headers(
    tree: JsonTree,
    text: Seq<char>,
    headers: Map<Seq<char>, Seq<char>>,
) -> bool {
    &&& tree_shape(tree) == headers_shape(headers)
    &&& text == tree_text(tree)
    &&& ordinary_headers(headers) ==> spells(text, tree, 1)
    &&& ordinary_headers(headers) ==> forall|name: Seq<char>| #[trigger]
        headers.contains_key(name) ==> reads_back(JsonTree::Text(headers[name]))
}

/// Writes the headers of an answer.
fn write_headers(headers: &Table<String>) -> (text: String)
    requires
        headers.wf(),
    ensures
        exists|tree: JsonTree| #[trigger]
            stands_for_headers(tree, text@, headers.deep_view()),
{
    let ghost trees = header_trees(headers.list());
    let mut members: Vec<(String, String)> = Vec::new();
    let total: usize = headers.len();
    for i in 0..total
        invariant
            headers.wf(),
            total == headers.list().len(),
            trees == header_trees(headers.list()),
            members@.len() == i,
            forall|k: int|
                0 <= k < i ==> {
                    &&& members@[k].0@ == (#[trigger] trees[k]).0
                    &&& spells(members@[k].1@, trees[k].1, 0)
                },
    {
        let (name, value) = headers.at(i);
        members.push((name.clone(), write_text(value.as_str())));
    }
    let text = write_object(members, Ghost(trees), Ghost(0));
    proof {
        headers.lemma_list();
        assert forall|name: Seq<char>| #[trigger]
            headers.deep_view().contains_key(name) implies exists|i: int|
            0 <= i < headers.list().len() && (#[trigger] headers.list()[i]).0@ == name by {
            assert(headers@.contains_key(name));
        }
        lemma_header_shape(headers.list(), headers.deep_view());
        if ordinary_headers(headers.deep_view()) {
            assert forall|i: int| 0 <= i < trees.len() implies !reserved_name(
                (#[trigger] trees[i]).0,
            ) by {
                assert(headers.deep_view().contains_key(headers.list()[i].0@));
            }
            assert(sound_members(trees, 0));
            assert(reads_back(JsonTree::Object(trees)));
            assert forall|name: Seq<char>| #[trigger]
                headers.deep_view().contains_key(name) implies reads_back(
                JsonTree::Text(headers.deep_view()[name]),
            ) by {
                assert(headers@.contains_key(name));
                let i = choose|i: int|
                    0 <= i < headers.list().len() && (#[trigger] headers.list()[i]).0@ == name;
                assert(headers@[headers.list()[i].0@] == headers.list()[i].1);
                assert(reads_back(trees[i].1));
            }
        }
        assert(stands_for_headers(JsonTree::Object(trees), text@, headers.deep_view()));
    }
    text
}

/// Writes a frame that begins an answer. Whoever reads it finds the id, the
/// status and the headers as they were written.
pub fn response_frame(id: &str, status: u16, headers: &Table<String>) -> (text: String)
    requires
        headers.wf(),
    ensures
        text@ == json_text(response_shape(id@, status, headers.deep_view())),
        ordinary_headers(headers.deep_view()) ==> {
            &&& json_document(encode_utf8(text@)) == Some(
                response_shape(id@, status, headers.deep_view()),
            )
            &&& json_level(json_text(headers_shape(headers.deep_view()))) == Some(
                headers_shape(headers.deep_view()),
            )
        },
        ordinary_headers(headers.deep_view()) ==> (json_document(encode_utf8(text@)) matches Some(
            document,
        ) && {
            &&& text_member_of(document, "type"@) == Some("response"@)
            &&& text_member_of(document, "id"@) == Some(id@)
            &&& unsigned_member_of(document, "status"@) == Some(status as u64)
            &&& member_of(document, "headers"@) matches Some(list) && forall|name: Seq<char>|
                #![trigger text_member_of(list, name)]
                text_member_of(list, name) == if headers.deep_view().contains_key(name) {
                    Some(headers.deep_view()[name])
                } else {
                    None
                }
        }),
{
    let written = write_headers(headers);
    let ghost header_tree = choose|tree: JsonTree| #[trigger]
        stands_for_headers(tree, written@, headers.deep_view());
    let ghost trees = seq![
        ("type"@, JsonTree::Text("response"@)),
        ("id"@, JsonTree::Text(id@)),
        ("status"@, JsonTree::Unsigned(status as u64)),
        ("headers"@, header_tree),
    ];
    let mut members: Vec<(String, String)> = Vec::new();
    members.push(("type".to_owned(), write_text("response")));
    members.push(("id".to_owned(), write_text(id)));
    members.push(("status".to_owned(), write_unsigned(status as u64)));
    members.push(("headers".to_owned(), written));
    proof {
        lemma_own_names();
    }
    let text = write_object(members, Ghost(trees), Ghost(1));
    proof {
        reveal_strlit("type");
        reveal_strlit("id");
        reveal_strlit("status");
        reveal_strlit("headers");
        assert("type"@.len() == 4 && "id"@.len() == 2 && "status"@.len() == 6 && "headers"@.len()
            == 7);
        reveal_with_fuel(members_map, 5);
        let texts = member_texts(trees);
        assert(texts =~= seq![
            ("type"@, tree_text(JsonTree::Text("response"@))),
            ("id"@, tree_text(JsonTree::Text(id@))),
            ("status"@, tree_text(JsonTree::Unsigned(status as u64))),
            ("headers"@, tree_text(header_tree)),
        ]);
        assert(texts.drop_last().drop_last().drop_last().drop_last() =~= Seq::empty());
        assert(members_map(texts) =~= response_shape(
            id@,
            status,
            headers.deep_view(),
        )->Object_0);
        if ordinary_headers(headers.deep_view()) {
            assert(reads_back(JsonTree::Object(trees)));
            assert(reads_back(trees[0].1) && reads_back(trees[1].1) && reads_back(trees[2].1));
            lemma_response_read(id@, status, headers.deep_view());
            assert forall|name: Seq<char>|
                #![trigger text_member_of(headers_shape(headers.deep_view()), name)]
                text_member_of(headers_shape(headers.deep_view()), name)
                    == if headers.deep_view().contains_key(name) {
                    Some(headers.deep_view()[name])
                } else {
                    None
                } by {
                lemma_header_read(headers.deep_view(), name);
            }
        }
    }
    text
}

/// The names of the members of a frame are different names.
proof fn lemma_names_differ()
    ensures
        "type"@ != "id"@ && "type"@ != "status"@ && "type"@ != "message"@ && "type"@ != "seq"@
            && "type"@ != "data"@ && "type"@ != "headers"@,
        "id"@ != "status"@ && "id"@ != "message"@ && "id"@ != "seq"@ && "id"@ != "data"@ && "id"@
            != "headers"@,
        "status"@ != "message"@ && "status"@ != "headers"@ && "seq"@ != "data"@,
{
    reveal_strlit("type");
    reveal_strlit("id");
    reveal_strlit("status");
    reveal_strlit("message");
    reveal_strlit("seq");
    reveal_strlit("data");
    reveal_strlit("headers");
    assert("type"@.len() == 4 && "id"@.len() == 2 && "status"@.len() == 6 && "message"@.len() == 7
        && "seq"@.len() == 3 && "data"@.len() == 4 && "headers"@.len() == 7);
    assert("type"@[0] == 't' && "data"@[0] == 'd');
}

/// Whoever reads a frame that says why a request failed finds its id, the
/// status and the reason as they were given, and nothing else.
pub proof fn lemma_error_read(id: Seq<char>, status: u16, message: Seq<char>)
    requires
        reads_back(error_tree(id, status, message)),
    ensures
        ({
            let document = tree_shape(error_tree(id, status, message));
            &&& text_member_of(document, "type"@) == Some("error"@)
            &&& text_member_of(document, "id"@) == Some(id)
            &&& unsigned_member_of(document, "status"@) == Some(status as u64)
            &&& text_member_of(document, "message"@) == Some(message)
            &&& forall|name: Seq<char>|
                #![trigger member_of(document, name)]
                name != "type"@ && name != "id"@ && name != "status"@ && name != "message"@
                    ==> member_of(document, name) is None
        }),
{
    lemma_names_differ();
    let members = error_tree(id, status, message)->Object_0;
    lemma_only_members(members);
    lemma_member_reads(members, 0);
    lemma_member_reads(members, 1);
    lemma_member_reads(members, 2);
    lemma_member_reads(members, 3);
}

/// Whoever reads a frame with bytes of an answer finds its id, the number of
/// the chunk and the data as they were given, and nothing else.
pub proof fn lemma_chunk_read(id: Seq<char>, seq: u32, data: Seq<char>)
    requires
        reads_back(chunk_tree(id, seq, data)),
    ensures
        ({
            let document = tree_shape(chunk_tree(id, seq, data));
            &&& text_member_of(document, "type"@) == Some("chunk"@)
            &&& text_member_of(document, "id"@) == Some(id)
            &&& unsigned_member_of(document, "seq"@) == Some(seq as u64)
            &&& text_member_of(document, "data"@) == Some(data)
            &&& forall|name: Seq<char>|
                #![trigger member_of(document, name)]
                name != "type"@ && name != "id"@ && name != "seq"@ && name != "data"@ ==> member_of(
                    document,
                    name,
                ) is None
        }),
{
    lemma_names_differ();
    let members = chunk_tree(id, seq, data)->Object_0;
    lemma_only_members(members);
    lemma_member_reads(members, 0);
    lemma_member_reads(members, 1);
    lemma_member_reads(members, 2);
    lemma_member_reads(members, 3);
}

/// Whoever reads a frame that ends an answer finds its id and nothing else.
pub proof fn lemma_done_read(id: Seq<char>)
    requires
        reads_back(done_tree(id)),
    ensures
        text_member_of(tree_shape(done_tree(id)), "type"@) == Some("done"@),
        text_member_of(tree_shape(done_tree(id)), "id"@) == Some(id),
        forall|name: Seq<char>|
            #![trigger member_of(tree_shape(done_tree(id)), name)]
            name != "type"@ && name != "id"@ ==> member_of(tree_shape(done_tree(id)), name) is None,
{
    lemma_names_differ();
    let members = done_tree(id)->Object_0;
    lemma_only_members(members);
    lemma_member_reads(members, 0);
    lemma_member_reads(members, 1);
}

/// Whoever reads the frame that begins an answer finds the kind, the id, exactly
/// the status that was given, the headers, and nothing else.
pub proof fn lemma_response_read(id: Seq<char>, status: u16, headers: Map<Seq<char>, Seq<char>>)
    requires
        reads_back(JsonTree::Text("response"@)),
        reads_back(JsonTree::Text(id)),
        reads_back(JsonTree::Unsigned(status as u64)),
    ensures
        ({
            let document = response_shape(id, status, headers);
            &&& text_member_of(document, "type"@) == Some("response"@)
            &&& text_member_of(document, "id"@) == Some(id)
            &&& unsigned_member_of(document, "status"@) == Some(status as u64)
            &&& member_of(document, "headers"@) == json_level(json_text(headers_shape(headers)))
            &&& forall|name: Seq<char>|
                #![trigger member_of(document, name)]
                name != "type"@ && name != "id"@ && name != "status"@ && name != "headers"@
                    ==> member_of(document, name) is None
        }),
{
    lemma_names_differ();
}

/// Whoever reads the headers of an answer finds each with the value that it
/// was given, and no other.
pub proof fn lemma_header_read(headers: Map<Seq<char>, Seq<char>>, name: Seq<char>)
    requires
        headers.contains_key(name) ==> reads_back(JsonTree::Text(headers[name])),
    ensures
        text_member_of(headers_shape(headers), name) == if headers.contains_key(name) {
            Some(headers[name])
        } else {
            None
        },
        member_of(headers_shape(headers), name) is Some ==> headers.contains_key(name),
{
}

/// A message of more than 16384 bytes is too large whatever it holds, and one
/// that cannot be read is no JSON; the rest is judged by what is read.
pub proof fn lemma_inbound(bytes: Seq<u8>)
    ensures
        bytes.len() > 16384 <==> inbound(bytes) is TooLarge,
        bytes.len() <= 16384 && json_document(bytes) is None <==> inbound(bytes) is NotJson,
        bytes.len() <= 16384 ==> (json_document(bytes) matches Some(document) ==> inbound(bytes)
            == frame_in(document)),
{
}

/// A frame is refused for its id exactly where it names none of 1 to 64 letters,
/// digits, hyphens and underscores. Otherwise the frame is of the kind that it
/// names, and a request where it names no kind; every kind keeps the id.
pub proof fn lemma_frame_kinds(document: JsonShape)
    ensures
        frame_in(document) is BadId <==> !(text_member_of(document, "id"@) matches Some(id)
            && valid_name(id)),
        text_member_of(document, "id"@) matches Some(id) ==> valid_name(id) ==> {
            let kind = text_member_of(document, "type"@);
            let frame = frame_in(document);
            &&& kind == Some("ack"@) ==> frame == InboundModel::Ack(
                id,
                unsigned_member_of(document, "seq"@),
            )
            &&& kind == Some("cancel"@) ==> frame == InboundModel::Cancel(id)
            &&& kind == Some("request-fragment"@) ==> frame == InboundModel::Fragment(
                id,
                piece_in(document),
            )
            &&& kind is None || kind == Some("request"@) ==> frame == InboundModel::Request(
                id,
                request_in(document),
            )
            &&& kind is Some && kind != Some("ack"@) && kind != Some("cancel"@) && kind != Some(
                "request-fragment"@,
            ) && kind != Some("request"@) ==> frame == InboundModel::Unknown(id)
        },
{
    reveal_strlit("ack");
    reveal_strlit("cancel");
    reveal_strlit("request-fragment");
    reveal_strlit("request");
    assert("ack"@.len() == 3 && "cancel"@.len() == 6 && "request-fragment"@.len() == 16
        && "request"@.len() == 7);
}

/// A request is read exactly where id, method and path are strings, the headers
/// are an object of strings or absent, and the body is a string, null or
/// absent; each part is then what stands there.
pub proof fn lemma_request_read(members: Map<Seq<char>, Seq<char>>)
    ensures
        ({
            let document = JsonShape::Object(members);
            let headers = member_of(document, "headers"@);
            let body = member_of(document, "body"@);
            let header_strings = members.contains_key("headers"@) ==> (headers matches Some(
                JsonShape::Object(list),
            ) && forall|name: Seq<char>| #[trigger]
                list.contains_key(name) ==> text_member_of(JsonShape::Object(list), name) is Some);
            let body_string = members.contains_key("body"@) ==> body == Some(JsonShape::Null)
                || text_member_of(document, "body"@) is Some;
            &&& request_in(document) is Some <==> text_member_of(document, "id"@) is Some
                && text_member_of(document, "method"@) is Some && text_member_of(
                document,
                "path"@,
            ) is Some && header_strings && body_string
            &&& request_in(document) matches Some(request) ==> {
                &&& text_member_of(document, "id"@) == Some(request.id)
                &&& text_member_of(document, "method"@) == Some(request.method)
                &&& text_member_of(document, "path"@) == Some(request.path)
                &&& request.body == text_member_of(document, "body"@)
                &&& forall|name: Seq<char>| #[trigger]
                    request.headers.contains_key(name) <==> (headers matches Some(
                        JsonShape::Object(list),
                    ) && list.contains_key(name))
                &&& forall|name: Seq<char>| #[trigger]
                    request.headers.contains_key(name) ==> (headers matches Some(list)
                        && text_member_of(list, name) == Some(request.headers[name]))
            }
        }),
{
    let document = JsonShape::Object(members);
    if members.contains_key("headers"@) {
        if let Some(JsonShape::Object(list)) = member_of(document, "headers"@) {
            assert forall|name: Seq<char>| #[trigger]
                list.contains_key(name) implies (json_string(list[name]) is Some
                <==> text_member_of(JsonShape::Object(list), name) is Some) by {}
        }
    }
}

/// Only an object is a request.
pub proof fn lemma_request_is_object(document: JsonShape)
    ensures
        !(document is Object) ==> request_in(document) is None,
{
}

/// A piece is taken exactly where it has a number, data that decode to at most
/// 8192 bytes, and a flag that says whether it is the last; it is then what was
/// given. Otherwise the first of these that is wrong is named.
pub proof fn lemma_piece(
    seq: Option<u64>,
    data: Option<Result<Seq<u8>, Seq<char>>>,
    done: Option<bool>,
)
    ensures
        ({
            let piece = piece_of(seq, data, done);
            &&& piece is Ok <==> seq is Some && done is Some && (data matches Some(Ok(bytes))
                && bytes.len() <= 8192)
            &&& piece matches Ok(piece) ==> Some(piece.seq) == seq && Some(piece.done) == done
                && data == Some(Ok::<Seq<u8>, Seq<char>>(piece.data))
            &&& seq is None ==> piece == Err::<PieceModel, Seq<char>>(
                "missing fragment sequence"@,
            )
            &&& seq is Some && data is None ==> piece == Err::<PieceModel, Seq<char>>(
                "missing fragment data"@,
            )
            &&& seq is Some ==> (data matches Some(Err(words)) ==> piece == Err::<
                PieceModel,
                Seq<char>,
            >(words))
            &&& seq is Some ==> (data matches Some(Ok(bytes)) ==> {
                &&& bytes.len() > 8192 ==> piece == Err::<PieceModel, Seq<char>>(
                    "fragment too large"@,
                )
                &&& bytes.len() <= 8192 && done is None ==> piece == Err::<PieceModel, Seq<char>>(
                    "missing fragment end flag"@,
                )
            })
        }),
{
}

/// The piece in a frame is made of its members `seq`, `data` and `done`.
pub proof fn lemma_piece_members(document: JsonShape)
    ensures
        piece_in(document) matches Ok(piece) ==> {
            &&& unsigned_member_of(document, "seq"@) == Some(piece.seq)
            &&& flag_member_of(document, "done"@) == Some(piece.done)
            &&& text_member_of(document, "data"@) matches Some(text) && base64_decoded(text)
                == Ok::<Seq<u8>, Seq<char>>(piece.data)
        },
        unsigned_member_of(document, "seq"@) is Some && flag_member_of(document, "done"@) is Some
            ==> (text_member_of(document, "data"@) matches Some(text) ==> (base64_decoded(
            text,
        ) matches Ok(bytes) ==> bytes.len() <= 8192 ==> piece_in(document) is Ok)),
{
}

} // verus!
