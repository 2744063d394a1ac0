//! JSON documents, one level at a time.
//!
//! A document is read into [`Json`]: scalars as they are, the items of an array
//! and the members of an object as JSON text, which is read in turn when the
//! rules need it.

use crate::text::{byte_length, result_view, text_equal};
use serde_json::value::RawValue;
use serde_json::{from_str, to_string, Value};
use std::collections::BTreeMap;
use vstd::prelude::*;
use vstd::utf8::encode_utf8;

verus! {

/// One level of a JSON document.
pub enum Json {
    Null,
    Bool(bool),
    /// An integer from 0 to `u64::MAX`.
    Unsigned(u64),
    /// Any other number, as JSON text.
    Number(String),
    Text(String),
    /// The items, each as JSON text.
    Array(Vec<String>),
    /// The members, each with its name and its value as JSON text.
    Object(Vec<(String, String)>),
}

/// What a [`Json`] holds.
pub enum JsonShape {
    Null,
    Bool(bool),
    Unsigned(u64),
    Number(Seq<char>),
    Text(Seq<char>),
    Array(Seq<Seq<char>>),
    Object(Map<Seq<char>, Seq<char>>),
}

/// The members of an object by name; of several with one name, the last.
pub open spec fn members_map(members: Seq<(Seq<char>, Seq<char>)>) -> Map<Seq<char>, Seq<char>>
    decreases members.len(),
{
    if members.len() == 0 {
        Map::empty()
    } else {
        members_map(members.drop_last()).insert(members.last().0, members.last().1)
    }
}

impl DeepView for Json {
    type V = JsonShape;

    open spec fn deep_view(&self) -> JsonShape {
        match self {
            Json::Null => JsonShape::Null,
            Json::Bool(b) => JsonShape::Bool(*b),
            Json::Unsigned(value) => JsonShape::Unsigned(*value),
            Json::Number(text) => JsonShape::Number(text@),
            Json::Text(text) => JsonShape::Text(text@),
            Json::Array(items) => JsonShape::Array(items.deep_view()),
            Json::Object(members) => JsonShape::Object(members_map(members.deep_view())),
        }
    }
}

/// The document that `serde_json::from_slice` reads from a byte string, or the
/// words of its error.
pub uninterp spec fn json_reading(text: Seq<u8>) -> Result<JsonShape, Seq<char>>;

/// Reads a JSON document with `serde_json::from_slice`. The result is named
/// [`json_reading`]; of its grammar nothing more is said.
#[verifier::external_body]
pub(crate) fn decode_json(text: &[u8]) -> (document: Result<Json, String>)
    ensures
        result_view(document) == json_reading(text@),
{
    Ok(
        match serde_json::from_slice::<Value>(text).map_err(|error| error.to_string())? {
            Value::Null => Json::Null,
            Value::Bool(b) => Json::Bool(b),
            Value::Number(n) => n.as_u64().map_or(Json::Number(n.to_string()), Json::Unsigned),
            Value::String(s) => Json::Text(s),
            Value::Array(items) => Json::Array(items.iter().map(|v| v.to_string()).collect()),
            Value::Object(list) => Json::Object(
                list.iter().map(|m| (m.0.clone(), m.1.to_string())).collect(),
            ),
        },
    )
}

/// The document in a byte string, `None` where it is no JSON.
pub open spec fn json_document(text: Seq<u8>) -> Option<JsonShape> {
    match json_reading(text) {
        Ok(document) => Some(document),
        Err(_) => None,
    }
}

/// Reads a JSON document where there is one.
pub(crate) fn parse_json(text: &[u8]) -> (document: Option<Json>)
    ensures
        document.deep_view() == json_document(text@),
{
    match decode_json(text) {
        Ok(document) => Some(document),
        Err(_) => None,
    }
}

/// The members of the object in a JSON text, each with its value as it is
/// written there, as `serde_json::from_str` reads them into a map of raw
/// values; `None` where it reports an error.
pub uninterp spec fn json_members(text: Seq<char>) -> Option<Map<Seq<char>, Seq<char>>>;

/// Reads the members of an object with `serde_json::from_str` as a `BTreeMap`
/// of `RawValue`s. The result is named [`json_members`].
#[verifier::external_body]
fn read_members(text: &str) -> (members: Option<Vec<(String, String)>>)
    ensures
        match members {
            Some(members) => json_members(text@) == Some(members_map(members.deep_view())),
            None => json_members(text@) is None,
        },
{
    let map = from_str::<BTreeMap<String, Box<RawValue>>>(text).ok()?;
    Some(map.into_iter().map(|m| (m.0, m.1.to_string())).collect())
}

/// The items of the array in a JSON text, each as it is written there, as
/// `serde_json::from_str` reads them into a list of raw values; `None` where it
/// reports an error.
pub uninterp spec fn json_items(text: Seq<char>) -> Option<Seq<Seq<char>>>;

/// Reads the items of an array with `serde_json::from_str` as a `Vec` of
/// `RawValue`s. The result is named [`json_items`].
#[verifier::external_body]
fn read_items(text: &str) -> (items: Option<Vec<String>>)
    ensures
        items.deep_view() == json_items(text@),
{
    let list = from_str::<Vec<Box<RawValue>>>(text).ok()?;
    Some(list.into_iter().map(|v| v.to_string()).collect())
}

/// The scalar in a JSON text, as `serde_json::from_str` reads it; `None` where
/// it reports an error or reads an array or an object.
pub uninterp spec fn json_scalar(text: Seq<char>) -> Option<JsonShape>;

/// Reads a scalar with `serde_json::from_str` as a `Value`. The result is named
/// [`json_scalar`].
#[verifier::external_body]
fn read_scalar(text: &str) -> (scalar: Option<Json>)
    ensures
        scalar.deep_view() == json_scalar(text@),
{
    match from_str::<Value>(text).ok()? {
        Value::Null => Some(Json::Null),
        Value::Bool(b) => Some(Json::Bool(b)),
        Value::Number(n) => Some(n.as_u64().map_or(Json::Number(n.to_string()), Json::Unsigned)),
        Value::String(s) => Some(Json::Text(s)),
        Value::Array(_) => None,
        Value::Object(_) => None,
    }
}

/// The first level of a JSON text that stands in a document: an object with
/// whatever names, an array or a scalar, of whatever depth.
pub open spec fn json_level(text: Seq<char>) -> Option<JsonShape> {
    match json_members(text) {
        Some(members) => Some(JsonShape::Object(members)),
        None => match json_items(text) {
            Some(items) => Some(JsonShape::Array(items)),
            None => json_scalar(text),
        },
    }
}

/// Reads the first level of a JSON text that stands in a document.
pub(crate) fn open_json(text: &str) -> (document: Option<Json>)
    ensures
        document.deep_view() == json_level(text@),
{
    match read_members(text) {
        Some(members) => Some(Json::Object(members)),
        None => match read_items(text) {
            Some(items) => Some(Json::Array(items)),
            None => read_scalar(text),
        },
    }
}

/// A whole document made of strings, flags, unsigned integers and nulls.
pub enum JsonTree {
    Null,
    Bool(bool),
    Unsigned(u64),
    Text(Seq<char>),
    Array(Seq<JsonTree>),
    Object(Seq<(Seq<char>, JsonTree)>),
}

/// The text that `serde_json` writes for a document.
pub uninterp spec fn json_text(document: JsonShape) -> Seq<char>;

/// The first level of a tree, with the levels below as they are written.
pub open spec fn tree_shape(tree: JsonTree) -> JsonShape
    decreases tree,
{
    match tree {
        JsonTree::Null => JsonShape::Null,
        JsonTree::Bool(b) => JsonShape::Bool(b),
        JsonTree::Unsigned(n) => JsonShape::Unsigned(n),
        JsonTree::Text(text) => JsonShape::Text(text),
        JsonTree::Array(items) => JsonShape::Array(
            Seq::new(
                items.len(),
                |i: int|
                    if 0 <= i < items.len() {
                        json_text(tree_shape(items[i]))
                    } else {
                        Seq::empty()
                    },
            ),
        ),
        JsonTree::Object(members) => JsonShape::Object(members_map(member_texts(members))),
    }
}

/// The members of an object, each with its value as it is written.
pub open spec fn member_texts(members: Seq<(Seq<char>, JsonTree)>) -> Seq<(Seq<char>, Seq<char>)>
    decreases members,
{
    Seq::new(
        members.len(),
        |i: int|
            if 0 <= i < members.len() {
                (members[i].0, json_text(tree_shape(members[i].1)))
            } else {
                (Seq::empty(), Seq::empty())
            },
    )
}

/// A name that `serde_json` keeps for itself: an object that begins with such a
/// member may be read as something else than an object.
pub open spec fn reserved_name(name: Seq<char>) -> bool {
    "$serde_json::private::"@.is_prefix_of(name)
}

/// No path through a tree passes more than `levels` arrays and objects, and no
/// member has a reserved name.
pub open spec fn tree_fits(tree: JsonTree, levels: nat) -> bool
    decreases tree,
{
    match tree {
        JsonTree::Array(items) => levels > 0 && forall|i: int|
            0 <= i < items.len() ==> tree_fits(#[trigger] items[i], (levels - 1) as nat),
        JsonTree::Object(members) => levels > 0 && forall|i: int|
            0 <= i < members.len() ==> !reserved_name((#[trigger] members[i]).0) && tree_fits(
                members[i].1,
                (levels - 1) as nat,
            ),
        _ => true,
    }
}

/// A document of strings, flags, unsigned integers and nulls, of a depth that
/// is read and without reserved names.
pub open spec fn spelled_out(document: JsonShape) -> bool {
    exists|tree: JsonTree| tree_fits(tree, 100) && document == #[trigger] tree_shape(tree)
}

/// A printable ASCII character that JSON does not escape.
pub open spec fn plain_char(c: char) -> bool {
    ' ' <= c <= '~' && c != '"' && c != '\\'
}

/// A text of printable ASCII characters that JSON does not escape.
pub open spec fn plain_text(text: Seq<char>) -> bool {
    forall|i: int| 0 <= i < text.len() ==> plain_char(#[trigger] text[i])
}

/// Every name is plain.
pub open spec fn plain_names(members: Seq<(Seq<char>, Seq<char>)>) -> bool {
    forall|i: int| 0 <= i < members.len() ==> plain_text((#[trigger] members[i]).0)
}

/// Bytes of an object with plain names: braces, and for each member its name in
/// quotes, a colon, its value and a comma.
pub open spec fn object_bytes(members: Seq<(Seq<char>, Seq<char>)>) -> nat
    decreases members.len(),
{
    if members.len() == 0 {
        2
    } else {
        object_bytes(members.drop_last()) + members.last().0.len() + 4 + byte_length(
            members.last().1,
        )
    }
}

/// Writes a JSON document with `serde_json::to_string`: a number, an item or a
/// member as it is, and as `null` where it is not JSON. The result is named
/// [`json_text`]. Besides, what is written of a document of strings, flags,
/// unsigned integers and nulls reads back as it was, as a document and as one
/// that stands in another, up to a depth that `serde_json` reads (it stops at
/// 128 levels) and where no member has a name that `serde_json` reserves: with
/// such a name nothing is said of what is read back. Of the size it is said that
/// a string without characters that are escaped takes its characters and two
/// quotes, that an unsigned integer takes at most 20 digits, and that an object
/// takes no more than its names and values with what stands between them.
#[verifier::external_body]
pub(crate) fn render_json(document: &Json) -> (text: String)
    ensures
        text@ == json_text(document.deep_view()),
        spelled_out(document.deep_view()) ==> {
            &&& json_document(encode_utf8(text@)) == Some(document.deep_view())
            &&& json_level(text@) == Some(document.deep_view())
        },
        document matches Json::Text(value) ==> plain_text(value@) ==> byte_length(text@)
            == value@.len() + 2,
        document matches Json::Unsigned(_) ==> byte_length(text@) <= 20,
        document matches Json::Object(members) ==> spelled_out(document.deep_view()) && plain_names(
            members.deep_view(),
        ) ==> byte_length(text@) <= object_bytes(members.deep_view()),
{
    let raw = |text: &String| from_str::<Box<RawValue>>(text).ok();
    let written = match document {
        Json::Null => to_string(&()),
        Json::Bool(b) => to_string(b),
        Json::Unsigned(n) => to_string(n),
        Json::Number(text) => to_string(&raw(text)),
        Json::Text(text) => to_string(text),
        Json::Array(items) => to_string(&items.iter().map(raw).collect::<Vec<_>>()),
        Json::Object(list) => {
            to_string(&list.iter().map(|m| (&m.0, raw(&m.1))).collect::<BTreeMap<_, _>>())
        },
    };
    written.unwrap_or_default()
}

/// The text of a whole document.
pub open spec fn tree_text(tree: JsonTree) -> Seq<char> {
    json_text(tree_shape(tree))
}

/// The text of a document, and of every document in it, reads back as it was written.
pub open spec fn reads_back(tree: JsonTree) -> bool
    decreases tree,
{
    &&& json_document(encode_utf8(tree_text(tree))) == Some(tree_shape(tree))
    &&& json_level(tree_text(tree)) == Some(tree_shape(tree))
    &&& match tree {
        JsonTree::Array(items) => forall|i: int|
            0 <= i < items.len() ==> reads_back(#[trigger] items[i]),
        JsonTree::Object(members) => forall|i: int|
            0 <= i < members.len() ==> reads_back((#[trigger] members[i]).1),
        _ => true,
    }
}

/// A text is what is written of a document of at most `levels` levels, and
/// reads back as that document.
pub open spec fn spells(text: Seq<char>, tree: JsonTree, levels: nat) -> bool {
    &&& text == tree_text(tree)
    &&& tree_fits(tree, levels)
    &&& reads_back(tree)
}

/// Writes a JSON string.
pub(crate) fn write_text(value: &str) -> (text: String)
    ensures
        spells(text@, JsonTree::Text(value@), 0),
        plain_text(value@) ==> byte_length(text@) == value@.len() + 2,
{
    let document = Json::Text(value.to_owned());
    assert(document.deep_view() == tree_shape(JsonTree::Text(value@)));
    assert(tree_fits(JsonTree::Text(value@), 100));
    render_json(&document)
}

/// Writes a JSON number.
pub(crate) fn write_unsigned(value: u64) -> (text: String)
    ensures
        spells(text@, JsonTree::Unsigned(value), 0),
        byte_length(text@) <= 20,
{
    let document = Json::Unsigned(value);
    assert(document.deep_view() == tree_shape(JsonTree::Unsigned(value)));
    assert(tree_fits(JsonTree::Unsigned(value), 100));
    render_json(&document)
}

/// Writes a JSON flag.
pub(crate) fn write_flag(value: bool) -> (text: String)
    ensures
        spells(text@, JsonTree::Bool(value), 0),
{
    let document = Json::Bool(value);
    assert(document.deep_view() == tree_shape(JsonTree::Bool(value)));
    assert(tree_fits(JsonTree::Bool(value), 100));
    render_json(&document)
}

/// Writes a JSON null.
pub(crate) fn write_null() -> (text: String)
    ensures
        spells(text@, JsonTree::Null, 0),
{
    let document = Json::Null;
    assert(document.deep_view() == tree_shape(JsonTree::Null));
    assert(tree_fits(JsonTree::Null, 100));
    render_json(&document)
}

/// A document of fewer levels has no more levels.
proof fn lemma_fits_more(tree: JsonTree, fewer: nat, more: nat)
    requires
        tree_fits(tree, fewer),
        fewer <= more,
    ensures
        tree_fits(tree, more),
    decreases tree,
{
    match tree {
        JsonTree::Array(items) => {
            assert forall|i: int| 0 <= i < items.len() implies tree_fits(
                #[trigger] items[i],
                (more - 1) as nat,
            ) by {
                lemma_fits_more(items[i], (fewer - 1) as nat, (more - 1) as nat);
            }
        },
        JsonTree::Object(members) => {
            assert forall|i: int| 0 <= i < members.len() implies !reserved_name(
                (#[trigger] members[i]).0,
            ) && tree_fits(members[i].1, (more - 1) as nat) by {
                lemma_fits_more(members[i].1, (fewer - 1) as nat, (more - 1) as nat);
            }
        },
        _ => {},
    }
}

/// Writes a JSON array of items that are written already.
pub(crate) fn write_array(
    items: Vec<String>,
    Ghost(trees): Ghost<Seq<JsonTree>>,
    Ghost(levels): Ghost<nat>,
) -> (text: String)
    requires
        levels < 100,
        items@.len() == trees.len(),
        forall|i: int| 0 <= i < trees.len() ==> spells(items@[i]@, #[trigger] trees[i], levels),
    ensures
        spells(text@, JsonTree::Array(trees), levels + 1),
{
    let ghost texts = items.deep_view();
    let document = Json::Array(items);
    let text = render_json(&document);
    proof {
        let tree = JsonTree::Array(trees);
        assert forall|i: int| 0 <= i < trees.len() implies tree_fits(
            #[trigger] trees[i],
            ((levels + 1) - 1) as nat,
        ) by {
            assert(spells(items@[i]@, trees[i], levels));
        }
        lemma_fits_more(tree, levels + 1, 100);
        assert(tree_shape(tree)->Array_0 =~= texts) by {
            assert forall|i: int| 0 <= i < trees.len() implies tree_shape(tree)->Array_0[i]
                == texts[i] by {
                assert(spells(items@[i]@, trees[i], levels));
            }
        }
        assert(document.deep_view() == tree_shape(tree));
    }
    text
}

/// Members whose texts read back, under names that are not reserved.
pub open spec fn sound_members(members: Seq<(Seq<char>, JsonTree)>, levels: nat) -> bool {
    forall|i: int|
        0 <= i < members.len() ==> {
            &&& !reserved_name((#[trigger] members[i]).0)
            &&& tree_fits(members[i].1, levels)
            &&& reads_back(members[i].1)
        }
}

/// Writes a JSON object of members that are written already.
pub(crate) fn write_object(
    members: Vec<(String, String)>,
    Ghost(trees): Ghost<Seq<(Seq<char>, JsonTree)>>,
    Ghost(levels): Ghost<nat>,
) -> (text: String)
    requires
        levels < 100,
        members@.len() == trees.len(),
        forall|i: int|
            0 <= i < trees.len() ==> {
                &&& members@[i].0@ == (#[trigger] trees[i]).0
                &&& members@[i].1@ == tree_text(trees[i].1)
            },
    ensures
        text@ == tree_text(JsonTree::Object(trees)),
        sound_members(trees, levels) ==> spells(text@, JsonTree::Object(trees), levels + 1),
        sound_members(trees, levels) && plain_names(members.deep_view()) ==> byte_length(text@)
            <= object_bytes(members.deep_view()),
{
    let ghost pairs = members.deep_view();
    let document = Json::Object(members);
    let text = render_json(&document);
    proof {
        let tree = JsonTree::Object(trees);
        let written = member_texts(trees);
        assert(written =~= pairs) by {
            assert forall|i: int| 0 <= i < trees.len() implies written[i] == pairs[i] by {
                assert(members@[i].0@ == trees[i].0);
            }
        }
        assert(document.deep_view() == tree_shape(tree));
        if sound_members(trees, levels) {
            assert(tree_fits(tree, levels + 1));
            lemma_fits_more(tree, levels + 1, 100);
            assert(spelled_out(document.deep_view()));
        }
    }
    text
}

/// The names of the members that are written are not reserved.
pub(crate) proof fn lemma_own_names()
    ensures
        !reserved_name("type"@) && !reserved_name("id"@) && !reserved_name("status"@)
            && !reserved_name("message"@) && !reserved_name("seq"@) && !reserved_name("data"@)
            && !reserved_name("headers"@),
        !reserved_name("session"@) && !reserved_name("sdp"@) && !reserved_name("candidate"@)
            && !reserved_name("sdpMid"@) && !reserved_name("sdpMLineIndex"@) && !reserved_name(
            "usernameFragment"@,
        ),
        !reserved_name("protocol"@) && !reserved_name("peerOnline"@) && !reserved_name(
            "iceServers"@,
        ) && !reserved_name("urls"@) && !reserved_name("username"@) && !reserved_name(
            "credential"@,
        ),
{
    reveal_strlit("$serde_json::private::");
    reveal_strlit("type");
    reveal_strlit("id");
    reveal_strlit("status");
    reveal_strlit("message");
    reveal_strlit("seq");
    reveal_strlit("data");
    reveal_strlit("headers");
    reveal_strlit("session");
    reveal_strlit("sdp");
    reveal_strlit("candidate");
    reveal_strlit("sdpMid");
    reveal_strlit("sdpMLineIndex");
    reveal_strlit("usernameFragment");
    reveal_strlit("protocol");
    reveal_strlit("peerOnline");
    reveal_strlit("iceServers");
    reveal_strlit("urls");
    reveal_strlit("username");
    reveal_strlit("credential");
}

/// The member `name` of an object, read in turn.
pub open spec fn member_of(document: JsonShape, name: Seq<char>) -> Option<JsonShape> {
    match document {
        JsonShape::Object(members) => if members.contains_key(name) {
            json_level(members[name])
        } else {
            None
        },
        _ => None,
    }
}

/// The member `name` of an object where it is a string.
pub open spec fn text_member_of(document: JsonShape, name: Seq<char>) -> Option<Seq<char>> {
    match member_of(document, name) {
        Some(JsonShape::Text(text)) => Some(text),
        _ => None,
    }
}

/// The member `name` of an object where it is an unsigned integer.
pub open spec fn unsigned_member_of(document: JsonShape, name: Seq<char>) -> Option<u64> {
    match member_of(document, name) {
        Some(JsonShape::Unsigned(n)) => Some(n),
        _ => None,
    }
}

/// The member `name` of an object where it is a flag.
pub open spec fn flag_member_of(document: JsonShape, name: Seq<char>) -> Option<bool> {
    match member_of(document, name) {
        Some(JsonShape::Bool(b)) => Some(b),
        _ => None,
    }
}

/// Position of the last member called `name`.
pub(crate) fn last_member(members: &Vec<(String, String)>, name: &str) -> (found: Option<usize>)
    ensures
        match found {
            Some(i) => {
                &&& i < members@.len()
                &&& members_map(members.deep_view()).contains_key(name@)
                &&& members_map(members.deep_view())[name@] == members@[i as int].1@
            },
            None => !members_map(members.deep_view()).contains_key(name@),
        },
{
    let ghost all = members.deep_view();
    let mut i: usize = members.len();
    assert(all.take(all.len() as int) =~= all);
    while i > 0
        invariant
            i <= members@.len(),
            all == members.deep_view(),
            members_map(all).contains_key(name@) == members_map(all.take(i as int)).contains_key(
                name@,
            ),
            members_map(all).contains_key(name@) ==> members_map(all)[name@] == members_map(
                all.take(i as int),
            )[name@],
        decreases i,
    {
        assert(all.take(i as int).drop_last() =~= all.take(i - 1));
        assert(all.take(i as int).last() == all[i - 1]);
        if text_equal(members[i - 1].0.as_str(), name) {
            return Some(i - 1);
        }
        i = i - 1;
    }
    None
}

/// Reads the member `name` of an object.
pub fn member(document: &Json, name: &str) -> (found: Option<Json>)
    ensures
        found.deep_view() == member_of(document.deep_view(), name@),
{
    match document {
        Json::Object(members) => match last_member(members, name) {
            Some(i) => open_json(members[i].1.as_str()),
            None => None,
        },
        _ => None,
    }
}

/// The member `name` of an object where it is a string.
pub fn text_member(document: &Json, name: &str) -> (found: Option<String>)
    ensures
        found.deep_view() == text_member_of(document.deep_view(), name@),
{
    match member(document, name) {
        Some(Json::Text(text)) => Some(text),
        _ => None,
    }
}

/// The member `name` of an object where it is an unsigned integer.
pub fn unsigned_member(document: &Json, name: &str) -> (found: Option<u64>)
    ensures
        found == unsigned_member_of(document.deep_view(), name@),
{
    match member(document, name) {
        Some(Json::Unsigned(n)) => Some(n),
        _ => None,
    }
}

/// The member `name` of an object where it is a flag.
pub fn flag_member(document: &Json, name: &str) -> (found: Option<bool>)
    ensures
        found == flag_member_of(document.deep_view(), name@),
{
    match member(document, name) {
        Some(Json::Bool(b)) => Some(b),
        _ => None,
    }
}

/// Of several members with one name the last counts, and no name stands in an
/// object that no member has.
pub proof fn lemma_members_map(members: Seq<(Seq<char>, Seq<char>)>, i: int, name: Seq<char>)
    requires
        0 <= i < members.len(),
        forall|j: int| i < j < members.len() ==> (#[trigger] members[j]).0 != members[i].0,
    ensures
        members_map(members).contains_key(members[i].0),
        members_map(members)[members[i].0] == members[i].1,
        members_map(members).contains_key(name) <==> exists|j: int|
            0 <= j < members.len() && (#[trigger] members[j]).0 == name,
    decreases members.len(),
{
    lemma_members_named(members, name);
    lemma_members_named(members, members[i].0);
    let rest = members.drop_last();
    if i < members.len() - 1 {
        assert(members[members.len() - 1].0 != members[i].0);
        assert forall|j: int| i < j < rest.len() implies (#[trigger] rest[j]).0 != rest[i].0 by {
            assert(members[j].0 != members[i].0);
        }
        lemma_members_map(rest, i, name);
    }
}

/// The names in an object are those of its members.
proof fn lemma_members_named(members: Seq<(Seq<char>, Seq<char>)>, name: Seq<char>)
    ensures
        members_map(members).contains_key(name) <==> exists|j: int|
            0 <= j < members.len() && (#[trigger] members[j]).0 == name,
    decreases members.len(),
{
    if members.len() > 0 {
        let rest = members.drop_last();
        lemma_members_named(rest, name);
        if exists|j: int| 0 <= j < rest.len() && (#[trigger] rest[j]).0 == name {
            let j = choose|j: int| 0 <= j < rest.len() && (#[trigger] rest[j]).0 == name;
            assert(members[j].0 == name);
        }
        if exists|j: int| 0 <= j < members.len() && (#[trigger] members[j]).0 == name {
            let j = choose|j: int| 0 <= j < members.len() && (#[trigger] members[j]).0 == name;
            if j < rest.len() {
                assert(rest[j].0 == name);
            }
        }
        if name == members.last().0 {
            assert(members[members.len() - 1].0 == name);
        }
    }
}

/// Whoever reads an object that was written finds in each member what was
/// written there, where no later member has the same name.
pub proof fn lemma_member_reads(members: Seq<(Seq<char>, JsonTree)>, i: int)
    requires
        reads_back(JsonTree::Object(members)),
        0 <= i < members.len(),
        forall|j: int| i < j < members.len() ==> (#[trigger] members[j]).0 != members[i].0,
    ensures
        ({
            let document = tree_shape(JsonTree::Object(members));
            &&& member_of(document, members[i].0) == Some(tree_shape(members[i].1))
            &&& members[i].1 matches JsonTree::Text(text) ==> text_member_of(
                document,
                members[i].0,
            ) == Some(text)
            &&& members[i].1 matches JsonTree::Unsigned(n) ==> unsigned_member_of(
                document,
                members[i].0,
            ) == Some(n)
            &&& members[i].1 matches JsonTree::Bool(b) ==> flag_member_of(document, members[i].0)
                == Some(b)
        }),
{
    let texts = member_texts(members);
    assert(texts[i] == (members[i].0, tree_text(members[i].1)));
    assert forall|j: int| i < j < texts.len() implies (#[trigger] texts[j]).0 != texts[i].0 by {
        assert(members[j].0 != members[i].0);
    }
    lemma_members_map(texts, i, members[i].0);
    assert(reads_back(members[i].1));
}

/// A member of an object is what is read of the text that stands under its
/// name: a string, a number or a flag only where it is one, and nothing where the
/// object has no such member or the document is no object.
pub proof fn lemma_members_read(
    document: JsonShape,
    members: Map<Seq<char>, Seq<char>>,
    name: Seq<char>,
    text: Seq<char>,
    n: u64,
    b: bool,
)
    ensures
        ({
            let object = JsonShape::Object(members);
            let level = json_level(members[name]);
            let there = members.contains_key(name);
            &&& member_of(object, name) == if there {
                level
            } else {
                None
            }
            &&& text_member_of(object, name) == Some(text) <==> there && level == Some(
                JsonShape::Text(text),
            )
            &&& unsigned_member_of(object, name) == Some(n) <==> there && level == Some(
                JsonShape::Unsigned(n),
            )
            &&& flag_member_of(object, name) == Some(b) <==> there && level == Some(
                JsonShape::Bool(b),
            )
        }),
        !(document is Object) ==> member_of(document, name) is None && text_member_of(
            document,
            name,
        ) is None && unsigned_member_of(document, name) is None && flag_member_of(
            document,
            name,
        ) is None,
{
}

/// A text is read as an object, an array or a scalar, in this order, and bytes
/// are a document exactly where they are read without an error.
pub proof fn lemma_levels(text: Seq<char>, bytes: Seq<u8>, document: JsonShape)
    ensures
        json_members(text) matches Some(members) ==> json_level(text) == Some(
            JsonShape::Object(members),
        ),
        json_members(text) is None ==> (json_items(text) matches Some(items) ==> json_level(text)
            == Some(JsonShape::Array(items))),
        json_members(text) is None && json_items(text) is None ==> json_level(text) == json_scalar(
            text,
        ),
        json_document(bytes) == Some(document) <==> json_reading(bytes) == Ok::<
            JsonShape,
            Seq<char>,
        >(document),
        json_document(bytes) is None <==> json_reading(bytes) is Err,
{
}

/// Whoever reads an object that was written finds no member under a name that
/// none was written with.
pub proof fn lemma_only_members(members: Seq<(Seq<char>, JsonTree)>)
    ensures
        forall|name: Seq<char>|
            #![trigger member_of(tree_shape(JsonTree::Object(members)), name)]
            (forall|j: int| 0 <= j < members.len() ==> (#[trigger] members[j]).0 != name)
                ==> member_of(tree_shape(JsonTree::Object(members)), name) is None,
{
    let texts = member_texts(members);
    assert forall|name: Seq<char>|
        #![trigger member_of(tree_shape(JsonTree::Object(members)), name)]
        (forall|j: int| 0 <= j < members.len() ==> (#[trigger] members[j]).0 != name) implies
        member_of(tree_shape(JsonTree::Object(members)), name) is None by {
        lemma_members_named(texts, name);
        if members_map(texts).contains_key(name) {
            let j = choose|j: int| 0 <= j < texts.len() && (#[trigger] texts[j]).0 == name;
            assert(members[j].0 == name);
        }
    }
}

} // verus!
