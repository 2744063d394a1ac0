//! Who may join: room tokens, and the credentials that a caller presents.

use crate::table::Table;
use crate::text::{
    chars_of, is_name, lemma_utf8_injective, starts_with, text_from, trim, trimmed, valid_name,
};
use vstd::prelude::*;

verus! {

/// Whether a text can name a room.
pub fn valid_room(room: &str) -> (valid: bool)
    ensures
        valid == valid_name(room@),
{
    is_name(room)
}

/// A token that was presented is the one that is expected; nothing is the empty token.
pub open spec fn same_token(actual: Seq<char>, expected: Seq<char>) -> bool {
    expected.len() > 0 && actual == expected
}

/// Whether the token that was presented is the one that is expected. Every byte
/// is looked at, however early the two differ.
pub fn token_matches(actual: &str, expected: &str) -> (matching: bool)
    ensures
        matching == same_token(actual@, expected@),
{
    let a = actual.as_bytes();
    let b = expected.as_bytes();
    proof {
        if actual@ == expected@ {
            assert(a@ == b@);
        }
        if b@.len() == 0 {
            lemma_utf8_injective(expected@, Seq::empty());
        }
        if expected@.len() == 0 {
            assert(expected@ =~= Seq::empty());
        }
    }
    if a.len() != b.len() || b.len() == 0 {
        return false;
    }
    let mut diff: u8 = 0;
    for i in 0..a.len()
        invariant
            a@.len() == b@.len(),
            diff == 0 <==> (forall|k: int| 0 <= k < i ==> a@[k] == b@[k]),
    {
        let before: u8 = diff;
        let x: u8 = a[i];
        let y: u8 = b[i];
        diff = before | (x ^ y);
        assert((before | (x ^ y)) == 0 <==> (before == 0 && x == y)) by (bit_vector);
        assert(diff == 0 <==> (before == 0 && x == y));
    }
    proof {
        if diff == 0 {
            assert(a@ =~= b@);
            lemma_utf8_injective(actual@, expected@);
        }
    }
    diff == 0
}

/// The rooms that can be joined, and the tokens that open them.
pub struct Access {
    /// Opens every room where no room has a token of its own.
    pub token: String,
    pub default_room: String,
    /// The tokens of the rooms that have their own.
    pub room_tokens: Table<String>,
}

/// What an [`Access`] holds.
pub struct AccessModel {
    pub token: Seq<char>,
    pub default_room: Seq<char>,
    pub room_tokens: Map<Seq<char>, Seq<char>>,
}

impl DeepView for Access {
    type V = AccessModel;

    open spec fn deep_view(&self) -> AccessModel {
        AccessModel {
            token: self.token@,
            default_room: self.default_room@,
            room_tokens: self.room_tokens.deep_view(),
        }
    }
}

impl Access {
    /// No room stands twice.
    pub open spec fn wf(&self) -> bool {
        self.room_tokens.wf()
    }

    /// No room has a token of its own.
    pub open spec fn shared(&self) -> bool {
        self.room_tokens@.dom().len() == 0
    }

    /// The token that opens a room.
    pub open spec fn expected(&self, room: Seq<char>) -> Option<Seq<char>> {
        if self.shared() {
            Some(self.token@)
        } else if self.room_tokens@.contains_key(room) {
            Some(self.room_tokens@[room]@)
        } else {
            None
        }
    }

    /// The token opens the room.
    pub open spec fn opens(&self, room: Seq<char>, token: Seq<char>) -> bool {
        self.expected(room) matches Some(expected) && same_token(token, expected)
    }

    /// The token is that of the room, which is the default room where all share one token.
    pub open spec fn proves(&self, room: Seq<char>, token: Seq<char>) -> bool {
        &&& self.opens(room, token)
        &&& if self.shared() {
            room == self.default_room@
        } else {
            self.room_tokens@.contains_key(room)
        }
    }

    /// The caller presented the token of some room.
    pub open spec fn proven(&self, presented: Option<Seq<char>>) -> bool {
        presented matches Some(token) && exists|room: Seq<char>| #[trigger] self.proves(room, token)
    }

    /// Whether a token opens a room.
    pub fn authorizes(&self, room: &str, token: &str) -> (authorized: bool)
        requires
            self.wf(),
        ensures
            authorized == self.opens(room@, token@),
    {
        if self.room_tokens.len() == 0 {
            token_matches(token, self.token.as_str())
        } else {
            match self.room_tokens.get(room) {
                Some(expected) => token_matches(token, expected.as_str()),
                None => false,
            }
        }
    }
}

/// The token in an `Authorization` header.
pub open spec fn bearer_in(authorization: Option<Seq<char>>) -> Option<Seq<char>> {
    match authorization {
        Some(value) => if "Bearer "@.is_prefix_of(value) {
            Some(trimmed(value.skip("Bearer "@.len() as int)))
        } else {
            None
        },
        None => None,
    }
}

/// Takes the token out of an `Authorization` header; a header that is no text
/// is given as `None`.
pub fn bearer_token(authorization: &Option<String>) -> (token: Option<String>)
    ensures
        token.deep_view() == bearer_in(authorization.deep_view()),
{
    match authorization {
        Some(value) => if starts_with(value.as_str(), "Bearer ") {
            let chars = chars_of(value.as_str());
            proof {
                reveal_strlit("Bearer ");
                assert("Bearer "@.len() == 7);
            }
            let rest = text_from(&chars, 7, chars.len());
            assert(rest@ =~= value@.skip(7));
            Some(trim(rest.as_str()))
        } else {
            None
        },
        None => None,
    }
}

/// Finds the room and the token that the caller proved to know. Where several
/// rooms have the token that was presented, which of them is found is left open.
pub fn setup_credentials(access: &Access, authorization: &Option<String>) -> (found: Option<
    (String, String),
>)
    requires
        access.wf(),
    ensures
        found is Some <==> access.proven(bearer_in(authorization.deep_view())),
        found matches Some((room, token)) ==> {
            &&& bearer_in(authorization.deep_view()) == Some(token@)
            &&& access.proves(room@, token@)
        },
{
    let presented = match bearer_token(authorization) {
        Some(presented) => presented,
        None => return None,
    };
    if access.room_tokens.len() == 0 {
        if token_matches(presented.as_str(), access.token.as_str()) {
            assert(access.proves(access.default_room@, presented@));
            return Some((access.default_room.clone(), access.token.clone()));
        }
        return None;
    }
    let total: usize = access.room_tokens.len();
    proof {
        access.room_tokens.lemma_list();
    }
    let ghost list = access.room_tokens.list();
    for i in 0..total
        invariant
            access.wf(),
            !access.shared(),
            list == access.room_tokens.list(),
            total == list.len(),
            bearer_in(authorization.deep_view()) == Some(presented@),
            forall|k: int|
                0 <= k < list.len() ==> {
                    &&& access.room_tokens@.contains_key((#[trigger] list[k]).0@)
                    &&& access.room_tokens@[list[k].0@] == list[k].1
                },
            forall|k: int| 0 <= k < i ==> !access.proves((#[trigger] list[k]).0@, presented@),
    {
        let (room, token) = access.room_tokens.at(i);
        assert(list[i as int].0@ == room@);
        if token_matches(presented.as_str(), token.as_str()) {
            assert(access.proves(room@, presented@));
            return Some((room.clone(), token.clone()));
        }
    }
    proof {
        assert forall|room: Seq<char>| !#[trigger] access.proves(room, presented@) by {
            if access.proves(room, presented@) {
                let k = choose|k: int| 0 <= k < list.len() && (#[trigger] list[k]).0@ == room;
                assert(!access.proves(list[k].0@, presented@));
            }
        }
    }
    None
}

/// Only the token itself opens a room: no other text, and nothing where no token is set.
pub proof fn lemma_one_token_opens(
    access: Access,
    room: Seq<char>,
    token: Seq<char>,
    other: Seq<char>,
)
    requires
        access.opens(room, token),
    ensures
        access.opens(room, other) <==> other == token,
        token.len() > 0,
{
}

/// A token opens a room exactly where it is not empty and is the one token that
/// is expected there: that of the room, or, where no room has one of its own,
/// the shared one. A room without a token among others that have one stays shut.
pub proof fn lemma_opens(access: Access, room: Seq<char>, token: Seq<char>)
    ensures
        access.room_tokens@.dom().len() == 0 ==> (access.opens(room, token) <==> token
            == access.token@ && token.len() > 0),
        access.room_tokens@.dom().len() > 0 ==> (access.opens(room, token) <==> token.len() > 0
            && access.room_tokens@.contains_key(room) && access.room_tokens@[room]@ == token),
        same_token(token, access.token@) <==> token == access.token@ && token.len() > 0,
{
}

/// Whoever presents the shared token has proved the default room; whoever
/// presents the token of a room has proved a room with that token. Nothing else
/// proves anything.
pub proof fn lemma_proven(access: Access, room: Seq<char>, token: Seq<char>)
    ensures
        access.room_tokens@.dom().len() == 0 ==> (access.proves(room, token) <==> room
            == access.default_room@ && token == access.token@ && token.len() > 0),
        access.room_tokens@.dom().len() > 0 ==> (access.proves(room, token) <==> token.len() > 0
            && access.room_tokens@.contains_key(room) && access.room_tokens@[room]@ == token),
        access.room_tokens@.dom().len() == 0 ==> (access.proven(Some(token)) <==> token
            == access.token@ && token.len() > 0),
        access.proves(room, token) ==> access.proven(Some(token)),
        access.proven(Some(token)) ==> exists|room: Seq<char>| #[trigger]
            access.proves(room, token),
        !access.proven(None),
{
    if access.room_tokens@.dom().len() == 0 && token == access.token@ && token.len() > 0 {
        assert(access.proves(access.default_room@, token));
    }
}

/// The token stands behind `Bearer` and a space, without white space round it.
/// Any other header holds none.
pub proof fn lemma_bearer_in(value: Seq<char>, rest: Seq<char>)
    ensures
        bearer_in(Some("Bearer "@ + rest)) == Some(trimmed(rest)),
        !"Bearer "@.is_prefix_of(value) ==> bearer_in(Some(value)) is None,
        bearer_in(None) is None,
{
    let whole = "Bearer "@ + rest;
    assert(whole.subrange(0, "Bearer "@.len() as int) =~= "Bearer "@);
    assert(whole.skip("Bearer "@.len() as int) =~= rest);
}

} // verus!
