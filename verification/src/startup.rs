//! How the signaling server is set up from its environment.

use crate::access::{Access, AccessModel};
use crate::config::value_or;
use crate::ice::{
    browser_servers, build_ice_servers, ice_error_words, BrowserServer, BrowserServerModel,
    IceError,
};
use crate::json::members_map;
use crate::site::Site;
use crate::table::{lemma_deep_insert, lemma_deep_names, Table};
use crate::text::{byte_len, byte_length, is_name, result_view, valid_name};
use vstd::prelude::*;

verus! {

/// What the environment of the signaling server holds.
pub struct SignalingEnvironment {
    pub room_tokens_json: Option<String>,
    pub signaling_token: Option<String>,
    pub room_id: Option<String>,
    pub public_host: Option<String>,
    pub public_ip: Option<String>,
    pub stun_url: Option<String>,
    pub turn_url: Option<String>,
    pub turn_user: Option<String>,
    pub turn_pass: Option<String>,
    pub signaling_bind: Option<String>,
}

/// The settings of the signaling server.
pub struct SignalingSettings {
    pub access: Access,
    /// The token was made up at start.
    pub generated: bool,
    pub site: Site,
    pub ice_servers: Vec<BrowserServer>,
    pub bind: String,
}

/// What the [`SignalingSettings`] hold.
pub struct SignalingModel {
    pub access: AccessModel,
    pub generated: bool,
    pub public_host: Seq<char>,
    pub stun_url: Option<Seq<char>>,
    pub turn_url: Option<Seq<char>>,
    pub ice_servers: Seq<BrowserServerModel>,
    pub bind: Seq<char>,
}

impl DeepView for SignalingSettings {
    type V = SignalingModel;

    open spec fn deep_view(&self) -> SignalingModel {
        SignalingModel {
            access: self.access.deep_view(),
            generated: self.generated,
            public_host: self.site.public_host@,
            stun_url: self.site.stun_url.deep_view(),
            turn_url: self.site.turn_url.deep_view(),
            ice_servers: self.ice_servers.deep_view(),
            bind: self.bind@,
        }
    }
}

/// Why the settings of the signaling server are refused.
pub enum SettingsErrorOf<T> {
    RoomTokensJson(T),
    RoomTokens,
    TokenTooShort,
    Ice(IceError),
}

/// Why the settings of the signaling server are refused.
pub type SettingsError = SettingsErrorOf<String>;

impl DeepView for SettingsErrorOf<String> {
    type V = SettingsErrorOf<Seq<char>>;

    open spec fn deep_view(&self) -> SettingsErrorOf<Seq<char>> {
        match self {
            SettingsErrorOf::RoomTokensJson(words) => SettingsErrorOf::RoomTokensJson(words@),
            SettingsErrorOf::RoomTokens => SettingsErrorOf::RoomTokens,
            SettingsErrorOf::TokenTooShort => SettingsErrorOf::TokenTooShort,
            SettingsErrorOf::Ice(error) => SettingsErrorOf::Ice(*error),
        }
    }
}

/// A refusal in words.
pub open spec fn settings_error_words(error: SettingsErrorOf<Seq<char>>) -> Seq<char> {
    match error {
        SettingsErrorOf::RoomTokensJson(words) => words,
        SettingsErrorOf::RoomTokens =>
            "ROOM_TOKENS_JSON must contain room-specific secrets with valid names and at least 16 characters"@,
        SettingsErrorOf::TokenTooShort => "SIGNALING_TOKEN must contain at least 16 characters"@,
        SettingsErrorOf::Ice(error) => ice_error_words(error),
    }
}

impl SettingsErrorOf<String> {
    /// The reason in words.
    pub fn message(&self) -> (text: String)
        ensures
            text@ == settings_error_words(self.deep_view()),
    {
        match self {
            SettingsErrorOf::RoomTokensJson(words) => words.clone(),
            SettingsErrorOf::RoomTokens =>
                "ROOM_TOKENS_JSON must contain room-specific secrets with valid names and at least 16 characters".to_owned(),
            SettingsErrorOf::TokenTooShort =>
                "SIGNALING_TOKEN must contain at least 16 characters".to_owned(),
            SettingsErrorOf::Ice(error) => error.message().to_owned(),
        }
    }
}

/// The object of strings that `serde_json::from_str` reads from a text, or the
/// words of its error.
pub uninterp spec fn json_string_map(text: Seq<char>) -> Result<
    Map<Seq<char>, Seq<char>>,
    Seq<char>,
>;

/// Reads an object of strings with `serde_json::from_str` into a map, whose
/// entries are listed. The result is named [`json_string_map`].
#[verifier::external_body]
fn parse_string_map(text: &str) -> (result: Result<Vec<(String, String)>, String>)
    ensures
        match result {
            Ok(entries) => json_string_map(text@) == Ok::<Map<Seq<char>, Seq<char>>, Seq<char>>(
                members_map(entries.deep_view()),
            ),
            Err(words) => json_string_map(text@) == Err::<Map<Seq<char>, Seq<char>>, Seq<char>>(
                words@,
            ),
        },
{
    serde_json::from_str::<std::collections::BTreeMap<String, String>>(text)
        .map(|map| map.into_iter().collect())
        .map_err(|error| error.to_string())
}

/// A lower-case hexadecimal digit.
pub open spec fn hex_digit(c: char) -> bool {
    '0' <= c <= '9' || 'a' <= c <= 'f'
}

/// A secret that was made up: 32 lower-case hexadecimal digits.
pub open spec fn random_text(text: Seq<char>) -> bool {
    text.len() == 32 && forall|i: int| 0 <= i < text.len() ==> hex_digit(#[trigger] text[i])
}

/// Makes up a secret with `uuid::Uuid::new_v4` and writes it with `simple`,
/// which gives 32 lower-case hexadecimal digits. Nothing more is said of it.
#[verifier::external_body]
pub(crate) fn random_secret() -> (text: String)
    ensures
        random_text(text@),
        byte_length(text@) == 32,
{
    uuid::Uuid::new_v4().simple().to_string()
}

/// Every room has a valid name and a token that is long enough.
pub open spec fn room_tokens_valid(tokens: Map<Seq<char>, Seq<char>>) -> bool {
    forall|room: Seq<char>| #[trigger]
        tokens.contains_key(room) ==> valid_name(room) && byte_length(tokens[room]) >= 16
}

/// A value that is not empty.
pub open spec fn filled(value: Option<Seq<char>>) -> Option<Seq<char>> {
    match value {
        Some(text) => if text.len() > 0 {
            Some(text)
        } else {
            None
        },
        None => None,
    }
}

/// The public host: the one that is set, else the public address, else none.
pub open spec fn public_host_of(host: Option<Seq<char>>, ip: Option<Seq<char>>) -> Seq<char> {
    match host {
        Some(host) => host,
        None => value_or(ip, Seq::empty()),
    }
}

/// A token has to be made up: none is set, for no room.
pub open spec fn needs_token(
    tokens: Map<Seq<char>, Seq<char>>,
    token: Option<Seq<char>>,
) -> bool {
    value_or(token, Seq::empty()).len() == 0 && tokens.dom().len() == 0
}

/// The settings once the room tokens are read and a token is made up.
pub open spec fn settings_of(
    env: SignalingEnvironment,
    tokens: Map<Seq<char>, Seq<char>>,
    made_up: Seq<char>,
) -> Result<SignalingModel, SettingsErrorOf<Seq<char>>> {
    let generated = needs_token(tokens, env.signaling_token.deep_view());
    let token = if generated {
        made_up
    } else {
        value_or(env.signaling_token.deep_view(), Seq::empty())
    };
    let stun_url = filled(env.stun_url.deep_view());
    let turn_url = filled(env.turn_url.deep_view());
    if tokens.dom().len() > 0 && !room_tokens_valid(tokens) {
        Err(SettingsErrorOf::RoomTokens)
    } else if tokens.dom().len() == 0 && byte_length(token) < 16 {
        Err(SettingsErrorOf::TokenTooShort)
    } else {
        match browser_servers(
            stun_url,
            turn_url,
            filled(env.turn_user.deep_view()),
            filled(env.turn_pass.deep_view()),
        ) {
            Err(error) => Err(SettingsErrorOf::Ice(error)),
            Ok(ice_servers) => Ok(
                SignalingModel {
                    access: AccessModel {
                        token,
                        default_room: value_or(env.room_id.deep_view(), "default"@),
                        room_tokens: tokens,
                    },
                    generated,
                    public_host: public_host_of(
                        env.public_host.deep_view(),
                        env.public_ip.deep_view(),
                    ),
                    stun_url,
                    turn_url,
                    ice_servers,
                    bind: value_or(env.signaling_bind.deep_view(), "0.0.0.0:8080"@),
                },
            ),
        }
    }
}

/// The settings of the signaling server, where `made_up` is the token that is
/// made up when one is needed.
pub open spec fn signaling_settings(env: SignalingEnvironment, made_up: Seq<char>) -> Result<
    SignalingModel,
    SettingsErrorOf<Seq<char>>,
> {
    match json_string_map(value_or(env.room_tokens_json.deep_view(), "{}"@)) {
        Err(words) => Err(SettingsErrorOf::RoomTokensJson(words)),
        Ok(tokens) => settings_of(env, tokens, made_up),
    }
}

/// A value that is set, else what stands for it.
fn value_or_default(value: Option<String>, fallback: &str) -> (text: String)
    ensures
        text@ == value_or(value.deep_view(), fallback@),
{
    match value {
        Some(value) => value,
        None => fallback.to_owned(),
    }
}

/// A value that is set and not empty.
fn filled_value(value: Option<String>) -> (filled_text: Option<String>)
    ensures
        filled_text.deep_view() == filled(value.deep_view()),
{
    match value {
        Some(text) => if text.as_str().is_empty() {
            None
        } else {
            Some(text)
        },
        None => None,
    }
}

/// Lists entries in a table; of several with one name the last counts.
fn table_of(entries: Vec<(String, String)>) -> (table: Table<String>)
    ensures
        table.wf(),
        table.deep_view() == members_map(entries.deep_view()),
{
    let ghost all = entries.deep_view();
    let mut table: Table<String> = Table::new();
    assert(table.deep_view() =~= Map::empty());
    for entry in it: entries
        invariant
            it.seq() == entries@,
            all == entries.deep_view(),
            table.wf(),
            table.deep_view() == members_map(all.take(it.index())),
    {
        let (name, value) = entry;
        proof {
            assert(all.take(it.index() + 1).drop_last() =~= all.take(it.index()));
            assert(all[it.index()] == (name@, value@));
            lemma_deep_insert(table@, name@, value);
        }
        table.insert(name, value);
    }
    assert(all.take(all.len() as int) =~= all);
    table
}

/// Whether every room has a valid name and a token that is long enough.
fn check_room_tokens(tokens: &Table<String>) -> (valid: bool)
    requires
        tokens.wf(),
    ensures
        valid == room_tokens_valid(tokens.deep_view()),
{
    let ghost list = tokens.list();
    let total: usize = tokens.len();
    proof {
        tokens.lemma_list();
    }
    for i in 0..total
        invariant
            tokens.wf(),
            list == tokens.list(),
            total == list.len(),
            forall|k: int|
                0 <= k < list.len() ==> {
                    &&& tokens@.contains_key((#[trigger] list[k]).0@)
                    &&& tokens@[list[k].0@] == list[k].1
                },
            forall|k: int|
                0 <= k < i ==> valid_name((#[trigger] list[k]).0@) && byte_length(list[k].1@)
                    >= 16,
    {
        let (room, token) = tokens.at(i);
        assert(list[i as int].0@ == room@);
        if !is_name(room.as_str()) || byte_len(token.as_str()) < 16 {
            assert(tokens.deep_view().contains_key(room@));
            return false;
        }
    }
    proof {
        assert forall|room: Seq<char>| #[trigger]
            tokens.deep_view().contains_key(room) implies valid_name(room) && byte_length(
            tokens.deep_view()[room],
        ) >= 16 by {
            assert(tokens@.contains_key(room));
            let k = choose|k: int| 0 <= k < list.len() && (#[trigger] list[k]).0@ == room;
            assert(valid_name(list[k].0@));
        }
    }
    true
}

/// The text in an option, by reference.
fn text_in(value: &Option<String>) -> (text: Option<&str>)
    ensures
        crate::ice::optional(text) == value.deep_view(),
{
    match value {
        Some(text) => Some(text.as_str()),
        None => None,
    }
}

impl SignalingSettings {
    /// Builds the settings once the room tokens are read; `made_up` is used as
    /// the token where one has to be made up.
    pub fn build(env: SignalingEnvironment, room_tokens: Table<String>, made_up: String) -> (result:
        Result<SignalingSettings, SettingsError>)
        requires
            room_tokens.wf(),
        ensures
            result_view(result) == settings_of(env, room_tokens.deep_view(), made_up@),
            result matches Ok(settings) ==> settings.access.wf(),
    {
        proof {
            lemma_deep_names(room_tokens@);
            reveal_strlit("");
            assert(""@ =~= Seq::empty());
        }
        let own_tokens = room_tokens.len() > 0;
        let mut token = value_or_default(env.signaling_token, "");
        let generated = token.as_str().is_empty() && !own_tokens;
        if generated {
            token = made_up;
        }
        if own_tokens {
            if !check_room_tokens(&room_tokens) {
                return Err(SettingsErrorOf::RoomTokens);
            }
        } else if byte_len(token.as_str()) < 16 {
            return Err(SettingsErrorOf::TokenTooShort);
        }
        let default_room = value_or_default(env.room_id, "default");
        let public_host = match env.public_host {
            Some(host) => host,
            None => value_or_default(env.public_ip, ""),
        };
        let stun_url = filled_value(env.stun_url);
        let turn_url = filled_value(env.turn_url);
        let turn_user = filled_value(env.turn_user);
        let turn_pass = filled_value(env.turn_pass);
        let ice_servers = match build_ice_servers(
            text_in(&stun_url),
            text_in(&turn_url),
            text_in(&turn_user),
            text_in(&turn_pass),
        ) {
            Ok(servers) => servers,
            Err(error) => return Err(SettingsErrorOf::Ice(error)),
        };
        let bind = value_or_default(env.signaling_bind, "0.0.0.0:8080");
        Ok(
            SignalingSettings {
                access: Access { token, default_room, room_tokens },
                generated,
                site: Site { public_host, stun_url, turn_url },
                ice_servers,
                bind,
            },
        )
    }

    /// Reads the settings from the environment. Where a token has to be made up
    /// it is some 32 lower-case hexadecimal digits.
    pub fn from_env(env: SignalingEnvironment) -> (result: Result<SignalingSettings, SettingsError>)
        ensures
            exists|made_up: Seq<char>|
                random_text(made_up) && byte_length(made_up) == 32 && result_view(result)
                    == #[trigger] signaling_settings(env, made_up),
            result matches Ok(settings) ==> settings.access.wf(),
    {
        let made_up = random_secret();
        let ghost secret = made_up@;
        let text = match &env.room_tokens_json {
            Some(text) => text.clone(),
            None => "{}".to_owned(),
        };
        let result = match parse_string_map(text.as_str()) {
            Err(words) => Err(SettingsErrorOf::RoomTokensJson(words)),
            Ok(entries) => SignalingSettings::build(env, table_of(entries), made_up),
        };
        assert(result_view(result) == signaling_settings(env, secret));
        result
    }
}

/// Accepted settings give every room that can be joined a token of at least 16
/// bytes, so that the empty token opens none; a token is made up exactly where
/// none is set.
pub proof fn lemma_settings_valid(env: SignalingEnvironment, made_up: Seq<char>)
    requires
        signaling_settings(env, made_up) is Ok,
    ensures
        signaling_settings(env, made_up) matches Ok(settings) && {
            &&& settings.access.room_tokens.dom().len() == 0 ==> byte_length(
                settings.access.token,
            ) >= 16
            &&& settings.access.room_tokens.dom().len() > 0 ==> room_tokens_valid(
                settings.access.room_tokens,
            )
            &&& settings.generated <==> needs_token(
                settings.access.room_tokens,
                env.signaling_token.deep_view(),
            )
        },
{
}

/// A setting that is empty counts as absent. The public host is the one that is
/// set, else the public address, else none.
pub proof fn lemma_filled(value: Option<Seq<char>>, host: Option<Seq<char>>)
    ensures
        filled(value) == value || filled(value) is None,
        filled(value) is Some <==> (value matches Some(text) && text.len() > 0),
        host matches Some(text) ==> public_host_of(host, value) == text,
        host is None ==> (value matches Some(text) ==> public_host_of(host, value) == text),
        host is None && value is None ==> public_host_of(host, value).len() == 0,
{
}

/// Room tokens are taken exactly where each room has a valid name and a token of
/// at least 16 bytes. Where no room has one, the shared token has at least 16
/// bytes; it is made up where none is set or an empty one is, and only then.
pub proof fn lemma_tokens_taken(
    env: SignalingEnvironment,
    tokens: Map<Seq<char>, Seq<char>>,
    made_up: Seq<char>,
    room: Seq<char>,
)
    ensures
        ({
            let result = settings_of(env, tokens, made_up);
            let set = env.signaling_token is Some && env.signaling_token->0@.len() > 0;
            let own = tokens.dom().len() > 0;
            let token = if set {
                env.signaling_token->0@
            } else {
                made_up
            };
            &&& own && tokens.contains_key(room) && (!valid_name(room) || byte_length(tokens[room])
                < 16) ==> result == Err::<SignalingModel, SettingsErrorOf<Seq<char>>>(
                SettingsErrorOf::RoomTokens,
            )
            &&& result == Err::<SignalingModel, SettingsErrorOf<Seq<char>>>(
                SettingsErrorOf::RoomTokens,
            ) ==> own && exists|room: Seq<char>| #[trigger]
                tokens.contains_key(room) && (!valid_name(room) || byte_length(tokens[room]) < 16)
            &&& !own && byte_length(token) < 16 <==> result == Err::<
                SignalingModel,
                SettingsErrorOf<Seq<char>>,
            >(SettingsErrorOf::TokenTooShort)
            &&& result matches Ok(settings) ==> {
                &&& settings.generated <==> !own && !set
                &&& !own ==> settings.access.token == token
                &&& settings.access.room_tokens == tokens
            }
        }),
{
    if env.signaling_token is Some && env.signaling_token->0@.len() == 0 {
        assert(env.signaling_token->0@ =~= Seq::empty());
    }
}

/// What accepted settings hold, and what stands for a setting that is absent: the
/// room `default`, and port 8080 of every address. The ICE servers are those of
/// the STUN and TURN settings.
pub proof fn lemma_settings_fields(
    env: SignalingEnvironment,
    tokens: Map<Seq<char>, Seq<char>>,
    made_up: Seq<char>,
)
    ensures
        ({
            let result = settings_of(env, tokens, made_up);
            let servers = browser_servers(
                filled(env.stun_url.deep_view()),
                filled(env.turn_url.deep_view()),
                filled(env.turn_user.deep_view()),
                filled(env.turn_pass.deep_view()),
            );
            &&& result matches Ok(settings) ==> {
                &&& servers == Ok::<Seq<BrowserServerModel>, IceError>(settings.ice_servers)
                &&& env.room_id matches Some(room) ==> settings.access.default_room == room@
                &&& env.room_id is None ==> settings.access.default_room == "default"@
                &&& env.signaling_bind matches Some(bind) ==> settings.bind == bind@
                &&& env.signaling_bind is None ==> settings.bind == "0.0.0.0:8080"@
                &&& settings.public_host == public_host_of(
                    env.public_host.deep_view(),
                    env.public_ip.deep_view(),
                )
                &&& settings.stun_url == filled(env.stun_url.deep_view())
                &&& settings.turn_url == filled(env.turn_url.deep_view())
            }
            &&& result matches Err(SettingsErrorOf::Ice(error)) ==> servers == Err::<
                Seq<BrowserServerModel>,
                IceError,
            >(error)
            &&& servers matches Err(error) ==> result is Err
            &&& result is Err ==> {
                ||| result->Err_0 is RoomTokens
                ||| result->Err_0 is TokenTooShort
                ||| result->Err_0 is Ice
            }
        }),
{
}

/// Room tokens come from an object of strings, an empty one where none is set; one
/// that cannot be read is refused in the words of the reader.
pub proof fn lemma_room_tokens_read(env: SignalingEnvironment, made_up: Seq<char>)
    ensures
        ({
            let text = match env.room_tokens_json {
                Some(text) => text@,
                None => "{}"@,
            };
            match json_string_map(text) {
                Ok(tokens) => signaling_settings(env, made_up) == settings_of(
                    env,
                    tokens,
                    made_up,
                ),
                Err(words) => signaling_settings(env, made_up) == Err::<
                    SignalingModel,
                    SettingsErrorOf<Seq<char>>,
                >(SettingsErrorOf::RoomTokensJson(words)),
            }
        }),
{
}

/// Why settings are refused, in words.
pub proof fn lemma_settings_error_words(words: Seq<char>, error: IceError)
    ensures
        settings_error_words(SettingsErrorOf::RoomTokensJson(words)) == words,
        settings_error_words(SettingsErrorOf::RoomTokens)
            == "ROOM_TOKENS_JSON must contain room-specific secrets with valid names and at least 16 characters"@,
        settings_error_words(SettingsErrorOf::TokenTooShort)
            == "SIGNALING_TOKEN must contain at least 16 characters"@,
        settings_error_words(SettingsErrorOf::Ice(error)) == ice_error_words(error),
{
}

} // verus!
