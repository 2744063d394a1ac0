//! The settings of the home agent: where it signals, where it forwards
//! requests, and which paths it lets through.

use crate::address::{
    fits_url, join_path, query_pairs, read_address, url_fits, url_joined, url_parts,
    url_query_pairs, url_with_pairs, with_query_pairs, Address, AddressParts, Joined, JoinedParts,
};
use crate::ice::{
    entries_view, listed_servers, merge_rtc_configuration, merged_rtc, open_server,
    parse_ice_servers, CredentialType, IceServer, IceServerModel, IceSpec, RtcConfiguration,
    RtcModel,
};
use crate::text::{
    byte_len, byte_length, chars_of, contains_char, contains_control, contains_text,
    control_character, distinct, distinct_non_empty, is_name, list_contains, non_empty,
    number_value, occurs_in, parse_number, pieces, result_view, split, starts_with, text_equal,
    trim, trimmed, valid_name, NumberError,
};
use vstd::prelude::*;

verus! {

/// Most bytes of one data-channel frame.
pub const MAX_FRAME_BYTES: usize = 16384;

/// Most bytes of a body that one frame carries.
pub const CHUNK_BYTES: usize = 8192;

/// Most bytes of one request.
pub const MAX_REQUEST_BYTES: usize = 8388608;

/// Most requests at once.
pub const MAX_REQUESTS: usize = 4;

/// Why a request may not be forwarded.
pub enum PathErrorOf<T> {
    PathNotAllowed,
    MethodNotAllowed,
    /// The path cannot be resolved, for this reason.
    Join(T),
}

/// Why a request may not be forwarded.
pub type PathError = PathErrorOf<String>;

impl DeepView for PathErrorOf<String> {
    type V = PathErrorOf<Seq<char>>;

    open spec fn deep_view(&self) -> PathErrorOf<Seq<char>> {
        match self {
            PathErrorOf::PathNotAllowed => PathErrorOf::PathNotAllowed,
            PathErrorOf::MethodNotAllowed => PathErrorOf::MethodNotAllowed,
            PathErrorOf::Join(words) => PathErrorOf::Join(words@),
        }
    }
}

/// A path error in words.
pub open spec fn path_error_words(error: PathErrorOf<Seq<char>>) -> Seq<char> {
    match error {
        PathErrorOf::PathNotAllowed => "path not allowed"@,
        PathErrorOf::MethodNotAllowed => "method not allowed"@,
        PathErrorOf::Join(words) => words,
    }
}

impl PathErrorOf<String> {
    /// The reason in words.
    pub fn message(&self) -> (text: String)
        ensures
            text@ == path_error_words(self.deep_view()),
    {
        match self {
            PathErrorOf::PathNotAllowed => "path not allowed".to_owned(),
            PathErrorOf::MethodNotAllowed => "method not allowed".to_owned(),
            PathErrorOf::Join(words) => words.clone(),
        }
    }
}

/// The part of a path before its query.
pub open spec fn before_query(path: Seq<char>) -> Seq<char>
    decreases path.len(),
{
    if path.len() == 0 || path[0] == '?' {
        Seq::empty()
    } else {
        seq![path[0]] + before_query(path.skip(1))
    }
}

/// A path that stays on the host that it is sent to: it begins with one slash
/// and holds no backslash, fragment or control character.
pub open spec fn plain_path(path: Seq<char>) -> bool {
    &&& "/"@.is_prefix_of(path)
    &&& !"//"@.is_prefix_of(path)
    &&& !path.contains('\\')
    &&& !path.contains('#')
    &&& !exists|k: int| 0 <= k < path.len() && control_character(#[trigger] path[k])
}

/// The one method that a path is requested with.
pub open spec fn method_of(path: Seq<char>) -> Seq<char> {
    if path == "/api/tags"@ || path == "/api/version"@ || path == "/v1/models"@ {
        "GET"@
    } else {
        "POST"@
    }
}

/// What a request asks for, before its path is resolved: the path without its query.
pub open spec fn requested(
    allowed: Seq<Seq<char>>,
    method: Seq<char>,
    path: Seq<char>,
) -> Result<Seq<char>, PathErrorOf<Seq<char>>> {
    if !plain_path(path) || !allowed.contains(before_query(path)) {
        Err(PathErrorOf::PathNotAllowed)
    } else if method != method_of(before_query(path)) {
        Err(PathErrorOf::MethodNotAllowed)
    } else {
        Ok(before_query(path))
    }
}

/// The URL that a request goes to once its path is resolved.
pub open spec fn resolved(
    joined: Result<JoinedParts, Seq<char>>,
    allowed: Seq<Seq<char>>,
    raw_path: Seq<char>,
) -> Result<Seq<char>, PathErrorOf<Seq<char>>> {
    match joined {
        Ok(joined) => if joined.same_origin && joined.path == raw_path && allowed.contains(
            joined.path,
        ) {
            Ok(joined.href)
        } else {
            Err(PathErrorOf::PathNotAllowed)
        },
        Err(words) => Err(PathErrorOf::Join(words)),
    }
}

/// The URL that a request goes to.
pub open spec fn validated(
    base: Seq<char>,
    allowed: Seq<Seq<char>>,
    method: Seq<char>,
    path: Seq<char>,
) -> Result<Seq<char>, PathErrorOf<Seq<char>>> {
    match requested(allowed, method, path) {
        Ok(raw_path) => resolved(url_joined(base, path), allowed, raw_path),
        Err(error) => Err(error),
    }
}

/// Takes the part of a path before its query.
fn without_query(path: &str) -> (raw_path: String)
    ensures
        raw_path@ == before_query(path@),
{
    let chars = chars_of(path);
    let mut raw_path = String::new();
    let mut i: usize = 0;
    assert(chars@.skip(0) =~= chars@);
    assert(before_query(path@) =~= raw_path@ + before_query(chars@.skip(0)));
    while i < chars.len() && chars[i] != '?'
        invariant
            chars@ == path@,
            i <= chars@.len(),
            before_query(path@) == raw_path@ + before_query(chars@.skip(i as int)),
        decreases chars@.len() - i,
    {
        let ghost before = raw_path@;
        let ghost rest = chars@.skip(i as int);
        assert(rest.skip(1) =~= chars@.skip(i + 1));
        assert(rest[0] == chars@[i as int]);
        raw_path.push(chars[i]);
        assert(before + (seq![rest[0]] + before_query(rest.skip(1))) =~= raw_path@ + before_query(
            rest.skip(1),
        ));
        i = i + 1;
    }
    assert(before_query(chars@.skip(i as int)) =~= Seq::empty());
    assert(raw_path@ + Seq::empty() =~= raw_path@);
    raw_path
}

/// The one method that a path is requested with.
fn method_for(path: &str) -> (method: &'static str)
    ensures
        method@ == method_of(path@),
{
    if text_equal(path, "/api/tags") || text_equal(path, "/api/version") || text_equal(
        path,
        "/v1/models",
    ) {
        "GET"
    } else {
        "POST"
    }
}

/// Checks a request before its path is resolved, and gives the path without its query.
pub fn check_request(allowed: &Vec<String>, method: &str, path: &str) -> (result: Result<
    String,
    PathError,
>)
    ensures
        result_view(result) == requested(allowed.deep_view(), method@, path@),
{
    if !starts_with(path, "/") || starts_with(path, "//") || contains_char(path, '\\')
        || contains_char(path, '#') || contains_control(path) {
        return Err(PathErrorOf::PathNotAllowed);
    }
    let raw_path = without_query(path);
    if !list_contains(allowed, raw_path.as_str()) {
        return Err(PathErrorOf::PathNotAllowed);
    }
    if !text_equal(method, method_for(raw_path.as_str())) {
        return Err(PathErrorOf::MethodNotAllowed);
    }
    Ok(raw_path)
}

/// Checks the URL that a path was resolved to, and gives the URL.
pub fn check_joined(
    joined: Result<Joined, String>,
    allowed: &Vec<String>,
    raw_path: &str,
) -> (result: Result<String, PathError>)
    ensures
        result_view(result) == resolved(result_view(joined), allowed.deep_view(), raw_path@),
{
    match joined {
        Ok(joined) => if joined.same_origin && text_equal(joined.path.as_str(), raw_path)
            && list_contains(allowed, joined.path.as_str()) {
            Ok(joined.href)
        } else {
            Err(PathErrorOf::PathNotAllowed)
        },
        Err(words) => Err(PathErrorOf::Join(words)),
    }
}

/// A URL is what a path resolves to: it has no fragment, and a query only where
/// the path has one.
pub open spec fn resolves_plainly(base: Seq<char>, path: Seq<char>, url: Seq<char>) -> bool {
    &&& url_joined(base, path) matches Ok(joined)
    &&& joined.href == url
    &&& joined.fragment is None
    &&& !path.contains('?') ==> joined.query is None
}

/// Checks a request against the allowed paths, and gives the URL that it goes to.
pub fn validate_path(base: &str, allowed: &Vec<String>, method: &str, path: &str) -> (result:
    Result<String, PathError>)
    ensures
        result_view(result) == validated(base@, allowed.deep_view(), method@, path@),
        result matches Ok(url) ==> resolves_plainly(base@, path@, url@),
{
    match check_request(allowed, method, path) {
        Ok(raw_path) => {
            proof {
                reveal_strlit("/");
                assert(path@.subrange(0, 1)[0] == "/"@[0]);
            }
            check_joined(join_path(base, path), allowed, raw_path.as_str())
        },
        Err(error) => Err(error),
    }
}

/// A request that is let through goes to the host of the base, to exactly an
/// allowed path, with the one method of that path.
pub proof fn lemma_validated_stays_inside(
    base: Seq<char>,
    allowed: Seq<Seq<char>>,
    method: Seq<char>,
    path: Seq<char>,
)
    requires
        validated(base, allowed, method, path) is Ok,
    ensures
        url_joined(base, path) matches Ok(joined) && {
            &&& validated(base, allowed, method, path) == Ok::<Seq<char>, PathErrorOf<Seq<char>>>(
                joined.href,
            )
            &&& joined.same_origin
            &&& joined.path == before_query(path)
            &&& allowed.contains(joined.path)
            &&& method == method_of(joined.path)
        },
{
}

/// What the environment of the agent holds.
pub struct Environment {
    pub signaling_url: Option<String>,
    pub room_id: Option<String>,
    pub signaling_token: Option<String>,
    pub ollama_base: Option<String>,
    pub openai_base: Option<String>,
    pub openai_api_key: Option<String>,
    pub allowed_paths: Option<String>,
    /// The entries of the browser-style list, none where no list is given, each
    /// read or with the words of its error; or why it is no list.
    pub ice_servers: Result<Vec<Result<IceSpec, String>>, String>,
    pub stun_url: Option<String>,
    pub turn_url: Option<String>,
    pub turn_user: Option<String>,
    pub turn_pass: Option<String>,
    pub force_relay: Option<String>,
    pub request_timeout_secs: Option<String>,
}

/// The settings of the agent.
pub struct Config {
    /// The signaling server, with room, role and token in the query.
    pub signaling: String,
    pub rtc: RtcConfiguration,
    /// Where requests go.
    pub base: String,
    /// Where requests under `/v1/` go.
    pub openai_base: String,
    pub openai_api_key: Option<String>,
    /// The allowed paths, each once.
    pub allowed: Vec<String>,
    /// Seconds that a request may take.
    pub timeout: u64,
}

/// What a [`Config`] holds.
pub struct ConfigModel {
    pub signaling: Seq<char>,
    pub rtc: RtcModel,
    pub base: Seq<char>,
    pub openai_base: Seq<char>,
    pub openai_api_key: Option<Seq<char>>,
    pub allowed: Seq<Seq<char>>,
    pub timeout: u64,
}

impl DeepView for Config {
    type V = ConfigModel;

    open spec fn deep_view(&self) -> ConfigModel {
        ConfigModel {
            signaling: self.signaling@,
            rtc: self.rtc.deep_view(),
            base: self.base@,
            openai_base: self.openai_base@,
            openai_api_key: self.openai_api_key.deep_view(),
            allowed: self.allowed.deep_view(),
            timeout: self.timeout,
        }
    }
}

/// Why the settings of the agent are refused.
pub enum ConfigErrorOf<T> {
    SignalingUrlMissing,
    SignalingUrl(T),
    SignalingScheme,
    SignalingLogin,
    TokenMissing,
    Room,
    TokenTooShort,
    /// The URL would be longer than a URL can be.
    SignalingTooLong,
    OllamaBaseUrl(T),
    OllamaBase,
    OllamaBaseOrigin,
    OpenaiBaseUrl(T),
    OpenaiBaseOrigin,
    AllowedPaths,
    IceServers(T),
    TurnUserMissing,
    TurnPassMissing,
    IceScheme,
    IceTransport,
    IceLogin,
    Timeout(NumberError),
    TimeoutZero,
}

/// Why the settings of the agent are refused.
pub type ConfigError = ConfigErrorOf<String>;

impl DeepView for ConfigErrorOf<String> {
    type V = ConfigErrorOf<Seq<char>>;

    open spec fn deep_view(&self) -> ConfigErrorOf<Seq<char>> {
        match self {
            ConfigErrorOf::SignalingUrlMissing => ConfigErrorOf::SignalingUrlMissing,
            ConfigErrorOf::SignalingUrl(words) => ConfigErrorOf::SignalingUrl(words@),
            ConfigErrorOf::SignalingScheme => ConfigErrorOf::SignalingScheme,
            ConfigErrorOf::SignalingLogin => ConfigErrorOf::SignalingLogin,
            ConfigErrorOf::TokenMissing => ConfigErrorOf::TokenMissing,
            ConfigErrorOf::Room => ConfigErrorOf::Room,
            ConfigErrorOf::TokenTooShort => ConfigErrorOf::TokenTooShort,
            ConfigErrorOf::SignalingTooLong => ConfigErrorOf::SignalingTooLong,
            ConfigErrorOf::OllamaBaseUrl(words) => ConfigErrorOf::OllamaBaseUrl(words@),
            ConfigErrorOf::OllamaBase => ConfigErrorOf::OllamaBase,
            ConfigErrorOf::OllamaBaseOrigin => ConfigErrorOf::OllamaBaseOrigin,
            ConfigErrorOf::OpenaiBaseUrl(words) => ConfigErrorOf::OpenaiBaseUrl(words@),
            ConfigErrorOf::OpenaiBaseOrigin => ConfigErrorOf::OpenaiBaseOrigin,
            ConfigErrorOf::AllowedPaths => ConfigErrorOf::AllowedPaths,
            ConfigErrorOf::IceServers(words) => ConfigErrorOf::IceServers(words@),
            ConfigErrorOf::TurnUserMissing => ConfigErrorOf::TurnUserMissing,
            ConfigErrorOf::TurnPassMissing => ConfigErrorOf::TurnPassMissing,
            ConfigErrorOf::IceScheme => ConfigErrorOf::IceScheme,
            ConfigErrorOf::IceTransport => ConfigErrorOf::IceTransport,
            ConfigErrorOf::IceLogin => ConfigErrorOf::IceLogin,
            ConfigErrorOf::Timeout(error) => ConfigErrorOf::Timeout(*error),
            ConfigErrorOf::TimeoutZero => ConfigErrorOf::TimeoutZero,
        }
    }
}

/// A refusal in words.
pub open spec fn config_error_words(error: ConfigErrorOf<Seq<char>>) -> Seq<char> {
    match error {
        ConfigErrorOf::SignalingUrlMissing =>
            "SIGNALING_URL is required (set via env or pass as argument: ai-remote-agent <url> <token>)"@,
        ConfigErrorOf::SignalingUrl(words) => words,
        ConfigErrorOf::SignalingScheme => "SIGNALING_URL must use ws:// or wss://"@,
        ConfigErrorOf::SignalingLogin => "Use SIGNALING_TOKEN instead of URL credentials"@,
        ConfigErrorOf::TokenMissing =>
            "SIGNALING_TOKEN is required (set via env or pass as argument: ai-remote-agent <url> <token>)"@,
        ConfigErrorOf::Room => "Invalid ROOM_ID"@,
        ConfigErrorOf::TokenTooShort => "SIGNALING_TOKEN must contain at least 16 characters"@,
        ConfigErrorOf::SignalingTooLong => "SIGNALING_URL is too long"@,
        ConfigErrorOf::OllamaBaseUrl(words) => words,
        ConfigErrorOf::OllamaBase => "Invalid OLLAMA_BASE"@,
        ConfigErrorOf::OllamaBaseOrigin =>
            "OLLAMA_BASE must be an origin without path or credentials"@,
        ConfigErrorOf::OpenaiBaseUrl(words) => words,
        ConfigErrorOf::OpenaiBaseOrigin =>
            "OPENAI_BASE must be an origin without path or credentials"@,
        ConfigErrorOf::AllowedPaths => "ALLOWED_PATHS must contain exact /api/ or /v1/ paths"@,
        ConfigErrorOf::IceServers(words) => words,
        ConfigErrorOf::TurnUserMissing => "TURN_USER is required with TURN_URL"@,
        ConfigErrorOf::TurnPassMissing => "TURN_PASS is required with TURN_URL"@,
        ConfigErrorOf::IceScheme =>
            "Home Agent ICE URLs must use stun: or turn: (UDP). Configure turns: and TCP URLs in the browser."@,
        ConfigErrorOf::IceTransport =>
            "The home Agent uses UDP TURN; configure TCP/TLS TURN in the browser"@,
        ConfigErrorOf::IceLogin => "TURN requires username and credential"@,
        ConfigErrorOf::Timeout(NumberError::Empty) => "cannot parse integer from empty string"@,
        ConfigErrorOf::Timeout(NumberError::InvalidDigit) => "invalid digit found in string"@,
        ConfigErrorOf::Timeout(NumberError::TooLarge) => "number too large to fit in target type"@,
        ConfigErrorOf::TimeoutZero => "REQUEST_TIMEOUT_SECS must be positive"@,
    }
}

impl ConfigErrorOf<String> {
    /// The reason in words.
    pub fn message(&self) -> (text: String)
        ensures
            text@ == config_error_words(self.deep_view()),
    {
        match self {
            ConfigErrorOf::SignalingUrlMissing =>
                "SIGNALING_URL is required (set via env or pass as argument: ai-remote-agent <url> <token>)".to_owned(),
            ConfigErrorOf::SignalingUrl(words) => words.clone(),
            ConfigErrorOf::SignalingScheme => "SIGNALING_URL must use ws:// or wss://".to_owned(),
            ConfigErrorOf::SignalingLogin =>
                "Use SIGNALING_TOKEN instead of URL credentials".to_owned(),
            ConfigErrorOf::TokenMissing =>
                "SIGNALING_TOKEN is required (set via env or pass as argument: ai-remote-agent <url> <token>)".to_owned(),
            ConfigErrorOf::Room => "Invalid ROOM_ID".to_owned(),
            ConfigErrorOf::TokenTooShort =>
                "SIGNALING_TOKEN must contain at least 16 characters".to_owned(),
            ConfigErrorOf::SignalingTooLong => "SIGNALING_URL is too long".to_owned(),
            ConfigErrorOf::OllamaBaseUrl(words) => words.clone(),
            ConfigErrorOf::OllamaBase => "Invalid OLLAMA_BASE".to_owned(),
            ConfigErrorOf::OllamaBaseOrigin =>
                "OLLAMA_BASE must be an origin without path or credentials".to_owned(),
            ConfigErrorOf::OpenaiBaseUrl(words) => words.clone(),
            ConfigErrorOf::OpenaiBaseOrigin =>
                "OPENAI_BASE must be an origin without path or credentials".to_owned(),
            ConfigErrorOf::AllowedPaths =>
                "ALLOWED_PATHS must contain exact /api/ or /v1/ paths".to_owned(),
            ConfigErrorOf::IceServers(words) => words.clone(),
            ConfigErrorOf::TurnUserMissing => "TURN_USER is required with TURN_URL".to_owned(),
            ConfigErrorOf::TurnPassMissing => "TURN_PASS is required with TURN_URL".to_owned(),
            ConfigErrorOf::IceScheme =>
                "Home Agent ICE URLs must use stun: or turn: (UDP). Configure turns: and TCP URLs in the browser.".to_owned(),
            ConfigErrorOf::IceTransport =>
                "The home Agent uses UDP TURN; configure TCP/TLS TURN in the browser".to_owned(),
            ConfigErrorOf::IceLogin => "TURN requires username and credential".to_owned(),
            ConfigErrorOf::Timeout(error) => error.message().to_owned(),
            ConfigErrorOf::TimeoutZero => "REQUEST_TIMEOUT_SECS must be positive".to_owned(),
        }
    }
}

/// What the command line says.
pub struct CommandLineOf<T> {
    pub url: Option<T>,
    pub token: Option<T>,
    pub room: Option<T>,
}

/// What the command line says.
pub type CommandLine = CommandLineOf<String>;

impl DeepView for CommandLineOf<String> {
    type V = CommandLineOf<Seq<char>>;

    open spec fn deep_view(&self) -> CommandLineOf<Seq<char>> {
        CommandLineOf {
            url: self.url.deep_view(),
            token: self.token.deep_view(),
            room: self.room.deep_view(),
        }
    }
}

/// What the command line says, from argument `i` on: options with their value,
/// and in the order of URL, token and room what stands alone and is not given
/// yet. Anything else is passed over.
pub open spec fn command_line_from(
    args: Seq<Seq<char>>,
    i: int,
    found: CommandLineOf<Seq<char>>,
) -> CommandLineOf<Seq<char>>
    decreases args.len() - i,
{
    if i >= args.len() {
        found
    } else {
        let has_value = i + 1 < args.len();
        let alone = !"-"@.is_prefix_of(args[i]);
        if (args[i] == "--url"@ || args[i] == "-u"@) && has_value {
            command_line_from(args, i + 2, CommandLineOf { url: Some(args[i + 1]), ..found })
        } else if (args[i] == "--token"@ || args[i] == "-t"@) && has_value {
            command_line_from(args, i + 2, CommandLineOf { token: Some(args[i + 1]), ..found })
        } else if (args[i] == "--room"@ || args[i] == "-r"@) && has_value {
            command_line_from(args, i + 2, CommandLineOf { room: Some(args[i + 1]), ..found })
        } else if alone && found.url is None {
            command_line_from(args, i + 1, CommandLineOf { url: Some(args[i]), ..found })
        } else if alone && found.token is None {
            command_line_from(args, i + 1, CommandLineOf { token: Some(args[i]), ..found })
        } else if alone && found.room is None {
            command_line_from(args, i + 1, CommandLineOf { room: Some(args[i]), ..found })
        } else {
            command_line_from(args, i + 1, found)
        }
    }
}

/// What the command line says; the first argument is the program.
pub open spec fn command_line(args: Seq<Seq<char>>) -> CommandLineOf<Seq<char>> {
    command_line_from(args, 1, CommandLineOf { url: None, token: None, room: None })
}

/// Reads the command line.
pub fn read_command_line(args: &Vec<String>) -> (found: CommandLine)
    ensures
        found.deep_view() == command_line(args.deep_view()),
{
    let ghost all = args.deep_view();
    let mut found: CommandLine = CommandLineOf { url: None, token: None, room: None };
    let mut i: usize = 1;
    let total: usize = args.len();
    while i < total
        invariant
            total == args@.len(),
            all == args.deep_view(),
            1 <= i,
            command_line_from(all, i as int, found.deep_view()) == command_line(all),
        decreases total - i,
    {
        let arg = args[i].as_str();
        let has_value = total - i > 1;
        let alone = !starts_with(arg, "-");
        assert(all[i as int] == arg@);
        if (text_equal(arg, "--url") || text_equal(arg, "-u")) && has_value {
            found.url = Some(args[i + 1].clone());
            i = i + 2;
        } else if (text_equal(arg, "--token") || text_equal(arg, "-t")) && has_value {
            found.token = Some(args[i + 1].clone());
            i = i + 2;
        } else if (text_equal(arg, "--room") || text_equal(arg, "-r")) && has_value {
            found.room = Some(args[i + 1].clone());
            i = i + 2;
        } else if alone && found.url.is_none() {
            found.url = Some(arg.to_owned());
            i = i + 1;
        } else if alone && found.token.is_none() {
            found.token = Some(arg.to_owned());
            i = i + 1;
        } else if alone && found.room.is_none() {
            found.room = Some(arg.to_owned());
            i = i + 1;
        } else {
            i = i + 1;
        }
    }
    found
}

/// A value that comes from the command line, else from the environment.
pub open spec fn either(
    given: Option<Seq<char>>,
    fallback: Option<Seq<char>>,
) -> Option<Seq<char>> {
    if given is Some {
        given
    } else {
        fallback
    }
}

/// A value, or what stands for it where it is absent.
pub open spec fn value_or(value: Option<Seq<char>>, fallback: Seq<char>) -> Seq<char> {
    match value {
        Some(value) => value,
        None => fallback,
    }
}

/// The query pairs that the agent does not set itself.
pub open spec fn other_pairs(pairs: Seq<(Seq<char>, Seq<char>)>) -> Seq<(Seq<char>, Seq<char>)>
    decreases pairs.len(),
{
    if pairs.len() == 0 {
        Seq::empty()
    } else {
        let before = other_pairs(pairs.drop_last());
        let name = pairs.last().0;
        if name == "room"@ || name == "role"@ || name == "token"@ {
            before
        } else {
            before.push(pairs.last())
        }
    }
}

/// The query of the signaling URL: what it had, then room, role and token.
pub open spec fn signaling_pairs(
    pairs: Seq<(Seq<char>, Seq<char>)>,
    room: Seq<char>,
    token: Seq<char>,
) -> Seq<(Seq<char>, Seq<char>)> {
    other_pairs(pairs).push(("room"@, room)).push(("role"@, "home"@)).push(("token"@, token))
}

/// The parts of a URL that the agent can signal to.
pub open spec fn signaling_checked(
    parts: AddressParts,
    room: Seq<char>,
    token: Option<Seq<char>>,
) -> Result<Seq<char>, ConfigErrorOf<Seq<char>>> {
    if parts.scheme != "ws"@ && parts.scheme != "wss"@ {
        Err(ConfigErrorOf::SignalingScheme)
    } else if parts.username.len() > 0 || parts.password is Some {
        Err(ConfigErrorOf::SignalingLogin)
    } else {
        match token {
            None => Err(ConfigErrorOf::TokenMissing),
            Some(token) => if !valid_name(room) {
                Err(ConfigErrorOf::Room)
            } else if byte_length(token) < 16 {
                Err(ConfigErrorOf::TokenTooShort)
            } else {
                Ok(token)
            },
        }
    }
}

/// The signaling URL with room, role and token.
pub open spec fn signaling_url(
    raw: Option<Seq<char>>,
    room: Seq<char>,
    token: Option<Seq<char>>,
) -> Result<Seq<char>, ConfigErrorOf<Seq<char>>> {
    match raw {
        None => Err(ConfigErrorOf::SignalingUrlMissing),
        Some(raw) => match url_parts(raw) {
            Err(words) => Err(ConfigErrorOf::SignalingUrl(words)),
            Ok(parts) => match signaling_checked(parts, room, token) {
                Err(error) => Err(error),
                Ok(token) => match url_query_pairs(raw) {
                    Err(words) => Err(ConfigErrorOf::SignalingUrl(words)),
                    Ok(pairs) => {
                        let wanted = signaling_pairs(pairs, room, token);
                        if !url_fits(parts, wanted) {
                            Err(ConfigErrorOf::SignalingTooLong)
                        } else {
                            match url_with_pairs(raw, wanted) {
                                Ok(url) => Ok(url),
                                Err(words) => Err(ConfigErrorOf::SignalingUrl(words)),
                            }
                        }
                    },
                },
            },
        },
    }
}

/// Checks the parts of the signaling URL, the room and the token, and gives the token.
pub fn check_signaling(parts: &Address, room: &str, token: Option<String>) -> (result: Result<
    String,
    ConfigError,
>)
    ensures
        result_view(result) == signaling_checked(parts.deep_view(), room@, token.deep_view()),
{
    if !text_equal(parts.scheme.as_str(), "ws") && !text_equal(parts.scheme.as_str(), "wss") {
        return Err(ConfigErrorOf::SignalingScheme);
    }
    if !parts.username.as_str().is_empty() || parts.password.is_some() {
        return Err(ConfigErrorOf::SignalingLogin);
    }
    match token {
        None => Err(ConfigErrorOf::TokenMissing),
        Some(token) => if !is_name(room) {
            Err(ConfigErrorOf::Room)
        } else if byte_len(token.as_str()) < 16 {
            Err(ConfigErrorOf::TokenTooShort)
        } else {
            Ok(token)
        },
    }
}

/// The pairs that go into the query of the signaling URL.
pub fn collect_pairs(pairs: &Vec<(String, String)>, room: &str, token: &str) -> (wanted: Vec<
    (String, String),
>)
    ensures
        wanted.deep_view() == signaling_pairs(pairs.deep_view(), room@, token@),
{
    let ghost all = pairs.deep_view();
    let mut wanted: Vec<(String, String)> = Vec::new();
    assert(wanted.deep_view() =~= Seq::<(Seq<char>, Seq<char>)>::empty());
    for i in 0..pairs.len()
        invariant
            all == pairs.deep_view(),
            wanted.deep_view() == other_pairs(all.take(i as int)),
    {
        let ghost before = wanted.deep_view();
        assert(all.take(i + 1).drop_last() =~= all.take(i as int));
        let name = pairs[i].0.as_str();
        if !text_equal(name, "room") && !text_equal(name, "role") && !text_equal(name, "token") {
            wanted.push((pairs[i].0.clone(), pairs[i].1.clone()));
            assert(wanted.deep_view() =~= before.push(all[i as int]));
        }
    }
    assert(all.take(all.len() as int) =~= all);
    let ghost kept = wanted.deep_view();
    wanted.push(("room".to_owned(), room.to_owned()));
    wanted.push(("role".to_owned(), "home".to_owned()));
    wanted.push(("token".to_owned(), token.to_owned()));
    assert(wanted.deep_view() =~= kept.push(("room"@, room@)).push(("role"@, "home"@)).push(
        ("token"@, token@),
    ));
    wanted
}

/// The signaling URL carries its room, role and token, and otherwise the query
/// that it was given; the rest of it is as it was given.
pub open spec fn signals_as_home(
    url: Seq<char>,
    raw: Seq<char>,
    room: Seq<char>,
    token: Seq<char>,
) -> bool {
    &&& url_query_pairs(raw) matches Ok(pairs) && url_query_pairs(url) == Ok::<
        Seq<(Seq<char>, Seq<char>)>,
        Seq<char>,
    >(signaling_pairs(pairs, room, token))
    &&& url_parts(raw) matches Ok(given) && url_parts(url) matches Ok(parts) && parts
        == AddressParts { href: url, query: parts.query, ..given }
}

/// Builds the signaling URL with room, role and token.
pub fn build_signaling(raw: Option<String>, room: &str, token: Option<String>) -> (result: Result<
    String,
    ConfigError,
>)
    ensures
        result_view(result) == signaling_url(raw.deep_view(), room@, token.deep_view()),
        result matches Ok(url) ==> raw is Some && token is Some && signals_as_home(
            url@,
            raw->0@,
            room@,
            token->0@,
        ),
{
    match raw {
        None => Err(ConfigErrorOf::SignalingUrlMissing),
        Some(raw) => match read_address(raw.as_str()) {
            Err(words) => Err(ConfigErrorOf::SignalingUrl(words)),
            Ok(parts) => match check_signaling(&parts, room, token) {
                Err(error) => Err(error),
                Ok(token) => match query_pairs(raw.as_str()) {
                    Err(words) => Err(ConfigErrorOf::SignalingUrl(words)),
                    Ok(pairs) => {
                        let wanted = collect_pairs(&pairs, room, token.as_str());
                        if !fits_url(&parts, &wanted) {
                            return Err(ConfigErrorOf::SignalingTooLong);
                        }
                        match with_query_pairs(raw.as_str(), &wanted) {
                            Ok(url) => Ok(url),
                            Err(words) => Err(ConfigErrorOf::SignalingUrl(words)),
                        }
                    },
                },
            },
        },
    }
}

/// A URL that requests can be sent to.
pub open spec fn web_address(parts: AddressParts) -> bool {
    (parts.scheme == "http"@ || parts.scheme == "https"@) && parts.host is Some
}

/// A URL that is an origin: without path, query, fragment or login.
pub open spec fn origin_only(parts: AddressParts) -> bool {
    parts.path == "/"@ && parts.query is None && parts.fragment is None && parts.username.len() == 0
        && parts.password is None
}

/// Where requests go.
pub open spec fn ollama_base(text: Seq<char>) -> Result<Seq<char>, ConfigErrorOf<Seq<char>>> {
    match url_parts(text) {
        Err(words) => Err(ConfigErrorOf::OllamaBaseUrl(words)),
        Ok(parts) => if !web_address(parts) {
            Err(ConfigErrorOf::OllamaBase)
        } else if !origin_only(parts) {
            Err(ConfigErrorOf::OllamaBaseOrigin)
        } else {
            Ok(parts.href)
        },
    }
}

/// Where requests under `/v1/` go.
pub open spec fn openai_base(text: Seq<char>) -> Result<Seq<char>, ConfigErrorOf<Seq<char>>> {
    match url_parts(text) {
        Err(words) => Err(ConfigErrorOf::OpenaiBaseUrl(words)),
        Ok(parts) => if web_address(parts) && origin_only(parts) {
            Ok(parts.href)
        } else {
            Err(ConfigErrorOf::OpenaiBaseOrigin)
        },
    }
}

/// Whether requests can be sent to a URL.
pub fn is_web_address(parts: &Address) -> (valid: bool)
    ensures
        valid == web_address(parts.deep_view()),
{
    (text_equal(parts.scheme.as_str(), "http") || text_equal(parts.scheme.as_str(), "https"))
        && parts.host.is_some()
}

/// Whether a URL is an origin and nothing more.
pub fn is_origin_only(parts: &Address) -> (valid: bool)
    ensures
        valid == origin_only(parts.deep_view()),
{
    text_equal(parts.path.as_str(), "/") && parts.query.is_none() && parts.fragment.is_none()
        && parts.username.as_str().is_empty() && parts.password.is_none()
}

/// Reads where requests go.
fn read_ollama_base(text: &str) -> (result: Result<String, ConfigError>)
    ensures
        result_view(result) == ollama_base(text@),
{
    match read_address(text) {
        Err(words) => Err(ConfigErrorOf::OllamaBaseUrl(words)),
        Ok(parts) => if !is_web_address(&parts) {
            Err(ConfigErrorOf::OllamaBase)
        } else if !is_origin_only(&parts) {
            Err(ConfigErrorOf::OllamaBaseOrigin)
        } else {
            Ok(parts.href)
        },
    }
}

/// Reads where requests under `/v1/` go.
fn read_openai_base(text: &str) -> (result: Result<String, ConfigError>)
    ensures
        result_view(result) == openai_base(text@),
{
    match read_address(text) {
        Err(words) => Err(ConfigErrorOf::OpenaiBaseUrl(words)),
        Ok(parts) => if is_web_address(&parts) && is_origin_only(&parts) {
            Ok(parts.href)
        } else {
            Err(ConfigErrorOf::OpenaiBaseOrigin)
        },
    }
}

/// A path that may be allowed: under `/api/` or `/v1/`, spelled out.
pub open spec fn allowable(path: Seq<char>) -> bool {
    &&& "/api/"@.is_prefix_of(path) || "/v1/"@.is_prefix_of(path)
    &&& !path.contains('?')
    &&& !path.contains('#')
    &&& !path.contains('%')
    &&& !path.contains('\\')
    &&& !occurs_in(".."@, path)
}

/// The paths of a comma-separated list, each once.
pub open spec fn listed_paths(text: Seq<char>) -> Seq<Seq<char>> {
    distinct(non_empty(pieces(text, false).map_values(|piece: Seq<char>| trimmed(piece))))
}

/// The allowed paths of a comma-separated list.
pub open spec fn allowed_paths(text: Seq<char>) -> Result<
    Seq<Seq<char>>,
    ConfigErrorOf<Seq<char>>,
> {
    let paths = listed_paths(text);
    if paths.len() > 0 && forall|i: int| 0 <= i < paths.len() ==> allowable(#[trigger] paths[i]) {
        Ok(paths)
    } else {
        Err(ConfigErrorOf::AllowedPaths)
    }
}

/// Whether a path may be allowed.
pub fn is_allowable(path: &str) -> (valid: bool)
    ensures
        valid == allowable(path@),
{
    (starts_with(path, "/api/") || starts_with(path, "/v1/")) && !contains_char(path, '?')
        && !contains_char(path, '#') && !contains_char(path, '%') && !contains_char(path, '\\')
        && !contains_text(path, "..")
}

/// Reads the allowed paths.
pub fn read_allowed_paths(text: &str) -> (result: Result<Vec<String>, ConfigError>)
    ensures
        result_view(result) == allowed_paths(text@),
{
    let parts = split(text, false);
    let ghost all = parts.deep_view();
    let mut cut: Vec<String> = Vec::new();
    for i in 0..parts.len()
        invariant
            all == parts.deep_view(),
            cut.deep_view() =~= all.map_values(|piece: Seq<char>| trimmed(piece)).take(i as int),
    {
        let ghost before = cut.deep_view();
        let piece = trim(parts[i].as_str());
        let ghost model = piece@;
        cut.push(piece);
        assert(cut.deep_view() =~= before.push(model));
        assert(model == trimmed(all[i as int]));
    }
    assert(cut.deep_view() =~= all.map_values(|piece: Seq<char>| trimmed(piece)));
    let paths = distinct_non_empty(cut);
    if paths.len() == 0 {
        return Err(ConfigErrorOf::AllowedPaths);
    }
    for i in 0..paths.len()
        invariant
            paths.deep_view() == listed_paths(text@),
            forall|k: int| 0 <= k < i ==> allowable(#[trigger] paths.deep_view()[k]),
    {
        if !is_allowable(paths[i].as_str()) {
            assert(!allowable(paths.deep_view()[i as int]));
            return Err(ConfigErrorOf::AllowedPaths);
        }
    }
    Ok(paths)
}

/// What is wrong with an address that the agent is given.
pub open spec fn url_fault(server: IceServerModel, url: Seq<char>) -> Option<
    ConfigErrorOf<Seq<char>>,
> {
    if !"stun:"@.is_prefix_of(url) && !"turn:"@.is_prefix_of(url) {
        Some(ConfigErrorOf::IceScheme)
    } else if occurs_in("transport=tcp"@, url) {
        Some(ConfigErrorOf::IceTransport)
    } else if "turn:"@.is_prefix_of(url) && (server.username.len() == 0 || server.credential.len()
        == 0) {
        Some(ConfigErrorOf::IceLogin)
    } else {
        None
    }
}

/// What is first wrong with the addresses of a server.
pub open spec fn urls_fault(server: IceServerModel, urls: Seq<Seq<char>>) -> Option<
    ConfigErrorOf<Seq<char>>,
>
    decreases urls.len(),
{
    if urls.len() == 0 {
        None
    } else {
        match urls_fault(server, urls.drop_last()) {
            Some(error) => Some(error),
            None => url_fault(server, urls.last()),
        }
    }
}

/// What is first wrong with a list of servers.
pub open spec fn servers_fault(servers: Seq<IceServerModel>) -> Option<ConfigErrorOf<Seq<char>>>
    decreases servers.len(),
{
    if servers.len() == 0 {
        None
    } else {
        match servers_fault(servers.drop_last()) {
            Some(error) => Some(error),
            None => urls_fault(servers.last(), servers.last().urls),
        }
    }
}

/// The ICE servers that the environment gives the agent: the browser-style
/// list, then a STUN server, then a TURN server with its login.
pub open spec fn local_servers(env: Environment) -> Result<
    Seq<IceServerModel>,
    ConfigErrorOf<Seq<char>>,
> {
    let listed = match env.ice_servers {
        Err(words) => Err(words@),
        Ok(entries) => listed_servers(entries_view(entries@)),
    };
    match listed {
        Err(words) => Err(ConfigErrorOf::IceServers(words)),
        Ok(listed) => {
            let with_stun = match env.stun_url.deep_view() {
                Some(url) => if url.len() > 0 {
                    listed.push(open_server(seq![url]))
                } else {
                    listed
                },
                None => listed,
            };
            let servers = match env.turn_url.deep_view() {
                Some(url) => if url.len() == 0 {
                    Ok(with_stun)
                } else if env.turn_user is None {
                    Err(ConfigErrorOf::TurnUserMissing)
                } else if env.turn_pass is None {
                    Err(ConfigErrorOf::TurnPassMissing)
                } else {
                    Ok(
                        with_stun.push(
                            IceServerModel {
                                urls: seq![url],
                                username: env.turn_user->0@,
                                credential: env.turn_pass->0@,
                                credential_type: CredentialType::Password,
                            },
                        ),
                    )
                },
                None => Ok(with_stun),
            };
            match servers {
                Err(error) => Err(error),
                Ok(servers) => match servers_fault(servers) {
                    Some(error) => Err(error),
                    None => Ok(servers),
                },
            }
        },
    }
}

/// What is wrong with some of the addresses is wrong with all.
proof fn lemma_urls_fault_prefix(server: IceServerModel, urls: Seq<Seq<char>>, n: int)
    requires
        0 <= n <= urls.len(),
        urls_fault(server, urls.take(n)) is Some,
    ensures
        urls_fault(server, urls) == urls_fault(server, urls.take(n)),
    decreases urls.len(),
{
    if n < urls.len() {
        assert(urls.drop_last().take(n) =~= urls.take(n));
        lemma_urls_fault_prefix(server, urls.drop_last(), n);
    } else {
        assert(urls.take(n) =~= urls);
    }
}

/// What is wrong with some of the servers is wrong with all.
proof fn lemma_servers_fault_prefix(servers: Seq<IceServerModel>, n: int)
    requires
        0 <= n <= servers.len(),
        servers_fault(servers.take(n)) is Some,
    ensures
        servers_fault(servers) == servers_fault(servers.take(n)),
    decreases servers.len(),
{
    if n < servers.len() {
        assert(servers.drop_last().take(n) =~= servers.take(n));
        lemma_servers_fault_prefix(servers.drop_last(), n);
    } else {
        assert(servers.take(n) =~= servers);
    }
}

/// Checks the addresses of a server.
fn check_urls(server: &IceServer) -> (result: Result<(), ConfigError>)
    ensures
        match result {
            Ok(_) => urls_fault(server.deep_view(), server.urls.deep_view()) is None,
            Err(error) => urls_fault(server.deep_view(), server.urls.deep_view()) == Some(
                error.deep_view(),
            ),
        },
{
    let ghost model = server.deep_view();
    let ghost all = server.urls.deep_view();
    for i in 0..server.urls.len()
        invariant
            model == server.deep_view(),
            all == server.urls.deep_view(),
            urls_fault(model, all.take(i as int)) is None,
    {
        proof {
            assert(all.take(i + 1).drop_last() =~= all.take(i as int));
            if urls_fault(model, all.take(i + 1)) is Some {
                lemma_urls_fault_prefix(model, all, i + 1);
            }
        }
        let url = server.urls[i].as_str();
        if !starts_with(url, "stun:") && !starts_with(url, "turn:") {
            return Err(ConfigErrorOf::IceScheme);
        }
        if contains_text(url, "transport=tcp") {
            return Err(ConfigErrorOf::IceTransport);
        }
        if starts_with(url, "turn:") && (server.username.as_str().is_empty()
            || server.credential.as_str().is_empty()) {
            return Err(ConfigErrorOf::IceLogin);
        }
    }
    assert(all.take(all.len() as int) =~= all);
    Ok(())
}

/// Checks the addresses of all servers.
pub fn check_servers(servers: &Vec<IceServer>) -> (result: Result<(), ConfigError>)
    ensures
        match result {
            Ok(_) => servers_fault(servers.deep_view()) is None,
            Err(error) => servers_fault(servers.deep_view()) == Some(error.deep_view()),
        },
{
    let ghost all = servers.deep_view();
    for i in 0..servers.len()
        invariant
            all == servers.deep_view(),
            servers_fault(all.take(i as int)) is None,
    {
        proof {
            assert(all.take(i + 1).drop_last() =~= all.take(i as int));
            if servers_fault(all.take(i + 1)) is Some {
                lemma_servers_fault_prefix(all, i + 1);
            }
        }
        match check_urls(&servers[i]) {
            Ok(_) => {},
            Err(error) => return Err(error),
        }
    }
    assert(all.take(all.len() as int) =~= all);
    Ok(())
}

/// A list of one text.
fn one(text: String) -> (texts: Vec<String>)
    ensures
        texts.deep_view() == seq![text@],
{
    let ghost model = text@;
    let mut texts: Vec<String> = Vec::new();
    texts.push(text);
    assert(texts.deep_view() =~= seq![model]);
    texts
}

/// Builds the ICE servers that the environment gives the agent.
fn read_local_servers(env: Environment) -> (result: Result<Vec<IceServer>, ConfigError>)
    ensures
        result_view(result) == local_servers(env),
{
    let mut servers = match env.ice_servers {
        Err(words) => return Err(ConfigErrorOf::IceServers(words)),
        Ok(entries) => match parse_ice_servers(entries) {
            Err(words) => return Err(ConfigErrorOf::IceServers(words)),
            Ok(servers) => servers,
        },
    };
    if let Some(url) = env.stun_url {
        if !url.as_str().is_empty() {
            let ghost before = servers.deep_view();
            let ghost model = url@;
            servers.push(IceServer::open(one(url)));
            assert(servers.deep_view() =~= before.push(open_server(seq![model])));
        }
    }
    if let Some(url) = env.turn_url {
        if !url.as_str().is_empty() {
            let ghost before = servers.deep_view();
            let ghost model = url@;
            match (env.turn_user, env.turn_pass) {
                (None, _) => return Err(ConfigErrorOf::TurnUserMissing),
                (_, None) => return Err(ConfigErrorOf::TurnPassMissing),
                (Some(username), Some(credential)) => {
                    let ghost server = IceServerModel {
                        urls: seq![model],
                        username: username@,
                        credential: credential@,
                        credential_type: CredentialType::Password,
                    };
                    servers.push(
                        IceServer {
                            urls: one(url),
                            username,
                            credential,
                            credential_type: CredentialType::Password,
                        },
                    );
                    assert(servers.deep_view() =~= before.push(server));
                },
            }
        }
    }
    match check_servers(&servers) {
        Ok(_) => Ok(servers),
        Err(error) => Err(error),
    }
}

/// The seconds that a request may take.
pub open spec fn request_timeout(text: Seq<char>) -> Result<u64, ConfigErrorOf<Seq<char>>> {
    match number_value(text, u64::MAX) {
        Err(error) => Err(ConfigErrorOf::Timeout(error)),
        Ok(seconds) => if seconds == 0 {
            Err(ConfigErrorOf::TimeoutZero)
        } else {
            Ok(seconds)
        },
    }
}

/// Reads the seconds that a request may take.
pub fn read_request_timeout(text: &str) -> (result: Result<u64, ConfigError>)
    ensures
        match result {
            Ok(seconds) => request_timeout(text@) == Ok::<u64, ConfigErrorOf<Seq<char>>>(seconds),
            Err(error) => request_timeout(text@) == Err::<u64, ConfigErrorOf<Seq<char>>>(
                error.deep_view(),
            ),
        },
{
    match parse_number(text, u64::MAX) {
        Err(error) => Err(ConfigErrorOf::Timeout(error)),
        Ok(seconds) => if seconds == 0 {
            Err(ConfigErrorOf::TimeoutZero)
        } else {
            Ok(seconds)
        },
    }
}

/// The settings that the command line and the environment describe, or what is
/// first wrong with them.
pub open spec fn configured(args: Seq<Seq<char>>, env: Environment) -> Result<
    ConfigModel,
    ConfigErrorOf<Seq<char>>,
> {
    let cli = command_line(args);
    let raw = either(cli.url, env.signaling_url.deep_view());
    let room = value_or(either(cli.room, env.room_id.deep_view()), "default"@);
    let token = either(cli.token, env.signaling_token.deep_view());
    match signaling_url(raw, room, token) {
        Err(error) => Err(error),
        Ok(signaling) => match ollama_base(
            value_or(env.ollama_base.deep_view(), "http://127.0.0.1:11434"@),
        ) {
            Err(error) => Err(error),
            Ok(base) => match openai_base(value_or(env.openai_base.deep_view(), base)) {
                Err(error) => Err(error),
                Ok(openai) => match allowed_paths(
                    value_or(env.allowed_paths.deep_view(), "/api/generate,/api/chat,/api/tags"@),
                ) {
                    Err(error) => Err(error),
                    Ok(allowed) => match local_servers(env) {
                        Err(error) => Err(error),
                        Ok(ice_servers) => match request_timeout(
                            value_or(env.request_timeout_secs.deep_view(), "600"@),
                        ) {
                            Err(error) => Err(error),
                            Ok(timeout) => Ok(
                                ConfigModel {
                                    signaling,
                                    rtc: RtcModel {
                                        ice_servers,
                                        relay: env.force_relay.deep_view() == Some("true"@)
                                            || env.force_relay.deep_view() == Some("1"@),
                                    },
                                    base,
                                    openai_base: openai,
                                    openai_api_key: match env.openai_api_key.deep_view() {
                                        Some(key) => if key.len() > 0 {
                                            Some(key)
                                        } else {
                                            None
                                        },
                                        None => None,
                                    },
                                    allowed,
                                    timeout,
                                },
                            ),
                        },
                    },
                },
            },
        },
    }
}

/// The value that the command line gives, else that of the environment.
fn choose_value(given: Option<String>, fallback: &Option<String>) -> (value: Option<String>)
    ensures
        value.deep_view() == either(given.deep_view(), fallback.deep_view()),
{
    match given {
        Some(value) => Some(value),
        None => match fallback {
            Some(value) => Some(value.clone()),
            None => None,
        },
    }
}

/// A value, or what stands for it where it is absent.
fn value_or_default(value: &Option<String>, fallback: &str) -> (text: String)
    ensures
        text@ == value_or(value.deep_view(), fallback@),
{
    match value {
        Some(value) => value.clone(),
        None => fallback.to_owned(),
    }
}

impl Config {
    /// Reads the settings from the command line and the environment.
    pub fn from_env(args: &Vec<String>, env: Environment) -> (result: Result<Config, ConfigError>)
        ensures
            result_view(result) == configured(args.deep_view(), env),
            result matches Ok(config) ==> {
                let cli = command_line(args.deep_view());
                let raw = either(cli.url, env.signaling_url.deep_view());
                let room = value_or(either(cli.room, env.room_id.deep_view()), "default"@);
                let token = either(cli.token, env.signaling_token.deep_view());
                raw is Some && token is Some && signals_as_home(
                    config.signaling@,
                    raw->0,
                    room,
                    token->0,
                )
            },
    {
        let cli = read_command_line(args);
        let raw = choose_value(cli.url, &env.signaling_url);
        let room = value_or_default(&choose_value(cli.room, &env.room_id), "default");
        let token = choose_value(cli.token, &env.signaling_token);
        let signaling = match build_signaling(raw, room.as_str(), token) {
            Ok(signaling) => signaling,
            Err(error) => return Err(error),
        };
        let base_text = value_or_default(&env.ollama_base, "http://127.0.0.1:11434");
        let base = match read_ollama_base(base_text.as_str()) {
            Ok(base) => base,
            Err(error) => return Err(error),
        };
        let openai_text = value_or_default(&env.openai_base, base.as_str());
        let openai_base = match read_openai_base(openai_text.as_str()) {
            Ok(base) => base,
            Err(error) => return Err(error),
        };
        let allowed_text = value_or_default(
            &env.allowed_paths,
            "/api/generate,/api/chat,/api/tags",
        );
        let allowed = match read_allowed_paths(allowed_text.as_str()) {
            Ok(allowed) => allowed,
            Err(error) => return Err(error),
        };
        let openai_api_key = match &env.openai_api_key {
            Some(key) if !key.as_str().is_empty() => Some(key.clone()),
            _ => None,
        };
        let relay = match &env.force_relay {
            Some(value) => text_equal(value.as_str(), "true") || text_equal(value.as_str(), "1"),
            None => false,
        };
        let timeout_text = value_or_default(&env.request_timeout_secs, "600");
        let ice_servers = match read_local_servers(env) {
            Ok(servers) => servers,
            Err(error) => return Err(error),
        };
        let timeout: u64 = match read_request_timeout(timeout_text.as_str()) {
            Ok(timeout) => timeout,
            Err(error) => return Err(error),
        };
        Ok(
            Config {
                signaling,
                rtc: RtcConfiguration { ice_servers, relay },
                base,
                openai_base,
                openai_api_key,
                allowed,
                timeout,
            },
        )
    }

    /// The URL that a request goes to.
    pub fn request_url(&self, method: &str, path: &str) -> (result: Result<String, PathError>)
        ensures
            result_view(result) == request_target(self.deep_view(), method@, path@),
            result matches Ok(url) ==> resolves_plainly(
                base_for(self.deep_view(), path@),
                path@,
                url@,
            ),
    {
        let base = if starts_with(path, "/v1/") {
            self.openai_base.as_str()
        } else {
            self.base.as_str()
        };
        validate_path(base, &self.allowed, method, path)
    }

    /// The ICE settings of a connection, with the servers that were signaled.
    pub fn rtc_configuration(&self, signaled: &Vec<IceServer>) -> (rtc: RtcConfiguration)
        ensures
            rtc.deep_view() == merged_rtc(self.rtc.deep_view(), signaled.deep_view()),
    {
        merge_rtc_configuration(&self.rtc, signaled)
    }
}

/// Where a request with this path goes.
pub open spec fn base_for(config: ConfigModel, path: Seq<char>) -> Seq<char> {
    if "/v1/"@.is_prefix_of(path) {
        config.openai_base
    } else {
        config.base
    }
}

/// The URL that a request goes to.
pub open spec fn request_target(config: ConfigModel, method: Seq<char>, path: Seq<char>) -> Result<
    Seq<char>,
    PathErrorOf<Seq<char>>,
> {
    validated(base_for(config, path), config.allowed, method, path)
}

/// Accepted settings allow at least one path, each once and each under `/api/`
/// or `/v1/`; they give ICE servers that the agent can use over UDP, and a
/// request time.
pub proof fn lemma_configured_valid(args: Seq<Seq<char>>, env: Environment)
    requires
        configured(args, env) is Ok,
    ensures
        configured(args, env) matches Ok(config) && {
            &&& config.allowed.len() > 0
            &&& config.allowed.no_duplicates()
            &&& forall|i: int|
                0 <= i < config.allowed.len() ==> allowable(#[trigger] config.allowed[i])
            &&& servers_fault(config.rtc.ice_servers) is None
            &&& config.timeout > 0
        },
{
    let text = value_or(env.allowed_paths.deep_view(), "/api/generate,/api/chat,/api/tags"@);
    crate::text::lemma_distinct(
        non_empty(pieces(text, false).map_values(|piece: Seq<char>| trimmed(piece))),
    );
}

/// A path is what stands before its first question mark: where a path holds none
/// it is the whole, and whatever follows one is left out.
pub proof fn lemma_before_query(path: Seq<char>, query: Seq<char>)
    requires
        !path.contains('?'),
    ensures
        before_query(path) == path,
        before_query(path + seq!['?'] + query) == path,
    decreases path.len(),
{
    let whole = path + seq!['?'] + query;
    if path.len() == 0 {
        assert(before_query(path) =~= path);
        assert(before_query(whole) =~= path);
    } else {
        let rest = path.skip(1);
        assert(path.contains(path[0]));
        assert forall|i: int| 0 <= i < rest.len() implies rest[i] != '?' by {
            assert(path.contains(path[i + 1]));
        }
        lemma_before_query(rest, query);
        assert(whole.skip(1) =~= rest + seq!['?'] + query);
        assert(seq![path[0]] + rest =~= path);
    }
}

/// Which requests are let through. The path begins with one slash and holds no
/// backslash, number sign or control character, and without its query it is one
/// of the allowed paths. The tags, the version and the models are got; every
/// other path is posted to. Any other method is refused as such.
pub proof fn lemma_request_let_through(
    allowed: Seq<Seq<char>>,
    method: Seq<char>,
    raw: Seq<char>,
    query: Seq<char>,
    path: Seq<char>,
)
    requires
        !raw.contains('?'),
        path == raw || path == raw + seq!['?'] + query,
    ensures
        ({
            let result = requested(allowed, method, path);
            let plain = path.len() > 0 && path[0] == '/' && !(path.len() > 1 && path[1] == '/')
                && forall|i: int|
                0 <= i < path.len() ==> #[trigger] path[i] != '\\' && path[i] != '#'
                    && !control_character(path[i]);
            let read_only = raw == "/api/tags"@ || raw == "/api/version"@ || raw == "/v1/models"@;
            &&& !plain || !allowed.contains(raw) ==> result == Err::<
                Seq<char>,
                PathErrorOf<Seq<char>>,
            >(PathErrorOf::PathNotAllowed)
            &&& plain && allowed.contains(raw) && read_only && method == "GET"@ ==> result == Ok::<
                Seq<char>,
                PathErrorOf<Seq<char>>,
            >(raw)
            &&& plain && allowed.contains(raw) && !read_only && method == "POST"@ ==> result
                == Ok::<Seq<char>, PathErrorOf<Seq<char>>>(raw)
            &&& plain && allowed.contains(raw) && read_only && method != "GET"@ ==> result
                == Err::<Seq<char>, PathErrorOf<Seq<char>>>(PathErrorOf::MethodNotAllowed)
            &&& plain && allowed.contains(raw) && !read_only && method != "POST"@ ==> result
                == Err::<Seq<char>, PathErrorOf<Seq<char>>>(PathErrorOf::MethodNotAllowed)
        }),
{
    lemma_before_query(raw, query);
    reveal_strlit("/");
    reveal_strlit("//");
    assert("/"@ =~= seq!['/']);
    assert("//"@ =~= seq!['/', '/']);
    if path.len() > 0 {
        assert("/"@.is_prefix_of(path) <==> path[0] == '/') by {
            assert(path.subrange(0, 1)[0] == path[0]);
            if path[0] == '/' {
                assert("/"@ =~= path.subrange(0, 1));
            }
        }
    }
    if path.len() > 1 {
        assert("//"@.is_prefix_of(path) <==> path[0] == '/' && path[1] == '/') by {
            assert(path.subrange(0, 2)[0] == path[0] && path.subrange(0, 2)[1] == path[1]);
            if path[0] == '/' && path[1] == '/' {
                assert("//"@ =~= path.subrange(0, 2));
            }
        }
    }
    if plain_path(path) {
        assert forall|i: int| 0 <= i < path.len() implies #[trigger] path[i] != '\\' && path[i]
            != '#' && !control_character(path[i]) by {
            assert(path.contains(path[i]));
        }
    }
}

/// A request that may be made goes where its path resolves to, if that is the
/// same path on the same host; to anything else it does not go, and where
/// the path cannot be resolved the reason is handed on. A request that may not be
/// made stays refused. Under `/v1/` the one base is used, else the other.
pub proof fn lemma_request_target(config: ConfigModel, method: Seq<char>, path: Seq<char>)
    ensures
        ({
            let base = if "/v1/"@.is_prefix_of(path) {
                config.openai_base
            } else {
                config.base
            };
            let result = request_target(config, method, path);
            match requested(config.allowed, method, path) {
                Err(error) => result == Err::<Seq<char>, PathErrorOf<Seq<char>>>(error),
                Ok(raw) => match url_joined(base, path) {
                    Err(words) => result == Err::<Seq<char>, PathErrorOf<Seq<char>>>(
                        PathErrorOf::Join(words),
                    ),
                    Ok(joined) => if joined.same_origin && joined.path == raw {
                        result == Ok::<Seq<char>, PathErrorOf<Seq<char>>>(joined.href)
                    } else {
                        result == Err::<Seq<char>, PathErrorOf<Seq<char>>>(
                            PathErrorOf::PathNotAllowed,
                        )
                    },
                },
            }
        }),
{
}

/// What is said of a request that is refused for its path or its method, and the
/// limits of the channel.
pub proof fn lemma_path_words(words: Seq<char>)
    ensures
        path_error_words(PathErrorOf::PathNotAllowed) == "path not allowed"@,
        path_error_words(PathErrorOf::MethodNotAllowed) == "method not allowed"@,
        path_error_words(PathErrorOf::Join(words)) == words,
        MAX_FRAME_BYTES == 16384,
        CHUNK_BYTES == 8192,
        MAX_REQUEST_BYTES == 8388608,
        MAX_REQUESTS == 4,
{
}

/// The command line is read from its second argument on, with nothing found.
pub proof fn lemma_command_line_begins(args: Seq<Seq<char>>, i: int, found: CommandLineOf<Seq<char>>)
    ensures
        args.len() <= 1 ==> command_line(args).url is None && command_line(args).token is None
            && command_line(args).room is None,
        command_line(args) == command_line_from(
            args,
            1,
            CommandLineOf { url: None, token: None, room: None },
        ),
        i >= args.len() ==> command_line_from(args, i, found) == found,
{
}

/// An option sets its value to the argument behind it, whether it was given
/// before or not, and leaves the others; the two are then passed.
pub proof fn lemma_command_line_option(
    args: Seq<Seq<char>>,
    i: int,
    found: CommandLineOf<Seq<char>>,
)
    requires
        0 <= i,
        i + 1 < args.len(),
    ensures
        args[i] == "--url"@ || args[i] == "-u"@ ==> command_line_from(args, i, found)
            == command_line_from(
            args,
            i + 2,
            CommandLineOf { url: Some(args[i + 1]), token: found.token, room: found.room },
        ),
        args[i] == "--token"@ || args[i] == "-t"@ ==> command_line_from(args, i, found)
            == command_line_from(
            args,
            i + 2,
            CommandLineOf { url: found.url, token: Some(args[i + 1]), room: found.room },
        ),
        args[i] == "--room"@ || args[i] == "-r"@ ==> command_line_from(args, i, found)
            == command_line_from(
            args,
            i + 2,
            CommandLineOf { url: found.url, token: found.token, room: Some(args[i + 1]) },
        ),
{
    reveal_strlit("--url");
    reveal_strlit("-u");
    reveal_strlit("--token");
    reveal_strlit("-t");
    reveal_strlit("--room");
    reveal_strlit("-r");
    assert("--url"@.len() == 5 && "-u"@.len() == 2 && "--token"@.len() == 7 && "-t"@.len() == 2
        && "--room"@.len() == 6 && "-r"@.len() == 2);
    assert("-u"@[1] == 'u' && "-t"@[1] == 't' && "-r"@[1] == 'r');
}

/// An argument that does not begin with a hyphen is the URL, the token or the
/// room, the first of them that is not known yet; one that is none of them, or
/// begins with a hyphen and is no option, is passed over.
pub proof fn lemma_command_line_alone(
    args: Seq<Seq<char>>,
    i: int,
    found: CommandLineOf<Seq<char>>,
)
    requires
        0 <= i < args.len(),
    ensures
        !"-"@.is_prefix_of(args[i]) ==> {
            let rest = command_line_from(args, i, found);
            &&& found.url is None ==> rest == command_line_from(
                args,
                i + 1,
                CommandLineOf { url: Some(args[i]), token: found.token, room: found.room },
            )
            &&& found.url is Some && found.token is None ==> rest == command_line_from(
                args,
                i + 1,
                CommandLineOf { url: found.url, token: Some(args[i]), room: found.room },
            )
            &&& found.url is Some && found.token is Some && found.room is None ==> rest
                == command_line_from(
                args,
                i + 1,
                CommandLineOf { url: found.url, token: found.token, room: Some(args[i]) },
            )
            &&& found.url is Some && found.token is Some && found.room is Some ==> rest
                == command_line_from(args, i + 1, found)
        },
        "-"@.is_prefix_of(args[i]) && (i + 1 == args.len() || (args[i] != "--url"@ && args[i]
            != "-u"@ && args[i] != "--token"@ && args[i] != "-t"@ && args[i] != "--room"@
            && args[i] != "-r"@)) ==> command_line_from(args, i, found) == command_line_from(
            args,
            i + 1,
            found,
        ),
{
    reveal_strlit("-");
    reveal_strlit("--url");
    reveal_strlit("-u");
    reveal_strlit("--token");
    reveal_strlit("-t");
    reveal_strlit("--room");
    reveal_strlit("-r");
    assert("-"@ =~= seq!['-']);
    assert("-"@ =~= "--url"@.subrange(0, 1));
    assert("-"@ =~= "-u"@.subrange(0, 1));
    assert("-"@ =~= "--token"@.subrange(0, 1));
    assert("-"@ =~= "-t"@.subrange(0, 1));
    assert("-"@ =~= "--room"@.subrange(0, 1));
    assert("-"@ =~= "-r"@.subrange(0, 1));
}

/// The command line counts before the environment, and what stands in either
/// before a default.
pub proof fn lemma_command_line_first(
    given: Option<Seq<char>>,
    fallback: Option<Seq<char>>,
    default: Seq<char>,
)
    ensures
        given is Some ==> either(given, fallback) == given,
        given is None ==> either(given, fallback) == fallback,
        given is Some ==> value_or(given, default) == given->0,
        given is None ==> value_or(given, default) == default,
{
}

/// The query of the signaling URL is what it had, in its order and without any
/// room, role or token, and behind it the room, the role of the home agent and
/// the token.
pub proof fn lemma_signaling_pairs(
    pairs: Seq<(Seq<char>, Seq<char>)>,
    room: Seq<char>,
    token: Seq<char>,
)
    ensures
        signaling_pairs(pairs, room, token) == pairs.filter(
            |pair: (Seq<char>, Seq<char>)|
                pair.0 != "room"@ && pair.0 != "role"@ && pair.0 != "token"@,
        ) + seq![("room"@, room), ("role"@, "home"@), ("token"@, token)],
{
    lemma_other_pairs(pairs);
    assert(signaling_pairs(pairs, room, token) =~= other_pairs(pairs) + seq![
        ("room"@, room),
        ("role"@, "home"@),
        ("token"@, token),
    ]);
}

/// The pairs that are kept are those with another name.
proof fn lemma_other_pairs(pairs: Seq<(Seq<char>, Seq<char>)>)
    ensures
        other_pairs(pairs) == pairs.filter(
            |pair: (Seq<char>, Seq<char>)|
                pair.0 != "room"@ && pair.0 != "role"@ && pair.0 != "token"@,
        ),
    decreases pairs.len(),
{
    reveal(Seq::filter);
    if pairs.len() > 0 {
        lemma_other_pairs(pairs.drop_last());
    }
}

/// The agent signals exactly to a `ws:` or `wss:` URL without a login, in a room
/// whose name is valid, with a token of at least 16 bytes. Otherwise the first
/// of these that is wrong is named.
pub proof fn lemma_signaling_checked(
    parts: AddressParts,
    room: Seq<char>,
    token: Option<Seq<char>>,
)
    ensures
        ({
            let result = signaling_checked(parts, room, token);
            let scheme = parts.scheme == "ws"@ || parts.scheme == "wss"@;
            let login = parts.username.len() > 0 || parts.password is Some;
            &&& result is Ok <==> scheme && !login && valid_name(room) && (token matches Some(token)
                && byte_length(token) >= 16)
            &&& result matches Ok(used) ==> token == Some(used)
            &&& !scheme ==> result == Err::<Seq<char>, ConfigErrorOf<Seq<char>>>(
                ConfigErrorOf::SignalingScheme,
            )
            &&& scheme && login ==> result == Err::<Seq<char>, ConfigErrorOf<Seq<char>>>(
                ConfigErrorOf::SignalingLogin,
            )
            &&& scheme && !login && token is None ==> result == Err::<
                Seq<char>,
                ConfigErrorOf<Seq<char>>,
            >(ConfigErrorOf::TokenMissing)
            &&& scheme && !login && token is Some && !valid_name(room) ==> result == Err::<
                Seq<char>,
                ConfigErrorOf<Seq<char>>,
            >(ConfigErrorOf::Room)
            &&& scheme && !login && valid_name(room) ==> (token matches Some(token) ==> byte_length(
                token,
            ) < 16 ==> result == Err::<Seq<char>, ConfigErrorOf<Seq<char>>>(
                ConfigErrorOf::TokenTooShort,
            ))
        }),
{
}

/// The signaling URL is what comes of writing the room, the role and the token
/// into the query of the URL that is given, where all of this can be done. A
/// URL that is missing, cannot be read or would be too long is named as such.
pub proof fn lemma_signaling_url(raw: Seq<char>, room: Seq<char>, token: Option<Seq<char>>)
    ensures
        signaling_url(None, room, token) == Err::<Seq<char>, ConfigErrorOf<Seq<char>>>(
            ConfigErrorOf::SignalingUrlMissing,
        ),
        url_parts(raw) matches Err(words) ==> signaling_url(Some(raw), room, token) == Err::<
            Seq<char>,
            ConfigErrorOf<Seq<char>>,
        >(ConfigErrorOf::SignalingUrl(words)),
        url_parts(raw) matches Ok(parts) ==> {
            let result = signaling_url(Some(raw), room, token);
            &&& signaling_checked(parts, room, token) matches Err(error) ==> result == Err::<
                Seq<char>,
                ConfigErrorOf<Seq<char>>,
            >(error)
            &&& signaling_checked(parts, room, token) is Ok ==> (url_query_pairs(raw) matches Ok(
                pairs,
            ) ==> {
                let wanted = signaling_pairs(pairs, room, token->0);
                &&& !url_fits(parts, wanted) ==> result == Err::<
                    Seq<char>,
                    ConfigErrorOf<Seq<char>>,
                >(ConfigErrorOf::SignalingTooLong)
                &&& url_fits(parts, wanted) ==> (url_with_pairs(raw, wanted) matches Ok(url)
                    ==> result == Ok::<Seq<char>, ConfigErrorOf<Seq<char>>>(url))
                &&& url_fits(parts, wanted) ==> (url_with_pairs(raw, wanted) matches Err(words)
                    ==> result == Err::<Seq<char>, ConfigErrorOf<Seq<char>>>(
                    ConfigErrorOf::SignalingUrl(words),
                ))
            })
        },
{
}

/// A base is an `http:` or `https:` URL with a host and nothing behind it but
/// one slash: no query, no fragment, no login. It is then taken as the URL
/// crate writes it.
pub proof fn lemma_bases(text: Seq<char>)
    ensures
        url_parts(text) matches Ok(parts) ==> {
            let web = (parts.scheme == "http"@ || parts.scheme == "https"@) && parts.host is Some;
            let origin = parts.path == "/"@ && parts.query is None && parts.fragment is None
                && parts.username.len() == 0 && parts.password is None;
            &&& web && origin ==> ollama_base(text) == Ok::<Seq<char>, ConfigErrorOf<Seq<char>>>(
                parts.href,
            ) && openai_base(text) == Ok::<Seq<char>, ConfigErrorOf<Seq<char>>>(parts.href)
            &&& !web ==> ollama_base(text) == Err::<Seq<char>, ConfigErrorOf<Seq<char>>>(
                ConfigErrorOf::OllamaBase,
            )
            &&& web && !origin ==> ollama_base(text) == Err::<Seq<char>, ConfigErrorOf<Seq<char>>>(
                ConfigErrorOf::OllamaBaseOrigin,
            )
            &&& !web || !origin ==> openai_base(text) == Err::<
                Seq<char>,
                ConfigErrorOf<Seq<char>>,
            >(ConfigErrorOf::OpenaiBaseOrigin)
        },
        url_parts(text) matches Err(words) ==> {
            &&& ollama_base(text) == Err::<Seq<char>, ConfigErrorOf<Seq<char>>>(
                ConfigErrorOf::OllamaBaseUrl(words),
            )
            &&& openai_base(text) == Err::<Seq<char>, ConfigErrorOf<Seq<char>>>(
                ConfigErrorOf::OpenaiBaseUrl(words),
            )
        },
{
}

/// A list of paths is taken exactly where it names at least one, and each is
/// under `/api/` or `/v1/` and holds no question mark, number sign, percent
/// sign, backslash or two dots in a row. The allowed paths are then those that
/// stand between the commas, without the white space round them, each once.
pub proof fn lemma_allowed_paths(text: Seq<char>, path: Seq<char>)
    ensures
        ({
            let named = |path: Seq<char>|
                path.len() > 0 && exists|i: int|
                    0 <= i < pieces(text, false).len() && path == trimmed(
                        #[trigger] pieces(text, false)[i],
                    );
            let right = |path: Seq<char>|
                {
                    &&& "/api/"@.is_prefix_of(path) || "/v1/"@.is_prefix_of(path)
                    &&& !path.contains('?') && !path.contains('#') && !path.contains('%')
                        && !path.contains('\\')
                    &&& !occurs_in(".."@, path)
                };
            &&& allowed_paths(text) matches Ok(paths) ==> {
                &&& paths.len() > 0 && paths.no_duplicates()
                &&& paths.contains(path) <==> named(path)
                &&& named(path) ==> right(path)
            }
            &&& allowed_paths(text) matches Err(error) ==> error is AllowedPaths && (forall|path:
                Seq<char>| !(#[trigger] named(path)) || exists|other: Seq<char>|
                    #![trigger named(other)]
                    named(other) && !right(other))
        }),
{
    let cut = pieces(text, false).map_values(|piece: Seq<char>| trimmed(piece));
    let all = non_empty(cut);
    let paths = listed_paths(text);
    let named = |path: Seq<char>|
        path.len() > 0 && exists|i: int|
            0 <= i < pieces(text, false).len() && path == trimmed(
                #[trigger] pieces(text, false)[i],
            );
    crate::text::lemma_non_empty(cut);
    crate::text::lemma_distinct(all);
    assert forall|path: Seq<char>| paths.contains(path) <==> #[trigger] named(path) by {
        if cut.contains(path) {
            let i = cut.index_of(path);
            assert(cut[i] == trimmed(pieces(text, false)[i]));
        }
        if named(path) {
            let i = choose|i: int|
                0 <= i < pieces(text, false).len() && path == trimmed(
                    #[trigger] pieces(text, false)[i],
                );
            assert(cut[i] == path);
        }
    }
    if allowed_paths(text) is Ok && named(path) {
        let i = paths.index_of(path);
        assert(allowable(paths[i]));
    }
    if allowed_paths(text) is Err {
        if paths.len() == 0 {
            assert forall|path: Seq<char>| !(#[trigger] named(path)) by {
                assert(!paths.contains(path));
            }
        } else {
            let i = choose|i: int| 0 <= i < paths.len() && !allowable(#[trigger] paths[i]);
            assert(paths.contains(paths[i]));
            assert(named(paths[i]));
        }
    }
}

/// An address is right for the agent exactly where it begins with `stun:` or
/// `turn:`, does not ask for TCP, and is not TURN without a login. The first
/// address that is not right, of the first server that has one, is named.
pub proof fn lemma_servers_fault(servers: Seq<IceServerModel>)
    ensures
        servers_fault(servers) is None <==> forall|i: int, k: int|
            0 <= i < servers.len() && 0 <= k < servers[i].urls.len() ==> {
                let url = #[trigger] servers[i].urls[k];
                &&& "stun:"@.is_prefix_of(url) || "turn:"@.is_prefix_of(url)
                &&& !occurs_in("transport=tcp"@, url)
                &&& "turn:"@.is_prefix_of(url) ==> servers[i].username.len() > 0
                    && servers[i].credential.len() > 0
            },
    decreases servers.len(),
{
    if servers.len() > 0 {
        let rest = servers.drop_last();
        let last = servers.last();
        lemma_servers_fault(rest);
        lemma_urls_fault(last, last.urls);
        assert(servers[servers.len() - 1] == last);
        if servers_fault(servers) is None {
            assert forall|i: int, k: int|
                0 <= i < servers.len() && 0 <= k < servers[i].urls.len() implies {
                let url = #[trigger] servers[i].urls[k];
                &&& "stun:"@.is_prefix_of(url) || "turn:"@.is_prefix_of(url)
                &&& !occurs_in("transport=tcp"@, url)
                &&& "turn:"@.is_prefix_of(url) ==> servers[i].username.len() > 0
                    && servers[i].credential.len() > 0
            } by {
                if i < rest.len() {
                    assert(rest[i].urls[k] == servers[i].urls[k]);
                } else {
                    assert(url_fault(last, last.urls[k]) is None);
                }
            }
        }
        if forall|i: int, k: int|
            0 <= i < servers.len() && 0 <= k < servers[i].urls.len() ==> {
                let url = #[trigger] servers[i].urls[k];
                &&& "stun:"@.is_prefix_of(url) || "turn:"@.is_prefix_of(url)
                &&& !occurs_in("transport=tcp"@, url)
                &&& "turn:"@.is_prefix_of(url) ==> servers[i].username.len() > 0
                    && servers[i].credential.len() > 0
            } {
            assert forall|i: int, k: int|
                0 <= i < rest.len() && 0 <= k < rest[i].urls.len() implies {
                let url = #[trigger] rest[i].urls[k];
                &&& "stun:"@.is_prefix_of(url) || "turn:"@.is_prefix_of(url)
                &&& !occurs_in("transport=tcp"@, url)
                &&& "turn:"@.is_prefix_of(url) ==> rest[i].username.len() > 0
                    && rest[i].credential.len() > 0
            } by {
                assert(servers[i].urls[k] == rest[i].urls[k]);
            }
            assert forall|k: int| 0 <= k < last.urls.len() implies url_fault(
                last,
                #[trigger] last.urls[k],
            ) is None by {
                assert(servers[servers.len() - 1].urls[k] == last.urls[k]);
            }
        }
    }
}

/// Nothing is wrong with the addresses of a server where nothing is wrong with
/// any.
proof fn lemma_urls_fault(server: IceServerModel, urls: Seq<Seq<char>>)
    ensures
        urls_fault(server, urls) is None <==> forall|k: int|
            0 <= k < urls.len() ==> url_fault(server, #[trigger] urls[k]) is None,
    decreases urls.len(),
{
    if urls.len() > 0 {
        let rest = urls.drop_last();
        lemma_urls_fault(server, rest);
        assert(urls[urls.len() - 1] == urls.last());
        assert forall|k: int| 0 <= k < rest.len() implies rest[k] == urls[k] by {}
        if urls_fault(server, urls) is None {
            assert forall|k: int| 0 <= k < urls.len() implies url_fault(
                server,
                #[trigger] urls[k],
            ) is None by {
                if k < rest.len() {
                    assert(url_fault(server, rest[k]) is None);
                }
            }
        }
        if forall|k: int| 0 <= k < urls.len() ==> url_fault(server, #[trigger] urls[k]) is None {
            assert forall|k: int| 0 <= k < rest.len() implies url_fault(
                server,
                #[trigger] rest[k],
            ) is None by {
                assert(url_fault(server, urls[k]) is None);
            }
        }
    }
}

/// The first address that is not right is named for what is wrong with it: its
/// scheme, before that it asks for TCP, before that its login is missing.
pub proof fn lemma_first_fault(before: Seq<IceServerModel>, server: IceServerModel, k: int)
    requires
        servers_fault(before) is None,
        0 <= k < server.urls.len(),
        urls_fault(server, server.urls.take(k)) is None,
    ensures
        ({
            let url = server.urls[k];
            let result = servers_fault(before.push(server));
            let scheme = "stun:"@.is_prefix_of(url) || "turn:"@.is_prefix_of(url);
            let tcp = occurs_in("transport=tcp"@, url);
            let login = server.username.len() > 0 && server.credential.len() > 0;
            &&& !scheme ==> result == Some(ConfigErrorOf::<Seq<char>>::IceScheme)
            &&& scheme && tcp ==> result == Some(ConfigErrorOf::<Seq<char>>::IceTransport)
            &&& scheme && !tcp && "turn:"@.is_prefix_of(url) && !login ==> result == Some(
                ConfigErrorOf::<Seq<char>>::IceLogin,
            )
        }),
{
    assert(before.push(server).drop_last() =~= before);
    let upto = server.urls.take(k + 1);
    assert(upto.drop_last() =~= server.urls.take(k));
    if urls_fault(server, upto) is Some {
        lemma_urls_fault_prefix(server, server.urls, k + 1);
    }
}

/// The servers of the environment are those of its list, then its STUN server,
/// then its TURN server with user and password, each where it is not empty, and
/// none of them wrong.
pub proof fn lemma_local_servers(env: Environment, listed: Seq<IceServerModel>)
    requires
        env.ice_servers matches Ok(entries) && listed_servers(entries_view(entries@)) == Ok::<
            Seq<IceServerModel>,
            Seq<char>,
        >(listed),
    ensures
        ({
            let result = local_servers(env);
            let has_stun = env.stun_url is Some && env.stun_url->0@.len() > 0;
            let has_turn = env.turn_url is Some && env.turn_url->0@.len() > 0;
            &&& has_turn && env.turn_user is None ==> result == Err::<
                Seq<IceServerModel>,
                ConfigErrorOf<Seq<char>>,
            >(ConfigErrorOf::TurnUserMissing)
            &&& has_turn && env.turn_user is Some && env.turn_pass is None ==> result == Err::<
                Seq<IceServerModel>,
                ConfigErrorOf<Seq<char>>,
            >(ConfigErrorOf::TurnPassMissing)
            &&& result matches Ok(servers) ==> {
                let stuns = if has_stun {
                    1int
                } else {
                    0
                };
                &&& servers.len() == listed.len() + stuns + if has_turn {
                    1int
                } else {
                    0
                }
                &&& listed == servers.take(listed.len() as int)
                &&& has_stun ==> {
                    let server = servers[listed.len() as int];
                    &&& server.urls == seq![env.stun_url->0@]
                    &&& server.username.len() == 0 && server.credential.len() == 0
                    &&& server.credential_type == CredentialType::Unspecified
                }
                &&& has_turn ==> {
                    let server = servers[listed.len() + stuns];
                    &&& server.urls == seq![env.turn_url->0@]
                    &&& Some(server.username) == env.turn_user.deep_view()
                    &&& Some(server.credential) == env.turn_pass.deep_view()
                    &&& server.credential_type == CredentialType::Password
                }
                &&& servers_fault(servers) is None
            }
            &&& !has_stun && !has_turn && servers_fault(listed) is None ==> result == Ok::<
                Seq<IceServerModel>,
                ConfigErrorOf<Seq<char>>,
            >(listed)
            &&& has_turn && env.turn_user is Some && env.turn_pass is Some && result is Err
                ==> exists|servers: Seq<IceServerModel>| #[trigger]
                servers_fault(servers) == Some(result->Err_0)
        }),
{
    if let Ok(servers) = local_servers(env) {
        assert(listed =~= servers.take(listed.len() as int));
    }
}

/// What is wrong with a list of servers, or with one of its entries, is handed
/// on in its words.
pub proof fn lemma_list_refused(env: Environment)
    ensures
        env.ice_servers matches Err(words) ==> local_servers(env) == Err::<
            Seq<IceServerModel>,
            ConfigErrorOf<Seq<char>>,
        >(ConfigErrorOf::IceServers(words@)),
        env.ice_servers matches Ok(entries) ==> (listed_servers(entries_view(entries@)) matches Err(
            words,
        ) ==> local_servers(env) == Err::<Seq<IceServerModel>, ConfigErrorOf<Seq<char>>>(
            ConfigErrorOf::IceServers(words),
        )),
{
}

/// A request may take any whole number of seconds that fits and is not zero.
pub proof fn lemma_request_timeout(text: Seq<char>)
    ensures
        number_value(text, u64::MAX) matches Ok(seconds) ==> {
            &&& seconds > 0 ==> request_timeout(text) == Ok::<u64, ConfigErrorOf<Seq<char>>>(
                seconds,
            )
            &&& seconds == 0 ==> request_timeout(text) == Err::<u64, ConfigErrorOf<Seq<char>>>(
                ConfigErrorOf::TimeoutZero,
            )
        },
        number_value(text, u64::MAX) matches Err(error) ==> request_timeout(text) == Err::<
            u64,
            ConfigErrorOf<Seq<char>>,
        >(ConfigErrorOf::Timeout(error)),
{
}

/// What accepted settings hold, and what stands for a setting that is absent: the
/// room `default`, requests to port 11434 of this host, under `/v1/` to the same
/// base, the paths for generating, chatting and the tags, and 600 seconds. Only
/// `true` and `1` allow relayed connections alone, and an empty key is none.
pub proof fn lemma_configured(args: Seq<Seq<char>>, env: Environment)
    ensures
        configured(args, env) matches Ok(config) ==> {
            let cli = command_line(args);
            let room = match cli.room {
                Some(room) => room,
                None => match env.room_id {
                    Some(room) => room@,
                    None => "default"@,
                },
            };
            let url = if cli.url is Some {
                cli.url
            } else {
                env.signaling_url.deep_view()
            };
            let token = if cli.token is Some {
                cli.token
            } else {
                env.signaling_token.deep_view()
            };
            &&& signaling_url(url, room, token) == Ok::<Seq<char>, ConfigErrorOf<Seq<char>>>(
                config.signaling,
            )
            &&& env.ollama_base is None ==> ollama_base("http://127.0.0.1:11434"@) == Ok::<
                Seq<char>,
                ConfigErrorOf<Seq<char>>,
            >(config.base)
            &&& env.ollama_base matches Some(text) ==> ollama_base(text@) == Ok::<
                Seq<char>,
                ConfigErrorOf<Seq<char>>,
            >(config.base)
            &&& env.openai_base is None ==> openai_base(config.base) == Ok::<
                Seq<char>,
                ConfigErrorOf<Seq<char>>,
            >(config.openai_base)
            &&& env.openai_base matches Some(text) ==> openai_base(text@) == Ok::<
                Seq<char>,
                ConfigErrorOf<Seq<char>>,
            >(config.openai_base)
            &&& env.allowed_paths is None ==> allowed_paths(
                "/api/generate,/api/chat,/api/tags"@,
            ) == Ok::<Seq<Seq<char>>, ConfigErrorOf<Seq<char>>>(config.allowed)
            &&& env.allowed_paths matches Some(text) ==> allowed_paths(text@) == Ok::<
                Seq<Seq<char>>,
                ConfigErrorOf<Seq<char>>,
            >(config.allowed)
            &&& local_servers(env) == Ok::<Seq<IceServerModel>, ConfigErrorOf<Seq<char>>>(
                config.rtc.ice_servers,
            )
            &&& env.request_timeout_secs is None ==> request_timeout("600"@) == Ok::<
                u64,
                ConfigErrorOf<Seq<char>>,
            >(config.timeout)
            &&& env.request_timeout_secs matches Some(text) ==> request_timeout(text@) == Ok::<
                u64,
                ConfigErrorOf<Seq<char>>,
            >(config.timeout)
            &&& config.rtc.relay <==> (env.force_relay matches Some(text) && (text@ == "true"@
                || text@ == "1"@))
            &&& config.openai_api_key matches Some(key) ==> key.len() > 0
                && env.openai_api_key.deep_view() == Some(key)
            &&& config.openai_api_key is None ==> !(env.openai_api_key matches Some(key)
                && key@.len() > 0)
        },
{
}

/// Settings are accepted exactly where each of them is, and else refused for the
/// first of them that is not: where to signal, the two bases, the paths, the
/// servers, the time.
pub proof fn lemma_configured_order(args: Seq<Seq<char>>, env: Environment)
    ensures
        ({
            let cli = command_line(args);
            let signaling = signaling_url(
                either(cli.url, env.signaling_url.deep_view()),
                value_or(either(cli.room, env.room_id.deep_view()), "default"@),
                either(cli.token, env.signaling_token.deep_view()),
            );
            let base = ollama_base(
                value_or(env.ollama_base.deep_view(), "http://127.0.0.1:11434"@),
            );
            let openai = openai_base(value_or(env.openai_base.deep_view(), base->Ok_0));
            let paths = allowed_paths(
                value_or(env.allowed_paths.deep_view(), "/api/generate,/api/chat,/api/tags"@),
            );
            let servers = local_servers(env);
            let time = request_timeout(value_or(env.request_timeout_secs.deep_view(), "600"@));
            let result = configured(args, env);
            &&& result is Ok <==> signaling is Ok && base is Ok && openai is Ok && paths is Ok
                && servers is Ok && time is Ok
            &&& signaling matches Err(error) ==> result == Err::<
                ConfigModel,
                ConfigErrorOf<Seq<char>>,
            >(error)
            &&& signaling is Ok ==> (base matches Err(error) ==> result == Err::<
                ConfigModel,
                ConfigErrorOf<Seq<char>>,
            >(error))
            &&& signaling is Ok && base is Ok ==> (openai matches Err(error) ==> result == Err::<
                ConfigModel,
                ConfigErrorOf<Seq<char>>,
            >(error))
            &&& signaling is Ok && base is Ok && openai is Ok ==> (paths matches Err(error)
                ==> result == Err::<ConfigModel, ConfigErrorOf<Seq<char>>>(error))
            &&& signaling is Ok && base is Ok && openai is Ok && paths is Ok ==> (
            servers matches Err(error) ==> result == Err::<ConfigModel, ConfigErrorOf<Seq<char>>>(
                error,
            ))
            &&& signaling is Ok && base is Ok && openai is Ok && paths is Ok && servers is Ok ==> (
            time matches Err(error) ==> result == Err::<ConfigModel, ConfigErrorOf<Seq<char>>>(
                error,
            ))
        }),
{
}

/// A signaling URL that carries its room, role and token has the scheme, the
/// login, the host, the path and the fragment that were given.
pub proof fn lemma_signals_as_home(
    url: Seq<char>,
    raw: Seq<char>,
    room: Seq<char>,
    token: Seq<char>,
)
    requires
        signals_as_home(url, raw, room, token),
    ensures
        url_parts(raw) matches Ok(given) && url_parts(url) matches Ok(parts) && {
            &&& parts.href == url
            &&& parts.scheme == given.scheme
            &&& parts.username == given.username && parts.password == given.password
            &&& parts.host == given.host
            &&& parts.path == given.path
            &&& parts.fragment == given.fragment
        },
        url_query_pairs(url) matches Ok(pairs) && pairs.len() >= 3 && pairs.subrange(
            pairs.len() - 3,
            pairs.len() as int,
        ) == seq![("room"@, room), ("role"@, "home"@), ("token"@, token)],
{
    let pairs = url_query_pairs(url)->Ok_0;
    assert(pairs.subrange(pairs.len() - 3, pairs.len() as int) =~= seq![
        ("room"@, room),
        ("role"@, "home"@),
        ("token"@, token),
    ]);
}

/// Where a path was resolved to is taken exactly where it has the same origin, is
/// the path that was asked for, and is allowed; what could not be resolved is
/// named.
pub proof fn lemma_resolved(
    joined: JoinedParts,
    allowed: Seq<Seq<char>>,
    raw: Seq<char>,
    words: Seq<char>,
)
    ensures
        joined.same_origin && joined.path == raw && allowed.contains(raw) ==> resolved(
            Ok(joined),
            allowed,
            raw,
        ) == Ok::<Seq<char>, PathErrorOf<Seq<char>>>(joined.href),
        !joined.same_origin || joined.path != raw || !allowed.contains(raw) ==> resolved(
            Ok(joined),
            allowed,
            raw,
        ) == Err::<Seq<char>, PathErrorOf<Seq<char>>>(PathErrorOf::PathNotAllowed),
        resolved(Err(words), allowed, raw) == Err::<Seq<char>, PathErrorOf<Seq<char>>>(
            PathErrorOf::Join(words),
        ),
{
}

/// Why settings are refused, in words.
pub proof fn lemma_config_error_words(words: Seq<char>)
    ensures
        config_error_words(ConfigErrorOf::SignalingUrlMissing)
            == "SIGNALING_URL is required (set via env or pass as argument: ai-remote-agent <url> <token>)"@,
        config_error_words(ConfigErrorOf::SignalingUrl(words)) == words,
        config_error_words(ConfigErrorOf::SignalingScheme)
            == "SIGNALING_URL must use ws:// or wss://"@,
        config_error_words(ConfigErrorOf::SignalingLogin)
            == "Use SIGNALING_TOKEN instead of URL credentials"@,
        config_error_words(ConfigErrorOf::TokenMissing)
            == "SIGNALING_TOKEN is required (set via env or pass as argument: ai-remote-agent <url> <token>)"@,
        config_error_words(ConfigErrorOf::Room) == "Invalid ROOM_ID"@,
        config_error_words(ConfigErrorOf::TokenTooShort)
            == "SIGNALING_TOKEN must contain at least 16 characters"@,
        config_error_words(ConfigErrorOf::SignalingTooLong) == "SIGNALING_URL is too long"@,
        config_error_words(ConfigErrorOf::OllamaBaseUrl(words)) == words,
        config_error_words(ConfigErrorOf::OllamaBase) == "Invalid OLLAMA_BASE"@,
        config_error_words(ConfigErrorOf::OllamaBaseOrigin)
            == "OLLAMA_BASE must be an origin without path or credentials"@,
        config_error_words(ConfigErrorOf::OpenaiBaseUrl(words)) == words,
        config_error_words(ConfigErrorOf::OpenaiBaseOrigin)
            == "OPENAI_BASE must be an origin without path or credentials"@,
        config_error_words(ConfigErrorOf::AllowedPaths)
            == "ALLOWED_PATHS must contain exact /api/ or /v1/ paths"@,
        config_error_words(ConfigErrorOf::IceServers(words)) == words,
        config_error_words(ConfigErrorOf::TurnUserMissing)
            == "TURN_USER is required with TURN_URL"@,
        config_error_words(ConfigErrorOf::TurnPassMissing)
            == "TURN_PASS is required with TURN_URL"@,
        config_error_words(ConfigErrorOf::IceScheme)
            == "Home Agent ICE URLs must use stun: or turn: (UDP). Configure turns: and TCP URLs in the browser."@,
        config_error_words(ConfigErrorOf::IceTransport)
            == "The home Agent uses UDP TURN; configure TCP/TLS TURN in the browser"@,
        config_error_words(ConfigErrorOf::IceLogin) == "TURN requires username and credential"@,
        config_error_words(ConfigErrorOf::Timeout(NumberError::Empty))
            == "cannot parse integer from empty string"@,
        config_error_words(ConfigErrorOf::Timeout(NumberError::InvalidDigit))
            == "invalid digit found in string"@,
        config_error_words(ConfigErrorOf::Timeout(NumberError::TooLarge))
            == "number too large to fit in target type"@,
        config_error_words(ConfigErrorOf::TimeoutZero) == "REQUEST_TIMEOUT_SECS must be positive"@,
{
}

/// A URL that a path plainly resolves to is the one that it resolves to; it has
/// no fragment, and no query where the path has none.
pub proof fn lemma_resolves_plainly(base: Seq<char>, path: Seq<char>, url: Seq<char>)
    requires
        resolves_plainly(base, path, url),
    ensures
        url_joined(base, path) matches Ok(joined) && {
            &&& joined.href == url
            &&& joined.fragment is None
            &&& !path.contains('?') ==> joined.query is None
        },
{
}

} // verus!
