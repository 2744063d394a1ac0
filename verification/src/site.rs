//! The pages of the signaling server: the host that links point to, the setup
//! answer, and how long each answer may be cached.

use crate::access::{bearer_in, setup_credentials, Access};
use crate::rooms::{lists_rooms, shown, Room, RoomInfo, Rooms};
use crate::text::{chars_of, ends_with, starts_with, text_equal, text_from};
use vstd::prelude::*;
use vstd::string::StringExecFns;

verus! {

/// How long an answer may be cached, `None` where nothing is said of it.
pub open spec fn cache_rule(path: Seq<char>, status: u16) -> Option<Seq<char>> {
    if path == "/ws"@ {
        None
    } else if "/api/"@.is_prefix_of(path) || path == "/setup"@ || path == "/config"@ {
        Some("no-store"@)
    } else if "/assets/"@.is_prefix_of(path) && 200 <= status <= 299 {
        Some("public, max-age=31536000, immutable"@)
    } else {
        Some("no-cache"@)
    }
}

/// The entry page must be revalidated so a redeploy takes effect at once;
/// content-hashed assets never change; API and setup answers may carry secrets.
pub fn cache_policy(path: &str, status: u16) -> (policy: Option<&'static str>)
    ensures
        match policy {
            Some(policy) => cache_rule(path@, status) == Some(policy@),
            None => cache_rule(path@, status) is None,
        },
{
    if text_equal(path, "/ws") {
        None
    } else if starts_with(path, "/api/") || text_equal(path, "/setup") || text_equal(
        path,
        "/config",
    ) {
        Some("no-store")
    } else if starts_with(path, "/assets/") && 200 <= status && status <= 299 {
        Some("public, max-age=31536000, immutable")
    } else {
        Some("no-cache")
    }
}

/// The headers of a request that the pages look at, each where it is text.
pub struct PageHeaders {
    pub authorization: Option<String>,
    pub host: Option<String>,
    pub forwarded_proto: Option<String>,
}

/// A text without a prefix, taken off as often as it stands there.
pub open spec fn without_prefix(text: Seq<char>, prefix: Seq<char>) -> Seq<char>
    decreases text.len(),
{
    if prefix.len() > 0 && prefix.is_prefix_of(text) {
        without_prefix(text.skip(prefix.len() as int), prefix)
    } else {
        text
    }
}

/// Takes a prefix off a text as often as it stands there.
fn strip_prefix(text: &str, prefix: &str) -> (rest: String)
    requires
        prefix@.len() > 0,
    ensures
        rest@ == without_prefix(text@, prefix@),
{
    let step: usize = chars_of(prefix).len();
    let mut rest = text.to_owned();
    while starts_with(rest.as_str(), prefix)
        invariant
            step == prefix@.len(),
            prefix@.len() > 0,
            without_prefix(rest@, prefix@) == without_prefix(text@, prefix@),
        decreases rest@.len(),
    {
        let chars = chars_of(rest.as_str());
        let ghost before = rest@;
        rest = text_from(&chars, step, chars.len());
        assert(rest@ =~= before.skip(step as int));
    }
    rest
}

/// The host that links point to, and whether they are encrypted.
pub struct HostInfo {
    pub host: String,
    pub secure: bool,
}

/// What a [`HostInfo`] holds.
pub struct HostModel {
    pub host: Seq<char>,
    pub secure: bool,
}

impl DeepView for HostInfo {
    type V = HostModel;

    open spec fn deep_view(&self) -> HostModel {
        HostModel { host: self.host@, secure: self.secure }
    }
}

/// The host that links point to: the public one where it is set, else the one
/// that the request names.
pub open spec fn host_of(
    host: Option<Seq<char>>,
    forwarded_proto: Option<Seq<char>>,
    public_host: Seq<char>,
) -> HostModel {
    if public_host.len() > 0 {
        HostModel {
            host: without_prefix(without_prefix(public_host, "https://"@), "http://"@),
            secure: "https://"@.is_prefix_of(public_host) || ":443"@.is_suffix_of(public_host),
        }
    } else {
        HostModel {
            host: match host {
                Some(host) => host,
                None => "127.0.0.1:8080"@,
            },
            secure: forwarded_proto == Some("https"@),
        }
    }
}

/// Finds the host that links point to.
pub fn resolve_host_info(headers: &PageHeaders, public_host: &str) -> (info: HostInfo)
    ensures
        info.deep_view() == host_of(
            headers.host.deep_view(),
            headers.forwarded_proto.deep_view(),
            public_host@,
        ),
{
    if !public_host.is_empty() {
        let secure = starts_with(public_host, "https://") || ends_with(public_host, ":443");
        proof {
            reveal_strlit("https://");
            reveal_strlit("http://");
        }
        let bare = strip_prefix(public_host, "https://");
        return HostInfo { host: strip_prefix(bare.as_str(), "http://"), secure };
    }
    let host = match &headers.host {
        Some(host) => host.clone(),
        None => "127.0.0.1:8080".to_owned(),
    };
    let secure = match &headers.forwarded_proto {
        Some(proto) => text_equal(proto.as_str(), "https"),
        None => false,
    };
    HostInfo { host, secure }
}

/// The scheme of a page.
pub open spec fn web_scheme(secure: bool) -> Seq<char> {
    if secure {
        "https"@
    } else {
        "http"@
    }
}

/// The scheme of a signaling connection.
pub open spec fn socket_scheme(secure: bool) -> Seq<char> {
    if secure {
        "wss"@
    } else {
        "ws"@
    }
}

/// The scheme of a page.
fn web_scheme_of(secure: bool) -> (scheme: &'static str)
    ensures
        scheme@ == web_scheme(secure),
{
    if secure {
        "https"
    } else {
        "http"
    }
}

/// The scheme of a signaling connection.
fn socket_scheme_of(secure: bool) -> (scheme: &'static str)
    ensures
        scheme@ == socket_scheme(secure),
{
    if secure {
        "wss"
    } else {
        "ws"
    }
}

/// The address that agents and browsers signal to.
pub open spec fn signaling_link(info: HostModel) -> Seq<char> {
    socket_scheme(info.secure) + "://"@ + info.host + "/ws"@
}

/// Writes the address that agents and browsers signal to.
pub fn write_signaling_link(info: &HostInfo) -> (link: String)
    ensures
        link@ == signaling_link(info.deep_view()),
{
    let mut link = socket_scheme_of(info.secure).to_owned();
    link.append("://");
    link.append(info.host.as_str());
    link.append("/ws");
    link
}

/// The address of the setup page.
pub open spec fn setup_link(info: HostModel) -> Seq<char> {
    web_scheme(info.secure) + "://"@ + info.host + "/setup"@
}

/// Writes the address of the setup page.
pub fn write_setup_link(info: &HostInfo) -> (link: String)
    ensures
        link@ == setup_link(info.deep_view()),
{
    let mut link = web_scheme_of(info.secure).to_owned();
    link.append("://");
    link.append(info.host.as_str());
    link.append("/setup");
    link
}

/// The address of the chat page, with room and token in the fragment, which is
/// never sent to a server.
pub open spec fn web_link(info: HostModel, room: Seq<char>, token: Seq<char>) -> Seq<char> {
    web_scheme(info.secure) + "://"@ + info.host + "/#room="@ + room + "&token="@ + token
}

/// Writes the address of the chat page.
pub fn write_web_link(info: &HostInfo, room: &str, token: &str) -> (link: String)
    ensures
        link@ == web_link(info.deep_view(), room@, token@),
{
    let mut link = web_scheme_of(info.secure).to_owned();
    link.append("://");
    link.append(info.host.as_str());
    link.append("/#room=");
    link.append(room);
    link.append("&token=");
    link.append(token);
    link
}

/// The command that starts an agent in a POSIX shell.
pub open spec fn shell_command(signaling: Seq<char>, room: Seq<char>, token: Seq<char>) -> Seq<
    char,
> {
    "SIGNALING_URL=\""@ + signaling + "\" ROOM_ID=\""@ + room + "\" SIGNALING_TOKEN=\""@ + token
        + "\" ai-remote-agent"@
}

/// Writes the command that starts an agent in a POSIX shell.
pub fn write_shell_command(signaling: &str, room: &str, token: &str) -> (command: String)
    ensures
        command@ == shell_command(signaling@, room@, token@),
{
    let mut command = "SIGNALING_URL=\"".to_owned();
    command.append(signaling);
    command.append("\" ROOM_ID=\"");
    command.append(room);
    command.append("\" SIGNALING_TOKEN=\"");
    command.append(token);
    command.append("\" ai-remote-agent");
    command
}

/// The command that starts an agent in PowerShell.
pub open spec fn powershell_command(
    signaling: Seq<char>,
    room: Seq<char>,
    token: Seq<char>,
) -> Seq<char> {
    "$env:SIGNALING_URL=\""@ + signaling + "\"; $env:ROOM_ID=\""@ + room
        + "\"; $env:SIGNALING_TOKEN=\""@ + token + "\"; ai-remote-agent"@
}

/// Writes the command that starts an agent in PowerShell.
pub fn write_powershell_command(signaling: &str, room: &str, token: &str) -> (command: String)
    ensures
        command@ == powershell_command(signaling@, room@, token@),
{
    let mut command = "$env:SIGNALING_URL=\"".to_owned();
    command.append(signaling);
    command.append("\"; $env:ROOM_ID=\"");
    command.append(room);
    command.append("\"; $env:SIGNALING_TOKEN=\"");
    command.append(token);
    command.append("\"; ai-remote-agent");
    command
}

/// What the signaling server shows of itself to anyone.
pub struct Site {
    pub public_host: String,
    pub stun_url: Option<String>,
    pub turn_url: Option<String>,
}

/// What the setup page is answered. Everything after the TURN address is only
/// there for a caller that proved to know a token.
pub struct SetupResponse {
    pub authenticated: bool,
    pub room: String,
    pub signaling_ws: String,
    pub setup_url: String,
    pub stun_url: Option<String>,
    pub turn_url: Option<String>,
    pub token: Option<String>,
    pub web_url: Option<String>,
    pub agent_cmd_sh: Option<String>,
    pub agent_cmd_ps: Option<String>,
    pub active_rooms: Option<Vec<RoomInfo>>,
}

/// What the setup page is answered, once it is known whether the caller proved
/// to know a token.
pub open spec fn setup_answer(
    response: SetupResponse,
    access: Access,
    rooms: Map<Seq<char>, Room>,
    site: Site,
    info: HostModel,
    credentials: Option<(Seq<char>, Seq<char>)>,
) -> bool {
    &&& response.signaling_ws@ == signaling_link(info)
    &&& response.setup_url@ == setup_link(info)
    &&& response.stun_url.deep_view() == site.stun_url.deep_view()
    &&& response.turn_url.deep_view() == site.turn_url.deep_view()
    &&& match credentials {
        None => {
            &&& !response.authenticated
            &&& response.room@ == access.default_room@
            &&& response.token is None
            &&& response.web_url is None
            &&& response.agent_cmd_sh is None
            &&& response.agent_cmd_ps is None
            &&& response.active_rooms is None
        },
        Some((room, token)) => {
            &&& response.authenticated
            &&& response.room@ == room
            &&& response.token.deep_view() == Some(token)
            &&& response.web_url.deep_view() == Some(web_link(info, room, token))
            &&& response.agent_cmd_sh.deep_view() == Some(
                shell_command(signaling_link(info), room, token),
            )
            &&& response.agent_cmd_ps.deep_view() == Some(
                powershell_command(signaling_link(info), room, token),
            )
            &&& response.active_rooms matches Some(list) && lists_rooms(
                list@,
                rooms,
                !access.shared(),
                room,
            )
        },
    }
}

/// Answers the setup page, once it is known whether the caller proved to know a token.
pub fn describe_setup(
    access: &Access,
    rooms: &Rooms,
    site: &Site,
    info: &HostInfo,
    credentials: Option<(String, String)>,
) -> (response: SetupResponse)
    requires
        access.wf(),
        rooms.wf(),
    ensures
        setup_answer(
            response,
            *access,
            rooms@,
            *site,
            info.deep_view(),
            credentials.deep_view(),
        ),
{
    let signaling_ws = write_signaling_link(info);
    let setup_url = write_setup_link(info);
    let stun_url = match &site.stun_url {
        Some(url) => Some(url.clone()),
        None => None,
    };
    let turn_url = match &site.turn_url {
        Some(url) => Some(url.clone()),
        None => None,
    };
    match credentials {
        None => SetupResponse {
            authenticated: false,
            room: access.default_room.clone(),
            signaling_ws,
            setup_url,
            stun_url,
            turn_url,
            token: None,
            web_url: None,
            agent_cmd_sh: None,
            agent_cmd_ps: None,
            active_rooms: None,
        },
        Some((room, token)) => {
            let web_url = write_web_link(info, room.as_str(), token.as_str());
            let agent_cmd_sh = write_shell_command(
                signaling_ws.as_str(),
                room.as_str(),
                token.as_str(),
            );
            let agent_cmd_ps = write_powershell_command(
                signaling_ws.as_str(),
                room.as_str(),
                token.as_str(),
            );
            let own_room_only = access.room_tokens.len() > 0;
            let active_rooms = rooms.online(own_room_only, room.as_str());
            SetupResponse {
                authenticated: true,
                room,
                signaling_ws,
                setup_url,
                stun_url,
                turn_url,
                token: Some(token),
                web_url: Some(web_url),
                agent_cmd_sh: Some(agent_cmd_sh),
                agent_cmd_ps: Some(agent_cmd_ps),
                active_rooms: Some(active_rooms),
            }
        },
    }
}

/// Answers the setup page. Only a caller that presents the token of a room is
/// given that token, links and commands, and who is in the rooms. Where several
/// rooms have that token, which of them is described is left open.
pub fn setup_response(
    access: &Access,
    rooms: &Rooms,
    site: &Site,
    headers: &PageHeaders,
) -> (response: SetupResponse)
    requires
        access.wf(),
        rooms.wf(),
    ensures
        response.authenticated == access.proven(bearer_in(headers.authorization.deep_view())),
        response.authenticated ==> response.token is Some && access.proves(
            response.room@,
            response.token->0@,
        ),
        setup_answer(
            response,
            *access,
            rooms@,
            *site,
            host_of(
                headers.host.deep_view(),
                headers.forwarded_proto.deep_view(),
                site.public_host@,
            ),
            if response.authenticated {
                Some((response.room@, bearer_in(headers.authorization.deep_view())->0))
            } else {
                None
            },
        ),
{
    let info = resolve_host_info(headers, site.public_host.as_str());
    let credentials = setup_credentials(access, &headers.authorization);
    describe_setup(access, rooms, site, &info, credentials)
}

/// The links and commands that are printed when the server has started.
pub struct Links {
    pub web_url: String,
    pub setup_url: String,
    pub signaling_ws: String,
    pub agent_sh: String,
    pub agent_ps: String,
}

/// The token that is printed: that of the default room, else the shared one.
pub open spec fn printed_token(access: Access) -> Seq<char> {
    if access.room_tokens@.contains_key(access.default_room@) {
        access.room_tokens@[access.default_room@]@
    } else {
        access.token@
    }
}

/// The host that is printed: the public one where it is set, else the address
/// that the server listens on, with a place to fill in where that is any address.
pub open spec fn printed_host(
    public_host: Seq<char>,
    unspecified: bool,
    port: Seq<char>,
    address: Seq<char>,
) -> HostModel {
    let info = host_of(None, None, public_host);
    if public_host.len() > 0 {
        info
    } else if unspecified {
        HostModel { host: "<YOUR_SERVER_IP>:"@ + port, ..info }
    } else {
        HostModel { host: address, ..info }
    }
}

/// The address of the setup page that is printed, with the token in the fragment.
pub open spec fn printed_setup_link(info: HostModel, token: Seq<char>) -> Seq<char> {
    setup_link(info) + "#token="@ + token
}

/// Finds the token that is printed.
pub fn startup_token_shown(access: &Access) -> (token: String)
    requires
        access.wf(),
    ensures
        token@ == printed_token(*access),
{
    match access.room_tokens.get(access.default_room.as_str()) {
        Some(token) => token.clone(),
        None => access.token.clone(),
    }
}

/// Writes the links and commands that are printed when the server has started.
/// `unspecified` says that the server listens on any address; `port` and
/// `address` are what it listens on.
pub fn startup_links(
    access: &Access,
    site: &Site,
    unspecified: bool,
    port: &str,
    address: &str,
) -> (links: Links)
    requires
        access.wf(),
    ensures
        ({
            let info = printed_host(site.public_host@, unspecified, port@, address@);
            let token = printed_token(*access);
            let room = access.default_room@;
            &&& links.web_url@ == web_link(info, room, token)
            &&& links.setup_url@ == printed_setup_link(info, token)
            &&& links.signaling_ws@ == signaling_link(info)
            &&& links.agent_sh@ == shell_command(signaling_link(info), room, token)
            &&& links.agent_ps@ == powershell_command(signaling_link(info), room, token)
        }),
{
    let none = PageHeaders { authorization: None, host: None, forwarded_proto: None };
    let mut info = resolve_host_info(&none, site.public_host.as_str());
    if site.public_host.as_str().is_empty() {
        if unspecified {
            let mut host = "<YOUR_SERVER_IP>:".to_owned();
            host.append(port);
            info.host = host;
        } else {
            info.host = address.to_owned();
        }
    }
    let token = startup_token_shown(access);
    let room = access.default_room.as_str();
    let signaling_ws = write_signaling_link(&info);
    let mut setup_url = write_setup_link(&info);
    setup_url.append("#token=");
    setup_url.append(token.as_str());
    let agent_sh = write_shell_command(signaling_ws.as_str(), room, token.as_str());
    let agent_ps = write_powershell_command(signaling_ws.as_str(), room, token.as_str());
    Links {
        web_url: write_web_link(&info, room, token.as_str()),
        setup_url,
        signaling_ws,
        agent_sh,
        agent_ps,
    }
}

/// A caller without a token learns nothing of tokens and rooms: two servers
/// that differ in those alone answer alike.
pub proof fn lemma_setup_hides_secrets(
    one: SetupResponse,
    other: SetupResponse,
    access_one: Access,
    access_other: Access,
    rooms_one: Map<Seq<char>, Room>,
    rooms_other: Map<Seq<char>, Room>,
    site: Site,
    info: HostModel,
)
    requires
        access_one.default_room@ == access_other.default_room@,
        setup_answer(one, access_one, rooms_one, site, info, None),
        setup_answer(other, access_other, rooms_other, site, info, None),
    ensures
        one.authenticated == other.authenticated,
        one.room@ == other.room@,
        one.signaling_ws@ == other.signaling_ws@,
        one.setup_url@ == other.setup_url@,
        one.stun_url.deep_view() == other.stun_url.deep_view(),
        one.turn_url.deep_view() == other.turn_url.deep_view(),
        one.token is None && other.token is None,
        one.web_url is None && other.web_url is None,
        one.agent_cmd_sh is None && other.agent_cmd_sh is None,
        one.agent_cmd_ps is None && other.agent_cmd_ps is None,
        one.active_rooms is None && other.active_rooms is None,
{
}

/// A token of one room shows who is in that room, and in no other.
pub proof fn lemma_room_token_shows_own_room(
    response: SetupResponse,
    access: Access,
    rooms: Map<Seq<char>, Room>,
    site: Site,
    info: HostModel,
    room: Seq<char>,
    token: Seq<char>,
)
    requires
        !access.shared(),
        setup_answer(response, access, rooms, site, info, Some((room, token))),
    ensures
        response.active_rooms matches Some(list) && {
            &&& list@.len() <= 1
            &&& forall|i: int| 0 <= i < list@.len() ==> (#[trigger] list@[i]).name@ == room
        },
{
    let list = response.active_rooms->0@;
    assert forall|i: int| 0 <= i < list.len() implies (#[trigger] list[i]).name@ == room by {
        assert(shown(true, room, list[i].name@));
    }
    if list.len() > 1 {
        assert(list[0].name@ != list[1].name@);
    }
}

/// An asset that the browser asks for.
pub enum Asset {
    /// The file, with the type of its contents.
    File(String, String),
    /// The entry page, in place of a file that is not there.
    Index,
    /// A page that points to the setup page, where there is no entry page.
    Fallback,
}

/// The file that a path names: without the slashes that it begins with, and the
/// entry page where nothing is left.
pub open spec fn asset_path(path: Seq<char>) -> Seq<char> {
    let rest = without_prefix(path, "/"@);
    if rest.len() > 0 {
        rest
    } else {
        "index.html"@
    }
}

/// Finds the file that a path names.
pub fn asset_path_of(path: &str) -> (file: String)
    ensures
        file@ == asset_path(path@),
{
    proof {
        reveal_strlit("/");
    }
    let rest = strip_prefix(path, "/");
    if rest.as_str().is_empty() {
        "index.html".to_owned()
    } else {
        rest
    }
}

/// The content type that `mime_guess` finds for a file name.
pub uninterp spec fn guessed_type(file: Seq<char>) -> Seq<char>;

/// A file name in which every system finds the same extension: without the
/// backslashes and colons that some systems take for separators.
pub open spec fn portable_name(file: Seq<char>) -> bool {
    !file.contains('\\') && !file.contains(':')
}

/// Finds the content type of a file name with `mime_guess::from_path` and
/// `first_or_octet_stream`. The result is named [`guessed_type`]. Nothing is
/// said where the name holds a backslash or a colon: there the extension
/// depends on the system.
#[verifier::external_body]
fn guess_type(file: &str) -> (kind: String)
    ensures
        portable_name(file@) ==> kind@ == guessed_type(file@),
{
    mime_guess::from_path(file).first_or_octet_stream().as_ref().to_string()
}

/// What a path is answered: its file where that is there, else the entry page,
/// else a page that points to the setup page.
pub open spec fn serves(asset: Asset, path: Seq<char>, found: bool, has_index: bool) -> bool {
    &&& found ==> {
        &&& asset matches Asset::File(file, kind)
        &&& file@ == asset_path(path)
        &&& portable_name(file@) ==> kind@ == guessed_type(file@)
    }
    &&& !found && has_index ==> asset is Index
    &&& !found && !has_index ==> asset is Fallback
}

/// Decides what a path is answered. `found` says that the file is there, and
/// `has_index` that the entry page is. Of the content type nothing is said
/// where the name of the file holds a backslash or a colon.
pub fn serve_asset(path: &str, found: bool, has_index: bool) -> (asset: Asset)
    ensures
        serves(asset, path@, found, has_index),
{
    if found {
        let file = asset_path_of(path);
        let kind = guess_type(file.as_str());
        Asset::File(file, kind)
    } else if has_index {
        Asset::Index
    } else {
        Asset::Fallback
    }
}

/// How long the answer to a path may be cached, where it is a file or a page in
/// place of one.
pub open spec fn asset_rule(path: Seq<char>, status: u16, file: bool) -> Option<Seq<char>> {
    cache_rule(
        path,
        if file {
            status
        } else {
            404
        },
    )
}

/// How long the answer to a path may be cached, once it is known what it is. A
/// page in place of a file goes by the rule for a file that is not there, so it
/// is never kept as long as a file whose contents its name stands for.
pub fn asset_policy(path: &str, status: u16, asset: &Asset) -> (policy: Option<&'static str>)
    ensures
        match policy {
            Some(policy) => asset_rule(path@, status, asset is File) == Some(policy@),
            None => asset_rule(path@, status, asset is File) is None,
        },
        !(asset is File) && path@ != "/ws"@ ==> policy is Some && (policy->0@ == "no-cache"@
            || policy->0@ == "no-store"@),
{
    match asset {
        Asset::File(_, _) => cache_policy(path, status),
        _ => cache_policy(path, 404),
    }
}

/// What is said of caching. Of a signaling connection nothing; answers under
/// `/api/` and the two setup pages are never stored; a file under `/assets/`
/// that is there is kept for a year; anything else is asked for again.
pub proof fn lemma_cache_rule(path: Seq<char>, status: u16)
    ensures
        path == "/ws"@ ==> cache_rule(path, status) is None,
        "/api/"@.is_prefix_of(path) || path == "/setup"@ || path == "/config"@ ==> cache_rule(
            path,
            status,
        ) == Some("no-store"@),
        "/assets/"@.is_prefix_of(path) && 200 <= status < 300 ==> cache_rule(path, status) == Some(
            "public, max-age=31536000, immutable"@,
        ),
        "/assets/"@.is_prefix_of(path) && !(200 <= status < 300) ==> cache_rule(path, status)
            == Some("no-cache"@),
        path != "/ws"@ && !"/api/"@.is_prefix_of(path) && path != "/setup"@ && path != "/config"@
            && !"/assets/"@.is_prefix_of(path) ==> cache_rule(path, status) == Some("no-cache"@),
{
    reveal_strlit("/ws");
    reveal_strlit("/api/");
    reveal_strlit("/setup");
    reveal_strlit("/config");
    reveal_strlit("/assets/");
    assert("/ws"@.len() == 3 && "/api/"@.len() == 5 && "/setup"@.len() == 6 && "/config"@.len()
        == 7 && "/assets/"@.len() == 8);
    if "/api/"@.is_prefix_of(path) {
        assert(path.subrange(0, 5)[1] == 'a' && path.subrange(0, 5)[2] == 'p');
        assert(path[1] == 'a' && path[2] == 'p');
    }
    if "/assets/"@.is_prefix_of(path) {
        assert(path.subrange(0, 8)[1] == 'a' && path.subrange(0, 8)[2] == 's');
        assert(path[1] == 'a' && path[2] == 's');
    }
    assert("/setup"@[1] == 's' && "/config"@[1] == 'c');
}

/// A page in place of a file is never kept, and a file is as its path says.
pub proof fn lemma_asset_rule(path: Seq<char>, status: u16)
    ensures
        asset_rule(path, status, true) == cache_rule(path, status),
        path != "/ws"@ ==> asset_rule(path, status, false) == Some("no-cache"@) || asset_rule(
            path,
            status,
            false,
        ) == Some("no-store"@),
        "/assets/"@.is_prefix_of(path) ==> asset_rule(path, status, false) == Some("no-cache"@),
{
    lemma_cache_rule(path, 404);
}

/// A prefix is taken off once more where it stands there once more, and what is
/// left does not begin with it.
pub proof fn lemma_without_prefix(text: Seq<char>, prefix: Seq<char>)
    requires
        prefix.len() > 0,
    ensures
        without_prefix(prefix + text, prefix) == without_prefix(text, prefix),
        !prefix.is_prefix_of(text) ==> without_prefix(text, prefix) == text,
        !prefix.is_prefix_of(without_prefix(text, prefix)),
    decreases text.len(),
{
    let whole = prefix + text;
    assert(whole.subrange(0, prefix.len() as int) =~= prefix);
    assert(whole.skip(prefix.len() as int) =~= text);
    if prefix.is_prefix_of(text) {
        lemma_without_prefix(text.skip(prefix.len() as int), prefix);
    }
}

/// A public host is named without its scheme, and links to it are encrypted
/// where it has the scheme `https` or ends with the port 443. Without one the
/// host that the request names is used, else port 8080 of this machine; links
/// are then encrypted where the request came over `https`.
pub proof fn lemma_host_of(
    bare: Seq<char>,
    host: Option<Seq<char>>,
    proto: Option<Seq<char>>,
)
    ensures
        !"https://"@.is_prefix_of(bare) && !"http://"@.is_prefix_of(bare) ==> {
            &&& host_of(host, proto, "https://"@ + bare).host == bare
            &&& host_of(host, proto, "https://"@ + bare).secure
            &&& host_of(host, proto, "http://"@ + bare).host == bare
            &&& host_of(host, proto, "http://"@ + bare).secure == ":443"@.is_suffix_of(
                "http://"@ + bare,
            )
            &&& bare.len() > 0 ==> host_of(host, proto, bare).host == bare && host_of(
                host,
                proto,
                bare,
            ).secure == ":443"@.is_suffix_of(bare)
        },
        bare.len() > 0 ==> host_of(host, proto, bare).host == without_prefix(
            without_prefix(bare, "https://"@),
            "http://"@,
        ) && host_of(host, proto, bare).secure == ("https://"@.is_prefix_of(bare)
            || ":443"@.is_suffix_of(bare)),
        host matches Some(name) ==> host_of(host, proto, Seq::empty()).host == name,
        host is None ==> host_of(host, proto, Seq::empty()).host == "127.0.0.1:8080"@,
        host_of(host, proto, Seq::empty()).secure <==> proto == Some("https"@),
{
    reveal_strlit("https://");
    reveal_strlit("http://");
    assert("https://"@.len() == 8 && "http://"@.len() == 7);
    let https = "https://"@ + bare;
    let http = "http://"@ + bare;
    if !"https://"@.is_prefix_of(bare) && !"http://"@.is_prefix_of(bare) {
        lemma_without_prefix(bare, "https://"@);
        lemma_without_prefix(bare, "http://"@);
        assert(https.subrange(0, 8) =~= "https://"@);
        assert("http://"@[4] == ':' && "https://"@[4] == 's');
        assert(!"https://"@.is_prefix_of(http)) by {
            assert(http[4] == ':');
            if "https://"@.is_prefix_of(http) {
                assert(http.subrange(0, 8)[4] == http[4]);
            }
        }
        lemma_without_prefix(http, "https://"@);
    }
}

/// The links of a host: over `wss` and `https` where they are encrypted, else over
/// `ws` and `http`. The room and the token stand in the fragment of the chat page.
pub proof fn lemma_links(info: HostModel, room: Seq<char>, token: Seq<char>)
    ensures
        info.secure ==> {
            &&& signaling_link(info) == "wss://"@ + info.host + "/ws"@
            &&& setup_link(info) == "https://"@ + info.host + "/setup"@
            &&& web_link(info, room, token) == "https://"@ + info.host + "/#room="@ + room
                + "&token="@ + token
        },
        !info.secure ==> {
            &&& signaling_link(info) == "ws://"@ + info.host + "/ws"@
            &&& setup_link(info) == "http://"@ + info.host + "/setup"@
            &&& web_link(info, room, token) == "http://"@ + info.host + "/#room="@ + room
                + "&token="@ + token
        },
{
    reveal_strlit("wss");
    reveal_strlit("ws");
    reveal_strlit("https");
    reveal_strlit("http");
    reveal_strlit("://");
    reveal_strlit("wss://");
    reveal_strlit("ws://");
    reveal_strlit("https://");
    reveal_strlit("http://");
    assert("wss"@ + "://"@ =~= "wss://"@);
    assert("ws"@ + "://"@ =~= "ws://"@);
    assert("https"@ + "://"@ =~= "https://"@);
    assert("http"@ + "://"@ =~= "http://"@);
}

/// The commands that start an agent set the signaling server, the room and the
/// token, in this order and each in quotation marks, and then run it.
pub proof fn lemma_commands(signaling: Seq<char>, room: Seq<char>, token: Seq<char>)
    ensures
        shell_command(signaling, room, token) == ("SIGNALING_URL=\""@ + signaling + "\" "@) + (
        "ROOM_ID=\""@ + room + "\" "@) + ("SIGNALING_TOKEN=\""@ + token + "\" "@)
            + "ai-remote-agent"@,
        powershell_command(signaling, room, token) == ("$env:SIGNALING_URL=\""@ + signaling
            + "\"; "@) + ("$env:ROOM_ID=\""@ + room + "\"; "@) + ("$env:SIGNALING_TOKEN=\""@ + token
            + "\"; "@) + "ai-remote-agent"@,
{
    reveal_strlit("\" ");
    reveal_strlit("ROOM_ID=\"");
    reveal_strlit("\" ROOM_ID=\"");
    reveal_strlit("SIGNALING_TOKEN=\"");
    reveal_strlit("\" SIGNALING_TOKEN=\"");
    reveal_strlit("ai-remote-agent");
    reveal_strlit("\" ai-remote-agent");
    reveal_strlit("\"; ");
    reveal_strlit("$env:ROOM_ID=\"");
    reveal_strlit("\"; $env:ROOM_ID=\"");
    reveal_strlit("$env:SIGNALING_TOKEN=\"");
    reveal_strlit("\"; $env:SIGNALING_TOKEN=\"");
    reveal_strlit("\"; ai-remote-agent");
    assert("\" ROOM_ID=\""@ =~= "\" "@ + "ROOM_ID=\""@);
    assert("\" SIGNALING_TOKEN=\""@ =~= "\" "@ + "SIGNALING_TOKEN=\""@);
    assert("\" ai-remote-agent"@ =~= "\" "@ + "ai-remote-agent"@);
    assert("\"; $env:ROOM_ID=\""@ =~= "\"; "@ + "$env:ROOM_ID=\""@);
    assert("\"; $env:SIGNALING_TOKEN=\""@ =~= "\"; "@ + "$env:SIGNALING_TOKEN=\""@);
    assert("\"; ai-remote-agent"@ =~= "\"; "@ + "ai-remote-agent"@);
    assert(shell_command(signaling, room, token) =~= ("SIGNALING_URL=\""@ + signaling + "\" "@) + (
    "ROOM_ID=\""@ + room + "\" "@) + ("SIGNALING_TOKEN=\""@ + token + "\" "@)
        + "ai-remote-agent"@);
    assert(powershell_command(signaling, room, token) =~= ("$env:SIGNALING_URL=\""@ + signaling
        + "\"; "@) + ("$env:ROOM_ID=\""@ + room + "\"; "@) + ("$env:SIGNALING_TOKEN=\""@ + token
        + "\"; "@) + "ai-remote-agent"@);
}

/// What the setup page is answered to a caller that proved to know a token: the
/// links and the commands with the room and that token, and who is in the rooms,
/// in all of them where all share one token. Whoever did not is given the
/// default room and where to signal.
pub proof fn lemma_setup_answer(
    response: SetupResponse,
    access: Access,
    rooms: Map<Seq<char>, Room>,
    site: Site,
    info: HostModel,
    credentials: Option<(Seq<char>, Seq<char>)>,
)
    requires
        setup_answer(response, access, rooms, site, info, credentials),
    ensures
        response.authenticated <==> credentials is Some,
        response.signaling_ws@ == signaling_link(info) && response.setup_url@ == setup_link(info),
        response.stun_url.deep_view() == site.stun_url.deep_view(),
        response.turn_url.deep_view() == site.turn_url.deep_view(),
        credentials is None ==> response.room@ == access.default_room@ && response.token is None
            && response.web_url is None && response.agent_cmd_sh is None
            && response.agent_cmd_ps is None && response.active_rooms is None,
        credentials matches Some((room, token)) ==> {
            &&& response.room@ == room && response.token.deep_view() == Some(token)
            &&& response.web_url.deep_view() == Some(web_link(info, room, token))
            &&& response.agent_cmd_sh.deep_view() == Some(
                shell_command(response.signaling_ws@, room, token),
            )
            &&& response.agent_cmd_ps.deep_view() == Some(
                powershell_command(response.signaling_ws@, room, token),
            )
            &&& response.active_rooms matches Some(list) && lists_rooms(
                list@,
                rooms,
                access.room_tokens@.dom().len() > 0,
                room,
            )
        },
{
}

/// The token that is printed is that of the default room where it has its own,
/// else the shared one. The host that is printed is the public one; without one
/// it is the address that is listened on, and where that is any address a place
/// to fill in before the port.
pub proof fn lemma_printed(
    access: Access,
    public_host: Seq<char>,
    unspecified: bool,
    port: Seq<char>,
    address: Seq<char>,
)
    ensures
        access.room_tokens@.contains_key(access.default_room@) ==> printed_token(access)
            == access.room_tokens@[access.default_room@]@,
        !access.room_tokens@.contains_key(access.default_room@) ==> printed_token(access)
            == access.token@,
        public_host.len() > 0 ==> printed_host(public_host, unspecified, port, address) == host_of(
            None,
            None,
            public_host,
        ),
        public_host.len() == 0 ==> {
            let info = printed_host(public_host, unspecified, port, address);
            &&& unspecified ==> info.host == "<YOUR_SERVER_IP>:"@ + port
            &&& !unspecified ==> info.host == address
            &&& !info.secure
        },
        ({
            let info = printed_host(public_host, unspecified, port, address);
            info.secure ==> printed_setup_link(info, printed_token(access)) == "https://"@
                + info.host + "/setup"@ + "#token="@ + printed_token(access)
        }),
        ({
            let info = printed_host(public_host, unspecified, port, address);
            !info.secure ==> printed_setup_link(info, printed_token(access)) == "http://"@
                + info.host + "/setup"@ + "#token="@ + printed_token(access)
        }),
{
    lemma_links(
        printed_host(public_host, unspecified, port, address),
        Seq::empty(),
        printed_token(access),
    );
}

/// A path is answered with its file exactly where that is there, else with the
/// entry page where that is, and else with the page that points to the setup
/// page.
pub proof fn lemma_serves(asset: Asset, path: Seq<char>, found: bool, has_index: bool)
    requires
        serves(asset, path, found, has_index),
    ensures
        asset is File <==> found,
        asset is Index <==> !found && has_index,
        asset is Fallback <==> !found && !has_index,
        asset matches Asset::File(file, _) ==> (portable_name(file@) <==> !file@.contains('\\')
            && !file@.contains(':')),
        asset matches Asset::File(file, kind) ==> file@ == asset_path(path) && (!file@.contains(
            '\\',
        ) && !file@.contains(':') ==> kind@ == guessed_type(file@)),
{
}

/// A path names the file behind the slashes that it begins with, and the entry
/// page where nothing is left.
pub proof fn lemma_asset_path(rest: Seq<char>)
    ensures
        asset_path(seq!['/'] + rest) == asset_path(rest),
        rest.len() > 0 && rest[0] != '/' ==> asset_path(rest) == rest,
        rest.len() == 0 ==> asset_path(rest) == "index.html"@,
{
    reveal_strlit("/");
    assert("/"@ =~= seq!['/']);
    lemma_without_prefix(rest, "/"@);
    if rest.len() > 0 && rest[0] != '/' {
        assert(!"/"@.is_prefix_of(rest)) by {
            if "/"@.is_prefix_of(rest) {
                assert(rest.subrange(0, 1)[0] == rest[0]);
            }
        }
    }
}

} // verus!
