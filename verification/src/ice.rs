//! ICE servers: which STUN and TURN addresses each peer is given, and which of
//! them the home agent can use.

use crate::json::{
    json_level, last_member, lemma_member_reads, lemma_only_members, lemma_own_names, member_of,
    member_texts, members_map, open_json, reads_back, spells, text_member_of, tree_shape, tree_text, write_array,
    write_object, write_text, Json, JsonShape, JsonTree,
};
use crate::text::{
    contains_text, lemma_non_empty, lemma_spaced_pieces, list_contains, non_empty, occurs_in,
    pieces, result_view, split, starts_with, white_space,
};
use vstd::prelude::*;

verus! {

/// Most entries of a signaled list, and most addresses of one entry, that are looked at.
pub const MAX_SIGNALED_ICE_ENTRIES: usize = 8;

/// The addresses of a browser-style ICE server: a string or a list of strings.
pub enum IceUrls {
    One(String),
    Many(Vec<String>),
}

/// A browser-style ICE server.
pub struct IceSpec {
    pub urls: IceUrls,
    pub username: String,
    pub credential: String,
}

/// What an [`IceSpec`] holds.
pub struct IceSpecModel {
    pub urls: Seq<Seq<char>>,
    pub username: Seq<char>,
    pub credential: Seq<char>,
}

impl DeepView for IceUrls {
    type V = Seq<Seq<char>>;

    open spec fn deep_view(&self) -> Seq<Seq<char>> {
        match self {
            IceUrls::One(url) => seq![url@],
            IceUrls::Many(urls) => urls.deep_view(),
        }
    }
}

impl DeepView for IceSpec {
    type V = IceSpecModel;

    open spec fn deep_view(&self) -> IceSpecModel {
        IceSpecModel {
            urls: self.urls.deep_view(),
            username: self.username@,
            credential: self.credential@,
        }
    }
}

/// How the credential of an ICE server is meant.
#[derive(Clone, Copy, Debug, PartialEq, Eq, Structural)]
pub enum CredentialType {
    Unspecified,
    Password,
}

/// An ICE server as the home agent uses it.
pub struct IceServer {
    pub urls: Vec<String>,
    pub username: String,
    pub credential: String,
    pub credential_type: CredentialType,
}

/// What an [`IceServer`] holds.
pub struct IceServerModel {
    pub urls: Seq<Seq<char>>,
    pub username: Seq<char>,
    pub credential: Seq<char>,
    pub credential_type: CredentialType,
}

impl DeepView for IceServer {
    type V = IceServerModel;

    open spec fn deep_view(&self) -> IceServerModel {
        IceServerModel {
            urls: self.urls.deep_view(),
            username: self.username@,
            credential: self.credential@,
            credential_type: self.credential_type,
        }
    }
}

/// The ICE settings of a peer connection.
pub struct RtcConfiguration {
    pub ice_servers: Vec<IceServer>,
    /// Only relayed connections are allowed.
    pub relay: bool,
}

/// What an [`RtcConfiguration`] holds.
pub struct RtcModel {
    pub ice_servers: Seq<IceServerModel>,
    pub relay: bool,
}

impl DeepView for RtcConfiguration {
    type V = RtcModel;

    open spec fn deep_view(&self) -> RtcModel {
        RtcModel { ice_servers: self.ice_servers.deep_view(), relay: self.relay }
    }
}

/// A copy of a list of texts.
pub fn clone_texts(texts: &Vec<String>) -> (copy: Vec<String>)
    ensures
        copy.deep_view() == texts.deep_view(),
{
    let mut copy: Vec<String> = Vec::new();
    for i in 0..texts.len()
        invariant
            copy.deep_view() =~= texts.deep_view().take(i as int),
    {
        let ghost before = copy.deep_view();
        copy.push(texts[i].clone());
        assert(copy.deep_view() =~= before.push(texts@[i as int]@));
    }
    assert(texts.deep_view().take(texts@.len() as int) =~= texts.deep_view());
    copy
}

impl IceServer {
    /// A copy of the server with other addresses.
    fn with_urls(&self, urls: Vec<String>) -> (server: IceServer)
        ensures
            server.deep_view() == (IceServerModel { urls: urls.deep_view(), ..self.deep_view() }),
    {
        IceServer {
            urls,
            username: self.username.clone(),
            credential: self.credential.clone(),
            credential_type: self.credential_type,
        }
    }

    /// A server that needs no credentials.
    pub fn open(urls: Vec<String>) -> (server: IceServer)
        ensures
            server.deep_view() == open_server(urls.deep_view()),
    {
        IceServer {
            urls,
            username: String::new(),
            credential: String::new(),
            credential_type: CredentialType::Unspecified,
        }
    }
}

/// A server that needs no credentials.
pub open spec fn open_server(urls: Seq<Seq<char>>) -> IceServerModel {
    IceServerModel {
        urls,
        username: Seq::empty(),
        credential: Seq::empty(),
        credential_type: CredentialType::Unspecified,
    }
}

/// The server that a browser-style entry describes.
pub open spec fn server_of(spec: IceSpecModel) -> IceServerModel {
    IceServerModel {
        urls: spec.urls,
        username: spec.username,
        credential: spec.credential,
        credential_type: CredentialType::Password,
    }
}

/// Entries of a browser-style list, each read or with the words of its error.
pub open spec fn entries_view(entries: Seq<Result<IceSpec, String>>) -> Seq<
    Result<IceSpecModel, Seq<char>>,
> {
    entries.map_values(|entry: Result<IceSpec, String>| result_view(entry))
}

/// The servers that browser-style entries describe, one for one; the first
/// entry that could not be read fails the whole list.
pub open spec fn listed_servers(entries: Seq<Result<IceSpecModel, Seq<char>>>) -> Result<
    Seq<IceServerModel>,
    Seq<char>,
>
    decreases entries.len(),
{
    if entries.len() == 0 {
        Ok(Seq::empty())
    } else {
        match listed_servers(entries.drop_last()) {
            Err(words) => Err(words),
            Ok(before) => match entries.last() {
                Err(words) => Err(words),
                Ok(spec) => Ok(before.push(server_of(spec))),
            },
        }
    }
}

/// The addresses of an entry as a list.
fn urls_of(urls: IceUrls) -> (list: Vec<String>)
    ensures
        list.deep_view() == urls.deep_view(),
{
    match urls {
        IceUrls::One(url) => {
            let ghost text = url@;
            let mut list: Vec<String> = Vec::new();
            list.push(url);
            assert(list.deep_view() =~= seq![text]);
            list
        },
        IceUrls::Many(list) => list,
    }
}

/// Takes the servers that browser-style entries describe.
pub fn parse_ice_servers(entries: Vec<Result<IceSpec, String>>) -> (servers: Result<
    Vec<IceServer>,
    String,
>)
    ensures
        result_view(servers) == listed_servers(entries_view(entries@)),
{
    let ghost all = entries_view(entries@);
    let mut servers: Vec<IceServer> = Vec::new();
    assert(servers.deep_view() =~= Seq::<IceServerModel>::empty());
    assert(all.take(0) =~= Seq::empty());
    for entry in it: entries
        invariant
            it.seq() == entries@,
            all == entries_view(entries@),
            listed_servers(all.take(it.index())) == Ok::<Seq<IceServerModel>, Seq<char>>(
                servers.deep_view(),
            ),
    {
        let ghost before = servers.deep_view();
        let ghost model = result_view(entry);
        proof {
            assert(all[it.index()] == model);
            assert(all.take(it.index() + 1).drop_last() =~= all.take(it.index()));
        }
        match entry {
            Err(words) => {
                proof {
                    lemma_first_failure(all, it.index(), words@);
                }
                return Err(words);
            },
            Ok(spec) => {
                let server = IceServer {
                    urls: urls_of(spec.urls),
                    username: spec.username,
                    credential: spec.credential,
                    credential_type: CredentialType::Password,
                };
                servers.push(server);
                assert(servers.deep_view() =~= before.push(server_of(model->Ok_0)));
            },
        }
    }
    assert(all.take(all.len() as int) =~= all);
    Ok(servers)
}

/// The first entry that could not be read decides.
proof fn lemma_first_failure(
    entries: Seq<Result<IceSpecModel, Seq<char>>>,
    n: int,
    words: Seq<char>,
)
    requires
        0 <= n < entries.len(),
        listed_servers(entries.take(n)) is Ok,
        entries[n] == Err::<IceSpecModel, Seq<char>>(words),
    ensures
        listed_servers(entries) == Err::<Seq<IceServerModel>, Seq<char>>(words),
    decreases entries.len(),
{
    if n == entries.len() - 1 {
        assert(entries.drop_last() =~= entries.take(n));
    } else {
        assert(entries.drop_last().take(n) =~= entries.take(n));
        lemma_first_failure(entries.drop_last(), n, words);
    }
}

/// A list gives servers exactly where every entry could be read, and then one
/// for each, in the order of the list, with its addresses and its login as a
/// password.
pub proof fn lemma_listed_servers(entries: Seq<Result<IceSpecModel, Seq<char>>>)
    ensures
        listed_servers(entries) is Ok <==> forall|i: int|
            0 <= i < entries.len() ==> (#[trigger] entries[i]) is Ok,
        listed_servers(entries) matches Ok(servers) ==> {
            &&& servers.len() == entries.len()
            &&& forall|i: int|
                0 <= i < entries.len() ==> (#[trigger] servers[i]) == server_of(entries[i]->Ok_0)
        },
    decreases entries.len(),
{
    if entries.len() > 0 {
        let rest = entries.drop_last();
        lemma_listed_servers(rest);
        if listed_servers(entries) is Ok {
            assert forall|i: int| 0 <= i < entries.len() implies (#[trigger] entries[i]) is Ok by {
                if i < rest.len() {
                    assert(rest[i] == entries[i]);
                }
            }
        }
        if forall|i: int| 0 <= i < entries.len() ==> (#[trigger] entries[i]) is Ok {
            assert forall|i: int| 0 <= i < rest.len() implies (#[trigger] rest[i]) is Ok by {
                assert(rest[i] == entries[i]);
            }
        }
    }
}

/// An entry with one address as a string gives what the same entry gives with a
/// list of that address.
pub proof fn lemma_string_or_list(one: IceSpec, many: IceSpec)
    requires
        one.urls matches IceUrls::One(url) && many.urls matches IceUrls::Many(urls) && urls@.len()
            == 1 && urls@[0]@ == url@,
        one.username@ == many.username@,
        one.credential@ == many.credential@,
    ensures
        one.deep_view() == many.deep_view(),
        server_of(one.deep_view()) == server_of(many.deep_view()),
{
    assert(one.urls.deep_view() =~= many.urls.deep_view());
}

/// The text that a JSON string holds.
pub open spec fn json_string(text: Seq<char>) -> Option<Seq<char>> {
    match json_level(text) {
        Some(JsonShape::Text(value)) => Some(value),
        _ => None,
    }
}

/// The texts that JSON strings hold, `None` where one of them is no string.
pub open spec fn json_strings(items: Seq<Seq<char>>) -> Option<Seq<Seq<char>>>
    decreases items.len(),
{
    if items.len() == 0 {
        Some(Seq::empty())
    } else {
        match (json_strings(items.drop_last()), json_string(items.last())) {
            (Some(before), Some(value)) => Some(before.push(value)),
            _ => None,
        }
    }
}

/// The addresses in a JSON string, or in a JSON array of strings.
pub open spec fn urls_in(text: Seq<char>) -> Option<Seq<Seq<char>>> {
    match json_level(text) {
        Some(JsonShape::Text(url)) => Some(seq![url]),
        Some(JsonShape::Array(items)) => json_strings(items),
        _ => None,
    }
}

/// A member that is a string, or an empty string where it is absent.
pub open spec fn string_or_empty(
    members: Map<Seq<char>, Seq<char>>,
    name: Seq<char>,
) -> Option<Seq<char>> {
    if members.contains_key(name) {
        json_string(members[name])
    } else {
        Some(Seq::empty())
    }
}

/// An item that is a string, or an empty string where the list is shorter.
pub open spec fn item_or_empty(items: Seq<Seq<char>>, i: int) -> Option<Seq<char>> {
    if i < items.len() {
        json_string(items[i])
    } else {
        Some(Seq::empty())
    }
}

/// The parts of a browser-style ICE server, `None` where one of them is missing.
pub open spec fn spec_from_parts(
    urls: Option<Seq<Seq<char>>>,
    username: Option<Seq<char>>,
    credential: Option<Seq<char>>,
) -> Option<IceSpecModel> {
    match (urls, username, credential) {
        (Some(urls), Some(username), Some(credential)) => Some(
            IceSpecModel { urls, username, credential },
        ),
        _ => None,
    }
}

/// The browser-style ICE server in a JSON text: an object with the members
/// `urls`, `username` and `credential`, or an array of the three, of which
/// the last two may be absent.
pub open spec fn spec_in(text: Seq<char>) -> Option<IceSpecModel> {
    match json_level(text) {
        Some(JsonShape::Object(members)) => if members.contains_key("urls"@) {
            spec_from_parts(
                urls_in(members["urls"@]),
                string_or_empty(members, "username"@),
                string_or_empty(members, "credential"@),
            )
        } else {
            None
        },
        Some(JsonShape::Array(items)) => if 1 <= items.len() <= 3 {
            spec_from_parts(urls_in(items[0]), item_or_empty(items, 1), item_or_empty(items, 2))
        } else {
            None
        },
        _ => None,
    }
}

/// Reads a JSON string.
fn read_string(text: &str) -> (value: Option<String>)
    ensures
        value.deep_view() == json_string(text@),
{
    match open_json(text) {
        Some(Json::Text(value)) => Some(value),
        _ => None,
    }
}

/// Reads JSON strings.
fn read_strings(items: &Vec<String>) -> (values: Option<Vec<String>>)
    ensures
        values.deep_view() == json_strings(items.deep_view()),
{
    let ghost all = items.deep_view();
    let mut values: Vec<String> = Vec::new();
    assert(values.deep_view() =~= Seq::<Seq<char>>::empty());
    for i in 0..items.len()
        invariant
            all == items.deep_view(),
            json_strings(all.take(i as int)) == Some(values.deep_view()),
    {
        assert(all.take(i + 1).drop_last() =~= all.take(i as int));
        match read_string(items[i].as_str()) {
            Some(value) => {
                let ghost before = values.deep_view();
                let ghost text = value@;
                values.push(value);
                assert(values.deep_view() =~= before.push(text));
            },
            None => {
                proof {
                    lemma_json_strings_prefix(all, i + 1);
                }
                return None;
            },
        }
    }
    assert(all.take(all.len() as int) =~= all);
    Some(values)
}

/// An item that is no string spoils the list.
proof fn lemma_json_strings_prefix(items: Seq<Seq<char>>, n: int)
    requires
        0 <= n <= items.len(),
        json_strings(items.take(n)) is None,
    ensures
        json_strings(items) is None,
    decreases items.len(),
{
    if n < items.len() {
        assert(items.drop_last().take(n) =~= items.take(n));
        lemma_json_strings_prefix(items.drop_last(), n);
    } else {
        assert(items.take(n) =~= items);
    }
}

/// Reads the addresses of a browser-style ICE server.
fn read_urls(text: &str) -> (urls: Option<IceUrls>)
    ensures
        urls.deep_view() == urls_in(text@),
{
    match open_json(text) {
        Some(Json::Text(url)) => Some(IceUrls::One(url)),
        Some(Json::Array(items)) => match read_strings(&items) {
            Some(urls) => Some(IceUrls::Many(urls)),
            None => None,
        },
        _ => None,
    }
}

/// Reads a member that is a string and may be absent.
fn read_string_or_empty(members: &Vec<(String, String)>, name: &str) -> (value: Option<String>)
    ensures
        value.deep_view() == string_or_empty(members_map(members.deep_view()), name@),
{
    match last_member(members, name) {
        Some(i) => read_string(members[i].1.as_str()),
        None => Some(String::new()),
    }
}

/// Reads an item that is a string and may be absent.
fn read_item_or_empty(items: &Vec<String>, i: usize) -> (value: Option<String>)
    ensures
        value.deep_view() == item_or_empty(items.deep_view(), i as int),
{
    if i < items.len() {
        read_string(items[i].as_str())
    } else {
        Some(String::new())
    }
}

/// Reads a browser-style ICE server.
pub fn read_ice_spec(text: &str) -> (spec: Option<IceSpec>)
    ensures
        spec.deep_view() == spec_in(text@),
{
    let (urls, username, credential) = match open_json(text) {
        Some(Json::Object(members)) => match last_member(&members, "urls") {
            Some(i) => (
                read_urls(members[i].1.as_str()),
                read_string_or_empty(&members, "username"),
                read_string_or_empty(&members, "credential"),
            ),
            None => return None,
        },
        Some(Json::Array(items)) => {
            if items.len() < 1 || items.len() > 3 {
                return None;
            }
            (
                read_urls(items[0].as_str()),
                read_item_or_empty(&items, 1),
                read_item_or_empty(&items, 2),
            )
        },
        _ => return None,
    };
    match (urls, username, credential) {
        (Some(urls), Some(username), Some(credential)) => Some(
            IceSpec { urls, username, credential },
        ),
        _ => None,
    }
}

/// The first entries of a browser-style list, each read or found malformed.
pub open spec fn specs_in(list: JsonShape) -> Seq<Option<IceSpecModel>> {
    match list {
        JsonShape::Array(items) => {
            let n = if items.len() < MAX_SIGNALED_ICE_ENTRIES {
                items.len() as int
            } else {
                MAX_SIGNALED_ICE_ENTRIES as int
            };
            items.take(n).map_values(|item: Seq<char>| spec_in(item))
        },
        _ => Seq::empty(),
    }
}

/// Reads the first entries of a browser-style list.
pub fn read_ice_specs(list: &Json) -> (specs: Vec<Option<IceSpec>>)
    ensures
        specs.deep_view() == specs_in(list.deep_view()),
{
    let mut specs: Vec<Option<IceSpec>> = Vec::new();
    if let Json::Array(items) = list {
        let ghost wanted = specs_in(list.deep_view());
        let mut i: usize = 0;
        while i < items.len() && i < MAX_SIGNALED_ICE_ENTRIES
            invariant
                list.deep_view() == JsonShape::Array(items.deep_view()),
                wanted == specs_in(list.deep_view()),
                i <= items@.len(),
                i <= MAX_SIGNALED_ICE_ENTRIES,
                specs.deep_view() =~= wanted.take(i as int),
            decreases items@.len() - i,
        {
            let ghost before = specs.deep_view();
            let spec = read_ice_spec(items[i].as_str());
            let ghost model = spec.deep_view();
            specs.push(spec);
            assert(specs.deep_view() =~= before.push(model));
            assert(wanted[i as int] == model);
            i = i + 1;
        }
        assert(wanted.take(i as int) =~= wanted);
    } else {
        assert(specs.deep_view() =~= specs_in(list.deep_view()));
    }
    specs
}

/// An address that the home agent can use: STUN, or TURN that is not over TCP.
pub open spec fn is_udp_ice_url(url: Seq<char>) -> bool {
    &&& "stun:"@.is_prefix_of(url) || "turn:"@.is_prefix_of(url)
    &&& !occurs_in("transport=tcp"@, url)
}

/// Whether the home agent, which speaks STUN and TURN over UDP only, can use an address.
pub fn udp_ice_url(url: &str) -> (usable: bool)
    ensures
        usable == is_udp_ice_url(url@),
{
    (starts_with(url, "stun:") || starts_with(url, "turn:")) && !contains_text(url, "transport=tcp")
}

/// The addresses that the home agent can use, in their order; TURN needs credentials.
pub open spec fn usable_urls(urls: Seq<Seq<char>>, has_credentials: bool) -> Seq<Seq<char>>
    decreases urls.len(),
{
    if urls.len() == 0 {
        Seq::empty()
    } else {
        let before = usable_urls(urls.drop_last(), has_credentials);
        let url = urls.last();
        if is_udp_ice_url(url) && ("stun:"@.is_prefix_of(url) || has_credentials) {
            before.push(url)
        } else {
            before
        }
    }
}

/// The first entries of a list, as many as are looked at.
pub open spec fn limited(urls: Seq<Seq<char>>) -> Seq<Seq<char>> {
    if urls.len() <= MAX_SIGNALED_ICE_ENTRIES {
        urls
    } else {
        urls.take(MAX_SIGNALED_ICE_ENTRIES as int)
    }
}

/// The server that is left of an entry, `None` where it has no usable address.
pub open spec fn usable_server(spec: Option<IceSpecModel>) -> Option<IceServerModel> {
    match spec {
        Some(spec) => {
            let urls = limited(
                usable_urls(spec.urls, spec.username.len() > 0 && spec.credential.len() > 0),
            );
            if urls.len() > 0 {
                Some(server_of(IceSpecModel { urls, ..spec }))
            } else {
                None
            }
        },
        None => None,
    }
}

/// The servers that are left of a list of entries, in their order.
pub open spec fn usable_servers(specs: Seq<Option<IceSpecModel>>) -> Seq<IceServerModel>
    decreases specs.len(),
{
    if specs.len() == 0 {
        Seq::empty()
    } else {
        let before = usable_servers(specs.drop_last());
        match usable_server(specs.last()) {
            Some(server) => before.push(server),
            None => before,
        }
    }
}

/// Filtering more addresses keeps what was kept of fewer.
proof fn lemma_usable_prefix(urls: Seq<Seq<char>>, n: int, has_credentials: bool)
    requires
        0 <= n <= urls.len(),
    ensures
        usable_urls(urls.take(n), has_credentials).is_prefix_of(
            usable_urls(urls, has_credentials),
        ),
    decreases urls.len(),
{
    if n < urls.len() {
        assert(urls.drop_last().take(n) =~= urls.take(n));
        lemma_usable_prefix(urls.drop_last(), n, has_credentials);
        let kept = usable_urls(urls.take(n), has_credentials);
        let before = usable_urls(urls.drop_last(), has_credentials);
        let after = usable_urls(urls, has_credentials);
        assert(after.subrange(0, kept.len() as int) =~= before.subrange(0, kept.len() as int));
    } else {
        assert(urls.take(n) =~= urls);
    }
}

/// Keeps the usable addresses of a list, as many as are looked at.
fn keep_usable(urls: &Vec<String>, has_credentials: bool) -> (kept: Vec<String>)
    ensures
        kept.deep_view() == limited(usable_urls(urls.deep_view(), has_credentials)),
{
    let ghost all = urls.deep_view();
    let mut kept: Vec<String> = Vec::new();
    assert(kept.deep_view() =~= Seq::<Seq<char>>::empty());
    for i in 0..urls.len()
        invariant
            all == urls.deep_view(),
            kept@.len() <= MAX_SIGNALED_ICE_ENTRIES,
            kept.deep_view() == usable_urls(all.take(i as int), has_credentials),
    {
        let ghost before = kept.deep_view();
        assert(all.take(i + 1).drop_last() =~= all.take(i as int));
        let url = urls[i].as_str();
        if udp_ice_url(url) && (starts_with(url, "stun:") || has_credentials) {
            if kept.len() == MAX_SIGNALED_ICE_ENTRIES {
                proof {
                    lemma_usable_prefix(all, i as int, has_credentials);
                    lemma_usable_prefix(all, i + 1, has_credentials);
                    assert(usable_urls(all, has_credentials).take(
                        MAX_SIGNALED_ICE_ENTRIES as int,
                    ) =~= before);
                }
                return kept;
            }
            kept.push(urls[i].clone());
            assert(kept.deep_view() =~= before.push(all[i as int]));
        }
    }
    assert(all.take(all.len() as int) =~= all);
    kept
}

/// Keeps of a list of entries what the home agent can use. Malformed entries
/// and entries without a usable address are left out.
pub fn keep_usable_servers(specs: Vec<Option<IceSpec>>) -> (servers: Vec<IceServer>)
    ensures
        servers.deep_view() == usable_servers(specs.deep_view()),
{
    let ghost all = specs.deep_view();
    let mut servers: Vec<IceServer> = Vec::new();
    assert(servers.deep_view() =~= usable_servers(all.take(0)));
    for spec in it: specs
        invariant
            it.seq() == specs@,
            all == specs.deep_view(),
            servers.deep_view() == usable_servers(all.take(it.index())),
    {
        let ghost before = servers.deep_view();
        let ghost model = spec.deep_view();
        proof {
            assert(all.take(it.index() + 1).drop_last() =~= all.take(it.index()));
            assert(all[it.index()] == model);
        }
        if let Some(spec) = spec {
            let has_credentials = !spec.username.as_str().is_empty()
                && !spec.credential.as_str().is_empty();
            let listed = match spec.urls {
                IceUrls::One(url) => {
                    let ghost text = url@;
                    let mut urls: Vec<String> = Vec::new();
                    urls.push(url);
                    assert(urls.deep_view() =~= seq![text]);
                    urls
                },
                IceUrls::Many(urls) => urls,
            };
            let urls = keep_usable(&listed, has_credentials);
            if urls.len() > 0 {
                let server = IceServer {
                    urls,
                    username: spec.username,
                    credential: spec.credential,
                    credential_type: CredentialType::Password,
                };
                let ghost kept = server.deep_view();
                servers.push(server);
                assert(servers.deep_view() =~= before.push(kept));
            }
        }
    }
    assert(all.take(all.len() as int) =~= all);
    servers
}

/// Keeps the usable entries of the browser-style `iceServers` list that the
/// signaling server sends in `ready`. Malformed entries are skipped, not fatal.
pub fn ice_servers_from_signaling(value: &Json) -> (servers: Vec<IceServer>)
    ensures
        servers.deep_view() == usable_servers(specs_in(value.deep_view())),
{
    keep_usable_servers(read_ice_specs(value))
}

/// Of each address that the agent is given it can be used over UDP, and TURN
/// only with a login.
proof fn lemma_usable_urls(urls: Seq<Seq<char>>, has_credentials: bool)
    ensures
        forall|i: int|
            0 <= i < usable_urls(urls, has_credentials).len() ==> {
                let url = #[trigger] usable_urls(urls, has_credentials)[i];
                is_udp_ice_url(url) && ("stun:"@.is_prefix_of(url) || has_credentials)
            },
    decreases urls.len(),
{
    if urls.len() > 0 {
        lemma_usable_urls(urls.drop_last(), has_credentials);
        let before = usable_urls(urls.drop_last(), has_credentials);
        let after = usable_urls(urls, has_credentials);
        assert forall|i: int| 0 <= i < after.len() implies {
            let url = #[trigger] after[i];
            is_udp_ice_url(url) && ("stun:"@.is_prefix_of(url) || has_credentials)
        } by {
            if i < before.len() {
                assert(after[i] == before[i]);
            }
        }
    }
}

/// The agent is only ever given servers that it can use: each has an address,
/// every address is STUN or TURN over UDP, TURN comes with a login, and neither
/// servers nor addresses are more than are looked at.
pub proof fn lemma_signaled_servers_usable(specs: Seq<Option<IceSpecModel>>)
    requires
        specs.len() <= MAX_SIGNALED_ICE_ENTRIES,
    ensures
        usable_servers(specs).len() <= MAX_SIGNALED_ICE_ENTRIES,
        forall|i: int|
            0 <= i < usable_servers(specs).len() ==> given_server(
                #[trigger] usable_servers(specs)[i],
            ),
{
    lemma_usable_servers_bound(specs);
}

/// A server that the agent can use.
pub open spec fn given_server(server: IceServerModel) -> bool {
    &&& 1 <= server.urls.len() <= MAX_SIGNALED_ICE_ENTRIES
    &&& forall|k: int|
        0 <= k < server.urls.len() ==> {
            let url = #[trigger] server.urls[k];
            is_udp_ice_url(url) && ("stun:"@.is_prefix_of(url) || (server.username.len() > 0
                && server.credential.len() > 0))
        }
}

/// There are no more usable servers than entries, and each can be used.
proof fn lemma_usable_servers_bound(specs: Seq<Option<IceSpecModel>>)
    ensures
        usable_servers(specs).len() <= specs.len(),
        forall|i: int|
            0 <= i < usable_servers(specs).len() ==> given_server(
                #[trigger] usable_servers(specs)[i],
            ),
    decreases specs.len(),
{
    if specs.len() > 0 {
        lemma_usable_servers_bound(specs.drop_last());
        let before = usable_servers(specs.drop_last());
        let after = usable_servers(specs);
        if let Some(spec) = specs.last() {
            let login = spec.username.len() > 0 && spec.credential.len() > 0;
            lemma_usable_urls(spec.urls, login);
            let all = usable_urls(spec.urls, login);
            let urls = limited(all);
            assert forall|k: int| 0 <= k < urls.len() implies {
                let url = #[trigger] urls[k];
                is_udp_ice_url(url) && ("stun:"@.is_prefix_of(url) || login)
            } by {
                assert(urls[k] == all[k]);
            }
        }
        assert forall|i: int| 0 <= i < after.len() implies given_server(#[trigger] after[i]) by {
            if i < before.len() {
                assert(after[i] == before[i]);
            }
        }
    }
}

/// Public STUN servers, the last resort.
pub const DEFAULT_STUN_URLS: [&'static str; 2] = [
    "stun:stun.cloudflare.com:3478",
    "stun:stun.miwifi.com:3478",
];

/// The public STUN servers.
pub open spec fn default_stun_urls() -> Seq<Seq<char>> {
    seq!["stun:stun.cloudflare.com:3478"@, "stun:stun.miwifi.com:3478"@]
}

/// A server of the list has the address.
pub open spec fn lists_url(servers: Seq<IceServerModel>, url: Seq<char>) -> bool {
    exists|i: int| 0 <= i < servers.len() && (#[trigger] servers[i]).urls.contains(url)
}

/// The addresses that no server of the list has, in their order, each once.
pub open spec fn fresh_urls(urls: Seq<Seq<char>>, listed: Seq<IceServerModel>) -> Seq<Seq<char>>
    decreases urls.len(),
{
    if urls.len() == 0 {
        Seq::empty()
    } else {
        let before = fresh_urls(urls.drop_last(), listed);
        if lists_url(listed, urls.last()) || before.contains(urls.last()) {
            before
        } else {
            before.push(urls.last())
        }
    }
}

/// The local servers, then of each signaled server the addresses that are not listed yet.
pub open spec fn merged_servers(
    local: Seq<IceServerModel>,
    signaled: Seq<IceServerModel>,
) -> Seq<IceServerModel>
    decreases signaled.len(),
{
    if signaled.len() == 0 {
        local
    } else {
        let before = merged_servers(local, signaled.drop_last());
        let urls = fresh_urls(signaled.last().urls, before);
        if urls.len() > 0 {
            before.push(IceServerModel { urls, ..signaled.last() })
        } else {
            before
        }
    }
}

/// The settings of a connection: the merged servers, or public STUN where
/// neither side has any.
pub open spec fn merged_rtc(local: RtcModel, signaled: Seq<IceServerModel>) -> RtcModel {
    let servers = merged_servers(local.ice_servers, signaled);
    RtcModel {
        ice_servers: if servers.len() > 0 {
            servers
        } else {
            seq![open_server(default_stun_urls())]
        },
        relay: local.relay,
    }
}

/// Whether a server of the list has the address.
fn lists(servers: &Vec<IceServer>, url: &str) -> (found: bool)
    ensures
        found == lists_url(servers.deep_view(), url@),
{
    for i in 0..servers.len()
        invariant
            forall|k: int| 0 <= k < i ==> !(#[trigger] servers.deep_view()[k]).urls.contains(url@),
    {
        if list_contains(&servers[i].urls, url) {
            assert(servers.deep_view()[i as int].urls.contains(url@));
            return true;
        }
    }
    false
}

/// Takes the addresses that no server of the list has.
fn take_fresh(urls: &Vec<String>, listed: &Vec<IceServer>) -> (fresh: Vec<String>)
    ensures
        fresh.deep_view() == fresh_urls(urls.deep_view(), listed.deep_view()),
{
    let ghost all = urls.deep_view();
    let mut fresh: Vec<String> = Vec::new();
    assert(fresh.deep_view() =~= Seq::<Seq<char>>::empty());
    for i in 0..urls.len()
        invariant
            all == urls.deep_view(),
            fresh.deep_view() == fresh_urls(all.take(i as int), listed.deep_view()),
    {
        let ghost before = fresh.deep_view();
        assert(all.take(i + 1).drop_last() =~= all.take(i as int));
        if !lists(listed, urls[i].as_str()) && !list_contains(&fresh, urls[i].as_str()) {
            fresh.push(urls[i].clone());
            assert(fresh.deep_view() =~= before.push(all[i as int]));
        }
    }
    assert(all.take(all.len() as int) =~= all);
    fresh
}

/// Local ICE settings first, then the signaling server's without duplicate
/// URLs. Public STUN is only a last resort when neither side configured any.
pub fn merge_rtc_configuration(local: &RtcConfiguration, signaled: &Vec<IceServer>) -> (rtc:
    RtcConfiguration)
    ensures
        rtc.deep_view() == merged_rtc(local.deep_view(), signaled.deep_view()),
{
    let ghost kept = local.ice_servers.deep_view();
    let ghost all = signaled.deep_view();
    let mut servers: Vec<IceServer> = Vec::new();
    for i in 0..local.ice_servers.len()
        invariant
            kept == local.ice_servers.deep_view(),
            servers.deep_view() =~= kept.take(i as int),
    {
        let ghost before = servers.deep_view();
        let server = &local.ice_servers[i];
        servers.push(server.with_urls(clone_texts(&server.urls)));
        assert(servers.deep_view() =~= before.push(kept[i as int]));
    }
    assert(kept.take(kept.len() as int) =~= kept);
    assert(all.take(0) =~= Seq::<IceServerModel>::empty());
    for i in 0..signaled.len()
        invariant
            kept == local.ice_servers.deep_view(),
            all == signaled.deep_view(),
            servers.deep_view() == merged_servers(kept, all.take(i as int)),
    {
        let ghost before = servers.deep_view();
        assert(all.take(i + 1).drop_last() =~= all.take(i as int));
        let urls = take_fresh(&signaled[i].urls, &servers);
        let ghost fresh = urls.deep_view();
        if urls.len() > 0 {
            servers.push(signaled[i].with_urls(urls));
            assert(servers.deep_view() =~= before.push(
                IceServerModel { urls: fresh, ..all[i as int] },
            ));
        }
    }
    assert(all.take(all.len() as int) =~= all);
    if servers.len() == 0 {
        let mut urls: Vec<String> = Vec::new();
        urls.push(DEFAULT_STUN_URLS[0].to_owned());
        urls.push(DEFAULT_STUN_URLS[1].to_owned());
        assert(urls.deep_view() =~= default_stun_urls());
        servers.push(IceServer::open(urls));
        assert(servers.deep_view() =~= seq![open_server(default_stun_urls())]);
    }
    RtcConfiguration { ice_servers: servers, relay: local.relay }
}

/// Only relayed connections are allowed, and no server can relay over UDP.
pub open spec fn relay_impossible(rtc: RtcModel) -> bool {
    rtc.relay && forall|i: int, k: int|
        0 <= i < rtc.ice_servers.len() && 0 <= k < rtc.ice_servers[i].urls.len()
            ==> !"turn:"@.is_prefix_of(#[trigger] rtc.ice_servers[i].urls[k])
}

/// Whether a connection with these settings is bound to fail.
pub fn lacks_relay(rtc: &RtcConfiguration) -> (lacking: bool)
    ensures
        lacking == relay_impossible(rtc.deep_view()),
{
    let ghost model = rtc.deep_view();
    if !rtc.relay {
        return false;
    }
    for i in 0..rtc.ice_servers.len()
        invariant
            model == rtc.deep_view(),
            forall|j: int, k: int|
                0 <= j < i && 0 <= k < model.ice_servers[j].urls.len() ==> !"turn:"@.is_prefix_of(
                    #[trigger] model.ice_servers[j].urls[k],
                ),
    {
        let urls = &rtc.ice_servers[i].urls;
        assert(urls.deep_view() == model.ice_servers[i as int].urls);
        for n in 0..urls.len()
            invariant
                model == rtc.deep_view(),
                0 <= i < model.ice_servers.len(),
                urls.deep_view() == model.ice_servers[i as int].urls,
                forall|k: int|
                    0 <= k < n ==> !"turn:"@.is_prefix_of(
                        #[trigger] model.ice_servers[i as int].urls[k],
                    ),
        {
            if starts_with(urls[n].as_str(), "turn:") {
                assert("turn:"@.is_prefix_of(model.ice_servers[i as int].urls[n as int]));
                return false;
            }
        }
    }
    true
}

/// The addresses of all servers, one list after the other.
pub open spec fn all_urls(servers: Seq<IceServerModel>) -> Seq<Seq<char>>
    decreases servers.len(),
{
    if servers.len() == 0 {
        Seq::empty()
    } else {
        all_urls(servers.drop_last()) + servers.last().urls
    }
}

/// An address is listed exactly where it is among all addresses.
pub proof fn lemma_all_urls(servers: Seq<IceServerModel>, url: Seq<char>)
    ensures
        all_urls(servers).contains(url) == lists_url(servers, url),
    decreases servers.len(),
{
    if servers.len() > 0 {
        lemma_all_urls(servers.drop_last(), url);
        let before = all_urls(servers.drop_last());
        let last = servers.last().urls;
        if lists_url(servers.drop_last(), url) {
            let i = choose|i: int|
                0 <= i < servers.drop_last().len() && (
                #[trigger] servers.drop_last()[i]).urls.contains(url);
            assert(servers[i].urls.contains(url));
            let k = before.index_of(url);
            assert((before + last)[k] == url);
        }
        if last.contains(url) {
            let k = last.index_of(url);
            assert((before + last)[before.len() + k] == url);
            assert(servers[servers.len() - 1].urls.contains(url));
        }
        if lists_url(servers, url) {
            let i = choose|i: int|
                0 <= i < servers.len() && (#[trigger] servers[i]).urls.contains(url);
            if i < servers.len() - 1 {
                assert(servers.drop_last()[i].urls.contains(url));
            }
        }
        if (before + last).contains(url) {
            let k = (before + last).index_of(url);
            if k < before.len() {
                assert(before[k] == url);
            } else {
                assert(last[k - before.len()] == url);
            }
        }
    }
}

/// What is fresh is not listed and holds nothing twice, and what is not fresh is listed.
proof fn lemma_fresh_urls(urls: Seq<Seq<char>>, listed: Seq<IceServerModel>)
    ensures
        fresh_urls(urls, listed).no_duplicates(),
        forall|url: Seq<char>|
            fresh_urls(urls, listed).contains(url) <==> (urls.contains(url) && !lists_url(
                listed,
                url,
            )),
    decreases urls.len(),
{
    if urls.len() > 0 {
        lemma_fresh_urls(urls.drop_last(), listed);
        let before = fresh_urls(urls.drop_last(), listed);
        let after = fresh_urls(urls, listed);
        assert forall|url: Seq<char>| after.contains(url) <==> (urls.contains(url) && !lists_url(
            listed,
            url,
        )) by {
            if after.contains(url) {
                let k = after.index_of(url);
                if k < before.len() {
                    assert(before[k] == url);
                    assert(before.contains(url));
                    assert(urls.drop_last().contains(url));
                    let j = urls.drop_last().index_of(url);
                    assert(urls.drop_last()[j] == url);
                    assert(urls[j] == url);
                } else {
                    assert(urls[urls.len() - 1] == url);
                }
            }
            if urls.contains(url) && !lists_url(listed, url) {
                let j = urls.index_of(url);
                if j < urls.len() - 1 {
                    assert(urls.drop_last()[j] == url);
                    assert(before.contains(url));
                }
                if before.contains(url) {
                    let k = before.index_of(url);
                    assert(after[k] == url);
                } else {
                    assert(after[after.len() - 1] == url);
                }
            }
        }
    }
}

/// Merging lists exactly the addresses of the two sides.
pub proof fn lemma_merge_lists_both(
    local: Seq<IceServerModel>,
    signaled: Seq<IceServerModel>,
    url: Seq<char>,
)
    ensures
        lists_url(merged_servers(local, signaled), url) == (lists_url(local, url) || lists_url(
            signaled,
            url,
        )),
    decreases signaled.len(),
{
    if signaled.len() > 0 {
        lemma_merge_lists_both(local, signaled.drop_last(), url);
        let before = merged_servers(local, signaled.drop_last());
        let after = merged_servers(local, signaled);
        let last = signaled.last();
        let fresh = fresh_urls(last.urls, before);
        lemma_fresh_urls(last.urls, before);
        lemma_all_urls(before, url);
        lemma_all_urls(after, url);
        lemma_all_urls(signaled.drop_last(), url);
        lemma_all_urls(signaled, url);
        lemma_contains_concat(all_urls(signaled.drop_last()), last.urls, url);
        if fresh.len() > 0 {
            assert(after.drop_last() =~= before);
            lemma_contains_concat(all_urls(before), fresh, url);
        } else {
            assert(!fresh.contains(url));
        }
    }
}

/// What a concatenation holds, one of its parts holds.
proof fn lemma_contains_concat(a: Seq<Seq<char>>, b: Seq<Seq<char>>, url: Seq<char>)
    ensures
        (a + b).contains(url) == (a.contains(url) || b.contains(url)),
{
    if a.contains(url) {
        assert((a + b)[a.index_of(url)] == url);
    }
    if b.contains(url) {
        assert((a + b)[a.len() + b.index_of(url)] == url);
    }
    if (a + b).contains(url) {
        let k = (a + b).index_of(url);
        if k < a.len() {
            assert(a[k] == url);
        } else {
            assert(b[k - a.len()] == url);
        }
    }
}

/// The local servers stay as they are, at the head of the merged list.
pub proof fn lemma_merge_keeps_local(local: Seq<IceServerModel>, signaled: Seq<IceServerModel>)
    ensures
        local.is_prefix_of(merged_servers(local, signaled)),
    decreases signaled.len(),
{
    if signaled.len() > 0 {
        lemma_merge_keeps_local(local, signaled.drop_last());
        let before = merged_servers(local, signaled.drop_last());
        let after = merged_servers(local, signaled);
        assert(after.subrange(0, local.len() as int) =~= before.subrange(0, local.len() as int));
    } else {
        assert(local =~= local.subrange(0, local.len() as int));
    }
}

/// Merging adds no address twice: where the local servers list none twice, the
/// merged servers list none twice.
pub proof fn lemma_merge_adds_no_duplicates(
    local: Seq<IceServerModel>,
    signaled: Seq<IceServerModel>,
)
    requires
        all_urls(local).no_duplicates(),
    ensures
        all_urls(merged_servers(local, signaled)).no_duplicates(),
    decreases signaled.len(),
{
    if signaled.len() > 0 {
        lemma_merge_adds_no_duplicates(local, signaled.drop_last());
        let before = merged_servers(local, signaled.drop_last());
        let after = merged_servers(local, signaled);
        let fresh = fresh_urls(signaled.last().urls, before);
        lemma_fresh_urls(signaled.last().urls, before);
        if fresh.len() > 0 {
            assert(after.drop_last() =~= before);
            let old_urls = all_urls(before);
            assert forall|i: int, j: int|
                0 <= i < old_urls.len() && 0 <= j < fresh.len() implies old_urls[i]
                != fresh[j] by {
                lemma_all_urls(before, fresh[j]);
                assert(fresh.contains(fresh[j]));
            }
            let urls = old_urls + fresh;
            assert forall|i: int, j: int|
                0 <= i < urls.len() && 0 <= j < urls.len() && i != j implies urls[i]
                != urls[j] by {}
        }
    }
}

/// Merging servers whose addresses are all listed adds nothing.
proof fn lemma_merge_nothing_new(local: Seq<IceServerModel>, signaled: Seq<IceServerModel>)
    requires
        forall|url: Seq<char>| lists_url(signaled, url) ==> lists_url(local, url),
    ensures
        merged_servers(local, signaled) == local,
    decreases signaled.len(),
{
    if signaled.len() > 0 {
        assert forall|url: Seq<char>| lists_url(signaled.drop_last(), url) implies lists_url(
            local,
            url,
        ) by {
            let i = choose|i: int|
                0 <= i < signaled.drop_last().len() && (
                #[trigger] signaled.drop_last()[i]).urls.contains(url);
            assert(signaled[i].urls.contains(url));
        }
        lemma_merge_nothing_new(local, signaled.drop_last());
        let fresh = fresh_urls(signaled.last().urls, local);
        lemma_fresh_urls(signaled.last().urls, local);
        if fresh.len() > 0 {
            assert(fresh.contains(fresh[0]));
            assert(signaled[signaled.len() - 1].urls.contains(fresh[0]));
            assert(lists_url(signaled, fresh[0]));
        }
    }
}

/// Merging the same servers a second time changes nothing.
pub proof fn lemma_merge_idempotent(local: Seq<IceServerModel>, signaled: Seq<IceServerModel>)
    ensures
        merged_servers(merged_servers(local, signaled), signaled) == merged_servers(
            local,
            signaled,
        ),
{
    let once = merged_servers(local, signaled);
    assert forall|url: Seq<char>| lists_url(signaled, url) implies lists_url(once, url) by {
        lemma_merge_lists_both(local, signaled, url);
    }
    lemma_merge_nothing_new(once, signaled);
}

/// Public STUN is used exactly where neither side lists a server with an
/// address and the local side lists no server at all.
pub proof fn lemma_public_stun_last(local: RtcModel, signaled: Seq<IceServerModel>)
    ensures
        (local.ice_servers.len() == 0 && forall|url: Seq<char>| !lists_url(signaled, url))
            ==> merged_rtc(local, signaled).ice_servers == seq![open_server(default_stun_urls())],
        !(local.ice_servers.len() == 0 && forall|url: Seq<char>| !lists_url(signaled, url))
            ==> merged_rtc(local, signaled).ice_servers == merged_servers(
            local.ice_servers,
            signaled,
        ),
{
    let merged = merged_servers(local.ice_servers, signaled);
    lemma_merge_keeps_local(local.ice_servers, signaled);
    assert forall|url: Seq<char>| lists_url(merged, url) == (lists_url(local.ice_servers, url)
        || lists_url(signaled, url)) by {
        lemma_merge_lists_both(local.ice_servers, signaled, url);
    }
    if merged.len() == 0 {
        assert(local.ice_servers.len() == 0);
        assert forall|url: Seq<char>| !lists_url(signaled, url) by {
            assert(!lists_url(merged, url));
        }
    }
    if local.ice_servers.len() == 0 && (forall|url: Seq<char>| !lists_url(signaled, url)) {
        lemma_merge_nothing_new(local.ice_servers, signaled);
    }
}

/// Splits a list of addresses at its commas and white space.
pub fn split_urls(value: Option<&str>) -> (urls: Vec<String>)
    ensures
        urls.deep_view() == listed_urls(optional(value)),
{
    let mut urls: Vec<String> = Vec::new();
    assert(urls.deep_view() =~= Seq::<Seq<char>>::empty());
    if let Some(text) = value {
        let parts = split(text, true);
        let ghost all = parts.deep_view();
        for part in it: parts
            invariant
                it.seq() == parts@,
                all == parts.deep_view(),
                urls.deep_view() == non_empty(all.take(it.index())),
        {
            let ghost before = urls.deep_view();
            let ghost text = part@;
            assert(all.take(it.index() + 1).drop_last() =~= all.take(it.index()));
            assert(all[it.index()] == text);
            if !part.as_str().is_empty() {
                urls.push(part);
                assert(urls.deep_view() =~= before.push(text));
            }
        }
        assert(all.take(all.len() as int) =~= all);
    }
    urls
}

/// An ICE server as it is sent to a peer.
pub struct BrowserServer {
    pub urls: Vec<String>,
    /// User name and credential.
    pub login: Option<(String, String)>,
}

/// What a [`BrowserServer`] holds.
pub struct BrowserServerModel {
    pub urls: Seq<Seq<char>>,
    pub login: Option<(Seq<char>, Seq<char>)>,
}

impl DeepView for BrowserServer {
    type V = BrowserServerModel;

    open spec fn deep_view(&self) -> BrowserServerModel {
        BrowserServerModel { urls: self.urls.deep_view(), login: self.login.deep_view() }
    }
}

/// Why the ICE servers of the signaling server cannot be built.
#[derive(Clone, Copy, Debug, PartialEq, Eq, Structural)]
pub enum IceError {
    StunScheme,
    TurnScheme,
    MissingLogin,
}

/// Why the ICE servers cannot be built, in words.
pub open spec fn ice_error_words(error: IceError) -> Seq<char> {
    match error {
        IceError::StunScheme => "STUN_URL entries must start with stun:"@,
        IceError::TurnScheme => "TURN_URL entries must start with turn: or turns:"@,
        IceError::MissingLogin => "TURN_URL requires TURN_USER and TURN_PASS"@,
    }
}

impl IceError {
    /// The reason in words.
    pub fn message(&self) -> (text: &'static str)
        ensures
            text@ == ice_error_words(*self),
    {
        match self {
            IceError::StunScheme => "STUN_URL entries must start with stun:",
            IceError::TurnScheme => "TURN_URL entries must start with turn: or turns:",
            IceError::MissingLogin => "TURN_URL requires TURN_USER and TURN_PASS",
        }
    }
}

/// The addresses in a setting that may be absent.
pub open spec fn listed_urls(value: Option<Seq<char>>) -> Seq<Seq<char>> {
    match value {
        Some(text) => non_empty(pieces(text, true)),
        None => Seq::empty(),
    }
}

/// Every address is a STUN address.
pub open spec fn all_stun(urls: Seq<Seq<char>>) -> bool {
    forall|i: int| 0 <= i < urls.len() ==> "stun:"@.is_prefix_of(#[trigger] urls[i])
}

/// Every address is a TURN address.
pub open spec fn all_turn(urls: Seq<Seq<char>>) -> bool {
    forall|i: int|
        0 <= i < urls.len() ==> ("turn:"@.is_prefix_of(#[trigger] urls[i])
            || "turns:"@.is_prefix_of(urls[i]))
}

/// The ICE servers that the settings of the signaling server describe.
pub open spec fn browser_servers(
    stun: Option<Seq<char>>,
    turn: Option<Seq<char>>,
    user: Option<Seq<char>>,
    pass: Option<Seq<char>>,
) -> Result<Seq<BrowserServerModel>, IceError> {
    let stun_urls = listed_urls(stun);
    let turn_urls = listed_urls(turn);
    let stun_servers = if stun_urls.len() > 0 {
        seq![BrowserServerModel { urls: stun_urls, login: None }]
    } else {
        Seq::empty()
    };
    if !all_stun(stun_urls) {
        Err(IceError::StunScheme)
    } else if !all_turn(turn_urls) {
        Err(IceError::TurnScheme)
    } else if turn_urls.len() == 0 {
        Ok(stun_servers)
    } else {
        match (user, pass) {
            (Some(user), Some(pass)) => Ok(
                stun_servers.push(
                    BrowserServerModel { urls: turn_urls, login: Some((user, pass)) },
                ),
            ),
            _ => Err(IceError::MissingLogin),
        }
    }
}

/// The view of a text that may be absent.
pub open spec fn optional(text: Option<&str>) -> Option<Seq<char>> {
    match text {
        Some(text) => Some(text@),
        None => None,
    }
}

/// Builds the ICE servers that both peers receive after authenticating, so the
/// browser and the home agent use the same STUN and TURN without local settings.
/// Only schemes browsers accept are allowed, because one invalid URL makes
/// `new RTCPeerConnection` throw.
pub fn build_ice_servers(
    stun: Option<&str>,
    turn: Option<&str>,
    user: Option<&str>,
    pass: Option<&str>,
) -> (result: Result<Vec<BrowserServer>, IceError>)
    ensures
        match result {
            Ok(servers) => browser_servers(
                optional(stun),
                optional(turn),
                optional(user),
                optional(pass),
            ) == Ok::<Seq<BrowserServerModel>, IceError>(servers.deep_view()),
            Err(error) => browser_servers(
                optional(stun),
                optional(turn),
                optional(user),
                optional(pass),
            ) == Err::<Seq<BrowserServerModel>, IceError>(error),
        },
{
    let mut servers: Vec<BrowserServer> = Vec::new();
    let stun_urls = split_urls(stun);
    let ghost stun_model = stun_urls.deep_view();
    for i in 0..stun_urls.len()
        invariant
            stun_model == stun_urls.deep_view(),
            stun_model == listed_urls(optional(stun)),
            forall|k: int| 0 <= k < i ==> "stun:"@.is_prefix_of(#[trigger] stun_model[k]),
    {
        if !starts_with(stun_urls[i].as_str(), "stun:") {
            assert(!"stun:"@.is_prefix_of(stun_model[i as int]));
            return Err(IceError::StunScheme);
        }
    }
    let turn_urls = split_urls(turn);
    let ghost turn_model = turn_urls.deep_view();
    for i in 0..turn_urls.len()
        invariant
            turn_model == turn_urls.deep_view(),
            turn_model == listed_urls(optional(turn)),
            all_stun(listed_urls(optional(stun))),
            forall|k: int|
                0 <= k < i ==> ("turn:"@.is_prefix_of(#[trigger] turn_model[k])
                    || "turns:"@.is_prefix_of(turn_model[k])),
    {
        if !starts_with(turn_urls[i].as_str(), "turn:") && !starts_with(
            turn_urls[i].as_str(),
            "turns:",
        ) {
            assert(!"turn:"@.is_prefix_of(turn_model[i as int]));
            return Err(IceError::TurnScheme);
        }
    }
    assert(servers.deep_view() =~= Seq::<BrowserServerModel>::empty());
    if stun_urls.len() > 0 {
        servers.push(BrowserServer { urls: stun_urls, login: None });
        assert(servers.deep_view() =~= seq![BrowserServerModel { urls: stun_model, login: None }]);
    }
    if turn_urls.len() > 0 {
        let ghost before = servers.deep_view();
        match (user, pass) {
            (Some(user), Some(pass)) => {
                servers.push(
                    BrowserServer {
                        urls: turn_urls,
                        login: Some((user.to_owned(), pass.to_owned())),
                    },
                );
                assert(servers.deep_view() =~= before.push(
                    BrowserServerModel { urls: turn_model, login: Some((user@, pass@)) },
                ));
            },
            _ => return Err(IceError::MissingLogin),
        }
    }
    Ok(servers)
}

/// A list of texts as a JSON array of strings.
pub open spec fn texts_tree(texts: Seq<Seq<char>>) -> JsonTree {
    JsonTree::Array(texts.map_values(|text: Seq<char>| JsonTree::Text(text)))
}

/// The members of an ICE server as it is sent.
pub open spec fn server_members(server: BrowserServerModel) -> Seq<(Seq<char>, JsonTree)> {
    let urls = seq![("urls"@, texts_tree(server.urls))];
    match server.login {
        Some((user, pass)) => urls.push(("username"@, JsonTree::Text(user))).push(
            ("credential"@, JsonTree::Text(pass)),
        ),
        None => urls,
    }
}

/// A list of ICE servers as it is sent.
pub open spec fn servers_tree(servers: Seq<BrowserServerModel>) -> JsonTree {
    JsonTree::Array(
        servers.map_values(
            |server: BrowserServerModel| JsonTree::Object(server_members(server)),
        ),
    )
}

/// Writes a list of texts as JSON.
fn write_texts(texts: &Vec<String>) -> (text: String)
    ensures
        spells(text@, texts_tree(texts.deep_view()), 1),
{
    let ghost trees = texts.deep_view().map_values(|text: Seq<char>| JsonTree::Text(text));
    let mut items: Vec<String> = Vec::new();
    for i in 0..texts.len()
        invariant
            trees == texts.deep_view().map_values(|text: Seq<char>| JsonTree::Text(text)),
            items@.len() == i,
            forall|k: int| 0 <= k < i ==> spells(items@[k]@, #[trigger] trees[k], 0),
    {
        items.push(write_text(texts[i].as_str()));
    }
    write_array(items, Ghost(trees), Ghost(0))
}

/// Writes an ICE server as JSON.
fn write_server(server: &BrowserServer) -> (text: String)
    ensures
        spells(text@, JsonTree::Object(server_members(server.deep_view())), 2),
{
    let ghost trees = server_members(server.deep_view());
    let mut members: Vec<(String, String)> = Vec::new();
    members.push(("urls".to_owned(), write_texts(&server.urls)));
    if let Some(login) = &server.login {
        let username = write_text(login.0.as_str());
        let credential = write_text(login.1.as_str());
        members.push(("username".to_owned(), username));
        members.push(("credential".to_owned(), credential));
    }
    proof {
        lemma_own_names();
    }
    write_object(members, Ghost(trees), Ghost(1))
}

/// Writes a list of ICE servers as JSON.
pub(crate) fn write_servers(servers: &Vec<BrowserServer>) -> (text: String)
    ensures
        spells(text@, servers_tree(servers.deep_view()), 3),
{
    let ghost trees = servers.deep_view().map_values(
        |server: BrowserServerModel| JsonTree::Object(server_members(server)),
    );
    let mut items: Vec<String> = Vec::new();
    for i in 0..servers.len()
        invariant
            trees == servers.deep_view().map_values(
                |server: BrowserServerModel| JsonTree::Object(server_members(server)),
            ),
            items@.len() == i,
            forall|k: int| 0 <= k < i ==> spells(items@[k]@, #[trigger] trees[k], 2),
    {
        items.push(write_server(&servers[i]));
    }
    write_array(items, Ghost(trees), Ghost(2))
}

/// What is read of an ICE server that was sent.
pub open spec fn sent_spec(server: BrowserServerModel) -> IceSpecModel {
    IceSpecModel {
        urls: server.urls,
        username: match server.login {
            Some((user, _)) => user,
            None => Seq::empty(),
        },
        credential: match server.login {
            Some((_, pass)) => pass,
            None => Seq::empty(),
        },
    }
}

/// The first entries of a list that was sent, as they are read.
pub open spec fn sent_specs(servers: Seq<BrowserServerModel>) -> Seq<Option<IceSpecModel>> {
    let n = if servers.len() < MAX_SIGNALED_ICE_ENTRIES {
        servers.len() as int
    } else {
        MAX_SIGNALED_ICE_ENTRIES as int
    };
    servers.take(n).map_values(|server: BrowserServerModel| Some(sent_spec(server)))
}

/// JSON strings that were written read back as the texts.
proof fn lemma_strings_read_back(texts: Seq<Seq<char>>, items: Seq<Seq<char>>)
    requires
        items.len() == texts.len(),
        forall|i: int|
            0 <= i < texts.len() ==> {
                &&& #[trigger] items[i] == tree_text(JsonTree::Text(texts[i]))
                &&& reads_back(JsonTree::Text(texts[i]))
            },
    ensures
        json_strings(items) == Some(texts),
    decreases texts.len(),
{
    if texts.len() > 0 {
        assert forall|i: int| 0 <= i < texts.drop_last().len() implies {
            &&& #[trigger] items.drop_last()[i] == tree_text(JsonTree::Text(texts.drop_last()[i]))
            &&& reads_back(JsonTree::Text(texts.drop_last()[i]))
        } by {
            assert(items[i] == tree_text(JsonTree::Text(texts[i])));
        }
        lemma_strings_read_back(texts.drop_last(), items.drop_last());
        assert(items[items.len() - 1] == items.last());
        assert(texts.drop_last().push(texts.last()) =~= texts);
    } else {
        assert(texts =~= Seq::empty());
    }
}

/// A list of texts that was written reads back as the addresses of an ICE server.
proof fn lemma_urls_read_back(texts: Seq<Seq<char>>)
    requires
        reads_back(texts_tree(texts)),
    ensures
        urls_in(tree_text(texts_tree(texts))) == Some(texts),
{
    let trees = texts.map_values(|text: Seq<char>| JsonTree::Text(text));
    let tree = texts_tree(texts);
    let items = tree_shape(tree)->Array_0;
    assert forall|i: int| 0 <= i < texts.len() implies {
        &&& #[trigger] items[i] == tree_text(JsonTree::Text(texts[i]))
        &&& reads_back(JsonTree::Text(texts[i]))
    } by {
        assert(trees[i] == JsonTree::Text(texts[i]));
        assert(reads_back(trees[i]));
    }
    lemma_strings_read_back(texts, items);
}

/// An ICE server that was written reads back as it was.
proof fn lemma_server_reads_back(server: BrowserServerModel)
    requires
        reads_back(JsonTree::Object(server_members(server))),
    ensures
        spec_in(tree_text(JsonTree::Object(server_members(server)))) == Some(sent_spec(server)),
{
    reveal_strlit("urls");
    reveal_strlit("username");
    reveal_strlit("credential");
    reveal_with_fuel(members_map, 4);
    let members = server_members(server);
    let texts = member_texts(members);
    assert(members[0].1 == texts_tree(server.urls));
    assert(reads_back(members[0].1));
    lemma_urls_read_back(server.urls);
    let map = members_map(texts);
    assert(texts[0] == ("urls"@, tree_text(texts_tree(server.urls))));
    match server.login {
        Some((user, pass)) => {
            assert(members[1] == ("username"@, JsonTree::Text(user)));
            assert(members[2] == ("credential"@, JsonTree::Text(pass)));
            assert(reads_back(members[1].1));
            assert(reads_back(members[2].1));
            assert(texts.drop_last().drop_last().drop_last() =~= Seq::empty());
            assert(texts.last() == texts[2]);
            assert(texts.drop_last().last() == texts[1]);
            assert(texts.drop_last().drop_last().last() == texts[0]);
            assert("urls"@.len() == 4 && "username"@.len() == 8 && "credential"@.len() == 10);
            assert(texts[1] == ("username"@, tree_text(JsonTree::Text(user))));
            assert(texts[2] == ("credential"@, tree_text(JsonTree::Text(pass))));
            assert(map =~= Map::<Seq<char>, Seq<char>>::empty().insert(
                texts[0].0,
                texts[0].1,
            ).insert(texts[1].0, texts[1].1).insert(texts[2].0, texts[2].1));
            assert(map["username"@] == texts[1].1);
        },
        None => {
            assert(texts.drop_last() =~= Seq::empty());
            assert(texts.last() == texts[0]);
            assert("urls"@.len() == 4 && "username"@.len() == 8 && "credential"@.len() == 10);
            assert(!map.contains_key("username"@) && !map.contains_key("credential"@));
        },
    }
}

/// The home agent reads of a list of ICE servers, as the signaling server
/// writes it, the servers that were written.
pub proof fn lemma_servers_read_back(servers: Seq<BrowserServerModel>)
    requires
        reads_back(servers_tree(servers)),
    ensures
        specs_in(tree_shape(servers_tree(servers))) == sent_specs(servers),
{
    let trees = servers.map_values(
        |server: BrowserServerModel| JsonTree::Object(server_members(server)),
    );
    let read = specs_in(tree_shape(servers_tree(servers)));
    let wanted = sent_specs(servers);
    assert forall|i: int| 0 <= i < wanted.len() implies #[trigger] read[i] == wanted[i] by {
        assert(trees[i] == JsonTree::Object(server_members(servers[i])));
        assert(reads_back(trees[i]));
        lemma_server_reads_back(servers[i]);
    }
    assert(read =~= wanted);
}

/// The server of an entry has its addresses and its login, as a password; a
/// server without a login has neither.
pub proof fn lemma_server_fields(
    entries: Seq<Result<IceSpecModel, Seq<char>>>,
    i: int,
    urls: Seq<Seq<char>>,
)
    ensures
        listed_servers(entries) matches Ok(servers) ==> 0 <= i < entries.len() ==> (
        entries[i] matches Ok(spec) && {
            &&& servers[i].urls == spec.urls
            &&& servers[i].username == spec.username
            &&& servers[i].credential == spec.credential
            &&& servers[i].credential_type == CredentialType::Password
        }),
        open_server(urls).urls == urls,
        open_server(urls).username.len() == 0 && open_server(urls).credential.len() == 0,
        open_server(urls).credential_type == CredentialType::Unspecified,
{
    lemma_listed_servers(entries);
    if listed_servers(entries) is Ok && 0 <= i < entries.len() {
        assert(entries[i] is Ok);
        assert(listed_servers(entries)->Ok_0[i] == server_of(entries[i]->Ok_0));
    }
}

/// Where an entry cannot be read, the words are those of the first such entry.
pub proof fn lemma_first_failure_named(entries: Seq<Result<IceSpecModel, Seq<char>>>, n: int)
    requires
        0 <= n < entries.len(),
        entries[n] is Err,
        forall|i: int| 0 <= i < n ==> (#[trigger] entries[i]) is Ok,
    ensures
        listed_servers(entries) == Err::<Seq<IceServerModel>, Seq<char>>(entries[n]->Err_0),
{
    let before = entries.take(n);
    lemma_listed_servers(before);
    assert forall|i: int| 0 <= i < before.len() implies (#[trigger] before[i]) is Ok by {
        assert(before[i] == entries[i]);
    }
    lemma_first_failure(entries, n, entries[n]->Err_0);
}

/// Strings are read as a list exactly where every item is a string, each then
/// in its place.
pub proof fn lemma_json_strings(items: Seq<Seq<char>>)
    ensures
        json_strings(items) is Some <==> forall|i: int|
            0 <= i < items.len() ==> (#[trigger] json_level(items[i]) matches Some(
                JsonShape::Text(_),
            )),
        json_strings(items) matches Some(texts) ==> {
            &&& texts.len() == items.len()
            &&& forall|i: int|
                0 <= i < items.len() ==> #[trigger] json_level(items[i]) == Some(
                    JsonShape::Text(texts[i]),
                )
        },
    decreases items.len(),
{
    if items.len() > 0 {
        let rest = items.drop_last();
        lemma_json_strings(rest);
        assert(json_level(items[items.len() - 1]) == json_level(items.last()));
        assert forall|i: int| 0 <= i < rest.len() implies json_level(items[i]) == #[trigger]
            json_level(rest[i]) by {}
        if json_strings(items) is Some {
            let texts = json_strings(items)->0;
            assert forall|i: int| 0 <= i < items.len() implies #[trigger] json_level(items[i])
                == Some(JsonShape::Text(texts[i])) by {
                if i < rest.len() {
                    assert(json_level(rest[i]) == json_level(items[i]));
                }
            }
        }
        if forall|i: int|
            0 <= i < items.len() ==> (#[trigger] json_level(items[i]) matches Some(
                JsonShape::Text(_),
            )) {
            assert forall|i: int| 0 <= i < rest.len() implies (#[trigger] json_level(
                rest[i],
            ) matches Some(JsonShape::Text(_))) by {
                assert(json_level(items[i]) == json_level(rest[i]));
            }
        }
    }
}

/// The addresses of an entry are one string or a list of strings, and nothing
/// else.
pub proof fn lemma_urls_in(text: Seq<char>, urls: Seq<Seq<char>>)
    ensures
        urls_in(text) == Some(urls) <==> {
            ||| json_level(text) matches Some(JsonShape::Text(url)) && urls == seq![url]
            ||| json_level(text) matches Some(JsonShape::Array(items)) && items.len() == urls.len()
                && forall|i: int|
                0 <= i < items.len() ==> #[trigger] json_level(items[i]) == Some(
                    JsonShape::Text(urls[i]),
                )
        },
{
    if let Some(JsonShape::Array(items)) = json_level(text) {
        lemma_json_strings(items);
        if json_strings(items) is Some {
            let texts = json_strings(items)->0;
            if items.len() == urls.len() && (forall|i: int|
                0 <= i < items.len() ==> #[trigger] json_level(items[i]) == Some(
                    JsonShape::Text(urls[i]),
                )) {
                assert forall|i: int| 0 <= i < texts.len() implies texts[i] == urls[i] by {
                    assert(json_level(items[i]) == Some(JsonShape::Text(urls[i])));
                }
                assert(texts =~= urls);
            }
        } else if items.len() == urls.len() {
            let i = choose|i: int|
                0 <= i < items.len() && !(#[trigger] json_level(items[i]) matches Some(
                    JsonShape::Text(_),
                ));
            assert(json_level(items[i]) != Some(JsonShape::Text(urls[i])));
        }
    }
}

/// An entry that is an object has addresses, and a user name and a credential
/// that are strings or absent; each part is what stands under its name.
pub proof fn lemma_spec_object(text: Seq<char>, members: Map<Seq<char>, Seq<char>>)
    requires
        json_level(text) == Some(JsonShape::Object(members)),
    ensures
        ({
            let document = JsonShape::Object(members);
            let user = text_member_of(document, "username"@);
            let pass = text_member_of(document, "credential"@);
            &&& spec_in(text) is Some <==> {
                &&& members.contains_key("urls"@) && urls_in(members["urls"@]) is Some
                &&& members.contains_key("username"@) ==> user is Some
                &&& members.contains_key("credential"@) ==> pass is Some
            }
            &&& spec_in(text) matches Some(spec) ==> {
                &&& urls_in(members["urls"@]) == Some(spec.urls)
                &&& user matches Some(user) ==> spec.username == user
                &&& pass matches Some(pass) ==> spec.credential == pass
                &&& user is None ==> spec.username.len() == 0
                &&& pass is None ==> spec.credential.len() == 0
            }
        }),
{
}

/// An entry that is an array has addresses, and behind them at most a user name
/// and a credential, which are strings; nothing else is an entry.
pub proof fn lemma_spec_array(text: Seq<char>, items: Seq<Seq<char>>)
    ensures
        json_level(text) == Some(JsonShape::Array(items)) ==> {
            &&& spec_in(text) is Some <==> {
                &&& 1 <= items.len() <= 3 && urls_in(items[0]) is Some
                &&& items.len() >= 2 ==> (json_level(items[1]) matches Some(JsonShape::Text(_)))
                &&& items.len() >= 3 ==> (json_level(items[2]) matches Some(JsonShape::Text(_)))
            }
            &&& spec_in(text) matches Some(spec) ==> {
                &&& urls_in(items[0]) == Some(spec.urls)
                &&& items.len() >= 2 ==> json_level(items[1]) == Some(
                    JsonShape::Text(spec.username),
                )
                &&& items.len() >= 3 ==> json_level(items[2]) == Some(
                    JsonShape::Text(spec.credential),
                )
                &&& items.len() < 2 ==> spec.username.len() == 0
                &&& items.len() < 3 ==> spec.credential.len() == 0
            }
        },
        !(json_level(text) matches Some(JsonShape::Object(_))) && !(json_level(text) matches Some(
            JsonShape::Array(_),
        )) ==> spec_in(text) is None,
{
}

/// Of a list the first eight entries are looked at, each in its place; what is
/// no list has none.
pub proof fn lemma_specs_in(items: Seq<Seq<char>>, list: JsonShape)
    ensures
        specs_in(JsonShape::Array(items)).len() == if items.len() < 8 {
            items.len()
        } else {
            8
        },
        forall|i: int|
            0 <= i < 8 && i < items.len() ==> #[trigger] specs_in(JsonShape::Array(items))[i]
                == spec_in(items[i]),
        !(list is Array) ==> specs_in(list).len() == 0,
{
}

/// An address is kept of a list exactly where it is in the list, is STUN, or is
/// TURN with a login, and does not ask for TCP. Nothing else about it matters:
/// TURN over UDP need not say so. One address more in the list adds that one
/// behind the others, or nothing.
pub proof fn lemma_address_kept(
    urls: Seq<Seq<char>>,
    login: bool,
    url: Seq<char>,
)
    ensures
        ({
            let fits = ("stun:"@.is_prefix_of(url) || login && "turn:"@.is_prefix_of(url))
                && !occurs_in("transport=tcp"@, url);
            &&& usable_urls(urls, login).contains(url) <==> urls.contains(url) && fits
            &&& usable_urls(urls.push(url), login) == if fits {
                usable_urls(urls, login).push(url)
            } else {
                usable_urls(urls, login)
            }
        }),
        usable_urls(Seq::empty(), login).len() == 0,
        usable_urls(urls, login).len() <= urls.len(),
        is_udp_ice_url(url) <==> ("stun:"@.is_prefix_of(url) || "turn:"@.is_prefix_of(url))
            && !occurs_in("transport=tcp"@, url),
    decreases urls.len(),
{
    assert(urls.push(url).drop_last() =~= urls);
    let fits = ("stun:"@.is_prefix_of(url) || login && "turn:"@.is_prefix_of(url)) && !occurs_in(
        "transport=tcp"@,
        url,
    );
    if urls.len() > 0 {
        let rest = urls.drop_last();
        let before = usable_urls(rest, login);
        let after = usable_urls(urls, login);
        lemma_address_kept(rest, login, url);
        if urls.contains(url) && fits {
            let k = urls.index_of(url);
            if k < rest.len() {
                assert(rest[k] == url);
                let j = before.index_of(url);
                assert(after[j] == url);
            } else {
                assert(after.last() == url);
                assert(after[after.len() - 1] == url);
            }
        }
        if after.contains(url) {
            let k = after.index_of(url);
            if k < before.len() {
                assert(before[k] == url);
                assert(before.contains(url));
                let j = rest.index_of(url);
                assert(rest[j] == url);
                assert(urls[j] == url);
            } else {
                assert(urls[urls.len() - 1] == url);
            }
        }
    }
}

/// What is left of an entry has its user name and its credential, as a password,
/// and the first eight of its addresses that fit, in their order; an entry
/// without such an address, or one that could not be read, leaves nothing.
pub proof fn lemma_entry_kept(spec: IceSpecModel)
    ensures
        ({
            let login = spec.username.len() > 0 && spec.credential.len() > 0;
            let fitting = usable_urls(spec.urls, login);
            &&& usable_server(Some(spec)) is Some <==> fitting.len() > 0
            &&& usable_server(Some(spec)) matches Some(server) ==> {
                &&& server.urls == fitting.take(
                    if fitting.len() < 8 {
                        fitting.len() as int
                    } else {
                        8
                    },
                )
                &&& server.username == spec.username
                &&& server.credential == spec.credential
                &&& server.credential_type == CredentialType::Password
            }
        }),
        usable_server(None) is None,
{
    let login = spec.username.len() > 0 && spec.credential.len() > 0;
    let fitting = usable_urls(spec.urls, login);
    if fitting.len() <= 8 {
        assert(fitting.take(fitting.len() as int) =~= fitting);
    }
}

/// Every address of an entry with at most eight that is STUN, or TURN with a
/// login, and does not ask for TCP is given to the agent, with the login of its
/// entry.
pub proof fn lemma_signaled_address_given(
    specs: Seq<Option<IceSpecModel>>,
    i: int,
    spec: IceSpecModel,
    url: Seq<char>,
)
    requires
        0 <= i < specs.len(),
        specs[i] == Some(spec),
        spec.urls.len() <= 8,
        spec.urls.contains(url),
        "stun:"@.is_prefix_of(url) || ("turn:"@.is_prefix_of(url) && spec.username.len() > 0
            && spec.credential.len() > 0),
        !occurs_in("transport=tcp"@, url),
    ensures
        exists|j: int|
            0 <= j < usable_servers(specs).len() && {
                let server = #[trigger] usable_servers(specs)[j];
                server.urls.contains(url) && server.username == spec.username && server.credential
                    == spec.credential && server.credential_type == CredentialType::Password
            },
    decreases specs.len(),
{
    let login = spec.username.len() > 0 && spec.credential.len() > 0;
    let rest = specs.drop_last();
    let before = usable_servers(rest);
    let after = usable_servers(specs);
    if i == specs.len() - 1 {
        lemma_address_kept(spec.urls, login, url);
        lemma_entry_kept(spec);
        let fitting = usable_urls(spec.urls, login);
        assert(fitting.take(fitting.len() as int) =~= fitting);
        assert(after[before.len() as int].urls.contains(url));
    } else {
        assert(rest[i] == specs[i]);
        lemma_signaled_address_given(rest, i, spec, url);
        let j = choose|j: int|
            0 <= j < before.len() && {
                let server = #[trigger] before[j];
                server.urls.contains(url) && server.username == spec.username && server.credential
                    == spec.credential && server.credential_type == CredentialType::Password
            };
        assert(after[j] == before[j]);
    }
}

/// One entry more gives the same servers and behind them what is left of it.
pub proof fn lemma_servers_one_by_one(
    specs: Seq<Option<IceSpecModel>>,
    spec: Option<IceSpecModel>,
)
    ensures
        usable_servers(Seq::empty()).len() == 0,
        usable_server(spec) is None ==> usable_servers(specs.push(spec)) == usable_servers(specs),
        usable_server(spec) matches Some(server) ==> usable_servers(specs.push(spec))
            == usable_servers(specs).push(server),
{
    assert(specs.push(spec).drop_last() =~= specs);
}

/// One signaled server more adds, behind the others and with its own login, the
/// addresses that no server has yet, each once and in their order; where it has
/// none it adds nothing.
pub proof fn lemma_merge_one(
    local: Seq<IceServerModel>,
    signaled: Seq<IceServerModel>,
    server: IceServerModel,
    url: Seq<char>,
    urls: Seq<Seq<char>>,
)
    ensures
        ({
            let before = merged_servers(local, signaled);
            let after = merged_servers(local, signaled.push(server));
            let fresh = fresh_urls(server.urls, before);
            &&& fresh.len() == 0 ==> after == before
            &&& fresh.len() > 0 ==> {
                &&& after.len() == before.len() + 1
                &&& after.drop_last() == before
                &&& after.last().urls == fresh
                &&& after.last().username == server.username
                &&& after.last().credential == server.credential
                &&& after.last().credential_type == server.credential_type
            }
            &&& fresh.no_duplicates()
            &&& fresh.contains(url) <==> server.urls.contains(url) && !lists_url(before, url)
        }),
        merged_servers(local, Seq::empty()) == local,
        fresh_urls(urls.push(url), local) == if lists_url(local, url) || urls.contains(url) {
            fresh_urls(urls, local)
        } else {
            fresh_urls(urls, local).push(url)
        },
{
    let before = merged_servers(local, signaled);
    let after = merged_servers(local, signaled.push(server));
    assert(signaled.push(server).drop_last() =~= signaled);
    lemma_fresh_urls(server.urls, before);
    if fresh_urls(server.urls, before).len() > 0 {
        assert(after.drop_last() =~= before);
    }
    assert(urls.push(url).drop_last() =~= urls);
    lemma_fresh_urls(urls, local);
}

/// The last resort is two public STUN servers, without a login. Whether only
/// relayed connections are allowed is up to the local side.
pub proof fn lemma_last_resort(local: RtcModel, signaled: Seq<IceServerModel>)
    ensures
        merged_rtc(local, signaled).relay == local.relay,
        local.ice_servers.len() == 0 && signaled.len() == 0 ==> {
            let servers = merged_rtc(local, signaled).ice_servers;
            &&& servers.len() == 1
            &&& servers[0].urls == seq![
                "stun:stun.cloudflare.com:3478"@,
                "stun:stun.miwifi.com:3478"@,
            ]
            &&& servers[0].username.len() == 0 && servers[0].credential.len() == 0
            &&& servers[0].credential_type == CredentialType::Unspecified
        },
{
}

/// A connection is bound to fail exactly where only relayed ones are allowed and
/// no server has an address that begins with `turn:`.
pub proof fn lemma_relay(rtc: RtcModel, i: int, k: int)
    ensures
        !rtc.relay ==> !relay_impossible(rtc),
        0 <= i < rtc.ice_servers.len() && 0 <= k < rtc.ice_servers[i].urls.len()
            && "turn:"@.is_prefix_of(rtc.ice_servers[i].urls[k]) ==> !relay_impossible(rtc),
        rtc.relay && !relay_impossible(rtc) ==> exists|i: int, k: int|
            0 <= i < rtc.ice_servers.len() && 0 <= k < rtc.ice_servers[i].urls.len()
                && "turn:"@.is_prefix_of(#[trigger] rtc.ice_servers[i].urls[k]),
{
}

/// The addresses of a setting stand between commas and white space: none is
/// empty or holds either, and they are the pieces between them that are not
/// empty, in their order. A setting that is absent has none.
pub proof fn lemma_listed_urls(text: Seq<char>)
    ensures
        listed_urls(None).len() == 0,
        forall|i: int, k: int|
            0 <= i < listed_urls(Some(text)).len() && 0 <= k < listed_urls(Some(text))[i].len()
                ==> {
                let c = #[trigger] listed_urls(Some(text))[i][k];
                c != ',' && !white_space(c)
            },
        forall|i: int|
            0 <= i < listed_urls(Some(text)).len() ==> (#[trigger] listed_urls(Some(text))[i]).len()
                >= 1,
        listed_urls(Some(text)) == pieces(text, true).filter(|url: Seq<char>| url.len() >= 1),
{
    lemma_spaced_pieces(text);
    let all = pieces(text, true);
    let urls = listed_urls(Some(text));
    lemma_non_empty(all);
    assert forall|i: int| 0 <= i < urls.len() implies (#[trigger] urls[i]).len() >= 1
        && all.contains(urls[i]) by {
        assert(urls.contains(urls[i]));
    }
    assert forall|i: int, k: int| 0 <= i < urls.len() && 0 <= k < urls[i].len() implies {
        let c = #[trigger] urls[i][k];
        c != ',' && !white_space(c)
    } by {
        assert(all.contains(urls[i]));
        let j = all.index_of(urls[i]);
        assert(all[j][k] == urls[i][k]);
    }
}

/// The settings are taken exactly where every STUN address begins with `stun:`,
/// every TURN address with `turn:` or `turns:`, and TURN comes with a user and a
/// password. The peers are then given the STUN addresses without a login and
/// behind them the TURN addresses with it, each where there are any. Otherwise
/// the first of these that is wrong is named.
pub proof fn lemma_browser_servers(
    stun: Option<Seq<char>>,
    turn: Option<Seq<char>>,
    user: Option<Seq<char>>,
    pass: Option<Seq<char>>,
)
    ensures
        ({
            let result = browser_servers(stun, turn, user, pass);
            let stuns = listed_urls(stun);
            let turns = listed_urls(turn);
            let stun_right = forall|i: int|
                0 <= i < stuns.len() ==> "stun:"@.is_prefix_of(#[trigger] stuns[i]);
            let turn_right = forall|i: int|
                0 <= i < turns.len() ==> "turn:"@.is_prefix_of(#[trigger] turns[i])
                    || "turns:"@.is_prefix_of(turns[i]);
            let login = user is Some && pass is Some;
            &&& result == Err::<Seq<BrowserServerModel>, IceError>(IceError::StunScheme)
                <==> !stun_right
            &&& result == Err::<Seq<BrowserServerModel>, IceError>(IceError::TurnScheme)
                <==> stun_right && !turn_right
            &&& result == Err::<Seq<BrowserServerModel>, IceError>(IceError::MissingLogin)
                <==> stun_right && turn_right && turns.len() > 0 && !login
            &&& result matches Ok(servers) ==> {
                let first = if stuns.len() > 0 {
                    1int
                } else {
                    0
                };
                &&& servers.len() == first + if turns.len() > 0 {
                    1int
                } else {
                    0
                }
                &&& stuns.len() > 0 ==> servers[0].urls == stuns && servers[0].login is None
                &&& turns.len() > 0 ==> servers[first].urls == turns && servers[first].login
                    == Some((user->0, pass->0))
            }
        }),
{
}

/// What each error says.
pub proof fn lemma_ice_error_words()
    ensures
        ice_error_words(IceError::StunScheme) == "STUN_URL entries must start with stun:"@,
        ice_error_words(IceError::TurnScheme)
            == "TURN_URL entries must start with turn: or turns:"@,
        ice_error_words(IceError::MissingLogin) == "TURN_URL requires TURN_USER and TURN_PASS"@,
{
}

/// Whoever reads a list of servers that was written finds each in its place,
/// with its addresses as a list, and its user name and credential where it has a
/// login; the agent reads the first eight as they were.
pub proof fn lemma_sent_servers(servers: Seq<BrowserServerModel>, i: int)
    requires
        reads_back(servers_tree(servers)),
        0 <= i < servers.len(),
    ensures
        tree_shape(servers_tree(servers)) matches JsonShape::Array(items) && items.len()
            == servers.len() && (json_level(items[i]) matches Some(document) && {
            &&& member_of(document, "urls"@) matches Some(JsonShape::Array(urls)) && json_strings(
                urls,
            ) == Some(servers[i].urls)
            &&& servers[i].login matches Some((user, pass)) ==> text_member_of(
                document,
                "username"@,
            ) == Some(user) && text_member_of(document, "credential"@) == Some(pass)
            &&& servers[i].login is None ==> member_of(document, "username"@) is None && member_of(
                document,
                "credential"@,
            ) is None
        }),
        specs_in(tree_shape(servers_tree(servers))).len() == if servers.len() < 8 {
            servers.len()
        } else {
            8
        },
        i < 8 ==> (specs_in(tree_shape(servers_tree(servers)))[i] matches Some(spec) && {
            &&& spec.urls == servers[i].urls
            &&& servers[i].login matches Some((user, pass)) ==> spec.username == user
                && spec.credential == pass
            &&& servers[i].login is None ==> spec.username.len() == 0 && spec.credential.len() == 0
        }),
{
    reveal_strlit("urls");
    reveal_strlit("username");
    reveal_strlit("credential");
    assert("urls"@.len() == 4 && "username"@.len() == 8 && "credential"@.len() == 10);
    lemma_servers_read_back(servers);
    let trees = servers.map_values(
        |server: BrowserServerModel| JsonTree::Object(server_members(server)),
    );
    let members = server_members(servers[i]);
    assert(trees[i] == JsonTree::Object(members));
    assert(reads_back(trees[i]));
    lemma_only_members(members);
    lemma_member_reads(members, 0);
    assert(reads_back(members[0].1));
    lemma_urls_read_back(servers[i].urls);
    if servers[i].login is Some {
        lemma_member_reads(members, 1);
        lemma_member_reads(members, 2);
    }
}

} // verus!
