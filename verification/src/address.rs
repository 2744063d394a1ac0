//! URLs, read and changed by the `url` crate and held as plain parts.

use crate::text::{byte_len, byte_length};
use vstd::prelude::*;
use vstd::utf8::encode_utf8;

verus! {

/// A URL in its parts.
pub struct Address {
    /// The whole URL in its normal form.
    pub href: String,
    pub scheme: String,
    pub username: String,
    pub password: Option<String>,
    pub host: Option<String>,
    pub path: String,
    pub query: Option<String>,
    pub fragment: Option<String>,
}

/// What an [`Address`] holds.
pub struct AddressParts {
    pub href: Seq<char>,
    pub scheme: Seq<char>,
    pub username: Seq<char>,
    pub password: Option<Seq<char>>,
    pub host: Option<Seq<char>>,
    pub path: Seq<char>,
    pub query: Option<Seq<char>>,
    pub fragment: Option<Seq<char>>,
}

impl DeepView for Address {
    type V = AddressParts;

    open spec fn deep_view(&self) -> AddressParts {
        AddressParts {
            href: self.href@,
            scheme: self.scheme@,
            username: self.username@,
            password: self.password.deep_view(),
            host: self.host.deep_view(),
            path: self.path@,
            query: self.query.deep_view(),
            fragment: self.fragment.deep_view(),
        }
    }
}

/// The parts of the URL that `url::Url::parse` reads from a text, or the words
/// of its error.
pub uninterp spec fn url_parts(text: Seq<char>) -> Result<AddressParts, Seq<char>>;

/// Reads a URL with `url::Url::parse` and takes its parts with `as_str`,
/// `scheme`, `username`, `password`, `host_str`, `path`, `query` and
/// `fragment`. The result is named [`url_parts`].
#[verifier::external_body]
pub(crate) fn read_address(text: &str) -> (result: Result<Address, String>)
    ensures
        match result {
            Ok(address) => url_parts(text@) == Ok::<AddressParts, Seq<char>>(address.deep_view()),
            Err(words) => url_parts(text@) == Err::<AddressParts, Seq<char>>(words@),
        },
{
    let url = url::Url::parse(text).map_err(|error| error.to_string())?;
    Ok(
        Address {
            href: url.as_str().to_string(),
            scheme: url.scheme().to_string(),
            username: url.username().to_string(),
            password: url.password().map(str::to_string),
            host: url.host_str().map(str::to_string),
            path: url.path().to_string(),
            query: url.query().map(str::to_string),
            fragment: url.fragment().map(str::to_string),
        },
    )
}

/// A URL that a path was resolved to.
pub struct Joined {
    pub href: String,
    pub path: String,
    pub query: Option<String>,
    pub fragment: Option<String>,
    /// It has the origin of the URL that the path was resolved against.
    pub same_origin: bool,
}

/// What a [`Joined`] holds.
pub struct JoinedParts {
    pub href: Seq<char>,
    pub path: Seq<char>,
    pub query: Option<Seq<char>>,
    pub fragment: Option<Seq<char>>,
    pub same_origin: bool,
}

impl DeepView for Joined {
    type V = JoinedParts;

    open spec fn deep_view(&self) -> JoinedParts {
        JoinedParts {
            href: self.href@,
            path: self.path@,
            query: self.query.deep_view(),
            fragment: self.fragment.deep_view(),
            same_origin: self.same_origin,
        }
    }
}

/// What `url::Url::join` makes of a base and a path, or the words of the error
/// of `parse` or `join`.
pub uninterp spec fn url_joined(base: Seq<char>, path: Seq<char>) -> Result<JoinedParts, Seq<char>>;

/// Resolves a path against a base with `url::Url::join`, and compares the two
/// origins with `url::Url::origin`. The result is named [`url_joined`]. Besides,
/// a query and a fragment come from the path alone: without a question mark
/// there is no query, and without a number sign no fragment. The path begins
/// with a slash: on such a path `join` refuses the bases whose `origin` would
/// recurse.
#[verifier::external_body]
pub(crate) fn join_path(base: &str, path: &str) -> (result: Result<Joined, String>)
    requires
        path@.len() > 0,
        path@[0] == '/',
    ensures
        match result {
            Ok(joined) => {
                &&& url_joined(base@, path@) == Ok::<JoinedParts, Seq<char>>(joined.deep_view())
                &&& !path@.contains('?') ==> joined.query is None
                &&& !path@.contains('#') ==> joined.fragment is None
            },
            Err(words) => url_joined(base@, path@) == Err::<JoinedParts, Seq<char>>(words@),
        },
{
    let base = url::Url::parse(base).map_err(|error| error.to_string())?;
    let url = base.join(path).map_err(|error| error.to_string())?;
    Ok(
        Joined {
            href: url.as_str().to_string(),
            path: url.path().to_string(),
            query: url.query().map(str::to_string),
            fragment: url.fragment().map(str::to_string),
            same_origin: url.origin() == base.origin(),
        },
    )
}

/// The pairs of a URL's query, decoded, or the words of the error of
/// `url::Url::parse`.
pub uninterp spec fn url_query_pairs(text: Seq<char>) -> Result<
    Seq<(Seq<char>, Seq<char>)>,
    Seq<char>,
>;

/// Reads the pairs of a URL's query with `url::Url::query_pairs`. The result
/// is named [`url_query_pairs`].
#[verifier::external_body]
pub(crate) fn query_pairs(text: &str) -> (result: Result<Vec<(String, String)>, String>)
    ensures
        match result {
            Ok(pairs) => url_query_pairs(text@) == Ok::<
                Seq<(Seq<char>, Seq<char>)>,
                Seq<char>,
            >(pairs.deep_view()),
            Err(words) => url_query_pairs(text@) == Err::<
                Seq<(Seq<char>, Seq<char>)>,
                Seq<char>,
            >(words@),
        },
{
    let url = url::Url::parse(text).map_err(|error| error.to_string())?;
    Ok(url.query_pairs().into_owned().collect())
}

/// A byte that stands for itself in a query.
pub open spec fn query_byte(byte: u8) -> bool {
    ||| '0' as u8 <= byte <= '9' as u8
    ||| 'A' as u8 <= byte <= 'Z' as u8
    ||| 'a' as u8 <= byte <= 'z' as u8
    ||| byte == '*' as u8 || byte == '-' as u8 || byte == '.' as u8 || byte == '_' as u8
}

/// Bytes of a name or value in a query: a space becomes a plus sign, and every
/// other byte that does not stand for itself is escaped with three.
pub open spec fn encoded_bytes(bytes: Seq<u8>) -> nat
    decreases bytes.len(),
{
    if bytes.len() == 0 {
        0
    } else {
        let last = bytes.last();
        encoded_bytes(bytes.drop_last()) + if query_byte(last) || last == ' ' as u8 {
            1nat
        } else {
            3nat
        }
    }
}

/// Bytes of a query of these pairs: each with a question mark or an ampersand
/// before it and an equals sign between its name and its value.
pub open spec fn query_bytes(pairs: Seq<(Seq<char>, Seq<char>)>) -> nat
    decreases pairs.len(),
{
    if pairs.len() == 0 {
        0
    } else {
        query_bytes(pairs.drop_last()) + encoded_bytes(encode_utf8(pairs.last().0)) + encoded_bytes(
            encode_utf8(pairs.last().1),
        ) + 2
    }
}

/// Bytes that the query takes in a URL, with its question mark.
pub open spec fn query_part(query: Option<Seq<char>>) -> nat {
    match query {
        Some(query) => byte_length(query) + 1,
        None => 0,
    }
}

/// A URL with these pairs in place of its query is no longer than the `url`
/// crate can count.
pub open spec fn url_fits(parts: AddressParts, pairs: Seq<(Seq<char>, Seq<char>)>) -> bool {
    byte_length(parts.href) + query_bytes(pairs) <= u32::MAX + query_part(parts.query)
}

/// Counts the bytes of a name or value in a query.
fn count_encoded(text: &str) -> (count: u128)
    ensures
        count == encoded_bytes(encode_utf8(text@)),
        count <= 3 * usize::MAX,
{
    let bytes = text.as_bytes();
    let ghost all = bytes@;
    let mut count: u128 = 0;
    for i in 0..bytes.len()
        invariant
            all == bytes@,
            count == encoded_bytes(all.take(i as int)),
            count <= 3 * i,
    {
        assert(all.take(i + 1).drop_last() =~= all.take(i as int));
        let byte: u8 = bytes[i];
        let kept = (byte >= '0' as u8 && byte <= '9' as u8) || (byte >= 'A' as u8 && byte
            <= 'Z' as u8) || (byte >= 'a' as u8 && byte <= 'z' as u8) || byte == '*' as u8 || byte
            == '-' as u8 || byte == '.' as u8 || byte == '_' as u8;
        let step: u128 = if kept || byte == ' ' as u8 { 1 } else { 3 };
        count = count + step;
    }
    assert(all.take(all.len() as int) =~= all);
    count
}

/// Fewer pairs take no more bytes.
proof fn lemma_query_bytes_prefix(pairs: Seq<(Seq<char>, Seq<char>)>, n: int)
    requires
        0 <= n <= pairs.len(),
    ensures
        query_bytes(pairs.take(n)) <= query_bytes(pairs),
    decreases pairs.len(),
{
    if n < pairs.len() {
        assert(pairs.drop_last().take(n) =~= pairs.take(n));
        lemma_query_bytes_prefix(pairs.drop_last(), n);
    } else {
        assert(pairs.take(n) =~= pairs);
    }
}

/// Whether a URL with these pairs in place of its query can be held.
pub(crate) fn fits_url(parts: &Address, pairs: &Vec<(String, String)>) -> (fits: bool)
    ensures
        fits == url_fits(parts.deep_view(), pairs.deep_view()),
{
    let ghost all = pairs.deep_view();
    let room: u128 = 0xffff_ffff + match &parts.query {
        Some(query) => byte_len(query.as_str()) as u128 + 1,
        None => 0,
    };
    let mut total: u128 = byte_len(parts.href.as_str()) as u128;
    let ghost length = byte_length(parts.href@);
    assert(all.take(0) =~= Seq::empty());
    for i in 0..pairs.len()
        invariant
            all == pairs.deep_view(),
            length == byte_length(parts.href@),
            room == u32::MAX + query_part(parts.deep_view().query),
            room <= 0xffff_ffff + usize::MAX + 1,
            total == length + query_bytes(all.take(i as int)),
            i == 0 ==> total <= usize::MAX,
            i > 0 ==> total <= room,
    {
        assert(all.take(i + 1).drop_last() =~= all.take(i as int));
        proof {
            lemma_query_bytes_prefix(all, i + 1);
        }
        let name: u128 = count_encoded(pairs[i].0.as_str());
        let value: u128 = count_encoded(pairs[i].1.as_str());
        total = total + name + value + 2;
        if total > room {
            return false;
        }
    }
    assert(all.take(all.len() as int) =~= all);
    total <= room
}

/// The URL that is left when the query of a URL is replaced by pairs.
pub uninterp spec fn url_with_pairs(text: Seq<char>, pairs: Seq<(Seq<char>, Seq<char>)>) -> Result<
    Seq<char>,
    Seq<char>,
>;

/// Replaces the query of a URL by `pairs` with `url::Url::set_query` and
/// `query_pairs_mut().extend_pairs`. The result is named [`url_with_pairs`].
/// Besides, the new URL has these pairs in its query, in their order, and of a
/// `ws` or `wss` URL every other part stays as it was. The new URL is no longer
/// than the crate can count: beyond that length it panics.
#[verifier::external_body]
pub(crate) fn with_query_pairs(text: &str, pairs: &Vec<(String, String)>) -> (result: Result<
    String,
    String,
>)
    requires
        pairs@.len() > 0,
        url_parts(text@) matches Ok(parts) ==> url_fits(parts, pairs.deep_view()),
    ensures
        match result {
            Ok(url) => {
                &&& url_with_pairs(text@, pairs.deep_view()) == Ok::<Seq<char>, Seq<char>>(url@)
                &&& url_query_pairs(url@) == Ok::<Seq<(Seq<char>, Seq<char>)>, Seq<char>>(
                    pairs.deep_view(),
                )
                &&& url_parts(text@) matches Ok(old_parts) ==> (old_parts.scheme == "ws"@
                    || old_parts.scheme == "wss"@) ==> {
                    &&& url_parts(url@) matches Ok(parts)
                    &&& parts.href == url@
                    &&& parts == AddressParts { href: parts.href, query: parts.query, ..old_parts }
                }
            },
            Err(words) => {
                &&& url_with_pairs(text@, pairs.deep_view()) == Err::<Seq<char>, Seq<char>>(words@)
                &&& url_parts(text@) == Err::<AddressParts, Seq<char>>(words@)
            },
        },
{
    let mut url = url::Url::parse(text).map_err(|error| error.to_string())?;
    url.set_query(None);
    url.query_pairs_mut().extend_pairs(pairs);
    Ok(url.to_string())
}

/// In a query, letters, digits, a star, a hyphen, a dot and an underscore take one
/// byte, as a space does, and every other byte takes three; each pair takes two
/// more for the marks round it.
pub proof fn lemma_query_bytes(
    bytes: Seq<u8>,
    byte: u8,
    pairs: Seq<(Seq<char>, Seq<char>)>,
    pair: (Seq<char>, Seq<char>),
)
    ensures
        ({
            let short = 48 <= byte <= 57 || 65 <= byte <= 90 || 97 <= byte <= 122 || byte == 42
                || byte == 45 || byte == 46 || byte == 95 || byte == 32;
            encoded_bytes(bytes.push(byte)) == encoded_bytes(bytes) + if short {
                1int
            } else {
                3
            }
        }),
        encoded_bytes(Seq::empty()) == 0,
        query_bytes(pairs.push(pair)) == query_bytes(pairs) + encoded_bytes(encode_utf8(pair.0))
            + encoded_bytes(encode_utf8(pair.1)) + 2,
        query_bytes(Seq::empty()) == 0,
{
    assert(bytes.push(byte).drop_last() =~= bytes);
    assert(pairs.push(pair).drop_last() =~= pairs);
}

/// A URL is long enough to be refused exactly where, with its query replaced, it
/// has more than 4294967295 bytes.
pub proof fn lemma_url_fits(parts: AddressParts, pairs: Seq<(Seq<char>, Seq<char>)>)
    ensures
        parts.query is None ==> (url_fits(parts, pairs) <==> byte_length(parts.href) + query_bytes(
            pairs,
        ) <= 4294967295),
        parts.query matches Some(query) ==> (url_fits(parts, pairs) <==> byte_length(parts.href) - (
        byte_length(query) + 1) + query_bytes(pairs) <= 4294967295),
{
}

} // verus!
