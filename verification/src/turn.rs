//! The TURN server: its settings, and whom it relays for.

use crate::config::value_or;
use crate::startup::{random_secret, random_text};
use crate::stream::Endpoint;
use crate::text::{
    byte_len, byte_length, number_value, parse_number, result_view, text_equal, NumberError,
};
use vstd::prelude::*;

verus! {

/// The key that `turn::auth::generate_auth_key` makes of a user name, a realm and a password.
pub uninterp spec fn auth_key(user: Seq<char>, realm: Seq<char>, password: Seq<char>) -> Seq<u8>;

/// Makes the key of a login with `turn::auth::generate_auth_key`. The result is
/// named [`auth_key`].
#[verifier::external_body]
fn generate_key(user: &str, realm: &str, password: &str) -> (key: Vec<u8>)
    ensures
        key@ == auth_key(user@, realm@, password@),
{
    turn::auth::generate_auth_key(user, realm, password)
}

/// The one login of the server.
pub struct StaticAuth {
    pub user: String,
    pub realm: String,
    pub key: Vec<u8>,
}

/// What a [`StaticAuth`] holds.
pub struct StaticAuthModel {
    pub user: Seq<char>,
    pub realm: Seq<char>,
    pub key: Seq<u8>,
}

impl DeepView for StaticAuth {
    type V = StaticAuthModel;

    open spec fn deep_view(&self) -> StaticAuthModel {
        StaticAuthModel { user: self.user@, realm: self.realm@, key: self.key@ }
    }
}

/// The login of a user with a password.
pub open spec fn login_of(user: Seq<char>, realm: Seq<char>, password: Seq<char>) -> StaticAuthModel {
    StaticAuthModel { user, realm, key: auth_key(user, realm, password) }
}

/// The key of a user in a realm: that of the one user in the one realm.
pub open spec fn key_for(auth: StaticAuthModel, username: Seq<char>, realm: Seq<char>) -> Option<
    Seq<u8>,
> {
    if username == auth.user && realm == auth.realm {
        Some(auth.key)
    } else {
        None
    }
}

/// A copy of a key.
fn copy_key(key: &Vec<u8>) -> (copy: Vec<u8>)
    ensures
        copy@ == key@,
{
    let mut copy: Vec<u8> = Vec::new();
    for i in 0..key.len()
        invariant
            copy@ =~= key@.take(i as int),
    {
        copy.push(key[i]);
    }
    assert(key@.take(key@.len() as int) =~= key@);
    copy
}

impl StaticAuth {
    /// The login of a user with a password.
    pub fn new(user: &str, realm: &str, password: &str) -> (auth: StaticAuth)
        ensures
            auth.deep_view() == login_of(user@, realm@, password@),
    {
        StaticAuth {
            user: user.to_owned(),
            realm: realm.to_owned(),
            key: generate_key(user, realm, password),
        }
    }

    /// The key of a user in a realm, `None` where there is no such user.
    pub fn auth_handle(&self, username: &str, realm: &str) -> (key: Option<Vec<u8>>)
        ensures
            key.deep_view() == key_for(self.deep_view(), username@, realm@),
            match key {
                Some(key) => username@ == self.user@ && realm@ == self.realm@ && key@ == self.key@,
                None => username@ != self.user@ || realm@ != self.realm@,
            },
    {
        if text_equal(username, self.user.as_str()) && text_equal(realm, self.realm.as_str()) {
            let key = copy_key(&self.key);
            assert(key.deep_view() =~= key@);
            Some(key)
        } else {
            None
        }
    }
}

/// An IP address.
#[derive(Clone, Copy, Debug, PartialEq, Eq, Structural)]
pub struct IpNumber {
    pub v4: bool,
    pub ip: u128,
}

/// An address of this machine: 127.0.0.0/8, or ::1.
pub open spec fn loopback(endpoint: Endpoint) -> bool {
    if endpoint.v4 {
        endpoint.ip / 0x100_0000 == 127
    } else {
        endpoint.ip == 1
    }
}

/// Whether an address is one of this machine.
pub fn is_loopback(endpoint: &Endpoint) -> (found: bool)
    ensures
        found == loopback(*endpoint),
{
    if endpoint.v4 {
        endpoint.ip / 0x100_0000 == 127
    } else {
        endpoint.ip == 1
    }
}

/// What the environment of the TURN server holds. Addresses are read already,
/// or it is said why they cannot be.
pub struct TurnEnvironment {
    /// The public address, 127.0.0.1 where none is given.
    pub public_ip: Result<IpNumber, String>,
    pub turn_user: Option<String>,
    pub turn_pass: Option<String>,
    pub realm: Option<String>,
    pub relay_min_port: Option<String>,
    pub relay_max_port: Option<String>,
    pub https_upstream: Option<Result<Endpoint, String>>,
    pub turn_idle_timeout_secs: Option<String>,
    pub relay_bind: Option<String>,
    pub turn_udp_bind: Option<String>,
    pub turn_tcp_bind: Option<String>,
    pub turn_tls_bind: Option<String>,
}

/// The settings of the TURN server.
pub struct TurnSettings {
    pub public_ip: IpNumber,
    pub auth: StaticAuth,
    pub password: String,
    /// The password was made up at start.
    pub generated: bool,
    pub min_port: u16,
    pub max_port: u16,
    /// Where HTTP is passed on to.
    pub https_upstream: Option<Endpoint>,
    /// Seconds that may pass between two packets of a stream.
    pub idle_secs: u64,
    pub relay_bind: String,
    pub udp_bind: String,
    pub tcp_bind: String,
    /// Where TLS is listened for, and whether that was asked for.
    pub tls_bind: String,
    pub tls_asked: bool,
}

/// What the [`TurnSettings`] hold.
pub struct TurnModel {
    pub public_ip: IpNumber,
    pub auth: StaticAuthModel,
    pub password: Seq<char>,
    pub generated: bool,
    pub min_port: u16,
    pub max_port: u16,
    pub https_upstream: Option<Endpoint>,
    pub idle_secs: u64,
    pub relay_bind: Seq<char>,
    pub udp_bind: Seq<char>,
    pub tcp_bind: Seq<char>,
    pub tls_bind: Seq<char>,
    pub tls_asked: bool,
}

impl DeepView for TurnSettings {
    type V = TurnModel;

    open spec fn deep_view(&self) -> TurnModel {
        TurnModel {
            public_ip: self.public_ip,
            auth: self.auth.deep_view(),
            password: self.password@,
            generated: self.generated,
            min_port: self.min_port,
            max_port: self.max_port,
            https_upstream: self.https_upstream,
            idle_secs: self.idle_secs,
            relay_bind: self.relay_bind@,
            udp_bind: self.udp_bind@,
            tcp_bind: self.tcp_bind@,
            tls_bind: self.tls_bind@,
            tls_asked: self.tls_asked,
        }
    }
}

/// Why the settings of the TURN server are refused.
pub enum TurnErrorOf<T> {
    PublicIp(T),
    Login,
    Port(NumberError),
    PortRange,
    Upstream(T),
    Idle(NumberError),
    IdleZero,
    UpstreamNotLoopback,
    UpstreamNeedsTls,
    TlsBindNeedsTls,
}

/// Why the settings of the TURN server are refused.
pub type TurnError = TurnErrorOf<String>;

impl DeepView for TurnErrorOf<String> {
    type V = TurnErrorOf<Seq<char>>;

    open spec fn deep_view(&self) -> TurnErrorOf<Seq<char>> {
        match self {
            TurnErrorOf::PublicIp(words) => TurnErrorOf::PublicIp(words@),
            TurnErrorOf::Login => TurnErrorOf::Login,
            TurnErrorOf::Port(error) => TurnErrorOf::Port(*error),
            TurnErrorOf::PortRange => TurnErrorOf::PortRange,
            TurnErrorOf::Upstream(words) => TurnErrorOf::Upstream(words@),
            TurnErrorOf::Idle(error) => TurnErrorOf::Idle(*error),
            TurnErrorOf::IdleZero => TurnErrorOf::IdleZero,
            TurnErrorOf::UpstreamNotLoopback => TurnErrorOf::UpstreamNotLoopback,
            TurnErrorOf::UpstreamNeedsTls => TurnErrorOf::UpstreamNeedsTls,
            TurnErrorOf::TlsBindNeedsTls => TurnErrorOf::TlsBindNeedsTls,
        }
    }
}

/// What is wrong with a number, in words.
pub open spec fn number_error_words(error: NumberError) -> Seq<char> {
    match error {
        NumberError::Empty => "cannot parse integer from empty string"@,
        NumberError::InvalidDigit => "invalid digit found in string"@,
        NumberError::TooLarge => "number too large to fit in target type"@,
    }
}

/// A refusal in words.
pub open spec fn turn_error_words(error: TurnErrorOf<Seq<char>>) -> Seq<char> {
    match error {
        TurnErrorOf::PublicIp(words) => words,
        TurnErrorOf::Login => "Use TURN_USER and a TURN_PASS of at least 16 characters"@,
        TurnErrorOf::Port(error) => number_error_words(error),
        TurnErrorOf::PortRange => "Invalid relay port range"@,
        TurnErrorOf::Upstream(words) => words,
        TurnErrorOf::Idle(error) => number_error_words(error),
        TurnErrorOf::IdleZero => "TURN_IDLE_TIMEOUT_SECS must be positive"@,
        TurnErrorOf::UpstreamNotLoopback => "HTTPS_UPSTREAM must be a loopback address"@,
        TurnErrorOf::UpstreamNeedsTls => "HTTPS_UPSTREAM requires TLS_CERT and TLS_KEY"@,
        TurnErrorOf::TlsBindNeedsTls => "TURN_TLS_BIND requires TLS_CERT and TLS_KEY"@,
    }
}

impl TurnErrorOf<String> {
    /// The reason in words.
    pub fn message(&self) -> (text: String)
        ensures
            text@ == turn_error_words(self.deep_view()),
    {
        match self {
            TurnErrorOf::PublicIp(words) => words.clone(),
            TurnErrorOf::Login =>
                "Use TURN_USER and a TURN_PASS of at least 16 characters".to_owned(),
            TurnErrorOf::Port(error) => error.message().to_owned(),
            TurnErrorOf::PortRange => "Invalid relay port range".to_owned(),
            TurnErrorOf::Upstream(words) => words.clone(),
            TurnErrorOf::Idle(error) => error.message().to_owned(),
            TurnErrorOf::IdleZero => "TURN_IDLE_TIMEOUT_SECS must be positive".to_owned(),
            TurnErrorOf::UpstreamNotLoopback =>
                "HTTPS_UPSTREAM must be a loopback address".to_owned(),
            TurnErrorOf::UpstreamNeedsTls =>
                "HTTPS_UPSTREAM requires TLS_CERT and TLS_KEY".to_owned(),
            TurnErrorOf::TlsBindNeedsTls =>
                "TURN_TLS_BIND requires TLS_CERT and TLS_KEY".to_owned(),
        }
    }
}

/// The range of ports that are relayed from: not from zero, and not backwards.
pub open spec fn port_range(min: Seq<char>, max: Seq<char>) -> Result<
    (u16, u16),
    TurnErrorOf<Seq<char>>,
> {
    match number_value(min, 65535) {
        Err(error) => Err(TurnErrorOf::Port(error)),
        Ok(low) => match number_value(max, 65535) {
            Err(error) => Err(TurnErrorOf::Port(error)),
            Ok(high) => if low > 0 && high >= low {
                Ok((low as u16, high as u16))
            } else {
                Err(TurnErrorOf::PortRange)
            },
        },
    }
}

/// Numbers are no larger than they may be.
proof fn lemma_number_bound(text: Seq<char>, max: u64)
    ensures
        number_value(text, max) matches Ok(value) ==> value <= max,
{
    if text.len() > 0 {
        crate::text::lemma_digits_bound(text, max);
        crate::text::lemma_digits_bound(text.skip(1), max);
    }
}

/// Reads the range of ports that are relayed from.
pub fn read_port_range(min: &str, max: &str) -> (result: Result<(u16, u16), TurnError>)
    ensures
        match result {
            Ok(range) => port_range(min@, max@) == Ok::<(u16, u16), TurnErrorOf<Seq<char>>>(range),
            Err(error) => port_range(min@, max@) == Err::<(u16, u16), TurnErrorOf<Seq<char>>>(
                error.deep_view(),
            ),
        },
{
    proof {
        lemma_number_bound(min@, 65535);
        lemma_number_bound(max@, 65535);
    }
    let low: u64 = match parse_number(min, 65535) {
        Ok(low) => low,
        Err(error) => return Err(TurnErrorOf::Port(error)),
    };
    let high: u64 = match parse_number(max, 65535) {
        Ok(high) => high,
        Err(error) => return Err(TurnErrorOf::Port(error)),
    };
    if low > 0 && high >= low {
        Ok((low as u16, high as u16))
    } else {
        Err(TurnErrorOf::PortRange)
    }
}

/// The seconds that may pass between two packets of a stream.
pub open spec fn idle_seconds(text: Seq<char>) -> Result<u64, TurnErrorOf<Seq<char>>> {
    match number_value(text, u64::MAX) {
        Err(error) => Err(TurnErrorOf::Idle(error)),
        Ok(seconds) => if seconds == 0 {
            Err(TurnErrorOf::IdleZero)
        } else {
            Ok(seconds)
        },
    }
}

/// Where HTTP is passed on to, where it can be read.
pub open spec fn upstream_of(upstream: Option<Result<Endpoint, String>>) -> Result<
    Option<Endpoint>,
    TurnErrorOf<Seq<char>>,
> {
    match upstream {
        None => Ok(None),
        Some(Ok(endpoint)) => Ok(Some(endpoint)),
        Some(Err(words)) => Err(TurnErrorOf::Upstream(words@)),
    }
}

/// The user and the password can be used.
pub open spec fn login_valid(user: Seq<char>, password: Seq<char>) -> bool {
    1 <= byte_length(user) <= 64 && byte_length(password) >= 16
}

/// The settings of the TURN server, where `made_up` is the password that is
/// made up when none is set.
pub open spec fn turn_settings(env: TurnEnvironment, made_up: Seq<char>) -> Result<
    TurnModel,
    TurnErrorOf<Seq<char>>,
> {
    let user = value_or(env.turn_user.deep_view(), "ollama-link"@);
    let given = value_or(env.turn_pass.deep_view(), Seq::empty());
    let password = if given.len() == 0 {
        made_up
    } else {
        given
    };
    let realm = value_or(env.realm.deep_view(), "webrtc-ollama"@);
    match env.public_ip {
        Err(words) => Err(TurnErrorOf::PublicIp(words@)),
        Ok(public_ip) => if !login_valid(user, password) {
            Err(TurnErrorOf::Login)
        } else {
            match port_range(
                value_or(env.relay_min_port.deep_view(), "49160"@),
                value_or(env.relay_max_port.deep_view(), "49200"@),
            ) {
                Err(error) => Err(error),
                Ok((min_port, max_port)) => match upstream_of(env.https_upstream) {
                    Err(error) => Err(error),
                    Ok(https_upstream) => match idle_seconds(
                        value_or(env.turn_idle_timeout_secs.deep_view(), "600"@),
                    ) {
                        Err(error) => Err(error),
                        Ok(idle_secs) => if https_upstream matches Some(endpoint) && !loopback(
                            endpoint,
                        ) {
                            Err(TurnErrorOf::UpstreamNotLoopback)
                        } else {
                            Ok(
                                TurnModel {
                                    public_ip,
                                    auth: StaticAuthModel {
                                        user,
                                        realm,
                                        key: auth_key(user, realm, password),
                                    },
                                    password,
                                    generated: given.len() == 0,
                                    min_port,
                                    max_port,
                                    https_upstream,
                                    idle_secs,
                                    relay_bind: value_or(env.relay_bind.deep_view(), "0.0.0.0"@),
                                    udp_bind: value_or(
                                        env.turn_udp_bind.deep_view(),
                                        "0.0.0.0:3478"@,
                                    ),
                                    tcp_bind: value_or(
                                        env.turn_tcp_bind.deep_view(),
                                        "0.0.0.0:3478"@,
                                    ),
                                    tls_bind: value_or(
                                        env.turn_tls_bind.deep_view(),
                                        "0.0.0.0:5349"@,
                                    ),
                                    tls_asked: env.turn_tls_bind is Some,
                                },
                            )
                        },
                    },
                },
            }
        },
    }
}

/// What needs TLS where there is none.
pub open spec fn tls_fault(settings: TurnModel, has_tls: bool) -> Option<TurnErrorOf<Seq<char>>> {
    if has_tls {
        None
    } else if settings.https_upstream is Some {
        Some(TurnErrorOf::UpstreamNeedsTls)
    } else if settings.tls_asked {
        Some(TurnErrorOf::TlsBindNeedsTls)
    } else {
        None
    }
}

/// Nanoseconds that may pass between two packets of a stream.
pub open spec fn idle_time(settings: TurnModel) -> int {
    settings.idle_secs * 1_000_000_000
}

/// Where a stream over TLS that begins with this byte is passed on to.
pub open spec fn passed_to(settings: TurnModel, first: u8) -> Option<Endpoint> {
    if crate::stream::begins_http(first) {
        settings.https_upstream
    } else {
        None
    }
}

/// A value that is set, else what stands for it.
fn value_or_default(value: Option<String>, fallback: &str) -> (text: String)
    ensures
        text@ == value_or(value.deep_view(), fallback@),
{
    match value {
        Some(value) => value,
        None => fallback.to_owned(),
    }
}

impl TurnSettings {
    /// Builds the settings; `made_up` is used as the password where none is set.
    pub fn build(env: TurnEnvironment, made_up: String) -> (result: Result<TurnSettings, TurnError>)
        ensures
            result_view(result) == turn_settings(env, made_up@),
    {
        proof {
            reveal_strlit("");
            assert(""@ =~= Seq::empty());
        }
        let public_ip = match env.public_ip {
            Ok(ip) => ip,
            Err(words) => return Err(TurnErrorOf::PublicIp(words)),
        };
        let user = value_or_default(env.turn_user, "ollama-link");
        let mut password = value_or_default(env.turn_pass, "");
        let generated = password.as_str().is_empty();
        if generated {
            password = made_up;
        }
        let user_length: usize = byte_len(user.as_str());
        if user_length < 1 || user_length > 64 || byte_len(password.as_str()) < 16 {
            return Err(TurnErrorOf::Login);
        }
        let realm = value_or_default(env.realm, "webrtc-ollama");
        let min_text = value_or_default(env.relay_min_port, "49160");
        let max_text = value_or_default(env.relay_max_port, "49200");
        let (min_port, max_port): (u16, u16) = match read_port_range(
            min_text.as_str(),
            max_text.as_str(),
        ) {
            Ok(range) => range,
            Err(error) => return Err(error),
        };
        let https_upstream = match env.https_upstream {
            None => None,
            Some(Ok(endpoint)) => Some(endpoint),
            Some(Err(words)) => return Err(TurnErrorOf::Upstream(words)),
        };
        let idle_text = value_or_default(env.turn_idle_timeout_secs, "600");
        let idle_secs: u64 = match parse_number(idle_text.as_str(), u64::MAX) {
            Ok(seconds) => seconds,
            Err(error) => return Err(TurnErrorOf::Idle(error)),
        };
        if idle_secs == 0 {
            return Err(TurnErrorOf::IdleZero);
        }
        if let Some(endpoint) = &https_upstream {
            if !is_loopback(endpoint) {
                return Err(TurnErrorOf::UpstreamNotLoopback);
            }
        }
        let tls_asked = env.turn_tls_bind.is_some();
        Ok(
            TurnSettings {
                public_ip,
                auth: StaticAuth::new(user.as_str(), realm.as_str(), password.as_str()),
                password,
                generated,
                min_port,
                max_port,
                https_upstream,
                idle_secs,
                relay_bind: value_or_default(env.relay_bind, "0.0.0.0"),
                udp_bind: value_or_default(env.turn_udp_bind, "0.0.0.0:3478"),
                tcp_bind: value_or_default(env.turn_tcp_bind, "0.0.0.0:3478"),
                tls_bind: value_or_default(env.turn_tls_bind, "0.0.0.0:5349"),
                tls_asked,
            },
        )
    }

    /// Reads the settings from the environment. Where a password has to be made
    /// up it is some 32 lower-case hexadecimal digits.
    pub fn from_env(env: TurnEnvironment) -> (result: Result<TurnSettings, TurnError>)
        ensures
            exists|made_up: Seq<char>|
                random_text(made_up) && byte_length(made_up) == 32 && result_view(result)
                    == #[trigger] turn_settings(env, made_up),
    {
        let made_up = random_secret();
        let ghost secret = made_up@;
        let result = TurnSettings::build(env, made_up);
        assert(result_view(result) == turn_settings(env, secret));
        result
    }

    /// Checks that there is TLS where the settings need it.
    pub fn check_tls(&self, has_tls: bool) -> (result: Result<(), TurnError>)
        ensures
            match result {
                Ok(_) => tls_fault(self.deep_view(), has_tls) is None,
                Err(error) => tls_fault(self.deep_view(), has_tls) == Some(error.deep_view()),
            },
    {
        if self.https_upstream.is_some() && !has_tls {
            return Err(TurnErrorOf::UpstreamNeedsTls);
        }
        if self.tls_asked && !has_tls {
            return Err(TurnErrorOf::TlsBindNeedsTls);
        }
        Ok(())
    }

    /// Nanoseconds that may pass between two packets of a stream.
    pub fn idle_nanos(&self) -> (nanos: u128)
        ensures
            nanos == idle_time(self.deep_view()),
    {
        self.idle_secs as u128 * 1_000_000_000
    }
}

/// What is to be done with a stream over TLS that begins with this byte: HTTP
/// goes to the upstream where there is one, everything else is TURN.
pub fn upstream_for(settings: &TurnSettings, first: u8) -> (upstream: Option<Endpoint>)
    ensures
        upstream == passed_to(settings.deep_view(), first),
{
    if crate::stream::speaks_http(first) {
        settings.https_upstream
    } else {
        None
    }
}

/// Accepted settings have a login that can be used, a range of ports that holds
/// at least one and not the port zero, time between packets, and an upstream
/// only on this machine.
pub proof fn lemma_turn_settings_valid(env: TurnEnvironment, made_up: Seq<char>)
    requires
        turn_settings(env, made_up) is Ok,
    ensures
        turn_settings(env, made_up) matches Ok(settings) && {
            &&& login_valid(settings.auth.user, settings.password)
            &&& 0 < settings.min_port <= settings.max_port
            &&& settings.idle_secs > 0
            &&& settings.https_upstream matches Some(endpoint) ==> loopback(endpoint)
            &&& settings.auth.key == auth_key(
                settings.auth.user,
                settings.auth.realm,
                settings.password,
            )
        },
{
    lemma_number_bound(value_or(env.relay_min_port.deep_view(), "49160"@), 65535);
    lemma_number_bound(value_or(env.relay_max_port.deep_view(), "49200"@), 65535);
}

/// The one user gets its key in the one realm, the key of its password; any
/// other user, and any other realm, gets none.
pub proof fn lemma_key_for(
    auth: StaticAuthModel,
    username: Seq<char>,
    realm: Seq<char>,
    password: Seq<char>,
)
    ensures
        key_for(login_of(username, realm, password), username, realm) == Some(
            auth_key(username, realm, password),
        ),
        key_for(auth, auth.user, auth.realm) == Some(auth.key),
        username != auth.user || realm != auth.realm ==> key_for(auth, username, realm) is None,
{
}

/// The addresses of this machine are 127.0.0.0 to 127.255.255.255, and of IPv6
/// the one with the number one.
pub proof fn lemma_loopback(endpoint: Endpoint)
    ensures
        endpoint.v4 ==> (loopback(endpoint) <==> 127 * 16777216 <= endpoint.ip < 128 * 16777216),
        !endpoint.v4 ==> (loopback(endpoint) <==> endpoint.ip == 1),
{
}

/// Ports are relayed from in a range of numbers from 1 to 65535, the lower first.
/// A number that cannot be read is named before a range that is none.
pub proof fn lemma_port_range(min: Seq<char>, max: Seq<char>)
    ensures
        ({
            let result = port_range(min, max);
            match (number_value(min, 65535), number_value(max, 65535)) {
                (Ok(low), Ok(high)) => {
                    &&& 1 <= low <= high ==> (result matches Ok((first, last)) && first == low
                        && last == high && last <= 65535)
                    &&& !(1 <= low <= high) ==> result == Err::<
                        (u16, u16),
                        TurnErrorOf<Seq<char>>,
                    >(TurnErrorOf::PortRange)
                },
                (Err(error), _) => result == Err::<(u16, u16), TurnErrorOf<Seq<char>>>(
                    TurnErrorOf::Port(error),
                ),
                (Ok(_), Err(error)) => result == Err::<(u16, u16), TurnErrorOf<Seq<char>>>(
                    TurnErrorOf::Port(error),
                ),
            }
        }),
{
    lemma_number_bound(min, 65535);
    lemma_number_bound(max, 65535);
}

/// Between two packets may pass any whole number of seconds that fits and is not
/// zero.
pub proof fn lemma_idle_seconds(text: Seq<char>)
    ensures
        number_value(text, u64::MAX) matches Ok(seconds) ==> {
            &&& seconds > 0 ==> idle_seconds(text) == Ok::<u64, TurnErrorOf<Seq<char>>>(seconds)
            &&& seconds == 0 ==> idle_seconds(text) == Err::<u64, TurnErrorOf<Seq<char>>>(
                TurnErrorOf::IdleZero,
            )
        },
        number_value(text, u64::MAX) matches Err(error) ==> idle_seconds(text) == Err::<
            u64,
            TurnErrorOf<Seq<char>>,
        >(TurnErrorOf::Idle(error)),
{
}

/// What accepted settings hold, and what stands for a setting that is absent: the
/// user `ollama-link` in the realm `webrtc-ollama`, a password that is made up,
/// ports 49160 to 49200, 600 seconds between packets, and every address with
/// port 3478, for TLS 5349.
pub proof fn lemma_turn_fields(env: TurnEnvironment, made_up: Seq<char>)
    ensures
        turn_settings(env, made_up) matches Ok(settings) ==> {
            let own_password = env.turn_pass is Some && env.turn_pass->0@.len() > 0;
            &&& env.public_ip == Ok::<IpNumber, String>(settings.public_ip)
            &&& env.turn_user matches Some(user) ==> settings.auth.user == user@
            &&& env.turn_user is None ==> settings.auth.user == "ollama-link"@
            &&& env.realm matches Some(realm) ==> settings.auth.realm == realm@
            &&& env.realm is None ==> settings.auth.realm == "webrtc-ollama"@
            &&& own_password ==> settings.password == env.turn_pass->0@ && !settings.generated
            &&& !own_password ==> settings.password == made_up && settings.generated
            &&& settings.auth.key == auth_key(
                settings.auth.user,
                settings.auth.realm,
                settings.password,
            )
            &&& 1 <= byte_length(settings.auth.user) <= 64
            &&& byte_length(settings.password) >= 16
            &&& ({
                let min = match env.relay_min_port {
                    Some(port) => port@,
                    None => "49160"@,
                };
                let max = match env.relay_max_port {
                    Some(port) => port@,
                    None => "49200"@,
                };
                port_range(min, max) == Ok::<(u16, u16), TurnErrorOf<Seq<char>>>(
                    (settings.min_port, settings.max_port),
                )
            })
            &&& env.https_upstream is None ==> settings.https_upstream is None
            &&& env.https_upstream matches Some(upstream) ==> (upstream matches Ok(endpoint)
                && settings.https_upstream == Some(endpoint) && loopback(endpoint))
            &&& env.turn_idle_timeout_secs matches Some(text) ==> idle_seconds(text@) == Ok::<
                u64,
                TurnErrorOf<Seq<char>>,
            >(settings.idle_secs)
            &&& env.turn_idle_timeout_secs is None ==> idle_seconds("600"@) == Ok::<
                u64,
                TurnErrorOf<Seq<char>>,
            >(settings.idle_secs)
            &&& settings.relay_bind == value_or(env.relay_bind.deep_view(), "0.0.0.0"@)
            &&& settings.udp_bind == value_or(env.turn_udp_bind.deep_view(), "0.0.0.0:3478"@)
            &&& settings.tcp_bind == value_or(env.turn_tcp_bind.deep_view(), "0.0.0.0:3478"@)
            &&& settings.tls_bind == value_or(env.turn_tls_bind.deep_view(), "0.0.0.0:5349"@)
            &&& settings.tls_asked <==> env.turn_tls_bind is Some
        },
{
}

/// Settings are accepted exactly where each of them is, and else refused for the
/// first of them that is not: the public address, the login, the ports, the
/// upstream, the time between packets, and last an upstream that is not on this
/// machine.
pub proof fn lemma_turn_order(env: TurnEnvironment, made_up: Seq<char>)
    ensures
        ({
            let result = turn_settings(env, made_up);
            let user = value_or(env.turn_user.deep_view(), "ollama-link"@);
            let password = if env.turn_pass is Some && env.turn_pass->0@.len() > 0 {
                env.turn_pass->0@
            } else {
                made_up
            };
            let login = 1 <= byte_length(user) <= 64 && byte_length(password) >= 16;
            let ports = port_range(
                value_or(env.relay_min_port.deep_view(), "49160"@),
                value_or(env.relay_max_port.deep_view(), "49200"@),
            );
            let idle = idle_seconds(value_or(env.turn_idle_timeout_secs.deep_view(), "600"@));
            let read = !(env.https_upstream matches Some(Err(_)));
            let away = env.https_upstream matches Some(Ok(endpoint)) && !loopback(endpoint);
            &&& result is Ok <==> env.public_ip is Ok && login && ports is Ok && read && idle is Ok
                && !away
            &&& env.public_ip matches Err(words) ==> result == Err::<
                TurnModel,
                TurnErrorOf<Seq<char>>,
            >(TurnErrorOf::PublicIp(words@))
            &&& env.public_ip is Ok && !login ==> result == Err::<
                TurnModel,
                TurnErrorOf<Seq<char>>,
            >(TurnErrorOf::Login)
            &&& env.public_ip is Ok && login ==> (ports matches Err(error) ==> result == Err::<
                TurnModel,
                TurnErrorOf<Seq<char>>,
            >(error))
            &&& env.public_ip is Ok && login && ports is Ok ==> (
            env.https_upstream matches Some(Err(words)) ==> result == Err::<
                TurnModel,
                TurnErrorOf<Seq<char>>,
            >(TurnErrorOf::Upstream(words@)))
            &&& env.public_ip is Ok && login && ports is Ok && read ==> (idle matches Err(error)
                ==> result == Err::<TurnModel, TurnErrorOf<Seq<char>>>(error))
            &&& env.public_ip is Ok && login && ports is Ok && read && idle is Ok && away ==> result
                == Err::<TurnModel, TurnErrorOf<Seq<char>>>(TurnErrorOf::UpstreamNotLoopback)
        }),
{
}

/// TLS is needed by an upstream and by an address for TLS that was asked for, and
/// by nothing else; the upstream is named first. HTTP goes to the upstream, TURN
/// never does.
pub proof fn lemma_tls(settings: TurnModel, has_tls: bool, first: u8)
    ensures
        has_tls ==> tls_fault(settings, has_tls) is None,
        !has_tls && settings.https_upstream is Some ==> tls_fault(settings, has_tls) == Some(
            TurnErrorOf::<Seq<char>>::UpstreamNeedsTls,
        ),
        !has_tls && settings.https_upstream is None && settings.tls_asked ==> tls_fault(
            settings,
            has_tls,
        ) == Some(TurnErrorOf::<Seq<char>>::TlsBindNeedsTls),
        settings.https_upstream is None && !settings.tls_asked ==> tls_fault(
            settings,
            has_tls,
        ) is None,
        idle_time(settings) == settings.idle_secs * 1_000_000_000,
        crate::stream::begins_http(first) ==> passed_to(settings, first)
            == settings.https_upstream,
        !crate::stream::begins_http(first) ==> passed_to(settings, first) is None,
{
}

/// Why settings are refused, in words.
pub proof fn lemma_turn_error_words(words: Seq<char>, error: NumberError)
    ensures
        turn_error_words(TurnErrorOf::PublicIp(words)) == words,
        turn_error_words(TurnErrorOf::Login)
            == "Use TURN_USER and a TURN_PASS of at least 16 characters"@,
        turn_error_words(TurnErrorOf::Port(error)) == number_error_words(error),
        turn_error_words(TurnErrorOf::PortRange) == "Invalid relay port range"@,
        turn_error_words(TurnErrorOf::Upstream(words)) == words,
        turn_error_words(TurnErrorOf::Idle(error)) == number_error_words(error),
        turn_error_words(TurnErrorOf::IdleZero) == "TURN_IDLE_TIMEOUT_SECS must be positive"@,
        turn_error_words(TurnErrorOf::UpstreamNotLoopback)
            == "HTTPS_UPSTREAM must be a loopback address"@,
        turn_error_words(TurnErrorOf::UpstreamNeedsTls)
            == "HTTPS_UPSTREAM requires TLS_CERT and TLS_KEY"@,
        turn_error_words(TurnErrorOf::TlsBindNeedsTls)
            == "TURN_TLS_BIND requires TLS_CERT and TLS_KEY"@,
        number_error_words(NumberError::Empty) == "cannot parse integer from empty string"@,
        number_error_words(NumberError::InvalidDigit) == "invalid digit found in string"@,
        number_error_words(NumberError::TooLarge) == "number too large to fit in target type"@,
{
}

} // verus!
