//! A client of one server, and the outbound that configuration makes of it.
use crate::outside::{is_server_name, server_name_valid, sha256, sha256_digest};
use crate::padding::{default_scheme, PaddingScheme, PaddingSchemeView};
use crate::pool::{PoolView, SessionPool};
use crate::session::{Session, SessionView};
use crate::tls::{optional_text, TlsSettings};
use vstd::prelude::*;

verus! {

/// A second, in nanoseconds.
pub const SECOND: u128 = 1_000_000_000;

/// How often idle sessions are looked through.
pub const IDLE_SESSION_CHECK_INTERVAL: u128 = 30_000_000_000;

/// How long a session may be idle.
pub const IDLE_SESSION_TIMEOUT: u128 = 60_000_000_000;

/// How many idle sessions are kept however long they have waited.
pub const MIN_IDLE_SESSION: usize = 1;

/// For how many seconds a connection is awaited where nothing is configured.
pub const DEFAULT_CONNECT_TIMEOUT: u64 = 30;

fn copy_text(s: &Option<String>) -> (copy: Option<String>)
    ensures
        optional_text(copy) == optional_text(*s),
{
    match s {
        Some(text) => Some(text.clone()),
        None => None,
    }
}

/// Why there is no client.
#[derive(Debug)]
pub enum ClientError {
    /// The TLS configuration could not be made.
    TlsConfig(String),
    /// The name of the server is none.
    ServerName(String),
}

/// Why there is no client, as the contracts see it.
#[verifier::ext_equal]
pub enum ClientErrorView {
    TlsConfig(Seq<char>),
    ServerName(Seq<char>),
}

impl View for ClientError {
    type V = ClientErrorView;

    open spec fn view(&self) -> ClientErrorView {
        match self {
            ClientError::TlsConfig(e) => ClientErrorView::TlsConfig(e@),
            ClientError::ServerName(name) => ClientErrorView::ServerName(name@),
        }
    }
}

impl ClientErrorView {
    pub open spec fn text(self) -> Seq<char> {
        match self {
            ClientErrorView::TlsConfig(e) => e,
            ClientErrorView::ServerName(_) => "invalid dns name"@,
        }
    }
}

impl ClientError {
    pub fn message(self) -> (text: String)
        ensures
            text@ == self@.text(),
    {
        match self {
            ClientError::TlsConfig(e) => e,
            ClientError::ServerName(_) => "invalid dns name".to_owned(),
        }
    }
}

/// A client as the contracts see it.
#[verifier::ext_equal]
pub struct ClientView {
    pub host: Seq<char>,
    pub port: u16,
    pub password_hash: Seq<u8>,
    pub tls_server_name: Seq<char>,
    pub connect_timeout: u128,
    pub bind_interface: Option<Seq<char>>,
    pub dns_server_name: Option<Seq<char>>,
    pub pool: PoolView,
    pub padding_scheme: PaddingSchemeView,
    pub idle_session_check_interval: u128,
    pub idle_session_timeout: u128,
    pub min_idle_session: usize,
}

/// A client of one server. Times are in nanoseconds.
pub struct AnytlsClient {
    pub host: String,
    pub port: u16,
    pub password_hash: [u8; 32],
    pub tls_server_name: String,
    pub connect_timeout: u128,
    pub bind_interface: Option<String>,
    pub dns_server_name: Option<String>,
    pub pool: SessionPool,
    pub padding_scheme: PaddingScheme,
    pub idle_session_check_interval: u128,
    pub idle_session_timeout: u128,
    pub min_idle_session: usize,
}

impl View for AnytlsClient {
    type V = ClientView;

    open spec fn view(&self) -> ClientView {
        ClientView {
            host: self.host@,
            port: self.port,
            password_hash: self.password_hash@,
            tls_server_name: self.tls_server_name@,
            connect_timeout: self.connect_timeout,
            bind_interface: optional_text(self.bind_interface),
            dns_server_name: optional_text(self.dns_server_name),
            pool: self.pool@,
            padding_scheme: self.padding_scheme@,
            idle_session_check_interval: self.idle_session_check_interval,
            idle_session_timeout: self.idle_session_timeout,
            min_idle_session: self.min_idle_session,
        }
    }
}

/// The client that a set of arguments makes, or why there is none.
pub open spec fn client_of(
    host: Seq<char>,
    port: u16,
    password: Seq<char>,
    tls_server_name: Seq<char>,
    name_valid: bool,
    tls_config: Result<(), Seq<char>>,
    connect_timeout: u128,
    bind_interface: Option<Seq<char>>,
    dns_server_name: Option<Seq<char>>,
) -> Result<ClientView, ClientErrorView> {
    match tls_config {
        Err(e) => Err(ClientErrorView::TlsConfig(e)),
        Ok(_) => if !name_valid {
            Err(ClientErrorView::ServerName(tls_server_name))
        } else {
            Ok(
                ClientView {
                    host,
                    port,
                    password_hash: sha256_digest(vstd::utf8::encode_utf8(password)),
                    tls_server_name,
                    connect_timeout,
                    bind_interface,
                    dns_server_name,
                    pool: PoolView::empty(),
                    padding_scheme: default_scheme(),
                    idle_session_check_interval: IDLE_SESSION_CHECK_INTERVAL,
                    idle_session_timeout: IDLE_SESSION_TIMEOUT,
                    min_idle_session: MIN_IDLE_SESSION,
                },
            )
        },
    }
}

/// The error text of an outside step, where it failed.
pub open spec fn outcome_text<T>(outcome: Result<T, String>) -> Result<(), Seq<char>> {
    match outcome {
        Ok(_) => Ok(()),
        Err(e) => Err(e@),
    }
}

impl AnytlsClient {
    /// A client of the server at `host` and `port`. `tls_config` says whether its TLS
    /// configuration could be made.
    pub fn new(
        host: String,
        port: u16,
        password: &str,
        tls: &TlsSettings,
        tls_config: Result<(), String>,
        connect_timeout: u128,
        bind_interface: Option<String>,
        dns_server_name: Option<String>,
    ) -> (r: Result<AnytlsClient, ClientError>)
        ensures
            ({
                let name = tls.server_name(host@);
                let expected = client_of(
                    host@,
                    port,
                    password@,
                    name,
                    server_name_valid(name),
                    outcome_text(tls_config),
                    connect_timeout,
                    optional_text(bind_interface),
                    optional_text(dns_server_name),
                );
                match r {
                    Ok(client) => expected == Ok::<_, ClientErrorView>(client@),
                    Err(e) => expected == Err::<ClientView, _>(e@),
                }
            }),
    {
        let tls_server_name: String = match &tls.sni {
            Some(name) => name.clone(),
            None => host.clone(),
        };
        let name_valid: bool = is_server_name(tls_server_name.as_str());
        AnytlsClient::with_server_name(
            host,
            port,
            password,
            tls_server_name,
            name_valid,
            tls_config,
            connect_timeout,
            bind_interface,
            dns_server_name,
        )
    }

    /// The same, with the name of the server and whether it is one.
    pub fn with_server_name(
        host: String,
        port: u16,
        password: &str,
        tls_server_name: String,
        name_valid: bool,
        tls_config: Result<(), String>,
        connect_timeout: u128,
        bind_interface: Option<String>,
        dns_server_name: Option<String>,
    ) -> (r: Result<AnytlsClient, ClientError>)
        ensures
            ({
                let expected = client_of(
                    host@,
                    port,
                    password@,
                    tls_server_name@,
                    name_valid,
                    outcome_text(tls_config),
                    connect_timeout,
                    optional_text(bind_interface),
                    optional_text(dns_server_name),
                );
                match r {
                    Ok(client) => expected == Ok::<_, ClientErrorView>(client@),
                    Err(e) => expected == Err::<ClientView, _>(e@),
                }
            }),
    {
        let password_hash: [u8; 32] = sha256(password.as_bytes());
        if let Err(e) = tls_config {
            return Err(ClientError::TlsConfig(e));
        }
        if !name_valid {
            return Err(ClientError::ServerName(tls_server_name));
        }
        Ok(
            AnytlsClient {
                host,
                port,
                password_hash,
                tls_server_name,
                connect_timeout,
                bind_interface,
                dns_server_name,
                pool: SessionPool::new(),
                padding_scheme: PaddingScheme::get_default(),
                idle_session_check_interval: IDLE_SESSION_CHECK_INTERVAL,
                idle_session_timeout: IDLE_SESSION_TIMEOUT,
                min_idle_session: MIN_IDLE_SESSION,
            },
        )
    }
}

/// How an attempt to connect to the server ended.
#[derive(Debug)]
pub enum ConnectOutcome {
    /// The server was not found; says why.
    Unresolved(String),
    ConnectTimeout,
    ConnectFailed,
    HandshakeTimeout,
    HandshakeFailed,
    /// The first packets could not be sent; says why.
    GreetingFailed(String),
    Connected,
}

impl ConnectOutcome {
    /// What is said of an attempt that failed.
    pub open spec fn failure_text(self) -> Option<Seq<char>> {
        match self {
            ConnectOutcome::Unresolved(text) => Some(text@),
            ConnectOutcome::ConnectTimeout => Some("connect timeout"@),
            ConnectOutcome::ConnectFailed => Some("TCP connect failed"@),
            ConnectOutcome::HandshakeTimeout => Some("Anytls TLS handshake timeout"@),
            ConnectOutcome::HandshakeFailed => Some("Anytls TLS handshake failed"@),
            ConnectOutcome::GreetingFailed(text) => Some(text@),
            ConnectOutcome::Connected => None,
        }
    }

    pub fn failure(self) -> (text: Option<String>)
        ensures
            optional_text(text) == self.failure_text(),
    {
        match self {
            ConnectOutcome::Unresolved(text) => Some(text),
            ConnectOutcome::ConnectTimeout => Some("connect timeout".to_owned()),
            ConnectOutcome::ConnectFailed => Some("TCP connect failed".to_owned()),
            ConnectOutcome::HandshakeTimeout => Some("Anytls TLS handshake timeout".to_owned()),
            ConnectOutcome::HandshakeFailed => Some("Anytls TLS handshake failed".to_owned()),
            ConnectOutcome::GreetingFailed(text) => Some(text),
            ConnectOutcome::Connected => None,
        }
    }
}

impl AnytlsClient {
    /// Begins a session: takes the next number for it. It pads by the scheme of
    /// the client and is not in use before its connection was made.
    pub fn create_session(&mut self) -> (session: Session)
        ensures
            session@ == SessionView::fresh(old(self)@.pool.session_seq, old(self)@.padding_scheme),
            final(self)@ == (ClientView { pool: old(self)@.pool.numbered(), ..old(self)@ }),
    {
        let seq: u64 = self.pool.next_session_seq();
        Session::new(seq, self.padding_scheme.copy())
    }

    /// Ends the beginning of the session `seq`: it is in use if it was connected,
    /// and otherwise its number is lost.
    pub fn finish_session(&mut self, seq: u64, outcome: ConnectOutcome) -> (r: Result<(), String>)
        ensures
            match outcome.failure_text() {
                None => r is Ok && final(self)@ == (ClientView {
                    pool: old(self)@.pool.with_active(seq),
                    ..old(self)@
                }),
                Some(text) => (r matches Err(e) && e@ == text) && final(self)@ == old(self)@,
            },
    {
        match outcome.failure() {
            Some(text) => Err(text),
            None => {
                self.pool.session_created(seq);
                Ok(())
            },
        }
    }
}

/// What is configured for an outbound.
#[derive(Debug)]
pub struct OutboundConfig {
    pub address: Option<String>,
    pub port: Option<u16>,
    pub password: Option<String>,
    /// In seconds.
    pub connect_timeout: Option<u64>,
    pub bind_interface: Option<String>,
    pub dns: Option<String>,
}

/// Why there is no outbound.
#[derive(Debug)]
pub enum OutboundError {
    /// Something is not configured; says what.
    Missing(String),
    /// The address is none.
    Address(String),
    /// The TLS settings are wrong.
    Tls(String),
    /// There is no client.
    Client(ClientError),
}

/// Why there is no outbound, as the contracts see it.
#[verifier::ext_equal]
pub enum OutboundErrorView {
    Missing(Seq<char>),
    Address(Seq<char>),
    Tls(Seq<char>),
    Client(ClientErrorView),
}

impl View for OutboundError {
    type V = OutboundErrorView;

    open spec fn view(&self) -> OutboundErrorView {
        match self {
            OutboundError::Missing(text) => OutboundErrorView::Missing(text@),
            OutboundError::Address(text) => OutboundErrorView::Address(text@),
            OutboundError::Tls(text) => OutboundErrorView::Tls(text@),
            OutboundError::Client(e) => OutboundErrorView::Client(e@),
        }
    }
}

impl OutboundErrorView {
    pub open spec fn text(self) -> Seq<char> {
        match self {
            OutboundErrorView::Missing(text) => text,
            OutboundErrorView::Address(text) => text,
            OutboundErrorView::Tls(text) => text,
            OutboundErrorView::Client(e) => e.text(),
        }
    }
}

impl OutboundError {
    pub fn message(self) -> (text: String)
        ensures
            text@ == self@.text(),
    {
        match self {
            OutboundError::Missing(text) => text,
            OutboundError::Address(text) => text,
            OutboundError::Tls(text) => text,
            OutboundError::Client(e) => e.message(),
        }
    }
}

/// What is said where something is not configured.
pub open spec fn missing_text(tag: Seq<char>, what: Seq<char>) -> Seq<char> {
    "anytls outbound '"@ + tag + "' requires "@ + what
}

fn missing(tag: &str, what: &str) -> (e: OutboundError)
    ensures
        e@ == OutboundErrorView::Missing(missing_text(tag@, what@)),
{
    let mut text: String = String::new();
    text.append("anytls outbound '");
    text.append(tag);
    text.append("' requires ");
    text.append(what);
    assert(text@ =~= missing_text(tag@, what@));
    OutboundError::Missing(text)
}

/// An outbound that reaches its targets through an AnyTLS server.
pub struct AnytlsOutbound {
    pub tag: String,
    pub client: AnytlsClient,
    pub connect_timeout: u128,
    pub dns_server_name: Option<String>,
    pub bind_interface: Option<String>,
}

/// How long a connection is awaited.
pub open spec fn timeout_of(cfg: OutboundConfig) -> u128 {
    (match cfg.connect_timeout {
        Some(seconds) => seconds,
        None => DEFAULT_CONNECT_TIMEOUT,
    } * SECOND) as u128
}

/// What is wrong with a configuration before a client is made of it; the first
/// thing counts. `address` is what the address was read as and `tls` what the
/// TLS settings were read as.
pub open spec fn refusal(
    tag: Seq<char>,
    cfg: OutboundConfig,
    address: Result<String, String>,
    tls: Result<TlsSettings, String>,
) -> Option<OutboundErrorView> {
    if cfg.address is None {
        Some(OutboundErrorView::Missing(missing_text(tag, "address"@)))
    } else if cfg.port is None {
        Some(OutboundErrorView::Missing(missing_text(tag, "port"@)))
    } else if let Err(e) = address {
        Some(OutboundErrorView::Address(e@))
    } else if cfg.password is None {
        Some(OutboundErrorView::Missing(missing_text(tag, "password"@)))
    } else if let Err(e) = tls {
        Some(OutboundErrorView::Tls(e@))
    } else {
        None
    }
}

impl AnytlsOutbound {
    /// The address and port to read; nothing where one of them is not configured.
    pub fn endpoint(cfg: &OutboundConfig) -> (r: Option<(String, u16)>)
        ensures
            match r {
                Some((address, port)) => optional_text(cfg.address) == Some(address@) && cfg.port
                    == Some(port),
                None => cfg.address is None || cfg.port is None,
            },
    {
        match (&cfg.address, cfg.port) {
            (Some(address), Some(port)) => Some((address.clone(), port)),
            _ => None,
        }
    }

    /// The outbound of a configuration. `address` is the host that the address
    /// was read as, `tls` the TLS settings, and `tls_config` says whether the TLS
    /// configuration could be made; each with the error where it failed.
    pub fn new(
        tag: String,
        cfg: &OutboundConfig,
        address: Result<String, String>,
        tls: Result<TlsSettings, String>,
        tls_config: Result<(), String>,
    ) -> (r: Result<AnytlsOutbound, OutboundError>)
        ensures
            match refusal(tag@, *cfg, address, tls) {
                Some(e) => r matches Err(error) && error@ == e,
                None => ({
                    let host = address->Ok_0@;
                    let name = (tls->Ok_0).server_name(host);
                    let client = client_of(
                        host,
                        cfg.port->Some_0,
                        optional_text(cfg.password)->Some_0,
                        name,
                        server_name_valid(name),
                        outcome_text(tls_config),
                        timeout_of(*cfg),
                        optional_text(cfg.bind_interface),
                        optional_text(cfg.dns),
                    );
                    match r {
                        Ok(outbound) => {
                            &&& client == Ok::<_, ClientErrorView>(outbound.client@)
                            &&& outbound.tag@ == tag@
                            &&& outbound.connect_timeout == timeout_of(*cfg)
                            &&& optional_text(outbound.dns_server_name) == optional_text(cfg.dns)
                            &&& optional_text(outbound.bind_interface) == optional_text(
                                cfg.bind_interface,
                            )
                        },
                        Err(error) => error@ matches OutboundErrorView::Client(e) && client
                            == Err::<ClientView, _>(e),
                    }
                }),
            },
    {
        if cfg.address.is_none() {
            return Err(missing(tag.as_str(), "address"));
        }
        let port: u16 = match cfg.port {
            Some(port) => port,
            None => {
                return Err(missing(tag.as_str(), "port"));
            },
        };
        let host: String = match address {
            Ok(host) => host,
            Err(e) => {
                return Err(OutboundError::Address(e));
            },
        };
        let password: String = match &cfg.password {
            Some(password) => password.clone(),
            None => {
                return Err(missing(tag.as_str(), "password"));
            },
        };
        let tls: TlsSettings = match tls {
            Ok(tls) => tls,
            Err(e) => {
                return Err(OutboundError::Tls(e));
            },
        };
        let seconds: u64 = match cfg.connect_timeout {
            Some(seconds) => seconds,
            None => DEFAULT_CONNECT_TIMEOUT,
        };
        assert(seconds * 1_000_000_000 <= u128::MAX) by (nonlinear_arith)
            requires
                seconds <= u64::MAX,
        ;
        let connect_timeout: u128 = seconds as u128 * SECOND;
        match AnytlsClient::new(
            host,
            port,
            password.as_str(),
            &tls,
            tls_config,
            connect_timeout,
            copy_text(&cfg.bind_interface),
            copy_text(&cfg.dns),
        ) {
            Ok(client) => Ok(
                AnytlsOutbound {
                    tag,
                    client,
                    connect_timeout,
                    dns_server_name: copy_text(&cfg.dns),
                    bind_interface: copy_text(&cfg.bind_interface),
                },
            ),
            Err(e) => Err(OutboundError::Client(e)),
        }
    }

    /// The name of the protocol.
    pub fn protocol() -> (name: &'static str)
        ensures
            name@ == "anytls"@,
    {
        "anytls"
    }

    /// What a request for a bare connection is answered.
    pub fn base_refusal() -> (text: &'static str)
        ensures
            text@ == "anytls uses session-based connections; use connect_stream instead"@,
    {
        "anytls uses session-based connections; use connect_stream instead"
    }
}

/// A client is made where the TLS configuration could be made and the name of the
/// server is one; the first that fails is the error.
pub proof fn law_client(
    host: Seq<char>,
    port: u16,
    password: Seq<char>,
    name: Seq<char>,
    name_valid: bool,
    tls_config: Result<(), Seq<char>>,
    connect_timeout: u128,
    bind_interface: Option<Seq<char>>,
    dns_server_name: Option<Seq<char>>,
)
    ensures
        ({
            let made = client_of(
                host,
                port,
                password,
                name,
                name_valid,
                tls_config,
                connect_timeout,
                bind_interface,
                dns_server_name,
            );
            &&& tls_config matches Err(e) ==> made == Err::<ClientView, _>(
                ClientErrorView::TlsConfig(e),
            )
            &&& tls_config is Ok && !name_valid ==> made == Err::<ClientView, _>(
                ClientErrorView::ServerName(name),
            )
            &&& tls_config is Ok && name_valid ==> made is Ok
            &&& made matches Ok(client) ==> {
                &&& client.host == host
                &&& client.port == port
                &&& client.password_hash == sha256_digest(vstd::utf8::encode_utf8(password))
                &&& client.tls_server_name == name
                &&& client.connect_timeout == connect_timeout
                &&& client.bind_interface == bind_interface
                &&& client.dns_server_name == dns_server_name
                &&& client.pool.active.len() == 0
                &&& client.pool.idle.len() == 0
                &&& client.pool.session_seq == 0
                &&& client.padding_scheme == default_scheme()
                &&& client.idle_session_check_interval == 30 * 1_000_000_000
                &&& client.idle_session_timeout == 60 * 1_000_000_000
                &&& client.min_idle_session == 1
            }
        }),
{
}

/// A connection is awaited for as many seconds as are configured, in nanoseconds,
/// and for thirty where nothing is.
pub proof fn law_timeout(cfg: OutboundConfig)
    ensures
        cfg.connect_timeout matches Some(seconds) ==> timeout_of(cfg) == seconds * 1_000_000_000,
        cfg.connect_timeout is None ==> timeout_of(cfg) == 30 * 1_000_000_000,
{
}

/// What keeps an outbound from being made, the first thing first: no address, no
/// port, a bad address, no password, bad TLS settings.
pub proof fn law_refusal_order(
    tag: Seq<char>,
    cfg: OutboundConfig,
    address: Result<String, String>,
    tls: Result<TlsSettings, String>,
)
    ensures
        ({
            let why = refusal(tag, cfg, address, tls);
            let has_address = cfg.address is Some;
            let has_endpoint = has_address && cfg.port is Some;
            let has_host = has_endpoint && address is Ok;
            let has_password = has_host && cfg.password is Some;
            &&& !has_address ==> why == Some(
                OutboundErrorView::Missing(
                    "anytls outbound '"@ + tag + "' requires "@ + "address"@,
                ),
            )
            &&& has_address && !has_endpoint ==> why == Some(
                OutboundErrorView::Missing("anytls outbound '"@ + tag + "' requires "@ + "port"@),
            )
            &&& has_endpoint ==> (address matches Err(e) ==> why == Some(
                OutboundErrorView::Address(e@),
            ))
            &&& has_host && !has_password ==> why == Some(
                OutboundErrorView::Missing(
                    "anytls outbound '"@ + tag + "' requires "@ + "password"@,
                ),
            )
            &&& has_password ==> (tls matches Err(e) ==> why == Some(OutboundErrorView::Tls(e@)))
            &&& has_password && tls is Ok ==> why is None
        }),
{
}

/// What is said of each attempt to connect that failed; of one that did not,
/// nothing.
pub proof fn law_connect_failures(outcome: ConnectOutcome)
    ensures
        outcome matches ConnectOutcome::Unresolved(text) ==> outcome.failure_text() == Some(text@),
        outcome is ConnectTimeout ==> outcome.failure_text() == Some("connect timeout"@),
        outcome is ConnectFailed ==> outcome.failure_text() == Some("TCP connect failed"@),
        outcome is HandshakeTimeout ==> outcome.failure_text() == Some(
            "Anytls TLS handshake timeout"@,
        ),
        outcome is HandshakeFailed ==> outcome.failure_text() == Some(
            "Anytls TLS handshake failed"@,
        ),
        outcome matches ConnectOutcome::GreetingFailed(text) ==> outcome.failure_text() == Some(
            text@,
        ),
        outcome is Connected <==> outcome.failure_text() is None,
{
}

/// A client is what its fields hold, and an outcome of an outside step is its
/// error, where it has one.
pub proof fn law_client_fields(client: AnytlsClient, outcome: Result<(), String>)
    ensures
        client@.host == client.host@,
        client@.port == client.port,
        client@.password_hash == client.password_hash@,
        client@.tls_server_name == client.tls_server_name@,
        client@.connect_timeout == client.connect_timeout,
        client@.bind_interface == optional_text(client.bind_interface),
        client@.dns_server_name == optional_text(client.dns_server_name),
        client@.pool == client.pool@,
        client@.padding_scheme == client.padding_scheme@,
        client@.idle_session_check_interval == client.idle_session_check_interval,
        client@.idle_session_timeout == client.idle_session_timeout,
        client@.min_idle_session == client.min_idle_session,
        outcome is Ok ==> outcome_text(outcome) == Ok::<(), Seq<char>>(()),
        outcome matches Err(e) ==> outcome_text(outcome) == Err::<(), _>(e@),
{
}

/// What is said of each error, and what the errors hold.
pub proof fn law_outbound_messages(error: OutboundError, cause: ClientError)
    ensures
        error matches OutboundError::Missing(text) ==> error@ == OutboundErrorView::Missing(text@)
            && error@.text() == text@,
        error matches OutboundError::Address(text) ==> error@ == OutboundErrorView::Address(text@)
            && error@.text() == text@,
        error matches OutboundError::Tls(text) ==> error@ == OutboundErrorView::Tls(text@)
            && error@.text() == text@,
        error matches OutboundError::Client(e) ==> error@ == OutboundErrorView::Client(e@)
            && error@.text() == e@.text(),
        cause matches ClientError::TlsConfig(text) ==> cause@ == ClientErrorView::TlsConfig(text@)
            && cause@.text() == text@,
        cause matches ClientError::ServerName(name) ==> cause@ == ClientErrorView::ServerName(
            name@,
        ) && cause@.text() == "invalid dns name"@,
{
}

} // verus!
