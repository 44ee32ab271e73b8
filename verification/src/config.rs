//! `kmuxd.toml` configuration: schema, defaults and validation.

use crate::text::{str_option, views};
use vstd::prelude::*;
use vstd::string::*;

verus! {

/// The transport that carries a connection.
#[derive(Clone, Copy, Debug, PartialEq, Eq, Structural)]
pub enum TransportKind {
    Quic,
    Tcp,
    TcpTls,
    Uds,
}

impl TransportKind {
    /// The name under which the transport is reported.
    pub open spec fn name_text(self) -> Seq<char> {
        match self {
            TransportKind::Quic => "QUIC"@,
            TransportKind::Tcp => "TCP"@,
            TransportKind::TcpTls => "TCP+TLS"@,
            TransportKind::Uds => "UDS"@,
        }
    }

    /// The name under which the transport is reported.
    pub fn name(self) -> (r: String)
        ensures
            r@ == self.name_text(),
    {
        match self {
            TransportKind::Quic => "QUIC".to_owned(),
            TransportKind::Tcp => "TCP".to_owned(),
            TransportKind::TcpTls => "TCP+TLS".to_owned(),
            TransportKind::Uds => "UDS".to_owned(),
        }
    }
}

/// Top-level `kmuxd.toml` structure.
#[derive(Debug, Clone)]
pub struct ConfigFile {
    /// Config schema version (1 is current).
    pub version: u32,
    /// Global log level.
    pub log_level: Option<String>,
    /// Where the daemon writes runtime files; `"auto"` lets the daemon choose.
    pub runtime_dir: String,
    /// TLS certificate configuration.
    pub tls: TlsConfig,
    /// Transport listeners, one block per protocol.
    pub listen: Vec<ListenConfig>,
    /// What the server announces to clients.
    pub advertise: AdvertiseConfig,
    /// Auth configuration.
    pub auth: AuthConfig,
    /// Wire compression settings.
    pub compression: CompressionConfig,
    /// Daemon lifecycle settings.
    pub daemon: DaemonConfig,
}

impl Default for ConfigFile {
    fn default() -> (r: Self)
        ensures
            r.version == 1,
            r.log_level is None,
            r.runtime_dir@ == "auto"@,
            r.tls.cert is None && r.tls.key is None && !r.tls.self_signed,
            is_default_listen(r.listen@),
            r.advertise.public_host is None,
            r.auth.token_file@ == "auto"@ && r.auth.allow_peer_cred,
            r.compression.mode == CompressionMode::Auto && r.compression.level == 3
                && r.compression.min_size == 256,
            r.daemon.idle_shutdown_secs == 30,
            r.daemon.session_isolation == SessionIsolationMode::InProcess,
    {
        ConfigFile {
            version: default_config_version(),
            log_level: None,
            runtime_dir: default_runtime_dir(),
            tls: TlsConfig::default(),
            listen: default_listen(),
            advertise: AdvertiseConfig::default(),
            auth: AuthConfig::default(),
            compression: CompressionConfig::default(),
            daemon: DaemonConfig::default(),
        }
    }
}

/// Where a pane's terminal emulator runs.
#[derive(Debug, Clone, Copy, PartialEq, Eq, Structural)]
pub enum SessionIsolationMode {
    /// The emulator and PTY writer live in the daemon.
    InProcess,
    /// Each pane's emulator runs in an isolated worker subprocess.
    Process,
}

impl Default for SessionIsolationMode {
    fn default() -> (r: Self)
        ensures
            r == SessionIsolationMode::InProcess,
    {
        SessionIsolationMode::InProcess
    }
}

impl SessionIsolationMode {
    /// Whether per-pane worker subprocess isolation is requested.
    pub fn is_process(self) -> (r: bool)
        ensures
            r == (self == SessionIsolationMode::Process),
    {
        matches!(self, SessionIsolationMode::Process)
    }
}

/// Daemon lifecycle settings (`[daemon]`).
#[derive(Debug, Clone)]
pub struct DaemonConfig {
    /// Exit when no clients have been connected for this many seconds; `0` disables this.
    pub idle_shutdown_secs: u64,
    /// Pane isolation mode.
    pub session_isolation: SessionIsolationMode,
}

impl Default for DaemonConfig {
    fn default() -> (r: Self)
        ensures
            r.idle_shutdown_secs == 30,
            r.session_isolation == SessionIsolationMode::InProcess,
    {
        DaemonConfig {
            idle_shutdown_secs: default_idle_shutdown_secs(),
            session_isolation: SessionIsolationMode::default(),
        }
    }
}

pub fn default_idle_shutdown_secs() -> (r: u64)
    ensures
        r == 30,
{
    30
}

pub fn default_config_version() -> (r: u32)
    ensures
        r == 1,
{
    1
}

pub fn default_runtime_dir() -> (r: String)
    ensures
        r@ == "auto"@,
{
    "auto".to_owned()
}

/// TLS certificate source. With neither half of the pair set, the daemon generates a self-signed
/// certificate.
#[derive(Debug, Clone)]
pub struct TlsConfig {
    /// Path to the PEM certificate file.
    pub cert: Option<String>,
    /// Path to the PEM private key file.
    pub key: Option<String>,
    /// Deprecated and ignored; accepted so that older files still load.
    pub self_signed: bool,
}

impl Default for TlsConfig {
    fn default() -> (r: Self)
        ensures
            r.cert is None,
            r.key is None,
            !r.self_signed,
    {
        TlsConfig { cert: None, key: None, self_signed: false }
    }
}

/// A single transport listener block (`[[listen]]`).
#[derive(Debug, Clone)]
pub struct ListenConfig {
    /// Transport kind.
    pub kind: ListenKind,
    /// Bind address (ignored for `Unix`).
    pub bind: String,
    /// Port to listen on; `0` lets the kernel choose (ignored for `Unix`).
    pub port: u16,
    /// Whether this listener is enabled.
    pub enabled: bool,
    /// Socket path for `Unix`; `"auto"` lets the daemon choose.
    pub path: String,
    /// Who this endpoint is announced to.
    pub audience: Audience,
    /// Priority bias (higher = more preferred).
    pub priority: i32,
}

pub fn default_bind() -> (r: String)
    ensures
        r@ == "0.0.0.0"@,
{
    "0.0.0.0".to_owned()
}

pub fn default_true() -> (r: bool)
    ensures
        r,
{
    true
}

pub fn default_auto() -> (r: String)
    ensures
        r@ == "auto"@,
{
    "auto".to_owned()
}

/// An enabled listener with the default addresses.
pub open spec fn is_default_listener(
    l: ListenConfig,
    kind: ListenKind,
    audience: Audience,
) -> bool {
    &&& l.kind == kind
    &&& l.bind@ == "0.0.0.0"@
    &&& l.port == 0
    &&& l.enabled
    &&& l.path@ == "auto"@
    &&& l.audience == audience
    &&& l.priority == 0
}

/// The listeners of a daemon without configuration: QUIC and TCP+TLS for everyone, and a local
/// socket announced locally.
pub open spec fn is_default_listen(s: Seq<ListenConfig>) -> bool {
    &&& s.len() == 3
    &&& is_default_listener(s[0], ListenKind::Quic, Audience::Any)
    &&& is_default_listener(s[1], ListenKind::TcpTls, Audience::Any)
    &&& is_default_listener(s[2], ListenKind::Unix, Audience::Local)
}

fn default_listener(kind: ListenKind, audience: Audience) -> (r: ListenConfig)
    ensures
        is_default_listener(r, kind, audience),
{
    ListenConfig {
        kind,
        bind: default_bind(),
        port: 0,
        enabled: default_true(),
        path: default_auto(),
        audience,
        priority: 0,
    }
}

pub fn default_listen() -> (r: Vec<ListenConfig>)
    ensures
        is_default_listen(r@),
{
    vec![
        default_listener(ListenKind::Quic, Audience::Any),
        default_listener(ListenKind::TcpTls, Audience::Any),
        default_listener(ListenKind::Unix, Audience::Local),
    ]
}

/// Transport protocol for a listener.
#[derive(Debug, Clone, Copy, PartialEq, Eq, Structural)]
pub enum ListenKind {
    Quic,
    TcpTls,
    Unix,
}

/// Who an endpoint is announced to.
#[derive(Debug, Clone, Copy, PartialEq, Eq, Structural)]
pub enum Audience {
    /// Announced to all clients.
    Any,
    /// Announced only to clients on private or link-local addresses.
    Lan,
    /// Announced only over the local control socket or to loopback peers.
    Local,
    /// Announced only inside SSH bootstrap responses.
    SshOnly,
}

impl Default for Audience {
    fn default() -> (r: Self)
        ensures
            r == Audience::Any,
    {
        Audience::Any
    }
}

/// What the server tells clients about itself.
#[derive(Debug, Clone)]
pub struct AdvertiseConfig {
    /// Public hostname substituted into advertised addresses.
    pub public_host: Option<String>,
}

impl Default for AdvertiseConfig {
    fn default() -> (r: Self)
        ensures
            r.public_host is None,
    {
        AdvertiseConfig { public_host: None }
    }
}

/// Auth configuration.
#[derive(Debug, Clone)]
pub struct AuthConfig {
    /// Path to the token file; `"auto"` uses the runtime dir.
    pub token_file: String,
    /// Accept a matching peer uid in lieu of a token on local sockets.
    pub allow_peer_cred: bool,
}

impl Default for AuthConfig {
    fn default() -> (r: Self)
        ensures
            r.token_file@ == "auto"@,
            r.allow_peer_cred,
    {
        AuthConfig { token_file: default_auto(), allow_peer_cred: default_true() }
    }
}

/// Wire compression configuration (`[compression]`).
#[derive(Debug, Clone)]
pub struct CompressionConfig {
    /// When to compress.
    pub mode: CompressionMode,
    /// zstd compression level applied by the sender.
    pub level: i32,
    /// Frames smaller than this many bytes are never compressed.
    pub min_size: usize,
}

impl Default for CompressionConfig {
    fn default() -> (r: Self)
        ensures
            r.mode == CompressionMode::Auto,
            r.level == 3,
            r.min_size == 256,
    {
        CompressionConfig {
            mode: CompressionMode::default(),
            level: default_compression_level(),
            min_size: default_compression_min_size(),
        }
    }
}

pub fn default_compression_level() -> (r: i32)
    ensures
        r == 3,
{
    3
}

pub fn default_compression_min_size() -> (r: usize)
    ensures
        r == 256,
{
    256
}

/// When the daemon compresses server-to-client traffic.
#[derive(Debug, Clone, Copy, PartialEq, Eq, Structural)]
pub enum CompressionMode {
    /// Compress non-local clients; leave local ones uncompressed.
    Auto,
    /// Always compress, regardless of locality.
    Always,
    /// Never compress.
    Never,
}

impl Default for CompressionMode {
    fn default() -> (r: Self)
        ensures
            r == CompressionMode::Auto,
    {
        CompressionMode::Auto
    }
}

impl CompressionConfig {
    /// Whether a connection accepted on `transport` is compressed.
    pub open spec fn compresses(self, transport: TransportKind) -> bool {
        match self.mode {
            CompressionMode::Always => true,
            CompressionMode::Never => false,
            CompressionMode::Auto => transport != TransportKind::Uds,
        }
    }

    /// Whether compression should be enabled for a connection accepted on `transport`.
    pub fn enabled_for(&self, transport: TransportKind) -> (r: bool)
        ensures
            r == self.compresses(transport),
    {
        match self.mode {
            CompressionMode::Always => true,
            CompressionMode::Never => false,
            CompressionMode::Auto => transport != TransportKind::Uds,
        }
    }
}

/// Why a configuration cannot be used.
#[derive(Debug, Clone, Copy, PartialEq, Eq, Structural)]
pub enum ConfigError {
    NoEnabledListeners,
    KeyMissing,
    CertMissing,
}

impl ConfigError {
    /// Human-readable description.
    pub fn message(self) -> (r: String)
        ensures
            r@ == match self {
                ConfigError::NoEnabledListeners => "no enabled listeners in configuration"@,
                ConfigError::KeyMissing => "[tls] cert is set but [tls] key is missing"@,
                ConfigError::CertMissing => "[tls] key is set but [tls] cert is missing"@,
            },
    {
        match self {
            ConfigError::NoEnabledListeners => "no enabled listeners in configuration".to_owned(),
            ConfigError::KeyMissing => "[tls] cert is set but [tls] key is missing".to_owned(),
            ConfigError::CertMissing => "[tls] key is set but [tls] cert is missing".to_owned(),
        }
    }
}

/// Validated server configuration.
#[derive(Debug, Clone)]
pub struct ServerConfig {
    pub tls: TlsConfig,
    pub listeners: Vec<ListenConfig>,
    pub advertise: AdvertiseConfig,
    pub auth: AuthConfig,
    pub compression: CompressionConfig,
    pub runtime_dir: String,
    /// Seconds of inactivity (zero clients) before the daemon exits; `0` = disabled.
    pub idle_shutdown_secs: u64,
    /// Pane isolation mode.
    pub session_isolation: SessionIsolationMode,
}

pub open spec fn any_enabled(s: Seq<ListenConfig>) -> bool {
    exists|i: int| 0 <= i < s.len() && (#[trigger] s[i]).enabled
}

impl ServerConfig {
    /// Validate the config and return a resolved `ServerConfig`: at least one listener must be
    /// enabled, and a TLS certificate needs both halves of its pair.
    pub fn resolve(file: ConfigFile) -> (r: Result<Self, ConfigError>)
        ensures
            match r {
                Ok(c) => {
                    &&& any_enabled(file.listen@)
                    &&& file.tls.cert is Some <==> file.tls.key is Some
                    &&& c.tls == file.tls
                    &&& c.listeners == file.listen
                    &&& c.advertise == file.advertise
                    &&& c.auth == file.auth
                    &&& c.compression == file.compression
                    &&& c.runtime_dir == file.runtime_dir
                    &&& c.idle_shutdown_secs == file.daemon.idle_shutdown_secs
                    &&& c.session_isolation == file.daemon.session_isolation
                },
                Err(e) => e == if !any_enabled(file.listen@) {
                    ConfigError::NoEnabledListeners
                } else if file.tls.cert is Some {
                    ConfigError::KeyMissing
                } else {
                    ConfigError::CertMissing
                },
            },
            r is Ok <==> any_enabled(file.listen@) && (file.tls.cert is Some
                <==> file.tls.key is Some),
    {
        let mut enabled = false;
        let mut i: usize = 0;
        while i < file.listen.len()
            invariant
                0 <= i <= file.listen@.len(),
                enabled <==> exists|j: int| 0 <= j < i && (#[trigger] file.listen@[j]).enabled,
            decreases file.listen@.len() - i,
        {
            if file.listen[i].enabled {
                enabled = true;
            }
            i = i + 1;
        }
        if !enabled {
            return Err(ConfigError::NoEnabledListeners);
        }
        if file.tls.cert.is_some() && file.tls.key.is_none() {
            return Err(ConfigError::KeyMissing);
        }
        if file.tls.cert.is_none() && file.tls.key.is_some() {
            return Err(ConfigError::CertMissing);
        }
        Ok(
            ServerConfig {
                tls: file.tls,
                listeners: file.listen,
                advertise: file.advertise,
                auth: file.auth,
                compression: file.compression,
                runtime_dir: file.runtime_dir,
                idle_shutdown_secs: file.daemon.idle_shutdown_secs,
                session_isolation: file.daemon.session_isolation,
            },
        )
    }
}

/// A path below a directory: joined with a slash, unless the directory is empty or ends in one.
pub open spec fn below(dir: Seq<char>, name: Seq<char>) -> Seq<char> {
    if dir.len() == 0 || dir.last() == '/' {
        dir + name
    } else {
        dir + "/"@ + name
    }
}

/// Where a configuration file is looked for, in this order: in the user's configuration
/// directory, or else in the one below the user's home, and then in the system's.
pub open spec fn config_paths(xdg_config_home: Option<Seq<char>>, home: Option<Seq<char>>) -> Seq<
    Seq<char>,
> {
    let system = "/etc/kmuxd/kmuxd.toml"@;
    match (xdg_config_home, home) {
        (Some(base), _) => seq![below(base, "kmuxd/kmuxd.toml"@), system],
        (None, Some(home)) => seq![below(home, ".config/kmuxd/kmuxd.toml"@), system],
        (None, None) => seq![system],
    }
}

fn join(dir: &str, name: &str) -> (r: String)
    ensures
        r@ == below(dir@, name@),
{
    let n = dir.unicode_len();
    let mut path = dir.to_owned();
    if n > 0 && dir.get_char(n - 1) != '/' {
        path.append("/");
    }
    path.append(name);
    path
}

/// The paths at which a configuration file is looked for, given the values of
/// `XDG_CONFIG_HOME` and `HOME`.
pub fn search_paths(xdg_config_home: Option<&str>, home: Option<&str>) -> (r: Vec<String>)
    ensures
        views(r@) == config_paths(str_option(xdg_config_home), str_option(home)),
{
    let mut paths: Vec<String> = Vec::new();
    if let Some(base) = xdg_config_home {
        paths.push(join(base, "kmuxd/kmuxd.toml"));
    } else if let Some(home) = home {
        paths.push(join(home, ".config/kmuxd/kmuxd.toml"));
    }
    paths.push("/etc/kmuxd/kmuxd.toml".to_owned());
    assert(views(paths@) =~= config_paths(str_option(xdg_config_home), str_option(home)));
    paths
}

/// Frames are compressed always, never, or on every transport but the local socket.
pub proof fn law_when_frames_are_compressed(c: CompressionConfig, transport: TransportKind)
    ensures
        c.mode == CompressionMode::Always ==> c.compresses(transport),
        c.mode == CompressionMode::Never ==> !c.compresses(transport),
        c.mode == CompressionMode::Auto ==> (c.compresses(transport) <==> transport
            != TransportKind::Uds),
{
}

/// A name below a directory: with one slash between them, and none where the directory ends in one
/// or is empty.
pub proof fn law_name_below_a_directory(dir: Seq<char>, name: Seq<char>)
    ensures
        dir.len() > 0 && dir.last() != '/' ==> below(dir, name) == dir + seq!['/'] + name,
        dir.len() > 0 && dir.last() == '/' ==> below(dir, name) == dir + name,
        dir.len() == 0 ==> below(dir, name) == name,
{
    reveal_strlit("/");
    assert("/"@ =~= seq!['/']);
    if dir.len() == 0 {
        assert(dir + name =~= name);
    }
}

/// Where the configuration is looked for: in the user's place first, which is the one named or the
/// usual one at home, and then in the system's.
pub proof fn law_where_configuration_is_looked_for(base: Seq<char>, home: Option<Seq<char>>)
    ensures
        config_paths(Some(base), home) == seq![
            below(base, "kmuxd/kmuxd.toml"@),
            "/etc/kmuxd/kmuxd.toml"@,
        ],
        config_paths(None, Some(base)) == seq![
            below(base, ".config/kmuxd/kmuxd.toml"@),
            "/etc/kmuxd/kmuxd.toml"@,
        ],
        config_paths(None, None) == seq!["/etc/kmuxd/kmuxd.toml"@],
{
}

} // verus!
