use kmuxd::config::{
    Audience, CompressionConfig, CompressionMode, ConfigError, ConfigFile, ListenConfig,
    ListenKind, ServerConfig, SessionIsolationMode, TlsConfig, TransportKind,
};

#[test]
fn server_config_resolve_fails_with_no_enabled_listeners() {
    let mut cfg = ConfigFile::default();
    for l in &mut cfg.listen {
        l.enabled = false;
    }
    assert!(ServerConfig::resolve(cfg).is_err());
}

#[test]
fn server_config_resolve_ok_without_tls_cert() {
    // No cert/key configured: self-signed is the default, so resolve must succeed.
    let cfg = ConfigFile {
        tls: TlsConfig::default(),
        listen: vec![ListenConfig {
            kind: ListenKind::Quic,
            bind: "::".into(),
            port: 0,
            enabled: true,
            path: "auto".into(),
            audience: Audience::Any,
            priority: 0,
        }],
        ..ConfigFile::default()
    };
    ServerConfig::resolve(cfg).unwrap();
}

#[test]
fn server_config_resolve_fails_with_half_set_cert_pair() {
    // A cert without its key (or vice versa) is a misconfiguration.
    let cert_only = ConfigFile {
        tls: TlsConfig {
            cert: Some("/etc/kmuxd/cert.pem".into()),
            key: None,
            ..TlsConfig::default()
        },
        ..ConfigFile::default()
    };
    assert!(ServerConfig::resolve(cert_only).is_err());

    let key_only = ConfigFile {
        tls: TlsConfig {
            cert: None,
            key: Some("/etc/kmuxd/key.pem".into()),
            ..TlsConfig::default()
        },
        ..ConfigFile::default()
    };
    assert!(ServerConfig::resolve(key_only).is_err());
}

#[test]
fn server_config_resolve_accepts_deprecated_self_signed() {
    // The deprecated `self_signed` knob is ignored but must still resolve cleanly.
    let cfg = ConfigFile {
        tls: TlsConfig {
            self_signed: true,
            ..TlsConfig::default()
        },
        ..ConfigFile::default()
    };
    ServerConfig::resolve(cfg).unwrap();
}

#[test]
fn daemon_idle_shutdown_default_is_30() {
    let cfg = ConfigFile::default();
    assert_eq!(cfg.daemon.idle_shutdown_secs, 30);
}

#[test]
fn daemon_session_isolation_defaults_to_in_process() {
    let cfg = ConfigFile::default();
    assert_eq!(
        cfg.daemon.session_isolation,
        SessionIsolationMode::InProcess
    );
    assert!(!cfg.daemon.session_isolation.is_process());
}

#[test]
fn compression_defaults_are_auto_level3() {
    let cfg = CompressionConfig::default();
    assert_eq!(cfg.mode, CompressionMode::Auto);
    assert_eq!(cfg.level, 3);
    assert_eq!(cfg.min_size, 256);
}

#[test]
fn compression_enabled_for_transport() {
    let auto = CompressionConfig::default();
    // Auto: on for every networked transport, off for the local UDS path.
    assert!(auto.enabled_for(TransportKind::Quic));
    assert!(auto.enabled_for(TransportKind::Tcp));
    assert!(auto.enabled_for(TransportKind::TcpTls));
    assert!(!auto.enabled_for(TransportKind::Uds));

    let always = CompressionConfig {
        mode: CompressionMode::Always,
        ..CompressionConfig::default()
    };
    assert!(always.enabled_for(TransportKind::Uds));

    let never = CompressionConfig {
        mode: CompressionMode::Never,
        ..CompressionConfig::default()
    };
    assert!(!never.enabled_for(TransportKind::Quic));
}

#[test]
fn resolve_names_each_failure_and_keeps_every_setting() {
    let mut disabled = ConfigFile::default();
    for l in &mut disabled.listen {
        l.enabled = false;
    }
    disabled.tls.cert = Some("c".into());
    let err = ServerConfig::resolve(disabled).unwrap_err();
    assert_eq!(err, ConfigError::NoEnabledListeners);
    assert_eq!(err.message(), "no enabled listeners in configuration");

    let mut half = ConfigFile::default();
    half.tls.cert = Some("c".into());
    let err = ServerConfig::resolve(half).unwrap_err();
    assert_eq!(err, ConfigError::KeyMissing);
    assert_eq!(err.message(), "[tls] cert is set but [tls] key is missing");

    let mut half = ConfigFile::default();
    half.tls.key = Some("k".into());
    let err = ServerConfig::resolve(half).unwrap_err();
    assert_eq!(err, ConfigError::CertMissing);
    assert_eq!(err.message(), "[tls] key is set but [tls] cert is missing");

    let mut cfg = ConfigFile::default();
    cfg.runtime_dir = "/run/kmux".into();
    cfg.daemon.idle_shutdown_secs = 60;
    cfg.daemon.session_isolation = SessionIsolationMode::Process;
    cfg.tls.cert = Some("c".into());
    cfg.tls.key = Some("k".into());
    let resolved = ServerConfig::resolve(cfg).unwrap();
    assert_eq!(resolved.runtime_dir, "/run/kmux");
    assert_eq!(resolved.idle_shutdown_secs, 60);
    assert!(resolved.session_isolation.is_process());
    assert_eq!(resolved.listeners.len(), 3);
    assert_eq!(resolved.listeners[2].kind, ListenKind::Unix);
    assert_eq!(resolved.listeners[2].audience, Audience::Local);
    assert_eq!(resolved.listeners[0].bind, "0.0.0.0");
    assert_eq!(resolved.tls.key.as_deref(), Some("k"));
}
