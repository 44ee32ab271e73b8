use kmuxd::announce::{advert_for, build_endpoint_list, is_lan_address, BootstrapPath, PeerIp};
use kmuxd::config::{Audience, ListenConfig, ListenKind, TransportKind};

fn quic_listener(audience: Audience) -> ListenConfig {
    ListenConfig {
        kind: ListenKind::Quic,
        bind: "0.0.0.0".to_string(),
        port: 8443,
        enabled: true,
        path: "auto".to_string(),
        audience,
        priority: 0,
    }
}

fn tcp_listener(audience: Audience) -> ListenConfig {
    ListenConfig {
        kind: ListenKind::TcpTls,
        bind: "127.0.0.1".to_string(),
        port: 8444,
        enabled: true,
        path: "auto".to_string(),
        audience,
        priority: 0,
    }
}

fn uds_listener(audience: Audience) -> ListenConfig {
    ListenConfig {
        kind: ListenKind::Unix,
        bind: "::".to_string(),
        port: 0,
        enabled: true,
        path: "/run/user/1000/kmux/daemon-data.sock".to_string(),
        audience,
        priority: 0,
    }
}

fn from(a: u8, b: u8, c: u8, d: u8) -> BootstrapPath {
    BootstrapPath::Network { peer: PeerIp::V4([a, b, c, d]) }
}

#[test]
fn audience_any_visible_to_all_paths() {
    let l = quic_listener(Audience::Any);
    assert!(advert_for(&l, BootstrapPath::Uds, None).is_some());
    assert!(advert_for(&l, BootstrapPath::Ssh, None).is_some());
    assert!(advert_for(&l, from(8, 8, 8, 8), None).is_some());
}

#[test]
fn audience_local_visible_only_to_uds_and_loopback() {
    let l = uds_listener(Audience::Local);
    assert!(advert_for(&l, BootstrapPath::Uds, None).is_some());
    assert!(advert_for(&l, from(127, 0, 0, 1), None).is_some());
    assert!(advert_for(&l, from(8, 8, 8, 8), None).is_none());
    assert!(advert_for(&l, BootstrapPath::Ssh, None).is_none());
}

#[test]
fn audience_ssh_only_visible_only_via_ssh() {
    let l = tcp_listener(Audience::SshOnly);
    assert!(advert_for(&l, BootstrapPath::Ssh, None).is_some());
    assert!(advert_for(&l, BootstrapPath::Uds, None).is_none());
    assert!(advert_for(&l, from(1, 2, 3, 4), None).is_none());
}

#[test]
fn audience_lan_visible_to_rfc1918() {
    let l = quic_listener(Audience::Lan);
    assert!(advert_for(&l, from(192, 168, 1, 1), None).is_some());
    assert!(advert_for(&l, from(8, 8, 8, 8), None).is_none());
}

#[test]
fn disabled_listener_not_announced() {
    let mut l = quic_listener(Audience::Any);
    l.enabled = false;
    assert!(advert_for(&l, BootstrapPath::Uds, None).is_none());
}

#[test]
fn public_host_substituted_for_quic() {
    let l = quic_listener(Audience::Any);
    let advert = advert_for(&l, BootstrapPath::Ssh, Some("prod.example.com")).unwrap();
    assert_eq!(advert.address, "prod.example.com:8443");
}

#[test]
fn without_a_public_host_the_bind_address_is_announced() {
    let advert = advert_for(&tcp_listener(Audience::Any), BootstrapPath::Ssh, None).unwrap();
    assert_eq!(advert.address, "127.0.0.1:8444");
    let advert = advert_for(&uds_listener(Audience::Any), BootstrapPath::Uds, Some("h")).unwrap();
    assert_eq!(advert.kind, TransportKind::Uds);
    assert_eq!(advert.address, "/run/user/1000/kmux/daemon-data.sock");
}

#[test]
fn build_endpoint_list_ssh_path_excludes_local() {
    let listeners = vec![
        quic_listener(Audience::Any),
        tcp_listener(Audience::SshOnly),
        uds_listener(Audience::Local),
    ];
    let adverts = build_endpoint_list(&listeners, BootstrapPath::Ssh, None);
    assert_eq!(adverts.len(), 2);
    assert!(adverts.iter().any(|a| a.kind == TransportKind::Quic));
    assert!(adverts.iter().any(|a| a.kind == TransportKind::TcpTls));
}

#[test]
fn build_endpoint_list_uds_path_includes_local() {
    let listeners = vec![quic_listener(Audience::Any), uds_listener(Audience::Local)];
    let adverts = build_endpoint_list(&listeners, BootstrapPath::Uds, None);
    assert_eq!(adverts.len(), 2);
}

#[test]
fn rfc1918_is_lan() {
    for ip in [
        [10, 0, 0, 1],
        [10, 255, 255, 255],
        [172, 16, 0, 1],
        [172, 31, 255, 255],
        [192, 168, 0, 1],
    ] {
        assert!(is_lan_address(PeerIp::V4(ip)), "{ip:?} should be LAN");
    }
}

#[test]
fn public_ip_is_not_lan() {
    assert!(!is_lan_address(PeerIp::V4([8, 8, 8, 8])));
}

#[test]
fn the_edges_of_the_local_networks() {
    assert!(!is_lan_address(PeerIp::V4([172, 15, 255, 255])));
    assert!(!is_lan_address(PeerIp::V4([172, 32, 0, 0])));
    assert!(is_lan_address(PeerIp::V4([169, 254, 0, 1])));
    assert!(is_lan_address(PeerIp::V6([0, 0, 0, 0, 0, 0, 0, 1])));
    assert!(!is_lan_address(PeerIp::V6([0, 0, 0, 0, 0, 0, 0, 2])));
    assert!(is_lan_address(PeerIp::V6([0xfdff, 0, 0, 0, 0, 0, 0, 2])));
    assert!(is_lan_address(PeerIp::V6([0xfebf, 0, 0, 0, 0, 0, 0, 2])));
    assert!(!is_lan_address(PeerIp::V6([0xfec0, 0, 0, 0, 0, 0, 0, 2])));
    assert!(PeerIp::V4([127, 9, 9, 9]).is_loopback());
}
