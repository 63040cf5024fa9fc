use happy_eyeballs::{
    ConnectionAttemptProtocol, DnsRecordType, Endpoint, HttpVersions, Id, IdGenerator, IpAddress,
    IpPreference, Ipv4Address, NetworkConfig, SocketAddress, TargetName,
};

#[test]
fn default_network_config() {
    let config = NetworkConfig::default();
    assert_eq!(
        config.http_versions,
        HttpVersions {
            h1: true,
            h2: true,
            h3: true
        }
    );
    assert_eq!(config.ip, IpPreference::DualStackPreferV6);
    assert!(config.alt_svc.is_empty());
    assert_eq!(HttpVersions::default(), config.http_versions);
}

#[test]
fn ip_preference_helpers() {
    let mk = |ip: IpPreference| NetworkConfig {
        http_versions: HttpVersions::default(),
        ip,
        alt_svc: vec![],
    };
    assert!(mk(IpPreference::DualStackPreferV6).prefer_v6());
    assert!(mk(IpPreference::Ipv6Only).prefer_v6());
    assert!(!mk(IpPreference::DualStackPreferV4).prefer_v6());
    assert!(!mk(IpPreference::Ipv4Only).prefer_v6());
    assert_eq!(
        mk(IpPreference::DualStackPreferV6).preferred_dns_record_type(),
        DnsRecordType::Aaaa
    );
    assert_eq!(
        mk(IpPreference::Ipv4Only).preferred_dns_record_type(),
        DnsRecordType::A
    );
}

#[test]
fn id_generator_counts_up() {
    let mut ids = IdGenerator::new();
    assert_eq!(ids.next_id(), Id(0));
    assert_eq!(ids.next_id(), Id(1));
    assert_eq!(ids.next_id(), Id(2));
    let id: Id = 7u64.into();
    assert_eq!(id, Id(7));
    let raw: u64 = Id(9).into();
    assert_eq!(raw, 9);
    assert_eq!(Id(9).value(), 9);
}

#[test]
fn target_name_equality_is_by_value() {
    let a: TargetName = "example.com.".into();
    let b: TargetName = "example.com.".into();
    let c: TargetName = "example.org.".into();
    assert!(a == b);
    assert!(a != c);
    assert_eq!(a.clone(), b);
}

#[test]
fn endpoint_identity_is_the_full_tuple() {
    let addr = SocketAddress::new(IpAddress::V4(Ipv4Address::new(192, 0, 2, 1)), 443);
    let plain = Endpoint::new(addr, ConnectionAttemptProtocol::H3, None);
    let with_ech = Endpoint::new(addr, ConnectionAttemptProtocol::H3, Some(vec![1, 2, 3]));
    let other_proto = Endpoint::new(addr, ConnectionAttemptProtocol::H2OrH1, None);
    let other_port = Endpoint::new(
        SocketAddress::new(IpAddress::V4(Ipv4Address::new(192, 0, 2, 1)), 80),
        ConnectionAttemptProtocol::H3,
        None,
    );
    assert!(plain == Endpoint::new(addr, ConnectionAttemptProtocol::H3, None));
    assert!(plain != with_ech);
    assert!(plain != other_proto);
    assert!(plain != other_port);
    assert!(with_ech == with_ech.clone());
}
