use happy_eyeballs::{
    AlpnProtocol, AltSvcHint, ConnectionAttemptProtocol, DnsRecordType, DnsResponse,
    DnsResponseInner, Endpoint, HappyEyeballs, HttpVersions, Id, Input, IpAddress, Ipv4Address,
    Ipv6Address, NetworkConfig, IpPreference, Output, ServiceInfo, SocketAddress, TimerType,
    CONNECTION_ATTEMPT_DELAY, RESOLUTION_DELAY,
};

const HOST: &str = "example.com.";
const PORT: u16 = 443;

fn six() -> Ipv6Address {
    Ipv6Address::new(0x2001, 0xdb8, 0, 0, 0, 0, 0, 1)
}

fn four() -> Ipv4Address {
    Ipv4Address::new(192, 0, 2, 1)
}

fn sock6() -> SocketAddress {
    SocketAddress::new(IpAddress::V6(six()), PORT)
}

fn sock4() -> SocketAddress {
    SocketAddress::new(IpAddress::V4(four()), PORT)
}

fn fresh() -> HappyEyeballs {
    HappyEyeballs::new(HOST.to_string(), PORT).unwrap()
}

fn drain_queries(he: &mut HappyEyeballs, now: u64) {
    assert!(matches!(
        he.process(None, now),
        Some(Output::SendDnsQuery { record_type: DnsRecordType::Https, .. })
    ));
    assert!(matches!(
        he.process(None, now),
        Some(Output::SendDnsQuery { record_type: DnsRecordType::Aaaa, .. })
    ));
    assert!(matches!(
        he.process(None, now),
        Some(Output::SendDnsQuery { record_type: DnsRecordType::A, .. })
    ));
}

fn https_ok(alpns: Vec<AlpnProtocol>, ech: Option<Vec<u8>>) -> Input {
    Input::DnsResponse(DnsResponse {
        id: Id(0),
        target_name: HOST.into(),
        inner: DnsResponseInner::Https(Ok(vec![ServiceInfo {
            priority: 1,
            target_name: HOST.into(),
            alpn_protocols: alpns,
            ech_config: ech,
            ipv4_hints: vec![],
            ipv6_hints: vec![],
        }])),
    })
}

fn aaaa_ok() -> Input {
    Input::DnsResponse(DnsResponse {
        id: Id(1),
        target_name: HOST.into(),
        inner: DnsResponseInner::Aaaa(Ok(vec![six()])),
    })
}

fn a_ok() -> Input {
    Input::DnsResponse(DnsResponse {
        id: Id(2),
        target_name: HOST.into(),
        inner: DnsResponseInner::A(Ok(vec![four()])),
    })
}

fn https_err() -> Input {
    Input::DnsResponse(DnsResponse {
        id: Id(0),
        target_name: HOST.into(),
        inner: DnsResponseInner::Https(Err(())),
    })
}

fn conn_err(id: u64) -> Input {
    Input::ConnectionResult {
        id: Id(id),
        result: Err("refused".to_string()),
    }
}

fn conn_ok(id: u64) -> Input {
    Input::ConnectionResult {
        id: Id(id),
        result: Ok(()),
    }
}

/// The Resolution Delay runs from the first response, not from the
/// queries: a response at 10 ms lets the attempt fire at 60 ms.
#[test]
fn resolution_delay_from_first_response() {
    let mut he = fresh();
    drain_queries(&mut he, 0);

    assert_eq!(
        he.process(Some(a_ok()), 10),
        Some(Output::StartTimer {
            timer_type: TimerType::ResolutionDelay,
            duration: RESOLUTION_DELAY,
        })
    );
    // At 50 ms only 40 ms of the delay have passed.
    assert_eq!(
        he.process(None, 50),
        Some(Output::StartTimer {
            timer_type: TimerType::ResolutionDelay,
            duration: 10,
        })
    );
    assert_eq!(
        he.process(None, 60),
        Some(Output::AttemptConnection {
            id: Id(3),
            endpoint: Endpoint::new(sock4(), ConnectionAttemptProtocol::H2OrH1, None),
        })
    );
}

/// An IPv6 black hole: every candidate of (v6, v4) under (H3, the TCP
/// compound) fails in turn, and the engine then reports failure, and
/// keeps reporting it.
#[test]
fn ipv6_blackhole_exhaustion() {
    let mut he = fresh();
    drain_queries(&mut he, 0);

    assert!(matches!(
        he.process(
            Some(https_ok(vec![AlpnProtocol::H3, AlpnProtocol::H2], None)),
            0
        ),
        Some(Output::StartTimer { .. })
    ));
    assert_eq!(
        he.process(Some(aaaa_ok()), 0),
        Some(Output::AttemptConnection {
            id: Id(3),
            endpoint: Endpoint::new(sock6(), ConnectionAttemptProtocol::H3, None),
        })
    );
    assert!(matches!(he.process(Some(a_ok()), 0), Some(Output::StartTimer { .. })));
    // Each failure frees the next candidate immediately.
    assert_eq!(
        he.process(Some(conn_err(3)), 1),
        Some(Output::AttemptConnection {
            id: Id(4),
            endpoint: Endpoint::new(sock4(), ConnectionAttemptProtocol::H3, None),
        })
    );
    assert_eq!(
        he.process(Some(conn_err(4)), 2),
        Some(Output::AttemptConnection {
            id: Id(5),
            endpoint: Endpoint::new(sock6(), ConnectionAttemptProtocol::H2OrH1, None),
        })
    );
    assert_eq!(
        he.process(Some(conn_err(5)), 3),
        Some(Output::AttemptConnection {
            id: Id(6),
            endpoint: Endpoint::new(sock4(), ConnectionAttemptProtocol::H2OrH1, None),
        })
    );
    assert_eq!(he.process(Some(conn_err(6)), 4), Some(Output::Failed));
    // Terminal: the same report again, nothing else.
    assert_eq!(he.process(None, 5), Some(Output::Failed));
    assert_eq!(he.process(None, 1000), Some(Output::Failed));
}

/// The Encrypted Client Hello configuration of the primary target's HTTPS
/// record is carried on the emitted endpoint.
#[test]
fn ech_propagation() {
    let mut he = fresh();
    drain_queries(&mut he, 0);

    let ech = vec![0x01, 0x02, 0x03, 0x04, 0x05];
    assert!(matches!(
        he.process(
            Some(https_ok(
                vec![AlpnProtocol::H3, AlpnProtocol::H2],
                Some(ech.clone())
            )),
            0
        ),
        Some(Output::StartTimer { .. })
    ));
    assert_eq!(
        he.process(Some(aaaa_ok()), 0),
        Some(Output::AttemptConnection {
            id: Id(3),
            endpoint: Endpoint::new(sock6(), ConnectionAttemptProtocol::H3, Some(ech)),
        })
    );
}

/// A success cancels the remaining in-progress attempt before the
/// terminal report, which then repeats.
#[test]
fn success_cancels_siblings() {
    let mut he = fresh();
    drain_queries(&mut he, 0);

    assert!(matches!(he.process(Some(https_err()), 0), Some(Output::StartTimer { .. })));
    assert_eq!(
        he.process(Some(aaaa_ok()), 0),
        Some(Output::AttemptConnection {
            id: Id(3),
            endpoint: Endpoint::new(sock6(), ConnectionAttemptProtocol::H2OrH1, None),
        })
    );
    assert!(matches!(he.process(Some(a_ok()), 0), Some(Output::StartTimer { .. })));
    assert_eq!(
        he.process(None, CONNECTION_ATTEMPT_DELAY),
        Some(Output::AttemptConnection {
            id: Id(4),
            endpoint: Endpoint::new(sock4(), ConnectionAttemptProtocol::H2OrH1, None),
        })
    );
    // The v6 attempt wins; the v4 attempt is cancelled, then success is
    // terminal.
    let t = CONNECTION_ATTEMPT_DELAY + 1;
    assert_eq!(
        he.process(Some(conn_ok(3)), t),
        Some(Output::CancelConnection(sock4()))
    );
    assert_eq!(he.process(None, t), Some(Output::Succeeded));
    assert_eq!(he.process(None, t + 1), Some(Output::Succeeded));
}

/// Results with unknown or stale identifiers are dropped.
#[test]
fn unknown_ids_are_dropped() {
    let mut he = fresh();

    // Unknown DNS identifier before any query exists.
    let stale = Input::DnsResponse(DnsResponse {
        id: Id(99),
        target_name: HOST.into(),
        inner: DnsResponseInner::A(Ok(vec![four()])),
    });
    assert_eq!(
        he.process(Some(stale), 0),
        Some(Output::SendDnsQuery {
            id: Id(0),
            hostname: HOST.into(),
            record_type: DnsRecordType::Https,
        })
    );
    drop(he.process(None, 0));
    drop(he.process(None, 0));
    // A result whose record type does not match its query is dropped: the
    // HTTPS query stays unanswered, so readiness is never reached here.
    let mismatched = Input::DnsResponse(DnsResponse {
        id: Id(0),
        target_name: HOST.into(),
        inner: DnsResponseInner::Aaaa(Ok(vec![six()])),
    });
    assert!(matches!(he.process(Some(mismatched), 0), Some(Output::StartTimer { .. })
        | None));
    // An unknown connection identifier is dropped too.
    assert!(matches!(
        he.process(Some(conn_err(77)), 0),
        Some(Output::StartTimer { .. }) | None
    ));
}

/// A duplicate answer for an already-completed query is dropped.
#[test]
fn duplicate_answer_is_dropped() {
    let mut he = fresh();
    drain_queries(&mut he, 0);

    assert!(matches!(he.process(Some(https_err()), 0), Some(Output::StartTimer { .. })));
    assert!(matches!(he.process(Some(a_ok()), 0), Some(Output::StartTimer { .. })));
    // The second HTTPS answer changes nothing; the AAAA query is still
    // pending, so a Resolution Delay timer is reported again.
    assert_eq!(
        he.process(Some(https_err()), 0),
        Some(Output::StartTimer {
            timer_type: TimerType::ResolutionDelay,
            duration: RESOLUTION_DELAY,
        })
    );
}

/// An IPv4 literal target needs no DNS: the attempt fires at once, and a
/// failed attempt exhausts the engine.
#[test]
fn ipv4_literal_target() {
    let mut he = HappyEyeballs::new("192.0.2.1".to_string(), PORT).unwrap();

    assert_eq!(
        he.process(None, 0),
        Some(Output::AttemptConnection {
            id: Id(0),
            endpoint: Endpoint::new(sock4(), ConnectionAttemptProtocol::H2OrH1, None),
        })
    );
    assert_eq!(he.process(Some(conn_err(0)), 1), Some(Output::Failed));
    assert_eq!(he.process(None, 2), Some(Output::Failed));
}

/// A bracketed IPv6 literal parses to the address inside the brackets.
#[test]
fn bracketed_ipv6_literal_target() {
    let mut he = HappyEyeballs::new("[2001:db8::1]".to_string(), PORT).unwrap();

    assert_eq!(
        he.process(None, 0),
        Some(Output::AttemptConnection {
            id: Id(0),
            endpoint: Endpoint::new(sock6(), ConnectionAttemptProtocol::H2OrH1, None),
        })
    );
}

/// A bare IPv6 literal works too, including `::` compression forms.
#[test]
fn bare_ipv6_literal_target() {
    let mut he = HappyEyeballs::new("2001:db8::1".to_string(), PORT).unwrap();

    assert_eq!(
        he.process(None, 0),
        Some(Output::AttemptConnection {
            id: Id(0),
            endpoint: Endpoint::new(sock6(), ConnectionAttemptProtocol::H2OrH1, None),
        })
    );

    let mut lo = HappyEyeballs::new("::1".to_string(), 80).unwrap();
    assert_eq!(
        lo.process(None, 0),
        Some(Output::AttemptConnection {
            id: Id(0),
            endpoint: Endpoint::new(
                SocketAddress::new(
                    IpAddress::V6(Ipv6Address::new(0, 0, 0, 0, 0, 0, 0, 1)),
                    80
                ),
                ConnectionAttemptProtocol::H2OrH1,
                None,
            ),
        })
    );

    let mut full = HappyEyeballs::new("1:2:3:4:5:6:7:8".to_string(), 80).unwrap();
    assert_eq!(
        full.process(None, 0),
        Some(Output::AttemptConnection {
            id: Id(0),
            endpoint: Endpoint::new(
                SocketAddress::new(
                    IpAddress::V6(Ipv6Address::new(1, 2, 3, 4, 5, 6, 7, 8)),
                    80
                ),
                ConnectionAttemptProtocol::H2OrH1,
                None,
            ),
        })
    );
}

/// Construction fails exactly on syntactically invalid hosts.
#[test]
fn invalid_hosts_are_rejected() {
    for bad in [
        "",
        ".",
        "a..b",
        "-a.com",
        "a-.com",
        "exa mple.com",
        "[2001:db8::1",
        "2001:db8::1]",
        ":::",
        "1:2:3",
        "12345::1",
        "1:2:3:4:5:6:7:8:9",
        "::1::2",
        "a_b.com",
    ] {
        assert!(
            HappyEyeballs::new(bad.to_string(), PORT).is_err(),
            "{bad:?} should be rejected"
        );
    }
    for good in [
        "example.com",
        "example.com.",
        "a.b-c.d0",
        "192.0.2.1",
        "::",
        "::1",
        "1::",
        "[::1]",
        "2001:db8::1",
    ] {
        assert!(
            HappyEyeballs::new(good.to_string(), PORT).is_ok(),
            "{good:?} should be accepted"
        );
    }
}

/// DNS label and name length limits: 63-byte labels and 253-byte names
/// are the largest accepted.
#[test]
fn domain_length_limits() {
    let label63 = "a".repeat(63);
    let label64 = "a".repeat(64);
    assert!(HappyEyeballs::new(format!("{label63}.com"), PORT).is_ok());
    assert!(HappyEyeballs::new(format!("{label64}.com"), PORT).is_err());

    // Four 62-byte labels and three dots: 251 bytes, accepted.
    let label62 = "a".repeat(62);
    let name251 = format!("{label62}.{label62}.{label62}.{label62}");
    assert_eq!(name251.len(), 251);
    assert!(HappyEyeballs::new(name251.clone(), PORT).is_ok());
    // 255 bytes are beyond the 253-byte cap.
    let name255 = format!("{name251}.abc");
    assert!(HappyEyeballs::new(name255, PORT).is_err());
}

/// Number-like names that are not valid IPv4 literals are treated as DNS
/// names, as a resolver stub would.
#[test]
fn almost_ipv4_is_a_name() {
    for name in ["256.0.0.1", "01.2.3.4", "1.2.3", "1.2.3.4.5"] {
        let mut he = HappyEyeballs::new(name.to_string(), PORT).unwrap();
        assert!(matches!(
            he.process(None, 0),
            Some(Output::SendDnsQuery { record_type: DnsRecordType::Https, .. })
        ));
    }
    // The full dotted quad is an address, not a name.
    let mut he = HappyEyeballs::new("255.255.255.255".to_string(), PORT).unwrap();
    assert_eq!(
        he.process(None, 0),
        Some(Output::AttemptConnection {
            id: Id(0),
            endpoint: Endpoint::new(
                SocketAddress::new(IpAddress::V4(Ipv4Address::new(255, 255, 255, 255)), PORT),
                ConnectionAttemptProtocol::H2OrH1,
                None,
            ),
        })
    );
}

/// Once a positive AAAA answer exists, IPv6 hints no longer stand in: the
/// hinted address is never attempted.
#[test]
fn hints_dropped_after_positive_answer() {
    let mut he = fresh();
    drain_queries(&mut he, 0);

    let hinted = Input::DnsResponse(DnsResponse {
        id: Id(0),
        target_name: HOST.into(),
        inner: DnsResponseInner::Https(Ok(vec![ServiceInfo {
            priority: 1,
            target_name: HOST.into(),
            alpn_protocols: vec![],
            ech_config: None,
            ipv4_hints: vec![],
            ipv6_hints: vec![Ipv6Address::new(0x2001, 0xdb8, 0, 0, 0, 0, 0, 0xbad)],
        }])),
    });
    assert!(matches!(he.process(Some(hinted), 0), Some(Output::StartTimer { .. })));
    assert!(matches!(
        he.process(
            Some(Input::DnsResponse(DnsResponse {
                id: Id(2),
                target_name: HOST.into(),
                inner: DnsResponseInner::A(Err(())),
            })),
            0
        ),
        Some(Output::StartTimer { .. })
    ));
    // The positive AAAA answer replaces the hint entirely.
    assert_eq!(
        he.process(Some(aaaa_ok()), 0),
        Some(Output::AttemptConnection {
            id: Id(3),
            endpoint: Endpoint::new(sock6(), ConnectionAttemptProtocol::H2OrH1, None),
        })
    );
    // With the only real address tried, nothing else remains: the hinted
    // address is not attempted, and the engine fails.
    assert_eq!(he.process(Some(conn_err(3)), 1), Some(Output::Failed));
}

/// The delays behave the same near the top of the clock range.
#[test]
fn large_timestamps() {
    let base = u64::MAX - 1000;
    let mut he = fresh();
    drain_queries(&mut he, base);

    assert_eq!(
        he.process(Some(a_ok()), base),
        Some(Output::StartTimer {
            timer_type: TimerType::ResolutionDelay,
            duration: RESOLUTION_DELAY,
        })
    );
    assert_eq!(
        he.process(None, base + RESOLUTION_DELAY),
        Some(Output::AttemptConnection {
            id: Id(3),
            endpoint: Endpoint::new(sock4(), ConnectionAttemptProtocol::H2OrH1, None),
        })
    );
}

/// The HTTP version mask removes protocols from the effective set.
#[test]
fn http_version_mask() {
    // HTTP/3 disabled: even an advertised h3 stays off the list.
    let config = NetworkConfig {
        http_versions: HttpVersions {
            h1: true,
            h2: true,
            h3: false,
        },
        ip: IpPreference::DualStackPreferV6,
        alt_svc: vec![],
    };
    let mut he = HappyEyeballs::with_network_config(HOST.to_string(), PORT, config).unwrap();
    drain_queries(&mut he, 0);
    assert!(matches!(
        he.process(
            Some(https_ok(vec![AlpnProtocol::H3, AlpnProtocol::H2], None)),
            0
        ),
        Some(Output::StartTimer { .. })
    ));
    assert_eq!(
        he.process(Some(aaaa_ok()), 0),
        Some(Output::AttemptConnection {
            id: Id(3),
            endpoint: Endpoint::new(sock6(), ConnectionAttemptProtocol::H2OrH1, None),
        })
    );

    // HTTP/1.1 disabled: the TCP attempt negotiates HTTP/2 alone.
    let config = NetworkConfig {
        http_versions: HttpVersions {
            h1: false,
            h2: true,
            h3: false,
        },
        ip: IpPreference::DualStackPreferV6,
        alt_svc: vec![],
    };
    let mut he2 = HappyEyeballs::with_network_config(HOST.to_string(), PORT, config).unwrap();
    drain_queries(&mut he2, 0);
    assert!(matches!(he2.process(Some(https_err()), 0), Some(Output::StartTimer { .. })));
    assert_eq!(
        he2.process(Some(aaaa_ok()), 0),
        Some(Output::AttemptConnection {
            id: Id(3),
            endpoint: Endpoint::new(sock6(), ConnectionAttemptProtocol::H2, None),
        })
    );
}

/// An alt-service hint brings HTTP/3 into the effective set without any
/// HTTPS answer advertising it.
#[test]
fn alt_svc_hint_enables_h3() {
    let config = NetworkConfig {
        http_versions: HttpVersions::default(),
        ip: IpPreference::DualStackPreferV6,
        alt_svc: vec![AltSvcHint {
            host: None,
            port: None,
            protocol: AlpnProtocol::H3,
        }],
    };
    let mut he = HappyEyeballs::with_network_config(HOST.to_string(), PORT, config).unwrap();
    drain_queries(&mut he, 0);
    assert!(matches!(he.process(Some(https_err()), 0), Some(Output::StartTimer { .. })));
    assert_eq!(
        he.process(Some(aaaa_ok()), 0),
        Some(Output::AttemptConnection {
            id: Id(3),
            endpoint: Endpoint::new(sock6(), ConnectionAttemptProtocol::H3, None),
        })
    );
}
