use happy_eyeballs::{
    AlpnProtocol, ConnectionAttemptProtocol, DnsRecordType, DnsResponse, DnsResponseInner,
    Endpoint, HappyEyeballs, HttpVersions, Id, Input, IpAddress, Ipv4Address, Ipv6Address,
    NetworkConfig, IpPreference, Output, ServiceInfo, SocketAddress, TimerType,
    CONNECTION_ATTEMPT_DELAY, RESOLUTION_DELAY,
};

const HOSTNAME: &str = "example.com.";
const PORT: u16 = 443;

fn v6_addr() -> Ipv6Address {
    Ipv6Address::new(0x2001, 0xdb8, 0, 0, 0, 0, 0, 1)
}

fn v6_addr_2() -> Ipv6Address {
    Ipv6Address::new(0x2001, 0xdb8, 0, 0, 0, 0, 0, 2)
}

fn v6_addr_3() -> Ipv6Address {
    Ipv6Address::new(0x2001, 0xdb8, 0, 0, 0, 0, 0, 3)
}

fn v4_addr() -> Ipv4Address {
    Ipv4Address::new(192, 0, 2, 1)
}

fn expect(he: &mut HappyEyeballs, input_output: Vec<(Option<Input>, Option<Output>)>, now: u64) {
    for (input, expected_output) in input_output {
        let output = he.process(input, now);
        assert_eq!(expected_output, output);
    }
}

// The engine mints identifiers in emission order, so the three initial
// queries always carry 0 (HTTPS), 1 (AAAA) and 2 (A).
const HTTPS_ID: u64 = 0;
const AAAA_ID: u64 = 1;
const A_ID: u64 = 2;

fn in_dns_https_positive() -> Input {
    Input::DnsResponse(DnsResponse {
        id: Id(HTTPS_ID),
        target_name: HOSTNAME.into(),
        inner: DnsResponseInner::Https(Ok(vec![ServiceInfo {
            priority: 1,
            target_name: HOSTNAME.into(),
            alpn_protocols: vec![AlpnProtocol::H3, AlpnProtocol::H2],
            ipv6_hints: vec![],
            ipv4_hints: vec![],
            ech_config: None,
        }])),
    })
}

fn in_dns_https_positive_v6_hints() -> Input {
    Input::DnsResponse(DnsResponse {
        id: Id(HTTPS_ID),
        target_name: HOSTNAME.into(),
        inner: DnsResponseInner::Https(Ok(vec![ServiceInfo {
            priority: 1,
            target_name: HOSTNAME.into(),
            alpn_protocols: vec![AlpnProtocol::H3, AlpnProtocol::H2],
            ipv6_hints: vec![v6_addr()],
            ipv4_hints: vec![],
            ech_config: None,
        }])),
    })
}

fn in_dns_https_positive_svc1() -> Input {
    Input::DnsResponse(DnsResponse {
        id: Id(HTTPS_ID),
        target_name: HOSTNAME.into(),
        inner: DnsResponseInner::Https(Ok(vec![ServiceInfo {
            priority: 1,
            target_name: "svc1.example.com.".into(),
            alpn_protocols: vec![AlpnProtocol::H3, AlpnProtocol::H2],
            ipv6_hints: vec![v6_addr_2()],
            ipv4_hints: vec![],
            ech_config: None,
        }])),
    })
}

fn in_dns_https_negative() -> Input {
    Input::DnsResponse(DnsResponse {
        id: Id(HTTPS_ID),
        target_name: HOSTNAME.into(),
        inner: DnsResponseInner::Https(Err(())),
    })
}

fn in_dns_aaaa_positive() -> Input {
    Input::DnsResponse(DnsResponse {
        id: Id(AAAA_ID),
        target_name: HOSTNAME.into(),
        inner: DnsResponseInner::Aaaa(Ok(vec![v6_addr()])),
    })
}

fn in_dns_a_positive() -> Input {
    Input::DnsResponse(DnsResponse {
        id: Id(A_ID),
        target_name: HOSTNAME.into(),
        inner: DnsResponseInner::A(Ok(vec![v4_addr()])),
    })
}

fn in_dns_aaaa_negative() -> Input {
    Input::DnsResponse(DnsResponse {
        id: Id(AAAA_ID),
        target_name: HOSTNAME.into(),
        inner: DnsResponseInner::Aaaa(Err(())),
    })
}

fn in_dns_a_negative() -> Input {
    Input::DnsResponse(DnsResponse {
        id: Id(A_ID),
        target_name: HOSTNAME.into(),
        inner: DnsResponseInner::A(Err(())),
    })
}

fn out_send_dns_https() -> Output {
    Output::SendDnsQuery {
        id: Id(HTTPS_ID),
        hostname: HOSTNAME.into(),
        record_type: DnsRecordType::Https,
    }
}

fn out_send_dns_aaaa() -> Output {
    Output::SendDnsQuery {
        id: Id(AAAA_ID),
        hostname: HOSTNAME.into(),
        record_type: DnsRecordType::Aaaa,
    }
}

fn out_send_dns_a() -> Output {
    Output::SendDnsQuery {
        id: Id(A_ID),
        hostname: HOSTNAME.into(),
        record_type: DnsRecordType::A,
    }
}

fn endpoint_v6(protocol: ConnectionAttemptProtocol) -> Endpoint {
    Endpoint::new(
        SocketAddress::new(IpAddress::V6(v6_addr()), PORT),
        protocol,
        None,
    )
}

fn endpoint_v4(protocol: ConnectionAttemptProtocol) -> Endpoint {
    Endpoint::new(
        SocketAddress::new(IpAddress::V4(v4_addr()), PORT),
        protocol,
        None,
    )
}

fn out_attempt_v6(id: u64, protocol: ConnectionAttemptProtocol) -> Output {
    Output::AttemptConnection {
        id: Id(id),
        endpoint: endpoint_v6(protocol),
    }
}

fn out_attempt_v4(id: u64, protocol: ConnectionAttemptProtocol) -> Output {
    Output::AttemptConnection {
        id: Id(id),
        endpoint: endpoint_v4(protocol),
    }
}

fn out_resolution_timer(duration: u64) -> Output {
    Output::StartTimer {
        timer_type: TimerType::ResolutionDelay,
        duration,
    }
}

fn out_attempt_timer(duration: u64) -> Output {
    Output::StartTimer {
        timer_type: TimerType::ConnectionAttemptDelay,
        duration,
    }
}

fn setup() -> (u64, HappyEyeballs) {
    setup_with_config(NetworkConfig::default())
}

fn setup_with_config(config: NetworkConfig) -> (u64, HappyEyeballs) {
    let now = 0;
    let he = HappyEyeballs::with_network_config(HOSTNAME.to_string(), PORT, config).unwrap();
    (now, he)
}

#[test]
fn initial_state() {
    let (now, mut he) = setup();

    expect(&mut he, vec![(None, Some(out_send_dns_https()))], now);
}

/// The queries go out in the order HTTPS, AAAA, A.
#[test]
fn sendig_dns_queries() {
    let (now, mut he) = setup();

    expect(
        &mut he,
        vec![
            (None, Some(out_send_dns_https())),
            (None, Some(out_send_dns_aaaa())),
            (None, Some(out_send_dns_a())),
        ],
        now,
    );
}

/// The engine does not wait for all answers before attempting.
#[test]
fn dont_wait_for_all_dns_answers() {
    let (now, mut he) = setup();

    expect(
        &mut he,
        vec![
            (None, Some(out_send_dns_https())),
            (None, Some(out_send_dns_aaaa())),
            (None, Some(out_send_dns_a())),
            (
                Some(in_dns_https_positive()),
                Some(out_resolution_timer(RESOLUTION_DELAY)),
            ),
            (
                Some(in_dns_aaaa_positive()),
                Some(out_attempt_v6(3, ConnectionAttemptProtocol::H3)),
            ),
        ],
        now,
    );
}

#[derive(Debug)]
struct Case {
    address_family: NetworkConfig,
    positive: Input,
    preferred: Option<Input>,
    expected_v6: bool,
}

/// The non-timeout move-on rule: a positive answer, an answer for the
/// preferred family, and an HTTPS answer together let an attempt fire.
#[test]
fn move_on_non_timeout() {
    let test_cases = vec![
        // V6 preferred, V6 positive, expect V6 connection attempt
        Case {
            address_family: NetworkConfig {
                http_versions: HttpVersions::default(),
                ip: IpPreference::DualStackPreferV6,
                alt_svc: vec![],
            },
            positive: in_dns_aaaa_positive(),
            preferred: None,
            expected_v6: true,
        },
        // V6 preferred, V4 positive, V6 positive, expect V6
        Case {
            address_family: NetworkConfig {
                http_versions: HttpVersions::default(),
                ip: IpPreference::DualStackPreferV6,
                alt_svc: vec![],
            },
            positive: in_dns_a_positive(),
            preferred: Some(in_dns_aaaa_positive()),
            expected_v6: true,
        },
        // V6 preferred, V6 negative, V4 positive, expect V4
        Case {
            address_family: NetworkConfig {
                http_versions: HttpVersions::default(),
                ip: IpPreference::DualStackPreferV6,
                alt_svc: vec![],
            },
            positive: in_dns_a_positive(),
            preferred: Some(in_dns_aaaa_negative()),
            expected_v6: false,
        },
        // V4 preferred, V4 positive, expect V4
        Case {
            address_family: NetworkConfig {
                http_versions: HttpVersions::default(),
                ip: IpPreference::DualStackPreferV4,
                alt_svc: vec![],
            },
            positive: in_dns_a_positive(),
            preferred: None,
            expected_v6: false,
        },
        // V4 preferred, V6 positive, V4 positive, expect V4
        Case {
            address_family: NetworkConfig {
                http_versions: HttpVersions::default(),
                ip: IpPreference::DualStackPreferV4,
                alt_svc: vec![],
            },
            positive: in_dns_aaaa_positive(),
            preferred: Some(in_dns_a_positive()),
            expected_v6: false,
        },
        // V4 preferred, V4 negative, V6 positive, expect V6
        Case {
            address_family: NetworkConfig {
                http_versions: HttpVersions::default(),
                ip: IpPreference::DualStackPreferV4,
                alt_svc: vec![],
            },
            positive: in_dns_aaaa_positive(),
            preferred: Some(in_dns_a_negative()),
            expected_v6: true,
        },
    ];

    for test_case in test_cases {
        for (https, proto) in [
            (in_dns_https_positive(), ConnectionAttemptProtocol::H3),
            (in_dns_https_negative(), ConnectionAttemptProtocol::H2OrH1),
        ] {
            let (now, mut he) = setup_with_config(test_case.address_family.clone());

            let expected = if test_case.expected_v6 {
                Some(out_attempt_v6(3, proto))
            } else {
                Some(out_attempt_v4(3, proto))
            };
            expect(
                &mut he,
                vec![
                    (None, Some(out_send_dns_https())),
                    (None, Some(out_send_dns_aaaa())),
                    (None, Some(out_send_dns_a())),
                    (
                        Some(test_case.positive.clone()),
                        Some(out_resolution_timer(RESOLUTION_DELAY)),
                    ),
                    (
                        test_case.preferred.clone(),
                        Some(out_resolution_timer(RESOLUTION_DELAY)),
                    ),
                    (Some(https), expected),
                ],
                now,
            );
        }
    }
}

/// The timeout move-on rule: a positive address answer plus the elapsed
/// Resolution Delay suffices.
#[test]
fn move_on_timeout() {
    let (mut now, mut he) = setup();

    expect(
        &mut he,
        vec![
            (None, Some(out_send_dns_https())),
            (None, Some(out_send_dns_aaaa())),
            (None, Some(out_send_dns_a())),
            (
                Some(in_dns_a_positive()),
                Some(out_resolution_timer(RESOLUTION_DELAY)),
            ),
        ],
        now,
    );

    now += RESOLUTION_DELAY;

    expect(
        &mut he,
        vec![(None, Some(out_attempt_v4(3, ConnectionAttemptProtocol::H2OrH1)))],
        now,
    );
}

/// HTTPS address hints count as positive answers while the matching
/// address records are missing.
#[test]
fn https_hints() {
    let (now, mut he) = setup();

    expect(
        &mut he,
        vec![
            (None, Some(out_send_dns_https())),
            (None, Some(out_send_dns_aaaa())),
            (None, Some(out_send_dns_a())),
            (
                Some(in_dns_aaaa_negative()),
                Some(out_resolution_timer(RESOLUTION_DELAY)),
            ),
            (
                Some(in_dns_a_negative()),
                Some(out_resolution_timer(RESOLUTION_DELAY)),
            ),
            (
                Some(in_dns_https_positive_v6_hints()),
                Some(out_attempt_v6(3, ConnectionAttemptProtocol::H3)),
            ),
        ],
        now,
    );
}

/// AAAA and A queries still go out for discovered TargetNames.
#[test]
fn https_hints_still_query_a_aaaa() {
    let (now, mut he) = setup();

    expect(
        &mut he,
        vec![
            (None, Some(out_send_dns_https())),
            (None, Some(out_send_dns_aaaa())),
            (None, Some(out_send_dns_a())),
            (
                Some(in_dns_https_positive_svc1()),
                Some(Output::SendDnsQuery {
                    id: Id(3),
                    hostname: "svc1.example.com.".into(),
                    record_type: DnsRecordType::Aaaa,
                }),
            ),
            (
                None,
                Some(Output::SendDnsQuery {
                    id: Id(4),
                    hostname: "svc1.example.com.".into(),
                    record_type: DnsRecordType::A,
                }),
            ),
        ],
        now,
    );
}

#[test]
fn multiple_ips_per_record() {
    let (mut now, mut he) = setup();

    expect(
        &mut he,
        vec![
            (None, Some(out_send_dns_https())),
            (None, Some(out_send_dns_aaaa())),
            (None, Some(out_send_dns_a())),
            (
                Some(in_dns_https_negative()),
                Some(out_resolution_timer(RESOLUTION_DELAY)),
            ),
            (
                Some(in_dns_a_negative()),
                Some(out_resolution_timer(RESOLUTION_DELAY)),
            ),
            (
                Some(Input::DnsResponse(DnsResponse {
                    id: Id(AAAA_ID),
                    target_name: HOSTNAME.into(),
                    inner: DnsResponseInner::Aaaa(Ok(vec![v6_addr(), v6_addr_2(), v6_addr_3()])),
                })),
                Some(out_attempt_v6(3, ConnectionAttemptProtocol::H2OrH1)),
            ),
        ],
        now,
    );

    now += CONNECTION_ATTEMPT_DELAY;

    expect(
        &mut he,
        vec![(
            None,
            Some(Output::AttemptConnection {
                id: Id(4),
                endpoint: Endpoint::new(
                    SocketAddress::new(IpAddress::V6(v6_addr_2()), PORT),
                    ConnectionAttemptProtocol::H2OrH1,
                    None,
                ),
            }),
        )],
        now,
    );
}

/// No second attempt before the Connection Attempt Delay has passed.
#[test]
fn connection_attempt_delay() {
    let (mut now, mut he) = setup();

    expect(
        &mut he,
        vec![
            (None, Some(out_send_dns_https())),
            (None, Some(out_send_dns_aaaa())),
            (None, Some(out_send_dns_a())),
            (
                Some(in_dns_https_positive()),
                Some(out_resolution_timer(RESOLUTION_DELAY)),
            ),
            (
                Some(in_dns_aaaa_positive()),
                Some(out_attempt_v6(3, ConnectionAttemptProtocol::H3)),
            ),
            (
                Some(in_dns_a_positive()),
                Some(out_attempt_timer(CONNECTION_ATTEMPT_DELAY)),
            ),
        ],
        now,
    );

    now += CONNECTION_ATTEMPT_DELAY;

    expect(
        &mut he,
        vec![(None, Some(out_attempt_v4(4, ConnectionAttemptProtocol::H3)))],
        now,
    );
}

#[test]
fn never_try_same_attempt_twice() {
    let (mut now, mut he) = setup();

    expect(
        &mut he,
        vec![
            (None, Some(out_send_dns_https())),
            (None, Some(out_send_dns_aaaa())),
            (None, Some(out_send_dns_a())),
            (
                Some(in_dns_https_negative()),
                Some(out_resolution_timer(RESOLUTION_DELAY)),
            ),
            (
                Some(in_dns_a_negative()),
                Some(out_resolution_timer(RESOLUTION_DELAY)),
            ),
            (
                Some(in_dns_aaaa_positive()),
                Some(out_attempt_v6(3, ConnectionAttemptProtocol::H2OrH1)),
            ),
        ],
        now,
    );

    now += CONNECTION_ATTEMPT_DELAY;

    expect(&mut he, vec![(None, None)], now);
}
