//! Immutable operating configuration: HTTP version mask, address family
//! preference and caller-supplied alt-service hints.

use vstd::prelude::*;

use crate::name::TargetName;
use crate::proto::AlpnProtocol;
use crate::proto::DnsRecordType;

verus! {

/// Configuration for supported HTTP versions.
#[derive(Debug, Clone, Copy, PartialEq, Eq, Structural, Hash)]
pub struct HttpVersions {
    /// Whether HTTP/1.1 is enabled.
    pub h1: bool,
    /// Whether HTTP/2 is enabled.
    pub h2: bool,
    /// Whether HTTP/3 is enabled.
    pub h3: bool,
}

impl Default for HttpVersions {
    /// All versions are enabled by default.
    fn default() -> (r: Self)
        ensures
            r == (HttpVersions { h1: true, h2: true, h3: true }),
    {
        Self { h1: true, h2: true, h3: true }
    }
}

/// IP connectivity and preference mode.
#[derive(Debug, Clone, Copy, PartialEq, Eq, Structural, Hash)]
pub enum IpPreference {
    /// Dual-stack available, prefer IPv6 over IPv4.
    DualStackPreferV6,
    /// Dual-stack available, prefer IPv4 over IPv6.
    DualStackPreferV4,
    /// IPv6-only network.
    Ipv6Only,
    /// IPv4-only network.
    Ipv4Only,
}

/// Whether the preference mode favours IPv6.
pub open spec fn spec_prefer_v6(ip: IpPreference) -> bool {
    ip is DualStackPreferV6 || ip is Ipv6Only
}

/// The address record type the preference mode favours.
pub open spec fn spec_preferred_dns_record_type(ip: IpPreference) -> DnsRecordType {
    if spec_prefer_v6(ip) {
        DnsRecordType::Aaaa
    } else {
        DnsRecordType::A
    }
}

/// One alt-service hint supplied by the caller from an earlier connection.
///
/// Entries carrying a host or port override are not yet supported by the
/// engine; constructors reject them.
#[derive(Debug, Clone, PartialEq)]
pub struct AltSvcHint {
    /// Optional host override.
    pub host: Option<TargetName>,
    /// Optional port override.
    pub port: Option<u16>,
    /// The protocol the service was reachable with.
    pub protocol: AlpnProtocol,
}

/// The view of one alt-service hint.
pub struct AltSvcHintView {
    pub host: Option<Seq<char>>,
    pub port: Option<u16>,
    pub protocol: AlpnProtocol,
}

impl View for AltSvcHint {
    type V = AltSvcHintView;

    open spec fn view(&self) -> AltSvcHintView {
        AltSvcHintView {
            host: match self.host {
                Some(ref h) => Some(h@),
                None => None,
            },
            port: self.port,
            protocol: self.protocol,
        }
    }
}

/// Network configuration for the engine's behaviour.
#[derive(Debug, Clone, PartialEq)]
pub struct NetworkConfig {
    /// Supported HTTP versions.
    pub http_versions: HttpVersions,
    /// IP connectivity and preference.
    pub ip: IpPreference,
    /// Alt-service hints from earlier connections.
    pub alt_svc: Vec<AltSvcHint>,
}

/// The view of a network configuration.
pub struct NetworkConfigView {
    pub http_versions: HttpVersions,
    pub ip: IpPreference,
    pub alt_svc: Seq<AltSvcHintView>,
}

impl View for NetworkConfig {
    type V = NetworkConfigView;

    open spec fn view(&self) -> NetworkConfigView {
        NetworkConfigView {
            http_versions: self.http_versions,
            ip: self.ip,
            alt_svc: self.alt_svc@.map_values(|h: AltSvcHint| h@),
        }
    }
}

/// The view of the default network configuration: all HTTP versions
/// enabled, dual stack preferring IPv6, no hints.
pub open spec fn default_config_view() -> NetworkConfigView {
    NetworkConfigView {
        http_versions: HttpVersions { h1: true, h2: true, h3: true },
        ip: IpPreference::DualStackPreferV6,
        alt_svc: Seq::empty(),
    }
}

impl Default for NetworkConfig {
    /// All HTTP versions enabled, dual stack preferring IPv6, no hints.
    fn default() -> (r: Self)
        ensures
            r@ == default_config_view(),
            r.alt_svc@.len() == 0,
    {
        let r = NetworkConfig {
            http_versions: HttpVersions::default(),
            ip: IpPreference::DualStackPreferV6,
            alt_svc: Vec::new(),
        };
        proof {
            assert(r.alt_svc@.map_values(|h: AltSvcHint| h@) =~= Seq::<AltSvcHintView>::empty());
        }
        r
    }
}

impl NetworkConfig {
    /// Whether the configured preference favours IPv6.
    pub fn prefer_v6(&self) -> (r: bool)
        ensures
            r == spec_prefer_v6(self.ip),
    {
        match self.ip {
            IpPreference::DualStackPreferV6 | IpPreference::Ipv6Only => true,
            IpPreference::DualStackPreferV4 | IpPreference::Ipv4Only => false,
        }
    }

    /// The address record type the configured preference favours.
    pub fn preferred_dns_record_type(&self) -> (r: DnsRecordType)
        ensures
            r == spec_preferred_dns_record_type(self.ip),
    {
        match self.ip {
            IpPreference::DualStackPreferV6 | IpPreference::Ipv6Only => DnsRecordType::Aaaa,
            IpPreference::DualStackPreferV4 | IpPreference::Ipv4Only => DnsRecordType::A,
        }
    }
}

} // verus!
