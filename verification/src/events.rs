//! The event vocabulary: inputs the caller feeds the engine, outputs the
//! engine asks the caller to perform, and the value types they carry.

use vstd::prelude::*;

use crate::addr::Ipv4Address;
use crate::addr::Ipv6Address;
use crate::addr::SocketAddress;
use crate::id::Id;
use crate::name::TargetName;
use crate::proto::AlpnProtocol;
use crate::proto::ConnectionAttemptProtocol;
use crate::proto::DnsRecordType;
use crate::proto::TimerType;

verus! {

/// Copies an optional byte string.
pub(crate) fn clone_opt_bytes(b: &Option<Vec<u8>>) -> (r: Option<Vec<u8>>)
    ensures
        opt_bytes_view(&r) == opt_bytes_view(b),
{
    match b {
        Some(v) => {
            let c = v.clone();
            proof {
                assert(c@ =~= v@);
            }
            Some(c)
        },
        None => None,
    }
}

/// Compares two optional byte strings by value.
pub(crate) fn opt_bytes_eq(a: &Option<Vec<u8>>, b: &Option<Vec<u8>>) -> (r: bool)
    ensures
        r == (opt_bytes_view(a) == opt_bytes_view(b)),
{
    match (a, b) {
        (None, None) => true,
        (Some(x), Some(y)) => {
            if x.len() != y.len() {
                proof {
                    assert(x@ != y@);
                }
                false
            } else {
                let mut i: usize = 0;
                while i < x.len()
                    invariant
                        i <= x.len(),
                        x@.len() == y@.len(),
                        forall|j: int| 0 <= j < i ==> x@[j] == y@[j],
                    decreases x@.len() - i,
                {
                    if x[i] != y[i] {
                        proof {
                            assert(x@ != y@);
                        }
                        return false;
                    }
                    i = i + 1;
                }
                proof {
                    assert(x@ =~= y@);
                }
                true
            }
        },
        _ => false,
    }
}

/// The view of an optional byte string.
pub open spec fn opt_bytes_view(b: &Option<Vec<u8>>) -> Option<Seq<u8>> {
    match b {
        Some(v) => Some(v@),
        None => None,
    }
}

/// Service information from one parsed SVCB/HTTPS record.
#[derive(Debug, PartialEq)]
pub struct ServiceInfo {
    /// The record's service priority.
    pub priority: u16,
    /// The service's target name.
    pub target_name: TargetName,
    /// The ALPN protocols the service offers.
    pub alpn_protocols: Vec<AlpnProtocol>,
    /// Encrypted Client Hello configuration, opaque to the engine.
    pub ech_config: Option<Vec<u8>>,
    /// IPv4 address hints.
    pub ipv4_hints: Vec<Ipv4Address>,
    /// IPv6 address hints.
    pub ipv6_hints: Vec<Ipv6Address>,
}

/// The view of one SVCB/HTTPS record.
pub struct ServiceInfoView {
    pub priority: u16,
    pub target_name: Seq<char>,
    pub alpn_protocols: Seq<AlpnProtocol>,
    pub ech_config: Option<Seq<u8>>,
    pub ipv4_hints: Seq<Ipv4Address>,
    pub ipv6_hints: Seq<Ipv6Address>,
}

impl Clone for ServiceInfo {
    fn clone(&self) -> (r: Self)
        ensures
            r@ == self@,
    {
        let alpn_protocols = clone_copy_vec(&self.alpn_protocols);
        let ipv4_hints = clone_copy_vec(&self.ipv4_hints);
        let ipv6_hints = clone_copy_vec(&self.ipv6_hints);
        ServiceInfo {
            priority: self.priority,
            target_name: self.target_name.clone(),
            alpn_protocols,
            ech_config: clone_opt_bytes(&self.ech_config),
            ipv4_hints,
            ipv6_hints,
        }
    }
}

/// Copies a vector of plain copyable values.
pub(crate) fn clone_copy_vec<T: Copy>(v: &Vec<T>) -> (r: Vec<T>)
    ensures
        r@ == v@,
{
    let mut r: Vec<T> = Vec::new();
    let mut i: usize = 0;
    while i < v.len()
        invariant
            i <= v.len(),
            r@ == v@.take(i as int),
        decreases v@.len() - i,
    {
        r.push(v[i]);
        proof {
            assert(r@ =~= v@.take(i + 1 as int));
        }
        i = i + 1;
    }
    proof {
        assert(v@.take(v@.len() as int) =~= v@);
    }
    r
}

impl View for ServiceInfo {
    type V = ServiceInfoView;

    open spec fn view(&self) -> ServiceInfoView {
        ServiceInfoView {
            priority: self.priority,
            target_name: self.target_name@,
            alpn_protocols: self.alpn_protocols@,
            ech_config: opt_bytes_view(&self.ech_config),
            ipv4_hints: self.ipv4_hints@,
            ipv6_hints: self.ipv6_hints@,
        }
    }
}

/// The payload of a completed DNS query, one variant per record type; each
/// is either positive (`Ok`) or negative (`Err`).
#[derive(Debug, PartialEq)]
pub enum DnsResponseInner {
    Https(Result<Vec<ServiceInfo>, ()>),
    Aaaa(Result<Vec<Ipv6Address>, ()>),
    A(Result<Vec<Ipv4Address>, ()>),
}

/// The view of a completed DNS query's payload.
pub enum DnsDataView {
    Https(Result<Seq<ServiceInfoView>, ()>),
    Aaaa(Result<Seq<Ipv6Address>, ()>),
    A(Result<Seq<Ipv4Address>, ()>),
}

impl DnsDataView {
    /// The record type this payload answers.
    pub open spec fn record_type(self) -> DnsRecordType {
        match self {
            DnsDataView::Https(_) => DnsRecordType::Https,
            DnsDataView::Aaaa(_) => DnsRecordType::Aaaa,
            DnsDataView::A(_) => DnsRecordType::A,
        }
    }

    /// Whether this payload is a positive answer.
    pub open spec fn positive(self) -> bool {
        match self {
            DnsDataView::Https(r) => r is Ok,
            DnsDataView::Aaaa(r) => r is Ok,
            DnsDataView::A(r) => r is Ok,
        }
    }
}

impl Clone for DnsResponseInner {
    fn clone(&self) -> (r: Self)
        ensures
            r@ == self@,
    {
        match self {
            DnsResponseInner::Https(Ok(infos)) => {
                let mut r: Vec<ServiceInfo> = Vec::new();
                let mut i: usize = 0;
                while i < infos.len()
                    invariant
                        i <= infos.len(),
                        r@.len() == i,
                        forall|j: int| 0 <= j < i ==> r@[j]@ == infos@[j]@,
                    decreases infos@.len() - i,
                {
                    r.push(infos[i].clone());
                    i = i + 1;
                }
                proof {
                    assert(r@.map_values(|si: ServiceInfo| si@) =~= infos@.map_values(
                        |si: ServiceInfo| si@,
                    ));
                }
                DnsResponseInner::Https(Ok(r))
            },
            DnsResponseInner::Https(Err(())) => DnsResponseInner::Https(Err(())),
            DnsResponseInner::Aaaa(Ok(addrs)) => DnsResponseInner::Aaaa(Ok(clone_copy_vec(addrs))),
            DnsResponseInner::Aaaa(Err(())) => DnsResponseInner::Aaaa(Err(())),
            DnsResponseInner::A(Ok(addrs)) => DnsResponseInner::A(Ok(clone_copy_vec(addrs))),
            DnsResponseInner::A(Err(())) => DnsResponseInner::A(Err(())),
        }
    }
}

impl View for DnsResponseInner {
    type V = DnsDataView;

    open spec fn view(&self) -> DnsDataView {
        match self {
            DnsResponseInner::Https(Ok(infos)) => DnsDataView::Https(
                Ok(infos@.map_values(|i: ServiceInfo| i@)),
            ),
            DnsResponseInner::Https(Err(())) => DnsDataView::Https(Err(())),
            DnsResponseInner::Aaaa(Ok(addrs)) => DnsDataView::Aaaa(Ok(addrs@)),
            DnsResponseInner::Aaaa(Err(())) => DnsDataView::Aaaa(Err(())),
            DnsResponseInner::A(Ok(addrs)) => DnsDataView::A(Ok(addrs@)),
            DnsResponseInner::A(Err(())) => DnsDataView::A(Err(())),
        }
    }
}

impl DnsResponseInner {
    /// The record type this payload answers.
    pub fn record_type(&self) -> (r: DnsRecordType)
        ensures
            r == self@.record_type(),
    {
        match self {
            DnsResponseInner::Https(_) => DnsRecordType::Https,
            DnsResponseInner::Aaaa(_) => DnsRecordType::Aaaa,
            DnsResponseInner::A(_) => DnsRecordType::A,
        }
    }

    /// Whether this payload is a positive answer.
    pub fn positive(&self) -> (r: bool)
        ensures
            r == self@.positive(),
    {
        match self {
            DnsResponseInner::Https(r) => r.is_ok(),
            DnsResponseInner::Aaaa(r) => r.is_ok(),
            DnsResponseInner::A(r) => r.is_ok(),
        }
    }
}

/// A DNS query result delivered by the caller, correlated by identifier.
#[derive(Debug, PartialEq)]
pub struct DnsResponse {
    /// The identifier of the `SendDnsQuery` output being answered.
    pub id: Id,
    /// The name the answer is for.
    pub target_name: TargetName,
    /// The payload.
    pub inner: DnsResponseInner,
}

/// The view of a DNS query result.
pub struct DnsResponseView {
    pub id: Id,
    pub target_name: Seq<char>,
    pub inner: DnsDataView,
}

impl Clone for DnsResponse {
    fn clone(&self) -> (r: Self)
        ensures
            r@ == self@,
    {
        DnsResponse {
            id: self.id,
            target_name: self.target_name.clone(),
            inner: self.inner.clone(),
        }
    }
}

impl View for DnsResponse {
    type V = DnsResponseView;

    open spec fn view(&self) -> DnsResponseView {
        DnsResponseView { id: self.id, target_name: self.target_name@, inner: self.inner@ }
    }
}

impl DnsResponse {
    /// The record type this result answers.
    pub fn record_type(&self) -> (r: DnsRecordType)
        ensures
            r == self@.inner.record_type(),
    {
        self.inner.record_type()
    }

    /// Whether this result is a positive answer.
    pub fn positive(&self) -> (r: bool)
        ensures
            r == self@.inner.positive(),
    {
        self.inner.positive()
    }
}

/// A candidate attempt target: socket address, protocol compound, and the
/// Encrypted Client Hello configuration to offer, if any.
///
/// Two endpoints are equal exactly when all three parts are equal.
#[derive(Debug)]
pub struct Endpoint {
    /// The socket address to connect to.
    pub address: SocketAddress,
    /// The protocol the attempt is made with.
    pub protocol: ConnectionAttemptProtocol,
    /// Encrypted Client Hello configuration to offer.
    pub ech_config: Option<Vec<u8>>,
}

/// The view of a candidate attempt target.
pub struct EndpointView {
    pub address: SocketAddress,
    pub protocol: ConnectionAttemptProtocol,
    pub ech_config: Option<Seq<u8>>,
}

impl View for Endpoint {
    type V = EndpointView;

    open spec fn view(&self) -> EndpointView {
        EndpointView {
            address: self.address,
            protocol: self.protocol,
            ech_config: opt_bytes_view(&self.ech_config),
        }
    }
}

impl Endpoint {
    /// Builds an endpoint from its three parts.
    pub fn new(
        address: SocketAddress,
        protocol: ConnectionAttemptProtocol,
        ech_config: Option<Vec<u8>>,
    ) -> (r: Self)
        ensures
            r@ == (EndpointView { address, protocol, ech_config: opt_bytes_view(&ech_config) }),
    {
        Endpoint { address, protocol, ech_config }
    }
}

impl Clone for Endpoint {
    fn clone(&self) -> (r: Self)
        ensures
            r@ == self@,
    {
        Endpoint {
            address: self.address,
            protocol: self.protocol,
            ech_config: clone_opt_bytes(&self.ech_config),
        }
    }
}

impl PartialEq for Endpoint {
    fn eq(&self, other: &Self) -> (r: bool) {
        self.address == other.address && self.protocol == other.protocol && opt_bytes_eq(
            &self.ech_config,
            &other.ech_config,
        )
    }
}

impl vstd::std_specs::cmp::PartialEqSpecImpl for Endpoint {
    open spec fn obeys_eq_spec() -> bool {
        true
    }

    open spec fn eq_spec(&self, other: &Self) -> bool {
        self@ == other@
    }
}

/// Input events to the engine.
#[derive(Debug, PartialEq)]
pub enum Input {
    /// A DNS query result, positive or negative, for an issued query.
    DnsResponse(DnsResponse),
    /// The outcome of a previously requested connection attempt.
    ConnectionResult { id: Id, result: Result<(), String> },
}

/// The view of an input event.
pub enum InputView {
    DnsResponse(DnsResponseView),
    ConnectionResult { id: Id, result: Result<(), Seq<char>> },
}

impl Clone for Input {
    fn clone(&self) -> (r: Self)
        ensures
            r@ == self@,
    {
        match self {
            Input::DnsResponse(r) => Input::DnsResponse(r.clone()),
            Input::ConnectionResult { id, result } => Input::ConnectionResult {
                id: *id,
                result: match result {
                    Ok(()) => Ok(()),
                    Err(e) => Err(e.clone()),
                },
            },
        }
    }
}

impl View for Input {
    type V = InputView;

    open spec fn view(&self) -> InputView {
        match self {
            Input::DnsResponse(r) => InputView::DnsResponse(r@),
            Input::ConnectionResult { id, result } => InputView::ConnectionResult {
                id: *id,
                result: match result {
                    Ok(()) => Ok(()),
                    Err(e) => Err(e@),
                },
            },
        }
    }
}

/// Output events from the engine.
#[derive(Debug, Clone, PartialEq)]
pub enum Output {
    /// The caller must issue this DNS query and report back with the same
    /// identifier.
    SendDnsQuery { id: Id, hostname: TargetName, record_type: DnsRecordType },
    /// The caller must attempt a connection and report the result with the
    /// same identifier.
    AttemptConnection { id: Id, endpoint: Endpoint },
    /// A previously requested attempt should be aborted; no reply expected.
    CancelConnection(SocketAddress),
    /// The caller should wake the engine no later than `duration`
    /// milliseconds after the `now` it just passed in.
    StartTimer { timer_type: TimerType, duration: u64 },
    /// Terminal: a connection is established.
    Succeeded,
    /// Terminal: all avenues exhausted.
    Failed,
}

/// The view of an output event.
pub enum OutputView {
    SendDnsQuery { id: Id, hostname: Seq<char>, record_type: DnsRecordType },
    AttemptConnection { id: Id, endpoint: EndpointView },
    CancelConnection(SocketAddress),
    StartTimer { timer_type: TimerType, duration: u64 },
    Succeeded,
    Failed,
}

impl View for Output {
    type V = OutputView;

    open spec fn view(&self) -> OutputView {
        match self {
            Output::SendDnsQuery { id, hostname, record_type } => OutputView::SendDnsQuery {
                id: *id,
                hostname: hostname@,
                record_type: *record_type,
            },
            Output::AttemptConnection { id, endpoint } => OutputView::AttemptConnection {
                id: *id,
                endpoint: endpoint@,
            },
            Output::CancelConnection(a) => OutputView::CancelConnection(*a),
            Output::StartTimer { timer_type, duration } => OutputView::StartTimer {
                timer_type: *timer_type,
                duration: *duration,
            },
            Output::Succeeded => OutputView::Succeeded,
            Output::Failed => OutputView::Failed,
        }
    }
}

} // verus!
