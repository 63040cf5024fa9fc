//! The mathematical model of the engine: its state viewed as sequences of
//! ledger entries, and the transition function that every call of
//! [`crate::HappyEyeballs::process`] is proved to follow.

use vstd::prelude::*;

use crate::addr::IpAddress;
use crate::addr::SocketAddress;
use crate::config::NetworkConfigView;
use crate::config::spec_prefer_v6;
use crate::config::spec_preferred_dns_record_type;
use crate::events::DnsDataView;
use crate::events::DnsResponseView;
use crate::events::EndpointView;
use crate::events::InputView;
use crate::events::OutputView;
use crate::events::ServiceInfoView;
use crate::host::HostView;
use crate::id::Id;
use crate::ledger::AttemptStatus;
use crate::ledger::AttemptView;
use crate::ledger::QueryStatusView;
use crate::ledger::QueryView;
use crate::proto::AlpnProtocol;
use crate::proto::ConnectionAttemptProtocol;
use crate::proto::DnsRecordType;
use crate::proto::TimerType;

verus! {

/// Milliseconds the engine waits for further DNS answers after the first
/// one arrives before acting on a partial picture.
pub const RESOLUTION_DELAY: u64 = 50;

/// Minimum milliseconds between successive connection attempts.
pub const CONNECTION_ATTEMPT_DELAY: u64 = 250;

/// The terminal report the engine has made, if any.
#[derive(Debug, Clone, Copy, PartialEq, Eq, Structural, Hash)]
pub enum Terminal {
    /// A connection was established.
    Succeeded,
    /// All avenues were exhausted.
    Failed,
}

/// The engine's whole state as mathematical values.
#[verifier::ext_equal]
pub struct EngineView {
    /// The DNS ledger, in order of emission.
    pub queries: Seq<QueryView>,
    /// The attempt ledger, in order of emission.
    pub attempts: Seq<AttemptView>,
    /// The immutable configuration.
    pub config: NetworkConfigView,
    /// The target host.
    pub host: HostView,
    /// The target port.
    pub port: u16,
    /// The next identifier to mint.
    pub next_id: u64,
    /// The terminal report already made, if any.
    pub terminal: Option<Terminal>,
}

/// The state a freshly constructed engine has.
pub open spec fn initial_state(host: HostView, port: u16, config: NetworkConfigView) -> EngineView {
    EngineView {
        queries: Seq::empty(),
        attempts: Seq::empty(),
        config,
        host,
        port,
        next_id: 0,
        terminal: None,
    }
}

/// The rank of a record type in the mandated query order
/// HTTPS, then AAAA, then A.
pub open spec fn rt_rank(rt: DnsRecordType) -> int {
    match rt {
        DnsRecordType::Https => 0,
        DnsRecordType::Aaaa => 1,
        DnsRecordType::A => 2,
    }
}

/// Well-formedness of an engine state: identifiers are unique and below the
/// mint counter, queries for one name appear in record-type order, and no
/// two attempts share an endpoint.
pub open spec fn wf(s: EngineView) -> bool {
    &&& (forall|i: int, j: int|
        0 <= i < j < s.queries.len() ==> (#[trigger] s.queries[i]).id != (
        #[trigger] s.queries[j]).id)
    &&& (forall|i: int, j: int|
        0 <= i < j < s.attempts.len() ==> (#[trigger] s.attempts[i]).id != (
        #[trigger] s.attempts[j]).id)
    &&& (forall|i: int, j: int|
        0 <= i < s.queries.len() && 0 <= j < s.attempts.len() ==> (#[trigger] s.queries[i]).id != (
        #[trigger] s.attempts[j]).id)
    &&& (forall|i: int| 0 <= i < s.queries.len() ==> (#[trigger] s.queries[i]).id.0 < s.next_id)
    &&& (forall|i: int| 0 <= i < s.attempts.len() ==> (#[trigger] s.attempts[i]).id.0 < s.next_id)
    &&& (forall|i: int, j: int|
        0 <= i < j < s.queries.len() && (#[trigger] s.queries[i]).target_name == (
        #[trigger] s.queries[j]).target_name ==> rt_rank(s.queries[i].record_type) < rt_rank(
            s.queries[j].record_type,
        ))
    &&& (forall|i: int, j: int|
        0 <= i < j < s.attempts.len() ==> (#[trigger] s.attempts[i]).endpoint != (
        #[trigger] s.attempts[j]).endpoint)
    &&& (forall|i: int|
        0 <= i < s.queries.len() && (#[trigger] s.queries[i]).record_type == DnsRecordType::Aaaa
            && is_primary(s, s.queries[i]) ==> has_query(
            s,
            s.queries[i].target_name,
            DnsRecordType::Https,
        ))
    &&& (forall|i: int|
        0 <= i < s.queries.len() && (#[trigger] s.queries[i]).record_type == DnsRecordType::A
            ==> has_query(s, s.queries[i].target_name, DnsRecordType::Aaaa))
    &&& (forall|i: int|
        0 <= i < s.queries.len() && (#[trigger] s.queries[i]).record_type == DnsRecordType::Https
            ==> is_primary(s, s.queries[i]))
}

/// The timestamp a query entry carries.
pub open spec fn query_time(q: QueryView) -> u64 {
    match q.status {
        QueryStatusView::InProgress { started } => started,
        QueryStatusView::Completed { completed, .. } => completed,
    }
}

/// Every timestamp recorded in the state is at most `t`: the state was
/// built by calls whose `now` never exceeded `t`.
pub open spec fn times_le(s: EngineView, t: u64) -> bool {
    &&& (forall|i: int| 0 <= i < s.queries.len() ==> query_time(#[trigger] s.queries[i]) <= t)
    &&& (forall|i: int| 0 <= i < s.attempts.len() ==> (#[trigger] s.attempts[i]).started <= t)
}

/// Recorded timestamps stay in the past as time advances.
pub proof fn lemma_times_le_mono(s: EngineView, t1: u64, t2: u64)
    requires
        times_le(s, t1),
        t1 <= t2,
    ensures
        times_le(s, t2),
{
}

// ---------------------------------------------------------------------
// Applying an input to the ledgers
// ---------------------------------------------------------------------
/// The DNS ledger after a DNS result arrives: the in-progress entry whose
/// identifier, record type and name all match is completed at `now`; any
/// other result is dropped.
pub open spec fn complete_query(qs: Seq<QueryView>, r: DnsResponseView, now: u64) -> Seq<
    QueryView,
> {
    Seq::new(
        qs.len(),
        |i: int|
            if qs[i].id == r.id && qs[i].status is InProgress && qs[i].record_type
                == r.inner.record_type() && qs[i].target_name == r.target_name {
                QueryView {
                    id: qs[i].id,
                    target_name: qs[i].target_name,
                    record_type: qs[i].record_type,
                    status: QueryStatusView::Completed { completed: now, data: r.inner },
                }
            } else {
                qs[i]
            },
    )
}

/// The attempt ledger after a connection outcome arrives: the in-progress
/// entry with the matching identifier succeeds or fails; any other outcome
/// is dropped.
pub open spec fn resolve_attempt(ats: Seq<AttemptView>, id: Id, ok: bool) -> Seq<AttemptView> {
    Seq::new(
        ats.len(),
        |i: int|
            if ats[i].id == id && ats[i].status is InProgress {
                AttemptView {
                    id: ats[i].id,
                    endpoint: ats[i].endpoint,
                    started: ats[i].started,
                    status: if ok {
                        AttemptStatus::Succeeded
                    } else {
                        AttemptStatus::Failed
                    },
                }
            } else {
                ats[i]
            },
    )
}

/// Folds an input event into the ledgers.
pub open spec fn apply_input(s: EngineView, input: Option<InputView>, now: u64) -> EngineView {
    match input {
        None => s,
        Some(InputView::DnsResponse(r)) => EngineView {
            queries: complete_query(s.queries, r, now),
            ..s
        },
        Some(InputView::ConnectionResult { id, result }) => EngineView {
            attempts: resolve_attempt(s.attempts, id, result is Ok),
            ..s
        },
    }
}

// ---------------------------------------------------------------------
// Readiness
// ---------------------------------------------------------------------
/// The primary target's name; only meaningful when the host is a name.
pub open spec fn primary_name(s: EngineView) -> Seq<char> {
    s.host->Name_0
}

/// Whether this query is about the primary target.
pub open spec fn is_primary(s: EngineView, q: QueryView) -> bool {
    s.host is Name && q.target_name == primary_name(s)
}

/// A completed answer that counts as positive address evidence: a
/// non-empty AAAA or A answer, or an HTTPS answer carrying address hints.
pub open spec fn positive_addr_evidence(q: QueryView) -> bool {
    match q.status {
        QueryStatusView::Completed { data, .. } => match data {
            DnsDataView::Aaaa(Ok(addrs)) => addrs.len() > 0,
            DnsDataView::A(Ok(addrs)) => addrs.len() > 0,
            DnsDataView::Https(Ok(infos)) => exists|j: int|
                0 <= j < infos.len() && ((#[trigger] infos[j]).ipv4_hints.len() > 0
                    || infos[j].ipv6_hints.len() > 0),
            _ => false,
        },
        _ => false,
    }
}

/// A completed non-empty AAAA or A answer (hints do not count).
pub open spec fn positive_address_record(q: QueryView) -> bool {
    match q.status {
        QueryStatusView::Completed { data, .. } => match data {
            DnsDataView::Aaaa(Ok(addrs)) => addrs.len() > 0,
            DnsDataView::A(Ok(addrs)) => addrs.len() > 0,
            _ => false,
        },
        _ => false,
    }
}

/// Readiness from evidence alone: some positive address evidence, a
/// completed answer for the preferred family, and a completed HTTPS
/// answer, all for the primary target.
pub open spec fn ready_non_timeout(s: EngineView) -> bool {
    &&& (exists|i: int|
        0 <= i < s.queries.len() && is_primary(s, #[trigger] s.queries[i])
            && positive_addr_evidence(s.queries[i]))
    &&& (exists|i: int|
        0 <= i < s.queries.len() && is_primary(s, #[trigger] s.queries[i])
            && s.queries[i].completed() && s.queries[i].record_type
            == spec_preferred_dns_record_type(s.config.ip))
    &&& (exists|i: int|
        0 <= i < s.queries.len() && is_primary(s, #[trigger] s.queries[i])
            && s.queries[i].completed() && s.queries[i].record_type == DnsRecordType::Https)
}

/// Readiness by timeout: a positive address answer exists and the
/// Resolution Delay has passed since the earliest completed answer.
pub open spec fn ready_timeout(s: EngineView, now: u64) -> bool {
    &&& (exists|i: int|
        0 <= i < s.queries.len() && positive_address_record(#[trigger] s.queries[i]))
    &&& (exists|i: int|
        0 <= i < s.queries.len() && ((#[trigger] s.queries[i]).status matches
        QueryStatusView::Completed { completed, .. } && now >= completed + RESOLUTION_DELAY))
}

/// Whether the engine may move on to planning connection attempts.
pub open spec fn ready(s: EngineView, now: u64) -> bool {
    s.host is Ip || ready_non_timeout(s) || ready_timeout(s, now)
}

// ---------------------------------------------------------------------
// Endpoint planning
// ---------------------------------------------------------------------
/// Whether a completed HTTPS answer of this query offers the ALPN
/// protocol.
pub open spec fn query_offers_alpn(q: QueryView, p: AlpnProtocol) -> bool {
    match q.status {
        QueryStatusView::Completed { data: DnsDataView::Https(Ok(infos)), .. } => exists|j: int|
            0 <= j < infos.len() && (#[trigger] infos[j]).alpn_protocols.contains(p),
        _ => false,
    }
}

/// Whether any completed HTTPS answer offers the ALPN protocol.
pub open spec fn alpn_observed(s: EngineView, p: AlpnProtocol) -> bool {
    exists|i: int| 0 <= i < s.queries.len() && query_offers_alpn(#[trigger] s.queries[i], p)
}

/// Whether a caller-supplied alt-service hint names the protocol.
pub open spec fn alt_svc_offers(s: EngineView, p: AlpnProtocol) -> bool {
    exists|i: int|
        0 <= i < s.config.alt_svc.len() && (#[trigger] s.config.alt_svc[i]).protocol == p
}

/// The effective protocol set, one flag per ALPN protocol. HTTP/2 and
/// HTTP/1.1 over TCP are the standing browsing assumption; HTTP/3 joins
/// only once something has advertised it. The configuration masks each.
pub open spec fn proto_enabled(s: EngineView, p: AlpnProtocol) -> bool {
    match p {
        AlpnProtocol::H3 => s.config.http_versions.h3 && (alpn_observed(s, AlpnProtocol::H3)
            || alt_svc_offers(s, AlpnProtocol::H3)),
        AlpnProtocol::H2 => s.config.http_versions.h2,
        AlpnProtocol::H1 => s.config.http_versions.h1,
    }
}

/// The attempt protocols to try, strongest first. HTTP/2 and HTTP/1.1
/// collapse into one TCP attempt that negotiates either.
pub open spec fn protocol_list(s: EngineView) -> Seq<ConnectionAttemptProtocol> {
    (if proto_enabled(s, AlpnProtocol::H3) {
        seq![ConnectionAttemptProtocol::H3]
    } else {
        Seq::empty()
    }) + (if proto_enabled(s, AlpnProtocol::H2) && proto_enabled(s, AlpnProtocol::H1) {
        seq![ConnectionAttemptProtocol::H2OrH1]
    } else if proto_enabled(s, AlpnProtocol::H2) {
        seq![ConnectionAttemptProtocol::H2]
    } else if proto_enabled(s, AlpnProtocol::H1) {
        seq![ConnectionAttemptProtocol::H1]
    } else {
        Seq::empty()
    })
}

/// The first Encrypted Client Hello configuration among the given records
/// whose target name is the primary target.
pub open spec fn ech_in_infos(infos: Seq<ServiceInfoView>, primary: Seq<char>) -> Option<Seq<u8>>
    decreases infos.len(),
{
    if infos.len() == 0 {
        None
    } else if infos[0].target_name == primary && infos[0].ech_config is Some {
        infos[0].ech_config
    } else {
        ech_in_infos(infos.drop_first(), primary)
    }
}

/// The Encrypted Client Hello configuration a completed positive HTTPS
/// answer of this query contributes.
pub open spec fn ech_of_query(q: QueryView, primary: Seq<char>) -> Option<Seq<u8>> {
    match q.status {
        QueryStatusView::Completed { data: DnsDataView::Https(Ok(infos)), .. } => ech_in_infos(
            infos,
            primary,
        ),
        _ => None,
    }
}

/// The first Encrypted Client Hello configuration among the first `n`
/// ledger entries.
pub open spec fn effective_ech_upto(s: EngineView, n: int) -> Option<Seq<u8>>
    decreases n,
{
    if n <= 0 {
        None
    } else {
        match effective_ech_upto(s, n - 1) {
            Some(e) => Some(e),
            None => if s.host is Name {
                ech_of_query(s.queries[n - 1], primary_name(s))
            } else {
                None
            },
        }
    }
}

/// The Encrypted Client Hello configuration offered on every candidate:
/// the first one found on a completed positive HTTPS record for the
/// primary target.
pub open spec fn effective_ech(s: EngineView) -> Option<Seq<u8>> {
    effective_ech_upto(s, s.queries.len() as int)
}

/// An IP-literal host never yields an Encrypted Client Hello
/// configuration.
pub proof fn lemma_ech_upto_none_ip(s: EngineView, m: int)
    requires
        s.host is Ip,
    ensures
        effective_ech_upto(s, m) is None,
    decreases m,
{
    if m > 0 {
        lemma_ech_upto_none_ip(s, m - 1);
    }
}

/// Once a configuration is found among the first `i` entries, scanning
/// further entries does not change it.
pub proof fn lemma_ech_upto_persists(s: EngineView, i: int, m: int)
    requires
        effective_ech_upto(s, i) is Some,
        i <= m,
    ensures
        effective_ech_upto(s, m) == effective_ech_upto(s, i),
    decreases m - i,
{
    if i < m {
        lemma_ech_upto_persists(s, i, m - 1);
    }
}

/// Whether a positive non-empty AAAA answer exists for the primary target.
pub open spec fn got_positive_aaaa(s: EngineView) -> bool {
    exists|i: int|
        0 <= i < s.queries.len() && is_primary(s, #[trigger] s.queries[i]) && match s.queries[i].status {
            QueryStatusView::Completed { data: DnsDataView::Aaaa(Ok(addrs)), .. } => addrs.len()
                > 0,
            _ => false,
        }
}

/// Whether a positive non-empty A answer exists for the primary target.
pub open spec fn got_positive_a(s: EngineView) -> bool {
    exists|i: int|
        0 <= i < s.queries.len() && is_primary(s, #[trigger] s.queries[i]) && match s.queries[i].status {
            QueryStatusView::Completed { data: DnsDataView::A(Ok(addrs)), .. } => addrs.len() > 0,
            _ => false,
        }
}

/// The IPv6 hints of a record list, in order.
pub open spec fn infos_v6_hints(infos: Seq<ServiceInfoView>) -> Seq<crate::addr::Ipv6Address>
    decreases infos.len(),
{
    if infos.len() == 0 {
        Seq::empty()
    } else {
        infos_v6_hints(infos.drop_last()) + infos.last().ipv6_hints
    }
}

/// The IPv4 hints of a record list, in order.
pub open spec fn infos_v4_hints(infos: Seq<ServiceInfoView>) -> Seq<crate::addr::Ipv4Address>
    decreases infos.len(),
{
    if infos.len() == 0 {
        Seq::empty()
    } else {
        infos_v4_hints(infos.drop_last()) + infos.last().ipv4_hints
    }
}

/// The IPv6 addresses one query contributes to planning: its positive
/// AAAA addresses, or its HTTPS IPv6 hints while no positive AAAA answer
/// has arrived for the primary target.
pub open spec fn query_v6_addrs(s: EngineView, q: QueryView) -> Seq<crate::addr::Ipv6Address> {
    match q.status {
        QueryStatusView::Completed { data: DnsDataView::Aaaa(Ok(addrs)), .. } => addrs,
        QueryStatusView::Completed { data: DnsDataView::Https(Ok(infos)), .. } => if got_positive_aaaa(
            s,
        ) {
            Seq::empty()
        } else {
            infos_v6_hints(infos)
        },
        _ => Seq::empty(),
    }
}

/// The IPv4 addresses one query contributes to planning.
pub open spec fn query_v4_addrs(s: EngineView, q: QueryView) -> Seq<crate::addr::Ipv4Address> {
    match q.status {
        QueryStatusView::Completed { data: DnsDataView::A(Ok(addrs)), .. } => addrs,
        QueryStatusView::Completed { data: DnsDataView::Https(Ok(infos)), .. } => if got_positive_a(
            s,
        ) {
            Seq::empty()
        } else {
            infos_v4_hints(infos)
        },
        _ => Seq::empty(),
    }
}

/// The IPv6 addresses contributed by the first `n` ledger entries.
pub open spec fn v6_addrs_upto(s: EngineView, n: int) -> Seq<crate::addr::Ipv6Address>
    decreases n,
{
    if n <= 0 {
        Seq::empty()
    } else {
        v6_addrs_upto(s, n - 1) + query_v6_addrs(s, s.queries[n - 1])
    }
}

/// The IPv4 addresses contributed by the first `n` ledger entries.
pub open spec fn v4_addrs_upto(s: EngineView, n: int) -> Seq<crate::addr::Ipv4Address>
    decreases n,
{
    if n <= 0 {
        Seq::empty()
    } else {
        v4_addrs_upto(s, n - 1) + query_v4_addrs(s, s.queries[n - 1])
    }
}

/// All candidate IPv6 addresses, in ledger order.
pub open spec fn v6_addrs(s: EngineView) -> Seq<crate::addr::Ipv6Address> {
    v6_addrs_upto(s, s.queries.len() as int)
}

/// All candidate IPv4 addresses, in ledger order.
pub open spec fn v4_addrs(s: EngineView) -> Seq<crate::addr::Ipv4Address> {
    v4_addrs_upto(s, s.queries.len() as int)
}

/// The endpoint built from one address for one protocol.
pub open spec fn endpoint_of(s: EngineView, ip: IpAddress, p: ConnectionAttemptProtocol) -> EndpointView {
    EndpointView {
        address: SocketAddress { ip, port: s.port },
        protocol: p,
        ech_config: effective_ech(s),
    }
}

/// The candidates of one protocol: both families' addresses, the
/// preferred family first.
pub open spec fn proto_candidates(s: EngineView, p: ConnectionAttemptProtocol) -> Seq<
    EndpointView,
> {
    let v6e = v6_addrs(s).map_values(
        |a: crate::addr::Ipv6Address| endpoint_of(s, IpAddress::V6(a), p),
    );
    let v4e = v4_addrs(s).map_values(
        |a: crate::addr::Ipv4Address| endpoint_of(s, IpAddress::V4(a), p),
    );
    if spec_prefer_v6(s.config.ip) {
        v6e + v4e
    } else {
        v4e + v6e
    }
}

/// The candidates of the first `n` protocols of the protocol list.
pub open spec fn candidates_upto(s: EngineView, n: int) -> Seq<EndpointView>
    decreases n,
{
    if n <= 0 {
        Seq::empty()
    } else {
        candidates_upto(s, n - 1) + proto_candidates(s, protocol_list(s)[n - 1])
    }
}

/// The sorted candidate list: for a name, every address under every
/// effective protocol, protocol rank first and preferred family next; for
/// an IP literal, that address under the strongest effective protocol.
pub open spec fn candidates(s: EngineView) -> Seq<EndpointView> {
    match s.host {
        HostView::Ip(ip) => if protocol_list(s).len() == 0 {
            Seq::empty()
        } else {
            seq![
                EndpointView {
                    address: SocketAddress { ip, port: s.port },
                    protocol: protocol_list(s)[0],
                    ech_config: None,
                },
            ]
        },
        HostView::Name(_) => candidates_upto(s, protocol_list(s).len() as int),
    }
}

/// Whether an endpoint equals some existing attempt's endpoint.
pub open spec fn attempted(s: EngineView, e: EndpointView) -> bool {
    exists|i: int| 0 <= i < s.attempts.len() && (#[trigger] s.attempts[i]).endpoint == e
}

/// The first endpoint of `c` that has not been attempted yet.
pub open spec fn first_unattempted(s: EngineView, c: Seq<EndpointView>) -> Option<EndpointView>
    decreases c.len(),
{
    if c.len() == 0 {
        None
    } else if !attempted(s, c[0]) {
        Some(c[0])
    } else {
        first_unattempted(s, c.drop_first())
    }
}

/// The endpoint the planner yields: the first candidate not yet attempted.
pub open spec fn next_endpoint(s: EngineView) -> Option<EndpointView> {
    first_unattempted(s, candidates(s))
}

// ---------------------------------------------------------------------
// Attempt staggering and timers
// ---------------------------------------------------------------------
/// Whether this attempt is in progress and still within its Connection
/// Attempt Delay window.
pub open spec fn in_cad_window(a: AttemptView, now: u64) -> bool {
    a.status is InProgress && now < a.started + CONNECTION_ATTEMPT_DELAY
}

/// No in-progress attempt is younger than the Connection Attempt Delay.
pub open spec fn stagger_clear(s: EngineView, now: u64) -> bool {
    forall|i: int| 0 <= i < s.attempts.len() ==> !in_cad_window(#[trigger] s.attempts[i], now)
}

/// Whether some DNS query is still unanswered.
pub open spec fn dns_pending(s: EngineView) -> bool {
    exists|i: int| 0 <= i < s.queries.len() && (#[trigger] s.queries[i]).status is InProgress
}

/// Whether some connection attempt is still undecided.
pub open spec fn attempt_pending(s: EngineView) -> bool {
    exists|i: int| 0 <= i < s.attempts.len() && (#[trigger] s.attempts[i]).status is InProgress
}

/// Whether some attempt has succeeded.
pub open spec fn has_succeeded(s: EngineView) -> bool {
    exists|i: int| 0 <= i < s.attempts.len() && (#[trigger] s.attempts[i]).status is Succeeded
}

/// The latest start time among the first `n` in-progress attempts.
pub open spec fn latest_start_upto(s: EngineView, n: int) -> Option<u64>
    decreases n,
{
    if n <= 0 {
        None
    } else {
        let prev = latest_start_upto(s, n - 1);
        if s.attempts[n - 1].status is InProgress {
            match prev {
                Some(t) => if s.attempts[n - 1].started > t {
                    Some(s.attempts[n - 1].started)
                } else {
                    Some(t)
                },
                None => Some(s.attempts[n - 1].started),
            }
        } else {
            prev
        }
    }
}

/// The latest start time among the in-progress attempts.
pub open spec fn latest_start(s: EngineView) -> Option<u64> {
    latest_start_upto(s, s.attempts.len() as int)
}

/// The earliest completion time among the first `n` queries.
pub open spec fn earliest_completion_upto(s: EngineView, n: int) -> Option<u64>
    decreases n,
{
    if n <= 0 {
        None
    } else {
        let prev = earliest_completion_upto(s, n - 1);
        match s.queries[n - 1].status {
            QueryStatusView::Completed { completed, .. } => match prev {
                Some(t) => if completed < t {
                    Some(completed)
                } else {
                    Some(t)
                },
                None => Some(completed),
            },
            _ => prev,
        }
    }
}

/// The earliest completion time among all queries.
pub open spec fn earliest_completion(s: EngineView) -> Option<u64> {
    earliest_completion_upto(s, s.queries.len() as int)
}

/// The timer the engine reports when it has nothing else to do: the rest
/// of the newest attempt's Connection Attempt Delay window, else the rest
/// of the Resolution Delay measured from the earliest completed answer
/// while queries are still pending.
pub open spec fn timer(s: EngineView, now: u64) -> Option<(TimerType, u64)> {
    if exists|i: int| in_cad_window(#[trigger] s.attempts[i], now) && 0 <= i < s.attempts.len() {
        let t = latest_start(s)->0;
        Some((TimerType::ConnectionAttemptDelay, (t + CONNECTION_ATTEMPT_DELAY - now) as u64))
    } else if dns_pending(s) && earliest_completion(s) is Some && now < earliest_completion(s)->0
        + RESOLUTION_DELAY {
        Some(
            (
                TimerType::ResolutionDelay,
                (earliest_completion(s)->0 + RESOLUTION_DELAY - now) as u64,
            ),
        )
    } else {
        None
    }
}

// ---------------------------------------------------------------------
// DNS scheduling
// ---------------------------------------------------------------------
/// Whether the ledger has a query for this name and record type.
pub open spec fn has_query(s: EngineView, name: Seq<char>, rt: DnsRecordType) -> bool {
    exists|i: int|
        0 <= i < s.queries.len() && (#[trigger] s.queries[i]).target_name == name
            && s.queries[i].record_type == rt
}

/// The next record type to query for the primary target, in the order
/// HTTPS, AAAA, A; nothing for an IP literal.
pub open spec fn next_primary_record(s: EngineView) -> Option<DnsRecordType> {
    match s.host {
        HostView::Ip(_) => None,
        HostView::Name(n) => if !has_query(s, n, DnsRecordType::Https) {
            Some(DnsRecordType::Https)
        } else if !has_query(s, n, DnsRecordType::Aaaa) {
            Some(DnsRecordType::Aaaa)
        } else if !has_query(s, n, DnsRecordType::A) {
            Some(DnsRecordType::A)
        } else {
            None
        },
    }
}

/// The first missing AAAA or A query among the given records' discovered
/// target names (names other than the primary target).
pub open spec fn next_disc_in_infos(s: EngineView, infos: Seq<ServiceInfoView>) -> Option<
    (Seq<char>, DnsRecordType),
>
    decreases infos.len(),
{
    if infos.len() == 0 {
        None
    } else {
        let nm = infos[0].target_name;
        if s.host is Name && nm != primary_name(s) && !has_query(s, nm, DnsRecordType::Aaaa) {
            Some((nm, DnsRecordType::Aaaa))
        } else if s.host is Name && nm != primary_name(s) && !has_query(s, nm, DnsRecordType::A) {
            Some((nm, DnsRecordType::A))
        } else {
            next_disc_in_infos(s, infos.drop_first())
        }
    }
}

/// The first missing query for a discovered target name, scanning the
/// ledger's completed positive HTTPS answers in order, from entry `i` on.
pub open spec fn next_discovered_from(s: EngineView, i: int) -> Option<(Seq<char>, DnsRecordType)>
    decreases s.queries.len() - i,
{
    if i < 0 || i >= s.queries.len() {
        None
    } else {
        let found = match s.queries[i].status {
            QueryStatusView::Completed { data: DnsDataView::Https(Ok(infos)), .. } => next_disc_in_infos(
                s,
                infos,
            ),
            _ => None,
        };
        match found {
            Some(x) => Some(x),
            None => next_discovered_from(s, i + 1),
        }
    }
}

/// The next DNS query to emit for a discovered target name.
pub open spec fn next_discovered(s: EngineView) -> Option<(Seq<char>, DnsRecordType)> {
    next_discovered_from(s, 0)
}

// ---------------------------------------------------------------------
// The step function
// ---------------------------------------------------------------------
/// The output a terminal state keeps re-emitting.
pub open spec fn terminal_output(t: Terminal) -> OutputView {
    match t {
        Terminal::Succeeded => OutputView::Succeeded,
        Terminal::Failed => OutputView::Failed,
    }
}

/// The index of the first in-progress attempt.
pub open spec fn first_in_progress_from(s: EngineView, i: int) -> Option<int>
    decreases s.attempts.len() - i,
{
    if i < 0 || i >= s.attempts.len() {
        None
    } else if s.attempts[i].status is InProgress {
        Some(i)
    } else {
        first_in_progress_from(s, i + 1)
    }
}

/// The index of the first in-progress attempt, if any.
pub open spec fn first_in_progress(s: EngineView) -> Option<int> {
    first_in_progress_from(s, 0)
}

/// What the engine emits, and how its state changes, once the input has
/// been folded in. The branches are tried in the fixed priority order:
/// cancellations after a success, DNS for the primary target, a
/// connection attempt, DNS for discovered names, a timer, and terminal
/// failure when nothing is left.
pub open spec fn emit(s: EngineView, now: u64) -> (EngineView, Option<OutputView>) {
    if has_succeeded(s) {
        match first_in_progress(s) {
            Some(i) => {
                let a = s.attempts[i];
                let cancelled = AttemptView {
                    id: a.id,
                    endpoint: a.endpoint,
                    started: a.started,
                    status: AttemptStatus::Failed,
                };
                (
                    EngineView { attempts: s.attempts.update(i, cancelled), ..s },
                    Some(OutputView::CancelConnection(a.endpoint.address)),
                )
            },
            None => (
                EngineView { terminal: Some(Terminal::Succeeded), ..s },
                Some(OutputView::Succeeded),
            ),
        }
    } else if next_primary_record(s) is Some && s.next_id < u64::MAX {
        let rt = next_primary_record(s)->0;
        let q = QueryView {
            id: Id(s.next_id),
            target_name: primary_name(s),
            record_type: rt,
            status: QueryStatusView::InProgress { started: now },
        };
        (
            EngineView { queries: s.queries.push(q), next_id: (s.next_id + 1) as u64, ..s },
            Some(
                OutputView::SendDnsQuery {
                    id: Id(s.next_id),
                    hostname: primary_name(s),
                    record_type: rt,
                },
            ),
        )
    } else if ready(s, now) && stagger_clear(s, now) && next_endpoint(s) is Some && s.next_id
        < u64::MAX {
        let e = next_endpoint(s)->0;
        let a = AttemptView {
            id: Id(s.next_id),
            endpoint: e,
            started: now,
            status: AttemptStatus::InProgress,
        };
        (
            EngineView { attempts: s.attempts.push(a), next_id: (s.next_id + 1) as u64, ..s },
            Some(OutputView::AttemptConnection { id: Id(s.next_id), endpoint: e }),
        )
    } else if next_discovered(s) is Some && s.next_id < u64::MAX {
        let (nm, rt) = next_discovered(s)->0;
        let q = QueryView {
            id: Id(s.next_id),
            target_name: nm,
            record_type: rt,
            status: QueryStatusView::InProgress { started: now },
        };
        (
            EngineView { queries: s.queries.push(q), next_id: (s.next_id + 1) as u64, ..s },
            Some(OutputView::SendDnsQuery { id: Id(s.next_id), hostname: nm, record_type: rt }),
        )
    } else if timer(s, now) is Some {
        let (tt, d) = timer(s, now)->0;
        (s, Some(OutputView::StartTimer { timer_type: tt, duration: d }))
    } else if !dns_pending(s) && !attempt_pending(s) {
        (EngineView { terminal: Some(Terminal::Failed), ..s }, Some(OutputView::Failed))
    } else {
        (s, None)
    }
}

// ---------------------------------------------------------------------
// Preservation of well-formedness
// ---------------------------------------------------------------------
/// Where the first in-progress attempt lies, when one exists.
pub proof fn lemma_first_in_progress_bounds(s: EngineView, j: int)
    ensures
        first_in_progress_from(s, j) matches Some(i) ==> j <= i < s.attempts.len()
            && s.attempts[i].status is InProgress,
    decreases s.attempts.len() - j,
{
    if 0 <= j < s.attempts.len() && !(s.attempts[j].status is InProgress) {
        lemma_first_in_progress_bounds(s, j + 1);
    } else if 0 <= j < s.attempts.len() {
    } else {
    }
}

/// The planner never yields an endpoint that equals an existing attempt's
/// endpoint.
pub proof fn lemma_first_unattempted_not_attempted(s: EngineView, c: Seq<EndpointView>)
    ensures
        first_unattempted(s, c) matches Some(e) ==> !attempted(s, e),
    decreases c.len(),
{
    if c.len() > 0 && attempted(s, c[0]) {
        lemma_first_unattempted_not_attempted(s, c.drop_first());
    }
}

/// What a discovered-name query emission implies: the name is not the
/// primary target, an AAAA emission means no AAAA query exists for it,
/// and an A emission means an AAAA query exists but no A query.
pub proof fn lemma_next_disc_in_infos_props(s: EngineView, infos: Seq<ServiceInfoView>)
    ensures
        next_disc_in_infos(s, infos) matches Some((nm, rt)) ==> {
            &&& s.host is Name
            &&& nm != primary_name(s)
            &&& (rt == DnsRecordType::Aaaa || rt == DnsRecordType::A)
            &&& (rt == DnsRecordType::Aaaa ==> !has_query(s, nm, DnsRecordType::Aaaa))
            &&& (rt == DnsRecordType::A ==> has_query(s, nm, DnsRecordType::Aaaa) && !has_query(
                s,
                nm,
                DnsRecordType::A,
            ))
        },
    decreases infos.len(),
{
    if infos.len() > 0 {
        lemma_next_disc_in_infos_props(s, infos.drop_first());
    }
}

/// The same, lifted over the ledger scan.
pub proof fn lemma_next_discovered_props(s: EngineView, i: int)
    ensures
        next_discovered_from(s, i) matches Some((nm, rt)) ==> {
            &&& s.host is Name
            &&& nm != primary_name(s)
            &&& (rt == DnsRecordType::Aaaa || rt == DnsRecordType::A)
            &&& (rt == DnsRecordType::Aaaa ==> !has_query(s, nm, DnsRecordType::Aaaa))
            &&& (rt == DnsRecordType::A ==> has_query(s, nm, DnsRecordType::Aaaa) && !has_query(
                s,
                nm,
                DnsRecordType::A,
            ))
        },
    decreases s.queries.len() - i,
{
    if 0 <= i < s.queries.len() {
        match s.queries[i].status {
            QueryStatusView::Completed { data: DnsDataView::Https(Ok(infos)), .. } => {
                lemma_next_disc_in_infos_props(s, infos);
            },
            _ => {},
        }
        lemma_next_discovered_props(s, i + 1);
    }
}

/// Folding an input into the ledgers keeps the state well-formed and its
/// timestamps in the past.
pub proof fn lemma_apply_input_preserves(s: EngineView, input: Option<InputView>, now: u64)
    requires
        wf(s),
        times_le(s, now),
    ensures
        wf(apply_input(s, input, now)),
        times_le(apply_input(s, input, now), now),
{
    let s2 = apply_input(s, input, now);
    assert(s2.queries.len() == s.queries.len());
    assert(s2.attempts.len() == s.attempts.len());
    assert forall|i: int| 0 <= i < s.queries.len() implies (#[trigger] s2.queries[i]).id
        == s.queries[i].id && s2.queries[i].target_name == s.queries[i].target_name
        && s2.queries[i].record_type == s.queries[i].record_type && query_time(s2.queries[i])
        <= now by {
        assert(query_time(s.queries[i]) <= now);
    }
    assert forall|i: int| 0 <= i < s.attempts.len() implies (#[trigger] s2.attempts[i]).id
        == s.attempts[i].id && s2.attempts[i].endpoint == s.attempts[i].endpoint
        && s2.attempts[i].started == s.attempts[i].started by {}
    assert forall|nm: Seq<char>, rt: DnsRecordType| #[trigger]
        has_query(s2, nm, rt) == has_query(s, nm, rt) by {
        if has_query(s2, nm, rt) {
            let i = choose|i: int|
                0 <= i < s2.queries.len() && (#[trigger] s2.queries[i]).target_name == nm
                    && s2.queries[i].record_type == rt;
            assert((#[trigger] s.queries[i]).target_name == nm && s.queries[i].record_type == rt);
        }
        if has_query(s, nm, rt) {
            let i = choose|i: int|
                0 <= i < s.queries.len() && (#[trigger] s.queries[i]).target_name == nm
                    && s.queries[i].record_type == rt;
            assert((#[trigger] s2.queries[i]).target_name == nm && s2.queries[i].record_type
                == rt);
        }
    }
}

/// The priority chain keeps the state well-formed and its timestamps in
/// the past.
pub proof fn lemma_emit_preserves(s: EngineView, now: u64)
    requires
        wf(s),
        times_le(s, now),
    ensures
        wf(emit(s, now).0),
        times_le(emit(s, now).0, now),
{
    let s2 = emit(s, now).0;
    if has_succeeded(s) {
        lemma_first_in_progress_bounds(s, 0);
        match first_in_progress(s) {
            Some(i) => {
                assert(0 <= i < s.attempts.len());
                assert forall|a: int, b: int|
                    0 <= a < b < s2.attempts.len() implies (#[trigger] s2.attempts[a]).endpoint
                    != (#[trigger] s2.attempts[b]).endpoint by {
                    assert(s.attempts[a].endpoint != s.attempts[b].endpoint);
                }
            },
            None => {},
        }
    } else if next_primary_record(s) is Some && s.next_id < u64::MAX {
        let rt = next_primary_record(s)->0;
        let nm = primary_name(s);
        let newq = QueryView {
            id: Id(s.next_id),
            target_name: nm,
            record_type: rt,
            status: QueryStatusView::InProgress { started: now },
        };
        assert(s2.queries == s.queries.push(newq));
        let n = s.queries.len() as int;
        // No primary query can outrank the one being issued.
        assert forall|i: int|
            0 <= i < n && (#[trigger] s.queries[i]).target_name == nm implies rt_rank(
            s.queries[i].record_type,
        ) < rt_rank(rt) by {
            assert(is_primary(s, s.queries[i]));
            if rt == DnsRecordType::Https {
                if s.queries[i].record_type == DnsRecordType::Https {
                    assert(has_query(s, nm, DnsRecordType::Https));
                } else if s.queries[i].record_type == DnsRecordType::Aaaa {
                    let j = choose|j: int|
                        0 <= j < n && (#[trigger] s.queries[j]).target_name == nm
                            && s.queries[j].record_type == DnsRecordType::Https;
                    assert(has_query(s, nm, DnsRecordType::Https));
                } else {
                    assert(has_query(s, nm, DnsRecordType::Aaaa));
                    let j = choose|j: int|
                        0 <= j < n && (#[trigger] s.queries[j]).target_name == nm
                            && s.queries[j].record_type == DnsRecordType::Aaaa;
                    assert(is_primary(s, s.queries[j]));
                    assert(has_query(s, nm, DnsRecordType::Https));
                }
            } else if rt == DnsRecordType::Aaaa {
                if s.queries[i].record_type == DnsRecordType::Aaaa {
                    assert(has_query(s, nm, DnsRecordType::Aaaa));
                } else if s.queries[i].record_type == DnsRecordType::A {
                    assert(has_query(s, nm, DnsRecordType::Aaaa));
                }
            } else {
                if s.queries[i].record_type == DnsRecordType::A {
                    assert(has_query(s, nm, DnsRecordType::A));
                }
            }
        }
        assert forall|nm2: Seq<char>, rt2: DnsRecordType|
            has_query(s, nm2, rt2) implies #[trigger] has_query(s2, nm2, rt2) by {
            let i = choose|i: int|
                0 <= i < s.queries.len() && (#[trigger] s.queries[i]).target_name == nm2
                    && s.queries[i].record_type == rt2;
            assert((#[trigger] s2.queries[i]).target_name == nm2 && s2.queries[i].record_type
                == rt2);
        }
        if rt == DnsRecordType::Aaaa {
            assert(has_query(s2, nm, DnsRecordType::Https));
        }
        if rt == DnsRecordType::A {
            assert(has_query(s2, nm, DnsRecordType::Aaaa));
        }
    } else if ready(s, now) && stagger_clear(s, now) && next_endpoint(s) is Some && s.next_id
        < u64::MAX {
        lemma_first_unattempted_not_attempted(s, candidates(s));
        let e = next_endpoint(s)->0;
        assert forall|a: int|
            0 <= a < s.attempts.len() implies (#[trigger] s.attempts[a]).endpoint != e by {
            if s.attempts[a].endpoint == e {
                assert(attempted(s, e));
            }
        }
    } else if next_discovered(s) is Some && s.next_id < u64::MAX {
        lemma_next_discovered_props(s, 0);
        let (nm, rt) = next_discovered(s)->0;
        let newq = QueryView {
            id: Id(s.next_id),
            target_name: nm,
            record_type: rt,
            status: QueryStatusView::InProgress { started: now },
        };
        assert(s2.queries == s.queries.push(newq));
        let n = s.queries.len() as int;
        assert forall|i: int|
            0 <= i < n && (#[trigger] s.queries[i]).target_name == nm implies rt_rank(
            s.queries[i].record_type,
        ) < rt_rank(rt) by {
            if s.queries[i].record_type == DnsRecordType::Https {
                assert(is_primary(s, s.queries[i]));
            }
            if rt == DnsRecordType::Aaaa {
                if s.queries[i].record_type == DnsRecordType::Aaaa {
                    assert(has_query(s, nm, DnsRecordType::Aaaa));
                } else if s.queries[i].record_type == DnsRecordType::A {
                    assert(has_query(s, nm, DnsRecordType::Aaaa));
                }
            } else {
                if s.queries[i].record_type == DnsRecordType::A {
                    assert(has_query(s, nm, DnsRecordType::A));
                }
            }
        }
        assert forall|nm2: Seq<char>, rt2: DnsRecordType|
            has_query(s, nm2, rt2) implies #[trigger] has_query(s2, nm2, rt2) by {
            let i = choose|i: int|
                0 <= i < s.queries.len() && (#[trigger] s.queries[i]).target_name == nm2
                    && s.queries[i].record_type == rt2;
            assert((#[trigger] s2.queries[i]).target_name == nm2 && s2.queries[i].record_type
                == rt2);
        }
        if rt == DnsRecordType::A {
            assert(has_query(s2, nm, DnsRecordType::Aaaa));
        }
    } else {
    }
}

/// One top-level call keeps the state well-formed and its timestamps in
/// the past.
pub proof fn lemma_step_preserves(s: EngineView, input: Option<InputView>, now: u64)
    requires
        wf(s),
        times_le(s, now),
    ensures
        wf(spec_step(s, input, now).0),
        times_le(spec_step(s, input, now).0, now),
{
    match s.terminal {
        Some(_) => {},
        None => {
            lemma_apply_input_preserves(s, input, now);
            lemma_emit_preserves(apply_input(s, input, now), now);
        },
    }
}

/// One top-level call: a terminal engine re-emits its terminal report;
/// otherwise the input is folded into the ledgers and the priority chain
/// decides the output.
pub open spec fn spec_step(s: EngineView, input: Option<InputView>, now: u64) -> (
    EngineView,
    Option<OutputView>,
) {
    match s.terminal {
        Some(t) => (s, Some(terminal_output(t))),
        None => emit(apply_input(s, input, now), now),
    }
}

} // verus!
