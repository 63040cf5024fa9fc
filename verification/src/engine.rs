//! The Happy Eyeballs v3 engine: a passive state machine that the caller
//! drives with inputs and a monotonic timestamp, and that answers with the
//! next output to perform.

use vstd::prelude::*;
use vstd::pervasive::VecAdditionalExecFns;

use crate::addr::IpAddress;
use crate::addr::SocketAddress;
use crate::config::NetworkConfig;
use crate::events::DnsResponse;
use crate::events::Endpoint;
use crate::events::Input;
use crate::events::Output;
use crate::events::ServiceInfo;
use crate::events::clone_opt_bytes;
use crate::events::opt_bytes_view;
use crate::name::TargetName;
use crate::proto::AlpnProtocol;
use crate::proto::ConnectionAttemptProtocol;
use crate::proto::DnsRecordType;
use crate::host::Host;
use crate::host::HostParseError;
use crate::host::parse_host;
use crate::host::spec_host_result;
use crate::id::Id;
use crate::id::IdGenerator;
use crate::ledger::AttemptStatus;
use crate::ledger::ConnectionAttempt;
use crate::ledger::DnsQuery;
use crate::ledger::DnsQueryStatus;
use crate::model::EngineView;
use crate::model::Terminal;
use crate::model::apply_input;
use crate::model::complete_query;
use crate::model::initial_state;
use crate::model::resolve_attempt;
use crate::model::times_le;
use crate::model::wf;

verus! {

/// The view of an optional input event.
pub open spec fn opt_input_view(i: &Option<Input>) -> Option<crate::events::InputView> {
    match i {
        Some(x) => Some(x@),
        None => None,
    }
}

/// The view of an optional output event.
pub open spec fn opt_output_view(o: &Option<Output>) -> Option<crate::events::OutputView> {
    match o {
        Some(x) => Some(x@),
        None => None,
    }
}

/// The Happy Eyeballs v3 engine for a single target host and port.
///
/// It owns three things: the DNS ledger, the attempt ledger and the
/// immutable configuration. Every mutation happens inside
/// [`Self::process`], which is proved to follow the transition function
/// [`crate::model::spec_step`].
pub struct HappyEyeballs {
    ids: IdGenerator,
    dns_queries: Vec<DnsQuery>,
    connection_attempts: Vec<ConnectionAttempt>,
    network_config: NetworkConfig,
    host: Host,
    port: u16,
    terminal: Option<Terminal>,
}

impl View for HappyEyeballs {
    type V = EngineView;

    closed spec fn view(&self) -> EngineView {
        EngineView {
            queries: self.dns_queries@.map_values(|q: DnsQuery| q@),
            attempts: self.connection_attempts@.map_values(|a: ConnectionAttempt| a@),
            config: self.network_config@,
            host: self.host@,
            port: self.port,
            next_id: self.ids@,
            terminal: self.terminal,
        }
    }
}

impl HappyEyeballs {
    /// Creates an engine with the default network configuration. Fails
    /// exactly when the host string is neither a valid DNS name nor a
    /// valid IP literal.
    pub fn new(hostname: String, port: u16) -> (r: Result<Self, HostParseError>)
        ensures
            (r is Ok) == (spec_host_result(hostname@) is Some),
            (r matches Ok(e) ==> e@ == initial_state(
                spec_host_result(hostname@)->0,
                port,
                crate::config::default_config_view(),
            ) && wf(e@)),
    {
        let config = NetworkConfig::default();
        Self::with_network_config(hostname, port, config)
    }

    /// Creates an engine with the given network configuration. Fails
    /// exactly when the host string is neither a valid DNS name nor a
    /// valid IP literal. Alt-service hints carrying a host or port
    /// override are not yet supported.
    pub fn with_network_config(hostname: String, port: u16, network_config: NetworkConfig) -> (r:
        Result<Self, HostParseError>)
        requires
            forall|i: int|
                0 <= i < network_config.alt_svc@.len() ==> (
                #[trigger] network_config.alt_svc@[i]).host is None
                    && network_config.alt_svc@[i].port is None,
        ensures
            (r is Ok) == (spec_host_result(hostname@) is Some),
            (r matches Ok(e) ==> e@ == initial_state(
                spec_host_result(hostname@)->0,
                port,
                network_config@,
            ) && wf(e@)),
    {
        let host = match parse_host(hostname.as_str()) {
            Ok(h) => h,
            Err(e) => {
                return Err(e);
            },
        };
        let engine = HappyEyeballs {
            ids: IdGenerator::new(),
            dns_queries: Vec::new(),
            connection_attempts: Vec::new(),
            network_config,
            host,
            port,
            terminal: None,
        };
        proof {
            assert(engine@.queries =~= Seq::<crate::ledger::QueryView>::empty());
            assert(engine@.attempts =~= Seq::<crate::ledger::AttemptView>::empty());
        }
        Ok(engine)
    }

    /// Finds the ledger position of the query with this identifier.
    fn find_query_index(&self, id: Id) -> (r: Option<usize>)
        ensures
            match r {
                Some(i) => i < self@.queries.len() && self@.queries[i as int].id == id && forall|
                    j: int,
                |
                    0 <= j < i ==> (#[trigger] self@.queries[j]).id != id,
                None => forall|j: int|
                    0 <= j < self@.queries.len() ==> (#[trigger] self@.queries[j]).id != id,
            },
    {
        let n = self.dns_queries.len();
        let mut i: usize = 0;
        while i < n
            invariant
                i <= n,
                n == self@.queries.len(),
                forall|j: int| 0 <= j < i ==> (#[trigger] self@.queries[j]).id != id,
            decreases n - i,
        {
            if self.dns_queries[i].id == id {
                return Some(i);
            }
            i = i + 1;
        }
        None
    }

    /// Finds the ledger position of the attempt with this identifier.
    fn find_attempt_index(&self, id: Id) -> (r: Option<usize>)
        ensures
            match r {
                Some(i) => i < self@.attempts.len() && self@.attempts[i as int].id == id && forall|
                    j: int,
                |
                    0 <= j < i ==> (#[trigger] self@.attempts[j]).id != id,
                None => forall|j: int|
                    0 <= j < self@.attempts.len() ==> (#[trigger] self@.attempts[j]).id != id,
            },
    {
        let n = self.connection_attempts.len();
        let mut i: usize = 0;
        while i < n
            invariant
                i <= n,
                n == self@.attempts.len(),
                forall|j: int| 0 <= j < i ==> (#[trigger] self@.attempts[j]).id != id,
            decreases n - i,
        {
            if self.connection_attempts[i].id == id {
                return Some(i);
            }
            i = i + 1;
        }
        None
    }

    /// Folds a DNS result into the DNS ledger: the matching in-progress
    /// query completes; anything else is dropped.
    fn on_dns_response(&mut self, response: DnsResponse, now: u64)
        requires
            wf(old(self)@),
        ensures
            final(self)@ == (EngineView {
                queries: complete_query(old(self)@.queries, response@, now),
                ..old(self)@
            }),
    {
        let ghost qs0 = self@.queries;
        let ghost rv = response@;
        match self.find_query_index(response.id) {
            None => {
                proof {
                    assert(complete_query(qs0, rv, now) =~= qs0);
                    assert(final(self)@ == (EngineView {
                        queries: complete_query(qs0, rv, now),
                        ..old(self)@
                    }));
                }
            },
            Some(i) => {
                let in_progress = match &self.dns_queries[i].status {
                    DnsQueryStatus::InProgress { .. } => true,
                    DnsQueryStatus::Completed { .. } => false,
                };
                let rt = self.dns_queries[i].record_type;
                let type_matches = rt == response.record_type();
                let name_matches = self.dns_queries[i].target_name == response.target_name;
                if in_progress && type_matches && name_matches {
                    let entry = DnsQuery {
                        id: response.id,
                        target_name: response.target_name,
                        record_type: rt,
                        status: DnsQueryStatus::Completed { completed: now, data: response.inner },
                    };
                    self.dns_queries.set(i, entry);
                    proof {
                        assert forall|j: int| 0 <= j < qs0.len() implies self@.queries[j]
                            == complete_query(qs0, rv, now)[j] by {
                            if j != i {
                                assert(qs0[j].id != rv.id);
                            }
                        }
                        assert(self@.queries =~= complete_query(qs0, rv, now));
                    }
                } else {
                    proof {
                        assert forall|j: int| 0 <= j < qs0.len() implies qs0[j] == complete_query(
                            qs0,
                            rv,
                            now,
                        )[j] by {
                            if j != i {
                                assert(qs0[j].id != rv.id);
                            }
                        }
                        assert(complete_query(qs0, rv, now) =~= qs0);
                    }
                }
            },
        }
    }

    /// Folds a connection outcome into the attempt ledger: the matching
    /// in-progress attempt succeeds or fails; anything else is dropped.
    fn on_connection_result(&mut self, id: Id, ok: bool)
        requires
            wf(old(self)@),
        ensures
            final(self)@ == (EngineView {
                attempts: resolve_attempt(old(self)@.attempts, id, ok),
                ..old(self)@
            }),
    {
        let ghost as0 = self@.attempts;
        match self.find_attempt_index(id) {
            None => {
                proof {
                    assert(resolve_attempt(as0, id, ok) =~= as0);
                }
            },
            Some(i) => {
                let in_progress = match self.connection_attempts[i].status {
                    AttemptStatus::InProgress => true,
                    _ => false,
                };
                if in_progress {
                    let status = if ok {
                        AttemptStatus::Succeeded
                    } else {
                        AttemptStatus::Failed
                    };
                    let a = &self.connection_attempts[i];
                    let entry = ConnectionAttempt {
                        id: a.id,
                        endpoint: a.endpoint.clone(),
                        started: a.started,
                        status,
                    };
                    self.connection_attempts.set(i, entry);
                    proof {
                        assert forall|j: int| 0 <= j < as0.len() implies self@.attempts[j]
                            == resolve_attempt(as0, id, ok)[j] by {
                            if j != i {
                                assert(as0[j].id != id);
                            }
                        }
                        assert(self@.attempts =~= resolve_attempt(as0, id, ok));
                    }
                } else {
                    proof {
                        assert forall|j: int| 0 <= j < as0.len() implies as0[j] == resolve_attempt(
                            as0,
                            id,
                            ok,
                        )[j] by {
                            if j != i {
                                assert(as0[j].id != id);
                            }
                        }
                        assert(resolve_attempt(as0, id, ok) =~= as0);
                    }
                }
            },
        }
    }

    /// Whether some attempt has succeeded.
    fn has_succeeded_exec(&self) -> (r: bool)
        ensures
            r == crate::model::has_succeeded(self@),
    {
        let n = self.connection_attempts.len();
        let mut i: usize = 0;
        while i < n
            invariant
                i <= n,
                n == self@.attempts.len(),
                forall|j: int| 0 <= j < i ==> !((#[trigger] self@.attempts[j]).status is Succeeded),
            decreases n - i,
        {
            match self.connection_attempts[i].status {
                AttemptStatus::Succeeded => {
                    proof {
                        assert((#[trigger] self@.attempts[i as int]).status is Succeeded);
                    }
                    return true;
                },
                _ => {},
            }
            proof {
                assert(!(self@.attempts[i as int].status is Succeeded));
            }
            i = i + 1;
        }
        false
    }

    /// The position of the first in-progress attempt.
    fn first_in_progress_exec(&self) -> (r: Option<usize>)
        ensures
            match r {
                Some(i) => crate::model::first_in_progress(self@) == Some(i as int),
                None => crate::model::first_in_progress(self@) is None,
            },
    {
        let n = self.connection_attempts.len();
        let mut i: usize = 0;
        while i < n
            invariant
                i <= n,
                n == self@.attempts.len(),
                crate::model::first_in_progress(self@) == crate::model::first_in_progress_from(
                    self@,
                    i as int,
                ),
            decreases n - i,
        {
            match self.connection_attempts[i].status {
                AttemptStatus::InProgress => {
                    return Some(i);
                },
                _ => {},
            }
            i = i + 1;
        }
        None
    }

    /// Whether some DNS query is still unanswered.
    fn dns_pending_exec(&self) -> (r: bool)
        ensures
            r == crate::model::dns_pending(self@),
    {
        let n = self.dns_queries.len();
        let mut i: usize = 0;
        while i < n
            invariant
                i <= n,
                n == self@.queries.len(),
                forall|j: int| 0 <= j < i ==> !((#[trigger] self@.queries[j]).status is InProgress),
            decreases n - i,
        {
            match &self.dns_queries[i].status {
                DnsQueryStatus::InProgress { .. } => {
                    proof {
                        assert((#[trigger] self@.queries[i as int]).status is InProgress);
                    }
                    return true;
                },
                _ => {},
            }
            proof {
                assert(!(self@.queries[i as int].status is InProgress));
            }
            i = i + 1;
        }
        false
    }

    /// Whether some connection attempt is still undecided.
    fn attempt_pending_exec(&self) -> (r: bool)
        ensures
            r == crate::model::attempt_pending(self@),
    {
        let n = self.connection_attempts.len();
        let mut i: usize = 0;
        while i < n
            invariant
                i <= n,
                n == self@.attempts.len(),
                forall|j: int| 0 <= j < i ==> !((#[trigger] self@.attempts[j]).status is InProgress),
            decreases n - i,
        {
            match self.connection_attempts[i].status {
                AttemptStatus::InProgress => {
                    proof {
                        assert((#[trigger] self@.attempts[i as int]).status is InProgress);
                    }
                    return true;
                },
                _ => {},
            }
            proof {
                assert(!(self@.attempts[i as int].status is InProgress));
            }
            i = i + 1;
        }
        false
    }

    /// Whether the ledger has a query for this name and record type.
    fn has_query_exec(&self, name: &crate::name::TargetName, rt: crate::proto::DnsRecordType) -> (r:
        bool)
        ensures
            r == crate::model::has_query(self@, name@, rt),
    {
        let n = self.dns_queries.len();
        let mut i: usize = 0;
        while i < n
            invariant
                i <= n,
                n == self@.queries.len(),
                forall|j: int|
                    0 <= j < i ==> !((#[trigger] self@.queries[j]).target_name == name@
                        && self@.queries[j].record_type == rt),
            decreases n - i,
        {
            if self.dns_queries[i].record_type == rt && self.dns_queries[i].target_name == *name {
                proof {
                    assert((#[trigger] self@.queries[i as int]).target_name == name@
                        && self@.queries[i as int].record_type == rt);
                }
                return true;
            }
            proof {
                assert(!((#[trigger] self@.queries[i as int]).target_name == name@
                    && self@.queries[i as int].record_type == rt));
            }
            i = i + 1;
        }
        false
    }

    /// The next record type to query for the primary target.
    fn next_primary_record_exec(&self) -> (r: Option<crate::proto::DnsRecordType>)
        ensures
            r == crate::model::next_primary_record(self@),
    {
        match &self.host {
            Host::Ip(_) => None,
            Host::Name(n) => {
                if !self.has_query_exec(n, crate::proto::DnsRecordType::Https) {
                    Some(crate::proto::DnsRecordType::Https)
                } else if !self.has_query_exec(n, crate::proto::DnsRecordType::Aaaa) {
                    Some(crate::proto::DnsRecordType::Aaaa)
                } else if !self.has_query_exec(n, crate::proto::DnsRecordType::A) {
                    Some(crate::proto::DnsRecordType::A)
                } else {
                    None
                }
            },
        }
    }

    /// A copy of the primary target's name.
    fn primary_name_exec(&self) -> (r: crate::name::TargetName)
        requires
            self@.host is Name,
        ensures
            r@ == crate::model::primary_name(self@),
    {
        match &self.host {
            Host::Name(n) => n.clone(),
            Host::Ip(_) => vstd::pervasive::unreached(),
        }
    }

    /// Whether no in-progress attempt is still inside its Connection
    /// Attempt Delay window.
    fn stagger_clear_exec(&self, now: u64) -> (r: bool)
        requires
            times_le(self@, now),
        ensures
            r == crate::model::stagger_clear(self@, now),
    {
        let n = self.connection_attempts.len();
        let mut i: usize = 0;
        while i < n
            invariant
                i <= n,
                n == self@.attempts.len(),
                times_le(self@, now),
                forall|j: int|
                    0 <= j < i ==> !crate::model::in_cad_window(#[trigger] self@.attempts[j], now),
            decreases n - i,
        {
            let a = &self.connection_attempts[i];
            proof {
                assert((#[trigger] self@.attempts[i as int]).started <= now);
            }
            let in_progress = match a.status {
                AttemptStatus::InProgress => true,
                _ => false,
            };
            if in_progress && now - a.started < crate::model::CONNECTION_ATTEMPT_DELAY {
                proof {
                    assert(crate::model::in_cad_window(self@.attempts[i as int], now));
                }
                return false;
            }
            proof {
                assert(!crate::model::in_cad_window(self@.attempts[i as int], now));
            }
            i = i + 1;
        }
        true
    }

    /// Whether the engine may move on to planning connection attempts.
    fn ready_exec(&self, now: u64) -> (r: bool)
        requires
            times_le(self@, now),
        ensures
            r == crate::model::ready(self@, now),
    {
        match &self.host {
            Host::Ip(_) => {
                return true;
            },
            Host::Name(_) => {},
        }
        let n = self.dns_queries.len();
        let mut pos_evidence = false;
        let mut pref_completed = false;
        let mut https_completed = false;
        let mut pos_addr = false;
        let mut rd_elapsed = false;
        let preferred = self.network_config.preferred_dns_record_type();
        let mut i: usize = 0;
        while i < n
            invariant
                i <= n,
                n == self@.queries.len(),
                self@.host is Name,
                times_le(self@, now),
                preferred == crate::config::spec_preferred_dns_record_type(self@.config.ip),
                pos_evidence == (exists|j: int|
                    0 <= j < i && crate::model::is_primary(self@, #[trigger] self@.queries[j])
                        && crate::model::positive_addr_evidence(self@.queries[j])),
                pref_completed == (exists|j: int|
                    0 <= j < i && crate::model::is_primary(self@, #[trigger] self@.queries[j])
                        && self@.queries[j].completed() && self@.queries[j].record_type
                        == crate::config::spec_preferred_dns_record_type(self@.config.ip)),
                https_completed == (exists|j: int|
                    0 <= j < i && crate::model::is_primary(self@, #[trigger] self@.queries[j])
                        && self@.queries[j].completed() && self@.queries[j].record_type
                        == crate::proto::DnsRecordType::Https),
                pos_addr == (exists|j: int|
                    0 <= j < i && crate::model::positive_address_record(
                        #[trigger] self@.queries[j],
                    )),
                rd_elapsed == (exists|j: int|
                    0 <= j < i && ((#[trigger] self@.queries[j]).status matches
                    crate::ledger::QueryStatusView::Completed { completed, .. } && now >= completed
                        + crate::model::RESOLUTION_DELAY)),
            decreases n - i,
        {
            let q = &self.dns_queries[i];
            let ghost qv = self@.queries[i as int];
            proof {
                assert(crate::model::query_time(#[trigger] self@.queries[i as int]) <= now);
            }
            let primary = match &self.host {
                Host::Name(nm) => q.target_name == *nm,
                Host::Ip(_) => false,
            };
            match &q.status {
                DnsQueryStatus::Completed { completed, data } => {
                    let positive_evidence_here = match data {
                        crate::events::DnsResponseInner::Aaaa(Ok(addrs)) => addrs.len() > 0,
                        crate::events::DnsResponseInner::A(Ok(addrs)) => addrs.len() > 0,
                        crate::events::DnsResponseInner::Https(Ok(infos)) => {
                            let h = Self::infos_have_hints(infos);
                            proof {
                                let mapped = infos@.map_values(
                                    |si: crate::events::ServiceInfo| si@,
                                );
                                if h {
                                    let j = choose|j: int|
                                        0 <= j < infos@.len() && ((
                                        #[trigger] infos@[j]@).ipv4_hints.len() > 0
                                            || infos@[j]@.ipv6_hints.len() > 0);
                                    assert(0 <= j < mapped.len() && ((
                                    #[trigger] mapped[j]).ipv4_hints.len() > 0
                                        || mapped[j].ipv6_hints.len() > 0));
                                } else {
                                    assert forall|j: int| 0 <= j < mapped.len() implies !((
                                    #[trigger] mapped[j]).ipv4_hints.len() > 0
                                        || mapped[j].ipv6_hints.len() > 0) by {
                                        assert(!((#[trigger] infos@[j]@).ipv4_hints.len() > 0
                                            || infos@[j]@.ipv6_hints.len() > 0));
                                    }
                                }
                                assert(h == crate::model::positive_addr_evidence(qv));
                            }
                            h
                        },
                        _ => false,
                    };
                    let positive_addr_here = match data {
                        crate::events::DnsResponseInner::Aaaa(Ok(addrs)) => addrs.len() > 0,
                        crate::events::DnsResponseInner::A(Ok(addrs)) => addrs.len() > 0,
                        _ => false,
                    };
                    if primary && positive_evidence_here {
                        pos_evidence = true;
                    }
                    if primary && q.record_type == preferred {
                        pref_completed = true;
                    }
                    if primary && q.record_type == crate::proto::DnsRecordType::Https {
                        https_completed = true;
                    }
                    if positive_addr_here {
                        pos_addr = true;
                    }
                    if now - *completed >= crate::model::RESOLUTION_DELAY {
                        rd_elapsed = true;
                    }
                    proof {
                        assert(primary == crate::model::is_primary(self@, qv));
                        assert(positive_evidence_here == crate::model::positive_addr_evidence(qv));
                        assert(positive_addr_here == crate::model::positive_address_record(qv));
                    }
                },
                DnsQueryStatus::InProgress { .. } => {
                    proof {
                        assert(!crate::model::positive_addr_evidence(qv));
                        assert(!crate::model::positive_address_record(qv));
                        assert(!qv.completed());
                        assert(!(qv.status matches crate::ledger::QueryStatusView::Completed {
                            completed,
                            ..
                        } && now >= completed + crate::model::RESOLUTION_DELAY));
                    }
                },
            }
            i = i + 1;
        }
        (pos_evidence && pref_completed && https_completed) || (pos_addr && rd_elapsed)
    }

    /// Whether some record in the list carries address hints.
    fn infos_have_hints(infos: &Vec<crate::events::ServiceInfo>) -> (r: bool)
        ensures
            r == (exists|j: int|
                0 <= j < infos@.len() && ((#[trigger] infos@[j]@).ipv4_hints.len() > 0
                    || infos@[j]@.ipv6_hints.len() > 0)),
    {
        let n = infos.len();
        let mut j: usize = 0;
        while j < n
            invariant
                j <= n,
                n == infos@.len(),
                forall|m: int|
                    0 <= m < j ==> !((#[trigger] infos@[m]@).ipv4_hints.len() > 0
                        || infos@[m]@.ipv6_hints.len() > 0),
            decreases n - j,
        {
            if infos[j].ipv4_hints.len() > 0 || infos[j].ipv6_hints.len() > 0 {
                proof {
                    assert((#[trigger] infos@[j as int]@).ipv4_hints.len() > 0
                        || infos@[j as int]@.ipv6_hints.len() > 0);
                }
                return true;
            }
            proof {
                assert(!((#[trigger] infos@[j as int]@).ipv4_hints.len() > 0
                    || infos@[j as int]@.ipv6_hints.len() > 0));
            }
            j = j + 1;
        }
        false
    }

    /// The timer worth reporting when nothing else is to be done.
    fn timer_exec(&self, now: u64) -> (r: Option<Output>)
        requires
            times_le(self@, now),
        ensures
            match r {
                Some(o) => crate::model::timer(self@, now) matches Some((tt, d)) && o@
                    == (crate::events::OutputView::StartTimer { timer_type: tt, duration: d }),
                None => crate::model::timer(self@, now) is None,
            },
    {
        let ghost s = self@;
        let an = self.connection_attempts.len();
        let mut latest: Option<u64> = None;
        let mut any_window = false;
        let mut i: usize = 0;
        while i < an
            invariant
                i <= an,
                an == s.attempts.len(),
                s == self@,
                times_le(s, now),
                latest == crate::model::latest_start_upto(s, i as int),
                any_window == (exists|j: int|
                    0 <= j < i && crate::model::in_cad_window(#[trigger] s.attempts[j], now)),
                match latest {
                    Some(t) => t <= now && (forall|j: int|
                        0 <= j < i && (#[trigger] s.attempts[j]).status is InProgress
                            ==> s.attempts[j].started <= t),
                    None => forall|j: int|
                        0 <= j < i ==> !((#[trigger] s.attempts[j]).status is InProgress),
                },
            decreases an - i,
        {
            let a = &self.connection_attempts[i];
            proof {
                assert((#[trigger] s.attempts[i as int]).started <= now);
            }
            let in_progress = match a.status {
                AttemptStatus::InProgress => true,
                _ => false,
            };
            if in_progress {
                if now - a.started < crate::model::CONNECTION_ATTEMPT_DELAY {
                    proof {
                        assert(crate::model::in_cad_window(s.attempts[i as int], now));
                    }
                    any_window = true;
                }
                latest = match latest {
                    Some(t) => if a.started > t {
                        Some(a.started)
                    } else {
                        Some(t)
                    },
                    None => Some(a.started),
                };
            }
            i = i + 1;
        }
        if any_window {
            let t = match latest {
                Some(t) => t,
                None => vstd::pervasive::unreached(),
            };
            let d = crate::model::CONNECTION_ATTEMPT_DELAY - (now - t);
            proof {
                let j = choose|j: int|
                    0 <= j < s.attempts.len() && crate::model::in_cad_window(
                        #[trigger] s.attempts[j],
                        now,
                    );
                assert(s.attempts[j].started <= t);
            }
            return Some(
                Output::StartTimer {
                    timer_type: crate::proto::TimerType::ConnectionAttemptDelay,
                    duration: d,
                },
            );
        }
        // No attempt is inside its window; check the Resolution Delay.
        let qn = self.dns_queries.len();
        let mut pending = false;
        let mut earliest: Option<u64> = None;
        let mut k: usize = 0;
        while k < qn
            invariant
                k <= qn,
                qn == s.queries.len(),
                s == self@,
                times_le(s, now),
                pending == (exists|j: int|
                    0 <= j < k && (#[trigger] s.queries[j]).status is InProgress),
                earliest == crate::model::earliest_completion_upto(s, k as int),
                match earliest {
                    Some(t) => t <= now,
                    None => true,
                },
            decreases qn - k,
        {
            let q = &self.dns_queries[k];
            proof {
                assert(crate::model::query_time(#[trigger] s.queries[k as int]) <= now);
            }
            match &q.status {
                DnsQueryStatus::InProgress { .. } => {
                    proof {
                        assert(s.queries[k as int].status is InProgress);
                    }
                    pending = true;
                },
                DnsQueryStatus::Completed { completed, .. } => {
                    earliest = match earliest {
                        Some(t) => if *completed < t {
                            Some(*completed)
                        } else {
                            Some(t)
                        },
                        None => Some(*completed),
                    };
                },
            }
            k = k + 1;
        }
        if pending {
            match earliest {
                Some(t) => {
                    if now - t < crate::model::RESOLUTION_DELAY {
                        let d = crate::model::RESOLUTION_DELAY - (now - t);
                        return Some(
                            Output::StartTimer {
                                timer_type: crate::proto::TimerType::ResolutionDelay,
                                duration: d,
                            },
                        );
                    }
                },
                None => {},
            }
        }
        None
    }

    /// Whether some record in the list offers this ALPN protocol.
    fn infos_offer_alpn(infos: &Vec<ServiceInfo>, p: AlpnProtocol) -> (r: bool)
        ensures
            r == (exists|j: int|
                0 <= j < infos@.len() && (#[trigger] infos@[j]@).alpn_protocols.contains(p)),
    {
        let n = infos.len();
        let mut j: usize = 0;
        while j < n
            invariant
                j <= n,
                n == infos@.len(),
                forall|m: int|
                    0 <= m < j ==> !(#[trigger] infos@[m]@).alpn_protocols.contains(p),
            decreases n - j,
        {
            let alpns = &infos[j].alpn_protocols;
            let an = alpns.len();
            let mut k: usize = 0;
            while k < an
                invariant
                    k <= an,
                    an == alpns@.len(),
                    alpns@ == infos@[j as int].alpn_protocols@,
                    j < n == infos@.len(),
                    forall|m: int| 0 <= m < k ==> alpns@[m] != p,
                decreases an - k,
            {
                if alpns[k] == p {
                    proof {
                        assert((#[trigger] infos@[j as int]@).alpn_protocols[k as int] == p);
                    }
                    return true;
                }
                k = k + 1;
            }
            proof {
                assert forall|m: int|
                    0 <= m < (#[trigger] infos@[j as int]@).alpn_protocols.len() implies infos@[j as int]@.alpn_protocols[m]
                    != p by {
                    assert(alpns@[m] != p);
                }
                assert(!infos@[j as int]@.alpn_protocols.contains(p));
            }
            j = j + 1;
        }
        false
    }

    /// Whether any completed HTTPS answer offers the ALPN protocol.
    fn alpn_observed_exec(&self, p: AlpnProtocol) -> (r: bool)
        ensures
            r == crate::model::alpn_observed(self@, p),
    {
        let n = self.dns_queries.len();
        let mut i: usize = 0;
        while i < n
            invariant
                i <= n,
                n == self@.queries.len(),
                forall|j: int|
                    0 <= j < i ==> !crate::model::query_offers_alpn(
                        #[trigger] self@.queries[j],
                        p,
                    ),
            decreases n - i,
        {
            let ghost qv = self@.queries[i as int];
            match &self.dns_queries[i].status {
                DnsQueryStatus::Completed {
                    data: crate::events::DnsResponseInner::Https(Ok(infos)),
                    ..
                } => {
                    let h = Self::infos_offer_alpn(infos, p);
                    proof {
                        let mapped = infos@.map_values(|si: ServiceInfo| si@);
                        if h {
                            let j = choose|j: int|
                                0 <= j < infos@.len() && (
                                #[trigger] infos@[j]@).alpn_protocols.contains(p);
                            assert((#[trigger] mapped[j]).alpn_protocols.contains(p));
                        } else {
                            assert forall|j: int|
                                0 <= j < mapped.len() implies !(
                            #[trigger] mapped[j]).alpn_protocols.contains(p) by {
                                assert(!(infos@[j]@).alpn_protocols.contains(p));
                            }
                        }
                        assert(h == crate::model::query_offers_alpn(qv, p));
                    }
                    if h {
                        return true;
                    }
                },
                _ => {
                    proof {
                        assert(!crate::model::query_offers_alpn(qv, p));
                    }
                },
            }
            i = i + 1;
        }
        false
    }

    /// Whether a caller-supplied alt-service hint offers the protocol.
    fn alt_svc_offers_exec(&self, p: AlpnProtocol) -> (r: bool)
        ensures
            r == crate::model::alt_svc_offers(self@, p),
    {
        let n = self.network_config.alt_svc.len();
        let mut i: usize = 0;
        while i < n
            invariant
                i <= n,
                n == self@.config.alt_svc.len(),
                forall|j: int| 0 <= j < i ==> (#[trigger] self@.config.alt_svc[j]).protocol != p,
            decreases n - i,
        {
            if self.network_config.alt_svc[i].protocol == p {
                proof {
                    assert((#[trigger] self@.config.alt_svc[i as int]).protocol == p);
                }
                return true;
            }
            proof {
                assert((#[trigger] self@.config.alt_svc[i as int]).protocol != p);
            }
            i = i + 1;
        }
        false
    }

    /// Whether the protocol belongs to the effective set.
    fn proto_enabled_exec(&self, p: AlpnProtocol) -> (r: bool)
        ensures
            r == crate::model::proto_enabled(self@, p),
    {
        match p {
            AlpnProtocol::H3 => self.network_config.http_versions.h3 && (self.alpn_observed_exec(
                AlpnProtocol::H3,
            ) || self.alt_svc_offers_exec(AlpnProtocol::H3)),
            AlpnProtocol::H2 => self.network_config.http_versions.h2,
            AlpnProtocol::H1 => self.network_config.http_versions.h1,
        }
    }

    /// The attempt protocols to try, strongest first.
    fn protocol_list_exec(&self) -> (r: Vec<ConnectionAttemptProtocol>)
        ensures
            r@ == crate::model::protocol_list(self@),
    {
        let mut r: Vec<ConnectionAttemptProtocol> = Vec::new();
        if self.proto_enabled_exec(AlpnProtocol::H3) {
            r.push(ConnectionAttemptProtocol::H3);
        }
        let h2 = self.proto_enabled_exec(AlpnProtocol::H2);
        let h1 = self.proto_enabled_exec(AlpnProtocol::H1);
        if h2 && h1 {
            r.push(ConnectionAttemptProtocol::H2OrH1);
        } else if h2 {
            r.push(ConnectionAttemptProtocol::H2);
        } else if h1 {
            r.push(ConnectionAttemptProtocol::H1);
        }
        proof {
            assert(r@ =~= crate::model::protocol_list(self@));
        }
        r
    }

    /// The first Encrypted Client Hello configuration in the records whose
    /// target name is the primary target.
    fn ech_from_infos(infos: &Vec<ServiceInfo>, primary: &TargetName) -> (r: Option<Vec<u8>>)
        ensures
            opt_bytes_view(&r) == crate::model::ech_in_infos(
                infos@.map_values(|si: ServiceInfo| si@),
                primary@,
            ),
    {
        let ghost mapped = infos@.map_values(|si: ServiceInfo| si@);
        proof {
            assert(mapped.skip(0) =~= mapped);
        }
        let n = infos.len();
        let mut j: usize = 0;
        while j < n
            invariant
                j <= n,
                n == infos@.len(),
                mapped == infos@.map_values(|si: ServiceInfo| si@),
                crate::model::ech_in_infos(mapped, primary@) == crate::model::ech_in_infos(
                    mapped.skip(j as int),
                    primary@,
                ),
            decreases n - j,
        {
            proof {
                assert(mapped.skip(j as int)[0] == mapped[j as int]);
                assert(mapped.skip(j as int).drop_first() =~= mapped.skip(j + 1));
            }
            let name_matches = infos[j].target_name == *primary;
            if name_matches && infos[j].ech_config.is_some() {
                let e = clone_opt_bytes(&infos[j].ech_config);
                return e;
            }
            j = j + 1;
        }
        proof {
            assert(mapped.skip(n as int) =~= Seq::<crate::events::ServiceInfoView>::empty());
        }
        None
    }

    /// The Encrypted Client Hello configuration applied to candidates.
    fn effective_ech_exec(&self) -> (r: Option<Vec<u8>>)
        ensures
            opt_bytes_view(&r) == crate::model::effective_ech(self@),
    {
        let pn = match &self.host {
            Host::Name(n) => n,
            Host::Ip(_) => {
                proof {
                    let ghost s = self@;
                    assert forall|m: int|
                        0 <= m <= s.queries.len() implies crate::model::effective_ech_upto(s, m)
                        is None by {
                        crate::model::lemma_ech_upto_none_ip(s, m);
                    }
                }
                return None;
            },
        };
        let n = self.dns_queries.len();
        let mut i: usize = 0;
        while i < n
            invariant
                i <= n,
                n == self@.queries.len(),
                self@.host is Name,
                pn@ == crate::model::primary_name(self@),
                crate::model::effective_ech_upto(self@, i as int) is None,
            decreases n - i,
        {
            let ghost qv = self@.queries[i as int];
            match &self.dns_queries[i].status {
                DnsQueryStatus::Completed {
                    data: crate::events::DnsResponseInner::Https(Ok(infos)),
                    ..
                } => {
                    let e = Self::ech_from_infos(infos, pn);
                    match e {
                        Some(bytes) => {
                            proof {
                                assert(crate::model::ech_of_query(
                                    qv,
                                    crate::model::primary_name(self@),
                                ) == Some(bytes@));
                                assert(crate::model::effective_ech_upto(self@, i + 1) == Some(
                                    bytes@,
                                ));
                                crate::model::lemma_ech_upto_persists(self@, i + 1, n as int);
                            }
                            return Some(bytes);
                        },
                        None => {
                            proof {
                                assert(crate::model::ech_of_query(
                                    qv,
                                    crate::model::primary_name(self@),
                                ) is None);
                            }
                        },
                    }
                },
                _ => {
                    proof {
                        assert(crate::model::ech_of_query(
                            qv,
                            crate::model::primary_name(self@),
                        ) is None);
                    }
                },
            }
            i = i + 1;
        }
        None
    }

    /// Whether a positive non-empty AAAA answer exists for the primary
    /// target.
    fn got_positive_aaaa_exec(&self) -> (r: bool)
        ensures
            r == crate::model::got_positive_aaaa(self@),
    {
        let n = self.dns_queries.len();
        let mut i: usize = 0;
        while i < n
            invariant
                i <= n,
                n == self@.queries.len(),
                forall|j: int|
                    0 <= j < i ==> !(crate::model::is_primary(self@, #[trigger] self@.queries[j])
                        && match self@.queries[j].status {
                        crate::ledger::QueryStatusView::Completed {
                            data: crate::events::DnsDataView::Aaaa(Ok(addrs)),
                            ..
                        } => addrs.len() > 0,
                        _ => false,
                    }),
            decreases n - i,
        {
            let ghost qv = self@.queries[i as int];
            let q = &self.dns_queries[i];
            let primary = match &self.host {
                Host::Name(nm) => q.target_name == *nm,
                Host::Ip(_) => false,
            };
            match &q.status {
                DnsQueryStatus::Completed {
                    data: crate::events::DnsResponseInner::Aaaa(Ok(addrs)),
                    ..
                } => {
                    if primary && addrs.len() > 0 {
                        proof {
                            assert(crate::model::is_primary(self@, qv));
                        }
                        return true;
                    }
                },
                _ => {},
            }
            i = i + 1;
        }
        false
    }

    /// Whether a positive non-empty A answer exists for the primary
    /// target.
    fn got_positive_a_exec(&self) -> (r: bool)
        ensures
            r == crate::model::got_positive_a(self@),
    {
        let n = self.dns_queries.len();
        let mut i: usize = 0;
        while i < n
            invariant
                i <= n,
                n == self@.queries.len(),
                forall|j: int|
                    0 <= j < i ==> !(crate::model::is_primary(self@, #[trigger] self@.queries[j])
                        && match self@.queries[j].status {
                        crate::ledger::QueryStatusView::Completed {
                            data: crate::events::DnsDataView::A(Ok(addrs)),
                            ..
                        } => addrs.len() > 0,
                        _ => false,
                    }),
            decreases n - i,
        {
            let ghost qv = self@.queries[i as int];
            let q = &self.dns_queries[i];
            let primary = match &self.host {
                Host::Name(nm) => q.target_name == *nm,
                Host::Ip(_) => false,
            };
            match &q.status {
                DnsQueryStatus::Completed {
                    data: crate::events::DnsResponseInner::A(Ok(addrs)),
                    ..
                } => {
                    if primary && addrs.len() > 0 {
                        proof {
                            assert(crate::model::is_primary(self@, qv));
                        }
                        return true;
                    }
                },
                _ => {},
            }
            i = i + 1;
        }
        false
    }

    /// All candidate IPv6 addresses, in ledger order: positive AAAA
    /// answers, plus HTTPS hints while no positive AAAA answer exists.
    fn v6_addrs_exec(&self) -> (r: Vec<crate::addr::Ipv6Address>)
        ensures
            r@ == crate::model::v6_addrs(self@),
    {
        let ghost s = self@;
        let got = self.got_positive_aaaa_exec();
        let n = self.dns_queries.len();
        let mut acc: Vec<crate::addr::Ipv6Address> = Vec::new();
        let mut i: usize = 0;
        proof {
            assert(acc@ =~= crate::model::v6_addrs_upto(s, 0));
        }
        while i < n
            invariant
                i <= n,
                n == s.queries.len(),
                s == self@,
                got == crate::model::got_positive_aaaa(s),
                acc@ == crate::model::v6_addrs_upto(s, i as int),
            decreases n - i,
        {
            let ghost qv = s.queries[i as int];
            let ghost before = acc@;
            match &self.dns_queries[i].status {
                DnsQueryStatus::Completed {
                    data: crate::events::DnsResponseInner::Aaaa(Ok(addrs)),
                    ..
                } => {
                    let m = addrs.len();
                    let mut k: usize = 0;
                    while k < m
                        invariant
                            k <= m,
                            m == addrs@.len(),
                            acc@ == before + addrs@.take(k as int),
                        decreases m - k,
                    {
                        acc.push(addrs[k]);
                        proof {
                            assert(before + addrs@.take(k + 1) =~= (before + addrs@.take(
                                k as int,
                            )).push(addrs@[k as int]));
                        }
                        k = k + 1;
                    }
                    proof {
                        assert(addrs@.take(m as int) =~= addrs@);
                        assert(crate::model::query_v6_addrs(s, qv) == addrs@);
                    }
                },
                DnsQueryStatus::Completed {
                    data: crate::events::DnsResponseInner::Https(Ok(infos)),
                    ..
                } => {
                    if !got {
                        let ghost mapped = infos@.map_values(|si: ServiceInfo| si@);
                        proof {
                            assert(crate::model::infos_v6_hints(mapped.take(0)) =~= Seq::<
                                crate::addr::Ipv6Address,
                            >::empty());
                            assert(before + crate::model::infos_v6_hints(mapped.take(0)) =~= before);
                        }
                        let jn = infos.len();
                        let mut j: usize = 0;
                        while j < jn
                            invariant
                                j <= jn,
                                jn == infos@.len(),
                                mapped == infos@.map_values(|si: ServiceInfo| si@),
                                acc@ == before + crate::model::infos_v6_hints(
                                    mapped.take(j as int),
                                ),
                            decreases jn - j,
                        {
                            let hints = &infos[j].ipv6_hints;
                            let hm = hints.len();
                            let ghost hbefore = acc@;
                            let mut k: usize = 0;
                            while k < hm
                                invariant
                                    k <= hm,
                                    hm == hints@.len(),
                                    acc@ == hbefore + hints@.take(k as int),
                                decreases hm - k,
                            {
                                acc.push(hints[k]);
                                proof {
                                    assert(hbefore + hints@.take(k + 1) =~= (hbefore + hints@.take(
                                        k as int,
                                    )).push(hints@[k as int]));
                                }
                                k = k + 1;
                            }
                            proof {
                                assert(hints@.take(hm as int) =~= hints@);
                                assert(mapped.take(j + 1).drop_last() =~= mapped.take(j as int));
                                assert(mapped.take(j + 1).last() == mapped[j as int]);
                                assert(mapped[j as int].ipv6_hints == hints@);
                                assert(hbefore + hints@ =~= before + crate::model::infos_v6_hints(
                                    mapped.take(j + 1),
                                ));
                            }
                            j = j + 1;
                        }
                        proof {
                            assert(mapped.take(jn as int) =~= mapped);
                            assert(crate::model::query_v6_addrs(s, qv)
                                == crate::model::infos_v6_hints(mapped));
                        }
                    } else {
                        proof {
                            assert(crate::model::query_v6_addrs(s, qv) =~= Seq::<
                                crate::addr::Ipv6Address,
                            >::empty());
                            assert(acc@ =~= before + crate::model::query_v6_addrs(s, qv));
                        }
                    }
                },
                _ => {
                    proof {
                        assert(crate::model::query_v6_addrs(s, qv) =~= Seq::<
                            crate::addr::Ipv6Address,
                        >::empty());
                        assert(acc@ =~= before + crate::model::query_v6_addrs(s, qv));
                    }
                },
            }
            proof {
                assert(acc@ =~= crate::model::v6_addrs_upto(s, i + 1));
            }
            i = i + 1;
        }
        acc
    }

    /// All candidate IPv4 addresses, in ledger order: positive A answers,
    /// plus HTTPS hints while no positive A answer exists.
    fn v4_addrs_exec(&self) -> (r: Vec<crate::addr::Ipv4Address>)
        ensures
            r@ == crate::model::v4_addrs(self@),
    {
        let ghost s = self@;
        let got = self.got_positive_a_exec();
        let n = self.dns_queries.len();
        let mut acc: Vec<crate::addr::Ipv4Address> = Vec::new();
        let mut i: usize = 0;
        proof {
            assert(acc@ =~= crate::model::v4_addrs_upto(s, 0));
        }
        while i < n
            invariant
                i <= n,
                n == s.queries.len(),
                s == self@,
                got == crate::model::got_positive_a(s),
                acc@ == crate::model::v4_addrs_upto(s, i as int),
            decreases n - i,
        {
            let ghost qv = s.queries[i as int];
            let ghost before = acc@;
            match &self.dns_queries[i].status {
                DnsQueryStatus::Completed {
                    data: crate::events::DnsResponseInner::A(Ok(addrs)),
                    ..
                } => {
                    let m = addrs.len();
                    let mut k: usize = 0;
                    while k < m
                        invariant
                            k <= m,
                            m == addrs@.len(),
                            acc@ == before + addrs@.take(k as int),
                        decreases m - k,
                    {
                        acc.push(addrs[k]);
                        proof {
                            assert(before + addrs@.take(k + 1) =~= (before + addrs@.take(
                                k as int,
                            )).push(addrs@[k as int]));
                        }
                        k = k + 1;
                    }
                    proof {
                        assert(addrs@.take(m as int) =~= addrs@);
                        assert(crate::model::query_v4_addrs(s, qv) == addrs@);
                    }
                },
                DnsQueryStatus::Completed {
                    data: crate::events::DnsResponseInner::Https(Ok(infos)),
                    ..
                } => {
                    if !got {
                        let ghost mapped = infos@.map_values(|si: ServiceInfo| si@);
                        proof {
                            assert(crate::model::infos_v4_hints(mapped.take(0)) =~= Seq::<
                                crate::addr::Ipv4Address,
                            >::empty());
                            assert(before + crate::model::infos_v4_hints(mapped.take(0)) =~= before);
                        }
                        let jn = infos.len();
                        let mut j: usize = 0;
                        while j < jn
                            invariant
                                j <= jn,
                                jn == infos@.len(),
                                mapped == infos@.map_values(|si: ServiceInfo| si@),
                                acc@ == before + crate::model::infos_v4_hints(
                                    mapped.take(j as int),
                                ),
                            decreases jn - j,
                        {
                            let hints = &infos[j].ipv4_hints;
                            let hm = hints.len();
                            let ghost hbefore = acc@;
                            let mut k: usize = 0;
                            while k < hm
                                invariant
                                    k <= hm,
                                    hm == hints@.len(),
                                    acc@ == hbefore + hints@.take(k as int),
                                decreases hm - k,
                            {
                                acc.push(hints[k]);
                                proof {
                                    assert(hbefore + hints@.take(k + 1) =~= (hbefore + hints@.take(
                                        k as int,
                                    )).push(hints@[k as int]));
                                }
                                k = k + 1;
                            }
                            proof {
                                assert(hints@.take(hm as int) =~= hints@);
                                assert(mapped.take(j + 1).drop_last() =~= mapped.take(j as int));
                                assert(mapped.take(j + 1).last() == mapped[j as int]);
                                assert(mapped[j as int].ipv4_hints == hints@);
                                assert(hbefore + hints@ =~= before + crate::model::infos_v4_hints(
                                    mapped.take(j + 1),
                                ));
                            }
                            j = j + 1;
                        }
                        proof {
                            assert(mapped.take(jn as int) =~= mapped);
                            assert(crate::model::query_v4_addrs(s, qv)
                                == crate::model::infos_v4_hints(mapped));
                        }
                    } else {
                        proof {
                            assert(crate::model::query_v4_addrs(s, qv) =~= Seq::<
                                crate::addr::Ipv4Address,
                            >::empty());
                            assert(acc@ =~= before + crate::model::query_v4_addrs(s, qv));
                        }
                    }
                },
                _ => {
                    proof {
                        assert(crate::model::query_v4_addrs(s, qv) =~= Seq::<
                            crate::addr::Ipv4Address,
                        >::empty());
                        assert(acc@ =~= before + crate::model::query_v4_addrs(s, qv));
                    }
                },
            }
            proof {
                assert(acc@ =~= crate::model::v4_addrs_upto(s, i + 1));
            }
            i = i + 1;
        }
        acc
    }

    /// Appends endpoints for every IPv6 address under one protocol.
    fn push_v6_endpoints(
        &self,
        acc: &mut Vec<Endpoint>,
        addrs: &Vec<crate::addr::Ipv6Address>,
        p: ConnectionAttemptProtocol,
        ech: &Option<Vec<u8>>,
    )
        requires
            opt_bytes_view(ech) == crate::model::effective_ech(self@),
        ensures
            final(acc)@.map_values(|e: Endpoint| e@) == old(acc)@.map_values(|e: Endpoint| e@)
                + addrs@.map_values(
                |a: crate::addr::Ipv6Address| crate::model::endpoint_of(
                    self@,
                    IpAddress::V6(a),
                    p,
                ),
            ),
    {
        let ghost s = self@;
        let ghost before = acc@.map_values(|e: Endpoint| e@);
        let ghost f = |a: crate::addr::Ipv6Address| crate::model::endpoint_of(
            s,
            IpAddress::V6(a),
            p,
        );
        let n = addrs.len();
        let mut k: usize = 0;
        proof {
            assert(acc@.map_values(|e: Endpoint| e@) =~= before + addrs@.take(0).map_values(f));
        }
        while k < n
            invariant
                k <= n,
                n == addrs@.len(),
                s == self@,
                opt_bytes_view(ech) == crate::model::effective_ech(s),
                acc@.map_values(|e: Endpoint| e@) == before + addrs@.take(k as int).map_values(f),
            decreases n - k,
        {
            let ep = Endpoint::new(
                SocketAddress::new(IpAddress::V6(addrs[k]), self.port),
                p,
                clone_opt_bytes(ech),
            );
            proof {
                assert(ep@ == f(addrs@[k as int]));
            }
            acc.push(ep);
            proof {
                assert(acc@.map_values(|e: Endpoint| e@) =~= (before + addrs@.take(
                    k as int,
                ).map_values(f)).push(f(addrs@[k as int])));
                assert(before + addrs@.take(k + 1).map_values(f) =~= (before + addrs@.take(
                    k as int,
                ).map_values(f)).push(f(addrs@[k as int])));
            }
            k = k + 1;
        }
        proof {
            assert(addrs@.take(n as int) =~= addrs@);
        }
    }

    /// Appends endpoints for every IPv4 address under one protocol.
    fn push_v4_endpoints(
        &self,
        acc: &mut Vec<Endpoint>,
        addrs: &Vec<crate::addr::Ipv4Address>,
        p: ConnectionAttemptProtocol,
        ech: &Option<Vec<u8>>,
    )
        requires
            opt_bytes_view(ech) == crate::model::effective_ech(self@),
        ensures
            final(acc)@.map_values(|e: Endpoint| e@) == old(acc)@.map_values(|e: Endpoint| e@)
                + addrs@.map_values(
                |a: crate::addr::Ipv4Address| crate::model::endpoint_of(
                    self@,
                    IpAddress::V4(a),
                    p,
                ),
            ),
    {
        let ghost s = self@;
        let ghost before = acc@.map_values(|e: Endpoint| e@);
        let ghost f = |a: crate::addr::Ipv4Address| crate::model::endpoint_of(
            s,
            IpAddress::V4(a),
            p,
        );
        let n = addrs.len();
        let mut k: usize = 0;
        proof {
            assert(acc@.map_values(|e: Endpoint| e@) =~= before + addrs@.take(0).map_values(f));
        }
        while k < n
            invariant
                k <= n,
                n == addrs@.len(),
                s == self@,
                opt_bytes_view(ech) == crate::model::effective_ech(s),
                acc@.map_values(|e: Endpoint| e@) == before + addrs@.take(k as int).map_values(f),
            decreases n - k,
        {
            let ep = Endpoint::new(
                SocketAddress::new(IpAddress::V4(addrs[k]), self.port),
                p,
                clone_opt_bytes(ech),
            );
            proof {
                assert(ep@ == f(addrs@[k as int]));
            }
            acc.push(ep);
            proof {
                assert(acc@.map_values(|e: Endpoint| e@) =~= (before + addrs@.take(
                    k as int,
                ).map_values(f)).push(f(addrs@[k as int])));
                assert(before + addrs@.take(k + 1).map_values(f) =~= (before + addrs@.take(
                    k as int,
                ).map_values(f)).push(f(addrs@[k as int])));
            }
            k = k + 1;
        }
        proof {
            assert(addrs@.take(n as int) =~= addrs@);
        }
    }

    /// Builds the sorted candidate list.
    fn build_candidates(&self) -> (r: Vec<Endpoint>)
        ensures
            r@.map_values(|e: Endpoint| e@) == crate::model::candidates(self@),
    {
        let ghost s = self@;
        let protos = self.protocol_list_exec();
        match &self.host {
            Host::Ip(ip) => {
                let mut acc: Vec<Endpoint> = Vec::new();
                if protos.len() > 0 {
                    let ep = Endpoint::new(SocketAddress::new(*ip, self.port), protos[0], None);
                    acc.push(ep);
                }
                proof {
                    assert(acc@.map_values(|e: Endpoint| e@) =~= crate::model::candidates(s));
                }
                return acc;
            },
            Host::Name(_) => {},
        }
        let v6 = self.v6_addrs_exec();
        let v4 = self.v4_addrs_exec();
        let ech = self.effective_ech_exec();
        let prefer6 = self.network_config.prefer_v6();
        let mut acc: Vec<Endpoint> = Vec::new();
        let pn = protos.len();
        let mut k: usize = 0;
        proof {
            assert(acc@.map_values(|e: Endpoint| e@) =~= crate::model::candidates_upto(s, 0));
        }
        while k < pn
            invariant
                k <= pn,
                pn == protos@.len(),
                s == self@,
                protos@ == crate::model::protocol_list(s),
                v6@ == crate::model::v6_addrs(s),
                v4@ == crate::model::v4_addrs(s),
                opt_bytes_view(&ech) == crate::model::effective_ech(s),
                prefer6 == crate::config::spec_prefer_v6(s.config.ip),
                acc@.map_values(|e: Endpoint| e@) == crate::model::candidates_upto(s, k as int),
            decreases pn - k,
        {
            let p = protos[k];
            let ghost mid = acc@.map_values(|e: Endpoint| e@);
            if prefer6 {
                self.push_v6_endpoints(&mut acc, &v6, p, &ech);
                self.push_v4_endpoints(&mut acc, &v4, p, &ech);
            } else {
                self.push_v4_endpoints(&mut acc, &v4, p, &ech);
                self.push_v6_endpoints(&mut acc, &v6, p, &ech);
            }
            proof {
                assert(acc@.map_values(|e: Endpoint| e@) =~= mid + crate::model::proto_candidates(
                    s,
                    protos@[k as int],
                ));
                assert(acc@.map_values(|e: Endpoint| e@) =~= crate::model::candidates_upto(
                    s,
                    k + 1,
                ));
            }
            k = k + 1;
        }
        proof {
            assert(crate::model::candidates(s) == crate::model::candidates_upto(s, pn as int));
        }
        acc
    }

    /// Whether this endpoint equals some existing attempt's endpoint.
    fn attempted_exec(&self, e: &Endpoint) -> (r: bool)
        ensures
            r == crate::model::attempted(self@, e@),
    {
        let n = self.connection_attempts.len();
        let mut i: usize = 0;
        while i < n
            invariant
                i <= n,
                n == self@.attempts.len(),
                forall|j: int| 0 <= j < i ==> (#[trigger] self@.attempts[j]).endpoint != e@,
            decreases n - i,
        {
            if self.connection_attempts[i].endpoint == *e {
                proof {
                    assert((#[trigger] self@.attempts[i as int]).endpoint == e@);
                }
                return true;
            }
            proof {
                assert((#[trigger] self@.attempts[i as int]).endpoint != e@);
            }
            i = i + 1;
        }
        false
    }

    /// The next endpoint to attempt: the first candidate not yet tried.
    fn plan_next(&self) -> (r: Option<Endpoint>)
        ensures
            match r {
                Some(e) => crate::model::next_endpoint(self@) == Some(e@),
                None => crate::model::next_endpoint(self@) is None,
            },
    {
        let ghost s = self@;
        let cands = self.build_candidates();
        let ghost cv = cands@.map_values(|e: Endpoint| e@);
        let n = cands.len();
        let mut k: usize = 0;
        proof {
            assert(cv.skip(0) =~= cv);
        }
        while k < n
            invariant
                k <= n,
                n == cands@.len(),
                s == self@,
                cv == cands@.map_values(|e: Endpoint| e@),
                cv == crate::model::candidates(s),
                crate::model::first_unattempted(s, cv) == crate::model::first_unattempted(
                    s,
                    cv.skip(k as int),
                ),
            decreases n - k,
        {
            proof {
                assert(cv.skip(k as int)[0] == cv[k as int]);
                assert(cv.skip(k as int).drop_first() =~= cv.skip(k + 1));
            }
            if !self.attempted_exec(&cands[k]) {
                let e = cands[k].clone();
                proof {
                    assert(crate::model::first_unattempted(s, cv.skip(k as int)) == Some(
                        cv[k as int],
                    ));
                }
                return Some(e);
            }
            k = k + 1;
        }
        proof {
            assert(cv.skip(n as int) =~= Seq::<crate::events::EndpointView>::empty());
        }
        None
    }

    /// The next DNS query to emit for a target name discovered in the
    /// given records.
    fn next_disc_in_infos_exec(&self, infos: &Vec<ServiceInfo>) -> (r: Option<
        (TargetName, DnsRecordType),
    >)
        ensures
            match r {
                Some((nm, rt)) => crate::model::next_disc_in_infos(
                    self@,
                    infos@.map_values(|si: ServiceInfo| si@),
                ) == Some((nm@, rt)),
                None => crate::model::next_disc_in_infos(
                    self@,
                    infos@.map_values(|si: ServiceInfo| si@),
                ) is None,
            },
    {
        let ghost s = self@;
        let ghost mapped = infos@.map_values(|si: ServiceInfo| si@);
        proof {
            assert(mapped.skip(0) =~= mapped);
        }
        let n = infos.len();
        let mut j: usize = 0;
        while j < n
            invariant
                j <= n,
                n == infos@.len(),
                s == self@,
                mapped == infos@.map_values(|si: ServiceInfo| si@),
                crate::model::next_disc_in_infos(s, mapped) == crate::model::next_disc_in_infos(
                    s,
                    mapped.skip(j as int),
                ),
            decreases n - j,
        {
            proof {
                assert(mapped.skip(j as int)[0] == mapped[j as int]);
                assert(mapped.skip(j as int).drop_first() =~= mapped.skip(j + 1));
            }
            let nm = &infos[j].target_name;
            let not_primary = match &self.host {
                Host::Name(p) => !(*nm == *p),
                Host::Ip(_) => false,
            };
            if not_primary {
                if !self.has_query_exec(nm, DnsRecordType::Aaaa) {
                    return Some((nm.clone(), DnsRecordType::Aaaa));
                }
                if !self.has_query_exec(nm, DnsRecordType::A) {
                    return Some((nm.clone(), DnsRecordType::A));
                }
            }
            j = j + 1;
        }
        proof {
            assert(mapped.skip(n as int) =~= Seq::<crate::events::ServiceInfoView>::empty());
        }
        None
    }

    /// The next DNS query to emit for a discovered target name.
    fn next_discovered_exec(&self) -> (r: Option<(TargetName, DnsRecordType)>)
        ensures
            match r {
                Some((nm, rt)) => crate::model::next_discovered(self@) == Some((nm@, rt)),
                None => crate::model::next_discovered(self@) is None,
            },
    {
        let ghost s = self@;
        let n = self.dns_queries.len();
        let mut i: usize = 0;
        while i < n
            invariant
                i <= n,
                n == s.queries.len(),
                s == self@,
                crate::model::next_discovered(s) == crate::model::next_discovered_from(
                    s,
                    i as int,
                ),
            decreases n - i,
        {
            let ghost qv = s.queries[i as int];
            match &self.dns_queries[i].status {
                DnsQueryStatus::Completed {
                    data: crate::events::DnsResponseInner::Https(Ok(infos)),
                    ..
                } => {
                    match self.next_disc_in_infos_exec(infos) {
                        Some(x) => {
                            return Some(x);
                        },
                        None => {},
                    }
                },
                _ => {},
            }
            i = i + 1;
        }
        None
    }

    /// Folds an input event into the ledgers.
    fn apply_input_exec(&mut self, input: Option<Input>, now: u64)
        requires
            wf(old(self)@),
        ensures
            final(self)@ == apply_input(old(self)@, opt_input_view(&input), now),
    {
        match input {
            None => {},
            Some(Input::DnsResponse(r)) => {
                self.on_dns_response(r, now);
            },
            Some(Input::ConnectionResult { id, result }) => {
                self.on_connection_result(id, result.is_ok());
            },
        }
    }

    /// Processes one top-level call: folds the input (if any) into the
    /// ledgers, then emits the highest-priority output that applies, or
    /// nothing.
    ///
    /// The caller keeps calling with `None` until it gets `None` or a
    /// timer request, then waits for the timer or an external event.
    /// `now` is the caller's monotonic clock in milliseconds; it must
    /// never run backwards.
    pub fn process(&mut self, input: Option<Input>, now: u64) -> (r: Option<Output>)
        requires
            wf(old(self)@),
            times_le(old(self)@, now),
        ensures
            final(self)@ == crate::model::spec_step(old(self)@, opt_input_view(&input), now).0,
            opt_output_view(&r) == crate::model::spec_step(old(self)@, opt_input_view(&input), now).1,
            wf(final(self)@),
            times_le(final(self)@, now),
    {
        proof {
            crate::model::lemma_step_preserves(old(self)@, opt_input_view(&input), now);
        }
        match self.terminal {
            Some(Terminal::Succeeded) => {
                return Some(Output::Succeeded);
            },
            Some(Terminal::Failed) => {
                return Some(Output::Failed);
            },
            None => {},
        }
        self.apply_input_exec(input, now);
        proof {
            crate::model::lemma_apply_input_preserves(
                old(self)@,
                opt_input_view(&input),
                now,
            );
        }
        let ghost s1 = self@;
        // Cancellations and the terminal success report come first.
        if self.has_succeeded_exec() {
            match self.first_in_progress_exec() {
                Some(i) => {
                    proof {
                        crate::model::lemma_first_in_progress_bounds(s1, 0);
                    }
                    let addr = self.connection_attempts[i].endpoint.address;
                    let aid = self.connection_attempts[i].id;
                    let ep = self.connection_attempts[i].endpoint.clone();
                    let st = self.connection_attempts[i].started;
                    let entry = ConnectionAttempt {
                        id: aid,
                        endpoint: ep,
                        started: st,
                        status: AttemptStatus::Failed,
                    };
                    self.connection_attempts.set(i, entry);
                    proof {
                        assert(self@ =~~= crate::model::emit(s1, now).0);
                    }
                    return Some(Output::CancelConnection(addr));
                },
                None => {
                    self.terminal = Some(Terminal::Succeeded);
                    proof {
                        assert(self@ =~~= crate::model::emit(s1, now).0);
                    }
                    return Some(Output::Succeeded);
                },
            }
        }
        // DNS queries for the primary target.
        if let Some(rt) = self.next_primary_record_exec() {
            if self.ids.can_mint() {
                let name = self.primary_name_exec();
                let id = self.ids.next_id();
                let entry = DnsQuery {
                    id,
                    target_name: name.clone(),
                    record_type: rt,
                    status: DnsQueryStatus::InProgress { started: now },
                };
                self.dns_queries.push(entry);
                proof {
                    assert(self@.queries =~~= crate::model::emit(s1, now).0.queries);
                    assert(self@ =~~= crate::model::emit(s1, now).0);
                }
                return Some(Output::SendDnsQuery { id, hostname: name, record_type: rt });
            }
        }
        // A connection attempt, when the engine is ready and the stagger
        // window is clear.
        if self.ready_exec(now) && self.stagger_clear_exec(now) {
            if let Some(ep) = self.plan_next() {
                if self.ids.can_mint() {
                    let id = self.ids.next_id();
                    let entry = ConnectionAttempt {
                        id,
                        endpoint: ep.clone(),
                        started: now,
                        status: AttemptStatus::InProgress,
                    };
                    self.connection_attempts.push(entry);
                    proof {
                        assert(self@.attempts =~~= crate::model::emit(s1, now).0.attempts);
                        assert(self@ =~~= crate::model::emit(s1, now).0);
                    }
                    return Some(Output::AttemptConnection { id, endpoint: ep });
                }
            }
        }
        // DNS queries for target names discovered in HTTPS answers.
        if let Some((nm, rt)) = self.next_discovered_exec() {
            if self.ids.can_mint() {
                let id = self.ids.next_id();
                let entry = DnsQuery {
                    id,
                    target_name: nm.clone(),
                    record_type: rt,
                    status: DnsQueryStatus::InProgress { started: now },
                };
                self.dns_queries.push(entry);
                proof {
                    assert(self@.queries =~~= crate::model::emit(s1, now).0.queries);
                    assert(self@ =~~= crate::model::emit(s1, now).0);
                }
                return Some(Output::SendDnsQuery { id, hostname: nm, record_type: rt });
            }
        }
        // A timer, when something is worth waking for.
        if let Some(o) = self.timer_exec(now) {
            return Some(o);
        }
        // Terminal failure once nothing is pending and nothing is left to
        // try.
        if !self.dns_pending_exec() && !self.attempt_pending_exec() {
            self.terminal = Some(Terminal::Failed);
            proof {
                assert(self@ =~~= crate::model::emit(s1, now).0);
            }
            return Some(Output::Failed);
        }
        None
    }
}

} // verus!
