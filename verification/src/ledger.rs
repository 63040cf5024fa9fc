//! The engine's two ledgers: the append-only logs of DNS queries issued and
//! of connection attempts issued.

use vstd::prelude::*;

use crate::events::DnsDataView;
use crate::events::DnsResponseInner;
use crate::events::Endpoint;
use crate::events::EndpointView;
use crate::id::Id;
use crate::name::TargetName;
use crate::proto::DnsRecordType;

verus! {

/// The state of one issued DNS query.
#[derive(Debug, PartialEq)]
pub enum DnsQueryStatus {
    /// Issued, no answer yet.
    InProgress { started: u64 },
    /// Answered (positively or negatively) at `completed`.
    Completed { completed: u64, data: DnsResponseInner },
}

/// The view of one issued DNS query's state.
pub enum QueryStatusView {
    InProgress { started: u64 },
    Completed { completed: u64, data: DnsDataView },
}

impl View for DnsQueryStatus {
    type V = QueryStatusView;

    open spec fn view(&self) -> QueryStatusView {
        match self {
            DnsQueryStatus::InProgress { started } => QueryStatusView::InProgress {
                started: *started,
            },
            DnsQueryStatus::Completed { completed, data } => QueryStatusView::Completed {
                completed: *completed,
                data: data@,
            },
        }
    }
}

/// One entry of the DNS ledger: a query the engine has asked the caller to
/// issue.
#[derive(Debug, PartialEq)]
pub struct DnsQuery {
    /// Correlator minted when the query was emitted.
    pub id: Id,
    /// The name queried.
    pub target_name: TargetName,
    /// The record type queried.
    pub record_type: DnsRecordType,
    /// In progress or completed.
    pub status: DnsQueryStatus,
}

/// The view of one DNS ledger entry.
pub struct QueryView {
    pub id: Id,
    pub target_name: Seq<char>,
    pub record_type: DnsRecordType,
    pub status: QueryStatusView,
}

impl View for DnsQuery {
    type V = QueryView;

    open spec fn view(&self) -> QueryView {
        QueryView {
            id: self.id,
            target_name: self.target_name@,
            record_type: self.record_type,
            status: self.status@,
        }
    }
}

impl DnsQuery {
    /// The record type this query asks for.
    pub fn record_type(&self) -> (r: DnsRecordType)
        ensures
            r == self@.record_type,
    {
        self.record_type
    }

    /// The name this query asks about.
    pub fn target_name(&self) -> (r: &TargetName)
        ensures
            r@ == self@.target_name,
    {
        &self.target_name
    }

    /// Whether this query has completed with a positive answer.
    pub fn positive(&self) -> (r: bool)
        ensures
            r == self@.positive(),
    {
        match &self.status {
            DnsQueryStatus::InProgress { .. } => false,
            DnsQueryStatus::Completed { data, .. } => data.positive(),
        }
    }

    /// The payload of the answer, if one has arrived.
    pub fn get_response(&self) -> (r: Option<&DnsResponseInner>)
        ensures
            match r {
                Some(d) => self@.status matches QueryStatusView::Completed { data, .. } && d@
                    == data,
                None => self@.status is InProgress,
            },
    {
        match &self.status {
            DnsQueryStatus::InProgress { .. } => None,
            DnsQueryStatus::Completed { data, .. } => Some(data),
        }
    }
}

impl QueryView {
    /// Whether this query has completed (positively or negatively).
    pub open spec fn completed(self) -> bool {
        self.status is Completed
    }

    /// Whether this query has completed with a positive answer.
    pub open spec fn positive(self) -> bool {
        match self.status {
            QueryStatusView::Completed { data, .. } => data.positive(),
            QueryStatusView::InProgress { .. } => false,
        }
    }
}

/// The state of one issued connection attempt.
#[derive(Debug, Clone, Copy, PartialEq, Eq, Structural, Hash)]
pub enum AttemptStatus {
    /// Issued, no outcome yet.
    InProgress,
    /// The caller reported success.
    Succeeded,
    /// The caller reported failure, or the engine emitted a cancellation
    /// for the attempt.
    Failed,
}

/// One entry of the attempt ledger: a connection attempt the engine has
/// asked the caller to start.
#[derive(Debug, PartialEq)]
pub struct ConnectionAttempt {
    /// Correlator minted when the attempt was emitted.
    pub id: Id,
    /// The endpoint being attempted.
    pub endpoint: Endpoint,
    /// When the attempt was emitted.
    pub started: u64,
    /// In progress, succeeded or failed.
    pub status: AttemptStatus,
}

/// The view of one attempt ledger entry.
pub struct AttemptView {
    pub id: Id,
    pub endpoint: EndpointView,
    pub started: u64,
    pub status: AttemptStatus,
}

impl View for ConnectionAttempt {
    type V = AttemptView;

    open spec fn view(&self) -> AttemptView {
        AttemptView {
            id: self.id,
            endpoint: self.endpoint@,
            started: self.started,
            status: self.status,
        }
    }
}

} // verus!
