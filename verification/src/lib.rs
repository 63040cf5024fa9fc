//! A pure, I/O-free state machine for Happy Eyeballs v3 connection
//! establishment: given one target host and port, it interleaves DNS
//! discovery (HTTPS, AAAA, A) with staggered connection attempts, prefers
//! modern protocols and address families, and reports the first successful
//! endpoint or a definitive failure.
//!
//! The engine owns no sockets, clocks or resolvers. The caller feeds it
//! inputs (DNS results, connection outcomes) together with a monotonic
//! timestamp, and performs the outputs it emits (DNS queries to issue,
//! connection attempts to start, cancellations, timer requests).
#![verifier::loop_isolation(false)]

pub mod addr;
pub mod host;
pub mod config;
pub mod events;
pub mod id;
pub mod engine;
pub mod ledger;
pub mod model;
pub mod name;
pub mod props;
pub mod proto;

pub use addr::IpAddress;
pub use addr::Ipv4Address;
pub use addr::Ipv6Address;
pub use addr::SocketAddress;
pub use config::AltSvcHint;
pub use host::Host;
pub use host::HostParseError;
pub use config::HttpVersions;
pub use config::IpPreference;
pub use config::NetworkConfig;
pub use events::DnsResponse;
pub use events::DnsResponseInner;
pub use events::Endpoint;
pub use events::Input;
pub use events::Output;
pub use events::ServiceInfo;
pub use id::Id;
pub use id::IdGenerator;
pub use name::TargetName;
pub use proto::AlpnProtocol;
pub use proto::ConnectionAttemptProtocol;
pub use proto::DnsRecordType;
pub use proto::TimerType;
pub use engine::HappyEyeballs;
pub use model::Terminal;
pub use model::CONNECTION_ATTEMPT_DELAY;
pub use model::RESOLUTION_DELAY;
