//! Turning a host name into the one endpoint to talk to. The caller owns
//! the name service: it carries out each lookup and reports the answer.
//! Whether a lookup is needed at all, which lookups are made, which answer
//! counts and which port goes with the address is decided here.

use vstd::prelude::*;
use vstd::string::*;

use crate::address::{ip_literal, read_ip_literal, IpAddress};
use crate::error::QueryError;

verus! {

/// The port of a Java server where none is given.
pub const JAVA_PORT: u16 = 25565;

/// The port of a Bedrock server reached over IPv4 where none is given.
pub const BEDROCK_PORT_V4: u16 = 19132;

/// The port of a Bedrock server reached over IPv6 where none is given.
pub const BEDROCK_PORT_V6: u16 = 19133;

/// What precedes the host name in the name of a Java server's service
/// record.
pub const SRV_PREFIX: &'static str = "_minecraft._tcp.";

/// The two families of servers.
#[derive(Clone, Copy, Debug, PartialEq, Eq, Structural)]
pub enum Edition {
    /// The edition that speaks TCP.
    Java,
    /// The edition that speaks UDP.
    Bedrock,
}

/// The server a query is about, as the user named it.
#[derive(Debug, PartialEq, Eq)]
pub struct ServerAddress {
    /// The host name, or an address written out.
    pub hostname: String,
    /// The port, where the user gave one.
    pub port: Option<u16>,
    /// The edition of the server.
    pub edition: Edition,
}

/// The address and port to talk to.
#[derive(Clone, Copy, Debug, PartialEq, Eq, Structural)]
pub struct ResolvedEndpoint {
    pub ip: IpAddress,
    pub port: u16,
}

/// A service record: the host that provides the service, and its port.
#[derive(Debug, PartialEq, Eq)]
pub struct SrvRecord {
    pub target: String,
    pub port: u16,
}

/// Where a resolution stands.
#[derive(Clone, Copy, Debug, PartialEq, Eq, Structural)]
pub enum ResolvePhase {
    /// The service record was asked for.
    AwaitingSrv,
    /// An address was asked for; `port` goes with it if there is one.
    AwaitingAddress { port: Option<u16> },
    /// The resolution is over.
    Done,
}

/// One resolution in progress.
#[derive(Debug, PartialEq, Eq)]
pub struct Resolver {
    pub address: ServerAddress,
    pub phase: ResolvePhase,
}

/// A resolution as mathematical values.
pub ghost struct ResolverView {
    pub hostname: Seq<char>,
    pub port: Option<u16>,
    pub edition: Edition,
    pub phase: ResolvePhase,
}

impl View for Resolver {
    type V = ResolverView;

    open spec fn view(&self) -> ResolverView {
        ResolverView {
            hostname: self.address.hostname@,
            port: self.address.port,
            edition: self.address.edition,
            phase: self.phase,
        }
    }
}

/// What the caller reports.
#[derive(Debug, PartialEq, Eq)]
pub enum ResolveEvent {
    /// The service records in the order the lookup returned them, or
    /// `None` where the lookup failed.
    Srv { records: Option<Vec<SrvRecord>> },
    /// The addresses in the order the lookup returned them, or `None`
    /// where the lookup failed.
    Address { ips: Option<Vec<IpAddress>> },
}

/// A service record as mathematical values.
pub ghost struct SrvRecordView {
    pub target: Seq<char>,
    pub port: u16,
}

impl View for SrvRecord {
    type V = SrvRecordView;

    open spec fn view(&self) -> SrvRecordView {
        SrvRecordView { target: self.target@, port: self.port }
    }
}

/// An event as mathematical values.
pub ghost enum ResolveEventView {
    Srv { records: Option<Seq<SrvRecordView>> },
    Address { ips: Option<Seq<IpAddress>> },
}

impl View for ResolveEvent {
    type V = ResolveEventView;

    open spec fn view(&self) -> ResolveEventView {
        match self {
            ResolveEvent::Srv { records } => ResolveEventView::Srv {
                records: match records {
                    Some(found) => Some(found@.map_values(|r: SrvRecord| r@)),
                    None => None,
                },
            },
            ResolveEvent::Address { ips } => ResolveEventView::Address {
                ips: match ips {
                    Some(found) => Some(found@),
                    None => None,
                },
            },
        }
    }
}

/// The first of the answers, if the lookup succeeded and returned any.
pub open spec fn first_answer<T>(answers: Option<Seq<T>>) -> Option<T> {
    match answers {
        Some(found) => if found.len() > 0 {
            Some(found[0])
        } else {
            None
        },
        None => None,
    }
}

/// What the caller is to do next.
#[derive(Debug, PartialEq, Eq)]
pub enum ResolveAction {
    /// Look up the service records of `name` and report the first.
    LookupSrv { name: String },
    /// Look up the addresses of `name` and report the first.
    LookupAddress { name: String },
    /// The resolution has ended with `result`.
    Finish { result: Result<ResolvedEndpoint, QueryError> },
}

/// An action as mathematical values.
pub ghost enum ResolveActionView {
    LookupSrv { name: Seq<char> },
    LookupAddress { name: Seq<char> },
    Finish { result: Result<ResolvedEndpoint, QueryError> },
}

impl View for ResolveAction {
    type V = ResolveActionView;

    open spec fn view(&self) -> ResolveActionView {
        match self {
            ResolveAction::LookupSrv { name } => ResolveActionView::LookupSrv { name: name@ },
            ResolveAction::LookupAddress { name } => ResolveActionView::LookupAddress {
                name: name@,
            },
            ResolveAction::Finish { result } => ResolveActionView::Finish { result: *result },
        }
    }
}

/// The port of a server of `edition` at `ip` where none is given.
pub open spec fn default_port(edition: Edition, ip: IpAddress) -> u16 {
    match edition {
        Edition::Java => JAVA_PORT,
        Edition::Bedrock => match ip {
            IpAddress::V4(_) => BEDROCK_PORT_V4,
            IpAddress::V6(_) => BEDROCK_PORT_V6,
        },
    }
}

/// The endpoint at `ip`: on `port` if there is one, else on the default
/// port of the edition.
pub open spec fn endpoint_at(
    edition: Edition,
    port: Option<u16>,
    ip: IpAddress,
) -> ResolvedEndpoint {
    ResolvedEndpoint {
        ip,
        port: match port {
            Some(p) => p,
            None => default_port(edition, ip),
        },
    }
}

/// The name of the service record of a Java server.
pub open spec fn srv_name(hostname: Seq<char>) -> Seq<char> {
    SRV_PREFIX@ + hostname
}

/// The resolution ends with `result`.
pub open spec fn conclude(q: ResolverView, result: Result<ResolvedEndpoint, QueryError>) -> (
    ResolverView,
    ResolveActionView,
) {
    (ResolverView { phase: ResolvePhase::Done, ..q }, ResolveActionView::Finish { result })
}

/// How a resolution begins. A host name that is an address written out is
/// used as it is, with no lookup. A Java name is first asked for its service
/// record; a Bedrock name is looked up at once.
pub open spec fn resolve_start(hostname: Seq<char>, port: Option<u16>, edition: Edition) -> (
    ResolverView,
    ResolveActionView,
) {
    match ip_literal(hostname) {
        Some(ip) => (
            ResolverView { hostname, port, edition, phase: ResolvePhase::Done },
            ResolveActionView::Finish { result: Ok(endpoint_at(edition, port, ip)) },
        ),
        None => match edition {
            Edition::Java => (
                ResolverView { hostname, port, edition, phase: ResolvePhase::AwaitingSrv },
                ResolveActionView::LookupSrv { name: srv_name(hostname) },
            ),
            Edition::Bedrock => (
                ResolverView {
                    hostname,
                    port,
                    edition,
                    phase: ResolvePhase::AwaitingAddress { port },
                },
                ResolveActionView::LookupAddress { name: hostname },
            ),
        },
    }
}

/// The step that a resolution takes on an event. Where there is a service
/// record, its target is looked up and its port replaces any other;
/// otherwise the name itself is looked up. Of the answers only the first
/// counts, with no second try; no answer is a resolution error.
pub open spec fn resolve_step(q: ResolverView, e: ResolveEventView) -> (
    ResolverView,
    ResolveActionView,
) {
    match (q.phase, e) {
        (ResolvePhase::AwaitingSrv, ResolveEventView::Srv { records }) => match first_answer(
            records,
        ) {
            Some(record) => (
                ResolverView {
                    phase: ResolvePhase::AwaitingAddress { port: Some(record.port) },
                    ..q
                },
                ResolveActionView::LookupAddress { name: record.target },
            ),
            None => (
                ResolverView { phase: ResolvePhase::AwaitingAddress { port: q.port }, ..q },
                ResolveActionView::LookupAddress { name: q.hostname },
            ),
        },
        (ResolvePhase::AwaitingAddress { port }, ResolveEventView::Address { ips }) => match
            first_answer(ips) {
            Some(ip) => conclude(q, Ok(endpoint_at(q.edition, port, ip))),
            None => conclude(q, Err(QueryError::ResolutionError)),
        },
        _ => conclude(q, Err(QueryError::ProtocolMismatchError)),
    }
}

/// An address written out is used directly: the resolution ends at once,
/// with that address and the port given, or else the default port: 25565
/// for Java, 19132 for Bedrock over IPv4, 19133 for Bedrock over IPv6.
pub proof fn lemma_literal_skips_lookup(hostname: Seq<char>, port: Option<u16>, edition: Edition)
    requires
        ip_literal(hostname) is Some,
    ensures
        resolve_start(hostname, port, edition).0.phase == ResolvePhase::Done,
        resolve_start(hostname, port, edition).1 == (ResolveActionView::Finish {
            result: Ok(
                ResolvedEndpoint {
                    ip: ip_literal(hostname).unwrap(),
                    port: match port {
                        Some(p) => p,
                        None => match (edition, ip_literal(hostname).unwrap()) {
                            (Edition::Java, _) => 25565u16,
                            (Edition::Bedrock, IpAddress::V4(_)) => 19132u16,
                            (Edition::Bedrock, IpAddress::V6(_)) => 19133u16,
                        },
                    },
                },
            ),
        }),
{
}

/// Only a Java name that is no address is asked for a service record, and
/// under the name that the convention gives.
pub proof fn lemma_srv_only_for_java_names(hostname: Seq<char>, port: Option<u16>, edition: Edition)
    ensures
        resolve_start(hostname, port, edition).1 is LookupSrv <==> (edition == Edition::Java
            && ip_literal(hostname) is None),
        resolve_start(hostname, port, edition).1 matches ResolveActionView::LookupSrv { name }
            ==> name == SRV_PREFIX@ + hostname,
{
}

/// A service record decides both host and port: the target of the first
/// record is what is looked up next, and the endpoint is the first address
/// of that target on the record's port, whatever port the user gave.
pub proof fn lemma_srv_record_decides(
    q: ResolverView,
    records: Seq<SrvRecordView>,
    ips: Seq<IpAddress>,
)
    requires
        q.phase == ResolvePhase::AwaitingSrv,
        records.len() > 0,
        ips.len() > 0,
    ensures
        ({
            let asked = resolve_step(q, ResolveEventView::Srv { records: Some(records) });
            &&& asked.1 == ResolveActionView::LookupAddress { name: records[0].target }
            &&& resolve_step(asked.0, ResolveEventView::Address { ips: Some(ips) }).1
                == ResolveActionView::Finish {
                result: Ok(ResolvedEndpoint { ip: ips[0], port: records[0].port }),
            }
        }),
{
}

/// A lookup of addresses that fails or returns none ends the resolution
/// with a resolution error.
pub proof fn lemma_no_address_fails(q: ResolverView, ips: Option<Seq<IpAddress>>)
    requires
        q.phase is AwaitingAddress,
        ips matches Some(found) ==> found.len() == 0,
    ensures
        resolve_step(q, ResolveEventView::Address { ips }).1 == (ResolveActionView::Finish {
            result: Err(QueryError::ResolutionError),
        }),
{
}

/// The port that goes with `ip`.
fn port_at(edition: Edition, port: Option<u16>, ip: IpAddress) -> (r: ResolvedEndpoint)
    ensures
        r == endpoint_at(edition, port, ip),
{
    let port = match port {
        Some(p) => p,
        None => match edition {
            Edition::Java => JAVA_PORT,
            Edition::Bedrock => match ip {
                IpAddress::V4(_) => BEDROCK_PORT_V4,
                IpAddress::V6(_) => BEDROCK_PORT_V6,
            },
        },
    };
    ResolvedEndpoint { ip, port }
}

/// The first of the records, if the lookup succeeded and returned any.
fn first_record(records: Option<Vec<SrvRecord>>) -> (r: Option<SrvRecord>)
    ensures
        match first_answer(
            match records {
                Some(found) => Some(found@.map_values(|r: SrvRecord| r@)),
                None => None,
            },
        ) {
            Some(record) => r matches Some(got) && got@ == record,
            None => r is None,
        },
{
    match records {
        Some(found) => {
            let mut found = found;
            if found.len() > 0 {
                Some(found.swap_remove(0))
            } else {
                None
            }
        },
        None => None,
    }
}

impl Resolver {
    /// Begins the resolution of `hostname` for a server of `edition`, with
    /// the port the user gave if any.
    pub fn start(hostname: &str, port: Option<u16>, edition: Edition) -> (r: (
        Resolver,
        ResolveAction,
    ))
        ensures
            (r.0@, r.1@) == resolve_start(hostname@, port, edition),
    {
        let address = ServerAddress { hostname: hostname.to_owned(), port, edition };
        match read_ip_literal(hostname) {
            Some(ip) => {
                let endpoint = port_at(edition, port, ip);
                (
                    Resolver { address, phase: ResolvePhase::Done },
                    ResolveAction::Finish { result: Ok(endpoint) },
                )
            },
            None => match edition {
                Edition::Java => {
                    let mut name = SRV_PREFIX.to_owned();
                    name.append(hostname);
                    (
                        Resolver { address, phase: ResolvePhase::AwaitingSrv },
                        ResolveAction::LookupSrv { name },
                    )
                },
                Edition::Bedrock => (
                    Resolver { address, phase: ResolvePhase::AwaitingAddress { port } },
                    ResolveAction::LookupAddress { name: hostname.to_owned() },
                ),
            },
        }
    }
}

/// Takes the resolution one step on: given what the caller reports, the
/// next state and what the caller is to do.
pub fn resolve(resolver: Resolver, event: ResolveEvent) -> (r: (Resolver, ResolveAction))
    ensures
        (r.0@, r.1@) == resolve_step(resolver@, event@),
{
    let Resolver { address, phase } = resolver;
    match (phase, event) {
        (ResolvePhase::AwaitingSrv, ResolveEvent::Srv { records }) => {
            match first_record(records) {
                Some(record) => {
                    let SrvRecord { target, port } = record;
                    (
                        Resolver {
                            address,
                            phase: ResolvePhase::AwaitingAddress { port: Some(port) },
                        },
                        ResolveAction::LookupAddress { name: target },
                    )
                },
                None => {
                    let name = address.hostname.clone();
                    let port = address.port;
                    (
                        Resolver { address, phase: ResolvePhase::AwaitingAddress { port } },
                        ResolveAction::LookupAddress { name },
                    )
                },
            }
        },
        (ResolvePhase::AwaitingAddress { port }, ResolveEvent::Address { ips }) => {
            let first = match ips {
                Some(found) => if found.len() > 0 {
                    Some(found[0])
                } else {
                    None
                },
                None => None,
            };
            match first {
                Some(ip) => {
                    let endpoint = port_at(address.edition, port, ip);
                    (
                        Resolver { address, phase: ResolvePhase::Done },
                        ResolveAction::Finish { result: Ok(endpoint) },
                    )
                },
                None => (
                    Resolver { address, phase: ResolvePhase::Done },
                    ResolveAction::Finish { result: Err(QueryError::ResolutionError) },
                ),
            }
        },
        _ => (
            Resolver { address, phase: ResolvePhase::Done },
            ResolveAction::Finish { result: Err(QueryError::ProtocolMismatchError) },
        ),
    }
}

} // verus!
