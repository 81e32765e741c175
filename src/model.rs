//! The typed graph model: identifiers, node and edge records, and the
//! timestamp rule of an idempotent upsert.
use vstd::prelude::*;
use vstd::string::StringExecFns;

use crate::ids::fresh_uuid;
use crate::text::{lower_of, lowercase, str_eq};

verus! {

/// Isolation domain of every node, edge and engram.
#[derive(Debug, Clone, Copy, PartialEq, Eq, Structural)]
pub struct TenantId(pub u128);

/// Identifier of a graph node.
#[derive(Debug, Clone, Copy, PartialEq, Eq, Structural)]
pub struct NodeId(pub u128);

/// Identifier of a graph edge.
#[derive(Debug, Clone, Copy, PartialEq, Eq, Structural)]
pub struct EdgeId(pub u128);

impl TenantId {
    /// A fresh random tenant identifier.
    pub fn new() -> (r: TenantId) {
        TenantId(fresh_uuid())
    }
}

impl NodeId {
    /// A fresh random node identifier.
    pub fn new() -> (r: NodeId) {
        NodeId(fresh_uuid())
    }
}

impl EdgeId {
    /// A fresh random edge identifier.
    pub fn new() -> (r: EdgeId) {
        EdgeId(fresh_uuid())
    }
}

/// Relationship types.
#[derive(Debug, Clone, Copy, PartialEq, Eq, Structural)]
pub enum EdgeType {
    ConnectsTo,
    HasAccess,
    MemberOf,
    RunsOn,
    Trusts,
    RoutesTo,
    Exposes,
    DependsOn,
    CanReach,
    HasCve,
    HasPort,
    HasCertificate,
    BelongsToSubnet,
    BelongsToVpc,
}

#[derive(Debug, Clone, Copy, PartialEq, Eq, Structural)]
pub enum CloudProvider {
    Aws,
    Azure,
    Gcp,
    OnPrem,
}

#[derive(Debug, Clone, PartialEq, Eq)]
pub enum Protocol {
    Tcp,
    Udp,
    Http,
    Https,
    Ssh,
    Rdp,
    Dns,
    Other(String),
}

#[derive(Debug, Clone, Copy, PartialEq, Eq, Structural)]
pub enum ServiceState {
    Running,
    Stopped,
    Unknown,
}

#[derive(Debug, Clone, Copy, PartialEq, Eq, Structural)]
pub enum PortState {
    Open,
    Closed,
    Filtered,
}

#[derive(Debug, Clone, Copy, PartialEq, Eq, Structural)]
pub enum UserType {
    Human,
    ServiceAccount,
    System,
}

#[derive(Debug, Clone, Copy, PartialEq, Eq, Structural)]
pub enum IdentitySource {
    EntraId,
    Okta,
    AwsIam,
    AzureRbac,
    GcpIam,
    Local,
}

#[derive(Debug, Clone, Copy, PartialEq, Eq, Structural)]
pub enum Criticality {
    Critical,
    High,
    Medium,
    Low,
    Info,
}

#[derive(Debug, Clone, Copy, PartialEq, Eq, Structural)]
pub enum VulnSeverity {
    Critical,
    High,
    Medium,
    Low,
    /// No severity assigned.
    Negligible,
}

#[derive(Debug, Clone, Copy, PartialEq, Eq, Structural)]
pub enum PolicyType {
    IamPolicy,
    FirewallRule,
    SecurityGroup,
    ConditionalAccess,
    NetworkAcl,
}

#[derive(Debug, Clone, Copy, PartialEq, Eq, Structural)]
pub enum AppType {
    WebApp,
    ContainerImage,
    Lambda,
    Daemon,
    Database,
}

/// A discovered host. Times are nanoseconds since the Unix epoch, UTC.
pub struct Host {
    pub id: NodeId,
    pub tenant_id: TenantId,
    pub ip: String,
    pub hostname: Option<String>,
    pub os: Option<String>,
    pub os_version: Option<String>,
    pub mac_address: Option<String>,
    pub cloud_provider: Option<CloudProvider>,
    pub cloud_instance_id: Option<String>,
    pub cloud_region: Option<String>,
    pub criticality: Criticality,
    pub tags: Vec<String>,
    pub first_seen: i64,
    pub last_seen: i64,
}

/// A network service.
pub struct Service {
    pub id: NodeId,
    pub tenant_id: TenantId,
    pub name: String,
    pub version: Option<String>,
    pub port: u16,
    pub protocol: Protocol,
    pub state: ServiceState,
    pub banner: Option<String>,
    pub first_seen: i64,
    pub last_seen: i64,
}

/// A network port of a host.
pub struct Port {
    pub id: NodeId,
    pub tenant_id: TenantId,
    pub number: u16,
    pub protocol: Protocol,
    pub state: PortState,
    pub first_seen: i64,
    pub last_seen: i64,
}

/// A user identity.
pub struct User {
    pub id: NodeId,
    pub tenant_id: TenantId,
    pub username: String,
    pub display_name: Option<String>,
    pub email: Option<String>,
    pub user_type: UserType,
    pub source: IdentitySource,
    pub enabled: bool,
    pub mfa_enabled: Option<bool>,
    pub last_login: Option<i64>,
    pub first_seen: i64,
    pub last_seen: i64,
}

pub struct Group {
    pub id: NodeId,
    pub tenant_id: TenantId,
    pub name: String,
    pub description: Option<String>,
    pub source: IdentitySource,
    pub member_count: Option<u32>,
    pub first_seen: i64,
    pub last_seen: i64,
}

pub struct Role {
    pub id: NodeId,
    pub tenant_id: TenantId,
    pub name: String,
    pub description: Option<String>,
    pub source: IdentitySource,
    pub permissions: Vec<String>,
    pub first_seen: i64,
    pub last_seen: i64,
}

pub struct Policy {
    pub id: NodeId,
    pub tenant_id: TenantId,
    pub name: String,
    pub policy_type: PolicyType,
    pub source: String,
    pub rules_json: Option<String>,
    pub first_seen: i64,
    pub last_seen: i64,
}

pub struct Subnet {
    pub id: NodeId,
    pub tenant_id: TenantId,
    pub cidr: String,
    pub name: Option<String>,
    pub cloud_provider: Option<CloudProvider>,
    pub vpc_id: Option<String>,
    pub is_public: bool,
    pub first_seen: i64,
    pub last_seen: i64,
}

pub struct Vpc {
    pub id: NodeId,
    pub tenant_id: TenantId,
    pub vpc_id: String,
    pub name: Option<String>,
    pub cidr: Option<String>,
    pub cloud_provider: CloudProvider,
    pub region: String,
    pub first_seen: i64,
    pub last_seen: i64,
}

/// A known vulnerability.
pub struct Vulnerability {
    pub id: NodeId,
    pub tenant_id: TenantId,
    pub cve_id: String,
    /// CVSS base score in tenths (0 to 100).
    pub cvss_score: Option<u32>,
    pub cvss_vector: Option<String>,
    /// EPSS probability in millionths.
    pub epss_score: Option<u32>,
    pub severity: VulnSeverity,
    pub description: Option<String>,
    pub exploitable: bool,
    pub in_cisa_kev: bool,
    pub published_date: Option<i64>,
    pub first_seen: i64,
    pub last_seen: i64,
}

pub struct Certificate {
    pub id: NodeId,
    pub tenant_id: TenantId,
    pub subject: String,
    pub issuer: String,
    pub serial_number: String,
    pub not_before: i64,
    pub not_after: i64,
    pub fingerprint_sha256: String,
    pub first_seen: i64,
    pub last_seen: i64,
}

pub struct Application {
    pub id: NodeId,
    pub tenant_id: TenantId,
    pub name: String,
    pub version: Option<String>,
    pub app_type: AppType,
    pub first_seen: i64,
    pub last_seen: i64,
}

pub struct McpServer {
    pub id: NodeId,
    pub tenant_id: TenantId,
    pub name: String,
    pub endpoint: String,
    pub tools: Vec<String>,
    pub authenticated: bool,
    pub tls_enabled: bool,
    pub first_seen: i64,
    pub last_seen: i64,
}

/// A node of the knowledge graph: one of a closed set of kinds.
pub enum Node {
    Host(Host),
    Service(Service),
    Port(Port),
    User(User),
    Group(Group),
    Role(Role),
    Policy(Policy),
    Subnet(Subnet),
    Vpc(Vpc),
    Vulnerability(Vulnerability),
    Certificate(Certificate),
    Application(Application),
    McpServer(McpServer),
}

impl Node {
    pub open spec fn spec_id(&self) -> NodeId {
        match self {
            Node::Host(n) => n.id,
            Node::Service(n) => n.id,
            Node::Port(n) => n.id,
            Node::User(n) => n.id,
            Node::Group(n) => n.id,
            Node::Role(n) => n.id,
            Node::Policy(n) => n.id,
            Node::Subnet(n) => n.id,
            Node::Vpc(n) => n.id,
            Node::Vulnerability(n) => n.id,
            Node::Certificate(n) => n.id,
            Node::Application(n) => n.id,
            Node::McpServer(n) => n.id,
        }
    }

    pub open spec fn spec_tenant_id(&self) -> TenantId {
        match self {
            Node::Host(n) => n.tenant_id,
            Node::Service(n) => n.tenant_id,
            Node::Port(n) => n.tenant_id,
            Node::User(n) => n.tenant_id,
            Node::Group(n) => n.tenant_id,
            Node::Role(n) => n.tenant_id,
            Node::Policy(n) => n.tenant_id,
            Node::Subnet(n) => n.tenant_id,
            Node::Vpc(n) => n.tenant_id,
            Node::Vulnerability(n) => n.tenant_id,
            Node::Certificate(n) => n.tenant_id,
            Node::Application(n) => n.tenant_id,
            Node::McpServer(n) => n.tenant_id,
        }
    }

    /// The node's identifier.
    pub fn id(&self) -> (r: &NodeId)
        ensures
            *r == self.spec_id(),
    {
        match self {
            Node::Host(n) => &n.id,
            Node::Service(n) => &n.id,
            Node::Port(n) => &n.id,
            Node::User(n) => &n.id,
            Node::Group(n) => &n.id,
            Node::Role(n) => &n.id,
            Node::Policy(n) => &n.id,
            Node::Subnet(n) => &n.id,
            Node::Vpc(n) => &n.id,
            Node::Vulnerability(n) => &n.id,
            Node::Certificate(n) => &n.id,
            Node::Application(n) => &n.id,
            Node::McpServer(n) => &n.id,
        }
    }

    /// The tenant the node belongs to.
    pub fn tenant_id(&self) -> (r: &TenantId)
        ensures
            *r == self.spec_tenant_id(),
    {
        match self {
            Node::Host(n) => &n.tenant_id,
            Node::Service(n) => &n.tenant_id,
            Node::Port(n) => &n.tenant_id,
            Node::User(n) => &n.tenant_id,
            Node::Group(n) => &n.tenant_id,
            Node::Role(n) => &n.tenant_id,
            Node::Policy(n) => &n.tenant_id,
            Node::Subnet(n) => &n.tenant_id,
            Node::Vpc(n) => &n.tenant_id,
            Node::Vulnerability(n) => &n.tenant_id,
            Node::Certificate(n) => &n.tenant_id,
            Node::Application(n) => &n.tenant_id,
            Node::McpServer(n) => &n.tenant_id,
        }
    }

    /// The store label of the node's kind.
    pub fn label(&self) -> (r: &'static str)
        ensures
            r@ == node_label(*self),
    {
        match self {
            Node::Host(_) => "Host",
            Node::Service(_) => "Service",
            Node::Port(_) => "Port",
            Node::User(_) => "User",
            Node::Group(_) => "Group",
            Node::Role(_) => "Role",
            Node::Policy(_) => "Policy",
            Node::Subnet(_) => "Subnet",
            Node::Vpc(_) => "Vpc",
            Node::Vulnerability(_) => "Vulnerability",
            Node::Certificate(_) => "Certificate",
            Node::Application(_) => "Application",
            Node::McpServer(_) => "McpServer",
        }
    }
}

/// The store label of a node kind.
pub open spec fn node_label(n: Node) -> Seq<char> {
    match n {
        Node::Host(_) => "Host"@,
        Node::Service(_) => "Service"@,
        Node::Port(_) => "Port"@,
        Node::User(_) => "User"@,
        Node::Group(_) => "Group"@,
        Node::Role(_) => "Role"@,
        Node::Policy(_) => "Policy"@,
        Node::Subnet(_) => "Subnet"@,
        Node::Vpc(_) => "Vpc"@,
        Node::Vulnerability(_) => "Vulnerability"@,
        Node::Certificate(_) => "Certificate"@,
        Node::Application(_) => "Application"@,
        Node::McpServer(_) => "McpServer"@,
    }
}

/// Properties of an edge.
pub struct EdgeProperties {
    pub protocol: Option<Protocol>,
    pub port: Option<u16>,
    pub encrypted: Option<bool>,
    pub permissions: Vec<String>,
    /// Exploitability in units of one millionth.
    pub exploitability_score: Option<i64>,
    /// Further properties, as JSON text.
    pub extra: String,
}

/// A directed, typed edge between two nodes of one tenant.
pub struct Edge {
    pub id: EdgeId,
    pub tenant_id: TenantId,
    pub source_id: NodeId,
    pub target_id: NodeId,
    pub edge_type: EdgeType,
    pub properties: EdgeProperties,
    pub first_seen: i64,
    pub last_seen: i64,
}

/// Origin of a platform event.
#[derive(Debug, Clone, Copy, PartialEq, Eq, Structural)]
pub enum EventSource {
    Discover,
    Defend,
    Govern,
    Observe,
    Api,
}

/// The relationship-type name used by the graph store.
pub open spec fn edge_type_name(et: EdgeType) -> Seq<char> {
    match et {
        EdgeType::ConnectsTo => "CONNECTS_TO"@,
        EdgeType::HasAccess => "HAS_ACCESS"@,
        EdgeType::MemberOf => "MEMBER_OF"@,
        EdgeType::RunsOn => "RUNS_ON"@,
        EdgeType::Trusts => "TRUSTS"@,
        EdgeType::RoutesTo => "ROUTES_TO"@,
        EdgeType::Exposes => "EXPOSES"@,
        EdgeType::DependsOn => "DEPENDS_ON"@,
        EdgeType::CanReach => "CAN_REACH"@,
        EdgeType::HasCve => "HAS_CVE"@,
        EdgeType::HasPort => "HAS_PORT"@,
        EdgeType::HasCertificate => "HAS_CERTIFICATE"@,
        EdgeType::BelongsToSubnet => "BELONGS_TO_SUBNET"@,
        EdgeType::BelongsToVpc => "BELONGS_TO_VPC"@,
    }
}

/// The relationship-type name of an edge type.
pub fn edge_type_to_cypher(et: &EdgeType) -> (r: &'static str)
    ensures
        r@ == edge_type_name(*et),
{
    match et {
        EdgeType::ConnectsTo => "CONNECTS_TO",
        EdgeType::HasAccess => "HAS_ACCESS",
        EdgeType::MemberOf => "MEMBER_OF",
        EdgeType::RunsOn => "RUNS_ON",
        EdgeType::Trusts => "TRUSTS",
        EdgeType::RoutesTo => "ROUTES_TO",
        EdgeType::Exposes => "EXPOSES",
        EdgeType::DependsOn => "DEPENDS_ON",
        EdgeType::CanReach => "CAN_REACH",
        EdgeType::HasCve => "HAS_CVE",
        EdgeType::HasPort => "HAS_PORT",
        EdgeType::HasCertificate => "HAS_CERTIFICATE",
        EdgeType::BelongsToSubnet => "BELONGS_TO_SUBNET",
        EdgeType::BelongsToVpc => "BELONGS_TO_VPC",
    }
}

/// The text of an optional string, empty when absent.
pub fn opt_string(opt: &Option<String>) -> (r: String)
    ensures
        r@ == match opt {
            Some(s) => s@,
            None => Seq::empty(),
        },
{
    match opt {
        Some(s) => s.clone(),
        None => String::new(),
    }
}

/// Maps a scanner protocol name: tcp and udp, ignoring case; anything else is
/// kept verbatim.
pub fn parse_protocol(proto: &str) -> (r: Protocol)
    ensures
        lower_of(proto@) == "tcp"@ ==> r == Protocol::Tcp,
        lower_of(proto@) != "tcp"@ && lower_of(proto@) == "udp"@ ==> r == Protocol::Udp,
        lower_of(proto@) != "tcp"@ && lower_of(proto@) != "udp"@ ==> r is Other && r->Other_0@
            == proto@,
{
    let lower = lowercase(proto);
    if str_eq(lower.as_str(), "tcp") {
        Protocol::Tcp
    } else if str_eq(lower.as_str(), "udp") {
        Protocol::Udp
    } else {
        Protocol::Other(String::from_str(proto))
    }
}

/// What a port-state name denotes, given its lower-case form.
pub open spec fn port_state_named(lower: Seq<char>) -> PortState {
    if lower == "open"@ {
        PortState::Open
    } else if lower == "closed"@ {
        PortState::Closed
    } else {
        PortState::Filtered
    }
}

/// Maps a scanner port state: open and closed, ignoring case; anything else is
/// filtered.
pub fn parse_port_state(state: &str) -> (r: PortState)
    ensures
        r == port_state_named(lower_of(state@)),
{
    let lower = lowercase(state);
    port_state_from_lower(lower.as_str())
}

/// The port state an already lower-cased name denotes.
pub fn port_state_from_lower(lower: &str) -> (r: PortState)
    ensures
        r == port_state_named(lower@),
{
    if str_eq(lower, "open") {
        PortState::Open
    } else if str_eq(lower, "closed") {
        PortState::Closed
    } else {
        PortState::Filtered
    }
}

/// First and last sighting of a stored node.
#[derive(Debug, Clone, Copy, PartialEq, Eq, Structural)]
pub struct Sighting {
    pub first_seen: i64,
    pub last_seen: i64,
}

/// The timestamps an upsert at `now` leaves: a new node is first and last seen
/// now; a matched node keeps its first sighting and is last seen now.
pub open spec fn upserted(existing: Option<Sighting>, now: i64) -> Sighting {
    match existing {
        None => Sighting { first_seen: now, last_seen: now },
        Some(s) => Sighting { first_seen: s.first_seen, last_seen: now },
    }
}

/// Timestamp rule of the graph upsert (match on tenant and id). The store's
/// MERGE query applies this rule itself; this function states it for proofs
/// and tests and is not called on the write path.
pub fn upsert_sighting(existing: Option<Sighting>, now: i64) -> (r: Sighting)
    ensures
        r == upserted(existing, now),
{
    match existing {
        None => Sighting { first_seen: now, last_seen: now },
        Some(s) => Sighting { first_seen: s.first_seen, last_seen: now },
    }
}

/// Upserting twice leaves what upserting once leaves, but for `last_seen`.
pub proof fn lemma_upsert_idempotent(existing: Option<Sighting>, t1: i64, t2: i64)
    ensures
        upserted(Some(upserted(existing, t1)), t2).first_seen == upserted(existing, t1).first_seen,
        upserted(Some(upserted(existing, t1)), t2).last_seen == t2,
{
}

/// Timestamps after a sequence of upserts at the given instants.
pub open spec fn upserted_all(existing: Option<Sighting>, nows: Seq<i64>) -> Option<Sighting>
    decreases nows.len(),
{
    if nows.len() == 0 {
        existing
    } else {
        Some(upserted(upserted_all(existing, nows.drop_last()), nows.last()))
    }
}

/// With non-decreasing clock readings, a node is never last seen before it was
/// first seen.
pub proof fn lemma_first_seen_not_after_last_seen(existing: Option<Sighting>, nows: Seq<i64>)
    requires
        existing matches Some(s) ==> s.first_seen <= s.last_seen,
        existing matches Some(s) ==> forall|i: int| 0 <= i < nows.len() ==> s.last_seen <= #[trigger] nows[i],
        forall|i: int, j: int| 0 <= i < j < nows.len() ==> nows[i] <= nows[j],
    ensures
        upserted_all(existing, nows) matches Some(s) ==> s.first_seen <= s.last_seen,
        nows.len() > 0 ==> upserted_all(existing, nows) is Some && upserted_all(
            existing,
            nows,
        )->Some_0.last_seen == nows.last(),
    decreases nows.len(),
{
    if nows.len() > 0 {
        let init = nows.drop_last();
        lemma_first_seen_not_after_last_seen(existing, init);
        if init.len() > 0 {
            assert(init.last() == nows[init.len() - 1]);
            assert(nows[init.len() - 1] <= nows[nows.len() - 1]);
        } else {
            if let Some(s) = existing {
                assert(s.last_seen <= nows[0]);
            }
        }
    }
}

} // verus!
