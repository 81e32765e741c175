//! From a scan report to typed hosts, ports, services and edges with
//! deterministic identifiers, and the diff against what the graph holds.
use vstd::prelude::*;
use vstd::string::StringExecFns;

use crate::ids::{uuid_hyphenated, uuid_text, uuid_v5, uuid_v5_of};
use crate::model::{
    parse_port_state, parse_protocol, CloudProvider, Criticality, Edge, EdgeId, EdgeProperties,
    EdgeType, Host, NodeId, Port, Service, ServiceState, TenantId,
};
use crate::nmap::{address_of, NmapHost, NmapPort, NmapRun};
use crate::text::{decimal_of, decimal_text, str_eq};

verus! {

/// Namespace of every name-based identifier the scanner derives.
pub const SENTINEL_NS: u128 = 0x6ba7b8109dad11d180b400c04fd430c8;

/// A host with what was discovered on it.
pub struct DiscoveredHost {
    pub host: Host,
    pub ports: Vec<Port>,
    pub services: Vec<Service>,
    pub edges: Vec<Edge>,
}

/// Counts of one diff.
#[derive(Debug, Default)]
pub struct DiffSummary {
    pub total_scanned: u32,
    pub new_count: u32,
    pub changed_count: u32,
    pub stale_count: u32,
}

/// The outcome of diffing a scan against the graph.
pub struct DiffResult {
    pub new_hosts: Vec<DiscoveredHost>,
    pub changed_hosts: Vec<DiscoveredHost>,
    pub stale_ips: Vec<String>,
    pub summary: DiffSummary,
}

pub open spec fn host_key(t: TenantId, ip: Seq<char>) -> Seq<char> {
    uuid_hyphenated(t.0) + ":host:"@ + ip
}

pub open spec fn port_key(t: TenantId, ip: Seq<char>, port: u16, proto: Seq<char>) -> Seq<char> {
    uuid_hyphenated(t.0) + ":port:"@ + ip + ":"@ + decimal_of(port as nat) + ":"@ + proto
}

pub open spec fn has_port_key(t: TenantId, ip: Seq<char>, port: u16) -> Seq<char> {
    uuid_hyphenated(t.0) + ":edge:has_port:"@ + ip + ":"@ + decimal_of(port as nat)
}

pub open spec fn service_key(t: TenantId, ip: Seq<char>, port: u16, name: Seq<char>) -> Seq<char> {
    uuid_hyphenated(t.0) + ":service:"@ + ip + ":"@ + decimal_of(port as nat) + ":"@ + name
}

pub open spec fn exposes_key(t: TenantId, ip: Seq<char>, port: u16) -> Seq<char> {
    uuid_hyphenated(t.0) + ":edge:exposes:"@ + ip + ":"@ + decimal_of(port as nat)
}

/// Identifier of the host with address `ip` in tenant `t`.
pub open spec fn host_id_of(t: TenantId, ip: Seq<char>) -> NodeId {
    NodeId(uuid_v5_of(SENTINEL_NS, host_key(t, ip)))
}

/// Every node and edge of `d` belongs to tenant `t`, and every edge leads from
/// the host to one of its ports or services.
pub open spec fn tenant_consistent(d: DiscoveredHost, t: TenantId) -> bool {
    &&& d.host.tenant_id == t
    &&& forall|i: int| 0 <= i < d.ports@.len() ==> (#[trigger] d.ports@[i]).tenant_id == t
    &&& forall|i: int| 0 <= i < d.services@.len() ==> (#[trigger] d.services@[i]).tenant_id == t
    &&& forall|i: int|
        0 <= i < d.edges@.len() ==> {
            &&& (#[trigger] d.edges@[i]).tenant_id == t
            &&& d.edges@[i].source_id == d.host.id
            &&& (exists|j: int| 0 <= j < d.ports@.len() && d.ports@[j].id == d.edges@[i].target_id)
                || (exists|j: int|
                0 <= j < d.services@.len() && d.services@[j].id == d.edges@[i].target_id)
        }
}

fn keyed(tenant_text: &String, middle: &str, ip: &str) -> (r: String)
    ensures
        r@ == tenant_text@ + middle@ + ip@,
{
    let mut k = tenant_text.clone();
    k.append(middle);
    k.append(ip);
    k
}

fn no_edge_props() -> (r: EdgeProperties) {
    EdgeProperties {
        protocol: None,
        port: None,
        encrypted: None,
        permissions: Vec::new(),
        exploitability_score: None,
        extra: String::from_str("null"),
    }
}

/// "product version", "product", "version" or nothing.
fn version_text(product: &Option<String>, version: &Option<String>) -> (r: Option<String>)
    ensures
        r is Some <==> (product is Some || version is Some),
        r matches Some(t) ==> t@ == match (product, version) {
            (Some(p), Some(v)) => p@ + " "@ + v@,
            (Some(p), None) => p@,
            (None, Some(v)) => v@,
            (None, None) => Seq::empty(),
        },
{
    match (product, version) {
        (Some(p), Some(v)) => {
            let mut s = p.clone();
            s.append(" ");
            s.append(v.as_str());
            Some(s)
        },
        (Some(p), None) => Some(p.clone()),
        (None, Some(v)) => Some(v.clone()),
        (None, None) => None,
    }
}

/// Identifier of a port entry of the host at `ip`.
pub open spec fn port_id_of(t: TenantId, ip: Seq<char>, p: NmapPort) -> u128 {
    uuid_v5_of(SENTINEL_NS, port_key(t, ip, p.port_id, p.protocol@))
}

/// Identifier of the service on a port entry that names one.
pub open spec fn service_id_of(t: TenantId, ip: Seq<char>, p: NmapPort) -> u128 {
    uuid_v5_of(SENTINEL_NS, service_key(t, ip, p.port_id, p.service->Some_0.name@))
}

/// (id, port) of each service, one per port entry that names a service, in order.
pub open spec fn service_plan(t: TenantId, ip: Seq<char>, ps: Seq<NmapPort>) -> Seq<(u128, u16)>
    decreases ps.len(),
{
    if ps.len() == 0 {
        Seq::empty()
    } else {
        let pre = service_plan(t, ip, ps.drop_last());
        let p = ps.last();
        if p.service is Some {
            pre.push((service_id_of(t, ip, p), p.port_id))
        } else {
            pre
        }
    }
}

/// (id, type, target id) of each edge: per port entry a HAS_PORT edge to the
/// port, then an EXPOSES edge to its service when it names one.
pub open spec fn edge_plan(t: TenantId, ip: Seq<char>, ps: Seq<NmapPort>) -> Seq<(u128, EdgeType, u128)>
    decreases ps.len(),
{
    if ps.len() == 0 {
        Seq::empty()
    } else {
        let p = ps.last();
        let with_port = edge_plan(t, ip, ps.drop_last()).push(
            (uuid_v5_of(SENTINEL_NS, has_port_key(t, ip, p.port_id)), EdgeType::HasPort, port_id_of(t, ip, p)),
        );
        if p.service is Some {
            with_port.push(
                (
                    uuid_v5_of(SENTINEL_NS, exposes_key(t, ip, p.port_id)),
                    EdgeType::Exposes,
                    service_id_of(t, ip, p),
                ),
            )
        } else {
            with_port
        }
    }
}

pub open spec fn services_match(ss: Seq<Service>, plan: Seq<(u128, u16)>) -> bool {
    &&& ss.len() == plan.len()
    &&& forall|k: int| 0 <= k < ss.len() ==> (#[trigger] ss[k]).id.0 == plan[k].0 && ss[k].port == plan[k].1
}

pub open spec fn edges_match(es: Seq<Edge>, plan: Seq<(u128, EdgeType, u128)>) -> bool {
    &&& es.len() == plan.len()
    &&& forall|k: int|
        0 <= k < es.len() ==> (#[trigger] es[k]).id.0 == plan[k].0 && es[k].edge_type == plan[k].1
            && es[k].target_id.0 == plan[k].2
}

/// The port entries of a scanned host.
pub open spec fn port_entries(h: NmapHost) -> Seq<NmapPort> {
    match h.ports {
        Some(p) => p.ports@,
        None => Seq::empty(),
    }
}

/// `d` is what the scan of `h` yields for tenant `t` at time `now`.
pub open spec fn converted_from(h: NmapHost, t: TenantId, now: i64, d: DiscoveredHost) -> bool {
    let ip = d.host.ip@;
    let ps = port_entries(h);
    &&& address_of(h.addresses@, "ipv4"@) == Some(ip)
    &&& d.host.id == host_id_of(t, ip)
    &&& d.host.first_seen == now
    &&& d.host.last_seen == now
    &&& tenant_consistent(d, t)
    &&& d.ports@.len() == ps.len()
    &&& forall|j: int|
        0 <= j < ps.len() ==> (#[trigger] d.ports@[j]).id.0 == port_id_of(t, ip, ps[j]) && d.ports@[j].number
            == ps[j].port_id
    &&& services_match(d.services@, service_plan(t, ip, ps))
    &&& edges_match(d.edges@, edge_plan(t, ip, ps))
}

/// Typed entities for one scanned host; `None` when it has no IPv4 address.
pub fn convert_nmap_host(nmap_host: &NmapHost, tenant_id: &TenantId, now: i64) -> (r: Option<
    DiscoveredHost,
>)
    ensures
        r is None <==> address_of(nmap_host.addresses@, "ipv4"@) is None,
        r matches Some(d) ==> converted_from(*nmap_host, *tenant_id, now, d),
{
    let ip = match nmap_host.ipv4() {
        Some(ip) => ip,
        None => {
            return None;
        },
    };
    let t = *tenant_id;
    let tenant_text = uuid_text(t.0);
    let host_name = keyed(&tenant_text, ":host:", ip);
    let host_id = NodeId(uuid_v5(SENTINEL_NS, host_name.as_str()));
    let host = Host {
        id: host_id,
        tenant_id: t,
        ip: String::from_str(ip),
        hostname: match nmap_host.hostname() {
            Some(h) => Some(String::from_str(h)),
            None => None,
        },
        os: match nmap_host.os_name() {
            Some(o) => Some(String::from_str(o)),
            None => None,
        },
        os_version: None,
        mac_address: match nmap_host.mac() {
            Some(m) => Some(String::from_str(m)),
            None => None,
        },
        cloud_provider: Some(CloudProvider::OnPrem),
        cloud_instance_id: None,
        cloud_region: None,
        criticality: Criticality::Medium,
        tags: Vec::new(),
        first_seen: now,
        last_seen: now,
    };
    let ghost ipv = ip@;
    let mut ports: Vec<Port> = Vec::new();
    let mut services: Vec<Service> = Vec::new();
    let mut edges: Vec<Edge> = Vec::new();
    match &nmap_host.ports {
        Some(nmap_ports) => {
            let ghost ps = nmap_ports.ports@;
            let mut i: usize = 0;
            while i < nmap_ports.ports.len()
                invariant
                    ps == nmap_ports.ports@,
                    tenant_text@ == uuid_hyphenated(t.0),
                    ipv == ip@,
                    i <= ps.len(),
                    ports@.len() == i,
                    host.tenant_id == t,
                    host.id == host_id,
                    forall|k: int| 0 <= k < ports@.len() ==> (#[trigger] ports@[k]).tenant_id == t,
                    forall|k: int| 0 <= k < services@.len() ==> (#[trigger] services@[k]).tenant_id == t,
                    forall|k: int|
                        0 <= k < edges@.len() ==> {
                            &&& (#[trigger] edges@[k]).tenant_id == t
                            &&& edges@[k].source_id == host_id
                            &&& (exists|j: int| 0 <= j < ports@.len() && ports@[j].id == edges@[k].target_id)
                                || (exists|j: int|
                                0 <= j < services@.len() && services@[j].id == edges@[k].target_id)
                        },
                    forall|j: int|
                        0 <= j < i ==> (#[trigger] ports@[j]).id.0 == port_id_of(t, ipv, ps[j])
                            && ports@[j].number == ps[j].port_id,
                    services_match(services@, service_plan(t, ipv, ps.take(i as int))),
                    edges_match(edges@, edge_plan(t, ipv, ps.take(i as int))),
                decreases nmap_ports.ports@.len() - i,
            {
                let np = &nmap_ports.ports[i];
                proof {
                    let pre = ps.take(i + 1);
                    assert(pre.drop_last() =~= ps.take(i as int));
                    assert(pre.last() == ps[i as int]);
                }
                let ghost plan_s = service_plan(t, ipv, ps.take(i as int));
                let ghost plan_e = edge_plan(t, ipv, ps.take(i as int));
                let port_text = decimal_text(np.port_id as u64);
                let mut port_name = keyed(&tenant_text, ":port:", ip);
                port_name.append(":");
                port_name.append(port_text.as_str());
                port_name.append(":");
                port_name.append(np.protocol.as_str());
                let port_id = NodeId(uuid_v5(SENTINEL_NS, port_name.as_str()));
                assert(port_id.0 == port_id_of(t, ipv, ps[i as int]));
                let ghost ports_before = ports@;
                let ghost services_before = services@;
                let ghost edges_before = edges@;
                ports.push(
                    Port {
                        id: port_id,
                        tenant_id: t,
                        number: np.port_id,
                        protocol: parse_protocol(np.protocol.as_str()),
                        state: parse_port_state(np.state.state.as_str()),
                        first_seen: now,
                        last_seen: now,
                    },
                );
                let mut edge_name = keyed(&tenant_text, ":edge:has_port:", ip);
                edge_name.append(":");
                edge_name.append(port_text.as_str());
                let has_port = Edge {
                    id: EdgeId(uuid_v5(SENTINEL_NS, edge_name.as_str())),
                    tenant_id: t,
                    source_id: host_id,
                    target_id: port_id,
                    edge_type: EdgeType::HasPort,
                    properties: no_edge_props(),
                    first_seen: now,
                    last_seen: now,
                };
                edges.push(has_port);
                proof {
                    assert forall|j: int| 0 <= j < i + 1 implies (#[trigger] ports@[j]).id.0 == port_id_of(
                        t,
                        ipv,
                        ps[j],
                    ) && ports@[j].number == ps[j].port_id by {
                        if j < i {
                            assert(ports@[j] == ports_before[j]);
                        }
                    }
                    assert forall|k: int| 0 <= k < edges@.len() implies {
                        &&& (#[trigger] edges@[k]).tenant_id == t
                        &&& edges@[k].source_id == host_id
                        &&& (exists|j: int| 0 <= j < ports@.len() && ports@[j].id == edges@[k].target_id)
                            || (exists|j: int|
                            0 <= j < services@.len() && services@[j].id == edges@[k].target_id)
                    } by {
                        if k < edges_before.len() {
                            assert(edges@[k] == edges_before[k]);
                            if exists|j: int| 0 <= j < ports_before.len() && ports_before[j].id == edges@[k].target_id {
                                let j = choose|j: int| 0 <= j < ports_before.len() && ports_before[j].id == edges@[k].target_id;
                                assert(ports@[j] == ports_before[j]);
                            }
                        } else {
                            assert(ports@[ports@.len() - 1].id == port_id);
                        }
                    }
                    let pe = plan_e.push(
                        (
                            uuid_v5_of(SENTINEL_NS, has_port_key(t, ipv, ps[i as int].port_id)),
                            EdgeType::HasPort,
                            port_id_of(t, ipv, ps[i as int]),
                        ),
                    );
                    assert(edges_match(edges@, pe)) by {
                        assert forall|k: int| 0 <= k < edges@.len() implies (#[trigger] edges@[k]).id.0
                            == pe[k].0 && edges@[k].edge_type == pe[k].1 && edges@[k].target_id.0
                            == pe[k].2 by {
                            if k < edges_before.len() {
                                assert(edges@[k] == edges_before[k]);
                            }
                        }
                    }
                }
                match &np.service {
                    Some(svc) => {
                        let mut svc_name = keyed(&tenant_text, ":service:", ip);
                        svc_name.append(":");
                        svc_name.append(port_text.as_str());
                        svc_name.append(":");
                        svc_name.append(svc.name.as_str());
                        let svc_id = NodeId(uuid_v5(SENTINEL_NS, svc_name.as_str()));
                        let ghost edges_mid = edges@;
                        let ghost services_mid = services@;
                        services.push(
                            Service {
                                id: svc_id,
                                tenant_id: t,
                                name: svc.name.clone(),
                                version: version_text(&svc.product, &svc.version),
                                port: np.port_id,
                                protocol: parse_protocol(np.protocol.as_str()),
                                state: ServiceState::Running,
                                banner: match &svc.extra_info {
                                    Some(b) => Some(b.clone()),
                                    None => None,
                                },
                                first_seen: now,
                                last_seen: now,
                            },
                        );
                        let mut exp_name = keyed(&tenant_text, ":edge:exposes:", ip);
                        exp_name.append(":");
                        exp_name.append(port_text.as_str());
                        let mut props = no_edge_props();
                        props.port = Some(np.port_id);
                        props.protocol = Some(parse_protocol(np.protocol.as_str()));
                        edges.push(
                            Edge {
                                id: EdgeId(uuid_v5(SENTINEL_NS, exp_name.as_str())),
                                tenant_id: t,
                                source_id: host_id,
                                target_id: svc_id,
                                edge_type: EdgeType::Exposes,
                                properties: props,
                                first_seen: now,
                                last_seen: now,
                            },
                        );
                        proof {
                            assert forall|k: int| 0 <= k < edges@.len() implies {
                                &&& (#[trigger] edges@[k]).tenant_id == t
                                &&& edges@[k].source_id == host_id
                                &&& (exists|j: int|
                                    0 <= j < ports@.len() && ports@[j].id == edges@[k].target_id) || (
                                exists|j: int|
                                    0 <= j < services@.len() && services@[j].id
                                        == edges@[k].target_id)
                            } by {
                                if k < edges_mid.len() {
                                    assert(edges@[k] == edges_mid[k]);
                                    if exists|j: int|
                                        0 <= j < services_mid.len() && services_mid[j].id
                                            == edges@[k].target_id {
                                        let j = choose|j: int|
                                            0 <= j < services_mid.len() && services_mid[j].id
                                                == edges@[k].target_id;
                                        assert(services@[j] == services_mid[j]);
                                    }
                                } else {
                                    assert(services@[services@.len() - 1].id == svc_id);
                                }
                            }
                            let ps2 = plan_s.push((service_id_of(t, ipv, ps[i as int]), ps[i as int].port_id));
                            assert(services_match(services@, ps2)) by {
                                assert forall|k: int| 0 <= k < services@.len() implies (#[trigger] services@[k]).id.0
                                    == ps2[k].0 && services@[k].port == ps2[k].1 by {
                                    if k < services_mid.len() {
                                        assert(services@[k] == services_mid[k]);
                                    }
                                }
                            }
                            let pe2 = edge_plan(t, ipv, ps.take(i + 1));
                            assert(edges_match(edges@, pe2)) by {
                                assert forall|k: int| 0 <= k < edges@.len() implies (#[trigger] edges@[k]).id.0
                                    == pe2[k].0 && edges@[k].edge_type == pe2[k].1 && edges@[k].target_id.0
                                    == pe2[k].2 by {
                                    if k < edges_mid.len() {
                                        assert(edges@[k] == edges_mid[k]);
                                    }
                                }
                            }
                        }
                    },
                    None => {},
                }
                i += 1;
            }
            assert(ps.take(ps.len() as int) =~= ps);
        },
        None => {},
    }
    Some(DiscoveredHost { host, ports, services, edges })
}

/// The report's hosts that are up and have an IPv4 address, in report order.
pub open spec fn usable_hosts(hs: Seq<NmapHost>) -> Seq<NmapHost> {
    hs.filter(|h: NmapHost| host_is_up(h) && address_of(h.addresses@, "ipv4"@) is Some)
}

pub open spec fn host_is_up(h: NmapHost) -> bool {
    h.status is Some && h.status->Some_0.state@ == "up"@
}

/// Typed entities for every host of the report that is up and has an IPv4
/// address, in report order.
pub fn parse_scan_results(nmap_run: &NmapRun, tenant_id: &TenantId, scan_time: i64) -> (r: Vec<
    DiscoveredHost,
>)
    ensures
        r@.len() == usable_hosts(nmap_run.hosts@).len(),
        forall|i: int|
            0 <= i < r@.len() ==> converted_from(
                usable_hosts(nmap_run.hosts@)[i],
                *tenant_id,
                scan_time,
                #[trigger] r@[i],
            ),
{
    let ghost f = |h: NmapHost| host_is_up(h) && address_of(h.addresses@, "ipv4"@) is Some;
    let ghost hs = nmap_run.hosts@;
    let mut out: Vec<DiscoveredHost> = Vec::new();
    let mut i: usize = 0;
    while i < nmap_run.hosts.len()
        invariant
            hs == nmap_run.hosts@,
            f == (|h: NmapHost| host_is_up(h) && address_of(h.addresses@, "ipv4"@) is Some),
            i <= hs.len(),
            out@.len() == hs.take(i as int).filter(f).len(),
            forall|k: int|
                0 <= k < out@.len() ==> converted_from(
                    hs.take(i as int).filter(f)[k],
                    *tenant_id,
                    scan_time,
                    #[trigger] out@[k],
                ),
        decreases hs.len() - i,
    {
        let h = &nmap_run.hosts[i];
        proof {
            assert(hs.take(i + 1) =~= hs.take(i as int).push(hs[i as int]));
            hs.take(i as int).lemma_filter_push(hs[i as int], f);
        }
        let up = h.is_up();
        let converted = if up {
            convert_nmap_host(h, tenant_id, scan_time)
        } else {
            None
        };
        match converted {
            Some(d) => {
                let ghost before = out@;
                out.push(d);
                assert forall|k: int| 0 <= k < out@.len() implies converted_from(
                    hs.take(i + 1).filter(f)[k],
                    *tenant_id,
                    scan_time,
                    #[trigger] out@[k],
                ) by {
                    if k < before.len() {
                        assert(out@[k] == before[k]);
                    }
                }
            },
            None => {},
        }
        i += 1;
    }
    assert(hs.take(hs.len() as int) =~= hs);
    out
}

/// Two results carry the same identifiers, position by position.
pub open spec fn same_ids(a: DiscoveredHost, b: DiscoveredHost) -> bool {
    &&& a.host.id == b.host.id
    &&& a.ports@.len() == b.ports@.len()
    &&& forall|j: int| 0 <= j < a.ports@.len() ==> (#[trigger] a.ports@[j]).id == b.ports@[j].id
    &&& a.services@.len() == b.services@.len()
    &&& forall|j: int| 0 <= j < a.services@.len() ==> (#[trigger] a.services@[j]).id == b.services@[j].id
    &&& a.edges@.len() == b.edges@.len()
    &&& forall|j: int| 0 <= j < a.edges@.len() ==> (#[trigger] a.edges@[j]).id == b.edges@[j].id
}

/// Two parses of one report for one tenant, at any two times, yield the same
/// hosts, ports, services and edges under the same identifiers.
pub proof fn lemma_reparse_keeps_ids(
    hs: Seq<NmapHost>,
    t: TenantId,
    now1: i64,
    now2: i64,
    first: Seq<DiscoveredHost>,
    second: Seq<DiscoveredHost>,
)
    requires
        first.len() == usable_hosts(hs).len(),
        second.len() == usable_hosts(hs).len(),
        forall|i: int| 0 <= i < first.len() ==> converted_from(usable_hosts(hs)[i], t, now1, #[trigger] first[i]),
        forall|i: int| 0 <= i < second.len() ==> converted_from(usable_hosts(hs)[i], t, now2, #[trigger] second[i]),
    ensures
        forall|i: int| 0 <= i < first.len() ==> same_ids(#[trigger] first[i], second[i]),
{
    assert forall|i: int| 0 <= i < first.len() implies same_ids(#[trigger] first[i], second[i]) by {
        let h = usable_hosts(hs)[i];
        assert(converted_from(h, t, now1, first[i]));
        assert(converted_from(h, t, now2, second[i]));
        let a = first[i];
        let b = second[i];
        assert(a.host.ip@ == b.host.ip@);
        let ps = port_entries(h);
        assert forall|j: int| 0 <= j < a.ports@.len() implies (#[trigger] a.ports@[j]).id == b.ports@[j].id by {
            assert(a.ports@[j].id.0 == port_id_of(t, a.host.ip@, ps[j]));
            assert(b.ports@[j].id.0 == port_id_of(t, b.host.ip@, ps[j]));
        }
        let sp = service_plan(t, a.host.ip@, ps);
        assert forall|j: int| 0 <= j < a.services@.len() implies (#[trigger] a.services@[j]).id == b.services@[j].id by {
            assert(a.services@[j].id.0 == sp[j].0);
            assert(b.services@[j].id.0 == sp[j].0);
        }
        let ep = edge_plan(t, a.host.ip@, ps);
        assert forall|j: int| 0 <= j < a.edges@.len() implies (#[trigger] a.edges@[j]).id == b.edges@[j].id by {
            assert(a.edges@[j].id.0 == ep[j].0);
            assert(b.edges@[j].id.0 == ep[j].0);
        }
    }
}

/// Distinct entries of `xs`.
pub open spec fn distinct_count(xs: Seq<Seq<char>>) -> nat
    decreases xs.len(),
{
    if xs.len() == 0 {
        0
    } else {
        distinct_count(xs.drop_last()) + if xs.drop_last().contains(xs.last()) {
            0nat
        } else {
            1nat
        }
    }
}

pub open spec fn host_ips(hs: Seq<DiscoveredHost>) -> Seq<Seq<char>> {
    hs.map_values(|d: DiscoveredHost| d.host.ip@)
}

/// The first `n` discovered hosts whose `known` flag equals `want`, in order.
pub open spec fn picked(ds: Seq<DiscoveredHost>, known: Seq<bool>, want: bool, n: int) -> Seq<DiscoveredHost>
    decreases n,
{
    if n <= 0 {
        Seq::empty()
    } else if known[n - 1] == want {
        picked(ds, known, want, n - 1).push(ds[n - 1])
    } else {
        picked(ds, known, want, n - 1)
    }
}

/// Sorts discovered hosts into new ones (no host with that address exists for
/// the tenant: `known[i]` is false) and changed ones, which are re-upserted to
/// refresh their last sighting. `stale_ips` are the graph's hosts in the
/// scanned range that the scan did not see (see `find_stale_ips`).
pub fn compute_diff(discovered: Vec<DiscoveredHost>, known: &Vec<bool>, stale_ips: Vec<String>) -> (r:
    DiffResult)
    requires
        known@.len() == discovered@.len(),
    ensures
        r.new_hosts@ == picked(discovered@, known@, false, discovered@.len() as int),
        r.changed_hosts@ == picked(discovered@, known@, true, discovered@.len() as int),
        r.stale_ips@ == stale_ips@,
        r.summary.total_scanned == distinct_count(host_ips(discovered@)) as u32,
        r.summary.new_count == r.new_hosts@.len() as u32,
        r.summary.changed_count == r.changed_hosts@.len() as u32,
        r.summary.stale_count == stale_ips@.len() as u32,
{
    let ghost orig = discovered@;
    let ghost ips = host_ips(discovered@);
    // Distinct addresses first, while the hosts are still in place.
    let mut distinct: usize = 0;
    let mut i: usize = 0;
    while i < discovered.len()
        invariant
            orig == discovered@,
            ips == host_ips(orig),
            i <= discovered@.len(),
            distinct == distinct_count(ips.take(i as int)),
            distinct <= i,
        decreases discovered@.len() - i,
    {
        let mut seen_before = false;
        let mut j: usize = 0;
        while j < i
            invariant
                orig == discovered@,
                ips == host_ips(orig),
                i < discovered@.len(),
                j <= i,
                seen_before == exists|k: int| 0 <= k < j && ips[k] == ips[i as int],
            decreases i - j,
        {
            assert(ips[j as int] == discovered@[j as int].host.ip@);
            assert(ips[i as int] == discovered@[i as int].host.ip@);
            if str_eq(discovered[j].host.ip.as_str(), discovered[i].host.ip.as_str()) {
                seen_before = true;
            }
            j += 1;
        }
        proof {
            let pre = ips.take(i + 1);
            assert(pre.drop_last() =~= ips.take(i as int));
            assert(pre.last() == ips[i as int]);
            if seen_before {
                let k = choose|k: int| 0 <= k < i && ips[k] == ips[i as int];
                assert(ips.take(i as int)[k] == ips[i as int]);
            } else {
                assert(!ips.take(i as int).contains(ips[i as int]));
            }
        }
        if !seen_before {
            distinct += 1;
        }
        i += 1;
    }
    assert(ips.take(discovered@.len() as int) =~= ips);
    let mut rest = discovered;
    let mut rev: Vec<DiscoveredHost> = Vec::new();
    while rest.len() > 0
        invariant
            rest@.len() + rev@.len() == orig.len(),
            forall|k: int| 0 <= k < rest@.len() ==> #[trigger] rest@[k] == orig[k],
            forall|k: int| 0 <= k < rev@.len() ==> #[trigger] rev@[k] == orig[orig.len() - 1 - k],
        decreases rest@.len(),
    {
        let d = rest.pop().unwrap();
        rev.push(d);
    }
    let mut new_hosts: Vec<DiscoveredHost> = Vec::new();
    let mut changed_hosts: Vec<DiscoveredHost> = Vec::new();
    let mut k: usize = 0;
    let total = known.len();
    while rev.len() > 0
        invariant
            total == known@.len(),
            known@.len() == orig.len(),
            k + rev@.len() == orig.len(),
            forall|m: int| 0 <= m < rev@.len() ==> #[trigger] rev@[m] == orig[orig.len() - 1 - m],
            new_hosts@ == picked(orig, known@, false, k as int),
            changed_hosts@ == picked(orig, known@, true, k as int),
        decreases rev@.len(),
    {
        let d = rev.pop().unwrap();
        assert(d == orig[k as int]);
        if known[k] {
            changed_hosts.push(d);
        } else {
            new_hosts.push(d);
        }
        k += 1;
    }
    let summary = DiffSummary {
        total_scanned: #[verifier::truncate] (distinct as u32),
        new_count: #[verifier::truncate] (new_hosts.len() as u32),
        changed_count: #[verifier::truncate] (changed_hosts.len() as u32),
        stale_count: #[verifier::truncate] (stale_ips.len() as u32),
    };
    DiffResult { new_hosts, changed_hosts, stale_ips, summary }
}

/// Whether an address lies in a network, as `ipnet` decides it: `None` when the
/// network or the address does not parse.
pub uninterp spec fn cidr_membership(cidr: Seq<char>, ip: Seq<char>) -> Option<bool>;

/// Relies on `ipnet::IpNet`'s `FromStr`, `IpAddr`'s `FromStr` and
/// `IpNet::contains`: a function of the two texts alone.
#[verifier::external_body]
fn cidr_contains(cidr: &str, ip: &str) -> (r: Option<bool>)
    ensures
        r == cidr_membership(cidr@, ip@),
{
    let net: ipnet::IpNet = match cidr.parse() {
        Ok(n) => n,
        Err(_) => return None,
    };
    let mut addr = net.network();
    match ip.parse() {
        Ok(a) => {
            addr = a;
            Some(net.contains(&addr))
        },
        Err(_) => None,
    }
}

/// An address counts as inside the scanned range unless both texts parse and
/// the network does not contain the address.
pub open spec fn in_scope(cidr: Seq<char>, ip: Seq<char>) -> bool {
    match cidr_membership(cidr, ip) {
        Some(b) => b,
        None => true,
    }
}

/// Whether `ip` counts as inside the scanned range `cidr`.
pub fn ip_in_scope(cidr: &str, ip: &str) -> (r: bool)
    ensures
        r == in_scope(cidr@, ip@),
{
    match cidr_contains(cidr, ip) {
        Some(b) => b,
        None => true,
    }
}

/// Whether `ip` is one of `seen`.
pub open spec fn was_seen(seen: Seq<String>, ip: Seq<char>) -> bool {
    exists|k: int| 0 <= k < seen.len() && (#[trigger] seen[k])@ == ip
}

pub open spec fn is_stale(cidr: Seq<char>, ip: String, seen: Seq<String>) -> bool {
    in_scope(cidr, ip@) && !was_seen(seen, ip@)
}

/// Addresses of graph hosts inside the scanned range `cidr` that the scan did
/// not see, in graph order.
pub fn find_stale_ips(cidr: &str, hosts: &Vec<String>, seen: &Vec<String>) -> (r: Vec<String>)
    ensures
        r@.len() == hosts@.filter(|h: String| is_stale(cidr@, h, seen@)).len(),
        forall|i: int|
            0 <= i < r@.len() ==> (#[trigger] r@[i])@ == hosts@.filter(
                |h: String| is_stale(cidr@, h, seen@),
            )[i]@,
{
    let ghost f = |h: String| is_stale(cidr@, h, seen@);
    let mut r: Vec<String> = Vec::new();
    let mut i: usize = 0;
    while i < hosts.len()
        invariant
            f == (|h: String| is_stale(cidr@, h, seen@)),
            i <= hosts@.len(),
            r@.len() == hosts@.take(i as int).filter(f).len(),
            forall|m: int|
                0 <= m < r@.len() ==> (#[trigger] r@[m])@ == hosts@.take(i as int).filter(f)[m]@,
        decreases hosts@.len() - i,
    {
        let h = &hosts[i];
        let mut found = false;
        let mut j: usize = 0;
        while j < seen.len()
            invariant
                j <= seen@.len(),
                found == exists|k: int| 0 <= k < j && (#[trigger] seen@[k])@ == h@,
            decreases seen@.len() - j,
        {
            if str_eq(seen[j].as_str(), h.as_str()) {
                found = true;
            }
            j += 1;
        }
        proof {
            let pre = hosts@.take(i + 1);
            assert(pre =~= hosts@.take(i as int).push(hosts@[i as int]));
            hosts@.take(i as int).lemma_filter_push(hosts@[i as int], f);
        }
        if !found && ip_in_scope(cidr, h.as_str()) {
            r.push(h.clone());
        }
        i += 1;
    }
    assert(hosts@.take(hosts@.len() as int) =~= hosts@);
    r
}

} // verus!
