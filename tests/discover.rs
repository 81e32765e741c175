use sentinel::config::{DiscoverConfig, ScanProfile};
use sentinel::discovery::{
    compute_diff, convert_nmap_host, find_stale_ips, ip_in_scope, parse_scan_results, SENTINEL_NS,
};
use sentinel::model::{
    edge_type_to_cypher, parse_port_state, parse_protocol, upsert_sighting, EdgeType, PortState,
    Protocol, Sighting, TenantId,
};
use sentinel::nmap::{
    Address, HostStatus, Hostname, Hostnames, NmapHost, NmapPort, NmapRun, NmapScanner,
    NmapService, PortState as NmapPortState, Ports,
};

fn up_host(ip: &str) -> NmapHost {
    NmapHost {
        status: Some(HostStatus { state: "up".to_string(), reason: None }),
        addresses: vec![Address { addr: ip.to_string(), addr_type: "ipv4".to_string(), vendor: None }],
        hostnames: None,
        ports: None,
        os: None,
    }
}

fn web_host() -> NmapHost {
    let mut h = up_host("10.0.1.1");
    h.status = Some(HostStatus { state: "up".to_string(), reason: Some("syn-ack".to_string()) });
    h.hostnames = Some(Hostnames {
        hostnames: vec![Hostname { name: "web.local".to_string(), hostname_type: Some("PTR".to_string()) }],
    });
    h.ports = Some(Ports {
        ports: vec![NmapPort {
            protocol: "tcp".to_string(),
            port_id: 80,
            state: NmapPortState { state: "open".to_string(), reason: Some("syn-ack".to_string()) },
            service: Some(NmapService {
                name: "http".to_string(),
                product: Some("nginx".to_string()),
                version: Some("1.24".to_string()),
                extra_info: None,
            }),
        }],
    });
    h
}

fn run_of(hosts: Vec<NmapHost>) -> NmapRun {
    NmapRun { scanner: Some("nmap".to_string()), args: None, start_str: None, hosts, runstats: None }
}

#[test]
fn test_scan_profile_flags() {
    assert_eq!(ScanProfile::Quick.nmap_flags(), vec!["-sn"]);
    assert_eq!(ScanProfile::Standard.nmap_flags(), vec!["-sS", "-sV", "--top-ports", "1000"]);
    assert_eq!(ScanProfile::Deep.nmap_flags(), vec!["-sS", "-sV", "-O", "-A", "-p-"]);
}

#[test]
fn test_default_config() {
    let config = DiscoverConfig::default();
    assert_eq!(config.nmap_path, "nmap");
    assert_eq!(config.default_profile, ScanProfile::Standard);
    assert_eq!(config.stale_threshold_hours, 24);
    assert_eq!(config.max_concurrent_scans, 4);
}

#[test]
fn test_parse_protocol() {
    assert_eq!(parse_protocol("tcp"), Protocol::Tcp);
    assert_eq!(parse_protocol("UDP"), Protocol::Udp);
    assert_eq!(parse_protocol("sctp"), Protocol::Other("sctp".to_string()));
}

#[test]
fn test_parse_port_state() {
    assert_eq!(parse_port_state("open"), PortState::Open);
    assert_eq!(parse_port_state("closed"), PortState::Closed);
    assert_eq!(parse_port_state("filtered"), PortState::Filtered);
    assert_eq!(parse_port_state("open|filtered"), PortState::Filtered);
}

#[test]
fn test_host_without_hostname() {
    let host = NmapHost {
        status: Some(HostStatus { state: "up".to_string(), reason: None }),
        addresses: vec![Address { addr: "10.0.1.5".to_string(), addr_type: "ipv4".to_string(), vendor: None }],
        hostnames: None,
        ports: None,
        os: None,
    };

    assert_eq!(host.ipv4(), Some("10.0.1.5"));
    assert_eq!(host.hostname(), None);
    assert_eq!(host.mac(), None);
    assert_eq!(host.os_name(), None);
    assert!(host.is_up());
}

#[test]
fn test_parse_scan_results_basic() {
    let mut down = up_host("10.0.1.2");
    down.status = Some(HostStatus { state: "down".to_string(), reason: Some("no-response".to_string()) });
    let nmap_run = run_of(vec![web_host(), down]);
    let tid = TenantId(0);
    let results = parse_scan_results(&nmap_run, &tid, 1_700_000_000_000_000_000);

    assert_eq!(results.len(), 1);
    let host = &results[0];
    assert_eq!(host.host.ip, "10.0.1.1");
    assert_eq!(host.host.hostname.as_deref(), Some("web.local"));
    assert_eq!(host.ports.len(), 1);
    assert_eq!(host.ports[0].number, 80);
    assert_eq!(host.services.len(), 1);
    assert_eq!(host.services[0].name, "http");
    assert_eq!(host.edges.len(), 2);
}

#[test]
fn test_deterministic_ids() {
    let tid = TenantId(0);
    let run = run_of(vec![up_host("10.0.1.1")]);
    let r1 = parse_scan_results(&run, &tid, 1);
    let r2 = parse_scan_results(&run, &tid, 1);
    assert_eq!(r1[0].host.id, r2[0].host.id);
}

#[test]
fn host_id_is_name_based_uuid_of_tenant_and_address() {
    let tid = TenantId(0x1234);
    let d = convert_nmap_host(&up_host("10.0.1.1"), &tid, 5).unwrap();
    let ns = uuid::Uuid::from_u128(SENTINEL_NS);
    let name = format!("{}:host:{}", uuid::Uuid::from_u128(0x1234), "10.0.1.1");
    assert_eq!(d.host.id.0, uuid::Uuid::new_v5(&ns, name.as_bytes()).as_u128());
    let other = convert_nmap_host(&up_host("10.0.1.2"), &tid, 5).unwrap();
    assert_ne!(d.host.id, other.host.id);
    let other_tenant = convert_nmap_host(&up_host("10.0.1.1"), &TenantId(7), 5).unwrap();
    assert_ne!(d.host.id, other_tenant.host.id);
}

#[test]
fn rescan_yields_the_same_entities() {
    let tid = TenantId(42);
    let first = convert_nmap_host(&web_host(), &tid, 100).unwrap();
    let second = convert_nmap_host(&web_host(), &tid, 200).unwrap();
    assert_eq!(first.host.id, second.host.id);
    assert_eq!(first.ports.len(), 1);
    assert_eq!(first.services.len(), 1);
    assert_eq!(first.edges.len(), 2);
    assert_eq!(first.ports[0].id, second.ports[0].id);
    assert_eq!(first.services[0].id, second.services[0].id);
    assert_eq!(first.edges[0].id, second.edges[0].id);
    assert_eq!(first.edges[1].id, second.edges[1].id);
    assert_eq!(first.edges[0].edge_type, EdgeType::HasPort);
    assert_eq!(first.edges[1].edge_type, EdgeType::Exposes);
    assert_eq!(first.services[0].version.as_deref(), Some("nginx 1.24"));
    let s1 = upsert_sighting(None, 100);
    let s2 = upsert_sighting(Some(s1), 200);
    assert_eq!(s2, Sighting { first_seen: 100, last_seen: 200 });
}

#[test]
fn edges_stay_within_the_tenant() {
    let tid = TenantId(9);
    let d = convert_nmap_host(&web_host(), &tid, 1).unwrap();
    for e in &d.edges {
        assert_eq!(e.tenant_id, tid);
        assert_eq!(e.source_id, d.host.id);
    }
    assert_eq!(d.edges[0].target_id, d.ports[0].id);
    assert_eq!(d.edges[1].target_id, d.services[0].id);
    assert_eq!(d.ports[0].tenant_id, tid);
    assert_eq!(d.services[0].tenant_id, tid);
}

#[test]
fn host_without_ipv4_is_skipped() {
    let mut h = up_host("10.0.1.1");
    h.addresses = vec![Address { addr: "AA:BB".to_string(), addr_type: "mac".to_string(), vendor: None }];
    assert!(convert_nmap_host(&h, &TenantId(1), 1).is_none());
    assert_eq!(h.mac(), Some("AA:BB"));
}

#[test]
fn diff_splits_new_and_changed() {
    let tid = TenantId(3);
    let hosts = parse_scan_results(&run_of(vec![up_host("10.0.0.1"), up_host("10.0.0.2"), up_host("10.0.0.1")]), &tid, 1);
    let r = compute_diff(hosts, &vec![false, true, true], vec!["10.0.0.9".to_string()]);
    assert_eq!(r.new_hosts.len(), 1);
    assert_eq!(r.changed_hosts.len(), 2);
    assert_eq!(r.new_hosts[0].host.ip, "10.0.0.1");
    assert_eq!(r.summary.total_scanned, 2);
    assert_eq!(r.summary.new_count, 1);
    assert_eq!(r.summary.changed_count, 2);
    assert_eq!(r.summary.stale_count, 1);
}

#[test]
fn stale_ips_are_unseen_hosts_in_range() {
    let hosts = vec!["10.0.1.1".to_string(), "10.0.1.7".to_string(), "10.9.9.9".to_string(), "not-an-ip".to_string()];
    let stale = find_stale_ips("10.0.1.0/24", &hosts, &vec!["10.0.1.1".to_string()]);
    assert_eq!(stale, vec!["10.0.1.7".to_string(), "not-an-ip".to_string()]);
    assert!(ip_in_scope("bad-cidr", "10.9.9.9"));
    assert!(!ip_in_scope("10.0.1.0/24", "10.0.2.1"));
}

#[test]
fn scanner_arguments() {
    let s = NmapScanner::new("/usr/bin/nmap");
    assert_eq!(s.nmap_path(), "/usr/bin/nmap");
    let args = s.scan_args("10.0.1.0/24", &ScanProfile::Quick);
    assert_eq!(args, vec!["-sn", "-oX", "-", "--noninteractive", "10.0.1.0/24"]);
}

#[test]
fn relationship_names() {
    assert_eq!(edge_type_to_cypher(&EdgeType::HasPort), "HAS_PORT");
    assert_eq!(edge_type_to_cypher(&EdgeType::BelongsToVpc), "BELONGS_TO_VPC");
}

#[test]
fn node_accessors() {
    let tid = TenantId(5);
    let d = convert_nmap_host(&web_host(), &tid, 1).unwrap();
    let id = d.host.id;
    let node = sentinel::model::Node::Host(d.host);
    assert_eq!(*node.id(), id);
    assert_eq!(*node.tenant_id(), tid);
    assert_eq!(node.label(), "Host");
    let port_id = d.ports[0].id;
    let port = sentinel::model::Node::Port(d.ports.into_iter().next().unwrap());
    assert_eq!(*port.id(), port_id);
    assert_eq!(port.label(), "Port");
    assert_ne!(sentinel::model::TenantId::new(), sentinel::model::TenantId::new());
}
