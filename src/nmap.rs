//! The scanner's XML report as plain data, and the scanner invocation.
use vstd::prelude::*;
use vstd::string::StringExecFns;

use crate::config::{profile_flags, views_of, ScanProfile};
use crate::text::str_eq;

verus! {

/// Root element of a scan report.
pub struct NmapRun {
    pub scanner: Option<String>,
    pub args: Option<String>,
    pub start_str: Option<String>,
    pub hosts: Vec<NmapHost>,
    pub runstats: Option<RunStats>,
}

/// One scanned host.
pub struct NmapHost {
    pub status: Option<HostStatus>,
    pub addresses: Vec<Address>,
    pub hostnames: Option<Hostnames>,
    pub ports: Option<Ports>,
    pub os: Option<OsMatches>,
}

pub struct HostStatus {
    pub state: String,
    pub reason: Option<String>,
}

pub struct Address {
    pub addr: String,
    pub addr_type: String,
    pub vendor: Option<String>,
}

pub struct Hostnames {
    pub hostnames: Vec<Hostname>,
}

pub struct Hostname {
    pub name: String,
    pub hostname_type: Option<String>,
}

pub struct Ports {
    pub ports: Vec<NmapPort>,
}

pub struct NmapPort {
    pub protocol: String,
    pub port_id: u16,
    pub state: PortState,
    pub service: Option<NmapService>,
}

pub struct PortState {
    pub state: String,
    pub reason: Option<String>,
}

pub struct NmapService {
    pub name: String,
    pub product: Option<String>,
    pub version: Option<String>,
    pub extra_info: Option<String>,
}

pub struct OsMatches {
    pub matches: Vec<OsMatch>,
}

pub struct OsMatch {
    pub name: String,
    pub accuracy: Option<String>,
}

pub struct RunStats {
    pub finished: Option<Finished>,
    pub hosts: Option<RunStatsHosts>,
}

pub struct Finished {
    pub time: Option<String>,
    pub elapsed: Option<String>,
}

pub struct RunStatsHosts {
    pub up: Option<String>,
    pub down: Option<String>,
    pub total: Option<String>,
}

/// Index of the first address of the given type, if any.
pub open spec fn first_address_of(addrs: Seq<Address>, kind: Seq<char>) -> Option<int> {
    if exists|i: int| 0 <= i < addrs.len() && (#[trigger] addrs[i]).addr_type@ == kind {
        let i = choose|i: int|
            0 <= i < addrs.len() && (#[trigger] addrs[i]).addr_type@ == kind && forall|j: int|
                0 <= j < i ==> (#[trigger] addrs[j]).addr_type@ != kind;
        Some(i)
    } else {
        None
    }
}

/// The address of the first entry of type `kind`.
pub open spec fn address_of(addrs: Seq<Address>, kind: Seq<char>) -> Option<Seq<char>> {
    match first_address_of(addrs, kind) {
        Some(i) => Some(addrs[i].addr@),
        None => None,
    }
}

pub open spec fn str_opt_view(o: Option<&str>) -> Option<Seq<char>> {
    match o {
        Some(s) => Some(s@),
        None => None,
    }
}

proof fn lemma_first_is_least(addrs: Seq<Address>, kind: Seq<char>, i: int)
    requires
        0 <= i < addrs.len(),
        addrs[i].addr_type@ == kind,
        forall|j: int| 0 <= j < i ==> (#[trigger] addrs[j]).addr_type@ != kind,
    ensures
        first_address_of(addrs, kind) == Some(i),
{
    let k = choose|k: int|
        0 <= k < addrs.len() && (#[trigger] addrs[k]).addr_type@ == kind && forall|j: int|
            0 <= j < k ==> (#[trigger] addrs[j]).addr_type@ != kind;
    assert(exists|k: int|
        0 <= k < addrs.len() && (#[trigger] addrs[k]).addr_type@ == kind && forall|j: int|
            0 <= j < k ==> (#[trigger] addrs[j]).addr_type@ != kind) by {
        assert(addrs[i].addr_type@ == kind);
    }
    if k < i {
        assert(addrs[k].addr_type@ != kind);
    } else if k > i {
        assert(addrs[i].addr_type@ != kind);
    }
}

impl NmapHost {
    fn find_address(&self, kind: &str) -> (r: Option<&str>)
        ensures
            str_opt_view(r) == address_of(self.addresses@, kind@),
    {
        let mut i: usize = 0;
        while i < self.addresses.len()
            invariant
                i <= self.addresses@.len(),
                forall|j: int| 0 <= j < i ==> (#[trigger] self.addresses@[j]).addr_type@ != kind@,
            decreases self.addresses@.len() - i,
        {
            if str_eq(self.addresses[i].addr_type.as_str(), kind) {
                proof {
                    lemma_first_is_least(self.addresses@, kind@, i as int);
                }
                return Some(self.addresses[i].addr.as_str());
            }
            i += 1;
        }
        None
    }

    /// The first IPv4 address, if present.
    pub fn ipv4(&self) -> (r: Option<&str>)
        ensures
            str_opt_view(r) == address_of(self.addresses@, "ipv4"@),
    {
        self.find_address("ipv4")
    }

    /// The first MAC address, if present.
    pub fn mac(&self) -> (r: Option<&str>)
        ensures
            str_opt_view(r) == address_of(self.addresses@, "mac"@),
    {
        self.find_address("mac")
    }

    /// The first hostname, if present.
    pub fn hostname(&self) -> (r: Option<&str>)
        ensures
            str_opt_view(r) == match self.hostnames {
                Some(h) => if h.hostnames@.len() > 0 {
                    Some(h.hostnames@[0].name@)
                } else {
                    None
                },
                None => None,
            },
    {
        match &self.hostnames {
            Some(h) => if h.hostnames.len() > 0 {
                Some(h.hostnames[0].name.as_str())
            } else {
                None
            },
            None => None,
        }
    }

    /// Whether the host's status is "up".
    pub fn is_up(&self) -> (r: bool)
        ensures
            r == (self.status is Some && self.status->Some_0.state@ == "up"@),
    {
        match &self.status {
            Some(s) => str_eq(s.state.as_str(), "up"),
            None => false,
        }
    }

    /// The best operating-system match: the first one listed.
    pub fn os_name(&self) -> (r: Option<&str>)
        ensures
            str_opt_view(r) == match self.os {
                Some(o) => if o.matches@.len() > 0 {
                    Some(o.matches@[0].name@)
                } else {
                    None
                },
                None => None,
            },
    {
        match &self.os {
            Some(o) => if o.matches.len() > 0 {
                Some(o.matches[0].name.as_str())
            } else {
                None
            },
            None => None,
        }
    }
}

/// Failures of a discovery run.
#[derive(Debug)]
pub enum DiscoverError {
    NmapNotFound { path: String },
    NmapFailed { code: i32, stderr: String },
    XmlParse(String),
    Graph(String),
    Config(String),
    Io(String),
}

/// The scanner binary and how it is invoked.
pub struct NmapScanner {
    nmap_path: String,
}

impl NmapScanner {
    pub closed spec fn path_view(&self) -> Seq<char> {
        self.nmap_path@
    }

    pub fn new(nmap_path: &str) -> (r: NmapScanner)
        ensures
            r.path_view() == nmap_path@,
    {
        NmapScanner { nmap_path: String::from_str(nmap_path) }
    }

    /// The binary to run.
    pub fn nmap_path(&self) -> (r: &str)
        ensures
            r@ == self.path_view(),
    {
        self.nmap_path.as_str()
    }

    /// Arguments of a scan: the profile's flags, XML to standard output, and the target.
    pub fn scan_args(&self, target: &str, profile: &ScanProfile) -> (r: Vec<String>)
        ensures
            r@.len() == profile_flags(*profile).len() + 4,
            forall|i: int|
                0 <= i < profile_flags(*profile).len() ==> (#[trigger] r@[i])@ == profile_flags(
                    *profile,
                )[i],
            r@[r@.len() - 4]@ == "-oX"@,
            r@[r@.len() - 3]@ == "-"@,
            r@[r@.len() - 2]@ == "--noninteractive"@,
            r@[r@.len() - 1]@ == target@,
    {
        let flags = profile.nmap_flags();
        let mut r: Vec<String> = Vec::new();
        let mut i: usize = 0;
        while i < flags.len()
            invariant
                views_of(flags@) == profile_flags(*profile),
                i <= flags@.len(),
                r@.len() == i,
                forall|k: int| 0 <= k < i ==> (#[trigger] r@[k])@ == flags@[k]@,
            decreases flags@.len() - i,
        {
            r.push(String::from_str(flags[i]));
            i += 1;
        }
        assert forall|k: int| 0 <= k < flags@.len() implies (#[trigger] r@[k])@ == profile_flags(
            *profile,
        )[k] by {
            assert(views_of(flags@)[k] == flags@[k]@);
        }
        r.push(String::from_str("-oX"));
        r.push(String::from_str("-"));
        r.push(String::from_str("--noninteractive"));
        r.push(String::from_str(target));
        r
    }
}

} // verus!
