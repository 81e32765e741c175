//! Decisions of the periodic scanner: which subnets get a scan loop, when a
//! node counts as stale, and what each scan records in its engram.
use vstd::prelude::*;
use vstd::string::StringExecFns;

use crate::config::{profile_flags, views_of, DiscoverConfig, ScanProfile, SubnetSchedule};
use crate::discovery::DiffSummary;
use crate::engram::{json_quoted, json_string, Engram, EngramSession};
use crate::text::{decimal_of, decimal_text};

verus! {

/// One periodic scan loop.
pub struct ScanTask {
    pub cidr: String,
    pub profile: ScanProfile,
    pub interval_secs: u64,
}

/// The profile a subnet is scanned with.
pub open spec fn effective_profile(s: SubnetSchedule, default_profile: ScanProfile) -> ScanProfile {
    match s.profile {
        Some(p) => p,
        None => default_profile,
    }
}

/// The task of the `i`-th enabled subnet is `tasks[i]`.
pub open spec fn plans(subnets: Seq<SubnetSchedule>, default_profile: ScanProfile, tasks: Seq<ScanTask>) -> bool {
    let enabled = subnets.filter(|s: SubnetSchedule| s.enabled);
    &&& tasks.len() == enabled.len()
    &&& forall|i: int|
        0 <= i < tasks.len() ==> {
            &&& (#[trigger] tasks[i]).cidr@ == enabled[i].cidr@
            &&& tasks[i].profile == effective_profile(enabled[i], default_profile)
            &&& tasks[i].interval_secs == enabled[i].interval_secs
        }
}

/// One scan loop per enabled subnet, in configuration order.
pub fn scan_plan(config: &DiscoverConfig) -> (r: Vec<ScanTask>)
    ensures
        plans(config.subnets@, config.default_profile, r@),
{
    let ghost f = |s: SubnetSchedule| s.enabled;
    let mut r: Vec<ScanTask> = Vec::new();
    let mut i: usize = 0;
    while i < config.subnets.len()
        invariant
            f == (|s: SubnetSchedule| s.enabled),
            i <= config.subnets@.len(),
            plans(config.subnets@.take(i as int), config.default_profile, r@),
        decreases config.subnets@.len() - i,
    {
        let s = &config.subnets[i];
        let ghost before = r@;
        proof {
            assert(config.subnets@.take(i + 1) =~= config.subnets@.take(i as int).push(*s));
            config.subnets@.take(i as int).lemma_filter_push(*s, f);
        }
        if s.enabled {
            let profile = match s.profile {
                Some(p) => p,
                None => config.default_profile,
            };
            r.push(ScanTask { cidr: s.cidr.clone(), profile, interval_secs: s.interval_secs });
            proof {
                let enabled = config.subnets@.take(i + 1).filter(f);
                assert forall|k: int| 0 <= k < r@.len() implies {
                    &&& (#[trigger] r@[k]).cidr@ == enabled[k].cidr@
                    &&& r@[k].profile == effective_profile(enabled[k], config.default_profile)
                    &&& r@[k].interval_secs == enabled[k].interval_secs
                } by {
                    if k < before.len() {
                        assert(r@[k] == before[k]);
                    }
                }
            }
        }
        i += 1;
    }
    assert(config.subnets@.take(config.subnets@.len() as int) =~= config.subnets@);
    r
}

/// Nanoseconds in one hour.
pub const NANOS_PER_HOUR: i64 = 3_600_000_000_000;

/// Nodes last seen before the returned instant are stale; `None` when the
/// threshold reaches past the representable range.
pub fn stale_cutoff(now: i64, threshold_hours: u64) -> (r: Option<i64>)
    ensures
        r matches Some(c) ==> c == now - threshold_hours * NANOS_PER_HOUR,
        r is None <==> !(i64::MIN <= now - threshold_hours * NANOS_PER_HOUR),
{
    let span: i128 = threshold_hours as i128 * NANOS_PER_HOUR as i128;
    let cutoff: i128 = now as i128 - span;
    if cutoff < i64::MIN as i128 {
        None
    } else {
        Some(cutoff as i64)
    }
}

/// JSON text of a list of strings.
pub open spec fn json_list(items: Seq<Seq<char>>) -> Seq<char>
    decreases items.len(),
{
    if items.len() == 0 {
        Seq::empty()
    } else if items.len() == 1 {
        json_quoted(items[0])
    } else {
        json_list(items.drop_last()) + ","@ + json_quoted(items.last())
    }
}

pub open spec fn profile_name(p: ScanProfile) -> Seq<char> {
    match p {
        ScanProfile::Quick => "Quick"@,
        ScanProfile::Standard => "Standard"@,
        ScanProfile::Deep => "Deep"@,
    }
}

fn profile_text(p: &ScanProfile) -> (r: &'static str)
    ensures
        r@ == profile_name(*p),
{
    match p {
        ScanProfile::Quick => "Quick",
        ScanProfile::Standard => "Standard",
        ScanProfile::Deep => "Deep",
    }
}

/// Context of a scan session: its target, profile and flags, keys in order.
pub open spec fn scan_context(target: Seq<char>, p: ScanProfile) -> Seq<char> {
    "{\"nmap_flags\":["@ + json_list(profile_flags(p)) + "],\"profile\":\""@ + profile_name(p)
        + "\",\"target\":"@ + json_quoted(target) + "}"@
}

fn scan_context_text(target: &str, p: &ScanProfile) -> (r: String)
    ensures
        r@ == scan_context(target@, *p),
{
    let flags = p.nmap_flags();
    let ghost items = profile_flags(*p);
    let mut s = String::from_str("{\"nmap_flags\":[");
    let mut list = String::new();
    let mut i: usize = 0;
    while i < flags.len()
        invariant
            items == profile_flags(*p),
            views_of(flags@) == items,
            i <= flags@.len(),
            list@ == json_list(items.take(i as int)),
        decreases flags@.len() - i,
    {
        proof {
            let t = items.take(i + 1);
            assert(t.drop_last() =~= items.take(i as int));
            assert(t.last() == items[i as int]);
            assert(items[i as int] == flags@[i as int]@);
        }
        if i > 0 {
            list.append(",");
        }
        let q = json_string(flags[i]);
        list.append(q.as_str());
        i += 1;
    }
    assert(items.take(flags@.len() as int) =~= items);
    s.append(list.as_str());
    s.append("],\"profile\":\"");
    s.append(profile_text(p));
    s.append("\",\"target\":");
    let t = json_string(target);
    s.append(t.as_str());
    s.append("}");
    s
}

/// Opens the engram of a scan of `target`.
pub fn start_scan_session(tenant_id: u128, target: &str, profile: &ScanProfile) -> (r: EngramSession)
    ensures
        r.recorded().tenant_id == tenant_id,
        r.recorded().agent_id@ == "sentinel-discover"@,
        r.recorded().intent@ == "Network scan of "@ + target@,
        r.recorded().context@ == scan_context(target@, *profile),
        r.recorded().decisions@.len() == 1,
        r.recorded().decisions@[0].choice@ == "Use "@ + profile_name(*profile) + " scan profile"@,
        r.recorded().decisions@[0].rationale@ == "Configured profile for this subnet"@,
        r.recorded().decisions@[0].confidence@ == "1.0"@,
        r.recorded().alternatives@.len() == 0,
        r.recorded().actions@.len() == 0,
        r.recorded().content_hash is None,
{
    let mut intent = String::from_str("Network scan of ");
    intent.append(target);
    let mut session = EngramSession::new(tenant_id, "sentinel-discover", intent.as_str());
    session.set_context(scan_context_text(target, profile));
    let mut choice = String::from_str("Use ");
    choice.append(profile_text(profile));
    choice.append(" scan profile");
    session.add_decision(choice.as_str(), "Configured profile for this subnet", "1.0");
    session
}

pub open spec fn summary_description(s: DiffSummary) -> Seq<char> {
    "Scanned "@ + decimal_of(s.total_scanned as nat) + " hosts: "@ + decimal_of(s.new_count as nat)
        + " new, "@ + decimal_of(s.changed_count as nat) + " changed, "@ + decimal_of(
        s.stale_count as nat,
    ) + " stale"@
}

pub open spec fn summary_details(s: DiffSummary, duration_ms: u64) -> Seq<char> {
    "{\"changed_count\":"@ + decimal_of(s.changed_count as nat) + ",\"duration_ms\":"@ + decimal_of(
        duration_ms as nat,
    ) + ",\"new_count\":"@ + decimal_of(s.new_count as nat) + ",\"stale_count\":"@ + decimal_of(
        s.stale_count as nat,
    ) + ",\"total_scanned\":"@ + decimal_of(s.total_scanned as nat) + "}"@
}

/// Records a completed scan and its counts.
pub fn record_scan_results(session: &mut EngramSession, summary: &DiffSummary, duration_ms: u64)
    ensures
        final(session).recorded().actions@.drop_last() == old(session).recorded().actions@,
        final(session).recorded().actions@.last().action_type@ == "network_scan"@,
        final(session).recorded().actions@.last().description@ == summary_description(*summary),
        final(session).recorded().actions@.last().details@ == summary_details(*summary, duration_ms),
        final(session).recorded().actions@.last().success,
        final(session).recorded() == (Engram {
            actions: final(session).recorded().actions,
            ..old(session).recorded()
        }),
{
    let mut d = String::from_str("Scanned ");
    d.append(decimal_text(summary.total_scanned as u64).as_str());
    d.append(" hosts: ");
    d.append(decimal_text(summary.new_count as u64).as_str());
    d.append(" new, ");
    d.append(decimal_text(summary.changed_count as u64).as_str());
    d.append(" changed, ");
    d.append(decimal_text(summary.stale_count as u64).as_str());
    d.append(" stale");
    let mut j = String::from_str("{\"changed_count\":");
    j.append(decimal_text(summary.changed_count as u64).as_str());
    j.append(",\"duration_ms\":");
    j.append(decimal_text(duration_ms).as_str());
    j.append(",\"new_count\":");
    j.append(decimal_text(summary.new_count as u64).as_str());
    j.append(",\"stale_count\":");
    j.append(decimal_text(summary.stale_count as u64).as_str());
    j.append(",\"total_scanned\":");
    j.append(decimal_text(summary.total_scanned as u64).as_str());
    j.append("}");
    session.add_action("network_scan", d.as_str(), j, true);
}

/// Records a failed scan with its error.
pub fn record_scan_error(session: &mut EngramSession, error: &str)
    ensures
        final(session).recorded().actions@.drop_last() == old(session).recorded().actions@,
        final(session).recorded().actions@.last().action_type@ == "network_scan"@,
        final(session).recorded().actions@.last().description@ == "Scan failed: "@ + error@,
        final(session).recorded().actions@.last().details@ == "{\"error\":"@ + json_quoted(error@)
            + "}"@,
        !final(session).recorded().actions@.last().success,
        final(session).recorded() == (Engram {
            actions: final(session).recorded().actions,
            ..old(session).recorded()
        }),
{
    let mut d = String::from_str("Scan failed: ");
    d.append(error);
    let mut j = String::from_str("{\"error\":");
    j.append(json_string(error).as_str());
    j.append("}");
    session.add_action("network_scan", d.as_str(), j, false);
}

} // verus!
