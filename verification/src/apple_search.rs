use vstd::prelude::*;
use vstd::string::*;
use crate::arp::ArpResult;
use crate::arp::MacAddr;
use crate::oui::{spec_mac_prefix, OuiDatabase};

verus! {

/// How one discovered host was classified.
#[derive(Clone, Copy, Debug, PartialEq, Eq, Structural)]
pub enum DetectionResult {
    /// Neither signal points at the target vendor.
    NotApple,
    /// The hardware-address prefix is attributed to the vendor.
    AppleByMac,
    /// The prefix is not, but the host answers on the sync port.
    AppleByOpenPort,
}

/// Whether `p` is a prefix of `s`.
pub open spec fn spec_starts_with(s: Seq<char>, p: Seq<char>) -> bool {
    p.len() <= s.len() && (forall|i: int| 0 <= i < p.len() ==> s[i] == p[i])
}

/// Organization names that begin with "Apple" count as the target vendor's.
pub open spec fn spec_is_target_org(org: Seq<char>) -> bool {
    spec_starts_with(org, "Apple"@)
}

/// Whether `p` is a prefix of `s`.
pub fn str_starts_with(s: &str, p: &str) -> (r: bool)
    ensures
        r == spec_starts_with(s@, p@),
{
    let n = p.unicode_len();
    let m = s.unicode_len();
    if n > m {
        return false;
    }
    let mut i: usize = 0;
    while i < n
        invariant
            i <= n,
            n == p@.len(),
            m == s@.len(),
            n <= m,
            forall|k: int| 0 <= k < i ==> s@[k] == p@[k],
        decreases n - i,
    {
        if s.get_char(i) != p.get_char(i) {
            return false;
        }
        i = i + 1;
    }
    true
}

/// Whether the database attributes the hardware address's prefix to the
/// target vendor.
pub open spec fn spec_matches_by_mac(orgs: Map<u32, String>, mac: MacAddr) -> bool {
    orgs.contains_key(spec_mac_prefix(mac)) && spec_is_target_org(orgs[spec_mac_prefix(mac)]@)
}

/// The classification policy, in strict order: prefix attribution first,
/// the service signal second, no match last.
pub open spec fn spec_detect(orgs: Map<u32, String>, mac: MacAddr, port_open: bool) -> DetectionResult {
    if spec_matches_by_mac(orgs, mac) {
        DetectionResult::AppleByMac
    } else if port_open {
        DetectionResult::AppleByOpenPort
    } else {
        DetectionResult::NotApple
    }
}

/// Prefix attribution is authoritative: it decides alone whenever it holds,
/// and the service signal only ever decides for hosts whose prefix the
/// database does not attribute to the vendor.
pub proof fn lemma_classification_precedence(orgs: Map<u32, String>, mac: MacAddr, port_open: bool)
    ensures
        spec_matches_by_mac(orgs, mac) ==> spec_detect(orgs, mac, port_open)
            == DetectionResult::AppleByMac,
        !spec_matches_by_mac(orgs, mac) && port_open ==> spec_detect(orgs, mac, port_open)
            == DetectionResult::AppleByOpenPort,
        !spec_matches_by_mac(orgs, mac) && !port_open ==> spec_detect(orgs, mac, port_open)
            == DetectionResult::NotApple,
{
}

/// Classifies one discovered host, the service probe's signal handed in as
/// `port_open` (it is only consulted when the prefix does not decide).
pub fn detect_apple(database: &OuiDatabase, arp_result: &ArpResult, port_open: bool) -> (r:
    DetectionResult)
    ensures
        r == spec_detect(database@, arp_result.mac, port_open),
{
    let mut result = DetectionResult::NotApple;

    let org = database.get_org(&arp_result.mac);
    if let Some(org) = org {
        if str_starts_with(org.as_str(), "Apple") {
            result = DetectionResult::AppleByMac;
        }
    }

    if result == DetectionResult::NotApple {
        if port_open {
            result = DetectionResult::AppleByOpenPort;
        }
    }

    result
}

/// Whether classification of this host still needs the service probe's
/// signal: it does not when the prefix already decides.
pub fn needs_service_probe(database: &OuiDatabase, arp_result: &ArpResult) -> (r: bool)
    ensures
        r == !spec_matches_by_mac(database@, arp_result.mac),
{
    let org = database.get_org(&arp_result.mac);
    match org {
        Some(org) => !str_starts_with(org.as_str(), "Apple"),
        None => true,
    }
}

/// The final reportable unit for one discovered host.
#[derive(Clone, Copy, Debug, PartialEq, Eq, Structural)]
pub struct SearchResult {
    /// The host's IPv4 address, as a big-endian 32-bit value.
    pub ip: u32,
    /// The host's hardware address.
    pub mac: MacAddr,
    /// How the host was classified.
    pub detection_result: DetectionResult,
}

/// Classifies every discovered host: entry `i` of the report pairs reply
/// `i` with its classification, the order of the replies kept.
pub fn search_for_apples(
    database: &OuiDatabase,
    arp_results: &Vec<ArpResult>,
    port_open: &Vec<bool>,
) -> (results: Vec<SearchResult>)
    requires
        arp_results@.len() == port_open@.len(),
    ensures
        results@.len() == arp_results@.len(),
        forall|i: int|
            0 <= i < results@.len() ==> #[trigger] results@[i] == (SearchResult {
                ip: arp_results@[i].ip,
                mac: arp_results@[i].mac,
                detection_result: spec_detect(database@, arp_results@[i].mac, port_open@[i]),
            }),
{
    let mut results: Vec<SearchResult> = Vec::new();
    let mut i: usize = 0;
    while i < arp_results.len()
        invariant
            i <= arp_results@.len(),
            arp_results@.len() == port_open@.len(),
            results@.len() == i,
            forall|k: int|
                0 <= k < i ==> #[trigger] results@[k] == (SearchResult {
                    ip: arp_results@[k].ip,
                    mac: arp_results@[k].mac,
                    detection_result: spec_detect(database@, arp_results@[k].mac, port_open@[k]),
                }),
        decreases arp_results@.len() - i,
    {
        let arp_result = arp_results[i];
        let detection_result = detect_apple(database, &arp_result, port_open[i]);
        results.push(SearchResult { ip: arp_result.ip, mac: arp_result.mac, detection_result });
        i = i + 1;
    }
    results
}

/// How many of the records point at the target vendor, by either signal.
pub open spec fn spec_count_apples(s: Seq<SearchResult>) -> int
    decreases s.len(),
{
    if s.len() == 0 {
        0
    } else {
        spec_count_apples(s.drop_last()) + if s.last().detection_result
            != DetectionResult::NotApple {
            1int
        } else {
            0int
        }
    }
}

/// The match count never exceeds the record count.
pub proof fn lemma_count_apples_bound(s: Seq<SearchResult>)
    ensures
        0 <= spec_count_apples(s) <= s.len(),
    decreases s.len(),
{
    if s.len() > 0 {
        lemma_count_apples_bound(s.drop_last());
    }
}

/// Counts the records classified as the vendor's.
pub fn count_apples(results: &Vec<SearchResult>) -> (n: usize)
    ensures
        n == spec_count_apples(results@),
{
    proof {
        lemma_count_apples_bound(results@);
    }
    let mut n: usize = 0;
    let mut i: usize = 0;
    while i < results.len()
        invariant
            i <= results@.len(),
            n == spec_count_apples(results@.take(i as int)),
            n <= i,
        decreases results@.len() - i,
    {
        proof {
            assert(results@.take(i + 1).drop_last() =~= results@.take(i as int));
            assert(results@.take(i + 1).last() == results@[i as int]);
        }
        if !matches!(results[i].detection_result, DetectionResult::NotApple) {
            n = n + 1;
        }
        i = i + 1;
    }
    proof {
        assert(results@.take(results@.len() as int) =~= results@);
    }
    n
}

/// The halt decision: strictly more matches than the threshold trigger it;
/// a count equal to the threshold does not.
pub fn too_many_apples(apples_count: usize, panic_after: usize) -> (r: bool)
    ensures
        r == (apples_count > panic_after),
{
    apples_count > panic_after
}

} // verus!
