use vstd::prelude::*;
use std::collections::HashMap;
use crate::arp::MacAddr;

verus! {

/// The 24-bit organizationally unique prefix of a hardware address: its top
/// three octets, most significant first.
pub open spec fn spec_mac_prefix(mac: MacAddr) -> u32 {
    (mac.0 * 0x10000 + mac.1 * 0x100 + mac.2) as u32
}

/// The lookup key derived from a hardware address.
pub fn mac_prefix(mac: &MacAddr) -> (p: u32)
    ensures
        p == spec_mac_prefix(*mac),
{
    (mac.0 as u32) * 0x10000 + (mac.1 as u32) * 0x100 + (mac.2 as u32)
}

/// The mapping that a listing of (prefix, organization) rows builds up, row
/// by row; a later row overrides an earlier one with the same prefix.
pub open spec fn orgs_of_entries(entries: Seq<(u32, String)>) -> Map<u32, String>
    decreases entries.len(),
{
    if entries.len() == 0 {
        Map::empty()
    } else {
        orgs_of_entries(entries.drop_last()).insert(entries.last().0, entries.last().1)
    }
}

/// Maps each known 24-bit hardware-address prefix to the name of the
/// organization it is assigned to.
pub struct OuiDatabase {
    org_by_prefix: HashMap<u32, String>,
}

impl View for OuiDatabase {
    type V = Map<u32, String>;

    closed spec fn view(&self) -> Map<u32, String> {
        self.org_by_prefix@
    }
}

impl OuiDatabase {
    /// Builds the database from the rows of the vendor-prefix listing.
    pub fn new(entries: Vec<(u32, String)>) -> (db: OuiDatabase)
        ensures
            db@ == orgs_of_entries(entries@),
    {
        let mut m: HashMap<u32, String> = HashMap::new();
        let mut i: usize = 0;
        while i < entries.len()
            invariant
                i <= entries@.len(),
                m@ == orgs_of_entries(entries@.take(i as int)),
            decreases entries@.len() - i,
        {
            let prefix = entries[i].0;
            let org = entries[i].1.clone();
            m.insert(prefix, org);
            proof {
                assert(entries@.take(i + 1).drop_last() =~= entries@.take(i as int));
                assert(entries@.take(i + 1).last() == entries@[i as int]);
            }
            i = i + 1;
        }
        proof {
            assert(entries@.take(entries@.len() as int) =~= entries@);
        }
        OuiDatabase { org_by_prefix: m }
    }

    /// Looks up the organization assigned to a hardware address's prefix.
    pub fn get_org(&self, mac: &MacAddr) -> (r: Option<&String>)
        ensures
            match r {
                Some(org) => self@.contains_key(spec_mac_prefix(*mac)) && *org == self@[
                    spec_mac_prefix(*mac)
                ],
                None => !self@.contains_key(spec_mac_prefix(*mac)),
            },
    {
        let prefix = mac_prefix(mac);
        self.org_by_prefix.get(&prefix)
    }
}

} // verus!
