use vstd::prelude::*;
use crate::arp::{Ipv4Network, MacAddr};

verus! {

/// One address assigned to an interface: an IPv4 subnet, or an IPv6
/// assignment that the scan does not read into.
#[derive(Clone, Copy, Debug, PartialEq, Eq, Structural)]
pub enum InterfaceIp {
    V4(Ipv4Network),
    V6,
}

/// What the scan reads of one system network interface.
#[derive(Debug)]
pub struct NetworkInterface {
    /// The interface's hardware address, if it has one.
    pub mac: Option<MacAddr>,
    /// Whether the interface is administratively up.
    pub is_up: bool,
    /// Whether it is a loopback device.
    pub is_loopback: bool,
    /// The addresses assigned to it.
    pub ips: Vec<InterfaceIp>,
}

/// Whether any assignment in the list is an IPv4 one.
pub open spec fn spec_has_ipv4(ips: Seq<InterfaceIp>) -> bool {
    exists|k: int| 0 <= k < ips.len() && ips[k] is V4
}

/// An interface qualifies for scanning when it is up, not loopback, has a
/// hardware address and carries at least one IPv4 address.
pub open spec fn spec_qualifies(iface: NetworkInterface) -> bool {
    iface.is_up && !iface.is_loopback && iface.mac is Some && spec_has_ipv4(iface.ips@)
}

/// Index `j` holds the first qualifying interface of the list.
pub open spec fn first_qualifying(s: Seq<NetworkInterface>, j: int) -> bool {
    0 <= j < s.len() && spec_qualifies(s[j]) && (forall|j2: int|
        0 <= j2 < j ==> !spec_qualifies(s[j2]))
}

/// Whether any assignment in the list is an IPv4 one.
pub fn has_ipv4(ips: &Vec<InterfaceIp>) -> (r: bool)
    ensures
        r == spec_has_ipv4(ips@),
{
    let mut k: usize = 0;
    while k < ips.len()
        invariant
            k <= ips@.len(),
            forall|k2: int| 0 <= k2 < k ==> !(ips@[k2] is V4),
        decreases ips@.len() - k,
    {
        if matches!(ips[k], InterfaceIp::V4(_)) {
            return true;
        }
        k = k + 1;
    }
    false
}

/// Whether the interface is up, not loopback, hardware-addressed and
/// IPv4-capable.
pub fn qualifies(iface: &NetworkInterface) -> (r: bool)
    ensures
        r == spec_qualifies(*iface),
{
    iface.is_up && !iface.is_loopback && iface.mac.is_some() && has_ipv4(&iface.ips)
}

/// Finds the position of the first qualifying interface, if any.
fn find_qualifying(interfaces: &Vec<NetworkInterface>) -> (r: Option<usize>)
    ensures
        match r {
            Some(j) => first_qualifying(interfaces@, j as int),
            None => forall|j: int|
                0 <= j < interfaces@.len() ==> !spec_qualifies(#[trigger] interfaces@[j]),
        },
{
    let mut j: usize = 0;
    while j < interfaces.len()
        invariant
            j <= interfaces@.len(),
            forall|j2: int| 0 <= j2 < j ==> !spec_qualifies(#[trigger] interfaces@[j2]),
        decreases interfaces@.len() - j,
    {
        if qualifies(&interfaces[j]) {
            return Some(j);
        }
        j = j + 1;
    }
    None
}

/// Picks the first qualifying interface of the system's list, if any: the
/// one the scan will run on.
pub fn get_default_interface(interfaces: Vec<NetworkInterface>) -> (r: Option<NetworkInterface>)
    ensures
        match r {
            Some(it) => exists|j: int|
                #[trigger] first_qualifying(interfaces@, j) && interfaces@[j] == it,
            None => forall|j: int|
                0 <= j < interfaces@.len() ==> !spec_qualifies(#[trigger] interfaces@[j]),
        },
{
    let mut list = interfaces;
    match find_qualifying(&list) {
        Some(j) => {
            let it = list.remove(j);
            Some(it)
        },
        None => None,
    }
}

} // verus!
