use vstd::prelude::*;
use crate::util::{InterfaceIp, NetworkInterface};

verus! {

/// How long one timed read on the raw socket may block.
pub const SOCKET_READ_TIMEOUT_MS: u64 = 30;

/// The pacing delay between two transmitted requests.
pub const SLEEP_BETWEEN_ARP_REQUESTS_MS: u64 = 5;

/// The grace period for late replies after the last request.
pub const WAIT_FOR_LAST_ARP_RESPONSES_MS: u64 = 2000;

/// A 48-bit hardware (MAC) address, one octet per field, most significant
/// octet first.
#[derive(Clone, Copy, Debug, PartialEq, Eq, Structural)]
pub struct MacAddr(pub u8, pub u8, pub u8, pub u8, pub u8, pub u8);

impl MacAddr {
    /// The all-ones broadcast hardware address.
    pub fn broadcast() -> (r: MacAddr)
        ensures
            r == MacAddr(0xff, 0xff, 0xff, 0xff, 0xff, 0xff),
    {
        MacAddr(0xff, 0xff, 0xff, 0xff, 0xff, 0xff)
    }

    /// The octets of the address, most significant first.
    pub open spec fn bytes(self) -> Seq<u8> {
        seq![self.0, self.1, self.2, self.3, self.4, self.5]
    }
}

/// One (IPv4 address, hardware address) pair learned from a resolution reply.
#[derive(Clone, Copy, Debug, PartialEq, Eq, Structural)]
pub struct ArpResult {
    /// The sender's IPv4 address, as a big-endian 32-bit value.
    pub ip: u32,
    /// The sender's hardware address.
    pub mac: MacAddr,
}

/// The big-endian octets of an IPv4 address.
pub open spec fn ipv4_be_bytes(ip: u32) -> Seq<u8> {
    seq![
        (ip >> 24) as u8,
        ((ip >> 16) & 0xff) as u8,
        ((ip >> 8) & 0xff) as u8,
        (ip & 0xff) as u8,
    ]
}

/// The IPv4 address with the given big-endian octets.
pub open spec fn ipv4_from_be_bytes(b0: u8, b1: u8, b2: u8, b3: u8) -> u32 {
    ((b0 as u32) << 24) | ((b1 as u32) << 16) | ((b2 as u32) << 8) | (b3 as u32)
}

/// Writing an address as four big-endian octets and reading them back yields
/// the same address.
pub proof fn lemma_ipv4_bytes_roundtrip(ip: u32)
    ensures
        ipv4_from_be_bytes(
            ipv4_be_bytes(ip)[0],
            ipv4_be_bytes(ip)[1],
            ipv4_be_bytes(ip)[2],
            ipv4_be_bytes(ip)[3],
        ) == ip,
{
    assert((((ip >> 24) as u8 as u32) << 24) | ((((ip >> 16) & 0xff) as u8 as u32) << 16) | ((((ip
        >> 8) & 0xff) as u8 as u32) << 8) | ((ip & 0xff) as u8 as u32) == ip) by (bit_vector);
}

/// Assembles an IPv4 address from its big-endian octets.
pub fn ipv4_from_octets(b0: u8, b1: u8, b2: u8, b3: u8) -> (ip: u32)
    ensures
        ip == ipv4_from_be_bytes(b0, b1, b2, b3),
{
    ((b0 as u32) << 24) | ((b1 as u32) << 16) | ((b2 as u32) << 8) | (b3 as u32)
}

/// Splits an IPv4 address into its big-endian octets.
pub fn ipv4_octets(ip: u32) -> (r: (u8, u8, u8, u8))
    ensures
        seq![r.0, r.1, r.2, r.3] == ipv4_be_bytes(ip),
{
    let r = ((ip >> 24) as u8, ((ip >> 16) & 0xff) as u8, ((ip >> 8) & 0xff) as u8, (ip
        & 0xff) as u8);
    proof {
        assert(seq![r.0, r.1, r.2, r.3] =~= ipv4_be_bytes(ip));
    }
    r
}

/// The 42-byte link-layer frame that carries one address-resolution request:
/// an Ethernet header (destination = broadcast, source = ours, type =
/// address resolution) followed by the resolution payload (Ethernet hardware
/// type, IPv4 protocol type, address lengths 6 and 4, operation = request,
/// sender hardware and protocol address = ours, target hardware address
/// zero-filled, target protocol address = the candidate host).
pub open spec fn arp_request_frame(source_mac: MacAddr, source_ip: u32, target_ip: u32) -> Seq<
    u8,
> {
    seq![
        0xffu8, 0xffu8, 0xffu8, 0xffu8, 0xffu8, 0xffu8,
        source_mac.0, source_mac.1, source_mac.2, source_mac.3, source_mac.4, source_mac.5,
        0x08u8, 0x06u8,
        0x00u8, 0x01u8,
        0x08u8, 0x00u8,
        0x06u8, 0x04u8,
        0x00u8, 0x01u8,
        source_mac.0, source_mac.1, source_mac.2, source_mac.3, source_mac.4, source_mac.5,
        ipv4_be_bytes(source_ip)[0], ipv4_be_bytes(source_ip)[1],
        ipv4_be_bytes(source_ip)[2], ipv4_be_bytes(source_ip)[3],
        0x00u8, 0x00u8, 0x00u8, 0x00u8, 0x00u8, 0x00u8,
        ipv4_be_bytes(target_ip)[0], ipv4_be_bytes(target_ip)[1],
        ipv4_be_bytes(target_ip)[2], ipv4_be_bytes(target_ip)[3],
    ]
}

fn push_mac(f: &mut Vec<u8>, m: MacAddr)
    ensures
        final(f)@ == old(f)@ + m.bytes(),
{
    f.push(m.0);
    f.push(m.1);
    f.push(m.2);
    f.push(m.3);
    f.push(m.4);
    f.push(m.5);
    proof {
        assert(f@ =~= old(f)@ + m.bytes());
    }
}

fn push_ipv4(f: &mut Vec<u8>, ip: u32)
    ensures
        final(f)@ == old(f)@ + ipv4_be_bytes(ip),
{
    let (b0, b1, b2, b3) = ipv4_octets(ip);
    f.push(b0);
    f.push(b1);
    f.push(b2);
    f.push(b3);
    proof {
        assert(f@ =~= old(f)@ + ipv4_be_bytes(ip));
    }
}

/// Builds the request frame to send for one candidate host address.
pub fn build_packet(source_mac: MacAddr, source_ip: u32, target_ip: u32) -> (frame: Vec<u8>)
    ensures
        frame@ == arp_request_frame(source_mac, source_ip, target_ip),
{
    let mut f: Vec<u8> = Vec::new();
    // Ethernet header: broadcast destination, our source, resolution type.
    push_mac(&mut f, MacAddr::broadcast());
    push_mac(&mut f, source_mac);
    f.push(0x08);
    f.push(0x06);
    // Resolution payload.
    f.push(0x00);
    f.push(0x01);
    f.push(0x08);
    f.push(0x00);
    f.push(0x06);
    f.push(0x04);
    f.push(0x00);
    f.push(0x01);
    push_mac(&mut f, source_mac);
    push_ipv4(&mut f, source_ip);
    push_mac(&mut f, MacAddr(0x00, 0x00, 0x00, 0x00, 0x00, 0x00));
    push_ipv4(&mut f, target_ip);
    proof {
        assert(f@ =~= arp_request_frame(source_mac, source_ip, target_ip));
    }
    f
}

/// An IPv4 subnet: a base address together with a prefix length, standing
/// for the contiguous range of addresses that share the top `prefix` bits.
#[derive(Clone, Copy, Debug, PartialEq, Eq, Structural)]
pub struct Ipv4Network {
    /// An address inside the subnet (the interface's own, typically).
    pub addr: u32,
    /// The number of leading bits that name the subnet.
    pub prefix: u8,
}

impl Ipv4Network {
    /// A prefix length never exceeds the address width.
    pub open spec fn valid(self) -> bool {
        self.prefix <= 32
    }

    /// How many addresses the subnet spans, boundaries included.
    pub open spec fn spec_size(self) -> u64 {
        1u64 << ((32 - self.prefix) as u64)
    }

    /// The netmask: the top `prefix` bits set.
    pub open spec fn spec_mask(self) -> u32 {
        (0xffff_ffffu64 << ((32 - self.prefix) as u64)) as u32
    }

    /// The subnet's lowest (network) address.
    pub open spec fn spec_network(self) -> u32 {
        self.addr & self.spec_mask()
    }

    /// Whether an address lies in the subnet's range.
    pub open spec fn spec_contains(self, ip: u32) -> bool {
        self.spec_network() <= ip < self.spec_network() + self.spec_size()
    }

    /// How many addresses the subnet spans, boundaries included.
    pub fn size(&self) -> (n: u64)
        requires
            self.valid(),
        ensures
            n == self.spec_size(),
    {
        1u64 << ((32 - self.prefix) as u64)
    }

    /// The subnet's lowest (network) address.
    pub fn network(&self) -> (n: u32)
        requires
            self.valid(),
        ensures
            n == self.spec_network(),
    {
        self.addr & ((0xffff_ffffu64 << ((32 - self.prefix) as u64)) as u32)
    }
}

/// The whole range fits below the top of the address space: the network
/// address is aligned, so it leaves room for the subnet's full size.
pub proof fn lemma_network_size_bound(net: Ipv4Network)
    requires
        net.valid(),
    ensures
        net.spec_network() + net.spec_size() <= 0x1_0000_0000u64,
{
    let a = net.addr;
    let p = net.prefix;
    assert((a & ((0xffff_ffffu64 << ((32 - p) as u64)) as u32)) + (1u64 << ((32 - p) as u64))
        <= 0x1_0000_0000u64) by (bit_vector)
        requires
            p <= 32,
    ;
}

/// Enumerates every address of the subnet in ascending order, network and
/// broadcast boundaries included.
pub fn subnet_addresses(net: &Ipv4Network) -> (r: Vec<u32>)
    requires
        net.valid(),
    ensures
        r@.len() == net.spec_size(),
        forall|k: int| 0 <= k < r@.len() ==> r@[k] == net.spec_network() + k,
        forall|ip: u32| net.spec_contains(ip) <==> r@.contains(ip),
{
    proof {
        lemma_network_size_bound(*net);
    }
    let base = net.network();
    let size = net.size();
    let mut r: Vec<u32> = Vec::new();
    let mut i: u64 = 0;
    while i < size
        invariant
            i <= size,
            base + size <= 0x1_0000_0000u64,
            r@.len() == i,
            forall|k: int| 0 <= k < i ==> r@[k] == base + k,
        decreases size - i,
    {
        r.push(base + (i as u32));
        i = i + 1;
    }
    proof {
        assert forall|ip: u32| net.spec_contains(ip) implies r@.contains(ip) by {
            let k = ip - net.spec_network();
            assert(r@[k] == ip);
        }
        assert forall|ip: u32| r@.contains(ip) implies net.spec_contains(ip) by {
            let k = choose|k: int| 0 <= k < r@.len() && r@[k] == ip;
            assert(r@[k] == net.spec_network() + k);
        }
    }
    r
}

/// The frames of one full scan: one request per subnet address, in
/// enumeration order, each carrying that address as its target.
pub fn arp_scan_requests(net: &Ipv4Network, source_mac: MacAddr, source_ip: u32) -> (frames: Vec<
    Vec<u8>,
>)
    requires
        net.valid(),
    ensures
        frames@.len() == net.spec_size(),
        forall|k: int|
            0 <= k < frames@.len() ==> frames@[k]@ == arp_request_frame(
                source_mac,
                source_ip,
                (net.spec_network() + k) as u32,
            ),
{
    let targets = subnet_addresses(net);
    let mut frames: Vec<Vec<u8>> = Vec::new();
    let mut i: usize = 0;
    while i < targets.len()
        invariant
            i <= targets@.len(),
            targets@.len() == net.spec_size(),
            forall|k: int| 0 <= k < targets@.len() ==> targets@[k] == net.spec_network() + k,
            frames@.len() == i,
            forall|k: int|
                0 <= k < i ==> frames@[k]@ == arp_request_frame(
                    source_mac,
                    source_ip,
                    (net.spec_network() + k) as u32,
                ),
        decreases targets@.len() - i,
    {
        frames.push(build_packet(source_mac, source_ip, targets[i]));
        i = i + 1;
    }
    frames
}

/// A received frame is accepted when its link-layer type marks address
/// resolution and it is long enough to hold the full resolution payload.
pub open spec fn is_arp_frame(f: Seq<u8>) -> bool {
    f.len() >= 42 && f[12] == 0x08u8 && f[13] == 0x06u8
}

/// The sender protocol address carried by an accepted frame.
pub open spec fn frame_sender_ip(f: Seq<u8>) -> u32 {
    ipv4_from_be_bytes(f[28], f[29], f[30], f[31])
}

/// The sender hardware address carried by an accepted frame.
pub open spec fn frame_sender_mac(f: Seq<u8>) -> MacAddr {
    MacAddr(f[22], f[23], f[24], f[25], f[26], f[27])
}

/// Reads one received frame: accepted frames yield the sender's pair, and
/// anything else (wrong link-layer type, truncated payload) is discarded.
pub fn parse_arp_reply(frame: &[u8]) -> (r: Option<ArpResult>)
    ensures
        match r {
            Some(a) => is_arp_frame(frame@) && a.ip == frame_sender_ip(frame@) && a.mac
                == frame_sender_mac(frame@),
            None => !is_arp_frame(frame@),
        },
{
    if frame.len() < 42 {
        return None;
    }
    if frame[12] != 0x08 || frame[13] != 0x06 {
        return None;
    }
    let ip = ipv4_from_octets(frame[28], frame[29], frame[30], frame[31]);
    let mac = MacAddr(frame[22], frame[23], frame[24], frame[25], frame[26], frame[27]);
    Some(ArpResult { ip, mac })
}

/// Index `k` holds the first IPv4 assignment of the list.
pub open spec fn first_v4(ips: Seq<InterfaceIp>, k: int) -> bool {
    0 <= k < ips.len() && ips[k] is V4 && (forall|k2: int| 0 <= k2 < k ==> !(ips[k2] is V4))
}

/// The first IPv4 subnet assigned to the interface, if it has one: the
/// subnet the scan will sweep.
pub fn get_interface_ipv4_network(iface: &NetworkInterface) -> (r: Option<Ipv4Network>)
    ensures
        match r {
            Some(n) => exists|k: int|
                #[trigger] first_v4(iface.ips@, k) && iface.ips@[k] == InterfaceIp::V4(n),
            None => forall|k: int| 0 <= k < iface.ips@.len() ==> !(#[trigger] iface.ips@[k] is V4),
        },
{
    let mut k: usize = 0;
    while k < iface.ips.len()
        invariant
            k <= iface.ips@.len(),
            forall|k2: int| 0 <= k2 < k ==> !(#[trigger] iface.ips@[k2] is V4),
        decreases iface.ips@.len() - k,
    {
        match iface.ips[k] {
            InterfaceIp::V4(n) => {
                proof {
                    assert(first_v4(iface.ips@, k as int));
                }
                return Some(n);
            },
            InterfaceIp::V6 => {},
        }
        k = k + 1;
    }
    None
}

/// A reply sequence is in canonical order when its addresses ascend
/// strictly; this also means no address appears twice.
pub open spec fn sorted_strictly_by_ip(s: Seq<ArpResult>) -> bool {
    forall|a: int, b: int| 0 <= a < b < s.len() ==> s[a].ip < s[b].ip
}

/// Index `j` holds the first reply in `s` for its own address.
pub open spec fn first_reply_for_ip(s: Seq<ArpResult>, j: int) -> bool {
    0 <= j < s.len() && (forall|j2: int| 0 <= j2 < j ==> s[j2].ip != s[j].ip)
}

/// Every entry of `out` is the first reply some host sent.
pub open spec fn from_first_replies(replies: Seq<ArpResult>, out: Seq<ArpResult>) -> bool {
    forall|k: int|
        #![trigger out[k]]
        0 <= k < out.len() ==> exists|j: int|
            first_reply_for_ip(replies, j) && replies[j] == out[k]
}

/// Each of the first `upto` replies has its address somewhere in `out`.
pub open spec fn covers_repliers_upto(replies: Seq<ArpResult>, out: Seq<ArpResult>, upto: int) -> bool {
    forall|j: int|
        0 <= j < upto ==> exists|k: int|
            0 <= k < out.len() && out[k].ip == #[trigger] replies[j].ip
}

/// How the elements of a sequence move when one is inserted.
proof fn lemma_insert_indexing(old_out: Seq<ArpResult>, new_out: Seq<ArpResult>, pos: int, x: ArpResult)
    requires
        0 <= pos <= old_out.len(),
        new_out == old_out.insert(pos, x),
    ensures
        new_out.len() == old_out.len() + 1,
        forall|k: int| 0 <= k < pos ==> #[trigger] new_out[k] == old_out[k],
        new_out[pos] == x,
        forall|k: int| pos < k < new_out.len() ==> #[trigger] new_out[k] == old_out[k - 1],
{
}

/// Inserting between the smaller and the larger addresses keeps the
/// sequence strictly ascending.
proof fn lemma_insert_sorted(old_out: Seq<ArpResult>, new_out: Seq<ArpResult>, pos: int, x: ArpResult)
    requires
        sorted_strictly_by_ip(old_out),
        0 <= pos <= old_out.len(),
        new_out == old_out.insert(pos, x),
        forall|a: int| 0 <= a < pos ==> old_out[a].ip < x.ip,
        forall|k: int| pos <= k < old_out.len() ==> old_out[k].ip > x.ip,
    ensures
        sorted_strictly_by_ip(new_out),
{
    lemma_insert_indexing(old_out, new_out, pos, x);
    assert forall|a: int, b: int| 0 <= a < b < new_out.len() implies new_out[a].ip
        < new_out[b].ip by {
        if b < pos {
        } else if a > pos {
            assert(new_out[a] == old_out[a - 1] && new_out[b] == old_out[b - 1]);
        } else if a == pos {
            assert(new_out[b] == old_out[b - 1]);
        } else if b == pos {
            assert(new_out[a] == old_out[a]);
        } else {
            assert(new_out[a] == old_out[a] && new_out[b] == old_out[b - 1]);
        }
    }
}

/// After the insertion every element still descends from some first reply,
/// the new one from the reply just looked at.
proof fn lemma_insert_provenance(
    replies: Seq<ArpResult>,
    old_out: Seq<ArpResult>,
    new_out: Seq<ArpResult>,
    i: int,
    pos: int,
)
    requires
        0 <= i < replies.len(),
        0 <= pos <= old_out.len(),
        new_out == old_out.insert(pos, replies[i]),
        from_first_replies(replies, old_out),
        first_reply_for_ip(replies, i),
    ensures
        from_first_replies(replies, new_out),
{
    lemma_insert_indexing(old_out, new_out, pos, replies[i]);
    assert forall|k: int|
        #![trigger new_out[k]]
        0 <= k < new_out.len() implies exists|j: int|
        first_reply_for_ip(replies, j) && replies[j] == new_out[k] by {
        if k < pos {
            assert(new_out[k] == old_out[k]);
        } else if k == pos {
            assert(new_out[k] == replies[i]);
        } else {
            assert(new_out[k] == old_out[k - 1]);
        }
    }
}

/// After the insertion every reply seen so far, the current one included,
/// still has its address somewhere in the output.
proof fn lemma_insert_complete(
    replies: Seq<ArpResult>,
    old_out: Seq<ArpResult>,
    new_out: Seq<ArpResult>,
    i: int,
    pos: int,
)
    requires
        0 <= i < replies.len(),
        0 <= pos <= old_out.len(),
        new_out == old_out.insert(pos, replies[i]),
        covers_repliers_upto(replies, old_out, i),
    ensures
        covers_repliers_upto(replies, new_out, i + 1),
{
    lemma_insert_indexing(old_out, new_out, pos, replies[i]);
    assert forall|j: int|
        0 <= j < i + 1 implies exists|k: int|
        0 <= k < new_out.len() && new_out[k].ip == #[trigger] replies[j].ip by {
        if j == i {
            assert(new_out[pos].ip == replies[j].ip);
        } else {
            let k0 = choose|k0: int| 0 <= k0 < old_out.len() && old_out[k0].ip == replies[j].ip;
            if k0 < pos {
                assert(new_out[k0].ip == replies[j].ip);
            } else {
                assert(new_out[k0 + 1].ip == replies[j].ip);
            }
        }
    }
}

/// Collapses the raw reply stream to one entry per responding host: the
/// output ascends strictly by address, keeps exactly the addresses that
/// replied, and for each the hardware address of that host's first reply.
#[verifier::loop_isolation(false)]
pub fn dedup_replies(replies: &Vec<ArpResult>) -> (r: Vec<ArpResult>)
    ensures
        sorted_strictly_by_ip(r@),
        from_first_replies(replies@, r@),
        covers_repliers_upto(replies@, r@, replies@.len() as int),
{
    let mut out: Vec<ArpResult> = Vec::new();
    let mut i: usize = 0;
    while i < replies.len()
        invariant
            i <= replies@.len(),
            sorted_strictly_by_ip(out@),
            from_first_replies(replies@, out@),
            covers_repliers_upto(replies@, out@, i as int),
        decreases replies@.len() - i,
    {
        let cur = replies[i];
        let mut pos: usize = 0;
        while pos < out.len() && out[pos].ip < cur.ip
            invariant
                pos <= out@.len(),
                forall|a: int| 0 <= a < pos ==> out@[a].ip < cur.ip,
            decreases out@.len() - pos,
        {
            pos = pos + 1;
        }
        if pos < out.len() && out[pos].ip == cur.ip {
            // This host already answered; its first reply stays.
            proof {
                assert forall|j: int|
                    0 <= j < i + 1 implies exists|k: int|
                    0 <= k < out@.len() && out@[k].ip == #[trigger] replies@[j].ip by {
                    if j == i {
                        assert(out@[pos as int].ip == replies@[j].ip);
                    }
                }
                assert(covers_repliers_upto(replies@, out@, i + 1));
            }
        } else {
            proof {
                // The address is nowhere in `out`: everything before `pos`
                // is smaller, and everything from `pos` on is larger.
                assert forall|k: int| pos <= k < out@.len() implies out@[k].ip > cur.ip by {
                    assert(out@[pos as int].ip > cur.ip);
                    if k > pos {
                        assert(out@[pos as int].ip < out@[k].ip);
                    }
                }
                // So no earlier reply carried this address either.
                assert forall|j2: int| 0 <= j2 < i implies replies@[j2].ip != cur.ip by {
                    let k = choose|k: int|
                        0 <= k < out@.len() && out@[k].ip == replies@[j2].ip;
                    if replies@[j2].ip == cur.ip {
                        assert(out@[k].ip == cur.ip);
                    }
                }
                assert(first_reply_for_ip(replies@, i as int));
            }
            let ghost old_out = out@;
            out.insert(pos, cur);
            proof {
                lemma_insert_sorted(old_out, out@, pos as int, cur);
                lemma_insert_provenance(replies@, old_out, out@, i as int, pos as int);
                lemma_insert_complete(replies@, old_out, out@, i as int, pos as int);
            }
        }
        i = i + 1;
    }
    out
}

/// For any address that ever replied, the aggregated sequence holds exactly
/// one entry: at least one because every reply's address survives, at most
/// one because the sequence ascends strictly.
pub proof fn lemma_one_entry_per_ip(replies: Seq<ArpResult>, out: Seq<ArpResult>, j: int)
    requires
        sorted_strictly_by_ip(out),
        covers_repliers_upto(replies, out, replies.len() as int),
        0 <= j < replies.len(),
    ensures
        exists|k: int| 0 <= k < out.len() && out[k].ip == replies[j].ip,
        forall|k1: int, k2: int|
            0 <= k1 < out.len() && 0 <= k2 < out.len() && out[k1].ip == replies[j].ip
                && out[k2].ip == replies[j].ip ==> k1 == k2,
{
    let ghost seen = replies[j].ip;
    assert(exists|k: int| 0 <= k < out.len() && out[k].ip == replies[j].ip);
    assert forall|k1: int, k2: int|
        0 <= k1 < out.len() && 0 <= k2 < out.len() && out[k1].ip == replies[j].ip && out[k2].ip
            == replies[j].ip implies k1 == k2 by {
        if k1 < k2 {
            assert(out[k1].ip < out[k2].ip);
        } else if k2 < k1 {
            assert(out[k2].ip < out[k1].ip);
        }
    }
}

/// A request frame built for a candidate host is itself an accepted frame,
/// and reading it back recovers the sender's own pair.
pub proof fn lemma_request_frame_parses(source_mac: MacAddr, source_ip: u32, target_ip: u32)
    ensures
        is_arp_frame(arp_request_frame(source_mac, source_ip, target_ip)),
        frame_sender_ip(arp_request_frame(source_mac, source_ip, target_ip)) == source_ip,
        frame_sender_mac(arp_request_frame(source_mac, source_ip, target_ip)) == source_mac,
{
    let f = arp_request_frame(source_mac, source_ip, target_ip);
    assert(f.len() == 42);
    lemma_ipv4_bytes_roundtrip(source_ip);
}

} // verus!
