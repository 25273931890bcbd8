//! Peer addresses as plain values: an IPv4 or IPv6 address and a port.
use vstd::prelude::*;

verus! {

/// An IP address of a peer.
#[derive(Debug, Clone, Copy, PartialEq, Eq)]
pub enum PeerIp {
    V4([u8; 4]),
    V6([u8; 16]),
}

/// The socket address of a peer.
#[derive(Debug, Clone, Copy, PartialEq, Eq)]
pub struct PeerAddr {
    pub ip: PeerIp,
    pub port: u16,
}

/// Abstract value of an IP address: its octets, 4 or 16 of them.
pub open spec fn ip_octets(ip: PeerIp) -> Seq<u8> {
    match ip {
        PeerIp::V4(o) => o@,
        PeerIp::V6(o) => o@,
    }
}

impl PeerAddr {
    /// An IPv4 socket address.
    pub fn v4(a: u8, b: u8, c: u8, d: u8, port: u16) -> (addr: Self)
        ensures
            addr.ip == PeerIp::V4([a, b, c, d]),
            addr.port == port,
    {
        PeerAddr { ip: PeerIp::V4([a, b, c, d]), port }
    }
}

/// Whether two arrays of octets hold the same octets.
fn same_octets<const N: usize>(a: &[u8; N], b: &[u8; N]) -> (r: bool)
    ensures
        r == (*a == *b),
{
    let mut i: usize = 0;
    while i < N
        invariant
            i <= N,
            forall|k: int| 0 <= k < i ==> a[k] == b[k],
        decreases N - i,
    {
        if a[i] != b[i] {
            return false;
        }
        i = i + 1;
    }
    proof {
        broadcast use vstd::array::axiom_array_ext_equal;
        assert(*a =~= *b);
    }
    true
}

/// Whether two socket addresses are the same.
pub fn same_peer(a: &PeerAddr, b: &PeerAddr) -> (r: bool)
    ensures
        r == (*a == *b),
{
    let same_ip = match (&a.ip, &b.ip) {
        (PeerIp::V4(x), PeerIp::V4(y)) => same_octets(x, y),
        (PeerIp::V6(x), PeerIp::V6(y)) => same_octets(x, y),
        _ => false,
    };
    same_ip && a.port == b.port
}

/// Takes a peer a tracker found: a session is started with it when no session was started with
/// it before and fewer than `limit` sessions run. A peer taken in joins `seen`, which thus
/// never holds a peer twice.
pub fn admit_peer(seen: &mut Vec<PeerAddr>, peer: PeerAddr, running: usize, limit: usize) -> (admitted: bool)
    ensures
        admitted == (!old(seen)@.contains(peer) && running < limit),
        admitted ==> final(seen)@ == old(seen)@.push(peer),
        !admitted ==> final(seen)@ == old(seen)@,
        old(seen)@.no_duplicates() ==> final(seen)@.no_duplicates(),
{
    if running >= limit {
        return false;
    }
    let mut i: usize = 0;
    while i < seen.len()
        invariant
            i <= seen@.len(),
            forall|k: int| 0 <= k < i ==> seen@[k] != peer,
        decreases seen@.len() - i,
    {
        if same_peer(&seen[i], &peer) {
            assert(seen@[i as int] == peer);
            return false;
        }
        i = i + 1;
    }
    let ghost before = seen@;
    seen.push(peer);
    proof {
        assert(!before.contains(peer));
        if before.no_duplicates() {
            assert forall|a: int, b: int| 0 <= a < b < seen@.len() implies seen@[a] != seen@[b] by {
                assert(before[a] == seen@[a]);
                if b == before.len() {
                    if before[a] == peer {
                        assert(before.contains(peer));
                    }
                } else {
                    assert(before[b] == seen@[b]);
                }
            }
        }
    }
    true
}

} // verus!
