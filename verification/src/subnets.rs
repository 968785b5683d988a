//! Subnets to scan: parsing them, their host addresses, and walking through
//! them one address at a time.

use vstd::prelude::*;
use crate::conf::HostRange;
use crate::text::{append, decimal, u64_to_decimal};
use crate::worker::ReqTarget;

verus! {

/// The address and prefix length that `ipnet::Ipv4Net` parses from a text
/// such as `"10.0.0.0/24"`.
pub uninterp spec fn ipv4_net_parsed(text: Seq<char>) -> Option<(u32, u8)>;

/// Parses a subnet with `text.parse::<ipnet::Ipv4Net>()` and reads its
/// address and prefix length. Claims that the result is `ipv4_net_parsed`
/// of the text, and, as the parser reads at most two digits below 33, that
/// the prefix length is at most 32.
#[verifier::external_body]
pub(crate) fn parse_ipv4_net(text: &str) -> (r: Option<(u32, u8)>)
    ensures
        r == ipv4_net_parsed(text@),
        r matches Some((_, p)) ==> p <= 32,
{
    match text.parse::<ipnet::Ipv4Net>() {
        Ok(net) => Some((u32::from(net.addr()), net.prefix_len())),
        Err(_) => None,
    }
}

/// The mask of a prefix length: its leading bits set.
pub open spec fn netmask(prefix: u8) -> u32 {
    if prefix == 0 {
        0u32
    } else {
        (0xffff_ffffu32 << ((32 - prefix) as u32)) as u32
    }
}

/// The host addresses of a subnet, as `Ipv4Net::hosts` gives them: from the
/// network address to the broadcast address, both excluded when the prefix
/// is shorter than 31.
pub open spec fn spec_host_range(addr: u32, prefix: u8) -> HostRange {
    let network = addr & netmask(prefix);
    let broadcast = addr | !netmask(prefix);
    if prefix < 31 {
        HostRange {
            first: if network < u32::MAX { (network + 1) as u32 } else { network },
            last: if broadcast > 0 { (broadcast - 1) as u32 } else { broadcast },
        }
    } else {
        HostRange { first: network, last: broadcast }
    }
}

/// The host addresses of the subnet `addr/prefix`.
pub fn host_range(addr: u32, prefix: u8) -> (r: HostRange)
    requires
        prefix <= 32,
    ensures
        r == spec_host_range(addr, prefix),
{
    let mask: u32 = if prefix == 0 { 0 } else { 0xffff_ffffu32 << ((32 - prefix) as u32) };
    let network = addr & mask;
    let broadcast = addr | !mask;
    if prefix < 31 {
        HostRange {
            first: if network < u32::MAX { network + 1 } else { network },
            last: if broadcast > 0 { broadcast - 1 } else { broadcast },
        }
    } else {
        HostRange { first: network, last: broadcast }
    }
}

/// The host addresses of a subnet all lie in it: the first and the last
/// carry the subnet's network prefix, the first is not after the last, and
/// the network and broadcast addresses themselves are left out unless the
/// prefix is 31 or 32, where every address of the subnet is a host.
pub proof fn lemma_host_range_in_subnet(addr: u32, prefix: u8)
    requires
        prefix <= 32,
    ensures
        ({
            let r = spec_host_range(addr, prefix);
            let m = netmask(prefix);
            &&& r.first & m == addr & m
            &&& r.last & m == addr & m
            &&& r.first <= r.last
            &&& prefix < 31 ==> r.first != addr & m && r.last != addr | !m
            &&& prefix >= 31 ==> r.first == addr & m && r.last == addr | !m
        }),
{
    let m = netmask(prefix);
    if prefix == 0 {
        assert(m == 0u32);
        assert(addr & 0u32 == 0u32 && addr | !0u32 == 0xffff_ffffu32) by (bit_vector);
        assert(1u32 & 0u32 == 0u32 && 0xffff_fffeu32 & 0u32 == 0u32) by (bit_vector);
    } else {
        let sh: u32 = (32 - prefix) as u32;
        assert(m == (0xffff_ffffu32 << sh) as u32);
        if prefix < 31 {
            assert(2 <= sh <= 31);
            assert(2u32 <= sh <= 31u32 && m == (0xffff_ffffu32 << sh) ==> {
                let n = addr & m;
                let b = addr | !m;
                &&& n < 0xffff_ffffu32
                &&& b > 0u32
                &&& ((n + 1) as u32) & m == n
                &&& ((b - 1) as u32) & m == n
                &&& (n + 1) <= (b - 1)
            }) by (bit_vector);
        } else {
            assert(sh <= 1u32 && m == (0xffff_ffffu32 << sh) ==> {
                &&& (addr & m) & m == addr & m
                &&& (addr | !m) & m == addr & m
                &&& (addr & m) <= (addr | !m)
            }) by (bit_vector);
        }
    }
}

/// `r` holds the host addresses of the subnet written `text`.
pub open spec fn hosts_of_text(text: Seq<char>, r: HostRange) -> bool {
    match ipv4_net_parsed(text) {
        Some((a, p)) => r == spec_host_range(a, p),
        None => false,
    }
}

/// The host addresses of each subnet given, in order; an error at the first
/// one that does not parse.
pub fn parse_subnets(subnets: &Vec<String>) -> (r: Result<Vec<HostRange>, &'static str>)
    ensures
        match r {
            Ok(v) => v@.len() == subnets@.len() && forall|i: int| 0 <= i < subnets@.len() ==>
                hosts_of_text(subnets@[i]@, #[trigger] v@[i]),
            Err(e) => e@ == "Invalid value for parameter --subnet"@
                && exists|i: int| 0 <= i < subnets@.len() && (#[trigger] ipv4_net_parsed(subnets@[i]@)) is None,
        },
{
    let mut v: Vec<HostRange> = Vec::new();
    let mut i: usize = 0;
    while i < subnets.len()
        invariant
            i <= subnets@.len(),
            v@.len() == i,
            forall|k: int| 0 <= k < i ==> hosts_of_text(subnets@[k]@, #[trigger] v@[k]),
        decreases subnets@.len() - i,
    {
        match parse_ipv4_net(subnets[i].as_str()) {
            Some((a, p)) => {
                v.push(host_range(a, p));
            },
            None => {
                assert(ipv4_net_parsed(subnets@[i as int]@) is None);
                return Err("Invalid value for parameter --subnet");
            },
        }
        i = i + 1;
    }
    Ok(v)
}

/// The addresses of a host range, in order.
pub open spec fn hosts(r: HostRange) -> Seq<u32> {
    if r.first <= r.last {
        Seq::new((r.last - r.first + 1) as nat, |i: int| (r.first + i) as u32)
    } else {
        Seq::empty()
    }
}

/// A host range's walk visits every address from the first to the last, both
/// included, each once, in increasing order, and nothing else.
pub proof fn lemma_hosts_walk(r: HostRange)
    ensures
        forall|x: u32| #[trigger] hosts(r).contains(x) <==> r.first <= x <= r.last,
        forall|i: int, j: int| 0 <= i < j < hosts(r).len() ==> #[trigger] hosts(r)[i] < #[trigger] hosts(r)[j],
{
    let h = hosts(r);
    assert forall|x: u32| #[trigger] h.contains(x) <==> r.first <= x <= r.last by {
        if r.first <= x <= r.last {
            assert(h[x - r.first] == x);
        }
    }
}

/// The addresses of the host ranges from the `i`-th on, in order.
pub open spec fn hosts_from(ranges: Seq<HostRange>, i: int) -> Seq<u32>
    decreases ranges.len() - i,
{
    if i < 0 || i >= ranges.len() {
        Seq::empty()
    } else {
        hosts(ranges[i]) + hosts_from(ranges, i + 1)
    }
}

/// A walk through the addresses of a list of subnets.
pub struct SubnetCursor {
    ranges: Vec<HostRange>,
    index: usize,
    /// How many addresses of the current range were handed out.
    taken: u64,
}

impl SubnetCursor {
    /// The host ranges walked through.
    pub closed spec fn ranges(&self) -> Seq<HostRange> {
        self.ranges@
    }

    /// Whether the walk can be asked for another address; once it has
    /// answered that none is left, it cannot.
    pub closed spec fn open(&self) -> bool {
        self.index < self.ranges@.len()
    }

    /// The addresses not handed out yet, in the order they will be.
    pub closed spec fn remaining(&self) -> Seq<u32> {
        if self.index < self.ranges@.len() {
            hosts(self.ranges@[self.index as int]).skip(self.taken as int) + hosts_from(self.ranges@, self.index + 1)
        } else {
            Seq::empty()
        }
    }

    /// The count of addresses taken stays within the current range.
    pub closed spec fn wf(&self) -> bool {
        self.index < self.ranges@.len() ==> self.taken <= hosts(self.ranges@[self.index as int]).len()
    }

    /// Whether the walk can be asked for another address.
    pub fn can_advance(&self) -> (r: bool)
        ensures
            r == (self.open() && self.wf()),
    {
        if self.index < self.ranges.len() {
            let r = self.ranges[self.index];
            let count: u64 = if r.first <= r.last { (r.last - r.first) as u64 + 1 } else { 0 };
            self.taken <= count
        } else {
            false
        }
    }

    /// A walk through the given ranges, before its first address.
    pub fn new(ranges: Vec<HostRange>) -> (c: SubnetCursor)
        ensures
            c.ranges() == ranges@,
            c.open() == (ranges@.len() > 0),
            c.remaining() == hosts_from(ranges@, 0),
            c.wf(),
    {
        let c = SubnetCursor { ranges, index: 0, taken: 0 };
        proof {
            if c.ranges@.len() > 0 {
                assert(hosts(c.ranges@[0]).skip(0) =~= hosts(c.ranges@[0]));
            }
        }
        c
    }

    /// Hands out the next address. When the current range is used up the
    /// walk moves to the next one; when every range is used up it answers
    /// `None` and is closed.
    pub fn next_ip(&mut self) -> (r: Option<u32>)
        requires
            old(self).open(),
            old(self).wf(),
        ensures
            final(self).wf(),
            final(self).ranges() == old(self).ranges(),
            r == (if old(self).remaining().len() > 0 { Some(old(self).remaining()[0]) } else { None }),
            final(self).remaining() == (if old(self).remaining().len() > 0 { old(self).remaining().drop_first() } else { Seq::empty() }),
            final(self).open() == r is Some,
    {
        let ghost rem = self.remaining();
        loop
            invariant_except_break
                self.index < self.ranges@.len(),
                self.wf(),
                self.ranges@ == old(self).ranges@,
                self.remaining() == rem,
            ensures
                self.wf(),
                self.ranges@ == old(self).ranges@,
                self.index < self.ranges@.len() ==> self.taken < hosts(self.ranges@[self.index as int]).len()
                    && self.remaining() == rem,
                self.index >= self.ranges@.len() ==> rem.len() == 0,
            decreases self.ranges@.len() - self.index, hosts(self.ranges@[self.index as int]).len() - self.taken,
        {
            let n_ranges = self.ranges.len();
            let r = self.ranges[self.index];
            let ghost h = hosts(r);
            let count: u64 = if r.first <= r.last { (r.last - r.first) as u64 + 1 } else { 0 };
            assert(count == h.len());
            if self.taken < count {
                break;
            }
            proof {
                assert(h.skip(self.taken as int) =~= Seq::<u32>::empty());
            }
            self.index = self.index + 1;
            self.taken = 0;
            proof {
                if self.index < self.ranges@.len() {
                    assert(hosts(self.ranges@[self.index as int]).skip(0) =~= hosts(self.ranges@[self.index as int]));
                }
            }
            if self.index >= self.ranges.len() {
                break;
            }
        }
        if self.index >= self.ranges.len() {
            return None;
        }
        let r = self.ranges[self.index];
        let ip: u32 = ((r.first as u64) + self.taken) as u32;
        let ghost h = hosts(r);
        proof {
            assert(h.skip(self.taken as int)[0] == ip);
        }
        self.taken = self.taken + 1;
        proof {
            assert(h.skip(self.taken as int) =~= h.skip(self.taken - 1).drop_first());
            assert(rem.drop_first() =~= self.remaining());
        }
        Some(ip)
    }
}

/// The dotted notation of an IPv4 address, as `std::net::Ipv4Addr` shows it.
pub open spec fn spec_ipv4_text(a: u32) -> Seq<char> {
    decimal((a / 16777216) as nat) + "."@ + decimal(((a / 65536) % 256) as nat) + "."@
        + decimal(((a / 256) % 256) as nat) + "."@ + decimal((a % 256) as nat)
}

/// Writes an IPv4 address in dotted notation.
pub fn ipv4_text(a: u32) -> (s: String)
    ensures
        s@ == spec_ipv4_text(a),
{
    let mut s = u64_to_decimal((a / 16777216) as u64);
    append(&mut s, ".");
    let t = u64_to_decimal(((a / 65536) % 256) as u64);
    append(&mut s, t.as_str());
    append(&mut s, ".");
    let t = u64_to_decimal(((a / 256) % 256) as u64);
    append(&mut s, t.as_str());
    append(&mut s, ".");
    let t = u64_to_decimal((a % 256) as u64);
    append(&mut s, t.as_str());
    s
}

/// The next target of a subnet scan: the next address, as both domain and
/// address; `None` when the subnets are used up.
pub fn next_subnet_target(cursor: &mut SubnetCursor) -> (r: Option<ReqTarget>)
    requires
        old(cursor).open(),
        old(cursor).wf(),
    ensures
        final(cursor).wf(),
        final(cursor).ranges() == old(cursor).ranges(),
        final(cursor).open() == r is Some,
        final(cursor).remaining() == (if old(cursor).remaining().len() > 0 { old(cursor).remaining().drop_first() } else { Seq::empty() }),
        r is Some == (old(cursor).remaining().len() > 0),
        r matches Some(t) ==> t.ip@ == spec_ipv4_text(old(cursor).remaining()[0]) && t.domain@ == t.ip@
            && t.port == 0 && t.protocol@.len() == 0 && t.response@.len() == 0,
{
    match cursor.next_ip() {
        Some(ip) => {
            let text = ipv4_text(ip);
            Some(ReqTarget::new(text.clone(), text))
        },
        None => None,
    }
}

} // verus!
