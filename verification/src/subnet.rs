//! IPv4 subnets and the membership rule that the classifier rests on.

use vstd::prelude::*;
use crate::seqs::{
    lemma_select_len, lemma_select_none, lemma_select_step, lemma_views_push, select, views,
};
use crate::text::{lines_of, split_lines};

verus! {

/// An IPv4 network: an address and the number of its leading bits that
/// name the network.
///
/// The address is kept as it was written, so `10.1.2.3/8` and `10.0.0.0/8`
/// are different values that contain the same addresses.
#[derive(Clone, Copy, Debug, PartialEq, Eq, Structural)]
pub struct Subnet {
    addr: u32,
    prefix_len: u8,
}

/// The mask that keeps the first `prefix_len` bits of an address.
pub open spec fn netmask(prefix_len: u8) -> u32 {
    if prefix_len == 0 {
        0u32
    } else {
        !(0xffff_ffffu32 >> prefix_len)
    }
}

/// Whether `ip` lies in the network of `addr` with prefix `prefix_len`:
/// the two agree on the first `prefix_len` bits.
pub open spec fn in_network(addr: u32, prefix_len: u8, ip: u32) -> bool {
    ip & netmask(prefix_len) == addr & netmask(prefix_len)
}

/// What `ipnet::Ipv4Net` makes of a text: the address, most significant
/// octet first, and the prefix length of the network that the text writes
/// in CIDR notation, or nothing where the text is no such network.
pub uninterp spec fn cidr_parse(line: Seq<char>) -> Option<(u32, u8)>;

/// The subnet that a line gives: what [`cidr_parse`] makes of it, unless the
/// prefix length is above 32.
pub open spec fn parsed_subnet(line: Seq<char>) -> Option<(u32, u8)> {
    match cidr_parse(line) {
        Some((addr, prefix_len)) => if prefix_len <= 32 {
            Some((addr, prefix_len))
        } else {
            None
        },
        None => None,
    }
}

/// Parses the text with the `FromStr` impl of `ipnet::Ipv4Net` and hands
/// out what `addr`, turned into a `u32`, and `prefix_len` return of the
/// network. The contract claims that the outcome depends on the text alone,
/// and gives it the name [`cidr_parse`].
#[verifier::external_body]
fn parse_cidr(line: &str) -> (r: Option<(u32, u8)>)
    ensures
        r == cidr_parse(line@),
{
    match line.parse::<ipnet::Ipv4Net>() {
        Ok(net) => Some((u32::from(net.addr()), net.prefix_len())),
        Err(_) => None,
    }
}

impl View for Subnet {
    type V = (u32, u8);

    /// The address, most significant octet first, and the prefix length.
    closed spec fn view(&self) -> (u32, u8) {
        (self.addr, self.prefix_len)
    }
}

impl Subnet {
    #[verifier::type_invariant]
    spec fn inv(&self) -> bool {
        self.prefix_len <= 32
    }

    /// The mathematical membership rule of this subnet.
    pub open spec fn holds(&self, ip: u32) -> bool {
        in_network(self@.0, self@.1, ip)
    }

    /// The lowest address of the network.
    pub open spec fn spec_network(&self) -> u32 {
        self@.0 & netmask(self@.1)
    }

    /// The highest address of the network.
    pub open spec fn spec_broadcast(&self) -> u32 {
        self@.0 | !netmask(self@.1)
    }

    /// Builds a subnet, refusing a prefix length above 32.
    pub fn new(addr: u32, prefix_len: u8) -> (r: Option<Subnet>)
        ensures
            r is Some <==> prefix_len <= 32,
            r matches Some(s) ==> s@ == (addr, prefix_len),
    {
        if prefix_len > 32 {
            None
        } else {
            Some(Subnet { addr, prefix_len })
        }
    }

    /// Parses a network in CIDR notation, such as `192.168.0.0/24`.
    pub fn parse(line: &str) -> (r: Option<Subnet>)
        ensures
            match r {
                Some(s) => parsed_subnet(line@) == Some(s@),
                None => parsed_subnet(line@) is None,
            },
    {
        match parse_cidr(line) {
            Some((addr, prefix_len)) => Subnet::new(addr, prefix_len),
            None => None,
        }
    }

    /// The address that the subnet was written with.
    pub fn addr(&self) -> (a: u32)
        ensures
            a == self@.0,
    {
        self.addr
    }

    /// The prefix length, which is at most 32.
    pub fn prefix_len(&self) -> (n: u8)
        ensures
            n == self@.1,
            n <= 32,
    {
        proof {
            use_type_invariant(self);
        }
        self.prefix_len
    }

    /// The mask of the network bits.
    pub fn netmask(&self) -> (m: u32)
        ensures
            m == netmask(self@.1),
    {
        proof {
            use_type_invariant(self);
        }
        if self.prefix_len == 0 {
            0
        } else if self.prefix_len == 32 {
            let len = self.prefix_len;
            assert(!(0xffff_ffffu32 >> len) == 0xffff_ffffu32) by (bit_vector)
                requires
                    len == 32,
            ;
            0xffff_ffff
        } else {
            !(0xffff_ffffu32 >> self.prefix_len)
        }
    }

    /// The lowest address of the network.
    pub fn network(&self) -> (a: u32)
        ensures
            a == self.spec_network(),
    {
        self.addr & self.netmask()
    }

    /// The highest address of the network.
    pub fn broadcast(&self) -> (a: u32)
        ensures
            a == self.spec_broadcast(),
    {
        self.addr | !self.netmask()
    }

    /// Whether `ip` lies between the lowest and the highest address of the
    /// network, which is the case exactly when it shares the network bits.
    pub fn contains(&self, ip: u32) -> (r: bool)
        ensures
            r == self.holds(ip),
    {
        let low = self.network();
        let high = self.broadcast();
        proof {
            use_type_invariant(self);
            lemma_range_is_prefix(self.addr, self.prefix_len, ip);
        }
        low <= ip && ip <= high
    }
}

/// An address lies between a network's lowest and highest address exactly
/// when it agrees with the network on the masked bits.
pub proof fn lemma_range_is_prefix(addr: u32, prefix_len: u8, ip: u32)
    requires
        prefix_len <= 32,
    ensures
        in_network(addr, prefix_len, ip) <==> (addr & netmask(prefix_len)) <= ip && ip <= (addr
            | !netmask(prefix_len)),
{
    if prefix_len == 0 {
        assert((ip & 0u32 == addr & 0u32) && (addr & 0u32) <= ip && ip <= (addr | !0u32))
            by (bit_vector);
    } else {
        let m = !(0xffff_ffffu32 >> prefix_len);
        assert((ip & m == addr & m) <==> ((addr & m) <= ip && ip <= (addr | !m))) by (bit_vector)
            requires
                0 < prefix_len <= 32,
                m == !(0xffff_ffffu32 >> prefix_len),
        ;
    }
}

/// With a prefix of 32 bits a network holds its own address and no other.
pub proof fn lemma_full_prefix(addr: u32, ip: u32)
    ensures
        in_network(addr, 32, ip) <==> ip == addr,
{
    let m = !(0xffff_ffffu32 >> 32u8);
    assert(m == 0xffff_ffffu32) by (bit_vector)
        requires
            m == !(0xffff_ffffu32 >> 32u8),
    ;
    assert((ip & 0xffff_ffffu32 == addr & 0xffff_ffffu32) <==> ip == addr) by (bit_vector);
}

/// With an empty prefix a network holds every address.
pub proof fn lemma_empty_prefix(addr: u32, ip: u32)
    ensures
        in_network(addr, 0, ip),
{
    assert(ip & 0u32 == addr & 0u32) by (bit_vector);
}

/// An address that differs from the network's in one bit of the prefix is
/// outside the network. Bits are counted from the most significant, which
/// is bit 0.
pub proof fn lemma_prefix_bit_differs(addr: u32, prefix_len: u8, ip: u32, bit: u32)
    requires
        bit < prefix_len <= 32,
        (ip >> (31 - bit) as u32) & 1 != (addr >> (31 - bit) as u32) & 1,
    ensures
        !in_network(addr, prefix_len, ip),
{
    let m = !(0xffff_ffffu32 >> prefix_len);
    let shift = (31 - bit) as u32;
    assert(ip & m != addr & m) by (bit_vector)
        requires
            bit < prefix_len <= 32,
            shift == 31 - bit,
            m == !(0xffff_ffffu32 >> prefix_len),
            (ip >> shift) & 1 != (addr >> shift) & 1,
    ;
}

/// The bits after the prefix do not count: two addresses that agree on the
/// prefix bits are both inside the network or both outside.
pub proof fn lemma_host_bits_ignored(addr: u32, prefix_len: u8, ip: u32, other: u32)
    requires
        ip & netmask(prefix_len) == other & netmask(prefix_len),
    ensures
        in_network(addr, prefix_len, ip) == in_network(addr, prefix_len, other),
{
}

/// The subnets that the lines which parse give, in the order of the lines.
pub open spec fn accepted(lines: Seq<Seq<char>>) -> Seq<(u32, u8)> {
    select(
        lines,
        |l: Seq<char>| parsed_subnet(l) is Some,
        |l: Seq<char>| parsed_subnet(l)->Some_0,
    )
}

/// The lines that do not parse, in the order of the lines.
pub open spec fn rejected(lines: Seq<Seq<char>>) -> Seq<Seq<char>> {
    select(lines, |l: Seq<char>| parsed_subnet(l) is None, |l: Seq<char>| l)
}

/// Files one line under the subnets or under the rejected lines, by what
/// parsing it gave.
pub fn file_subnet(
    line: &str,
    outcome: Option<Subnet>,
    subnets: &mut Vec<Subnet>,
    rejects: &mut Vec<String>,
)
    ensures
        match outcome {
            Some(s) => views(final(subnets)@) == views(old(subnets)@).push(s@) && views(
                final(rejects)@,
            ) == views(old(rejects)@),
            None => views(final(subnets)@) == views(old(subnets)@) && views(final(rejects)@)
                == views(old(rejects)@).push(line@),
        },
{
    match outcome {
        Some(s) => {
            proof {
                lemma_views_push(subnets@, s);
            }
            subnets.push(s);
        },
        None => {
            let reject = line.to_owned();
            proof {
                lemma_views_push(rejects@, reject);
            }
            rejects.push(reject);
        },
    }
}

/// Reads a list of subnets in CIDR notation, one to a line. The lines that
/// parse give the subnets, in their order; every other line is handed back,
/// and stops nothing.
pub fn build_subnets(text: &str) -> (r: (Vec<Subnet>, Vec<String>))
    ensures
        views(r.0@) == accepted(lines_of(text@)),
        views(r.1@) == rejected(lines_of(text@)),
{
    let lines = split_lines(text);
    let mut subnets: Vec<Subnet> = Vec::new();
    let mut rejects: Vec<String> = Vec::new();
    let ghost all = views(lines@);
    proof {
        lemma_loaded_start(all.take(0));
    }
    let mut i: usize = 0;
    while i < lines.len()
        invariant
            i <= lines.len(),
            all == views(lines@),
            views(subnets@) == accepted(all.take(i as int)),
            views(rejects@) == rejected(all.take(i as int)),
        decreases lines.len() - i,
    {
        let line = lines[i].as_str();
        let outcome = Subnet::parse(line);
        file_subnet(line, outcome, &mut subnets, &mut rejects);
        proof {
            lemma_loaded_step(all, i as int);
        }
        i += 1;
    }
    assert(all.take(lines.len() as int) == all);
    (subnets, rejects)
}

/// No lines give no subnets and no rejected lines.
pub proof fn lemma_loaded_start(lines: Seq<Seq<char>>)
    requires
        lines.len() == 0,
    ensures
        accepted(lines) == Seq::<(u32, u8)>::empty(),
        rejected(lines) == Seq::<Seq<char>>::empty(),
{
    lemma_select_none(
        lines,
        |l: Seq<char>| parsed_subnet(l) is Some,
        |l: Seq<char>| parsed_subnet(l)->Some_0,
    );
    lemma_select_none(lines, |l: Seq<char>| parsed_subnet(l) is None, |l: Seq<char>| l);
}

/// One more line adds its subnet to the accepted ones if it parses, and is
/// added to the rejected ones if it does not.
pub proof fn lemma_loaded_step(lines: Seq<Seq<char>>, i: int)
    requires
        0 <= i < lines.len(),
    ensures
        match parsed_subnet(lines[i]) {
            Some(s) => accepted(lines.take(i + 1)) == accepted(lines.take(i)).push(s) && rejected(
                lines.take(i + 1),
            ) == rejected(lines.take(i)),
            None => accepted(lines.take(i + 1)) == accepted(lines.take(i)) && rejected(
                lines.take(i + 1),
            ) == rejected(lines.take(i)).push(lines[i]),
        },
{
    lemma_select_step(
        lines,
        |l: Seq<char>| parsed_subnet(l) is Some,
        |l: Seq<char>| parsed_subnet(l)->Some_0,
        i,
    );
    lemma_select_step(lines, |l: Seq<char>| parsed_subnet(l) is None, |l: Seq<char>| l, i);
}

/// Of `n` lines of which `m` parse, exactly `m` give a subnet and the other
/// `n - m` are rejected.
pub proof fn lemma_every_line_filed(lines: Seq<Seq<char>>)
    ensures
        accepted(lines).len() == lines.filter(|l: Seq<char>| parsed_subnet(l) is Some).len(),
        accepted(lines).len() + rejected(lines).len() == lines.len(),
{
    let some = |l: Seq<char>| parsed_subnet(l) is Some;
    let none = |l: Seq<char>| parsed_subnet(l) is None;
    lemma_select_len(lines, some, |l: Seq<char>| parsed_subnet(l)->Some_0, |l: Seq<char>| l);
    assert(none =~= (|l: Seq<char>| !some(l)));
}

/// Every subnet that a line gives has a prefix length of at most 32.
pub proof fn lemma_accepted_prefix(lines: Seq<Seq<char>>, k: int)
    requires
        0 <= k < accepted(lines).len(),
    ensures
        accepted(lines)[k].1 <= 32,
{
    let some = |l: Seq<char>| parsed_subnet(l) is Some;
    lines.lemma_filter_pred(some, k);
}

} // verus!
