use vstd::prelude::*;

verus! {

/// An IPv4 address: four octets.
#[derive(Clone, Copy, Debug, PartialEq, Eq, Hash, PartialOrd, Ord)]
pub struct Ipv4Address {
    pub octets: [u8; 4],
}

/// An IPv6 address: eight 16-bit segments.
#[derive(Clone, Copy, Debug, PartialEq, Eq, Hash, PartialOrd, Ord)]
pub struct Ipv6Address {
    pub segments: [u16; 8],
}

impl Ipv4Address {
    /// The address `a.b.c.d`.
    pub open spec fn of(a: u8, b: u8, c: u8, d: u8) -> Ipv4Address {
        Ipv4Address { octets: [a, b, c, d] }
    }

    #[verifier::when_used_as_spec(of)]
    pub fn new(a: u8, b: u8, c: u8, d: u8) -> (r: Ipv4Address)
        ensures
            r == Ipv4Address::of(a, b, c, d),
    {
        Ipv4Address { octets: [a, b, c, d] }
    }

    /// The four octets, first to last.
    pub fn octets(&self) -> (r: [u8; 4])
        ensures
            r == self.octets,
    {
        self.octets
    }
}

impl Ipv6Address {
    /// The address with the segments `a:b:c:d:e:f:g:h`.
    pub open spec fn of(
        a: u16,
        b: u16,
        c: u16,
        d: u16,
        e: u16,
        f: u16,
        g: u16,
        h: u16,
    ) -> Ipv6Address {
        Ipv6Address { segments: [a, b, c, d, e, f, g, h] }
    }

    #[verifier::when_used_as_spec(of)]
    pub fn new(a: u16, b: u16, c: u16, d: u16, e: u16, f: u16, g: u16, h: u16) -> (r: Ipv6Address)
        ensures
            r == Ipv6Address::of(a, b, c, d, e, f, g, h),
    {
        Ipv6Address { segments: [a, b, c, d, e, f, g, h] }
    }

    /// The eight segments, first to last.
    pub fn segments(&self) -> (r: [u16; 8])
        ensures
            r == self.segments,
    {
        self.segments
    }
}

/// An address is its octets: two addresses with the same octets are the same address.
pub proof fn lemma_ipv4_by_octets(x: Ipv4Address, a: u8, b: u8, c: u8, d: u8)
    requires
        x.octets@[0] == a,
        x.octets@[1] == b,
        x.octets@[2] == c,
        x.octets@[3] == d,
    ensures
        x == Ipv4Address::of(a, b, c, d),
{
    assert(x.octets =~= [a, b, c, d]);
}

/// An address is its segments: two addresses with the same segments are the same address.
pub proof fn lemma_ipv6_by_segments(x: Ipv6Address, s: Seq<u16>)
    requires
        s.len() == 8,
        forall|i: int| 0 <= i < 8 ==> x.segments@[i] == s[i],
    ensures
        x == Ipv6Address::of(s[0], s[1], s[2], s[3], s[4], s[5], s[6], s[7]),
{
    assert(x.segments =~= [s[0], s[1], s[2], s[3], s[4], s[5], s[6], s[7]]);
}

} // verus!
