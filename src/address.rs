use vstd::prelude::*;

verus! {

/// An IPv4 address as its four octets, most significant first.
#[derive(Clone, Copy, Debug, PartialEq, Eq, Structural, PartialOrd, Ord, Hash)]
pub struct Address {
    pub a: u8,
    pub b: u8,
    pub c: u8,
    pub d: u8,
}

impl Address {
    /// The 32-bit numeric value of the address; addresses are ordered by it.
    pub open spec fn value(self) -> nat {
        (self.a as nat) * 16777216 + (self.b as nat) * 65536 + (self.c as nat) * 256 + (self.d as nat)
    }

    /// Two addresses lie in the same subnet when their first three octets agree.
    pub open spec fn same_prefix(self, other: Address) -> bool {
        self.a == other.a && self.b == other.b && self.c == other.c
    }

    pub fn new(a: u8, b: u8, c: u8, d: u8) -> (r: Address)
        ensures
            r == (Address { a, b, c, d }),
    {
        Address { a, b, c, d }
    }

    pub fn octets(&self) -> (r: [u8; 4])
        ensures
            r@ == seq![self.a, self.b, self.c, self.d],
    {
        let r = [self.a, self.b, self.c, self.d];
        assert(r@ =~= seq![self.a, self.b, self.c, self.d]);
        r
    }

    pub fn to_u32(&self) -> (r: u32)
        ensures
            r as nat == self.value(),
    {
        (self.a as u32) * 16777216 + (self.b as u32) * 65536 + (self.c as u32) * 256 + (self.d as u32)
    }

    pub fn is_after(&self, other: &Address) -> (r: bool)
        ensures
            r == (self.value() > other.value()),
    {
        self.to_u32() > other.to_u32()
    }

    pub fn same_subnet(&self, other: &Address) -> (r: bool)
        ensures
            r == self.same_prefix(*other),
    {
        self.a == other.a && self.b == other.b && self.c == other.c
    }
}

/// Within one subnet, the numeric order of addresses is the order of their
/// last octets, and equal last octets mean equal addresses.
pub proof fn lemma_prefix_order(x: Address, y: Address)
    requires
        x.same_prefix(y),
    ensures
        x.value() - y.value() == x.d - y.d,
        x.value() <= y.value() <==> x.d <= y.d,
        x.d == y.d ==> x == y,
{
}

} // verus!
