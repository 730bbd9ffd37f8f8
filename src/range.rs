use vstd::prelude::*;
use crate::address::{Address, lemma_prefix_order};

verus! {

/// Why a candidate pair of addresses does not form a scannable range.
#[derive(Clone, Copy, Debug, PartialEq, Eq, Structural)]
pub enum RangeError {
    /// The start address is numerically greater than the end address.
    StartAfterEnd,
    /// The first three octets of start and end differ.
    DifferentSubnets,
}

/// The bounds that a scannable range must satisfy: ordered, and varying in the
/// last octet only.
pub open spec fn valid_bounds(start: Address, end: Address) -> bool {
    start.value() <= end.value() && start.same_prefix(end)
}

/// What checking the pair (start, end) yields: the ordering check comes first,
/// then the subnet check.
pub open spec fn validation_result(start: Address, end: Address) -> Result<(), RangeError> {
    if start.value() > end.value() {
        Err(RangeError::StartAfterEnd)
    } else if !start.same_prefix(end) {
        Err(RangeError::DifferentSubnets)
    } else {
        Ok(())
    }
}

/// The address of a range's subnet whose last octet is `start.d + i`.
pub open spec fn nth_address(start: Address, i: int) -> Address {
    Address { a: start.a, b: start.b, c: start.c, d: (start.d + i) as u8 }
}

/// A validated, immutable scan range; it can only be built by `verify_input`.
pub struct Range {
    start: Address,
    end: Address,
}

impl Range {
    #[verifier::type_invariant]
    spec fn inv(self) -> bool {
        valid_bounds(self.start, self.end)
    }

    pub closed spec fn first(self) -> Address {
        self.start
    }

    pub closed spec fn last(self) -> Address {
        self.end
    }

    /// The number of addresses in the range.
    pub open spec fn len(self) -> int {
        self.last().d - self.first().d + 1
    }

    pub fn start(&self) -> (r: Address)
        ensures
            r == self.first(),
            valid_bounds(self.first(), self.last()),
    {
        proof {
            use_type_invariant(self);
        }
        self.start
    }

    pub fn end(&self) -> (r: Address)
        ensures
            r == self.last(),
            valid_bounds(self.first(), self.last()),
    {
        proof {
            use_type_invariant(self);
        }
        self.end
    }

    /// How many addresses the range holds, between 1 and 256.
    pub fn size(&self) -> (r: u16)
        ensures
            r as int == self.len(),
            1 <= r <= 256,
    {
        proof {
            use_type_invariant(self);
            lemma_prefix_order(self.start, self.end);
        }
        (self.end.d - self.start.d) as u16 + 1
    }

    /// Every address from start to end inclusive, in ascending order.
    pub fn expand(&self) -> (r: Vec<Address>)
        ensures
            r.len() == self.len(),
            r.len() == self.last().d - self.first().d + 1,
            forall|i: int| 0 <= i < r.len() ==> r@[i] == nth_address(self.first(), i),
            forall|i: int, j: int| 0 <= i < j < r.len() ==> r@[i].value() < r@[j].value(),
            r@.no_duplicates(),
            r@[0] == self.first(),
            r@[r.len() - 1] == self.last(),
            self.first().d == self.last().d ==> r.len() == 1,
    {
        proof {
            use_type_invariant(self);
            lemma_prefix_order(self.start, self.end);
        }
        let s = self.start;
        let n: u16 = (self.end.d - s.d) as u16 + 1;
        let mut r: Vec<Address> = Vec::new();
        let mut i: u16 = 0;
        while i < n
            invariant
                n == self.end.d - s.d + 1,
                s == self.start,
                s.d + n <= 256,
                i <= n,
                r.len() == i,
                forall|k: int| 0 <= k < i ==> r@[k] == nth_address(s, k),
            decreases n - i,
        {
            r.push(Address { a: s.a, b: s.b, c: s.c, d: (s.d as u16 + i) as u8 });
            i = i + 1;
        }
        assert forall|x: int, y: int| 0 <= x < y < r.len() implies r@[x].value() < r@[y].value() by {
            assert(r@[x] == nth_address(s, x));
            assert(r@[y] == nth_address(s, y));
        }
        assert forall|x: int, y: int| 0 <= x < y < r.len() implies r@[x] != r@[y] by {
            assert(r@[x].value() < r@[y].value());
        }
        assert(r@[0] == nth_address(s, 0));
        assert(r@[r.len() - 1] == nth_address(s, n - 1));
        r
    }
}

/// Checks a candidate pair of addresses, ordering first and subnet second, and
/// builds the range when both checks pass.
pub fn verify_input(start: Address, end: Address) -> (r: Result<Range, RangeError>)
    ensures
        r is Ok <==> valid_bounds(start, end),
        r matches Ok(range) ==> range.first() == start && range.last() == end,
        r matches Err(e) ==> validation_result(start, end) == Err::<(), RangeError>(e),
        r is Err <==> validation_result(start, end) is Err,
{
    if start.is_after(&end) {
        return Err(RangeError::StartAfterEnd);
    }
    if !start.same_subnet(&end) {
        return Err(RangeError::DifferentSubnets);
    }
    Ok(Range { start, end })
}

} // verus!
