//! Binary floating-point values held by their bit patterns, and their order.

use vstd::prelude::*;

verus! {

/// A value of the IEEE 754 format binary64, held by its bit pattern: the sign in
/// the highest bit, then the exponent, then the fraction.
#[derive(Clone, Copy, Debug, PartialEq, Eq, Structural)]
pub struct Binary64 {
    pub bits: u64,
}

/// The bit pattern of 1.
pub const ONE_BITS: u64 = 0x3ff0_0000_0000_0000;

/// The bit pattern of 15.
pub const FIFTEEN_BITS: u64 = 0x402e_0000_0000_0000;

/// The bit pattern of 256.
pub const TWO_HUNDRED_FIFTY_SIX_BITS: u64 = 0x4070_0000_0000_0000;

impl Binary64 {
    /// Whether the sign bit is set.
    pub open spec fn negative(self) -> bool {
        self.bits >= 0x8000_0000_0000_0000
    }

    /// The bit pattern without the sign bit.
    pub open spec fn magnitude(self) -> int {
        if self.negative() {
            self.bits - 0x8000_0000_0000_0000
        } else {
            self.bits as int
        }
    }

    /// Whether the pattern stands for no number: the exponent is all ones and the
    /// fraction is not zero.
    pub open spec fn is_nan(self) -> bool {
        self.magnitude() > 0x7ff0_0000_0000_0000
    }

    /// The place of a number among the numbers. Both zeros have the same place.
    pub open spec fn place(self) -> int {
        if self.negative() {
            -self.magnitude()
        } else {
            self.magnitude()
        }
    }

    /// The place of a pattern in the total order of all patterns, in which the
    /// negative zero stands before the positive one and what is no number stands
    /// at the ends.
    pub open spec fn total_place(self) -> int {
        if self.negative() {
            -self.magnitude() - 1
        } else {
            self.magnitude()
        }
    }

    /// Whether both are numbers and `self` is the greater one or equal.
    pub open spec fn ge(self, other: Binary64) -> bool {
        !self.is_nan() && !other.is_nan() && self.place() >= other.place()
    }

    /// Whether both are numbers and `self` is the greater one.
    pub open spec fn gt(self, other: Binary64) -> bool {
        !self.is_nan() && !other.is_nan() && self.place() > other.place()
    }

    fn read_magnitude(self) -> (m: i64)
        ensures
            m == self.magnitude(),
            m >= 0,
    {
        if self.bits >= 0x8000_0000_0000_0000 {
            (self.bits - 0x8000_0000_0000_0000) as i64
        } else {
            self.bits as i64
        }
    }

    fn read_place(self) -> (p: i64)
        ensures
            p == self.place(),
    {
        let m: i64 = self.read_magnitude();
        if self.bits >= 0x8000_0000_0000_0000 {
            -m
        } else {
            m
        }
    }

    /// Whether the pattern stands for no number.
    pub fn not_a_number(self) -> (r: bool)
        ensures
            r == self.is_nan(),
    {
        self.read_magnitude() > 0x7ff0_0000_0000_0000
    }

    /// Whether both are numbers and `self` is the greater one or equal.
    pub fn at_least(self, other: Binary64) -> (r: bool)
        ensures
            r == self.ge(other),
    {
        !self.not_a_number() && !other.not_a_number() && self.read_place() >= other.read_place()
    }

    /// Whether both are numbers and `self` is the greater one.
    pub fn above(self, other: Binary64) -> (r: bool)
        ensures
            r == self.gt(other),
    {
        !self.not_a_number() && !other.not_a_number() && self.read_place() > other.read_place()
    }

    /// The place of the pattern in the total order of all patterns.
    pub fn read_total_place(self) -> (p: i64)
        ensures
            p == self.total_place(),
    {
        let m: i64 = self.read_magnitude();
        if self.bits >= 0x8000_0000_0000_0000 {
            -m - 1
        } else {
            m
        }
    }
}

/// The value that remains when each of `values` in turn takes the place of a
/// smaller one, starting from zero.
pub open spec fn greatest(values: Seq<Binary64>) -> Binary64
    decreases values.len(),
{
    if values.len() == 0 {
        Binary64 { bits: 0 }
    } else {
        let before = greatest(values.drop_last());
        if values.last().gt(before) {
            values.last()
        } else {
            before
        }
    }
}

/// The greatest of `values`, and zero if none is above it.
pub fn max_ratio(values: &[Binary64]) -> (m: Binary64)
    ensures
        m == greatest(values@),
{
    let mut m = Binary64 { bits: 0 };
    let mut i: usize = 0;
    while i < values.len()
        invariant
            i <= values@.len(),
            m == greatest(values@.take(i as int)),
        decreases values@.len() - i,
    {
        assert(values@.take(i + 1).drop_last() =~= values@.take(i as int));
        if values[i].above(m) {
            m = values[i];
        }
        i = i + 1;
    }
    assert(values@.take(i as int) =~= values@);
    m
}

/// The greatest value is a number, is zero or one of the values, and no value is
/// above it.
pub proof fn greatest_is_an_upper_bound(values: Seq<Binary64>)
    ensures
        !greatest(values).is_nan(),
        !greatest(values).negative(),
        greatest(values) == (Binary64 { bits: 0 }) || values.contains(greatest(values)),
        greatest(values).ge(Binary64 { bits: 0 }),
        forall|k: int| 0 <= k < values.len() ==> !(#[trigger] values[k]).gt(greatest(values)),
    decreases values.len(),
{
    if values.len() > 0 {
        let front = values.drop_last();
        greatest_is_an_upper_bound(front);
        if values.last().gt(greatest(front)) {
            assert(values[values.len() - 1] == greatest(values));
        } else if greatest(front) != (Binary64 { bits: 0 }) {
            let k = front.index_of(greatest(front));
            assert(values[k] == greatest(values));
        }
        assert forall|k: int| 0 <= k < values.len() implies !(#[trigger] values[k]).gt(
            greatest(values),
        ) by {
            if k < front.len() {
                assert(front[k] == values[k]);
            }
        }
    }
}

/// The greatest value does not depend on the order.
pub proof fn greatest_ignores_order(a: Seq<Binary64>, b: Seq<Binary64>)
    requires
        a.to_multiset() == b.to_multiset(),
    ensures
        greatest(a) == greatest(b),
{
    broadcast use vstd::seq_lib::group_to_multiset_ensures;

    greatest_is_an_upper_bound(a);
    greatest_is_an_upper_bound(b);
    if a.contains(greatest(a)) {
        assert(b.to_multiset().count(greatest(a)) > 0);
        let k = b.index_of(greatest(a));
        assert(!b[k].gt(greatest(b)));
    }
    if b.contains(greatest(b)) {
        assert(a.to_multiset().count(greatest(b)) > 0);
        let k = a.index_of(greatest(b));
        assert(!a[k].gt(greatest(a)));
    }
}

/// If one of the values reaches `mark`, the greatest does.
pub proof fn greatest_crosses(values: Seq<Binary64>, k: int, mark: Binary64)
    requires
        0 <= k < values.len(),
        values[k].ge(mark),
    ensures
        greatest(values).ge(mark),
{
    greatest_is_an_upper_bound(values);
    assert(!values[k].gt(greatest(values)));
}

/// The total order tells any two patterns apart, and agrees with the order of
/// numbers wherever that decides.
pub proof fn total_order_is_total(a: Binary64, b: Binary64)
    ensures
        a.total_place() == b.total_place() <==> a == b,
        a.gt(b) ==> a.total_place() > b.total_place(),
{
}

} // verus!
