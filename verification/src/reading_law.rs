//! What holds of how arguments are read: whole numbers, and what stands where nothing is given.
use crate::reading::{is_whole, truncated, two_to, whole_part};
use crate::logic_fn::equal;
use crate::value::{one, zero, Num};
use vstd::prelude::*;

verus! {

/// The number that stands for a count that is not given is one.
pub proof fn one_is_one()
    ensures
        one().finite(),
        is_whole(one(), 1),
        truncated(one()) == 1,
{
    assert(two_to(52) == 0x10_0000_0000_0000) by {
        reveal_with_fuel(two_to, 53);
    }
    let m = one().magnitude();
    assert(m / 0x10_0000_0000_0000 == 1023 && m % 0x10_0000_0000_0000 == 0);
    assert(whole_part(one()) == 1);
}

/// A number whose whole part is not zero has not the value zero.
pub proof fn zero_is_none(n: Num)
    requires
        n.finite(),
        truncated(n) != 0,
    ensures
        n.rank() != 0,
        !equal(n, zero()),
{
    if n.magnitude() == 0 {
        two_to_is_positive(1075);
        assert(0int / two_to(1075) == 0) by (nonlinear_arith)
            requires
                two_to(1075) > 0,
        ;
        assert(whole_part(n) == 0);
    }
}

/// A whole number above zero is a number above zero.
pub proof fn whole_is_positive(n: Num, k: int)
    requires
        is_whole(n, k),
        k > 0,
    ensures
        n.bits < crate::value::SIGN,
        n.rank() > 0,
{
    let m = n.magnitude();
    let e = m / 0x10_0000_0000_0000;
    let f = m % 0x10_0000_0000_0000;
    let s = if e == 0 {
        f
    } else {
        f + 0x10_0000_0000_0000
    };
    two_to_is_positive(e - 1075);
    two_to_is_positive(1075 - e);
    assert(s * two_to(e - 1075) >= 0) by (nonlinear_arith)
        requires
            s >= 0,
            two_to(e - 1075) > 0,
    ;
    assert(s / two_to(1075 - e) >= 0) by (nonlinear_arith)
        requires
            s >= 0,
            two_to(1075 - e) > 0,
    ;
    if m == 0 {
        assert(0int / two_to(1075 - e) == 0) by (nonlinear_arith)
            requires
                two_to(1075 - e) > 0,
        ;
    }
}

proof fn two_to_is_positive(k: int)
    ensures
        two_to(k) > 0,
    decreases k,
{
    if k > 0 {
        two_to_is_positive(k - 1);
    }
}

} // verus!
