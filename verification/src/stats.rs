//! Size accounting shared by every pass: how much smaller (in tenths
//! of a percent, rounded half away from zero) an output is than its
//! input.

use vstd::prelude::*;

verus! {

/// `a / b` rounded half away from zero, for `b > 0`.
pub open spec fn round_half_div(a: int, b: int) -> int {
    if a >= 0 {
        (2 * a + b) / (2 * b)
    } else {
        -(((-2 * a) + b) / (2 * b))
    }
}

/// Tenths of a percent by which `opt` is smaller than `orig`:
/// `round((1 - opt/orig) * 100, 1)` carried as an integer count of
/// tenths; zero when `orig` is zero.
pub open spec fn reduction_tenths(orig: int, opt: int) -> int {
    if orig <= 0 {
        0
    } else {
        round_half_div((orig - opt) * 1000, orig)
    }
}

pub fn reduction_tenths_exec(orig: usize, opt: usize) -> (r: i128)
    ensures
        r == reduction_tenths(orig as int, opt as int),
{
    if orig == 0 {
        return 0;
    }
    let o: i128 = orig as i128;
    let p: i128 = opt as i128;
    let num: i128 = (o - p) * 1000;
    if num >= 0 {
        (2 * num + o) / (2 * o)
    } else {
        -(((-2 * num) + o) / (2 * o))
    }
}


/// Reduction in tenths of a percent over wide counters.
pub fn reduction_tenths_wide(orig: u128, opt: u128) -> (r: i128)
    requires
        orig <= 0x100000000000000000000000000,
        opt <= 0x100000000000000000000000000,
    ensures
        r == reduction_tenths(orig as int, opt as int),
{
    if orig == 0 {
        return 0;
    }
    let o: i128 = orig as i128;
    let p: i128 = opt as i128;
    let num: i128 = (o - p) * 1000;
    proof {
        assert(o - p >= -0x100000000000000000000000000);
        assert(num >= (-0x100000000000000000000000000) * 1000);
        assert(num <= 0x100000000000000000000000000 * 1000);
    }
    if num >= 0 {
        (2 * num + o) / (2 * o)
    } else {
        let neg: i128 = 0 - num;
        let q: i128 = (2 * neg + o) / (2 * o);
        proof {
            assert(q == ((-2 * (num as int)) + o) / (2 * (o as int)));
        }
        0 - q
    }
}

} // verus!
