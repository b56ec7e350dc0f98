#![verifier::loop_isolation(false)]

pub mod collections;
pub mod convert;
pub mod dag;
pub mod dataflow;
pub mod frame_object;
pub mod ir;
pub mod ir_liveness;
pub mod isel;
pub mod machine;
pub mod mc_convert;
pub mod pipeline;
pub mod machine_liveness;
pub mod types;

use vstd::prelude::*;

verus! {

/// The least multiple of `a` that is at least `x`, for positive `a`.
pub open spec fn spec_roundup(x: int, a: int) -> int {
    ((x + a - 1) / a) * a
}

/// Rounds `x` up to the next multiple of `align`.
///
/// Stack frames are padded to an alignment boundary with this; the result is
/// the least multiple of `align` that is at least `x`.
pub fn roundup(x: i32, align: i32) -> (r: i32)
    requires
        0 <= x,
        0 < align,
        x + align - 1 <= i32::MAX,
    ensures
        r == spec_roundup(x as int, align as int),
        r % align == 0,
        x <= r < x + align,
{
    let s = (x - 1 + align) as u32;
    let q = s / (align as u32);
    proof {
        let a = align as int;
        vstd::arithmetic::div_mod::lemma_fundamental_div_mod(s as int, a);
        vstd::arithmetic::div_mod::lemma_mod_bound(s as int, a);
        assert(q == (s as int) / a);
        assert((q as int) * a == s - (s as int) % a);
        vstd::arithmetic::div_mod::lemma_mod_multiples_basic(q as int, a);
    }
    (q * (align as u32)) as i32
}

} // verus!
