//! The exact integer part of frame loudness: the energy of a frame.

use vstd::prelude::*;

verus! {

/// Sum of the squared samples of a frame.
pub open spec fn energy(s: Seq<i16>) -> int
    decreases s.len(),
{
    if s.len() == 0 {
        0
    } else {
        energy(s.drop_last()) + (s.last() as int) * (s.last() as int)
    }
}

/// Sum of the squared samples of a frame, computed exactly. Divided by the
/// frame length and by the square of full scale it is the mean square from
/// which the loudness in dBFS follows.
pub fn sum_of_squares(data: &[i16]) -> (r: u128)
    ensures
        r as int == energy(data@),
{
    let n = data.len();
    let mut acc: u128 = 0;
    let mut i: usize = 0;
    while i < n
        invariant
            n == data@.len(),
            i <= n,
            acc as int == energy(data@.subrange(0, i as int)),
            acc as int <= (i as int) * 1073741824,
        decreases n - i,
    {
        let x = data[i] as i64;
        proof {
            assert(data@.subrange(0, i + 1).drop_last() =~= data@.subrange(0, i as int));
            assert(x * x <= 1073741824) by (nonlinear_arith)
                requires -32768 <= x <= 32767;
            assert(x * x >= 0) by (nonlinear_arith);
            assert((i as int) * 1073741824 + 1073741824 < 340282366920938463463374607431768211455)
                by (nonlinear_arith)
                requires i < 18446744073709551616int;
        }
        let sq = (x * x) as u128;
        acc = acc + sq;
        i = i + 1;
    }
    assert(data@.subrange(0, n as int) =~= data@);
    acc
}

} // verus!
