//! Fixed-point RMS normalization: each int8 activation row is normalized to
//! unit scale with integer arithmetic alone - a Q24 mean square, an integer
//! square root giving the RMS in Q12, a truncating normalization divide, a
//! Q16.16 per-channel weight, and an output scale of 64 per unit.

use crate::arith::clamp_i8_spec;
use crate::arith::clamp_int8;
use crate::arith::div_floor_i64;
use crate::arith::div_trunc;
use crate::arith::div_trunc_i64;
use crate::arith::lemma_div_floor_bracket;
use crate::arith::lemma_div_trunc_bound;
use crate::arith::KernelError;
use crate::isqrt::isqrt;
use crate::isqrt::isqrt_spec;
use vstd::arithmetic::div_mod::lemma_div_nonincreasing;
use vstd::arithmetic::div_mod::lemma_div_pos_is_pos;
use vstd::prelude::*;

verus! {

/// The widest row the 64-bit mean-square accumulator provably admits: each
/// squared channel is at most 16384, and 16384 * MAX_DIM * 2^24 fits an i64.
pub const MAX_DIM: usize = 33554431;

/// The output convention: 64 represents 1.0, leaving headroom to represent
/// magnitudes up to about 2 before saturation.
pub const OUTPUT_SCALE: i64 = 64;

/// Sum of the squares of the first `k` channels of a row.
pub open spec fn sum_sq_prefix(xr: Seq<i8>, k: int) -> int
    decreases k,
{
    if k <= 0 {
        0
    } else {
        sum_sq_prefix(xr, k - 1) + (xr[k - 1] as int) * (xr[k - 1] as int)
    }
}

/// Sum of the squares of a whole row.
pub open spec fn sum_sq(xr: Seq<i8>) -> int {
    sum_sq_prefix(xr, xr.len() as int)
}

/// The stabilized mean square of a row in Q24: `(sumSq << 24) / D` plus the
/// epsilon rescaled from Q32 to Q24.
pub open spec fn rms_sq_q24_spec(xr: Seq<i8>, eps: int) -> int
    recommends
        xr.len() >= 1,
{
    sum_sq(xr) * 0x100_0000 / (xr.len() as int) + eps / 256
}

/// The RMS of a row in Q12: the integer square root of the Q24 mean square.
pub open spec fn rms_q12_spec(xr: Seq<i8>, eps: int) -> nat {
    isqrt_spec(rms_sq_q24_spec(xr, eps) as nat)
}

/// One normalized channel, for a nonzero RMS: the activation scaled to Q24
/// and divided by the Q12 RMS truncating toward zero, the Q16.16 weight
/// applied and rescaled to Q16 by an arithmetic shift (floor), the output
/// scale applied and rescaled likewise, then saturated to int8.
pub open spec fn rmsnorm_elem_spec(xi: i8, wi: i32, rms: nat) -> int
    recommends
        rms >= 1,
{
    let norm_q12 = div_trunc(xi as int * 0x100_0000, rms as int);
    let weighted_q16 = (norm_q12 * wi) / 0x1000;
    clamp_i8_spec((weighted_q16 * OUTPUT_SCALE) / 0x1_0000)
}

/// One full output row: entirely zero when the RMS underflows to zero (the
/// defined degenerate-row bypass), the normalized channels otherwise.
pub open spec fn rmsnorm_row_spec(xr: Seq<i8>, w: Seq<i32>, eps: int) -> Seq<int>
    recommends
        xr.len() == w.len(),
        xr.len() >= 1,
{
    let rms = rms_q12_spec(xr, eps);
    if rms == 0 {
        Seq::new(xr.len(), |i: int| 0)
    } else {
        Seq::new(xr.len(), |i: int| rmsnorm_elem_spec(xr[i], w[i], rms))
    }
}

/// The sum of squares of an all-zero prefix is zero.
pub proof fn lemma_sum_sq_prefix_zero(xr: Seq<i8>, k: int)
    requires
        0 <= k <= xr.len(),
        forall|i: int| 0 <= i < xr.len() ==> xr[i] == 0,
    ensures
        sum_sq_prefix(xr, k) == 0,
    decreases k,
{
    if k > 0 {
        lemma_sum_sq_prefix_zero(xr, k - 1);
    }
}

/// An all-zero activation row normalizes to an all-zero output row, whether
/// the degenerate-row bypass fires or not.
pub proof fn lemma_zero_row_stays_zero(xr: Seq<i8>, w: Seq<i32>, eps: int)
    requires
        xr.len() == w.len(),
        1 <= xr.len(),
        0 <= eps,
        forall|i: int| 0 <= i < xr.len() ==> xr[i] == 0,
    ensures
        forall|i: int| 0 <= i < xr.len() ==> rmsnorm_row_spec(xr, w, eps)[i] == 0,
{
    lemma_sum_sq_prefix_zero(xr, xr.len() as int);
    let rms = rms_q12_spec(xr, eps);
    if rms != 0 {
        assert forall|i: int| 0 <= i < xr.len() implies rmsnorm_row_spec(xr, w, eps)[i] == 0 by {
            lemma_div_pos_is_pos(0, rms as int);
            lemma_div_nonincreasing(0, rms as int);
            assert(div_trunc(xr[i] as int * 0x100_0000, rms as int) == 0);
            lemma_div_pos_is_pos(0, 0x1000);
            lemma_div_nonincreasing(0, 0x1000);
            lemma_div_pos_is_pos(0, 0x1_0000);
            lemma_div_nonincreasing(0, 0x1_0000);
        }
    }
}

/// Batch rows are mutually independent: an output row is a function of its
/// own input row alone, so any processing order of the batch - here stated
/// for an arbitrary reindexing `p` of the rows - yields the same rows.
pub proof fn lemma_batch_order_irrelevant(
    x1: Seq<Seq<i8>>,
    x2: Seq<Seq<i8>>,
    w: Seq<i32>,
    eps: int,
    p: Seq<int>,
)
    requires
        x2.len() == p.len(),
        forall|b: int|
            0 <= b < p.len() ==> 0 <= #[trigger] p[b] < x1.len() && x2[b] == x1[p[b]],
    ensures
        forall|b: int|
            0 <= b < p.len() ==> rmsnorm_row_spec(#[trigger] x2[b], w, eps) == rmsnorm_row_spec(
                x1[p[b]],
                w,
                eps,
            ),
{
}

/// The fixed-point RMS normalization layer: immutable per-channel Q16.16
/// weights and a Q32 epsilon stabilizer.
pub struct RMSNorm {
    weight: Vec<i32>,
    eps: i64,
}

impl RMSNorm {
    /// The per-channel Q16.16 weights.
    pub closed spec fn spec_weight(self) -> Seq<i32> {
        self.weight@
    }

    /// The Q32 epsilon stabilizer.
    pub closed spec fn spec_eps(self) -> int {
        self.eps as int
    }

    pub open spec fn dim_spec(self) -> nat {
        self.spec_weight().len()
    }

    /// Well-formedness: at least one channel, narrow enough for the 64-bit
    /// accumulator, and a nonnegative epsilon stabilizer.
    pub open spec fn wf(self) -> bool {
        &&& 1 <= self.dim_spec() <= MAX_DIM
        &&& 0 <= self.spec_eps()
    }

    /// Wraps pre-quantized Q16.16 channel weights and a Q32 epsilon.
    pub fn from_quantized(weight_q16: Vec<i32>, eps_q32: i64) -> (r: RMSNorm)
        requires
            1 <= weight_q16@.len() <= MAX_DIM,
            0 <= eps_q32,
        ensures
            r.wf(),
            r.spec_weight() == weight_q16@,
            r.spec_eps() == eps_q32 as int,
    {
        RMSNorm { weight: weight_q16, eps: eps_q32 }
    }

    /// The forward pass, row by row: the Q24 mean square of the row is
    /// stabilized with the rescaled epsilon, its integer square root gives
    /// the Q12 RMS, and each channel is normalized, weighted and saturated
    /// as `rmsnorm_row_spec` states. A zero RMS leaves the row entirely
    /// zero. An activation matrix with any row not exactly the layer's
    /// channel count is rejected with `ShapeMismatch`.
    pub fn forward(&self, x: &Vec<Vec<i8>>) -> (r: Result<Vec<Vec<i8>>, KernelError>)
        requires
            self.wf(),
        ensures
            (forall|b: int| 0 <= b < x@.len() ==> (#[trigger] x@[b])@.len() == self.dim_spec())
                <==> r is Ok,
            r matches Err(e) ==> e == KernelError::ShapeMismatch,
            r matches Ok(y) ==> {
                &&& y@.len() == x@.len()
                &&& forall|b: int| 0 <= b < x@.len() ==> (#[trigger] y@[b])@.len() == self.dim_spec()
                &&& forall|b: int, i: int|
                    0 <= b < x@.len() && 0 <= i < self.dim_spec()
                        ==> (#[trigger] y@[b]@[i]) as int == rmsnorm_row_spec(
                        x@[b]@,
                        self.spec_weight(),
                        self.spec_eps(),
                    )[i]
            },
    {
        let dim = self.weight.len();
        let batch = x.len();
        let mut b: usize = 0;
        while b < batch
            invariant
                batch == x@.len(),
                b <= batch,
                dim == self.dim_spec(),
                forall|k: int| 0 <= k < b ==> (#[trigger] x@[k])@.len() == self.dim_spec(),
            decreases batch - b,
        {
            if x[b].len() != dim {
                return Err(KernelError::ShapeMismatch);
            }
            b = b + 1;
        }
        let eps_q24: u64 = (self.eps as u64) / 256;
        let mut out: Vec<Vec<i8>> = Vec::new();
        let mut b: usize = 0;
        while b < batch
            invariant
                self.wf(),
                batch == x@.len(),
                b <= batch,
                out@.len() == b,
                dim == self.dim_spec(),
                eps_q24 == self.spec_eps() / 256,
                eps_q24 <= 0x7F_FFFF_FFFF_FFFF,
                forall|k: int| 0 <= k < batch ==> (#[trigger] x@[k])@.len() == self.dim_spec(),
                forall|k: int| 0 <= k < b ==> (#[trigger] out@[k])@.len() == self.dim_spec(),
                forall|k: int, i: int|
                    0 <= k < b && 0 <= i < self.dim_spec()
                        ==> (#[trigger] out@[k]@[i]) as int == rmsnorm_row_spec(
                        x@[k]@,
                        self.spec_weight(),
                        self.spec_eps(),
                    )[i],
            decreases batch - b,
        {
            let xrow: &Vec<i8> = &x[b];
            // Sum of squares of the row, in a 64-bit accumulator.
            let mut acc: u64 = 0;
            let mut i: usize = 0;
            while i < dim
                invariant
                    i <= dim,
                    dim == xrow@.len(),
                    dim <= MAX_DIM,
                    acc == sum_sq_prefix(xrow@, i as int),
                    acc <= 16384 * (i as int),
                decreases dim - i,
            {
                let xv: i8 = xrow[i];
                let xv64: i64 = xv as i64;
                proof {
                    assert(0 <= xv64 * xv64 <= 16384) by (nonlinear_arith)
                        requires
                            -128 <= xv64 <= 127,
                    ;
                }
                let sq: i64 = xv64 * xv64;
                acc = acc + (sq as u64);
                i = i + 1;
            }
            // Stabilized mean square in Q24, then the Q12 RMS.
            let num: u64 = acc * 0x100_0000;
            let mean_q24: u64 = num / (dim as u64);
            let rms_sq_q24: u64 = mean_q24 + eps_q24;
            proof {
                lemma_div_pos_is_pos(num as int, dim as int);
                lemma_div_nonincreasing(num as int, dim as int);
                lemma_div_pos_is_pos(self.spec_eps(), 256);
                assert(rms_sq_q24 as int == rms_sq_q24_spec(xrow@, self.spec_eps()));
            }
            let rms_q12: u64 = isqrt(rms_sq_q24);
            proof {
                assert(rms_q12 as nat == rms_q12_spec(xrow@, self.spec_eps()));
                assert(rms_q12 < 0x1_0000_0000) by (nonlinear_arith)
                    requires
                        rms_q12 * rms_q12 <= rms_sq_q24 as int,
                        rms_sq_q24 <= u64::MAX,
                        0 <= rms_q12,
                ;
            }
            let mut row: Vec<i8> = Vec::new();
            if rms_q12 == 0 {
                // Degenerate row: the defined bypass leaves it entirely zero.
                let mut i: usize = 0;
                while i < dim
                    invariant
                        i <= dim,
                        row@.len() == i,
                        forall|k: int| 0 <= k < i ==> (#[trigger] row@[k]) == 0i8,
                    decreases dim - i,
                {
                    row.push(0i8);
                    i = i + 1;
                }
            } else {
                let mut i: usize = 0;
                while i < dim
                    invariant
                        self.wf(),
                        i <= dim,
                        row@.len() == i,
                        dim == self.dim_spec(),
                        dim == xrow@.len(),
                        1 <= rms_q12 < 0x1_0000_0000,
                        forall|k: int|
                            0 <= k < i ==> (#[trigger] row@[k]) as int == rmsnorm_elem_spec(
                                xrow@[k],
                                self.spec_weight()[k],
                                rms_q12 as nat,
                            ),
                    decreases dim - i,
                {
                    let xv: i8 = xrow[i];
                    let a: i64 = (xv as i64) * 0x100_0000;
                    let norm_q12: i64 = div_trunc_i64(a, rms_q12 as i64);
                    proof {
                        lemma_div_trunc_bound(a as int, rms_q12 as int);
                    }
                    let wi: i32 = self.weight[i];
                    proof {
                        assert(-0x4000_0000_0000_0000 <= norm_q12 as int * wi as int
                            <= 0x4000_0000_0000_0000) by (nonlinear_arith)
                            requires
                                -0x8000_0000 <= norm_q12 as int <= 0x8000_0000,
                                -0x8000_0000 <= wi as int <= 0x8000_0000,
                        ;
                    }
                    let prod: i64 = norm_q12 * (wi as i64);
                    let weighted_q16: i64 = div_floor_i64(prod, 0x1000);
                    proof {
                        lemma_div_floor_bracket(
                            prod as int,
                            0x1000,
                            -0x4_0000_0000_0000,
                            0x4_0000_0000_0000,
                        );
                    }
                    let scaled: i64 = weighted_q16 * OUTPUT_SCALE;
                    let res: i64 = div_floor_i64(scaled, 0x1_0000);
                    let cell: i8 = clamp_int8(res);
                    row.push(cell);
                    i = i + 1;
                }
            }
            proof {
                let rspec = rmsnorm_row_spec(x@[b as int]@, self.spec_weight(), self.spec_eps());
                assert forall|k: int| 0 <= k < dim implies (#[trigger] row@[k]) as int == rspec[k]
                    by {}
            }
            out.push(row);
            b = b + 1;
        }
        Ok(out)
    }
}

} // verus!
