//! Ternary-weight linear layer: an out x in grid of weights in {-1, 0, 1}
//! applied to int8 activation rows with additions and subtractions only,
//! followed by a power-of-two rescale (arithmetic right shift) and a
//! saturating clamp to int8.

use crate::arith::clamp_i8_spec;
use crate::arith::clamp_int8;
use crate::arith::div_floor_i64;
use crate::arith::pow2_exec;
use crate::arith::KernelError;
use vstd::arithmetic::power2::lemma2_to64_rest;
use vstd::arithmetic::power2::lemma_pow2_strictly_increases;
use vstd::arithmetic::power2::pow2;
use vstd::prelude::*;

verus! {

/// The widest grid the 32-bit accumulator provably admits: every ternary
/// contribution is bounded by 128 in magnitude, and 128 * MAX_IN_FEATURES
/// still fits an i32.
pub const MAX_IN_FEATURES: usize = 16777215;

/// A weight is ternary when it is one of -1, 0, 1.
pub open spec fn ternary(w: i8) -> bool {
    w == -1 || w == 0 || w == 1
}

/// The contribution of one weight/activation pair: the activation, its
/// negation, or nothing. No multiplication enters the kernel.
pub open spec fn contribution(w: i8, x: i8) -> int {
    if w == 1 {
        x as int
    } else if w == -1 {
        -(x as int)
    } else {
        0
    }
}

/// Sum of the first `k` contributions of a weight row applied to an
/// activation row.
pub open spec fn row_acc_prefix(wr: Seq<i8>, xr: Seq<i8>, k: int) -> int
    decreases k,
{
    if k <= 0 {
        0
    } else {
        row_acc_prefix(wr, xr, k - 1) + contribution(wr[k - 1], xr[k - 1])
    }
}

/// The full accumulator for one output cell.
pub open spec fn row_acc(wr: Seq<i8>, xr: Seq<i8>) -> int
    recommends
        wr.len() == xr.len(),
{
    row_acc_prefix(wr, xr, wr.len() as int)
}

/// One output cell: the accumulator, arithmetically shifted right by `s`
/// (floor division by 2^s), then saturated to the int8 range.
pub open spec fn matmul_cell(wr: Seq<i8>, xr: Seq<i8>, s: nat) -> int {
    clamp_i8_spec(row_acc(wr, xr) / pow2(s) as int)
}

/// The ternary linear layer: an immutable rectangular weight grid with
/// entries in {-1, 0, 1} and a power-of-two rescale exponent.
pub struct BitLinearInt8 {
    weights: Vec<Vec<i8>>,
    scale_shift: u8,
}

impl BitLinearInt8 {
    /// The weight grid, row-major: one inner vector per output feature.
    pub closed spec fn spec_weights(self) -> Seq<Vec<i8>> {
        self.weights@
    }

    /// The rescale exponent: outputs are shifted right by this amount.
    pub closed spec fn spec_shift(self) -> nat {
        self.scale_shift as nat
    }

    pub open spec fn out_features_spec(self) -> nat {
        self.spec_weights().len()
    }

    pub open spec fn in_features_spec(self) -> nat {
        if self.spec_weights().len() == 0 {
            0
        } else {
            self.spec_weights()[0]@.len()
        }
    }

    /// Well-formedness: a rectangular grid of ternary entries, narrow enough
    /// for the i32 accumulator, with a shift below the i32 width.
    pub open spec fn wf(self) -> bool {
        &&& forall|r: int|
            0 <= r < self.spec_weights().len() ==> (#[trigger] self.spec_weights()[r])@.len()
                == self.in_features_spec()
        &&& forall|r: int, c: int|
            0 <= r < self.spec_weights().len() && 0 <= c < self.in_features_spec() ==> ternary(
                #[trigger] self.spec_weights()[r]@[c],
            )
        &&& self.in_features_spec() <= MAX_IN_FEATURES
        &&& self.spec_shift() < 32
    }

    /// Builds a layer from a rectangular ternary grid and a rescale exponent,
    /// validating every entry; a grid holding any value outside {-1, 0, 1}
    /// is rejected with `InvalidWeight`, and no layer is constructed.
    pub fn new(weights: Vec<Vec<i8>>, scale_shift: u8) -> (r: Result<BitLinearInt8, KernelError>)
        requires
            forall|i: int|
                0 <= i < weights@.len() ==> (#[trigger] weights@[i])@.len() == weights@[0]@.len(),
            weights@.len() == 0 || weights@[0]@.len() <= MAX_IN_FEATURES,
            scale_shift < 32,
        ensures
            (forall|i: int, j: int|
                0 <= i < weights@.len() && 0 <= j < weights@[i]@.len() ==> ternary(
                    #[trigger] weights@[i]@[j],
                )) <==> r is Ok,
            r matches Err(e) ==> e == KernelError::InvalidWeight,
            r matches Ok(layer) ==> {
                &&& layer.wf()
                &&& layer.spec_weights() == weights@
                &&& layer.spec_shift() == scale_shift as nat
            },
    {
        let rows = weights.len();
        let mut i: usize = 0;
        while i < rows
            invariant
                rows == weights@.len(),
                i <= rows,
                forall|a: int, j: int|
                    0 <= a < i && 0 <= j < weights@[a]@.len() ==> ternary(#[trigger] weights@[a]@[j]),
            decreases rows - i,
        {
            let cols = weights[i].len();
            let mut j: usize = 0;
            while j < cols
                invariant
                    rows == weights@.len(),
                    i < rows,
                    cols == weights@[i as int]@.len(),
                    j <= cols,
                    forall|a: int, c: int|
                        0 <= a < i && 0 <= c < weights@[a]@.len() ==> ternary(
                            #[trigger] weights@[a]@[c],
                        ),
                    forall|c: int| 0 <= c < j ==> ternary(#[trigger] weights@[i as int]@[c]),
                decreases cols - j,
            {
                let w: i8 = weights[i][j];
                if !(w == -1 || w == 0 || w == 1) {
                    return Err(KernelError::InvalidWeight);
                }
                j = j + 1;
            }
            i = i + 1;
        }
        Ok(BitLinearInt8 { weights, scale_shift })
    }

    /// Read access to the weight grid.
    pub fn weights(&self) -> (r: &Vec<Vec<i8>>)
        ensures
            r@ == self.spec_weights(),
    {
        &self.weights
    }

    /// The forward pass. For every batch row `b` and output feature `o`, the
    /// ternary contributions of weight row `o` over activation row `b` are
    /// accumulated with additions and subtractions only, shifted right by
    /// the scale exponent, and saturated to int8. An activation matrix with
    /// any row not exactly the layer's input width is rejected with
    /// `ShapeMismatch`.
    pub fn forward(&self, x: &Vec<Vec<i8>>) -> (r: Result<Vec<Vec<i8>>, KernelError>)
        requires
            self.wf(),
        ensures
            (forall|b: int|
                0 <= b < x@.len() ==> (#[trigger] x@[b])@.len() == self.in_features_spec()) <==> r
                is Ok,
            r matches Err(e) ==> e == KernelError::ShapeMismatch,
            r matches Ok(y) ==> {
                &&& y@.len() == x@.len()
                &&& forall|b: int|
                    0 <= b < x@.len() ==> (#[trigger] y@[b])@.len() == self.out_features_spec()
                &&& forall|b: int, o: int|
                    0 <= b < x@.len() && 0 <= o < self.out_features_spec()
                        ==> (#[trigger] y@[b]@[o]) as int == matmul_cell(
                        self.spec_weights()[o]@,
                        x@[b]@,
                        self.spec_shift(),
                    )
            },
    {
        let in_features: usize = if self.weights.len() == 0 {
            0
        } else {
            self.weights[0].len()
        };
        let batch = x.len();
        let mut b: usize = 0;
        while b < batch
            invariant
                batch == x@.len(),
                b <= batch,
                in_features == self.in_features_spec(),
                forall|k: int| 0 <= k < b ==> (#[trigger] x@[k])@.len() == self.in_features_spec(),
            decreases batch - b,
        {
            if x[b].len() != in_features {
                return Err(KernelError::ShapeMismatch);
            }
            b = b + 1;
        }
        let out_features = self.weights.len();
        let p: u64 = pow2_exec(self.scale_shift);
        proof {
            lemma_pow2_strictly_increases(self.spec_shift(), 63);
            lemma2_to64_rest();
        }
        let mut out: Vec<Vec<i8>> = Vec::new();
        let mut b: usize = 0;
        while b < batch
            invariant
                self.wf(),
                batch == x@.len(),
                b <= batch,
                out@.len() == b,
                in_features == self.in_features_spec(),
                out_features == self.out_features_spec(),
                p == pow2(self.spec_shift()),
                1 <= p < 0x8000_0000_0000_0000,
                forall|k: int| 0 <= k < batch ==> (#[trigger] x@[k])@.len() == self.in_features_spec(),
                forall|k: int| 0 <= k < b ==> (#[trigger] out@[k])@.len() == self.out_features_spec(),
                forall|k: int, o: int|
                    0 <= k < b && 0 <= o < self.out_features_spec()
                        ==> (#[trigger] out@[k]@[o]) as int == matmul_cell(
                        self.spec_weights()[o]@,
                        x@[k]@,
                        self.spec_shift(),
                    ),
            decreases batch - b,
        {
            let xrow: &Vec<i8> = &x[b];
            let mut row: Vec<i8> = Vec::new();
            let mut o: usize = 0;
            while o < out_features
                invariant
                    self.wf(),
                    batch == x@.len(),
                    b < batch,
                    o <= out_features,
                    row@.len() == o,
                    in_features == self.in_features_spec(),
                    out_features == self.out_features_spec(),
                    p == pow2(self.spec_shift()),
                    1 <= p < 0x8000_0000_0000_0000,
                    xrow@ == x@[b as int]@,
                    xrow@.len() == self.in_features_spec(),
                    forall|k: int|
                        0 <= k < o ==> (#[trigger] row@[k]) as int == matmul_cell(
                            self.spec_weights()[k]@,
                            x@[b as int]@,
                            self.spec_shift(),
                        ),
                decreases out_features - o,
            {
                let wrow: &Vec<i8> = &self.weights[o];
                let mut acc: i32 = 0;
                let mut i: usize = 0;
                while i < in_features
                    invariant
                        i <= in_features,
                        in_features <= MAX_IN_FEATURES,
                        wrow@.len() == in_features,
                        xrow@.len() == in_features,
                        forall|c: int| 0 <= c < in_features ==> ternary(#[trigger] wrow@[c]),
                        acc as int == row_acc_prefix(wrow@, xrow@, i as int),
                        -128 * (i as int) <= acc as int <= 128 * (i as int),
                    decreases in_features - i,
                {
                    let w: i8 = wrow[i];
                    let xv: i8 = xrow[i];
                    proof {
                        assert(row_acc_prefix(wrow@, xrow@, i as int + 1) == row_acc_prefix(
                            wrow@,
                            xrow@,
                            i as int,
                        ) + contribution(wrow@[i as int], xrow@[i as int]));
                    }
                    if w == 1 {
                        acc = acc + (xv as i32);
                    } else if w == -1 {
                        acc = acc - (xv as i32);
                    }
                    i = i + 1;
                }
                let scaled: i64 = div_floor_i64(acc as i64, p as i64);
                let cell: i8 = clamp_int8(scaled);
                row.push(cell);
                o = o + 1;
            }
            out.push(row);
            b = b + 1;
        }
        Ok(out)
    }
}

} // verus!
