//! A lattice-backed field sampler: signs and gradients tabulated over the
//! padded sample region, with a fill value outside the table. Callers that
//! define a field over real numbers sample its sign per lattice point into
//! the table and hand the table to the engine.

use vstd::prelude::*;
use crate::field::{Sign, DCInput};
use crate::lattice::DCBounds;

verus! {

/// A sampler backed by flat tables. `values` and `normals` cover the sample
/// region `[x.0, x.1] x [y.0, y.1] x [z.0, z.1]` of `bounds` in scan order
/// (x outermost, z innermost); queries outside the region, or beyond the
/// end of a table, answer with the fill values.
pub struct GridSampler<N> {
    pub bounds: DCBounds,
    pub values: Vec<Sign>,
    pub normals: Vec<N>,
    pub fill_sign: Sign,
    pub fill_normal: N,
}

impl<N> GridSampler<N> {
    /// Whether `(x, y, z)` lies in the closed sample region.
    pub open spec fn in_samples(self, x: int, y: int, z: int) -> bool {
        &&& self.bounds.x.0 <= x <= self.bounds.x.1
        &&& self.bounds.y.0 <= y <= self.bounds.y.1
        &&& self.bounds.z.0 <= z <= self.bounds.z.1
    }

    /// Lattice points per axis of the closed sample region.
    pub open spec fn span_y(self) -> int {
        self.bounds.y.1 - self.bounds.y.0 + 1
    }

    pub open spec fn span_z(self) -> int {
        self.bounds.z.1 - self.bounds.z.0 + 1
    }

    /// The table position of a sample point, x outermost, z innermost.
    pub open spec fn sample_key(self, x: int, y: int, z: int) -> int {
        ((x - self.bounds.x.0) * self.span_y() + (y - self.bounds.y.0)) * self.span_z() + (z
            - self.bounds.z.0)
    }
}

impl<N: Copy> DCInput for GridSampler<N> {
    type Normal = N;

    open spec fn spec_bounds(&self) -> DCBounds {
        self.bounds
    }

    open spec fn spec_value(&self, x: int, y: int, z: int) -> Sign {
        if self.in_samples(x, y, z) && 0 <= self.sample_key(x, y, z) < self.values@.len() {
            self.values@[self.sample_key(x, y, z)]
        } else {
            self.fill_sign
        }
    }

    open spec fn spec_gradient(&self, x: int, y: int, z: int) -> N {
        if self.in_samples(x, y, z) && 0 <= self.sample_key(x, y, z) < self.normals@.len() {
            self.normals@[self.sample_key(x, y, z)]
        } else {
            self.fill_normal
        }
    }

    fn get_bounds(&self) -> (b: DCBounds) {
        self.bounds
    }

    fn get_value(&self, x: i32, y: i32, z: i32) -> (v: Sign) {
        proof {
            assert(self.values@.len() == self.values.len());
        }
        match self.table_position(x, y, z) {
            Some(k) => {
                if k < self.values.len() {
                    self.values[k]
                } else {
                    self.fill_sign
                }
            },
            None => self.fill_sign,
        }
    }

    fn get_gradient(&self, x: i32, y: i32, z: i32) -> (g: N) {
        proof {
            assert(self.normals@.len() == self.normals.len());
        }
        match self.table_position(x, y, z) {
            Some(k) => {
                if k < self.normals.len() {
                    self.normals[k]
                } else {
                    self.fill_normal
                }
            },
            None => self.fill_normal,
        }
    }
}

impl<N> GridSampler<N> {
    /// The table position of a sample point, when the point lies in the
    /// sample region and the position fits the machine; `sample_key` values
    /// beyond `usize` cannot index a table, so those points also answer
    /// `None`.
    fn table_position(&self, x: i32, y: i32, z: i32) -> (r: Option<usize>)
        ensures
            match r {
                Some(k) => self.in_samples(x as int, y as int, z as int) && self.sample_key(
                    x as int,
                    y as int,
                    z as int,
                ) == k as int,
                None => !self.in_samples(x as int, y as int, z as int) || self.sample_key(
                    x as int,
                    y as int,
                    z as int,
                ) > usize::MAX,
            },
    {
        let b = &self.bounds;
        if x >= b.x.0 && x <= b.x.1 && y >= b.y.0 && y <= b.y.1 && z >= b.z.0 && z <= b.z.1 {
            let dx: u128 = (x as i64 - b.x.0 as i64) as u128;
            let dy: u128 = (y as i64 - b.y.0 as i64) as u128;
            let dz: u128 = (z as i64 - b.z.0 as i64) as u128;
            let sy: u128 = (b.y.1 as i64 - b.y.0 as i64 + 1) as u128;
            let sz: u128 = (b.z.1 as i64 - b.z.0 as i64 + 1) as u128;
            proof {
                assert(dx * sy <= 0x1_0000_0000_0000_0000) by (nonlinear_arith)
                    requires
                        0 <= dx < 0x1_0000_0000,
                        0 < sy <= 0x1_0000_0000,
                ;
                assert((dx * sy + dy) * sz <= 0x2_0000_0000_0000_0000_0000_0000)
                    by (nonlinear_arith)
                    requires
                        0 <= dx * sy + dy <= 0x1_0000_0000_0000_0000 + 0x1_0000_0000,
                        0 < sz <= 0x1_0000_0000,
                ;
            }
            let k: u128 = (dx * sy + dy) * sz + dz;
            if k <= usize::MAX as u128 {
                Some(k as usize)
            } else {
                None
            }
        } else {
            None
        }
    }
}

} // verus!
