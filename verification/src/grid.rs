//! Rectangular grids of quantized integer coefficients.

use vstd::prelude::*;

verus! {

/// Largest accepted grid side, in samples.
pub const MAX_GRID_DIM: u32 = 0x1000;

/// Wrapping addition on a quantized coefficient; the refinement rule for
/// combining two encoding passes' contributions to the same sample.
pub open spec fn coeff_add(a: i32, b: i32) -> i32 {
    vstd::wrapping::i32_specs::wrapping_add(a, b)
}

/// Mathematical image of a [`CoeffGrid`].
pub struct GridView {
    pub width: int,
    pub height: int,
    pub data: Seq<i32>,
}

impl GridView {
    pub open spec fn wf(self) -> bool {
        &&& self.data.len() == self.width * self.height
        &&& 0 <= self.width <= MAX_GRID_DIM
        &&& 0 <= self.height <= MAX_GRID_DIM
    }

    /// Sample at column `x`, row `y` (row-major storage).
    pub open spec fn at(self, x: int, y: int) -> i32 {
        self.data[y * self.width + x]
    }

    /// Element-wise wrapping sum of two grids of the same shape.
    pub open spec fn combined(self, other: GridView) -> GridView {
        GridView {
            width: self.width,
            height: self.height,
            data: Seq::new(self.data.len(), |i: int| coeff_add(self.data[i], other.data[i])),
        }
    }
}

/// A row-major grid of quantized coefficients.
///
/// LF coefficients, HF coefficients and chroma-from-luma factor maps all
/// arrive from the entropy decoder in this integer form; dequantization into
/// spectral magnitudes happens downstream, outside the verified core.
#[derive(Debug)]
pub struct CoeffGrid {
    width: u32,
    height: u32,
    data: Vec<i32>,
}

impl View for CoeffGrid {
    type V = GridView;

    closed spec fn view(&self) -> GridView {
        GridView { width: self.width as int, height: self.height as int, data: self.data@ }
    }
}

impl CoeffGrid {
    /// A zero-filled grid.
    pub fn new(width: u32, height: u32) -> (r: CoeffGrid)
        requires
            width <= MAX_GRID_DIM,
            height <= MAX_GRID_DIM,
        ensures
            r@.wf(),
            r@.width == width,
            r@.height == height,
            forall|i: int| 0 <= i < r@.data.len() ==> r@.data[i] == 0i32,
    {
        proof {
            assert(width * height <= 0x100_0000) by (nonlinear_arith)
                requires
                    0 <= width <= MAX_GRID_DIM,
                    0 <= height <= MAX_GRID_DIM,
            ;
        }
        let len = (width as usize) * (height as usize);
        let mut data: Vec<i32> = Vec::new();
        let mut k: usize = 0;
        while k < len
            invariant
                data@.len() == k,
                k <= len,
                forall|i: int| 0 <= i < k ==> data@[i] == 0i32,
            decreases len - k,
        {
            data.push(0);
            k = k + 1;
        }
        CoeffGrid { width, height, data }
    }

    /// A grid over caller-supplied row-major samples.
    pub fn from_data(width: u32, height: u32, data: Vec<i32>) -> (r: CoeffGrid)
        requires
            width <= MAX_GRID_DIM,
            height <= MAX_GRID_DIM,
            data@.len() == width * height,
        ensures
            r@.wf(),
            r@.width == width,
            r@.height == height,
            r@.data == data@,
    {
        CoeffGrid { width, height, data }
    }

    pub fn width(&self) -> (r: u32)
        ensures
            r == self@.width,
    {
        self.width
    }

    pub fn height(&self) -> (r: u32)
        ensures
            r == self@.height,
    {
        self.height
    }

    pub fn get(&self, x: u32, y: u32) -> (r: i32)
        requires
            self@.wf(),
            x < self@.width,
            y < self@.height,
        ensures
            r == self@.at(x as int, y as int),
    {
        proof {
            assert(y * self@.width + x < self@.width * self@.height
                && y * self@.width + x < 0x100_0000) by (nonlinear_arith)
                requires
                    0 <= x < self@.width <= MAX_GRID_DIM,
                    0 <= y < self@.height <= MAX_GRID_DIM,
            ;
        }
        self.data[(y as usize) * (self.width as usize) + (x as usize)]
    }

    pub fn set(&mut self, x: u32, y: u32, v: i32)
        requires
            old(self)@.wf(),
            x < old(self)@.width,
            y < old(self)@.height,
        ensures
            final(self)@.wf(),
            final(self)@.width == old(self)@.width,
            final(self)@.height == old(self)@.height,
            final(self)@.data == old(self)@.data.update(
                y as int * old(self)@.width + x as int,
                v,
            ),
    {
        proof {
            assert(y * self@.width + x < self@.width * self@.height
                && y * self@.width + x < 0x100_0000) by (nonlinear_arith)
                requires
                    0 <= x < self@.width <= MAX_GRID_DIM,
                    0 <= y < self@.height <= MAX_GRID_DIM,
            ;
        }
        let idx = (y as usize) * (self.width as usize) + (x as usize);
        self.data.set(idx, v);
    }

    /// An identical copy, sample for sample.
    pub fn duplicate(&self) -> (r: CoeffGrid)
        ensures
            r@ == self@,
    {
        let len = self.data.len();
        let mut data: Vec<i32> = Vec::new();
        let mut k: usize = 0;
        while k < len
            invariant
                data@.len() == k,
                k <= len,
                len == self.data@.len(),
                forall|i: int| 0 <= i < k ==> data@[i] == self.data@[i],
            decreases len - k,
        {
            data.push(self.data[k]);
            k = k + 1;
        }
        proof {
            assert(data@ =~= self.data@);
        }
        CoeffGrid { width: self.width, height: self.height, data }
    }

    /// Element-wise wrapping sum with a grid of the same shape; the merge
    /// step applied when a later encoding pass refines this one.
    pub fn combined_with(&self, other: &CoeffGrid) -> (r: CoeffGrid)
        requires
            self@.wf(),
            other@.wf(),
            other@.width == self@.width,
            other@.height == self@.height,
        ensures
            r@ == self@.combined(other@),
    {
        let len = self.data.len();
        let mut data: Vec<i32> = Vec::new();
        let mut k: usize = 0;
        proof {
            assert(other@.data.len() == self@.data.len());
        }
        while k < len
            invariant
                data@.len() == k,
                k <= len,
                len == self.data@.len(),
                other.data@.len() == len,
                forall|i: int| 0 <= i < k ==> data@[i] == coeff_add(self.data@[i], other.data@[i]),
            decreases len - k,
        {
            data.push(self.data[k].wrapping_add(other.data[k]));
            k = k + 1;
        }
        proof {
            assert(data@ =~= self@.combined(other@).data);
        }
        CoeffGrid { width: self.width, height: self.height, data }
    }
}

} // verus!
