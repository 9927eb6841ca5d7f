//! The decoded sensor sample plane: a width by height grid of 16-bit
//! samples in row-major order, together with the color-filter-array tile
//! that assigns each sample its color channel.

use crate::tiff::{CFAPattern, CFAPatternDim};
use vstd::prelude::*;

verus! {

/// A sample scaled for display: the raw value shifted into the high bits of
/// a 16-bit channel.
pub open spec fn channel_of(s: u16) -> u16 {
    s << 4u16
}

/// The decoded sample plane plus its color-filter metadata.
pub struct RawImage {
    width: usize,
    height: usize,
    data: Vec<u16>,
    cfa_pattern: Vec<CFAPattern>,
    cfa_dim: CFAPatternDim,
}

impl RawImage {
    /// Samples per row.
    pub closed spec fn width_spec(&self) -> usize {
        self.width
    }

    /// Number of rows.
    pub closed spec fn height_spec(&self) -> usize {
        self.height
    }

    /// The sample grid, row-major.
    pub closed spec fn data_spec(&self) -> Seq<u16> {
        self.data@
    }

    /// The color-filter tile, row-major.
    pub closed spec fn cfa_pattern_spec(&self) -> Seq<CFAPattern> {
        self.cfa_pattern@
    }

    /// The color-filter tile's dimensions.
    pub closed spec fn cfa_dim_spec(&self) -> CFAPatternDim {
        self.cfa_dim
    }

    /// The container is sound: the grid holds exactly width times height
    /// samples and the color-filter tile fills its declared dimensions,
    /// which are nonzero.
    pub open spec fn wf(&self) -> bool {
        &&& self.data_spec().len() == self.width_spec() * self.height_spec()
        &&& self.cfa_dim_spec().width >= 1
        &&& self.cfa_dim_spec().height >= 1
        &&& self.cfa_pattern_spec().len() == self.cfa_dim_spec().width
            * self.cfa_dim_spec().height
    }

    /// The color-filter cell under sample `(x, y)`: the tile repeats across
    /// the plane.
    pub open spec fn cfa_at(&self, x: int, y: int) -> CFAPattern {
        self.cfa_pattern_spec()[(y % (self.cfa_dim_spec().height as int))
            * (self.cfa_dim_spec().width as int) + (x % (self.cfa_dim_spec().width as int))]
    }

    /// The three display channels of sample `(x, y)`: the scaled value in
    /// the channel its filter cell selects, or all three for a cell of
    /// unknown color.
    pub open spec fn rgb_at(&self, x: int, y: int) -> (u16, u16, u16) {
        let c = channel_of(self.data_spec()[y * self.width_spec() + x]);
        match self.cfa_at(x, y) {
            CFAPattern::R => (c, 0u16, 0u16),
            CFAPattern::G => (0u16, c, 0u16),
            CFAPattern::B => (0u16, 0u16, c),
            CFAPattern::Unknown(_) => (c, c, c),
        }
    }

    /// A fresh plane with every sample zero.
    pub fn new(width: usize, height: usize, cfa_pattern: Vec<CFAPattern>, cfa_dim: CFAPatternDim)
        -> (r: RawImage)
        requires
            width * height <= usize::MAX,
            cfa_dim.width >= 1,
            cfa_dim.height >= 1,
            cfa_pattern@.len() == cfa_dim.width * cfa_dim.height,
        ensures
            r.wf(),
            r.width_spec() == width,
            r.height_spec() == height,
            r.cfa_pattern_spec() == cfa_pattern@,
            r.cfa_dim_spec() == cfa_dim,
            r.data_spec().len() == width * height,
            forall|i: int| 0 <= i < width * height ==> r.data_spec()[i] == 0,
    {
        let n: usize = width * height;
        let mut data: Vec<u16> = Vec::new();
        let mut i: usize = 0;
        while i < n
            invariant
                0 <= i <= n,
                data@.len() == i,
                forall|j: int| 0 <= j < i ==> data@[j] == 0,
            decreases n - i,
        {
            data.push(0);
            i = i + 1;
        }
        RawImage { width, height, data, cfa_pattern, cfa_dim }
    }

    /// Samples per row.
    pub fn width(&self) -> (r: usize)
        ensures
            r == self.width_spec(),
    {
        self.width
    }

    /// Number of rows.
    pub fn height(&self) -> (r: usize)
        ensures
            r == self.height_spec(),
    {
        self.height
    }

    /// The sample grid, row-major.
    pub fn data(&self) -> (r: &Vec<u16>)
        ensures
            r@ == self.data_spec(),
    {
        &self.data
    }

    /// The color-filter tile, row-major, as the renderer reads it.
    pub fn cfa_pattern(&self) -> (r: &Vec<CFAPattern>)
        ensures
            r@ == self.cfa_pattern_spec(),
    {
        &self.cfa_pattern
    }

    /// The color-filter tile's dimensions.
    pub fn cfa_dim(&self) -> (r: CFAPatternDim)
        ensures
            r == self.cfa_dim_spec(),
    {
        self.cfa_dim
    }

    /// Store sample `v` at `(x, y)`; every other sample keeps its value.
    pub fn set(&mut self, x: usize, y: usize, v: u16)
        requires
            old(self).wf(),
            x < old(self).width_spec(),
            y < old(self).height_spec(),
        ensures
            final(self).wf(),
            final(self).width_spec() == old(self).width_spec(),
            final(self).height_spec() == old(self).height_spec(),
            final(self).cfa_pattern_spec() == old(self).cfa_pattern_spec(),
            final(self).cfa_dim_spec() == old(self).cfa_dim_spec(),
            final(self).data_spec() == old(self).data_spec().update(
                y * old(self).width_spec() + x,
                v,
            ),
    {
        let total: usize = self.data.len();
        proof {
            lemma_grid_index(self.width as int, self.height as int, x as int, y as int);
        }
        let idx: usize = self.width * y + x;
        self.data[idx] = v;
    }

    /// The three display channels of the sample at `(x, y)`.
    pub fn get(&self, x: usize, y: usize) -> (r: (u16, u16, u16))
        requires
            self.wf(),
            x < self.width_spec(),
            y < self.height_spec(),
        ensures
            r == self.rgb_at(x as int, y as int),
    {
        let total: usize = self.data.len();
        proof {
            lemma_grid_index(self.width as int, self.height as int, x as int, y as int);
        }
        let idx: usize = self.width * y + x;
        let color: u16 = self.data[idx] << 4u16;
        let row: usize = y % self.cfa_dim.height;
        let col: usize = x % self.cfa_dim.width;
        let tile: usize = self.cfa_pattern.len();
        proof {
            lemma_grid_index(
                self.cfa_dim.width as int,
                self.cfa_dim.height as int,
                col as int,
                row as int,
            );
        }
        let cell: usize = row * self.cfa_dim.width + col;
        match self.cfa_pattern[cell] {
            CFAPattern::R => (color, 0, 0),
            CFAPattern::G => (0, color, 0),
            CFAPattern::B => (0, 0, color),
            CFAPattern::Unknown(_) => (color, color, color),
        }
    }
}

/// Row-major indexing stays inside a width-by-height grid.
proof fn lemma_grid_index(w: int, h: int, x: int, y: int)
    requires
        0 <= x < w,
        0 <= y < h,
    ensures
        0 <= w * y + x < w * h,
        w * y + x == y * w + x,
{
    assert(w * y + x < w * h) by (nonlinear_arith)
        requires
            0 <= x < w,
            0 <= y < h,
    ;
    assert(w * y == y * w) by (nonlinear_arith);
}

} // verus!
