use vstd::prelude::*;

verus! {

/// `v` limited to the range `[0, n - 1]`.
pub open spec fn clamp_index(v: int, n: int) -> int {
    if v < 0 {
        0
    } else if v > n - 1 {
        n - 1
    } else {
        v
    }
}

/// An RGB image stored row by row, three bytes per texel.
pub struct ImageTexture {
    data: Vec<u8>,
    nx: i32,
    ny: i32,
}

impl ImageTexture {
    /// The raw pixel bytes.
    pub closed spec fn pixels(&self) -> Seq<u8> {
        self.data@
    }

    /// The number of texels per row.
    pub closed spec fn spec_width(&self) -> int {
        self.nx as int
    }

    /// The number of rows.
    pub closed spec fn spec_height(&self) -> int {
        self.ny as int
    }

    /// Both dimensions are positive and the bytes cover every texel.
    pub open spec fn wf(&self) -> bool {
        &&& 0 < self.spec_width()
        &&& 0 < self.spec_height()
        &&& 3 * self.spec_width() * self.spec_height() <= self.pixels().len()
    }

    /// Offset of the red byte of the texel that `(i, j)` falls on once both are
    /// clamped into the image.
    pub open spec fn texel_offset(&self, i: int, j: int) -> int {
        3 * clamp_index(i, self.spec_width()) + 3 * self.spec_width() * clamp_index(
            j,
            self.spec_height(),
        )
    }

    pub fn new(pixels: Vec<u8>, a: i32, b: i32) -> (r: Self)
        ensures
            r.pixels() == pixels@,
            r.spec_width() == a,
            r.spec_height() == b,
    {
        ImageTexture { data: pixels, nx: a, ny: b }
    }

    pub fn width(&self) -> (r: i32)
        ensures
            r == self.spec_width(),
    {
        self.nx
    }

    pub fn height(&self) -> (r: i32)
        ensures
            r == self.spec_height(),
    {
        self.ny
    }

    /// Whether the dimensions are positive and the bytes cover the image.
    pub fn is_valid(&self) -> (r: bool)
        ensures
            r == self.wf(),
    {
        if self.nx <= 0 || self.ny <= 0 {
            return false;
        }
        let w = self.nx as u64;
        let h = self.ny as u64;
        assert(w * h <= 0x4000_0000_0000_0000) by (nonlinear_arith)
            requires
                w < 0x8000_0000,
                h < 0x8000_0000,
        ;
        let needed: u64 = 3 * (w * h);
        assert(needed == 3 * self.spec_width() * self.spec_height()) by (nonlinear_arith)
            requires
                needed == 3 * (w * h),
                w == self.spec_width(),
                h == self.spec_height(),
        ;
        needed <= self.data.len() as u64
    }

    /// The red, green and blue bytes of texel `(i, j)`, each coordinate first
    /// clamped into the image.
    pub fn texel(&self, i: i32, j: i32) -> (r: (u8, u8, u8))
        requires
            self.wf(),
        ensures
            r.0 == self.pixels()[self.texel_offset(i as int, j as int)],
            r.1 == self.pixels()[self.texel_offset(i as int, j as int) + 1],
            r.2 == self.pixels()[self.texel_offset(i as int, j as int) + 2],
    {
        let mut ci = i;
        let mut cj = j;
        if ci < 0 {
            ci = 0;
        }
        if cj < 0 {
            cj = 0;
        }
        if ci > self.nx - 1 {
            ci = self.nx - 1;
        }
        if cj > self.ny - 1 {
            cj = self.ny - 1;
        }
        let w = self.nx as usize;
        let h = self.ny as usize;
        let x = ci as usize;
        let y = cj as usize;
        let len = self.data.len();
        assert(3 * x + 3 * w * y + 2 < 3 * w * h) by (nonlinear_arith)
            requires
                x < w,
                y < h,
        ;
        assert(3 * w * y <= len && 3 * w <= len) by (nonlinear_arith)
            requires
                y < h,
                3 * w * h <= len,
        ;
        let base = 3 * x + 3 * w * y;
        (self.data[base], self.data[base + 1], self.data[base + 2])
    }
}

} // verus!
