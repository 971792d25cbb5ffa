//! Wall textures: square images with power-of-two side length, one packed
//! `0x00RRGGBB` value per pixel, stored row-major.

use vstd::prelude::*;

verus! {

/// Whether `n` is a power of two.
pub open spec fn is_pow2(n: int) -> bool
    decreases n,
{
    if n <= 0 {
        false
    } else if n == 1 {
        true
    } else {
        n % 2 == 0 && is_pow2(n / 2)
    }
}

/// Whether raw image data may be made into a [`Texture`]: a square of
/// power-of-two side `size` with one packed `0x00RRGGBB` value per pixel
/// (row `y` at `y * size`, so pixel `(x, y)` sits at `y * size + x`).
pub open spec fn texture_data_ok(size: int, pixels: Seq<u32>) -> bool {
    &&& 1 <= size <= 1024
    &&& is_pow2(size)
    &&& pixels.len() == size * size
    &&& forall|i: int| 0 <= i < pixels.len() ==> #[trigger] pixels[i] <= 0xFFFFFF
}

/// A validated wall texture.
pub struct Texture {
    size: usize,
    pixels: Vec<u32>,
}

impl Texture {
    /// The side length, in pixels.
    pub closed spec fn spec_size(&self) -> int {
        self.size as int
    }

    /// The packed color of pixel `(x, y)`.
    pub closed spec fn pixel(&self, x: int, y: int) -> u32 {
        self.pixels@[y * self.spec_size() + x]
    }

    /// The pixel buffer holds exactly one color per pixel.
    pub closed spec fn storage_ok(&self) -> bool {
        self.pixels@.len() == self.spec_size() * self.spec_size()
    }

    /// The invariant every constructed texture satisfies.
    pub open spec fn wf(&self) -> bool {
        &&& 1 <= self.spec_size() <= 1024
        &&& is_pow2(self.spec_size())
        &&& self.storage_ok()
        &&& forall|x: int, y: int|
            0 <= x < self.spec_size() && 0 <= y < self.spec_size()
                ==> #[trigger] self.pixel(x, y) <= 0xFFFFFF
    }

    /// Validates raw image data and makes a texture of it.
    pub fn new(size: usize, pixels: Vec<u32>) -> (r: Option<Texture>)
        ensures
            r is Some <==> texture_data_ok(size as int, pixels@),
            r matches Some(t) ==> {
                &&& t.wf()
                &&& t.spec_size() == size
                &&& forall|x: int, y: int|
                    0 <= x < size && 0 <= y < size ==> #[trigger] t.pixel(x, y)
                        == pixels@[y * (size as int) + x]
            },
    {
        if size < 1 || size > 1024 || !pow2_check(size) {
            return None;
        }
        proof {
            lemma_pixel_index_bound(0, 0, size as int);
        }
        if pixels.len() != size * size {
            return None;
        }
        let mut i: usize = 0;
        while i < pixels.len()
            invariant
                forall|j: int| 0 <= j < i ==> #[trigger] pixels@[j] <= 0xFFFFFF,
                i <= pixels@.len(),
            decreases pixels@.len() - i,
        {
            if pixels[i] > 0xFFFFFF {
                return None;
            }
            i = i + 1;
        }
        let t = Texture { size, pixels };
        proof {
            assert forall|x: int, y: int|
                0 <= x < size && 0 <= y < size implies #[trigger] t.pixel(x, y) <= 0xFFFFFF by {
                lemma_pixel_index_bound(x, y, size as int);
            }
        }
        Some(t)
    }

    /// The side length, in pixels.
    pub fn size(&self) -> (r: usize)
        ensures
            r == self.spec_size(),
    {
        self.size
    }

    /// Pure pixel lookup; callers bound-check first.
    pub fn pixel_at(&self, x: usize, y: usize) -> (color: u32)
        requires
            self.wf(),
            x < self.spec_size(),
            y < self.spec_size(),
        ensures
            color == self.pixel(x as int, y as int),
            color <= 0xFFFFFF,
    {
        proof {
            lemma_pixel_index_bound(x as int, y as int, self.spec_size());
            assert(self.pixel(x as int, y as int) <= 0xFFFFFF);
        }
        self.pixels[y * self.size + x]
    }
}

/// Whether `n` is a power of two, decided by halving.
fn pow2_check(n: usize) -> (r: bool)
    ensures
        r == is_pow2(n as int),
{
    if n == 0 {
        return false;
    }
    let mut m: usize = n;
    while m % 2 == 0
        invariant
            1 <= m <= n,
            is_pow2(n as int) == is_pow2(m as int),
        decreases m,
    {
        m = m / 2;
    }
    m == 1
}

/// A row-major pixel index stays within the pixel buffer, and the buffer
/// itself is small enough to index with a `usize`.
proof fn lemma_pixel_index_bound(x: int, y: int, size: int)
    by (nonlinear_arith)
    requires
        0 <= x < size <= 1024,
        0 <= y < size,
    ensures
        0 <= y * size + x < size * size,
        size * size <= 1048576,
{
}

} // verus!
