//! A texture-region allocator that hands out equal square tiles of a square
//! texture, row by row, until the texture is full.

use crate::geometry::{RectI, Vector2I};
use vstd::prelude::*;

verus! {

/// A region of the texture, in texels.
#[derive(Clone, Copy, PartialEq, Eq, Debug)]
pub struct TextureLocation {
    pub rect: RectI,
}

/// The `n`-th tile, row-major, of side `tile_length` in a texture of side
/// `length`.
pub open spec fn cell_location(length: int, tile_length: int, n: int) -> TextureLocation {
    let per_row = length / tile_length;
    TextureLocation {
        rect: RectI {
            origin: Vector2I {
                x: ((n % per_row) * tile_length) as i32,
                y: ((n / per_row) * tile_length) as i32,
            },
            size: Vector2I { x: tile_length as i32, y: tile_length as i32 },
        },
    }
}

pub struct TextureAllocator {
    length: u32,
    tile_length: u32,
    issued: u32,
}

impl TextureAllocator {
    /// Side of the texture.
    pub closed spec fn spec_length(&self) -> int {
        self.length as int
    }

    /// Side of each tile handed out.
    pub closed spec fn spec_tile_length(&self) -> int {
        self.tile_length as int
    }

    /// The number of tiles handed out so far.
    pub closed spec fn spec_issued(&self) -> int {
        self.issued as int
    }

    /// The number of tiles that the texture holds.
    pub open spec fn capacity(&self) -> int {
        (self.spec_length() / self.spec_tile_length()) * (self.spec_length()
            / self.spec_tile_length())
    }

    pub open spec fn wf(&self) -> bool {
        &&& 0 < self.spec_tile_length() <= self.spec_length() <= 0x8000
        &&& 0 <= self.spec_issued() <= self.capacity()
    }

    /// An allocator over a texture of side `length` that hands out tiles of
    /// side `tile_length`.
    pub fn new(length: u32, tile_length: u32) -> (a: TextureAllocator)
        requires
            0 < tile_length <= length <= 0x8000,
        ensures
            a.wf(),
            a.spec_length() == length,
            a.spec_tile_length() == tile_length,
            a.spec_issued() == 0,
    {
        proof {
            let p = length / tile_length;
            assert(p * p >= 0) by (nonlinear_arith);
        }
        TextureAllocator { length, tile_length, issued: 0 }
    }

    /// The next free tile, or `None` once the texture is full.
    pub fn allocate(&mut self) -> (r: Option<TextureLocation>)
        requires
            old(self).wf(),
        ensures
            final(self).wf(),
            final(self).spec_length() == old(self).spec_length(),
            final(self).spec_tile_length() == old(self).spec_tile_length(),
            old(self).spec_issued() < old(self).capacity() ==> r == Some(
                cell_location(old(self).spec_length(), old(self).spec_tile_length(), old(self).spec_issued()),
            ) && final(self).spec_issued() == old(self).spec_issued() + 1,
            old(self).spec_issued() >= old(self).capacity() ==> r == None::<TextureLocation>
                && final(self).spec_issued() == old(self).spec_issued(),
            r matches Some(loc) ==> 0 <= loc.rect.origin.x && loc.rect.origin.x
                + old(self).spec_tile_length() <= old(self).spec_length() && 0 <= loc.rect.origin.y
                && loc.rect.origin.y + old(self).spec_tile_length() <= old(self).spec_length(),
    {
        let per_row = self.length / self.tile_length;
        let ghost l = self.length as int;
        let ghost t = self.tile_length as int;
        proof {
            assert(per_row * t <= l) by (nonlinear_arith)
                requires
                    per_row == l / t,
                    t > 0,
                    l >= 0,
            ;
            assert(per_row <= l) by (nonlinear_arith)
                requires
                    per_row * t <= l,
                    t > 0,
                    per_row >= 0,
            ;
            assert(per_row * per_row <= 0x8000 * 0x8000) by (nonlinear_arith)
                requires
                    0 <= per_row <= 0x8000,
            ;
        }
        if self.issued >= per_row * per_row {
            return None;
        }
        let n = self.issued;
        proof {
            assert(per_row > 0) by (nonlinear_arith)
                requires
                    n < per_row * per_row,
                    per_row >= 0,
            ;
            assert(n / per_row < per_row) by (nonlinear_arith)
                requires
                    n < per_row * per_row,
                    per_row > 0,
            ;
            assert((n % per_row) * t + t <= l) by (nonlinear_arith)
                requires
                    n % per_row < per_row,
                    n % per_row >= 0,
                    per_row * t <= l,
                    t > 0,
            ;
            assert((n / per_row) * t + t <= l) by (nonlinear_arith)
                requires
                    n / per_row < per_row,
                    n / per_row >= 0,
                    per_row * t <= l,
                    t > 0,
            ;
        }
        let x = (n % per_row) * self.tile_length;
        let y = (n / per_row) * self.tile_length;
        self.issued = n + 1;
        Some(
            TextureLocation {
                rect: RectI {
                    origin: Vector2I { x: x as i32, y: y as i32 },
                    size: Vector2I { x: self.tile_length as i32, y: self.tile_length as i32 },
                },
            },
        )
    }
}

} // verus!
