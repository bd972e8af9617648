//! Tile-granularity occlusion culling: per tile, the highest draw-order index
//! (plus one) of opaque geometry recorded there; zero means untouched.

use crate::geometry::{RectI, Transform2I, Vector2I};
use crate::paint::{PaintId, PaintMetadata};
use vstd::prelude::*;

verus! {

/// The tile `coords` lies inside `rect`.
pub open spec fn rect_contains(rect: RectI, coords: Vector2I) -> bool {
    &&& rect.origin.x <= coords.x < rect.origin.x + rect.size.x
    &&& rect.origin.y <= coords.y < rect.origin.y + rect.size.y
}

/// The row-major position of tile `coords` in `rect`.
pub open spec fn tile_index(rect: RectI, coords: Vector2I) -> int {
    (coords.y - rect.origin.y) * rect.size.x + (coords.x - rect.origin.x)
}

/// The tile at row-major position `i` of `rect`.
pub open spec fn tile_coords(rect: RectI, i: int) -> Vector2I {
    Vector2I {
        x: (rect.origin.x + i % rect.size.x as int) as i32,
        y: (rect.origin.y + i / rect.size.x as int) as i32,
    }
}

/// A tile whose depth is `d` may still show the object `k`: nothing drawn
/// at or after `k` has been recorded over it.
pub open spec fn depth_test(d: u32, k: u32) -> bool {
    d < k + 1
}

/// The depth of a tile once the object `k` has been recorded over a tile of
/// depth `d`: the larger of `d` and `k + 1`.
pub open spec fn depth_update(d: u32, k: u16) -> u32 {
    if d < k + 1 {
        (k + 1) as u32
    } else {
        d
    }
}

/// The depth of a tile of depth `d` after the objects `ks` have been
/// recorded over it, in that order.
pub open spec fn depth_after(d: u32, ks: Seq<u16>) -> u32
    decreases ks.len(),
{
    if ks.len() == 0 {
        d
    } else {
        depth_after(depth_update(d, ks[0]), ks.drop_first())
    }
}

/// The record that the GPU draws for one tile covered by opaque geometry.
#[derive(Clone, Copy, PartialEq, Eq, Debug)]
pub struct SolidTileBatchPrimitive {
    pub tile_x: i16,
    pub tile_y: i16,
    pub object_index: u16,
    pub texture_m00: u16,
    pub texture_m10: u16,
    pub texture_m01: u16,
    pub texture_m11: u16,
    pub texture_m02: u16,
    pub texture_m12: u16,
    pub pad: u16,
}

/// The primitive for tile `c`, object `k`, texture transform `t`: each
/// field the low bits of its source.
pub open spec fn primitive_of(c: Vector2I, k: u16, t: Transform2I) -> SolidTileBatchPrimitive {
    SolidTileBatchPrimitive {
        tile_x: c.x as i16,
        tile_y: c.y as i16,
        object_index: k,
        texture_m00: t.m11 as u16,
        texture_m10: t.m21 as u16,
        texture_m01: t.m12 as u16,
        texture_m11: t.m22 as u16,
        texture_m02: t.vector.x as u16,
        texture_m12: t.vector.y as u16,
        pad: 0,
    }
}

impl SolidTileBatchPrimitive {
    pub fn new(tile_coords: Vector2I, object_index: u16, tex_transform: Transform2I) -> (p:
        SolidTileBatchPrimitive)
        ensures
            p == primitive_of(tile_coords, object_index, tex_transform),
    {
        SolidTileBatchPrimitive {
            tile_x: #[verifier::truncate] (tile_coords.x as i16),
            tile_y: #[verifier::truncate] (tile_coords.y as i16),
            object_index: object_index,
            texture_m00: #[verifier::truncate] (tex_transform.m11 as u16),
            texture_m10: #[verifier::truncate] (tex_transform.m21 as u16),
            texture_m01: #[verifier::truncate] (tex_transform.m12 as u16),
            texture_m11: #[verifier::truncate] (tex_transform.m22 as u16),
            texture_m02: #[verifier::truncate] (tex_transform.vector.x as u16),
            texture_m12: #[verifier::truncate] (tex_transform.vector.y as u16),
            pad: 0,
        }
    }
}

/// The tile of depth `d` holds an object, and its index lies in
/// `start..end`.
pub open spec fn depth_in_range(d: u32, start: u32, end: u32) -> bool {
    d != 0 && start <= d - 1 < end
}

/// The primitives for the first `n` tiles of `rect` with depths `depths`,
/// in tile order: one for each tile whose object lies in `start..end`,
/// with the texture transform of that object's paint.
pub open spec fn solid_tiles_upto(
    rect: RectI,
    depths: Seq<u32>,
    paths: Seq<PaintId>,
    metadata: Seq<PaintMetadata>,
    start: u32,
    end: u32,
    n: int,
) -> Seq<SolidTileBatchPrimitive>
    decreases n,
{
    if n <= 0 {
        Seq::empty()
    } else {
        let prev = solid_tiles_upto(rect, depths, paths, metadata, start, end, n - 1);
        if depth_in_range(depths[n - 1], start, end) {
            prev.push(tile_primitive(rect, depths, paths, metadata, n - 1))
        } else {
            prev
        }
    }
}

/// The primitive for tile `i`, whose depth is `depths[i]`.
pub open spec fn tile_primitive(
    rect: RectI,
    depths: Seq<u32>,
    paths: Seq<PaintId>,
    metadata: Seq<PaintMetadata>,
    i: int,
) -> SolidTileBatchPrimitive {
    primitive_of(
        tile_coords(rect, i),
        (depths[i] - 1) as u16,
        metadata[paths[depths[i] - 1].0 as int].tex_transform,
    )
}

/// The number of the first `n` tiles whose object lies in `start..end`.
pub open spec fn tiles_in_range(depths: Seq<u32>, start: u32, end: u32, n: int) -> int
    decreases n,
{
    if n <= 0 {
        0
    } else {
        tiles_in_range(depths, start, end, n - 1) + if depth_in_range(depths[n - 1], start, end) {
            1int
        } else {
            0int
        }
    }
}

/// Per tile of a rectangle of tiles, the depth of the opaque geometry
/// recorded there.
pub struct ZBuffer {
    rect: RectI,
    depths: Vec<u32>,
}

impl ZBuffer {
    pub closed spec fn spec_rect(&self) -> RectI {
        self.rect
    }

    /// The depths, one per tile, in row-major order.
    pub closed spec fn spec_depths(&self) -> Seq<u32> {
        self.depths@
    }

    /// A rectangle that the buffer can cover: a size that is not negative,
    /// and tile coordinates that stay within `i32`.
    pub open spec fn valid_rect(rect: RectI) -> bool {
        &&& rect.size.x >= 0
        &&& rect.size.y >= 0
        &&& rect.origin.x + rect.size.x <= i32::MAX
        &&& rect.origin.y + rect.size.y <= i32::MAX
        &&& rect.size.x * rect.size.y <= usize::MAX
    }

    pub open spec fn wf(&self) -> bool {
        &&& Self::valid_rect(self.spec_rect())
        &&& self.spec_depths().len() == self.spec_rect().size.x * self.spec_rect().size.y
    }

    /// A buffer over the tiles of `rect`, each of depth zero.
    pub fn new(rect: RectI) -> (z: ZBuffer)
        requires
            Self::valid_rect(rect),
        ensures
            z.wf(),
            z.spec_rect() == rect,
            z.spec_depths() == Seq::new((rect.size.x * rect.size.y) as nat, |i: int| 0u32),
    {
        let n = rect.size.x as usize * rect.size.y as usize;
        let mut depths: Vec<u32> = Vec::new();
        let mut i: usize = 0;
        while i < n
            invariant
                0 <= i <= n,
                depths@ == Seq::new(i as nat, |j: int| 0u32),
            decreases n - i,
        {
            depths.push(0);
            i = i + 1;
            assert(depths@ =~= Seq::new(i as nat, |j: int| 0u32));
        }
        ZBuffer { rect, depths }
    }

    /// The row-major position of a tile of the buffer.
    fn index_of(&self, coords: Vector2I) -> (i: usize)
        requires
            self.wf(),
            rect_contains(self.spec_rect(), coords),
        ensures
            i == tile_index(self.spec_rect(), coords),
            i < self.spec_depths().len(),
    {
        let dx = (coords.x as i64 - self.rect.origin.x as i64) as usize;
        let dy = (coords.y as i64 - self.rect.origin.y as i64) as usize;
        let w = self.rect.size.x as usize;
        let h = self.rect.size.y as usize;
        proof {
            assert(dy * w + dx < h * w) by (nonlinear_arith)
                requires
                    dy < h,
                    dx < w,
            ;
            assert(dy * w <= h * w) by (nonlinear_arith)
                requires
                    dy < h,
            ;
        }
        dy * w + dx
    }

    /// The rectangle of tiles that the buffer covers.
    pub fn rect(&self) -> (r: RectI)
        ensures
            r == self.spec_rect(),
    {
        self.rect
    }

    /// The depth recorded at a tile.
    pub fn depth(&self, coords: Vector2I) -> (d: u32)
        requires
            self.wf(),
            rect_contains(self.spec_rect(), coords),
        ensures
            d == self.spec_depths()[tile_index(self.spec_rect(), coords)],
    {
        self.depths[self.index_of(coords)]
    }

    /// Whether the object `object_index` may still show at the tile: no
    /// object with an index at or above it has been recorded there.
    pub fn test(&self, coords: Vector2I, object_index: u32) -> (r: bool)
        requires
            self.wf(),
            rect_contains(self.spec_rect(), coords),
        ensures
            r == depth_test(self.spec_depths()[tile_index(self.spec_rect(), coords)], object_index),
    {
        let d = self.depths[self.index_of(coords)];
        (d as u64) < object_index as u64 + 1
    }

    /// Records the opaque object `object_index` over the tile: its depth
    /// becomes `object_index + 1` if that is larger, and never decreases.
    pub fn update(&mut self, coords: Vector2I, object_index: u16)
        requires
            old(self).wf(),
            rect_contains(old(self).spec_rect(), coords),
        ensures
            final(self).wf(),
            final(self).spec_rect() == old(self).spec_rect(),
            final(self).spec_depths() == old(self).spec_depths().update(
                tile_index(old(self).spec_rect(), coords),
                depth_update(
                    old(self).spec_depths()[tile_index(old(self).spec_rect(), coords)],
                    object_index,
                ),
            ),
    {
        let i = self.index_of(coords);
        let new_depth = object_index as u32 + 1;
        if self.depths[i] < new_depth {
            self.depths.set(i, new_depth);
        }
    }

    /// One primitive per tile, in tile order, whose recorded object lies in
    /// `object_range`: the tile's coordinates, the object's index and the
    /// texture transform of the object's paint. `paths` gives each object's
    /// paint, `paint_metadata` each paint's transform.
    pub fn build_solid_tiles(
        &self,
        paths: &[PaintId],
        paint_metadata: &[PaintMetadata],
        object_range: std::ops::Range<u32>,
    ) -> (r: Vec<SolidTileBatchPrimitive>)
        requires
            self.wf(),
            forall|i: int|
                0 <= i < self.spec_depths().len() && depth_in_range(
                    #[trigger] self.spec_depths()[i],
                    object_range.start,
                    object_range.end,
                ) ==> self.spec_depths()[i] - 1 < paths@.len() && paths@[self.spec_depths()[i]
                    - 1].0 < paint_metadata@.len(),
        ensures
            r@ == solid_tiles_upto(
                self.spec_rect(),
                self.spec_depths(),
                paths@,
                paint_metadata@,
                object_range.start,
                object_range.end,
                self.spec_depths().len() as int,
            ),
    {
        let start = object_range.start;
        let end = object_range.end;
        let mut solid_tiles: Vec<SolidTileBatchPrimitive> = Vec::new();
        let n = self.depths.len();
        let mut i: usize = 0;
        while i < n
            invariant
                self.wf(),
                n == self.spec_depths().len(),
                0 <= i <= n,
                start == object_range.start,
                end == object_range.end,
                forall|j: int|
                    0 <= j < self.spec_depths().len() && depth_in_range(
                        #[trigger] self.spec_depths()[j],
                        start,
                        end,
                    ) ==> self.spec_depths()[j] - 1 < paths@.len() && paths@[self.spec_depths()[j]
                        - 1].0 < paint_metadata@.len(),
                solid_tiles@ == solid_tiles_upto(
                    self.spec_rect(),
                    self.spec_depths(),
                    paths@,
                    paint_metadata@,
                    start,
                    end,
                    i as int,
                ),
            decreases n - i,
        {
            let depth = self.depths[i];
            if depth != 0 && start <= depth - 1 && depth - 1 < end {
                let object_index = depth - 1;
                let paint_id = paths[object_index as usize];
                let tex_transform = paint_metadata[paint_id.0 as usize].tex_transform;
                let coords = self.coords_of(i);
                solid_tiles.push(
                    SolidTileBatchPrimitive::new(coords, #[verifier::truncate] (object_index as u16), tex_transform),
                );
            }
            i = i + 1;
        }
        solid_tiles
    }

    /// The tile at a row-major position of the buffer.
    fn coords_of(&self, i: usize) -> (c: Vector2I)
        requires
            self.wf(),
            i < self.spec_depths().len(),
        ensures
            c == tile_coords(self.spec_rect(), i as int),
    {
        let w = self.rect.size.x as usize;
        let h = self.rect.size.y as usize;
        proof {
            assert(w > 0) by (nonlinear_arith)
                requires
                    i < w * h,
                    h >= 0,
                    w >= 0,
            ;
            assert(i / w < h) by (nonlinear_arith)
                requires
                    i < w * h,
                    w > 0,
            ;
        }
        let x = (i % w) as i32;
        let y = (i / w) as i32;
        Vector2I { x: self.rect.origin.x + x, y: self.rect.origin.y + y }
    }
}


/// Recording objects over a tile, in any order, leaves the larger of its
/// starting depth and the largest `k + 1` over the objects `k`: the depth
/// never decreases and does not depend on the order of the updates.
pub proof fn lemma_depth_after_is_max(d: u32, ks: Seq<u16>)
    ensures
        depth_after(d, ks) >= d,
        forall|i: int| 0 <= i < ks.len() ==> depth_after(d, ks) >= ks[i] + 1,
        depth_after(d, ks) == d || exists|i: int|
            0 <= i < ks.len() && depth_after(d, ks) == ks[i] + 1,
    decreases ks.len(),
{
    if ks.len() > 0 {
        let d1 = depth_update(d, ks[0]);
        let rest = ks.drop_first();
        lemma_depth_after_is_max(d1, rest);
        assert forall|i: int| 0 <= i < ks.len() implies depth_after(d, ks) >= ks[i] + 1 by {
            if i > 0 {
                assert(ks[i] == rest[i - 1]);
            }
        }
        if depth_after(d, ks) != d {
            if depth_after(d1, rest) == d1 {
                assert(depth_after(d, ks) == ks[0] + 1);
            } else {
                let j = choose|j: int| 0 <= j < rest.len() && depth_after(d1, rest) == rest[j] + 1;
                assert(ks[j + 1] == rest[j]);
            }
        }
    }
}

/// Recording the objects `0..n`, each once and in any order, over an
/// untouched tile leaves it at depth `n`.
pub proof fn lemma_updates_of_first_objects(ks: Seq<u16>, n: u32)
    requires
        forall|i: int| 0 <= i < ks.len() ==> ks[i] < n,
        forall|k: u16| k < n ==> #[trigger] ks.contains(k),
        n <= 0x1_0000,
    ensures
        depth_after(0, ks) == n,
{
    lemma_depth_after_is_max(0, ks);
    if n > 0 {
        let top = (n - 1) as u16;
        assert(ks.contains(top));
        let j = choose|j: int| 0 <= j < ks.len() && ks[j] == top;
        assert(depth_after(0, ks) >= n);
    }
}

/// Right after the object `k` is recorded over a tile on which no later
/// object was recorded, the tile hides `k` and every earlier object, and
/// not the object after `k`.
pub proof fn lemma_test_after_update(d: u32, k: u16)
    requires
        d <= k + 1,
    ensures
        !depth_test(depth_update(d, k), k as u32),
        k > 0 ==> !depth_test(depth_update(d, k), (k - 1) as u32),
        depth_test(depth_update(d, k), (k + 1) as u32),
{
}

proof fn lemma_tiles_in_range_nonneg(depths: Seq<u32>, start: u32, end: u32, n: int)
    ensures
        tiles_in_range(depths, start, end, n) >= 0,
    decreases n,
{
    if n > 0 {
        lemma_tiles_in_range_nonneg(depths, start, end, n - 1);
    }
}

/// The count of tiles in range does not decrease along the tiles, and grows
/// past each tile in range.
proof fn lemma_tiles_in_range_grows(depths: Seq<u32>, start: u32, end: u32, i: int, j: int)
    requires
        0 <= i < j <= depths.len(),
    ensures
        tiles_in_range(depths, start, end, i) <= tiles_in_range(depths, start, end, j),
        depth_in_range(depths[i], start, end) ==> tiles_in_range(depths, start, end, i)
            < tiles_in_range(depths, start, end, j),
    decreases j - i,
{
    if i + 1 < j {
        lemma_tiles_in_range_grows(depths, start, end, i, j - 1);
    }
}

/// The solid tiles hold exactly one primitive per tile whose object lies in
/// the range, and none for any other tile: there are as many primitives as
/// such tiles, and the primitive of each such tile stands at the position
/// given by the number of such tiles before it.
pub proof fn lemma_solid_tiles_one_per_tile(
    rect: RectI,
    depths: Seq<u32>,
    paths: Seq<PaintId>,
    metadata: Seq<PaintMetadata>,
    start: u32,
    end: u32,
    n: int,
)
    requires
        0 <= n <= depths.len(),
    ensures
        solid_tiles_upto(rect, depths, paths, metadata, start, end, n).len() == tiles_in_range(
            depths,
            start,
            end,
            n,
        ),
        forall|i: int|
            0 <= i < n && depth_in_range(depths[i], start, end) ==> solid_tiles_upto(
                rect,
                depths,
                paths,
                metadata,
                start,
                end,
                n,
            )[#[trigger] tiles_in_range(depths, start, end, i)] == tile_primitive(
                rect,
                depths,
                paths,
                metadata,
                i,
            ),
    decreases n,
{
    if n > 0 {
        lemma_solid_tiles_one_per_tile(rect, depths, paths, metadata, start, end, n - 1);
        let prev = solid_tiles_upto(rect, depths, paths, metadata, start, end, n - 1);
        let cur = solid_tiles_upto(rect, depths, paths, metadata, start, end, n);
        assert forall|i: int|
            0 <= i < n && depth_in_range(depths[i], start, end) implies cur[#[trigger] tiles_in_range(
            depths,
            start,
            end,
            i,
        )] == tile_primitive(rect, depths, paths, metadata, i) by {
            if i < n - 1 {
                lemma_tiles_in_range_grows(depths, start, end, i, n - 1);
                let k = tiles_in_range(depths, start, end, i);
                lemma_tiles_in_range_nonneg(depths, start, end, i);
                assert(0 <= k < prev.len());
                if depth_in_range(depths[n - 1], start, end) {
                    assert(cur == prev.push(tile_primitive(rect, depths, paths, metadata, n - 1)));
                } else {
                    assert(cur == prev);
                }
                assert(cur[tiles_in_range(depths, start, end, i)] == prev[tiles_in_range(
                    depths,
                    start,
                    end,
                    i,
                )]);
            }
        }
    }
}

} // verus!
