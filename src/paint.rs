//! Paints, the palette that gives each distinct paint a stable ID, and the
//! build of the paint texture atlas with its per-paint metadata.

use crate::allocator::{cell_location, TextureAllocator, TextureLocation};
use crate::geometry::{RectI, Transform2I, Vector2I};
use crate::gradient::{stop_key, with_alpha, ColorStop, Gradient};
use pathfinder_color::ColorU;
use vstd::prelude::*;

verus! {

/// Side of the square paint atlas, in texels.
pub const PAINT_TEXTURE_LENGTH: u32 = 1024;

/// The 0.16 fixed-point size of one atlas texel: `65536 / PAINT_TEXTURE_LENGTH`.
pub const PAINT_TEXTURE_SCALE: u32 = 64;

/// Side of the square atlas tile that solid colors share.
pub const SOLID_COLOR_TILE_LENGTH: u32 = 16;

/// The number of solid colors one shared tile holds.
pub const MAX_SOLID_COLORS_PER_TILE: u32 = 256;

/// A fill: one solid color, or a gradient.
#[derive(Clone, PartialEq, Eq, Hash, Debug)]
pub enum Paint {
    Color(ColorU),
    Gradient(Gradient),
}

/// The value of a paint: what equality and hashing of paints go by.
pub enum PaintView {
    Color(ColorU),
    /// The bits of the gradient's segment, and its stops.
    Gradient([u32; 4], Seq<ColorStop>),
}

impl View for Paint {
    type V = PaintView;

    open spec fn view(&self) -> PaintView {
        match self {
            Paint::Color(c) => PaintView::Color(*c),
            Paint::Gradient(g) => PaintView::Gradient(g.spec_line(), g.spec_stops()),
        }
    }
}

/// The stable handle of a paint in a palette: its index there.
#[derive(Clone, Copy, PartialEq, Eq, Hash, Debug)]
pub struct PaintId(pub u16);

#[derive(Clone, Copy, PartialEq, Eq, Hash, Debug)]
pub struct GradientId(pub u32);

/// Every stop of the list has this alpha condition.
pub open spec fn all_stops_alpha(s: Seq<ColorStop>, a: u8) -> bool {
    forall|i: int| 0 <= i < s.len() ==> #[trigger] s[i].color.a == a
}

pub open spec fn paint_is_opaque(p: Paint) -> bool {
    match p {
        Paint::Color(c) => c.a == 255,
        Paint::Gradient(g) => all_stops_alpha(g.spec_stops(), 255),
    }
}

pub open spec fn paint_is_fully_transparent(p: Paint) -> bool {
    match p {
        Paint::Color(c) => c.a == 0,
        Paint::Gradient(g) => all_stops_alpha(g.spec_stops(), 0),
    }
}

/// Whether every stop's alpha is `a`.
fn stops_all_alpha(stops: &[ColorStop], a: u8) -> (r: bool)
    ensures
        r == all_stops_alpha(stops@, a),
{
    let mut i: usize = 0;
    while i < stops.len()
        invariant
            0 <= i <= stops@.len(),
            forall|j: int| 0 <= j < i ==> #[trigger] stops@[j].color.a == a,
        decreases stops@.len() - i,
    {
        if stops[i].color.a != a {
            assert(stops@[i as int].color.a != a);
            return false;
        }
        i = i + 1;
    }
    true
}

impl Gradient {
    /// A copy of this gradient, with the same segment and stops.
    pub fn duplicate(&self) -> (g: Gradient)
        ensures
            g.spec_line() == self.spec_line(),
            g.spec_stops() == self.spec_stops(),
    {
        let mut g = Gradient::new(self.line());
        let stops = self.stops();
        let mut i: usize = 0;
        while i < stops.len()
            invariant
                0 <= i <= stops@.len(),
                stops@ == self.spec_stops(),
                g.spec_line() == self.spec_line(),
                g.spec_stops() == stops@.subrange(0, i as int),
            decreases stops@.len() - i,
        {
            g.push_stop_unordered(stops[i]);
            assert(stops@.subrange(0, i + 1) == stops@.subrange(0, i as int).push(stops@[i as int]));
            i = i + 1;
        }
        assert(stops@.subrange(0, stops@.len() as int) == stops@);
        g
    }
}

impl Paint {
    /// Opaque black.
    pub fn black() -> (p: Paint)
        ensures
            p == Paint::Color(ColorU { r: 0, g: 0, b: 0, a: 255 }),
    {
        Paint::Color(ColorU::black())
    }

    /// Transparent black.
    pub fn transparent_black() -> (p: Paint)
        ensures
            p == Paint::Color(ColorU { r: 0, g: 0, b: 0, a: 0 }),
    {
        Paint::Color(ColorU::transparent_black())
    }

    /// A solid color with full alpha, or a gradient all of whose stops have
    /// full alpha.
    pub fn is_opaque(&self) -> (r: bool)
        ensures
            r == paint_is_opaque(*self),
    {
        match self {
            Paint::Color(color) => color.is_opaque(),
            Paint::Gradient(gradient) => stops_all_alpha(gradient.stops(), 255),
        }
    }

    /// A solid color with zero alpha, or a gradient all of whose stops have
    /// zero alpha.
    pub fn is_fully_transparent(&self) -> (r: bool)
        ensures
            r == paint_is_fully_transparent(*self),
    {
        match self {
            Paint::Color(color) => color.is_fully_transparent(),
            Paint::Gradient(gradient) => stops_all_alpha(gradient.stops(), 0),
        }
    }

    /// Replaces each alpha of the paint (the color's, or every stop's) by
    /// `table[alpha]`.
    pub fn map_alpha(&mut self, table: &[u8; 256])
        ensures
            match (*old(self), *final(self)) {
                (Paint::Color(c0), Paint::Color(c1)) => c1 == ColorU { a: table@[c0.a as int], ..c0 },
                (Paint::Gradient(g0), Paint::Gradient(g1)) => {
                    &&& g1.spec_line() == g0.spec_line()
                    &&& g1.spec_stops().len() == g0.spec_stops().len()
                    &&& forall|i: int|
                        0 <= i < g0.spec_stops().len() ==> #[trigger] g1.spec_stops()[i] == with_alpha(
                            g0.spec_stops()[i],
                            table@[g0.spec_stops()[i].color.a as int],
                        )
                    &&& g0.wf() ==> g1.wf()
                },
                _ => false,
            },
    {
        match self {
            Paint::Color(color) => {
                color.a = table[color.a as usize];
            },
            Paint::Gradient(gradient) => {
                gradient.map_alpha(table);
            },
        }
    }

    /// A copy of this paint, with the same value.
    pub fn duplicate(&self) -> (p: Paint)
        ensures
            p@ == self@,
    {
        match self {
            Paint::Color(color) => Paint::Color(*color),
            Paint::Gradient(gradient) => Paint::Gradient(gradient.duplicate()),
        }
    }
}

/// `after` and `id` are what pushing the paint value `p` on `before` gives:
/// the palette is unchanged and `id` is the position of `p` where it was
/// held already; otherwise `p` is appended and `id` is its new position.
pub open spec fn pushed(before: Palette, p: PaintView, after: Palette, id: PaintId) -> bool {
    &&& (id.0 as int) < after.spec_paints().len()
    &&& before.spec_paints().contains(p) ==> after.spec_paints() == before.spec_paints()
        && after.spec_paints()[id.0 as int] == p
    &&& !before.spec_paints().contains(p) ==> after.spec_paints() == before.spec_paints().push(p)
        && id.0 == before.spec_paints().len()
}

/// Pushing a paint and then one of equal value gives the same ID twice;
/// pushing two paints of different values gives two IDs.
pub proof fn lemma_push_twice(
    first: Palette,
    a: PaintView,
    second: Palette,
    ida: PaintId,
    b: PaintView,
    third: Palette,
    idb: PaintId,
)
    requires
        first.wf(),
        second.wf(),
        third.wf(),
        pushed(first, a, second, ida),
        pushed(second, b, third, idb),
    ensures
        a == b ==> ida == idb,
        a != b ==> ida != idb,
{
    let paints2 = second.spec_paints();
    let paints3 = third.spec_paints();
    assert(paints2[ida.0 as int] == a);
    assert(paints2.contains(a));
    if !paints2.contains(b) {
        assert(paints3[ida.0 as int] == paints2[ida.0 as int]);
    }
    assert(paints3[ida.0 as int] == a);
    assert(paints3[idb.0 as int] == b);
    third.lemma_distinct();
}

/// What the renderer needs of each paint.
#[derive(Clone, Copy, PartialEq, Eq, Debug)]
pub struct PaintMetadata {
    /// The transform to apply to the texture coordinates, in 0.16 fixed point.
    pub tex_transform: Transform2I,
    /// True if this paint is fully opaque.
    pub is_opaque: bool,
}

/// The map from each paint that a palette holds to its ID, held in a
/// `hashbrown::HashMap`.
#[verifier::external_body]
pub struct PaintCache {
    map: hashbrown::HashMap<Paint, PaintId>,
}

/// What a paint cache holds: each paint with the number of its ID.
pub uninterp spec fn cache_contents(c: PaintCache) -> Map<PaintView, u16>;

/// Relies on `hashbrown::HashMap::new`: an empty map.
#[verifier::external_body]
fn cache_new() -> (c: PaintCache)
    ensures
        cache_contents(c) =~= Map::empty(),
{
    PaintCache { map: hashbrown::HashMap::new() }
}

/// Relies on `hashbrown::HashMap::get`: the value stored under an equal key,
/// if any. `Paint`'s `Eq` and `Hash` are derived, so they go by the fields.
#[verifier::external_body]
fn cache_get(c: &PaintCache, p: &Paint) -> (r: Option<PaintId>)
    ensures
        r == (if cache_contents(*c).contains_key(p@) {
            Some(PaintId(cache_contents(*c)[p@]))
        } else {
            None::<PaintId>
        }),
{
    c.map.get(p).copied()
}

/// Relies on `hashbrown::HashMap::insert`: afterwards the key maps to the
/// value, and the other keys are as they were.
#[verifier::external_body]
fn cache_insert(c: &mut PaintCache, p: Paint, id: PaintId)
    ensures
        cache_contents(*final(c)) == cache_contents(*old(c)).insert(p@, id.0),
{
    c.map.insert(p, id);
}

/// The set of distinct paints of one frame, in the order first seen; a
/// paint's position is its ID.
pub struct Palette {
    paints: Vec<Paint>,
    cache: PaintCache,
}

impl Palette {
    /// The values of the paints held, in ID order.
    pub closed spec fn spec_paints(&self) -> Seq<PaintView> {
        self.paints@.map_values(|p: Paint| p@)
    }

    /// The paints are distinct, their IDs fit in 16 bits, and the cache maps
    /// each of them, and nothing else, to its position.
    pub closed spec fn wf(&self) -> bool {
        let m = cache_contents(self.cache);
        let v = self.spec_paints();
        &&& v.len() <= 0x1_0000
        &&& forall|i: int| #![trigger v[i]] 0 <= i < v.len() ==> m.contains_key(v[i]) && m[v[i]] == i
        &&& forall|p: PaintView| #[trigger] m.contains_key(p) ==> m[p] < v.len() && v[m[p] as int] == p
    }

    /// The paints of a well-formed palette are distinct.
    pub proof fn lemma_distinct(&self)
        requires
            self.wf(),
        ensures
            forall|i: int, j: int|
                0 <= i < j < self.spec_paints().len() ==> self.spec_paints()[i]
                    != self.spec_paints()[j],
    {
        let m = cache_contents(self.cache);
        let v = self.spec_paints();
        assert forall|i: int, j: int| 0 <= i < j < v.len() implies v[i] != v[j] by {
            assert(m.contains_key(v[i]) && m[v[i]] == i);
            assert(m.contains_key(v[j]) && m[v[j]] == j);
        }
    }

    /// An empty palette.
    pub fn new() -> (p: Palette)
        ensures
            p.wf(),
            p.spec_paints() == Seq::<PaintView>::empty(),
    {
        Palette { paints: Vec::new(), cache: cache_new() }
    }

    /// The ID of `paint`: that of an equal paint already held, or else the
    /// next ID, with `paint` appended.
    pub fn push_paint(&mut self, paint: &Paint) -> (id: PaintId)
        requires
            old(self).wf(),
            old(self).spec_paints().len() < 0x1_0000 || old(self).spec_paints().contains(paint@),
        ensures
            final(self).wf(),
            pushed(*old(self), paint@, *final(self), id),
    {
        match cache_get(&self.cache, paint) {
            Some(paint_id) => {
                return paint_id;
            },
            None => {},
        }
        proof {
            if self.spec_paints().contains(paint@) {
                let i = choose|i: int| 0 <= i < self.spec_paints().len() && self.spec_paints()[i] == paint@;
                assert(cache_contents(self.cache).contains_key(self.spec_paints()[i]));
            }
        }
        let paint_id = PaintId(self.paints.len() as u16);
        let ghost old_paints = self.spec_paints();
        cache_insert(&mut self.cache, paint.duplicate(), paint_id);
        self.paints.push(paint.duplicate());
        proof {
            let m = cache_contents(self.cache);
            let v = self.spec_paints();
            assert(v =~= old_paints.push(paint@));
            assert forall|i: int| 0 <= i < v.len() implies #[trigger] m.contains_key(v[i]) && m[v[i]]
                == i by {
                if i < old_paints.len() {
                    assert(v[i] == old_paints[i]);
                }
            }
        }
        paint_id
    }

    /// The number of paints held.
    pub fn len(&self) -> (n: usize)
        ensures
            n == self.spec_paints().len(),
    {
        self.paints.len()
    }

    /// The paint with the given ID.
    pub fn paint(&self, id: PaintId) -> (p: &Paint)
        requires
            (id.0 as int) < self.spec_paints().len(),
        ensures
            p@ == self.spec_paints()[id.0 as int],
    {
        &self.paints[id.0 as usize]
    }
}


/// The open tile of a solid-color packer and the slot it fills next.
#[derive(Clone, Copy, PartialEq, Eq, Debug)]
pub struct SolidColorTileBuilderData {
    pub tile_location: TextureLocation,
    pub next_index: u32,
}

/// Hands out single texels for solid colors, 256 to each 16x16 tile that
/// it takes from the atlas allocator.
pub struct SolidColorTileBuilder(Option<SolidColorTileBuilderData>);

/// The texel at slot `index`, row-major, of the 16x16 tile `tile`.
pub open spec fn subtile_location(tile: TextureLocation, index: u32) -> TextureLocation {
    TextureLocation {
        rect: RectI {
            origin: Vector2I {
                x: (tile.rect.origin.x + index % 16) as i32,
                y: (tile.rect.origin.y + index / 16) as i32,
            },
            size: Vector2I { x: 1, y: 1 },
        },
    }
}

/// The packer's state after `m` allocations from a fresh packer over a
/// fresh allocator of tiles of side 16 in a texture of side `length`: one
/// tile opened for each started group of 256, and the open tile, if any,
/// filled up to `m % 256`.
pub open spec fn packed_after(b: SolidColorTileBuilder, a: TextureAllocator, m: int) -> bool {
    &&& a.wf()
    &&& a.spec_tile_length() == 16
    &&& 0 <= m
    &&& a.spec_issued() == (m + 255) / 256
    &&& b.spec_open_tile() == if m % 256 == 0 {
        None::<SolidColorTileBuilderData>
    } else {
        Some(
            SolidColorTileBuilderData {
                tile_location: cell_location(a.spec_length(), 16, m / 256),
                next_index: (m % 256) as u32,
            },
        )
    }
}

/// The texel that the `m`-th allocation of a fresh packer gets, in a
/// texture of side `length`.
pub open spec fn packed_location(length: int, m: int) -> TextureLocation {
    subtile_location(cell_location(length, 16, m / 256), (m % 256) as u32)
}

impl SolidColorTileBuilder {
    pub closed spec fn spec_open_tile(&self) -> Option<SolidColorTileBuilderData> {
        self.0
    }

    /// The open tile, if any, lies in the first `0x8000` texels of each
    /// axis, and its next slot is one of its 256.
    pub open spec fn wf(&self) -> bool {
        match self.spec_open_tile() {
            Some(d) => {
                &&& d.next_index < 256
                &&& 0 <= d.tile_location.rect.origin.x <= 0x8000 - 16
                &&& 0 <= d.tile_location.rect.origin.y <= 0x8000 - 16
            },
            None => true,
        }
    }

    /// A packer without an open tile.
    pub fn new() -> (b: SolidColorTileBuilder)
        ensures
            b.wf(),
            b.spec_open_tile() == None::<SolidColorTileBuilderData>,
    {
        SolidColorTileBuilder(None)
    }

    /// The next texel: the next slot of the open tile, or the first slot of
    /// a tile newly taken from `allocator`; `None` when there is no open
    /// tile and the allocator is full. A tile whose last slot is handed out
    /// is closed.
    pub fn allocate(&mut self, allocator: &mut TextureAllocator) -> (r: Option<TextureLocation>)
        requires
            old(self).wf(),
            old(allocator).wf(),
            old(allocator).spec_tile_length() == 16,
        ensures
            final(self).wf(),
            final(allocator).wf(),
            final(allocator).spec_length() == old(allocator).spec_length(),
            final(allocator).spec_tile_length() == 16,
            match old(self).spec_open_tile() {
                Some(d) => {
                    &&& r == Some(subtile_location(d.tile_location, d.next_index))
                    &&& final(allocator).spec_issued() == old(allocator).spec_issued()
                    &&& final(self).spec_open_tile() == if d.next_index + 1 == 256 {
                        None::<SolidColorTileBuilderData>
                    } else {
                        Some(SolidColorTileBuilderData { next_index: (d.next_index + 1) as u32, ..d })
                    }
                },
                None => if old(allocator).spec_issued() < old(allocator).capacity() {
                    let t = cell_location(old(allocator).spec_length(), 16, old(allocator).spec_issued());
                    &&& r == Some(subtile_location(t, 0))
                    &&& final(allocator).spec_issued() == old(allocator).spec_issued() + 1
                    &&& final(self).spec_open_tile() == Some(
                        SolidColorTileBuilderData { tile_location: t, next_index: 1 },
                    )
                } else {
                    &&& r == None::<TextureLocation>
                    &&& final(allocator).spec_issued() == old(allocator).spec_issued()
                    &&& final(self).spec_open_tile() == None::<SolidColorTileBuilderData>
                },
            },
    {
        let mut data = match self.0 {
            Some(d) => d,
            None => match allocator.allocate() {
                Some(tile_location) => SolidColorTileBuilderData { tile_location, next_index: 0 },
                None => {
                    return None;
                },
            },
        };
        let ox = data.tile_location.rect.origin.x;
        let oy = data.tile_location.rect.origin.y;
        let location = TextureLocation {
            rect: RectI {
                origin: Vector2I {
                    x: ox + (data.next_index % SOLID_COLOR_TILE_LENGTH) as i32,
                    y: oy + (data.next_index / SOLID_COLOR_TILE_LENGTH) as i32,
                },
                size: Vector2I { x: 1, y: 1 },
            },
        };
        data.next_index = data.next_index + 1;
        if data.next_index == MAX_SOLID_COLORS_PER_TILE {
            self.0 = None;
        } else {
            self.0 = Some(data);
        }
        Some(location)
    }
}

/// One allocation from a packer in the state of `m` allocations leads to
/// the state of `m + 1` allocations, and hands out `packed_location(m)`.
pub proof fn lemma_pack_step(
    b: SolidColorTileBuilder,
    a: TextureAllocator,
    m: int,
    b2: SolidColorTileBuilder,
    a2: TextureAllocator,
    r: Option<TextureLocation>,
)
    requires
        packed_after(b, a, m),
        (m + 256) / 256 <= a.capacity(),
        a2.wf(),
        a2.spec_length() == a.spec_length(),
        a2.spec_tile_length() == 16,
        match b.spec_open_tile() {
            Some(d) => {
                &&& r == Some(subtile_location(d.tile_location, d.next_index))
                &&& a2.spec_issued() == a.spec_issued()
                &&& b2.spec_open_tile() == if d.next_index + 1 == 256 {
                    None::<SolidColorTileBuilderData>
                } else {
                    Some(SolidColorTileBuilderData { next_index: (d.next_index + 1) as u32, ..d })
                }
            },
            None => if a.spec_issued() < a.capacity() {
                let t = cell_location(a.spec_length(), 16, a.spec_issued());
                &&& r == Some(subtile_location(t, 0))
                &&& a2.spec_issued() == a.spec_issued() + 1
                &&& b2.spec_open_tile() == Some(
                    SolidColorTileBuilderData { tile_location: t, next_index: 1 },
                )
            } else {
                &&& r == None::<TextureLocation>
                &&& a2.spec_issued() == a.spec_issued()
                &&& b2.spec_open_tile() == None::<SolidColorTileBuilderData>
            },
        },
    ensures
        packed_after(b2, a2, m + 1),
        r == Some(packed_location(a.spec_length(), m)),
{
    if m % 256 == 0 {
        assert((m + 255) / 256 == m / 256);
        assert((m + 1 + 255) / 256 == m / 256 + 1);
        assert((m + 1) % 256 == 1);
        assert((m + 1) / 256 == m / 256);
    } else {
        assert((m + 255) / 256 == m / 256 + 1);
        assert((m + 1 + 255) / 256 == m / 256 + 1);
        if m % 256 == 255 {
            assert((m + 1) % 256 == 0);
        } else {
            assert((m + 1) % 256 == m % 256 + 1);
            assert((m + 1) / 256 == m / 256);
        }
    }
}

/// A fresh packer over a fresh allocator is in the state of no allocations.
pub proof fn lemma_packed_start(b: SolidColorTileBuilder, a: TextureAllocator)
    requires
        a.wf(),
        a.spec_tile_length() == 16,
        a.spec_issued() == 0,
        b.spec_open_tile() == None::<SolidColorTileBuilderData>,
    ensures
        packed_after(b, a, 0),
{
}

/// The 256 slots of a tile are used up before a second tile is opened:
/// after 256 allocations one tile is open, and the 257th allocation opens a
/// second one, whose first slot it gets.
pub proof fn lemma_second_tile_after_256(b: SolidColorTileBuilder, a: TextureAllocator, m: int)
    requires
        packed_after(b, a, m),
    ensures
        m == 256 ==> a.spec_issued() == 1,
        m == 257 ==> a.spec_issued() == 2,
        packed_location(a.spec_length(), 256) == subtile_location(
            cell_location(a.spec_length(), 16, 1),
            0,
        ),
{
}


/// The texel data of the paint atlas.
pub struct PaintData {
    /// Width and height, in texels.
    pub size: Vector2I,
    /// Four bytes (R, G, B, A) per texel, row-major.
    pub texels: Vec<u8>,
}

pub struct PaintInfo {
    /// The data that is sent to the renderer.
    pub data: PaintData,
    /// The metadata for each paint; its indices are paint IDs.
    pub metadata: Vec<PaintMetadata>,
}

/// Why the paint atlas could not be built.
#[derive(Clone, Copy, PartialEq, Eq, Debug)]
pub enum PaintError {
    /// A paint of a kind that the atlas cannot hold yet (a gradient).
    UnsupportedPaint,
    /// The atlas has no room left for another solid-color tile.
    AtlasFull,
}

/// The number of texels of the paint atlas.
pub open spec fn atlas_area() -> int {
    PAINT_TEXTURE_LENGTH as int * PAINT_TEXTURE_LENGTH as int
}

/// The row-major position in the atlas of the texel that the `i`-th solid
/// color gets.
pub open spec fn solid_texel(i: int) -> int {
    let o = packed_location(PAINT_TEXTURE_LENGTH as int, i).rect.origin;
    o.y * PAINT_TEXTURE_LENGTH as int + o.x
}

/// The solid color that gets the texel at row-major position `t`: the
/// inverse of `solid_texel`.
pub open spec fn solid_index_of_texel(t: int) -> int {
    let x = t % 1024;
    let y = t / 1024;
    (y / 16) * 16384 + (x / 16) * 256 + (y % 16) * 16 + x % 16
}

/// Channel `k` (R, G, B, A) of a color.
pub open spec fn color_channel(c: ColorU, k: int) -> u8 {
    if k == 0 {
        c.r
    } else if k == 1 {
        c.g
    } else if k == 2 {
        c.b
    } else {
        c.a
    }
}

/// Byte `b` of the atlas built from the solid colors `paints`: the channel
/// of the color whose texel holds it, zero where no color lies.
pub open spec fn atlas_byte(paints: Seq<PaintView>, b: int) -> u8 {
    let i = solid_index_of_texel(b / 4);
    if 0 <= i < paints.len() {
        match paints[i] {
            PaintView::Color(c) => color_channel(c, b % 4),
            _ => 0u8,
        }
    } else {
        0u8
    }
}

pub open spec fn view_is_opaque(v: PaintView) -> bool {
    match v {
        PaintView::Color(c) => c.a == 255,
        PaintView::Gradient(_, stops) => all_stops_alpha(stops, 255),
    }
}

/// The texture transform of the `i`-th solid color: no scale, and a
/// translation to the center of its texel in 0.16 fixed point.
pub open spec fn solid_transform(i: int) -> Transform2I {
    let o = packed_location(PAINT_TEXTURE_LENGTH as int, i).rect.origin;
    Transform2I {
        m11: 0,
        m12: 0,
        m21: 0,
        m22: 0,
        vector: Vector2I {
            x: (o.x * PAINT_TEXTURE_SCALE + PAINT_TEXTURE_SCALE / 2) as i32,
            y: (o.y * PAINT_TEXTURE_SCALE + PAINT_TEXTURE_SCALE / 2) as i32,
        },
    }
}

/// The metadata of the `i`-th of the solid colors `paints`.
pub open spec fn solid_metadata(paints: Seq<PaintView>, i: int) -> PaintMetadata {
    PaintMetadata { tex_transform: solid_transform(i), is_opaque: view_is_opaque(paints[i]) }
}

/// The texel of the `i`-th solid color lies in the atlas, and no other
/// solid color gets it.
proof fn lemma_solid_texel(i: int)
    requires
        0 <= i < 0x10_0000,
    ensures
        0 <= packed_location(1024, i).rect.origin.x < 1024,
        0 <= packed_location(1024, i).rect.origin.y < 1024,
        solid_index_of_texel(solid_texel(i)) == i,
{
    let t = i / 256;
    let s = i % 256;
    let a = t % 64;
    let c = t / 64;
    let b = s % 16;
    let d = s / 16;
    assert(i == 256 * t + s);
    assert(t == 64 * c + a);
    assert(s == 16 * d + b);
    assert(0 <= c < 64);
    let x = a * 16 + b;
    let y = c * 16 + d;
    let o = packed_location(1024, i).rect.origin;
    assert(o.x == x);
    assert(o.y == y);
    let tt = y * 1024 + x;
    assert(tt % 1024 == x);
    assert(tt / 1024 == y);
    assert(x / 16 == a);
    assert(x % 16 == b);
    assert(y / 16 == c);
    assert(y % 16 == d);
}

/// Each texel of the atlas is that of the solid color `solid_index_of_texel`.
proof fn lemma_texel_solid(tt: int)
    requires
        0 <= tt < 0x10_0000,
    ensures
        0 <= solid_index_of_texel(tt) < 0x10_0000,
        solid_texel(solid_index_of_texel(tt)) == tt,
{
    let x = tt % 1024;
    let y = tt / 1024;
    let a = x / 16;
    let b = x % 16;
    let c = y / 16;
    let d = y % 16;
    assert(x == 16 * a + b);
    assert(y == 16 * c + d);
    assert(0 <= c < 64);
    let i = solid_index_of_texel(tt);
    assert(i == c * 16384 + a * 256 + d * 16 + b);
    assert(i / 256 == c * 64 + a);
    assert(i % 256 == d * 16 + b);
    assert((i / 256) % 64 == a);
    assert((i / 256) / 64 == c);
    assert((i % 256) % 16 == b);
    assert((i % 256) / 16 == d);
    let o = packed_location(1024, i).rect.origin;
    assert(o.x == x);
    assert(o.y == y);
}

/// Writes the four channels of `color` at texel `position` of the atlas.
fn put_pixel(texels: &mut Vec<u8>, position: Vector2I, color: ColorU)
    requires
        old(texels)@.len() == 4 * atlas_area(),
        0 <= position.x < PAINT_TEXTURE_LENGTH,
        0 <= position.y < PAINT_TEXTURE_LENGTH,
    ensures
        final(texels)@.len() == old(texels)@.len(),
        forall|b: int|
            0 <= b < 4 * atlas_area() ==> #[trigger] final(texels)@[b] == if b / 4 == position.y
                * PAINT_TEXTURE_LENGTH + position.x {
                color_channel(color, b % 4)
            } else {
                old(texels)@[b]
            },
{
    let index = (position.y as usize * PAINT_TEXTURE_LENGTH as usize + position.x as usize) * 4;
    texels.set(index, color.r);
    texels.set(index + 1, color.g);
    texels.set(index + 2, color.b);
    texels.set(index + 3, color.a);
}

/// A zeroed atlas.
fn zero_texels() -> (t: Vec<u8>)
    ensures
        t@ == Seq::new((4 * atlas_area()) as nat, |b: int| 0u8),
{
    let n = PAINT_TEXTURE_LENGTH as usize * PAINT_TEXTURE_LENGTH as usize * 4;
    let mut t: Vec<u8> = Vec::new();
    let mut i: usize = 0;
    while i < n
        invariant
            n == 4 * atlas_area(),
            0 <= i <= n,
            t@ == Seq::new(i as nat, |b: int| 0u8),
        decreases n - i,
    {
        t.push(0);
        i = i + 1;
        assert(t@ =~= Seq::new(i as nat, |b: int| 0u8));
    }
    t
}

impl Palette {
    /// Builds the paint atlas and the metadata of every paint, in ID order:
    /// each solid color gets the next texel of the solid-color packer, holds
    /// its channels there, and a transform to that texel's center. A gradient
    /// cannot be placed yet: its presence is an error.
    pub fn build_paint_info(&self) -> (r: Result<PaintInfo, PaintError>)
        requires
            self.wf(),
        ensures
            r is Err <==> exists|i: int|
                0 <= i < self.spec_paints().len() && #[trigger] self.spec_paints()[i] is Gradient,
            r matches Err(e) ==> e == PaintError::UnsupportedPaint,
            r matches Ok(info) ==> {
                &&& info.data.size == (Vector2I { x: 1024, y: 1024 })
                &&& info.data.texels@.len() == 4 * atlas_area()
                &&& forall|b: int|
                    0 <= b < 4 * atlas_area() ==> #[trigger] info.data.texels@[b] == atlas_byte(
                        self.spec_paints(),
                        b,
                    )
                &&& info.metadata@.len() == self.spec_paints().len()
                &&& forall|i: int|
                    0 <= i < self.spec_paints().len() ==> #[trigger] info.metadata@[i]
                        == solid_metadata(self.spec_paints(), i)
            },
    {
        let mut allocator = TextureAllocator::new(PAINT_TEXTURE_LENGTH, SOLID_COLOR_TILE_LENGTH);
        let mut texels = zero_texels();
        let mut metadata: Vec<PaintMetadata> = Vec::new();
        let mut solid_color_tile_builder = SolidColorTileBuilder::new();
        let ghost paints = self.spec_paints();
        proof {
            lemma_packed_start(solid_color_tile_builder, allocator);
            assert forall|b: int| 0 <= b < 4 * atlas_area() implies #[trigger] texels@[b] == atlas_byte(
                paints.take(0),
                b,
            ) by {}
        }
        let n = self.paints.len();
        let mut i: usize = 0;
        while i < n
            invariant
                self.wf(),
                paints == self.spec_paints(),
                n == paints.len(),
                n <= 0x1_0000,
                0 <= i <= n,
                packed_after(solid_color_tile_builder, allocator, i as int),
                allocator.spec_length() == 1024,
                texels@.len() == 4 * atlas_area(),
                forall|b: int|
                    0 <= b < 4 * atlas_area() ==> #[trigger] texels@[b] == atlas_byte(
                        paints.take(i as int),
                        b,
                    ),
                metadata@.len() == i,
                forall|j: int|
                    0 <= j < i ==> #[trigger] metadata@[j] == solid_metadata(paints, j),
                forall|j: int| 0 <= j < i ==> #[trigger] paints[j] is Color,
            decreases n - i,
        {
            let paint = &self.paints[i];
            assert(paints[i as int] == paint@);
            match paint {
                Paint::Color(color) => {
                    let ghost b0 = solid_color_tile_builder;
                    let ghost a0 = allocator;
                    let location = solid_color_tile_builder.allocate(&mut allocator);
                    proof {
                        assert(a0.spec_length() / a0.spec_tile_length() == 64);
                        assert(a0.capacity() == 4096) by (nonlinear_arith)
                            requires
                                a0.spec_length() / a0.spec_tile_length() == 64,
                        ;
                        lemma_pack_step(
                            b0,
                            a0,
                            i as int,
                            solid_color_tile_builder,
                            allocator,
                            location,
                        );
                        lemma_solid_texel(i as int);
                    }
                    let location = match location {
                        Some(l) => l,
                        None => {
                            return Err(PaintError::AtlasFull);
                        },
                    };
                    let origin = location.rect.origin;
                    let ghost old_texels = texels@;
                    put_pixel(&mut texels, origin, *color);
                    proof {
                        let next = paints.take(i + 1);
                        assert forall|b: int| 0 <= b < 4 * atlas_area() implies #[trigger] texels@[b]
                            == atlas_byte(next, b) by {
                            let tt = b / 4;
                            lemma_texel_solid(tt);
                            let k = solid_index_of_texel(tt);
                            if tt == solid_texel(i as int) {
                                assert(k == i);
                                assert(next[k] == paints[i as int]);
                            } else {
                                assert(k != i);
                                assert(old_texels[b] == atlas_byte(paints.take(i as int), b));
                                if k < i {
                                    assert(next[k] == paints.take(i as int)[k]);
                                }
                            }
                        }
                    }
                    let scale = PAINT_TEXTURE_SCALE as i32;
                    let tex_transform = Transform2I {
                        m11: 0,
                        m12: 0,
                        m21: 0,
                        m22: 0,
                        vector: Vector2I {
                            x: origin.x * scale + scale / 2,
                            y: origin.y * scale + scale / 2,
                        },
                    };
                    metadata.push(PaintMetadata { tex_transform, is_opaque: paint.is_opaque() });
                },
                Paint::Gradient(_) => {
                    return Err(PaintError::UnsupportedPaint);
                },
            }
            i = i + 1;
        }
        proof {
            assert(paints.take(n as int) =~= paints);
        }
        Ok(
            PaintInfo {
                data: PaintData {
                    size: Vector2I { x: PAINT_TEXTURE_LENGTH as i32, y: PAINT_TEXTURE_LENGTH as i32 },
                    texels,
                },
                metadata,
            },
        )
    }
}

} // verus!
