use tile_paint::geometry::{RectI, Transform2I, Vector2I};
use tile_paint::paint::{PaintId, PaintMetadata};
use tile_paint::z_buffer::{SolidTileBatchPrimitive, ZBuffer};

fn buffer() -> ZBuffer {
    ZBuffer::new(RectI::new(Vector2I::new(-2, 3), Vector2I::new(4, 3)))
}

#[test]
fn new_buffer_is_empty() {
    let z = buffer();
    assert_eq!(z.depth(Vector2I::new(-2, 3)), 0);
    assert_eq!(z.depth(Vector2I::new(1, 5)), 0);
    assert!(z.test(Vector2I::new(0, 4), 0));
}

#[test]
fn updates_in_any_order_reach_the_maximum() {
    let n: u16 = 20;
    let orders: Vec<Vec<u16>> = vec![
        (0..n).collect(),
        (0..n).rev().collect(),
        (0..n).map(|i| (i * 7) % n).collect(),
    ];
    for order in orders {
        let mut z = buffer();
        let c = Vector2I::new(1, 4);
        let mut last = 0;
        for k in order {
            z.update(c, k);
            let d = z.depth(c);
            assert!(d >= last);
            last = d;
        }
        assert_eq!(z.depth(c), n as u32);
        assert_eq!(z.depth(Vector2I::new(0, 4)), 0);
    }
}

#[test]
fn test_after_update() {
    let mut z = buffer();
    let c = Vector2I::new(0, 3);
    z.update(c, 5);
    assert!(!z.test(c, 5));
    assert!(!z.test(c, 4));
    assert!(z.test(c, 6));
    z.update(c, 2);
    assert_eq!(z.depth(c), 6);
}

fn metadata() -> Vec<PaintMetadata> {
    (0..3)
        .map(|i| PaintMetadata {
            tex_transform: Transform2I {
                m11: i,
                m12: 0,
                m21: 0,
                m22: -1,
                vector: Vector2I::new(100 + i, 70000),
            },
            is_opaque: true,
        })
        .collect()
}

#[test]
fn build_solid_tiles_one_per_covered_tile_in_range() {
    let mut z = buffer();
    z.update(Vector2I::new(-1, 3), 1);
    z.update(Vector2I::new(1, 5), 0);
    z.update(Vector2I::new(0, 4), 3);
    let paths = vec![PaintId(2), PaintId(0), PaintId(1), PaintId(1)];
    let tiles = z.build_solid_tiles(&paths, &metadata(), 0..2);
    assert_eq!(tiles.len(), 2);
    assert_eq!(
        tiles[0],
        SolidTileBatchPrimitive {
            tile_x: -1,
            tile_y: 3,
            object_index: 1,
            texture_m00: 0,
            texture_m10: 0,
            texture_m01: 0,
            texture_m11: 0xffff,
            texture_m02: 100,
            texture_m12: (70000u32 & 0xffff) as u16,
            pad: 0,
        }
    );
    assert_eq!((tiles[1].tile_x, tiles[1].tile_y, tiles[1].object_index), (1, 5, 0));
    assert_eq!(tiles[1].texture_m00, 2);
    assert_eq!(tiles[1].texture_m02, 102);
}

#[test]
fn build_solid_tiles_skips_out_of_range_and_untouched() {
    let mut z = buffer();
    z.update(Vector2I::new(0, 4), 3);
    let paths = vec![PaintId(0), PaintId(0), PaintId(0), PaintId(1)];
    assert!(z.build_solid_tiles(&paths, &metadata(), 0..3).is_empty());
    assert_eq!(z.build_solid_tiles(&paths, &metadata(), 3..4).len(), 1);
    assert!(buffer().build_solid_tiles(&paths, &metadata(), 0..4).is_empty());
}

#[test]
fn primitive_new_truncates_to_sixteen_bits() {
    let t = Transform2I { m11: 1, m12: 2, m21: 3, m22: 4, vector: Vector2I::new(65536 + 5, 6) };
    let p = SolidTileBatchPrimitive::new(Vector2I::new(-7, 40000), 9, t);
    assert_eq!((p.tile_x, p.tile_y, p.object_index), (-7, 40000u32 as u16 as i16, 9));
    assert_eq!(
        (p.texture_m00, p.texture_m10, p.texture_m01, p.texture_m11, p.texture_m02, p.texture_m12),
        (1, 3, 2, 4, 5, 6)
    );
    assert_eq!(p.pad, 0);
}
