use pathfinder_color::ColorU;
use tile_paint::allocator::TextureAllocator;
use tile_paint::geometry::Vector2I;
use tile_paint::gradient::{ColorStop, Gradient};
use tile_paint::paint::{Paint, PaintError, PaintId, Palette, SolidColorTileBuilder};

fn gradient(alphas: &[u8]) -> Gradient {
    let mut g = Gradient::new([0, 0, 1.0f32.to_bits(), 0]);
    for (i, a) in alphas.iter().enumerate() {
        g.add_color_stop(ColorStop::new(ColorU::new(1, 2, 3, *a), (i as f32).to_bits()));
    }
    g
}

#[test]
fn push_paint_deduplicates_equal_paints() {
    let mut p = Palette::new();
    let red = Paint::Color(ColorU::new(255, 0, 0, 255));
    assert_eq!(p.push_paint(&red), PaintId(0));
    assert_eq!(p.push_paint(&red.clone()), PaintId(0));
    assert_eq!(p.len(), 1);
}

#[test]
fn push_paint_distinguishes_alpha() {
    let mut p = Palette::new();
    let a = p.push_paint(&Paint::Color(ColorU::new(255, 0, 0, 255)));
    let b = p.push_paint(&Paint::Color(ColorU::new(255, 0, 0, 254)));
    assert_ne!(a, b);
    assert_eq!(b, PaintId(1));
    assert_eq!(p.len(), 2);
}

#[test]
fn push_paint_deduplicates_gradients_bit_exactly() {
    let mut p = Palette::new();
    let g1 = Paint::Gradient(gradient(&[255, 255]));
    let g2 = Paint::Gradient(gradient(&[255, 255]));
    let mut g3 = gradient(&[255]);
    g3.add_color_stop(ColorStop::new(ColorU::new(1, 2, 3, 255), (-0.0f32).to_bits()));
    assert_eq!(p.push_paint(&g1), PaintId(0));
    assert_eq!(p.push_paint(&g2), PaintId(0));
    assert_eq!(p.push_paint(&Paint::Gradient(g3)), PaintId(1));
    assert_eq!(*p.paint(PaintId(0)), g1);
}

#[test]
fn paint_opacity_predicates() {
    assert!(Paint::black().is_opaque());
    assert!(!Paint::black().is_fully_transparent());
    assert!(Paint::transparent_black().is_fully_transparent());
    assert!(!Paint::transparent_black().is_opaque());
    assert!(Paint::Gradient(gradient(&[255, 255])).is_opaque());
    assert!(!Paint::Gradient(gradient(&[255, 254])).is_opaque());
    assert!(Paint::Gradient(gradient(&[0, 0])).is_fully_transparent());
    assert!(!Paint::Gradient(gradient(&[0, 1])).is_fully_transparent());
}

#[test]
fn paint_map_alpha_on_color() {
    let mut table = [0u8; 256];
    for a in 0..256 {
        table[a] = (a / 2) as u8;
    }
    let mut p = Paint::Color(ColorU::new(9, 8, 7, 200));
    p.map_alpha(&table);
    assert_eq!(p, Paint::Color(ColorU::new(9, 8, 7, 100)));
}

#[test]
fn packer_opens_second_tile_at_257() {
    let mut allocator = TextureAllocator::new(1024, 16);
    let mut builder = SolidColorTileBuilder::new();
    let mut locations = vec![];
    for _ in 0..257 {
        locations.push(builder.allocate(&mut allocator).unwrap());
    }
    assert_eq!(locations[0].rect.origin, Vector2I::new(0, 0));
    assert_eq!(locations[17].rect.origin, Vector2I::new(1, 1));
    assert_eq!(locations[255].rect.origin, Vector2I::new(15, 15));
    assert_eq!(locations[256].rect.origin, Vector2I::new(16, 0));
    assert_eq!(locations[256].rect.size, Vector2I::new(1, 1));
    // The allocator has handed out exactly two tiles: the next one is the third.
    let third = allocator.allocate().unwrap();
    assert_eq!(third.rect.origin, Vector2I::new(32, 0));
}

#[test]
fn packer_fails_when_allocator_is_full() {
    let mut allocator = TextureAllocator::new(16, 16);
    let mut builder = SolidColorTileBuilder::new();
    for _ in 0..256 {
        assert!(builder.allocate(&mut allocator).is_some());
    }
    assert!(builder.allocate(&mut allocator).is_none());
}

#[test]
fn allocator_hands_out_rows_of_tiles() {
    let mut allocator = TextureAllocator::new(32, 16);
    let origins: Vec<Vector2I> = (0..4).map(|_| allocator.allocate().unwrap().rect.origin).collect();
    assert_eq!(
        origins,
        vec![Vector2I::new(0, 0), Vector2I::new(16, 0), Vector2I::new(0, 16), Vector2I::new(16, 16)]
    );
    assert!(allocator.allocate().is_none());
}

#[test]
fn build_paint_info_places_solid_colors() {
    let mut p = Palette::new();
    p.push_paint(&Paint::Color(ColorU::new(10, 20, 30, 255)));
    p.push_paint(&Paint::Color(ColorU::new(40, 50, 60, 70)));
    let info = p.build_paint_info().unwrap();
    assert_eq!(info.data.size, Vector2I::new(1024, 1024));
    assert_eq!(info.data.texels.len(), 1024 * 1024 * 4);
    assert_eq!(&info.data.texels[0..8], &[10, 20, 30, 255, 40, 50, 60, 70]);
    assert!(info.data.texels[8..].iter().all(|b| *b == 0));
    assert_eq!(info.metadata.len(), 2);
    let t0 = info.metadata[0].tex_transform;
    assert_eq!((t0.m11, t0.m12, t0.m21, t0.m22), (0, 0, 0, 0));
    assert_eq!(t0.vector, Vector2I::new(32, 32));
    assert_eq!(info.metadata[1].tex_transform.vector, Vector2I::new(96, 32));
    assert!(info.metadata[0].is_opaque);
    assert!(!info.metadata[1].is_opaque);
}

#[test]
fn build_paint_info_second_row_and_second_tile() {
    let mut p = Palette::new();
    for i in 0..257u32 {
        p.push_paint(&Paint::Color(ColorU::new((i % 256) as u8, (i / 256) as u8, 1, 255)));
    }
    let info = p.build_paint_info().unwrap();
    // Color 16 sits at texel (0, 1); color 256 opens the tile at (16, 0).
    let at = |x: usize, y: usize| &info.data.texels[(y * 1024 + x) * 4..(y * 1024 + x) * 4 + 4];
    assert_eq!(at(0, 1), &[16, 0, 1, 255]);
    assert_eq!(at(16, 0), &[0, 1, 1, 255]);
    assert_eq!(info.metadata[16].tex_transform.vector, Vector2I::new(32, 96));
    assert_eq!(info.metadata[256].tex_transform.vector, Vector2I::new(16 * 64 + 32, 32));
}

#[test]
fn build_paint_info_rejects_gradients() {
    let mut p = Palette::new();
    p.push_paint(&Paint::black());
    p.push_paint(&Paint::Gradient(gradient(&[255])));
    assert!(matches!(p.build_paint_info(), Err(PaintError::UnsupportedPaint)));
}

#[test]
fn build_paint_info_of_empty_palette() {
    let info = Palette::new().build_paint_info().unwrap();
    assert!(info.metadata.is_empty());
    assert!(info.data.texels.iter().all(|b| *b == 0));
}
