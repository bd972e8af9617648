use pathfinder_color::ColorU;
use tile_paint::gradient::{order_key, ColorStop, Gradient, Sample};

fn stop(r: u8, offset: f32) -> ColorStop {
    ColorStop::new(ColorU::new(r, 0, 0, 255), offset.to_bits())
}

fn line() -> [u32; 4] {
    [0.0f32.to_bits(), 0.0f32.to_bits(), 1.0f32.to_bits(), 0.0f32.to_bits()]
}

#[test]
fn stops_are_kept_in_offset_order() {
    let mut g = Gradient::new(line());
    g.add_color_stop(stop(3, 0.75));
    g.add_color_stop(stop(1, 0.25));
    g.add_color_stop(stop(2, 0.5));
    let reds: Vec<u8> = g.stops().iter().map(|s| s.color.r).collect();
    assert_eq!(reds, vec![1, 2, 3]);
    assert_eq!(g.line(), line());
}

#[test]
fn equal_offsets_keep_insertion_order() {
    let mut g = Gradient::new(line());
    g.add_color_stop(stop(1, 0.5));
    g.add_color_stop(stop(2, 0.5));
    g.add_color_stop(stop(3, 0.5));
    let reds: Vec<u8> = g.stops().iter().map(|s| s.color.r).collect();
    assert_eq!(reds, vec![1, 2, 3]);
}

#[test]
fn sample_without_stops_is_transparent_black() {
    let g = Gradient::new(line());
    assert_eq!(g.sample(0.5f32.to_bits()), Sample::Color(ColorU::transparent_black()));
}

#[test]
fn sample_below_first_and_above_last() {
    let mut g = Gradient::new(line());
    g.add_color_stop(stop(10, 0.25));
    g.add_color_stop(stop(20, 0.75));
    assert_eq!(g.sample(0.0f32.to_bits()), Sample::Color(ColorU::new(10, 0, 0, 255)));
    assert_eq!(g.sample((-3.0f32).to_bits()), Sample::Color(ColorU::new(10, 0, 0, 255)));
    assert_eq!(g.sample(1.0f32.to_bits()), Sample::Color(ColorU::new(20, 0, 0, 255)));
    assert_eq!(g.sample(0.25f32.to_bits()), Sample::Color(ColorU::new(10, 0, 0, 255)));
}

#[test]
fn sample_between_two_stops_is_a_blend() {
    let a = ColorStop::new(ColorU::new(0, 100, 200, 255), 0.0f32.to_bits());
    let b = ColorStop::new(ColorU::new(255, 0, 50, 255), 1.0f32.to_bits());
    let mut g = Gradient::new(line());
    g.add_color_stop(b);
    g.add_color_stop(a);
    assert_eq!(g.sample(0.5f32.to_bits()), Sample::Blend { lower: a, upper: b });
}

#[test]
fn sample_at_duplicate_offset_gives_first_added() {
    let mut g = Gradient::new(line());
    g.add_color_stop(stop(9, 0.0));
    g.add_color_stop(stop(1, 0.5));
    g.add_color_stop(stop(2, 0.5));
    g.add_color_stop(stop(7, 1.0));
    assert_eq!(g.sample(0.5f32.to_bits()), Sample::Color(ColorU::new(1, 0, 0, 255)));
}

#[test]
fn order_key_follows_float_order() {
    let values = [-2.0f32, -1.0, -0.5, 0.0, 0.25, 1.0, 3.0];
    for w in values.windows(2) {
        assert!(order_key(w[0].to_bits()) < order_key(w[1].to_bits()));
    }
    assert_eq!(order_key(0.0f32.to_bits()), 0x8000_0000);
}

fn halving_table(alpha: f32) -> [u8; 256] {
    let mut t = [0u8; 256];
    for a in 0..256 {
        t[a] = (a as f32 * alpha).round() as u8;
    }
    t
}

#[test]
fn map_alpha_halves_with_rounding() {
    let mut g = Gradient::new(line());
    g.add_color_stop(ColorStop::new(ColorU::new(1, 2, 3, 255), 0.0f32.to_bits()));
    g.add_color_stop(ColorStop::new(ColorU::new(4, 5, 6, 3), 1.0f32.to_bits()));
    g.map_alpha(&halving_table(0.5));
    let s = g.stops();
    assert_eq!(s[0].color, ColorU::new(1, 2, 3, 128));
    assert_eq!(s[1].color, ColorU::new(4, 5, 6, 2));
    assert_eq!(s[1].offset_bits, 1.0f32.to_bits());
}

#[test]
fn halving_twice_differs_from_once() {
    let mut once = Gradient::new(line());
    once.add_color_stop(ColorStop::new(ColorU::new(0, 0, 0, 255), 0.0f32.to_bits()));
    let mut twice = once.clone();
    once.map_alpha(&halving_table(0.25));
    twice.map_alpha(&halving_table(0.5));
    twice.map_alpha(&halving_table(0.5));
    assert_eq!(once.stops()[0].color.a, 64);
    assert_eq!(twice.stops()[0].color.a, 64);
    let mut half_then_one = Gradient::new(line());
    half_then_one.add_color_stop(ColorStop::new(ColorU::new(0, 0, 0, 3), 0.0f32.to_bits()));
    let mut quarter = half_then_one.clone();
    half_then_one.map_alpha(&halving_table(0.5));
    half_then_one.map_alpha(&halving_table(0.5));
    quarter.map_alpha(&halving_table(0.25));
    assert_eq!(half_then_one.stops()[0].color.a, 1);
    assert_eq!(quarter.stops()[0].color.a, 1);
    let mut a = Gradient::new(line());
    a.add_color_stop(ColorStop::new(ColorU::new(0, 0, 0, 5), 0.0f32.to_bits()));
    let mut b = a.clone();
    a.map_alpha(&halving_table(0.5));
    a.map_alpha(&halving_table(0.5));
    b.map_alpha(&halving_table(0.25));
    assert_eq!(a.stops()[0].color.a, 2);
    assert_eq!(b.stops()[0].color.a, 1);
}
