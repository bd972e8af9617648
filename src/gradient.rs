//! Linear gradients: an ordered list of color stops along a line segment.
//!
//! Floating-point values (the stop offsets, the segment's endpoints and the
//! sample position) are held as their IEEE-754 bit patterns, so equality and
//! hashing are bit-exact. Stops are ordered by the IEEE-754 total order of
//! their offsets (the order of `f32::total_cmp`), computed on the bits.

use pathfinder_color::ColorU;
use vstd::prelude::*;

verus! {

/// The position of an `f32`, given by its bits, in the IEEE-754 total order:
/// `offset_key(a) < offset_key(b)` exactly when `a` comes before `b`.
pub open spec fn offset_key(bits: u32) -> u32 {
    if bits >= 0x8000_0000 {
        !bits
    } else {
        (bits + 0x8000_0000) as u32
    }
}

/// Executable form of `offset_key`.
pub fn order_key(bits: u32) -> (k: u32)
    ensures
        k == offset_key(bits),
{
    if bits >= 0x8000_0000 {
        !bits
    } else {
        bits + 0x8000_0000
    }
}

/// One stop of a gradient: a color at an offset along the gradient line.
#[derive(Clone, Copy, PartialEq, Eq, Hash, Debug)]
pub struct ColorStop {
    pub color: ColorU,
    /// The bits of the `f32` offset (nominally in 0..1).
    pub offset_bits: u32,
}

impl ColorStop {
    pub fn new(color: ColorU, offset_bits: u32) -> (s: ColorStop)
        ensures
            s.color == color,
            s.offset_bits == offset_bits,
    {
        ColorStop { color, offset_bits }
    }
}

pub open spec fn stop_key(s: ColorStop) -> u32 {
    offset_key(s.offset_bits)
}

/// The stops are in non-decreasing order of their offsets.
pub open spec fn stops_sorted(s: Seq<ColorStop>) -> bool {
    forall|i: int, j: int| 0 <= i <= j < s.len() ==> stop_key(s[i]) <= stop_key(s[j])
}

/// The first index at or after `j` whose stop's key is at least `k`
/// (`s.len()` when there is none).
pub open spec fn first_not_below(s: Seq<ColorStop>, k: u32, j: int) -> int
    decreases s.len() - j,
{
    if j >= s.len() || j < 0 {
        s.len() as int
    } else if stop_key(s[j]) >= k {
        j
    } else {
        first_not_below(s, k, j + 1)
    }
}

/// The first index at or after `j` whose stop's key is above `k`
/// (`s.len()` when there is none).
pub open spec fn first_above(s: Seq<ColorStop>, k: u32, j: int) -> int
    decreases s.len() - j,
{
    if j >= s.len() || j < 0 {
        s.len() as int
    } else if stop_key(s[j]) > k {
        j
    } else {
        first_above(s, k, j + 1)
    }
}

/// What sampling a gradient at a position comes to, before any
/// floating-point blending.
#[derive(Clone, Copy, PartialEq, Eq, Debug)]
pub enum Sample {
    /// The position resolves to exactly this color.
    Color(ColorU),
    /// The position lies strictly between the offsets of these two stops:
    /// the color is interpolated between them.
    Blend { lower: ColorStop, upper: ColorStop },
}

/// The sample of the stop list `s` at the position with bits `t`.
pub open spec fn sample_of(s: Seq<ColorStop>, t: u32) -> Sample {
    let i = first_not_below(s, offset_key(t), 0);
    if s.len() == 0 {
        Sample::Color(ColorU { r: 0, g: 0, b: 0, a: 0 })
    } else if i == 0 {
        Sample::Color(s[0].color)
    } else if i == s.len() {
        Sample::Color(s[s.len() - 1].color)
    } else if stop_key(s[i]) == offset_key(t) {
        Sample::Color(s[i].color)
    } else {
        Sample::Blend { lower: s[i - 1], upper: s[i] }
    }
}

/// A linear color ramp along a line segment.
#[derive(Clone, PartialEq, Eq, Hash, Debug)]
pub struct Gradient {
    /// The bits of the segment's endpoints: from x, from y, to x, to y.
    line_bits: [u32; 4],
    stops: Vec<ColorStop>,
}

impl Gradient {
    pub closed spec fn spec_line(&self) -> [u32; 4] {
        self.line_bits
    }

    pub closed spec fn spec_stops(&self) -> Seq<ColorStop> {
        self.stops@
    }

    /// The stop list is ordered by offset.
    pub open spec fn wf(&self) -> bool {
        stops_sorted(self.spec_stops())
    }

    /// A gradient along the given segment, without stops.
    pub fn new(line_bits: [u32; 4]) -> (g: Gradient)
        ensures
            g.spec_line() == line_bits,
            g.spec_stops() == Seq::<ColorStop>::empty(),
            g.wf(),
    {
        Gradient { line_bits, stops: Vec::new() }
    }

    /// Inserts a stop after every stop whose offset is not above its own,
    /// so that the list stays ordered and equal offsets keep the order in
    /// which they were added.
    pub fn add_color_stop(&mut self, stop: ColorStop)
        ensures
            final(self).spec_line() == old(self).spec_line(),
            final(self).spec_stops() == old(self).spec_stops().insert(
                first_above(old(self).spec_stops(), stop_key(stop), 0),
                stop,
            ),
            old(self).wf() ==> final(self).wf(),
    {
        let k = order_key(stop.offset_bits);
        let ghost s = self.stops@;
        let mut i: usize = 0;
        while i < self.stops.len() && order_key(self.stops[i].offset_bits) <= k
            invariant
                self.stops@ == s,
                0 <= i <= s.len(),
                first_above(s, k, 0) == first_above(s, k, i as int),
                forall|j: int| 0 <= j < i ==> stop_key(s[j]) <= k,
            decreases s.len() - i,
        {
            i = i + 1;
        }
        assert(first_above(s, k, i as int) == i as int);
        proof {
            if i < s.len() {
                assert(stop_key(s[i as int]) > k);
            }
        }
        self.stops.insert(i, stop);
        proof {
            let n = self.stops@;
            if stops_sorted(s) {
                assert forall|a: int, b: int| 0 <= a <= b < n.len() implies stop_key(n[a])
                    <= stop_key(n[b]) by {
                    if a < i && b > i {
                        assert(n[b] == s[b - 1]);
                    }
                    if a > i {
                        assert(n[a] == s[a - 1]);
                        assert(n[b] == s[b - 1]);
                    }
                    if b == i as int && a < i {
                    }
                    if a == i as int && b > i {
                        assert(n[b] == s[b - 1]);
                        assert(stop_key(s[i as int]) > k);
                    }
                }
            }
        }
    }

    /// Appends a stop at the end, whatever its offset.
    pub(crate) fn push_stop_unordered(&mut self, stop: ColorStop)
        ensures
            final(self).spec_line() == old(self).spec_line(),
            final(self).spec_stops() == old(self).spec_stops().push(stop),
    {
        self.stops.push(stop);
    }

    /// The bits of the segment's endpoints.
    pub fn line(&self) -> (l: [u32; 4])
        ensures
            l == self.spec_line(),
    {
        self.line_bits
    }

    /// The stops, in order of offset.
    pub fn stops(&self) -> (s: &[ColorStop])
        ensures
            s@ == self.spec_stops(),
    {
        self.stops.as_slice()
    }

    /// Resolves the position with bits `t` against the stops: no stops give
    /// transparent black; a position at or below the first offset gives the
    /// first stop's color, one above the last offset the last stop's color,
    /// one equal to an offset the color of the first stop there; any other
    /// position is a blend of the two stops around it.
    pub fn sample(&self, t: u32) -> (r: Sample)
        ensures
            r == sample_of(self.spec_stops(), t),
    {
        let k = order_key(t);
        let n = self.stops.len();
        if n == 0 {
            return Sample::Color(ColorU::transparent_black());
        }
        let ghost s = self.stops@;
        let mut i: usize = 0;
        while i < n && order_key(self.stops[i].offset_bits) < k
            invariant
                self.stops@ == s,
                n == s.len(),
                0 <= i <= n,
                first_not_below(s, k, 0) == first_not_below(s, k, i as int),
            decreases n - i,
        {
            i = i + 1;
        }
        assert(first_not_below(s, k, i as int) == i as int);
        if i == 0 {
            Sample::Color(self.stops[0].color)
        } else if i == n {
            Sample::Color(self.stops[n - 1].color)
        } else if order_key(self.stops[i].offset_bits) == k {
            Sample::Color(self.stops[i].color)
        } else {
            Sample::Blend { lower: self.stops[i - 1], upper: self.stops[i] }
        }
    }

    /// Replaces the alpha of every stop by `table[alpha]`; colors' other
    /// channels and the offsets stay as they are.
    pub fn map_alpha(&mut self, table: &[u8; 256])
        ensures
            final(self).spec_line() == old(self).spec_line(),
            final(self).spec_stops().len() == old(self).spec_stops().len(),
            forall|i: int|
                0 <= i < old(self).spec_stops().len() ==> #[trigger] final(self).spec_stops()[i]
                    == with_alpha(old(self).spec_stops()[i], table@[old(self).spec_stops()[i].color.a as int]),
            old(self).wf() ==> final(self).wf(),
    {
        let ghost s = self.stops@;
        let n = self.stops.len();
        let mut i: usize = 0;
        while i < n
            invariant
                n == s.len(),
                self.stops@.len() == n,
                0 <= i <= n,
                table@.len() == 256,
                forall|j: int| 0 <= j < i ==> #[trigger] self.stops@[j] == with_alpha(s[j], table@[s[j].color.a as int]),
                forall|j: int| i <= j < n ==> #[trigger] self.stops@[j] == s[j],
                self.line_bits == old(self).line_bits,
                s == old(self).stops@,
            decreases n - i,
        {
            let mut stop = self.stops[i];
            stop.color.a = table[stop.color.a as usize];
            self.stops.set(i, stop);
            i = i + 1;
        }
        proof {
            assert forall|a: int| 0 <= a < n implies stop_key(#[trigger] self.stops@[a]) == stop_key(s[a]) by {
                assert(self.stops@[a] == with_alpha(s[a], table@[s[a].color.a as int]));
            }
        }
    }
}

/// `s` with its color's alpha replaced by `a`.
pub open spec fn with_alpha(s: ColorStop, a: u8) -> ColorStop {
    ColorStop { color: ColorU { a, ..s.color }, ..s }
}


/// `first_above` is the end of the run, from `j`, of stops whose key is not
/// above `k`.
proof fn lemma_first_above_bounds(s: Seq<ColorStop>, k: u32, j: int)
    requires
        0 <= j <= s.len(),
    ensures
        j <= first_above(s, k, j) <= s.len(),
        forall|i: int| j <= i < first_above(s, k, j) ==> stop_key(s[i]) <= k,
        first_above(s, k, j) < s.len() ==> stop_key(s[first_above(s, k, j)]) > k,
    decreases s.len() - j,
{
    if j < s.len() && stop_key(s[j]) <= k {
        lemma_first_above_bounds(s, k, j + 1);
    }
}

/// A run from `j` to `p` of stops whose key is not above `k`, ended by the
/// end of the list or a stop above `k`, makes `p` the result of `first_above`.
proof fn lemma_first_above_at(s: Seq<ColorStop>, k: u32, j: int, p: int)
    requires
        0 <= j <= p <= s.len(),
        forall|i: int| j <= i < p ==> stop_key(s[i]) <= k,
        p < s.len() ==> stop_key(s[p]) > k,
    ensures
        first_above(s, k, j) == p,
    decreases p - j,
{
    if j < p {
        lemma_first_above_at(s, k, j + 1, p);
    }
}

/// Likewise for `first_not_below`.
proof fn lemma_first_not_below_at(s: Seq<ColorStop>, k: u32, j: int, p: int)
    requires
        0 <= j <= p <= s.len(),
        forall|i: int| j <= i < p ==> stop_key(s[i]) < k,
        p < s.len() ==> stop_key(s[p]) >= k,
    ensures
        first_not_below(s, k, j) == p,
    decreases p - j,
{
    if j < p {
        lemma_first_not_below_at(s, k, j + 1, p);
    }
}

/// Sampling an ordered stop list at or below the first offset gives the
/// first stop's color, and above the last offset the last stop's color.
pub proof fn lemma_sample_outside_stops(s: Seq<ColorStop>, t: u32)
    requires
        stops_sorted(s),
        s.len() > 0,
    ensures
        offset_key(t) <= stop_key(s[0]) ==> sample_of(s, t) == Sample::Color(s[0].color),
        offset_key(t) > stop_key(s[s.len() - 1]) ==> sample_of(s, t) == Sample::Color(
            s[s.len() - 1].color,
        ),
{
    let k = offset_key(t);
    if k <= stop_key(s[0]) {
        lemma_first_not_below_at(s, k, 0, 0);
    }
    if k > stop_key(s[s.len() - 1]) {
        assert forall|i: int| 0 <= i < s.len() implies stop_key(s[i]) < k by {
            assert(stop_key(s[i]) <= stop_key(s[s.len() - 1]));
        }
        lemma_first_not_below_at(s, k, 0, s.len() as int);
    }
}

/// Two stops added one after the other at an offset that no stop of an
/// ordered list holds yet: sampling at that offset gives the color of the
/// one added first.
pub proof fn lemma_equal_offsets_first_added_wins(s: Seq<ColorStop>, a: ColorStop, b: ColorStop)
    requires
        stops_sorted(s),
        a.offset_bits == b.offset_bits,
        forall|i: int| 0 <= i < s.len() ==> stop_key(s[i]) != stop_key(a),
    ensures
        ({
            let s2 = s.insert(first_above(s, stop_key(a), 0), a);
            let s3 = s2.insert(first_above(s2, stop_key(b), 0), b);
            sample_of(s3, a.offset_bits) == Sample::Color(a.color)
        }),
{
    let k = stop_key(a);
    lemma_first_above_bounds(s, k, 0);
    let p = first_above(s, k, 0);
    assert forall|i: int| 0 <= i < p implies stop_key(s[i]) < k by {}
    assert forall|i: int| p <= i < s.len() implies stop_key(s[i]) > k by {
        assert(stop_key(s[p]) <= stop_key(s[i]));
    }
    let s2 = s.insert(p, a);
    assert forall|i: int| 0 <= i < p + 1 implies stop_key(s2[i]) <= k by {
        if i < p {
            assert(s2[i] == s[i]);
        }
    }
    if p + 1 < s2.len() {
        assert(s2[p + 1] == s[p]);
    }
    lemma_first_above_at(s2, k, 0, p + 1);
    let s3 = s2.insert(p + 1, b);
    assert forall|i: int| 0 <= i < p implies stop_key(s3[i]) < k by {
        assert(s3[i] == s[i]);
    }
    assert(s3[p] == a);
    lemma_first_not_below_at(s3, k, 0, p);
}

} // verus!
