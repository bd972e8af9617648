use vstd::prelude::*;

verus! {

/// `pathfinder_color::ColorU`: four 8-bit channels, all public fields.
#[verifier::external_type_specification]
pub struct ExColorU(pathfinder_color::ColorU);

/// Relies on `ColorU::black`: zero color channels and a full alpha.
pub assume_specification[ pathfinder_color::ColorU::black ]() -> (c: pathfinder_color::ColorU)
    ensures
        c.r == 0 && c.g == 0 && c.b == 0 && c.a == 255,
;

/// Relies on `ColorU::transparent_black`: every channel zero.
pub assume_specification[ pathfinder_color::ColorU::transparent_black ]() -> (c: pathfinder_color::ColorU)
    ensures
        c.r == 0 && c.g == 0 && c.b == 0 && c.a == 0,
;

/// Relies on `ColorU`'s derived `Clone`: a copy of the four channels.
pub assume_specification[ <pathfinder_color::ColorU as Clone>::clone ](c: &pathfinder_color::ColorU) -> (r: pathfinder_color::ColorU)
    ensures
        r == *c,
;

/// Relies on `ColorU::is_opaque`, which compares alpha with `!0`.
pub assume_specification[ pathfinder_color::ColorU::is_opaque ](c: &pathfinder_color::ColorU) -> (r: bool)
    ensures
        r == (c.a == 255),
;

/// Relies on `ColorU::is_fully_transparent`, which compares alpha with zero.
pub assume_specification[ pathfinder_color::ColorU::is_fully_transparent ](c: &pathfinder_color::ColorU) -> (r: bool)
    ensures
        r == (c.a == 0),
;

} // verus!
