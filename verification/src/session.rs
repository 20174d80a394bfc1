use vstd::prelude::*;

use crate::types::{PageOrder, Rotation, ScaleMode};

verus! {

/// How a rotation is stored: its angle in degrees.
pub open spec fn spec_rotation_degrees(r: Rotation) -> i64 {
    match r {
        Rotation::R0 => 0,
        Rotation::R90 => 90,
        Rotation::R180 => 180,
        Rotation::R270 => 270,
    }
}

/// The rotation a stored angle stands for; any angle but 90, 180 or 270 is
/// read as no rotation.
pub open spec fn spec_rotation_of_degrees(d: i64) -> Rotation {
    if d == 90 {
        Rotation::R90
    } else if d == 180 {
        Rotation::R180
    } else if d == 270 {
        Rotation::R270
    } else {
        Rotation::R0
    }
}

/// How a scale mode is stored.
pub open spec fn spec_scale_mode_code(m: ScaleMode) -> i64 {
    match m {
        ScaleMode::Original => 0,
        ScaleMode::FitWindow => 1,
        ScaleMode::FitWidth => 2,
    }
}

/// The scale mode a stored code stands for; unknown codes are read as
/// fitting the window.
pub open spec fn spec_scale_mode_of_code(c: i64) -> ScaleMode {
    if c == 0 {
        ScaleMode::Original
    } else if c == 2 {
        ScaleMode::FitWidth
    } else {
        ScaleMode::FitWindow
    }
}

/// Angle stored for a rotation in the session store.
pub fn rotation_to_degrees(r: Rotation) -> (d: i64)
    ensures
        d == spec_rotation_degrees(r),
{
    match r {
        Rotation::R0 => 0,
        Rotation::R90 => 90,
        Rotation::R180 => 180,
        Rotation::R270 => 270,
    }
}

/// Rotation read back from a stored angle.
pub fn rotation_from_degrees(d: i64) -> (r: Rotation)
    ensures
        r == spec_rotation_of_degrees(d),
{
    match d {
        90 => Rotation::R90,
        180 => Rotation::R180,
        270 => Rotation::R270,
        _ => Rotation::R0,
    }
}

/// Code stored for a scale mode in the session store.
pub fn scale_mode_to_code(m: ScaleMode) -> (c: i64)
    ensures
        c == spec_scale_mode_code(m),
{
    match m {
        ScaleMode::Original => 0,
        ScaleMode::FitWindow => 1,
        ScaleMode::FitWidth => 2,
    }
}

/// Scale mode read back from a stored code.
pub fn scale_mode_from_code(c: i64) -> (m: ScaleMode)
    ensures
        m == spec_scale_mode_of_code(c),
{
    match c {
        0 => ScaleMode::Original,
        2 => ScaleMode::FitWidth,
        _ => ScaleMode::FitWindow,
    }
}

/// Flag stored for a page order: set for right-to-left reading.
pub fn page_order_to_flag(o: PageOrder) -> (f: bool)
    ensures
        f == (o == PageOrder::RightToLeft),
{
    match o {
        PageOrder::LeftToRight => false,
        PageOrder::RightToLeft => true,
    }
}

/// Page order read back from a stored flag.
pub fn page_order_from_flag(f: bool) -> (o: PageOrder)
    ensures
        o == if f {
            PageOrder::RightToLeft
        } else {
            PageOrder::LeftToRight
        },
{
    if f {
        PageOrder::RightToLeft
    } else {
        PageOrder::LeftToRight
    }
}

/// What is saved for a session is loaded back: storing the rotation, scale
/// mode and page order and reading them again gives the same values.
pub proof fn law_session_fields_round_trip(r: Rotation, m: ScaleMode, o: PageOrder)
    ensures
        spec_rotation_of_degrees(spec_rotation_degrees(r)) == r,
        spec_scale_mode_of_code(spec_scale_mode_code(m)) == m,
        (if (o == PageOrder::RightToLeft) {
            PageOrder::RightToLeft
        } else {
            PageOrder::LeftToRight
        }) == o,
{
}

} // verus!
