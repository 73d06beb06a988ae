use vstd::prelude::*;

pub mod color;
pub mod convert;
pub mod dispatch;
pub mod hue;
pub mod mapper;
pub mod palette;

verus! {

/// Clamp a value into the inclusive range given by `min` and `max`.
pub fn clamp(a: i64, min: i64, max: i64) -> (r: i64)
    ensures
        r == if a < min { min } else if a > max { max } else { a },
{
    if a < min {
        min
    } else if a > max {
        max
    } else {
        a
    }
}

} // verus!
