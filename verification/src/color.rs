use vstd::prelude::*;

verus! {

/// An RGB color triple; the alpha channel of sampled colors is fixed at full
/// coverage and is never consulted, so it is not carried.
#[derive(Clone, Copy, PartialEq, Eq, Structural, Debug)]
pub struct Rgb {
    pub r: u8,
    pub g: u8,
    pub b: u8,
}

/// The hue/saturation/brightness triple sent to one light.
#[derive(Clone, Copy, PartialEq, Eq, Structural, Debug)]
pub struct LightCommand {
    pub hue: u16,
    pub sat: u8,
    pub bri: u8,
}

} // verus!
