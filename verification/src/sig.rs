//! The signature data model: an ordered triple of brightness, horizontal
//! edge energy and vertical edge energy, kept in integer units.
//!
//! Raw signatures (as the extractor produces them) count intensity in units
//! of 1/255, so a fully white pixel contributes 255 to the brightness
//! component. Normalization rescales components onto `0 ..= SCALE`.

use vstd::prelude::*;

verus! {

/// Scale of a normalized signature component: after normalization a
/// component lies in `0 ..= SCALE` (the integer stand-in for the unit
/// interval).
pub const SCALE: u32 = 65536;

/// A cell or glyph signature: brightness, horizontal edge energy and
/// vertical edge energy. The component order is fixed; every signature in a
/// run uses the same order.
#[derive(Clone, Copy, PartialEq, Eq, Structural, Debug)]
pub struct Sig {
    pub b: u32,
    pub ex: u32,
    pub ey: u32,
}

/// Names one of the three signature components, for contracts that speak of
/// each component independently.
#[derive(Clone, Copy, PartialEq, Eq, Structural, Debug)]
pub enum Comp {
    B,
    Ex,
    Ey,
}

impl Sig {
    /// The selected component of this signature.
    pub open spec fn comp(self, c: Comp) -> u32 {
        match c {
            Comp::B => self.b,
            Comp::Ex => self.ex,
            Comp::Ey => self.ey,
        }
    }
}

} // verus!
