//! The sixteen fixed rendering layers, their two-digit prefix codes, and the
//! mutual-exclusion slots that some layers belong to.

use vstd::prelude::*;

verus! {

/// Base family of a part file name. Only one family exists today; the field
/// is reserved for future sprite families.
#[derive(Debug, Clone, Copy, PartialEq, Eq, Structural)]
pub enum BaseType {
    Fbas,
}

/// One of the sixteen z-ordered rendering layers of the paper doll, in
/// draw order from undermost to overmost.
#[derive(Debug, Clone, Copy, PartialEq, Eq, Structural)]
pub enum LayerCode {
    Undr00,
    Body01,
    Sock02,
    Fot103,
    Lwr104,
    Shrt05,
    Lwr206,
    Fot207,
    Lwr308,
    Hand09,
    Outr10,
    Neck11,
    Face12,
    Hair13,
    Head14,
    Over15,
}

/// A mutual-exclusion group: at most one part whose layer belongs to the
/// group may be worn at a time, across all layers of the group.
#[derive(Debug, Clone, Copy, PartialEq, Eq, Structural)]
pub enum Slot {
    Lower,
    Footwear,
    Head,
}

/// Special marker parsed from a trailing `_e` file-name segment: the part
/// requires exclusive use of the head/hair region.
#[derive(Debug, Clone, Copy, PartialEq, Eq, Structural)]
pub enum Special {
    E,
}

/// Position of a layer in the fixed draw order, `0` to `15`.
pub open spec fn spec_layer_index(layer: LayerCode) -> int {
    match layer {
        LayerCode::Undr00 => 0,
        LayerCode::Body01 => 1,
        LayerCode::Sock02 => 2,
        LayerCode::Fot103 => 3,
        LayerCode::Lwr104 => 4,
        LayerCode::Shrt05 => 5,
        LayerCode::Lwr206 => 6,
        LayerCode::Fot207 => 7,
        LayerCode::Lwr308 => 8,
        LayerCode::Hand09 => 9,
        LayerCode::Outr10 => 10,
        LayerCode::Neck11 => 11,
        LayerCode::Face12 => 12,
        LayerCode::Hair13 => 13,
        LayerCode::Head14 => 14,
        LayerCode::Over15 => 15,
    }
}

/// Number of layers.
pub const LAYER_COUNT: usize = 16;

pub fn layer_index(layer: LayerCode) -> (r: usize)
    ensures
        r == spec_layer_index(layer),
        r < 16,
{
    match layer {
        LayerCode::Undr00 => 0,
        LayerCode::Body01 => 1,
        LayerCode::Sock02 => 2,
        LayerCode::Fot103 => 3,
        LayerCode::Lwr104 => 4,
        LayerCode::Shrt05 => 5,
        LayerCode::Lwr206 => 6,
        LayerCode::Fot207 => 7,
        LayerCode::Lwr308 => 8,
        LayerCode::Hand09 => 9,
        LayerCode::Outr10 => 10,
        LayerCode::Neck11 => 11,
        LayerCode::Face12 => 12,
        LayerCode::Hair13 => 13,
        LayerCode::Head14 => 14,
        LayerCode::Over15 => 15,
    }
}

/// The layer standing at a given position of the draw order.
pub open spec fn spec_layer_from_index(i: int) -> LayerCode {
    if i == 0 {
        LayerCode::Undr00
    } else if i == 1 {
        LayerCode::Body01
    } else if i == 2 {
        LayerCode::Sock02
    } else if i == 3 {
        LayerCode::Fot103
    } else if i == 4 {
        LayerCode::Lwr104
    } else if i == 5 {
        LayerCode::Shrt05
    } else if i == 6 {
        LayerCode::Lwr206
    } else if i == 7 {
        LayerCode::Fot207
    } else if i == 8 {
        LayerCode::Lwr308
    } else if i == 9 {
        LayerCode::Hand09
    } else if i == 10 {
        LayerCode::Outr10
    } else if i == 11 {
        LayerCode::Neck11
    } else if i == 12 {
        LayerCode::Face12
    } else if i == 13 {
        LayerCode::Hair13
    } else if i == 14 {
        LayerCode::Head14
    } else {
        LayerCode::Over15
    }
}

pub fn layer_from_index(i: usize) -> (r: LayerCode)
    requires
        i < 16,
    ensures
        r == spec_layer_from_index(i as int),
        spec_layer_index(r) == i,
{
    if i == 0 {
        LayerCode::Undr00
    } else if i == 1 {
        LayerCode::Body01
    } else if i == 2 {
        LayerCode::Sock02
    } else if i == 3 {
        LayerCode::Fot103
    } else if i == 4 {
        LayerCode::Lwr104
    } else if i == 5 {
        LayerCode::Shrt05
    } else if i == 6 {
        LayerCode::Lwr206
    } else if i == 7 {
        LayerCode::Fot207
    } else if i == 8 {
        LayerCode::Lwr308
    } else if i == 9 {
        LayerCode::Hand09
    } else if i == 10 {
        LayerCode::Outr10
    } else if i == 11 {
        LayerCode::Neck11
    } else if i == 12 {
        LayerCode::Face12
    } else if i == 13 {
        LayerCode::Hair13
    } else if i == 14 {
        LayerCode::Head14
    } else {
        LayerCode::Over15
    }
}

/// Round trip between a layer and its draw-order position.
pub proof fn lemma_layer_index_round_trip(layer: LayerCode)
    ensures
        spec_layer_from_index(spec_layer_index(layer)) == layer,
{
}

/// The fixed two-digit-prefixed code that names a layer inside a part
/// file name, for example `"01body"`.
pub open spec fn spec_layer_code_str(layer: LayerCode) -> Seq<char> {
    match layer {
        LayerCode::Undr00 => "00undr"@,
        LayerCode::Body01 => "01body"@,
        LayerCode::Sock02 => "02sock"@,
        LayerCode::Fot103 => "03fot1"@,
        LayerCode::Lwr104 => "04lwr1"@,
        LayerCode::Shrt05 => "05shrt"@,
        LayerCode::Lwr206 => "06lwr2"@,
        LayerCode::Fot207 => "07fot2"@,
        LayerCode::Lwr308 => "08lwr3"@,
        LayerCode::Hand09 => "09hand"@,
        LayerCode::Outr10 => "10outr"@,
        LayerCode::Neck11 => "11neck"@,
        LayerCode::Face12 => "12face"@,
        LayerCode::Hair13 => "13hair"@,
        LayerCode::Head14 => "14head"@,
        LayerCode::Over15 => "15over"@,
    }
}

impl LayerCode {
    /// The code string of this layer, as it appears in file names and part keys.
    pub fn as_str(self) -> (r: &'static str)
        ensures
            r@ == spec_layer_code_str(self),
    {
        match self {
            LayerCode::Undr00 => "00undr",
            LayerCode::Body01 => "01body",
            LayerCode::Sock02 => "02sock",
            LayerCode::Fot103 => "03fot1",
            LayerCode::Lwr104 => "04lwr1",
            LayerCode::Shrt05 => "05shrt",
            LayerCode::Lwr206 => "06lwr2",
            LayerCode::Fot207 => "07fot2",
            LayerCode::Lwr308 => "08lwr3",
            LayerCode::Hand09 => "09hand",
            LayerCode::Outr10 => "10outr",
            LayerCode::Neck11 => "11neck",
            LayerCode::Face12 => "12face",
            LayerCode::Hair13 => "13hair",
            LayerCode::Head14 => "14head",
            LayerCode::Over15 => "15over",
        }
    }
}

/// The slot a layer belongs to, if any: the three lower-garment layers
/// share `Lower`, the two footwear layers share `Footwear`, and the head
/// layer owns `Head`. All other layers co-equip freely.
pub open spec fn spec_slot_for_layer(layer: LayerCode) -> Option<Slot> {
    match layer {
        LayerCode::Lwr104 => Some(Slot::Lower),
        LayerCode::Lwr206 => Some(Slot::Lower),
        LayerCode::Lwr308 => Some(Slot::Lower),
        LayerCode::Fot103 => Some(Slot::Footwear),
        LayerCode::Fot207 => Some(Slot::Footwear),
        LayerCode::Head14 => Some(Slot::Head),
        _ => None,
    }
}

#[verifier::when_used_as_spec(spec_slot_for_layer)]
pub fn slot_for_layer(layer: LayerCode) -> (r: Option<Slot>)
    ensures
        r == spec_slot_for_layer(layer),
{
    match layer {
        LayerCode::Lwr104 | LayerCode::Lwr206 | LayerCode::Lwr308 => Some(Slot::Lower),
        LayerCode::Fot103 | LayerCode::Fot207 => Some(Slot::Footwear),
        LayerCode::Head14 => Some(Slot::Head),
        _ => None,
    }
}

} // verus!
