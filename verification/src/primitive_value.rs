//! The resolved-value model of CSS declarations.
//!
//! A [`PrimitiveValue`] is a tagged value: a color, an identifier, a
//! string, a dimension (a milli-pixel magnitude with a unit), or no
//! value at all (the result of a failed parse or an absent property).

use vstd::prelude::*;
use crate::color::Color;

verus! {

/// The tag of a [`PrimitiveValue`].
#[derive(Debug, Clone, Copy, PartialEq, Eq, Structural)]
pub enum PrimitiveValueKind {
    Identifier,
    Color,
    String,
    DimensionValue,
    NoValue,
}

/// A numeric magnitude in milli-pixels paired with its unit text.
#[derive(Debug)]
pub struct DimensionValue {
    pub value: i64,
    pub dimension: String,
}

/// Mathematical model of a [`DimensionValue`].
#[verifier::ext_equal]
pub struct DimensionValueModel {
    pub value: i64,
    pub dimension: Seq<char>,
}

impl View for DimensionValue {
    type V = DimensionValueModel;

    open spec fn view(&self) -> DimensionValueModel {
        DimensionValueModel { value: self.value, dimension: self.dimension@ }
    }
}

impl DimensionValue {
    /// An exact copy.
    pub fn duplicate(&self) -> (r: DimensionValue)
        ensures
            r@ == self@,
    {
        DimensionValue { value: self.value, dimension: self.dimension.clone() }
    }

    /// The zero magnitude with an empty unit.
    pub fn default() -> (r: DimensionValue)
        ensures
            r@ == (DimensionValueModel { value: 0, dimension: Seq::<char>::empty() }),
    {
        DimensionValue { value: 0, dimension: String::new() }
    }
}

/// A resolved CSS value: its kind, its literal text, and the decoded
/// color or dimension payload where the kind carries one.
#[derive(Debug)]
pub struct PrimitiveValue {
    pub kind: PrimitiveValueKind,
    pub value: String,
    color: Color,
    dimension_value: DimensionValue,
}

/// Mathematical model of a [`PrimitiveValue`].
#[verifier::ext_equal]
pub struct PrimitiveValueModel {
    pub kind: PrimitiveValueKind,
    pub value: Seq<char>,
    pub color: Color,
    pub dimension_value: DimensionValueModel,
}

impl View for PrimitiveValue {
    type V = PrimitiveValueModel;

    closed spec fn view(&self) -> PrimitiveValueModel {
        PrimitiveValueModel {
            kind: self.kind,
            value: self.value@,
            color: self.color,
            dimension_value: self.dimension_value@,
        }
    }
}

/// Model of the absent value.
pub open spec fn spec_value_none() -> PrimitiveValueModel {
    PrimitiveValueModel {
        kind: PrimitiveValueKind::NoValue,
        value: Seq::<char>::empty(),
        color: Color { red: 0, green: 0, blue: 0, alpha: 0 },
        dimension_value: DimensionValueModel { value: 0, dimension: Seq::<char>::empty() },
    }
}

/// Model of a color value with the given literal text.
pub open spec fn spec_value_color(value: Seq<char>, color: Color) -> PrimitiveValueModel {
    PrimitiveValueModel {
        kind: PrimitiveValueKind::Color,
        value: value,
        color: color,
        dimension_value: DimensionValueModel { value: 0, dimension: Seq::<char>::empty() },
    }
}

/// Model of a string value.
pub open spec fn spec_value_string(value: Seq<char>) -> PrimitiveValueModel {
    PrimitiveValueModel {
        kind: PrimitiveValueKind::String,
        value: value,
        color: Color { red: 0, green: 0, blue: 0, alpha: 0 },
        dimension_value: DimensionValueModel { value: 0, dimension: Seq::<char>::empty() },
    }
}

/// Model of an identifier value.
pub open spec fn spec_value_identifier(value: Seq<char>) -> PrimitiveValueModel {
    PrimitiveValueModel {
        kind: PrimitiveValueKind::Identifier,
        value: value,
        color: Color { red: 0, green: 0, blue: 0, alpha: 0 },
        dimension_value: DimensionValueModel { value: 0, dimension: Seq::<char>::empty() },
    }
}

/// Model of a dimension value: the full literal text, the milli-pixel
/// magnitude and the unit text.
pub open spec fn spec_value_dimension(full: Seq<char>, value: i64, dimension: Seq<char>) -> PrimitiveValueModel {
    PrimitiveValueModel {
        kind: PrimitiveValueKind::DimensionValue,
        value: full,
        color: Color { red: 0, green: 0, blue: 0, alpha: 0 },
        dimension_value: DimensionValueModel { value: value, dimension: dimension },
    }
}

impl PrimitiveValue {
    /// The color payload (meaningful on `Color` values).
    pub fn as_color(&self) -> (c: &Color)
        ensures
            *c == self@.color,
    {
        &self.color
    }

    /// The literal text.
    pub fn as_string(&self) -> (s: &String)
        ensures
            s@ == self@.value,
    {
        &self.value
    }

    /// The dimension payload (meaningful on `DimensionValue` values).
    pub fn as_dimension_value(&self) -> (d: &DimensionValue)
        ensures
            d@ == self@.dimension_value,
    {
        &self.dimension_value
    }

    /// Whether this is a color value.
    pub fn is_color(&self) -> (r: bool)
        ensures
            r == (self@.kind == PrimitiveValueKind::Color),
    {
        self.kind == PrimitiveValueKind::Color
    }

    /// Whether this is a string value.
    pub fn is_string(&self) -> (r: bool)
        ensures
            r == (self@.kind == PrimitiveValueKind::String),
    {
        self.kind == PrimitiveValueKind::String
    }

    /// Whether this is a dimension value.
    pub fn is_dimension_value(&self) -> (r: bool)
        ensures
            r == (self@.kind == PrimitiveValueKind::DimensionValue),
    {
        self.kind == PrimitiveValueKind::DimensionValue
    }

    /// Whether this is an identifier value.
    pub fn is_identifier(&self) -> (r: bool)
        ensures
            r == (self@.kind == PrimitiveValueKind::Identifier),
    {
        self.kind == PrimitiveValueKind::Identifier
    }

    /// Whether this is the absent value.
    pub fn is_none(&self) -> (r: bool)
        ensures
            r == (self@.kind == PrimitiveValueKind::NoValue),
    {
        self.kind == PrimitiveValueKind::NoValue
    }

    /// Whether the literal text is non-empty.
    pub fn has_value(&self) -> (r: bool)
        ensures
            r == (self@.value.len() != 0),
    {
        !self.value.as_str().is_empty()
    }

    /// An exact copy.
    pub fn duplicate(&self) -> (r: PrimitiveValue)
        ensures
            r@ == self@,
    {
        PrimitiveValue {
            kind: self.kind,
            value: self.value.clone(),
            color: self.color,
            dimension_value: self.dimension_value.duplicate(),
        }
    }

    /// A color value with the given literal text.
    pub fn from_color(value: &String, color: Color) -> (r: PrimitiveValue)
        ensures
            r@ == spec_value_color(value@, color),
    {
        PrimitiveValue {
            kind: PrimitiveValueKind::Color,
            value: value.clone(),
            color: color,
            dimension_value: DimensionValue::default(),
        }
    }

    /// A string value.
    pub fn from_string(value: &String) -> (r: PrimitiveValue)
        ensures
            r@ == spec_value_string(value@),
    {
        PrimitiveValue {
            kind: PrimitiveValueKind::String,
            value: value.clone(),
            color: Color { red: 0, green: 0, blue: 0, alpha: 0 },
            dimension_value: DimensionValue::default(),
        }
    }

    /// A dimension value carrying its full literal text, its magnitude
    /// in milli-pixels, and its unit text.
    pub fn from_dimension_value(full_value: &String, value: i64, dimension: &String) -> (r:
        PrimitiveValue)
        ensures
            r@ == spec_value_dimension(full_value@, value, dimension@),
    {
        PrimitiveValue {
            kind: PrimitiveValueKind::DimensionValue,
            value: full_value.clone(),
            color: Color { red: 0, green: 0, blue: 0, alpha: 0 },
            dimension_value: DimensionValue { value: value, dimension: dimension.clone() },
        }
    }

    /// An identifier value.
    pub fn from_identifier(value: &String) -> (r: PrimitiveValue)
        ensures
            r@ == spec_value_identifier(value@),
    {
        PrimitiveValue {
            kind: PrimitiveValueKind::Identifier,
            value: value.clone(),
            color: Color { red: 0, green: 0, blue: 0, alpha: 0 },
            dimension_value: DimensionValue::default(),
        }
    }

    /// The absent value.
    pub fn default() -> (r: PrimitiveValue)
        ensures
            r@ == spec_value_none(),
    {
        PrimitiveValue {
            kind: PrimitiveValueKind::NoValue,
            value: String::new(),
            color: Color { red: 0, green: 0, blue: 0, alpha: 0 },
            dimension_value: DimensionValue::default(),
        }
    }
}

} // verus!
