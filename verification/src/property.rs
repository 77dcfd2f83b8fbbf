//! A parsed style declaration: a property name and its resolved value.

use vstd::prelude::*;
use crate::primitive_value::{PrimitiveValue, PrimitiveValueModel, spec_value_none};

verus! {

/// One property declaration, as the parser produces it.
#[derive(Debug)]
pub struct PropertyDeclaration {
    pub name: String,
    pub value: PrimitiveValue,
}

/// Mathematical model of a [`PropertyDeclaration`].
#[verifier::ext_equal]
pub struct PropertyDeclarationModel {
    pub name: Seq<char>,
    pub value: PrimitiveValueModel,
}

impl View for PropertyDeclaration {
    type V = PropertyDeclarationModel;

    open spec fn view(&self) -> PropertyDeclarationModel {
        PropertyDeclarationModel { name: self.name@, value: self.value@ }
    }
}

impl PropertyDeclaration {
    /// A declaration of the given property with no value yet.
    pub fn new(name: String) -> (d: PropertyDeclaration)
        ensures
            d@.name == name@,
            d@.value == spec_value_none(),
    {
        PropertyDeclaration { name: name, value: PrimitiveValue::default() }
    }

    /// An exact copy.
    pub fn duplicate(&self) -> (d: PropertyDeclaration)
        ensures
            d@ == self@,
    {
        PropertyDeclaration { name: self.name.clone(), value: self.value.duplicate() }
    }
}

} // verus!
