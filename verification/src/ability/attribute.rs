use vstd::prelude::*;

verus! {

/// The kinds of character attributes.
#[derive(Debug, Clone, Copy, PartialEq, Eq, Hash, Structural)]
pub enum AttributeType {
    HealthPoints,
    ManaPoints,
}

/// A bounded character attribute.
#[derive(Debug, Clone, Copy, PartialEq, Eq, Hash, Structural)]
pub struct Attribute {
    pub attribute_type: AttributeType,
    pub max_value: i32,
    pub min_value: i32,
    pub current_value: i32,
}

} // verus!
