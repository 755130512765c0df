use vstd::prelude::*;

verus! {

/// The closed set of semantic types a property can resolve to.
///
/// The declaration order is also the cascade's evaluation order: earlier
/// variants are narrower and are tried first, `Str` is the unconditional
/// fallback that accepts any value.
#[derive(Clone, Copy, Debug, PartialEq, Eq, Structural)]
pub enum EntityPropertyType {
    Bool,
    Negated,
    U8,
    U16,
    U32,
    I32,
    F32,
    Color,
    LightColor,
    Angles,
    Vector,
    Str,
}

impl EntityPropertyType {
    /// Position of the type in the cascade's fixed evaluation order.
    pub open spec fn rank(self) -> int {
        match self {
            EntityPropertyType::Bool => 0,
            EntityPropertyType::Negated => 1,
            EntityPropertyType::U8 => 2,
            EntityPropertyType::U16 => 3,
            EntityPropertyType::U32 => 4,
            EntityPropertyType::I32 => 5,
            EntityPropertyType::F32 => 6,
            EntityPropertyType::Color => 7,
            EntityPropertyType::LightColor => 8,
            EntityPropertyType::Angles => 9,
            EntityPropertyType::Vector => 10,
            EntityPropertyType::Str => 11,
        }
    }
}

/// The candidates the cascade counts successes for, in evaluation order.
/// `Str` is not listed: it is the fallback and is never counted.
pub open spec fn cascade_order() -> Seq<EntityPropertyType> {
    seq![
        EntityPropertyType::Bool,
        EntityPropertyType::Negated,
        EntityPropertyType::U8,
        EntityPropertyType::U16,
        EntityPropertyType::U32,
        EntityPropertyType::I32,
        EntityPropertyType::F32,
        EntityPropertyType::Color,
        EntityPropertyType::LightColor,
        EntityPropertyType::Angles,
        EntityPropertyType::Vector,
    ]
}

} // verus!
