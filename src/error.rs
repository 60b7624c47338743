use vstd::prelude::*;

use crate::entities::Entity;

verus! {

/// Failure of a component-store operation.
#[derive(Clone, Copy, Debug, PartialEq, Eq, Structural)]
pub enum ComponentError {
    /// The entity has no component of this kind.
    MissingComponent(Entity),
    /// The entity already has a component of this kind.
    AlreadyExistingComponent(Entity),
}

/// The quantity a numeric check is about.
#[derive(Clone, Copy, Debug, PartialEq, Eq, Structural)]
pub enum Quantity {
    Width,
    Height,
    Mass,
    Radius,
    Position,
    Velocity,
    Force,
    Vertices,
}

/// Failure of a numeric precondition checked at construction.
#[derive(Clone, Copy, Debug, PartialEq, Eq, Structural)]
pub enum MathError {
    /// The quantity must be positive.
    NonPositive(Quantity),
    /// The quantity lies outside the bounds the fixed-point arithmetic supports.
    OutOfRange(Quantity),
}

/// Failure of shape validation.
#[derive(Clone, Copy, Debug, PartialEq, Eq, Structural)]
pub enum GeometryError {
    TooFewVertices(usize),
    DuplicateVertices,
    NotConvex,
}

/// Any failure the library reports.
#[derive(Clone, Copy, Debug, PartialEq, Eq, Structural)]
pub enum EngineError {
    ComponentError(ComponentError),
    MathError(MathError),
    GeometryError(GeometryError),
}

/// The name of a quantity as it appears in messages.
pub open spec fn quantity_name(q: Quantity) -> Seq<char> {
    match q {
        Quantity::Width => "width"@,
        Quantity::Height => "height"@,
        Quantity::Mass => "mass"@,
        Quantity::Radius => "radius"@,
        Quantity::Position => "position"@,
        Quantity::Velocity => "velocity"@,
        Quantity::Force => "force"@,
        Quantity::Vertices => "vertices"@,
    }
}

impl Quantity {
    /// The quantity's name as it appears in messages.
    pub fn name(&self) -> (r: &'static str)
        ensures
            r@ == quantity_name(*self),
    {
        match self {
            Quantity::Width => "width",
            Quantity::Height => "height",
            Quantity::Mass => "mass",
            Quantity::Radius => "radius",
            Quantity::Position => "position",
            Quantity::Velocity => "velocity",
            Quantity::Force => "force",
            Quantity::Vertices => "vertices",
        }
    }
}

} // verus!
