use vstd::prelude::*;

use crate::span::Span;

verus! {

/// The structural shape of a value expression, as far as the resolver needs to
/// compare it against a declared expectation: scalar kinds, function shapes
/// with an argument count and a result shape, attribute collections (the only
/// shape a spread accepts), and opaque named types.
pub enum TypeShape {
    IntShape,
    StrShape,
    BoolShape,
    UnitShape,
    FnShape { arity: u32, ret: Box<TypeShape> },
    AttrListShape,
    NamedShape { id: u64 },
}

impl Clone for TypeShape {
    fn clone(&self) -> (r: Self)
        ensures
            r == *self,
        decreases *self,
    {
        match self {
            TypeShape::IntShape => TypeShape::IntShape,
            TypeShape::StrShape => TypeShape::StrShape,
            TypeShape::BoolShape => TypeShape::BoolShape,
            TypeShape::UnitShape => TypeShape::UnitShape,
            TypeShape::FnShape { arity, ret } => TypeShape::FnShape {
                arity: *arity,
                ret: Box::new((**ret).clone()),
            },
            TypeShape::AttrListShape => TypeShape::AttrListShape,
            TypeShape::NamedShape { id } => TypeShape::NamedShape { id: *id },
        }
    }
}

pub fn shape_eq(a: &TypeShape, b: &TypeShape) -> (r: bool)
    ensures
        r == (a == b),
    decreases *a,
{
    match (a, b) {
        (TypeShape::IntShape, TypeShape::IntShape) => true,
        (TypeShape::StrShape, TypeShape::StrShape) => true,
        (TypeShape::BoolShape, TypeShape::BoolShape) => true,
        (TypeShape::UnitShape, TypeShape::UnitShape) => true,
        (TypeShape::FnShape { arity: a1, ret: r1 }, TypeShape::FnShape { arity: a2, ret: r2 }) => {
            *a1 == *a2 && shape_eq(r1, r2)
        },
        (TypeShape::AttrListShape, TypeShape::AttrListShape) => true,
        (TypeShape::NamedShape { id: i1 }, TypeShape::NamedShape { id: i2 }) => *i1 == *i2,
        _ => false,
    }
}

/// Whether a value of this shape satisfies the host's renderable capability:
/// scalars and unit render directly, and a zero-argument function rendering
/// its result renders too. Opaque named types and attribute lists do not.
pub open spec fn renderable(s: TypeShape) -> bool
    decreases s,
{
    match s {
        TypeShape::IntShape => true,
        TypeShape::StrShape => true,
        TypeShape::BoolShape => true,
        TypeShape::UnitShape => true,
        TypeShape::FnShape { arity, ret } => arity == 0 && renderable(*ret),
        TypeShape::AttrListShape => false,
        TypeShape::NamedShape { .. } => false,
    }
}

pub fn is_renderable(s: &TypeShape) -> (r: bool)
    ensures
        r == renderable(*s),
    decreases *s,
{
    match s {
        TypeShape::IntShape => true,
        TypeShape::StrShape => true,
        TypeShape::BoolShape => true,
        TypeShape::UnitShape => true,
        TypeShape::FnShape { arity, ret } => *arity == 0 && is_renderable(ret),
        TypeShape::AttrListShape => false,
        TypeShape::NamedShape { .. } => false,
    }
}

/// Whether a shape is acceptable as an event handler: a one-argument function
/// (taking the event) whose result is unit.
pub open spec fn event_handler_ok(s: TypeShape) -> bool {
    match s {
        TypeShape::FnShape { arity, ret } => arity == 1 && *ret == TypeShape::UnitShape,
        _ => false,
    }
}

pub fn is_event_handler(s: &TypeShape) -> (r: bool)
    ensures
        r == event_handler_ok(*s),
{
    match s {
        TypeShape::FnShape { arity, ret } => *arity == 1 && shape_eq(ret, &TypeShape::UnitShape),
        _ => false,
    }
}

/// An inline value expression: the source range it occupies and its shape.
pub struct Expr {
    pub span: Span,
    pub shape: TypeShape,
}

impl Clone for Expr {
    fn clone(&self) -> (r: Self)
        ensures
            r == *self,
    {
        Expr { span: self.span, shape: self.shape.clone() }
    }
}

} // verus!
