//! The canonicalization errors. Each names the construct it arose in by
//! the region of that construct's name.
use vstd::prelude::*;

use crate::reporting::Region;

verus! {

#[derive(Debug, Clone, Copy, PartialEq, Eq, Structural)]
pub enum Error {
    BadRecord(Region, Record),
    BadEnum(Region, Enum),
    BadService(Region, Service),
    /// A second declaration with a name already declared in the module.
    DuplicateName(Region),
}

#[derive(Debug, Clone, Copy, PartialEq, Eq, Structural)]
pub enum Record {
    BadProperty(Region, Property),
    BadAnnotation(Annotation),
    /// The properties' constraints depend on each other in a cycle; the
    /// region is that of a property on or behind the cycle.
    DependencyCycle(Region),
}

#[derive(Debug, Clone, Copy, PartialEq, Eq, Structural)]
pub enum Enum {
    BadVariant(Region, Variant),
    BadAnnotation(Annotation),
}

#[derive(Debug, Clone, Copy, PartialEq, Eq, Structural)]
pub enum Variant {
    BadProperty(Region, Property),
    BadAnnotation(Annotation),
}

#[derive(Debug, Clone, Copy, PartialEq, Eq, Structural)]
pub enum Service {
    BadMethod(Region, Method),
    BadAnnotation(Annotation),
}

#[derive(Debug, Clone, Copy, PartialEq, Eq, Structural)]
pub enum Method {
    BadParameter(Region, Parameter),
    BadAnnotation(Annotation),
}

#[derive(Debug, Clone, Copy, PartialEq, Eq, Structural)]
pub enum Parameter {
    BadAnnotation(Annotation),
}

#[derive(Debug, Clone, Copy, PartialEq, Eq, Structural)]
pub enum Property {
    BadAnnotation(Annotation),
}

#[derive(Debug, Clone, Copy, PartialEq, Eq, Structural)]
pub enum Annotation {
    /// A bare symbol in a constraint that is neither an operator nor a
    /// property access `.name`.
    UnknownSymbol(Region),
    /// An annotation `#()`.
    Empty(Region),
    /// A `check` annotation where constraints have no meaning.
    InvalidAnnotation(Region),
    /// A list in a constraint that does not start with an operator, or an
    /// unary operator without its operand.
    Unsupported(Region),
}

} // verus!
