//! The types that an XPath evaluation can produce.
use vstd::prelude::*;

verus! {

/// A type within XPath's evaluation.
#[derive(Clone, Copy, Debug, PartialEq, Eq, Structural)]
pub enum XPathType {
    Boolean,
    Integer,
    Decimal,
    Float,
    Double,
    String,
    Sequence,
    NoValue,
}

/// What can say which type it evaluates to.
pub trait XPathTypedOutput {
    /// The type that this value evaluates to.
    fn get_output_type(&self) -> XPathType;
}

} // verus!
