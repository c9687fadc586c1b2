//! The ways in which a parse can fail.
use vstd::prelude::*;

verus! {

/// What the parser was looking for where it gave up.
#[derive(Clone, Copy, Debug, PartialEq, Eq, Structural)]
pub enum Expected {
    /// An axis or a step that opens an expression.
    Expression,
    /// A `|` followed by another expression, or the end of the text.
    UnionOrEnd,
}

/// The text does not match the grammar.
#[derive(Clone, Copy, Debug, PartialEq, Eq, Structural)]
pub struct SyntaxError {
    /// The offset, in characters, at which the parser gave up.
    pub position: usize,
    pub expected: Expected,
}

impl SyntaxError {
    /// What the parser was looking for, in words.
    pub open spec fn message(self) -> Seq<char> {
        match self.expected {
            Expected::Expression => "expected an axis or a step"@,
            Expected::UnionOrEnd => "expected `|` or the end of the text"@,
        }
    }

    pub fn description(&self) -> (text: &'static str)
        ensures
            text@ == self.message(),
    {
        match self.expected {
            Expected::Expression => "expected an axis or a step",
            Expected::UnionOrEnd => "expected `|` or the end of the text",
        }
    }
}

/// The parse tree matches the grammar but breaks a rule that the grammar
/// does not enforce.
#[derive(Clone, Copy, Debug, PartialEq, Eq, Structural)]
pub enum StructuralError {
    /// The root node is not tagged as an xpath.
    RootNotXPath,
    /// An axis directly follows an axis.
    TwoAxesInARow,
    /// A step stands where no axis precedes it.
    StepWithoutAxis,
    /// A node carries a tag that has no place where it stands.
    UnexpectedNode,
    /// An expression is empty or ends in an axis.
    IncompleteExpression,
    /// The name in front of `::` is none of the axis keywords.
    UnrecognizedAxisName,
    /// An axis without a name is none of the shorthand separators.
    UnexpectedAxisToken,
    /// A step does not open with a node test.
    MissingNodeTest,
    /// The node test of a step is neither `*` nor a name.
    MalformedNodeTest,
    /// A predicate is not a run of clauses with one operator between
    /// each two.
    MalformedPredicate,
    /// A predicate joins its clauses with both `and` and `or`.
    MixedOperators,
    /// A clause is none of the tests that a predicate can hold.
    MalformedClause,
    /// An operand lacks a part, or a part of it is not what the operand
    /// needs.
    MalformedOperand,
    /// An integer literal does not fit in 64 bits.
    IntegerOutOfRange,
}

impl StructuralError {
    /// What went wrong, in words.
    pub open spec fn message(self) -> Seq<char> {
        match self {
            StructuralError::RootNotXPath => "root node is not an xpath"@,
            StructuralError::TwoAxesInARow => "two axes in a row are never valid"@,
            StructuralError::StepWithoutAxis => "a step must always be preceded by an axis"@,
            StructuralError::UnexpectedNode => "unexpected node"@,
            StructuralError::IncompleteExpression => "an expression must end in a step"@,
            StructuralError::UnrecognizedAxisName => "unrecognized axis name"@,
            StructuralError::UnexpectedAxisToken => "unexpected axis token"@,
            StructuralError::MissingNodeTest => "a step must open with a node test"@,
            StructuralError::MalformedNodeTest => "a node test must be a name or a wildcard"@,
            StructuralError::MalformedPredicate =>
                "a predicate must be clauses joined by operators"@,
            StructuralError::MixedOperators => "a predicate must not mix its operators"@,
            StructuralError::MalformedClause => "unsupported clause in a predicate"@,
            StructuralError::MalformedOperand => "malformed operand"@,
            StructuralError::IntegerOutOfRange => "integer literal out of range"@,
        }
    }

    pub fn description(&self) -> (text: &'static str)
        ensures
            text@ == self.message(),
    {
        match self {
            StructuralError::RootNotXPath => "root node is not an xpath",
            StructuralError::TwoAxesInARow => "two axes in a row are never valid",
            StructuralError::StepWithoutAxis => "a step must always be preceded by an axis",
            StructuralError::UnexpectedNode => "unexpected node",
            StructuralError::IncompleteExpression => "an expression must end in a step",
            StructuralError::UnrecognizedAxisName => "unrecognized axis name",
            StructuralError::UnexpectedAxisToken => "unexpected axis token",
            StructuralError::MissingNodeTest => "a step must open with a node test",
            StructuralError::MalformedNodeTest => "a node test must be a name or a wildcard",
            StructuralError::MalformedPredicate =>
                "a predicate must be clauses joined by operators",
            StructuralError::MixedOperators => "a predicate must not mix its operators",
            StructuralError::MalformedClause => "unsupported clause in a predicate",
            StructuralError::MalformedOperand => "malformed operand",
            StructuralError::IntegerOutOfRange => "integer literal out of range",
        }
    }
}

/// Why a text was rejected. Either kind ends the parse: there is no
/// partial result.
#[derive(Clone, Copy, Debug, PartialEq, Eq, Structural)]
pub enum XPathError {
    /// The text does not match the grammar.
    Syntax(SyntaxError),
    /// The parse tree breaks a structural rule.
    Structure(StructuralError),
}

impl XPathError {
    /// What went wrong, in words.
    pub open spec fn message(self) -> Seq<char> {
        match self {
            XPathError::Syntax(error) => error.message(),
            XPathError::Structure(error) => error.message(),
        }
    }

    pub fn description(&self) -> (text: &'static str)
        ensures
            text@ == self.message(),
    {
        match self {
            XPathError::Syntax(error) => error.description(),
            XPathError::Structure(error) => error.description(),
        }
    }
}

} // verus!
