//! Predicates: the bracketed tests attached to a step, and the pass that
//! lowers predicate nodes into them.
use vstd::prelude::*;
use vstd::std_specs::iter::IteratorSpec;
use crate::error::StructuralError;
use crate::grammar::check_digit;
use crate::grammar::is_digit;
use crate::model::lemma_views_empty;
use crate::model::lemma_views_push;
use crate::model::lowered;
use crate::model::views;
use crate::parse_tree::ParseNode;
use crate::parse_tree::ParseTree;
use crate::parse_tree::Rule;
use crate::text::str_eq;

verus! {

/// The operator that joins the clauses of a predicate.
#[derive(Clone, Copy, Debug, PartialEq, Eq, Structural)]
pub enum BooleanOperator {
    And,
    Or,
}

/// The relation that a comparison tests.
#[derive(Clone, Copy, Debug, PartialEq, Eq, Structural)]
pub enum Comparator {
    Equal,
    NotEqual,
    Less,
    LessOrEqual,
    Greater,
    GreaterOrEqual,
}

/// A literal operand: a quoted string, without its quotes, or an
/// unsigned integer.
#[derive(Debug, PartialEq, Eq)]
pub enum XPathLiteral {
    Text(String),
    Integer(u64),
}

/// The model of an [`XPathLiteral`].
pub enum LiteralModel {
    Text(Seq<char>),
    Integer(u64),
}

impl View for XPathLiteral {
    type V = LiteralModel;

    open spec fn view(&self) -> LiteralModel {
        match self {
            XPathLiteral::Text(text) => LiteralModel::Text(text@),
            XPathLiteral::Integer(value) => LiteralModel::Integer(*value),
        }
    }
}

/// What a function is applied to, and what a comparison compares.
#[derive(Debug, PartialEq, Eq)]
pub enum Operand {
    Literal(XPathLiteral),
    /// The value of the attribute of that name.
    Attribute(String),
    Call(FunctionCall),
}

/// A function applied to its arguments, in order.
#[derive(Debug, PartialEq, Eq)]
pub struct FunctionCall {
    pub name: String,
    pub arguments: Vec<Operand>,
}

/// The model of an [`Operand`].
pub enum OperandModel {
    Literal(LiteralModel),
    Attribute(Seq<char>),
    Call(CallModel),
}

/// The model of a [`FunctionCall`].
pub struct CallModel {
    pub name: Seq<char>,
    pub arguments: Seq<OperandModel>,
}

impl Operand {
    pub open spec fn model(&self) -> OperandModel
        decreases self,
    {
        match self {
            Operand::Literal(literal) => OperandModel::Literal(literal@),
            Operand::Attribute(name) => OperandModel::Attribute(name@),
            Operand::Call(call) => OperandModel::Call(call.model()),
        }
    }
}

impl FunctionCall {
    pub open spec fn model(&self) -> CallModel
        decreases self,
    {
        CallModel {
            name: self.name@,
            arguments: Seq::new(
                self.arguments@.len(),
                |i: int|
                    if 0 <= i < self.arguments@.len() {
                        self.arguments@[i].model()
                    } else {
                        arbitrary()
                    },
            ),
        }
    }

    /// The model of a call holds the models of its arguments.
    pub proof fn lemma_model(&self)
        ensures
            self@ == (CallModel { name: self.name@, arguments: views(self.arguments@) }),
    {
        assert(self.model().arguments =~= views(self.arguments@));
    }
}

impl View for Operand {
    type V = OperandModel;

    open spec fn view(&self) -> OperandModel {
        self.model()
    }
}

impl View for FunctionCall {
    type V = CallModel;

    open spec fn view(&self) -> CallModel {
        self.model()
    }
}

/// One test inside a predicate.
#[derive(Debug, PartialEq, Eq)]
pub enum SelectorClause {
    /// A function call used as a test.
    Function(FunctionCall),
    /// The node has an attribute of that name.
    AttributeExists(String),
    /// The node stands at that position among its siblings.
    Position(u64),
    /// Two operands and the relation that must hold between them.
    Comparison { left: Operand, comparator: Comparator, right: Operand },
}

/// The model of a [`SelectorClause`].
pub enum ClauseModel {
    Function(CallModel),
    AttributeExists(Seq<char>),
    Position(u64),
    Comparison { left: OperandModel, comparator: Comparator, right: OperandModel },
}

impl View for SelectorClause {
    type V = ClauseModel;

    open spec fn view(&self) -> ClauseModel {
        match self {
            SelectorClause::Function(call) => ClauseModel::Function(call@),
            SelectorClause::AttributeExists(name) => ClauseModel::AttributeExists(name@),
            SelectorClause::Position(position) => ClauseModel::Position(*position),
            SelectorClause::Comparison { left, comparator, right } => ClauseModel::Comparison {
                left: left@,
                comparator: *comparator,
                right: right@,
            },
        }
    }
}

/// One bracketed predicate: its clauses in order, and the one operator
/// that joins them. A predicate of a single clause has no operator.
#[derive(Debug, PartialEq, Eq)]
pub struct Selector {
    pub clauses: Vec<SelectorClause>,
    pub operator: Option<BooleanOperator>,
}

/// The model of a [`Selector`].
pub struct SelectorModel {
    pub clauses: Seq<ClauseModel>,
    pub operator: Option<BooleanOperator>,
}

impl View for Selector {
    type V = SelectorModel;

    open spec fn view(&self) -> SelectorModel {
        SelectorModel { clauses: views(self.clauses@), operator: self.operator }
    }
}

/// The relation that a comparator token stands for.
pub open spec fn comparator_of(text: Seq<char>) -> Option<Comparator> {
    if text == "="@ {
        Some(Comparator::Equal)
    } else if text == "!="@ {
        Some(Comparator::NotEqual)
    } else if text == "<"@ {
        Some(Comparator::Less)
    } else if text == "<="@ {
        Some(Comparator::LessOrEqual)
    } else if text == ">"@ {
        Some(Comparator::Greater)
    } else if text == ">="@ {
        Some(Comparator::GreaterOrEqual)
    } else {
        None
    }
}

/// The operator that a keyword stands for.
pub open spec fn boolean_operator_of(text: Seq<char>) -> Option<BooleanOperator> {
    if text == "and"@ {
        Some(BooleanOperator::And)
    } else if text == "or"@ {
        Some(BooleanOperator::Or)
    } else {
        None
    }
}

impl Comparator {
    pub fn from_str(text: &str) -> (r: Option<Comparator>)
        ensures
            r == comparator_of(text@),
    {
        if str_eq(text, "=") {
            Some(Comparator::Equal)
        } else if str_eq(text, "!=") {
            Some(Comparator::NotEqual)
        } else if str_eq(text, "<") {
            Some(Comparator::Less)
        } else if str_eq(text, "<=") {
            Some(Comparator::LessOrEqual)
        } else if str_eq(text, ">") {
            Some(Comparator::Greater)
        } else if str_eq(text, ">=") {
            Some(Comparator::GreaterOrEqual)
        } else {
            None
        }
    }
}

impl BooleanOperator {
    pub fn from_str(text: &str) -> (r: Option<BooleanOperator>)
        ensures
            r == boolean_operator_of(text@),
    {
        if str_eq(text, "and") {
            Some(BooleanOperator::And)
        } else if str_eq(text, "or") {
            Some(BooleanOperator::Or)
        } else {
            None
        }
    }
}

/// Whether every character of `text` is a decimal digit.
pub open spec fn all_digits(text: Seq<char>) -> bool {
    forall|i: int| 0 <= i < text.len() ==> is_digit(#[trigger] text[i])
}

/// The number that a run of decimal digits writes.
pub open spec fn decimal_value(text: Seq<char>) -> nat
    decreases text.len(),
{
    if text.len() == 0 {
        0
    } else {
        (decimal_value(text.drop_last()) * 10 + (text.last() as int - '0' as int)) as nat
    }
}

/// The value of an integer literal: its text must be a run of digits
/// that writes a number of at most 64 bits.
pub open spec fn integer_of(text: Seq<char>) -> Result<u64, StructuralError> {
    if text.len() == 0 || !all_digits(text) {
        Err(StructuralError::MalformedOperand)
    } else if decimal_value(text) > u64::MAX {
        Err(StructuralError::IntegerOutOfRange)
    } else {
        Ok(decimal_value(text) as u64)
    }
}

/// Reading one more digit multiplies by ten and adds the digit.
pub proof fn lemma_decimal_value_step(text: Seq<char>, i: int)
    requires
        0 <= i < text.len(),
        is_digit(text[i]),
    ensures
        decimal_value(text.subrange(0, i + 1)) == decimal_value(text.subrange(0, i)) * 10 + (
        text[i] as int - '0' as int),
        decimal_value(text.subrange(0, i + 1)) >= decimal_value(text.subrange(0, i)),
{
    assert(text.subrange(0, i + 1).drop_last() =~= text.subrange(0, i));
}

/// The value of a decimal digit.
fn digit_value(c: char) -> (d: u64)
    requires
        is_digit(c),
    ensures
        d == c as int - '0' as int,
        d <= 9,
{
    (c as u32 - '0' as u32) as u64
}

/// Reads an integer literal.
pub fn parse_integer(text: &str) -> (r: Result<u64, StructuralError>)
    ensures
        r == integer_of(text@),
{
    let mut digits = true;
    let mut empty = true;
    let mut value: u64 = 0;
    let mut fits = true;
    for c in it: text.chars()
        invariant
            it.seq() == text@,
            empty == (it.index() == 0),
            digits == all_digits(text@.subrange(0, it.index() as int)),
            digits && fits ==> value == decimal_value(text@.subrange(0, it.index() as int)),
            digits && !fits ==> decimal_value(text@.subrange(0, it.index() as int)) > u64::MAX,
    {
        let ghost i = it.index() as int;
        let ghost before = text@.subrange(0, i);
        let ghost after = text@.subrange(0, i + 1);
        assert(after.drop_last() =~= before);
        assert(after.last() == c);
        assert(forall|j: int| 0 <= j < i ==> before[j] == after[j]);
        if digits && check_digit(c) {
            proof {
                lemma_decimal_value_step(text@, i);
                assert(all_digits(after));
            }
            let d = digit_value(c);
            if fits && value <= (u64::MAX - d) / 10 {
                value = value * 10 + d;
            } else {
                fits = false;
            }
        } else {
            proof {
                if digits {
                    assert(!is_digit(after[i]));
                } else {
                    let j = choose|j: int| 0 <= j < i && !is_digit(#[trigger] before[j]);
                    assert(!is_digit(after[j]));
                }
            }
            digits = false;
        }
        empty = false;
    }
    assert(text@.subrange(0, text@.len() as int) =~= text@);
    if empty || !digits {
        Err(StructuralError::MalformedOperand)
    } else if !fits {
        Err(StructuralError::IntegerOutOfRange)
    } else {
        Ok(value)
    }
}

/// The operand that an operand node stands for.
pub open spec fn operand_of(node: ParseTree) -> Result<OperandModel, StructuralError>
    decreases node, 1int,
{
    match node.rule {
        Rule::Attribute => if node.children.len() == 1 && node.children[0].rule == Rule::Name {
            Ok(OperandModel::Attribute(node.children[0].text))
        } else {
            Err(StructuralError::MalformedOperand)
        },
        Rule::StringLiteral => if node.children.len() == 1 && node.children[0].rule
            == Rule::StringContent {
            Ok(OperandModel::Literal(LiteralModel::Text(node.children[0].text)))
        } else {
            Err(StructuralError::MalformedOperand)
        },
        Rule::Integer => match integer_of(node.text) {
            Ok(value) => Ok(OperandModel::Literal(LiteralModel::Integer(value))),
            Err(error) => Err(error),
        },
        Rule::FunctionCall => match call_of(node) {
            Ok(call) => Ok(OperandModel::Call(call)),
            Err(error) => Err(error),
        },
        _ => Err(StructuralError::UnexpectedNode),
    }
}

/// The call that a function-call node stands for: its first child names
/// the function, the others are the arguments, in order.
pub open spec fn call_of(node: ParseTree) -> Result<CallModel, StructuralError>
    decreases node, 0int,
{
    if node.rule != Rule::FunctionCall {
        Err(StructuralError::UnexpectedNode)
    } else if node.children.len() == 0 || node.children[0].rule != Rule::Name {
        Err(StructuralError::MalformedOperand)
    } else {
        match operands_of(node.children, 1, Seq::empty()) {
            Ok(arguments) => Ok(CallModel { name: node.children[0].text, arguments }),
            Err(error) => Err(error),
        }
    }
}

/// The operands that the nodes from `from` on stand for, appended to
/// `acc`, or the first error among them.
pub open spec fn operands_of(nodes: Seq<ParseTree>, from: int, acc: Seq<OperandModel>) -> Result<
    Seq<OperandModel>,
    StructuralError,
>
    decreases nodes, nodes.len() - from,
{
    if 0 <= from < nodes.len() {
        match operand_of(nodes[from]) {
            Ok(operand) => operands_of(nodes, from + 1, acc.push(operand)),
            Err(error) => Err(error),
        }
    } else {
        Ok(acc)
    }
}

impl Operand {
    /// Lowers an operand node.
    pub fn from_node(node: &ParseNode) -> (r: Result<Operand, StructuralError>)
        ensures
            lowered(r, operand_of(node@)),
        decreases node, 1int,
    {
        proof {
            node.lemma_tree();
        }
        match node.rule {
            Rule::Attribute => {
                if node.children.len() == 1 && node.children[0].rule == Rule::Name {
                    proof {
                        node.children[0].lemma_tree();
                    }
                    Ok(Operand::Attribute(node.children[0].text.clone()))
                } else {
                    Err(StructuralError::MalformedOperand)
                }
            },
            Rule::StringLiteral => {
                if node.children.len() == 1 && node.children[0].rule == Rule::StringContent {
                    proof {
                        node.children[0].lemma_tree();
                    }
                    Ok(Operand::Literal(XPathLiteral::Text(node.children[0].text.clone())))
                } else {
                    Err(StructuralError::MalformedOperand)
                }
            },
            Rule::Integer => match parse_integer(node.text.as_str()) {
                Ok(value) => Ok(Operand::Literal(XPathLiteral::Integer(value))),
                Err(error) => Err(error),
            },
            Rule::FunctionCall => match FunctionCall::from_node(node) {
                Ok(call) => Ok(Operand::Call(call)),
                Err(error) => Err(error),
            },
            _ => Err(StructuralError::UnexpectedNode),
        }
    }
}

impl FunctionCall {
    /// Lowers a function-call node.
    #[verifier::loop_isolation(false)]
    pub fn from_node(node: &ParseNode) -> (r: Result<FunctionCall, StructuralError>)
        ensures
            lowered(r, call_of(node@)),
        decreases node, 0int,
    {
        proof {
            node.lemma_tree();
        }
        if node.rule != Rule::FunctionCall {
            return Err(StructuralError::UnexpectedNode);
        }
        if node.children.len() == 0 || node.children[0].rule != Rule::Name {
            return Err(StructuralError::MalformedOperand);
        }
        proof {
            node.children[0].lemma_tree();
        }
        let mut arguments: Vec<Operand> = Vec::new();
        let mut i: usize = 1;
        proof {
            lemma_views_empty(arguments@);
        }
        while i < node.children.len()
            invariant
                1 <= i <= node.children@.len(),
                operands_of(node@.children, i as int, views(arguments@)) == operands_of(
                    node@.children,
                    1,
                    Seq::empty(),
                ),
            decreases node.children@.len() - i,
        {
            match Operand::from_node(&node.children[i]) {
                Ok(operand) => {
                    proof {
                        lemma_views_push(arguments@, operand);
                    }
                    arguments.push(operand);
                },
                Err(error) => {
                    return Err(error);
                },
            }
            i += 1;
        }
        let call = FunctionCall { name: node.children[0].text.clone(), arguments };
        proof {
            call.lemma_model();
        }
        Ok(call)
    }
}

/// The clause that a clause node stands for. A lone operand is a test by
/// itself: a call, an attribute that must exist, or a position; a lone
/// string tests nothing. Three children are a comparison.
pub open spec fn clause_of(node: ParseTree) -> Result<ClauseModel, StructuralError> {
    if node.rule != Rule::Clause {
        Err(StructuralError::UnexpectedNode)
    } else if node.children.len() == 1 {
        match operand_of(node.children[0]) {
            Ok(OperandModel::Call(call)) => Ok(ClauseModel::Function(call)),
            Ok(OperandModel::Attribute(name)) => Ok(ClauseModel::AttributeExists(name)),
            Ok(OperandModel::Literal(LiteralModel::Integer(position))) => Ok(
                ClauseModel::Position(position),
            ),
            Ok(OperandModel::Literal(LiteralModel::Text(_))) => Err(
                StructuralError::MalformedClause,
            ),
            Err(error) => Err(error),
        }
    } else if node.children.len() == 3 {
        match operand_of(node.children[0]) {
            Ok(left) => if node.children[1].rule != Rule::Comparator {
                Err(StructuralError::MalformedClause)
            } else {
                match comparator_of(node.children[1].text) {
                    Some(comparator) => match operand_of(node.children[2]) {
                        Ok(right) => Ok(ClauseModel::Comparison { left, comparator, right }),
                        Err(error) => Err(error),
                    },
                    None => Err(StructuralError::MalformedClause),
                }
            },
            Err(error) => Err(error),
        }
    } else {
        Err(StructuralError::MalformedClause)
    }
}

impl SelectorClause {
    /// Lowers a clause node.
    pub fn from_node(node: &ParseNode) -> (r: Result<SelectorClause, StructuralError>)
        ensures
            lowered(r, clause_of(node@)),
    {
        proof {
            node.lemma_tree();
        }
        if node.rule != Rule::Clause {
            return Err(StructuralError::UnexpectedNode);
        }
        if node.children.len() == 1 {
            match Operand::from_node(&node.children[0]) {
                Ok(Operand::Call(call)) => Ok(SelectorClause::Function(call)),
                Ok(Operand::Attribute(name)) => Ok(SelectorClause::AttributeExists(name)),
                Ok(Operand::Literal(XPathLiteral::Integer(position))) => Ok(
                    SelectorClause::Position(position),
                ),
                Ok(Operand::Literal(XPathLiteral::Text(_))) => Err(
                    StructuralError::MalformedClause,
                ),
                Err(error) => Err(error),
            }
        } else if node.children.len() == 3 {
            let left = match Operand::from_node(&node.children[0]) {
                Ok(left) => left,
                Err(error) => {
                    return Err(error);
                },
            };
            proof {
                node.children[1].lemma_tree();
            }
            if node.children[1].rule != Rule::Comparator {
                return Err(StructuralError::MalformedClause);
            }
            let comparator = match Comparator::from_str(node.children[1].text.as_str()) {
                Some(comparator) => comparator,
                None => {
                    return Err(StructuralError::MalformedClause);
                },
            };
            match Operand::from_node(&node.children[2]) {
                Ok(right) => Ok(SelectorClause::Comparison { left, comparator, right }),
                Err(error) => Err(error),
            }
        } else {
            Err(StructuralError::MalformedClause)
        }
    }
}

/// The selector that a predicate node stands for. Its children must be
/// clauses with one operator between each two, and the operators must
/// all be the same one.
pub open spec fn selector_of(node: ParseTree) -> Result<SelectorModel, StructuralError> {
    if node.rule != Rule::Predicate {
        Err(StructuralError::UnexpectedNode)
    } else {
        clauses_from(node.children, 0, SelectorModel { clauses: Seq::empty(), operator: None })
    }
}

/// Reads the children of a predicate from `from` on, with `acc` holding
/// what the children in front of `from` gave.
pub open spec fn clauses_from(nodes: Seq<ParseTree>, from: int, acc: SelectorModel) -> Result<
    SelectorModel,
    StructuralError,
>
    decreases nodes.len() - from,
{
    if !(0 <= from < nodes.len()) {
        if nodes.len() % 2 == 1 {
            Ok(acc)
        } else {
            Err(StructuralError::MalformedPredicate)
        }
    } else if from % 2 == 0 {
        if nodes[from].rule != Rule::Clause {
            Err(StructuralError::MalformedPredicate)
        } else {
            match clause_of(nodes[from]) {
                Ok(clause) => clauses_from(
                    nodes,
                    from + 1,
                    SelectorModel { clauses: acc.clauses.push(clause), operator: acc.operator },
                ),
                Err(error) => Err(error),
            }
        }
    } else if nodes[from].rule != Rule::BooleanOperator {
        Err(StructuralError::MalformedPredicate)
    } else {
        match boolean_operator_of(nodes[from].text) {
            Some(operator) => if acc.operator is Some && acc.operator != Some(operator) {
                Err(StructuralError::MixedOperators)
            } else {
                clauses_from(
                    nodes,
                    from + 1,
                    SelectorModel { clauses: acc.clauses, operator: Some(operator) },
                )
            },
            None => Err(StructuralError::MalformedPredicate),
        }
    }
}

impl Selector {
    /// Lowers a predicate node.
    #[verifier::loop_isolation(false)]
    pub fn from_node(node: &ParseNode) -> (r: Result<Selector, StructuralError>)
        ensures
            lowered(r, selector_of(node@)),
    {
        proof {
            node.lemma_tree();
        }
        if node.rule != Rule::Predicate {
            return Err(StructuralError::UnexpectedNode);
        }
        let mut clauses: Vec<SelectorClause> = Vec::new();
        let mut operator: Option<BooleanOperator> = None;
        let mut i: usize = 0;
        proof {
            lemma_views_empty(clauses@);
        }
        while i < node.children.len()
            invariant
                i <= node.children@.len(),
                clauses_from(
                    node@.children,
                    i as int,
                    SelectorModel { clauses: views(clauses@), operator },
                ) == selector_of(node@),
            decreases node.children@.len() - i,
        {
            let child = &node.children[i];
            proof {
                child.lemma_tree();
            }
            if i % 2 == 0 {
                if child.rule != Rule::Clause {
                    return Err(StructuralError::MalformedPredicate);
                }
                match SelectorClause::from_node(child) {
                    Ok(clause) => {
                        proof {
                            lemma_views_push(clauses@, clause);
                        }
                        clauses.push(clause);
                    },
                    Err(error) => {
                        return Err(error);
                    },
                }
            } else {
                if child.rule != Rule::BooleanOperator {
                    return Err(StructuralError::MalformedPredicate);
                }
                match BooleanOperator::from_str(child.text.as_str()) {
                    Some(found) => {
                        match operator {
                            Some(known) => {
                                if known != found {
                                    return Err(StructuralError::MixedOperators);
                                }
                            },
                            None => {},
                        }
                        operator = Some(found);
                    },
                    None => {
                        return Err(StructuralError::MalformedPredicate);
                    },
                }
            }
            i += 1;
        }
        if node.children.len() % 2 == 1 {
            Ok(Selector { clauses, operator })
        } else {
            Err(StructuralError::MalformedPredicate)
        }
    }
}

} // verus!
