//! The typed syntax tree of a location path, and the pass that lowers a
//! parse tree into it.
use vstd::prelude::*;
use crate::error::StructuralError;
use crate::error::XPathError;
use crate::grammar::check_name;
use crate::grammar::is_name;
use crate::grammar::xpath_of;
use crate::laws::lemma_parsed_is_never_empty;
use crate::model::lemma_views_empty;
use crate::model::lemma_views_push;
use crate::model::lowered;
use crate::model::views;
use crate::parse_tree::first_tagged;
use crate::parse_tree::ParseNode;
use crate::parse_tree::ParseTree;
use crate::parse_tree::Rule;
use crate::selector::Selector;
use crate::selector::selector_of;
use crate::selector::SelectorModel;
use crate::text::str_eq;
use crate::xpath_parser::XPathParser;

verus! {

/// The type of data returned by evaluating an expression.
#[derive(Clone, Copy, Debug, PartialEq, Eq, Structural)]
pub enum ExpressionType {
    String,
    Elements,
    InvalidExpressionType,
}

/// The axes along which a step can be evaluated.
#[derive(Clone, Copy, Debug, PartialEq, Eq, Structural)]
pub enum AxisType {
    Ancestor,
    AncestorOrSelf,
    Attribute,
    Child,
    Descendant,
    DescendantOrSelf,
    Namespace,
    SelfAxis,
    Parent,
    Following,
    FollowingSibling,
    Preceding,
    PrecedingSibling,
    /// A placeholder for an axis that has not been resolved; no parsed
    /// value holds it.
    InvalidAxisType,
}

/// The axis that a keyword names, if it names one. Keywords are matched
/// exactly, letter case included.
pub open spec fn axis_of_keyword(word: Seq<char>) -> Option<AxisType> {
    if word == "ancestor"@ {
        Some(AxisType::Ancestor)
    } else if word == "ancestor-or-self"@ {
        Some(AxisType::AncestorOrSelf)
    } else if word == "attribute"@ {
        Some(AxisType::Attribute)
    } else if word == "child"@ {
        Some(AxisType::Child)
    } else if word == "descendant"@ {
        Some(AxisType::Descendant)
    } else if word == "descendant-or-self"@ {
        Some(AxisType::DescendantOrSelf)
    } else if word == "namespace"@ {
        Some(AxisType::Namespace)
    } else if word == "self"@ {
        Some(AxisType::SelfAxis)
    } else if word == "parent"@ {
        Some(AxisType::Parent)
    } else if word == "following"@ {
        Some(AxisType::Following)
    } else if word == "following-sibling"@ {
        Some(AxisType::FollowingSibling)
    } else if word == "preceding"@ {
        Some(AxisType::Preceding)
    } else if word == "preceding-sibling"@ {
        Some(AxisType::PrecedingSibling)
    } else {
        None
    }
}

impl AxisType {
    /// The axis that `input` names, or an error if it names none.
    pub fn from_str(input: &str) -> (r: Result<AxisType, ()>)
        ensures
            match r {
                Ok(axis) => axis_of_keyword(input@) == Some(axis),
                Err(_) => axis_of_keyword(input@) is None,
            },
    {
        if str_eq(input, "ancestor") {
            Ok(AxisType::Ancestor)
        } else if str_eq(input, "ancestor-or-self") {
            Ok(AxisType::AncestorOrSelf)
        } else if str_eq(input, "attribute") {
            Ok(AxisType::Attribute)
        } else if str_eq(input, "child") {
            Ok(AxisType::Child)
        } else if str_eq(input, "descendant") {
            Ok(AxisType::Descendant)
        } else if str_eq(input, "descendant-or-self") {
            Ok(AxisType::DescendantOrSelf)
        } else if str_eq(input, "namespace") {
            Ok(AxisType::Namespace)
        } else if str_eq(input, "self") {
            Ok(AxisType::SelfAxis)
        } else if str_eq(input, "parent") {
            Ok(AxisType::Parent)
        } else if str_eq(input, "following") {
            Ok(AxisType::Following)
        } else if str_eq(input, "following-sibling") {
            Ok(AxisType::FollowingSibling)
        } else if str_eq(input, "preceding") {
            Ok(AxisType::Preceding)
        } else if str_eq(input, "preceding-sibling") {
            Ok(AxisType::PrecedingSibling)
        } else {
            Err(())
        }
    }
}

/// Each of the thirteen keywords names its own axis, and nothing else
/// names an axis; the placeholder is never named.
pub proof fn lemma_axis_keywords()
    ensures
        axis_of_keyword("ancestor"@) == Some(AxisType::Ancestor),
        axis_of_keyword("ancestor-or-self"@) == Some(AxisType::AncestorOrSelf),
        axis_of_keyword("attribute"@) == Some(AxisType::Attribute),
        axis_of_keyword("child"@) == Some(AxisType::Child),
        axis_of_keyword("descendant"@) == Some(AxisType::Descendant),
        axis_of_keyword("descendant-or-self"@) == Some(AxisType::DescendantOrSelf),
        axis_of_keyword("namespace"@) == Some(AxisType::Namespace),
        axis_of_keyword("self"@) == Some(AxisType::SelfAxis),
        axis_of_keyword("parent"@) == Some(AxisType::Parent),
        axis_of_keyword("following"@) == Some(AxisType::Following),
        axis_of_keyword("following-sibling"@) == Some(AxisType::FollowingSibling),
        axis_of_keyword("preceding"@) == Some(AxisType::Preceding),
        axis_of_keyword("preceding-sibling"@) == Some(AxisType::PrecedingSibling),
        forall|word: Seq<char>| #[trigger]
            axis_of_keyword(word) is Some <==> (word == "ancestor"@ || word
                == "ancestor-or-self"@ || word == "attribute"@ || word == "child"@ || word
                == "descendant"@ || word == "descendant-or-self"@ || word == "namespace"@ || word
                == "self"@ || word == "parent"@ || word == "following"@ || word
                == "following-sibling"@ || word == "preceding"@ || word == "preceding-sibling"@),
        forall|word: Seq<char>| #[trigger]
            axis_of_keyword(word) != Some(AxisType::InvalidAxisType),
{
    reveal_strlit("ancestor");
    reveal_strlit("ancestor-or-self");
    reveal_strlit("attribute");
    reveal_strlit("child");
    reveal_strlit("descendant");
    reveal_strlit("descendant-or-self");
    reveal_strlit("namespace");
    reveal_strlit("self");
    reveal_strlit("parent");
    reveal_strlit("following");
    reveal_strlit("following-sibling");
    reveal_strlit("preceding");
    reveal_strlit("preceding-sibling");
    assert("ancestor"@.len() == 8 && "ancestor"@[0] == 'a');
    assert("ancestor-or-self"@.len() == 16 && "ancestor-or-self"@[0] == 'a');
    assert("attribute"@.len() == 9 && "attribute"@[0] == 'a');
    assert("child"@.len() == 5 && "child"@[0] == 'c');
    assert("descendant"@.len() == 10 && "descendant"@[0] == 'd');
    assert("descendant-or-self"@.len() == 18 && "descendant-or-self"@[0] == 'd');
    assert("namespace"@.len() == 9 && "namespace"@[0] == 'n');
    assert("self"@.len() == 4 && "self"@[0] == 's');
    assert("parent"@.len() == 6 && "parent"@[0] == 'p');
    assert("following"@.len() == 9 && "following"@[0] == 'f');
    assert("following-sibling"@.len() == 17 && "following-sibling"@[0] == 'f');
    assert("preceding"@.len() == 9 && "preceding"@[0] == 'p');
    assert("preceding-sibling"@.len() == 17 && "preceding-sibling"@[0] == 'p');
}

/// One axis of a location path.
#[derive(Clone, Copy, Debug, PartialEq, Eq, Structural)]
pub struct Axis {
    pub axis_type: AxisType,
}

/// The axis that an axis node stands for. A node with a child tagged
/// as an axis name stands for the axis that the name is a keyword of.
/// A node without one is a shorthand and must be `//`, for
/// descendant-or-self, or `/`, for child.
pub open spec fn axis_of(node: ParseTree) -> Result<Axis, StructuralError> {
    if node.rule != Rule::Axis {
        Err(StructuralError::UnexpectedNode)
    } else {
        match first_tagged(node.children, Rule::AxisName, 0) {
            Some(place) => match axis_of_keyword(node.children[place].text) {
                Some(axis_type) => Ok(Axis { axis_type }),
                None => Err(StructuralError::UnrecognizedAxisName),
            },
            None => if node.text == "//"@ {
                Ok(Axis { axis_type: AxisType::DescendantOrSelf })
            } else if node.text == "/"@ {
                Ok(Axis { axis_type: AxisType::Child })
            } else {
                Err(StructuralError::UnexpectedAxisToken)
            },
        }
    }
}

impl View for Axis {
    type V = Axis;

    open spec fn view(&self) -> Axis {
        *self
    }
}

impl Axis {
    /// Resolves an axis node.
    pub fn from_node(node: &ParseNode) -> (r: Result<Axis, StructuralError>)
        ensures
            lowered(r, axis_of(node@)),
    {
        proof {
            node.lemma_tree();
        }
        if node.rule != Rule::Axis {
            return Err(StructuralError::UnexpectedNode);
        }
        match node.find_child(Rule::AxisName) {
            Some(place) => {
                proof {
                    node.children[place as int].lemma_tree();
                }
                match AxisType::from_str(node.children[place].text.as_str()) {
                    Ok(axis_type) => Ok(Axis { axis_type }),
                    Err(_) => Err(StructuralError::UnrecognizedAxisName),
                }
            },
            None => {
                let text = node.text.as_str();
                if str_eq(text, "//") {
                    Ok(Axis { axis_type: AxisType::DescendantOrSelf })
                } else if str_eq(text, "/") {
                    Ok(Axis { axis_type: AxisType::Child })
                } else {
                    Err(StructuralError::UnexpectedAxisToken)
                }
            },
        }
    }
}

/// A node test and the predicates attached to it.
#[derive(Debug, PartialEq, Eq)]
pub struct Step {
    /// Whether the step matches a node of any name.
    pub tag_is_wildcard: bool,
    /// The name that the step matches, copied from the source text;
    /// empty for a wildcard.
    pub tag_identifier: String,
    pub selectors: Vec<Selector>,
}

/// The model of a [`Step`].
pub struct StepModel {
    pub tag_is_wildcard: bool,
    pub tag_identifier: Seq<char>,
    pub selectors: Seq<SelectorModel>,
}

impl View for Step {
    type V = StepModel;

    open spec fn view(&self) -> StepModel {
        StepModel {
            tag_is_wildcard: self.tag_is_wildcard,
            tag_identifier: self.tag_identifier@,
            selectors: views(self.selectors@),
        }
    }
}

/// The selectors that the nodes from `from` on stand for, appended to
/// `acc`, or the first error among them.
pub open spec fn selectors_of(nodes: Seq<ParseTree>, from: int, acc: Seq<SelectorModel>) -> Result<
    Seq<SelectorModel>,
    StructuralError,
>
    decreases nodes.len() - from,
{
    if 0 <= from < nodes.len() {
        match selector_of(nodes[from]) {
            Ok(selector) => selectors_of(nodes, from + 1, acc.push(selector)),
            Err(error) => Err(error),
        }
    } else {
        Ok(acc)
    }
}

/// The step that a step node stands for. Its first child is the node
/// test, `*` or a name; every other child is a predicate.
pub open spec fn step_of(node: ParseTree) -> Result<StepModel, StructuralError> {
    if node.rule != Rule::Step {
        Err(StructuralError::UnexpectedNode)
    } else if node.children.len() == 0 || node.children[0].rule != Rule::NodeTest {
        Err(StructuralError::MissingNodeTest)
    } else if node.children[0].text != "*"@ && !is_name(node.children[0].text) {
        Err(StructuralError::MalformedNodeTest)
    } else {
        let wildcard = node.children[0].text == "*"@;
        match selectors_of(node.children, 1, Seq::empty()) {
            Ok(selectors) => Ok(
                StepModel {
                    tag_is_wildcard: wildcard,
                    tag_identifier: if wildcard {
                        Seq::empty()
                    } else {
                        node.children[0].text
                    },
                    selectors,
                },
            ),
            Err(error) => Err(error),
        }
    }
}

impl Step {
    /// Lowers a step node.
    #[verifier::loop_isolation(false)]
    pub fn from_node(node: &ParseNode) -> (r: Result<Step, StructuralError>)
        ensures
            lowered(r, step_of(node@)),
    {
        proof {
            node.lemma_tree();
        }
        if node.rule != Rule::Step {
            return Err(StructuralError::UnexpectedNode);
        }
        if node.children.len() == 0 || node.children[0].rule != Rule::NodeTest {
            return Err(StructuralError::MissingNodeTest);
        }
        proof {
            node.children[0].lemma_tree();
        }
        let test = node.children[0].text.as_str();
        let wildcard = str_eq(test, "*");
        if !wildcard && !check_name(test) {
            return Err(StructuralError::MalformedNodeTest);
        }
        let mut selectors: Vec<Selector> = Vec::new();
        let mut i: usize = 1;
        proof {
            lemma_views_empty(selectors@);
        }
        while i < node.children.len()
            invariant
                1 <= i <= node.children@.len(),
                selectors_of(node@.children, i as int, views(selectors@)) == selectors_of(
                    node@.children,
                    1,
                    Seq::empty(),
                ),
            decreases node.children@.len() - i,
        {
            match Selector::from_node(&node.children[i]) {
                Ok(selector) => {
                    proof {
                        lemma_views_push(selectors@, selector);
                    }
                    selectors.push(selector);
                },
                Err(error) => {
                    return Err(error);
                },
            }
            i += 1;
        }
        let tag_identifier = if wildcard {
            String::new()
        } else {
            node.children[0].text.clone()
        };
        Ok(Step { tag_is_wildcard: wildcard, tag_identifier, selectors })
    }
}

/// One location path: its axes and steps, paired in order.
#[derive(Debug, PartialEq, Eq)]
pub struct XPathExpression {
    pub pairs: Vec<(Axis, Step)>,
}

/// The model of an [`XPathExpression`].
pub struct ExpressionModel {
    pub pairs: Seq<(Axis, StepModel)>,
}

impl View for XPathExpression {
    type V = ExpressionModel;

    open spec fn view(&self) -> ExpressionModel {
        ExpressionModel { pairs: views(self.pairs@) }
    }
}

/// Where the expression builder stands between two nodes.
#[derive(Clone, Copy, Debug, PartialEq, Eq, Structural)]
pub enum BuilderState {
    /// No node has been read.
    Start,
    /// The last node read was an axis, which waits for its step.
    PrevWasAxis,
    /// The last node read was a step, which closed a pair.
    PrevWasStep,
}

/// The model of an [`ExpressionBuilder`]: its state, the axis that waits
/// for a step, and the pairs closed so far.
pub struct BuilderModel {
    pub state: BuilderState,
    pub pending: Option<Axis>,
    pub pairs: Seq<(Axis, StepModel)>,
}

impl BuilderModel {
    /// The builder before any node.
    pub open spec fn start() -> BuilderModel {
        BuilderModel { state: BuilderState::Start, pending: None, pairs: Seq::empty() }
    }

    /// An axis waits exactly when the last node was an axis; pairs exist
    /// exactly when a step has been read.
    pub open spec fn wf(self) -> bool {
        &&& (self.state == BuilderState::PrevWasAxis) == (self.pending is Some)
        &&& (self.state == BuilderState::Start) ==> self.pairs.len() == 0
        &&& (self.state == BuilderState::PrevWasStep) ==> self.pairs.len() > 0
    }

    /// The builder after one more node. An axis must not follow an axis;
    /// a step must follow an axis, and closes a pair with it; no other
    /// node may stand in an expression.
    pub open spec fn feed(self, node: ParseTree) -> Result<BuilderModel, StructuralError> {
        match node.rule {
            Rule::Axis => if self.state == BuilderState::PrevWasAxis {
                Err(StructuralError::TwoAxesInARow)
            } else {
                match axis_of(node) {
                    Ok(axis) => Ok(
                        BuilderModel {
                            state: BuilderState::PrevWasAxis,
                            pending: Some(axis),
                            pairs: self.pairs,
                        },
                    ),
                    Err(error) => Err(error),
                }
            },
            Rule::Step => match self.pending {
                Some(axis) => match step_of(node) {
                    Ok(step) => Ok(
                        BuilderModel {
                            state: BuilderState::PrevWasStep,
                            pending: None,
                            pairs: self.pairs.push((axis, step)),
                        },
                    ),
                    Err(error) => Err(error),
                },
                None => Err(StructuralError::StepWithoutAxis),
            },
            _ => Err(StructuralError::UnexpectedNode),
        }
    }

    /// The builder after the nodes from `from` on, or the first error.
    pub open spec fn feed_all(self, nodes: Seq<ParseTree>, from: int) -> Result<
        BuilderModel,
        StructuralError,
    >
        decreases nodes.len() - from,
    {
        if 0 <= from < nodes.len() {
            match self.feed(nodes[from]) {
                Ok(next) => next.feed_all(nodes, from + 1),
                Err(error) => Err(error),
            }
        } else {
            Ok(self)
        }
    }

    /// The expression built, if the last node read was a step.
    pub open spec fn finish(self) -> Result<ExpressionModel, StructuralError> {
        if self.state == BuilderState::PrevWasStep {
            Ok(ExpressionModel { pairs: self.pairs })
        } else {
            Err(StructuralError::IncompleteExpression)
        }
    }
}

/// The machine that pairs the axes and steps of one expression. It reads
/// the children of an expression node one by one and refuses any order
/// but axis, step, axis, step.
#[derive(Debug)]
pub struct ExpressionBuilder {
    state: BuilderState,
    pending: Option<Axis>,
    pairs: Vec<(Axis, Step)>,
}

impl View for ExpressionBuilder {
    type V = BuilderModel;

    closed spec fn view(&self) -> BuilderModel {
        BuilderModel { state: self.state, pending: self.pending, pairs: views(self.pairs@) }
    }
}

impl ExpressionBuilder {
    #[verifier::type_invariant]
    spec fn inv(self) -> bool {
        self@.wf()
    }

    /// A builder that has read nothing.
    pub fn new() -> (builder: ExpressionBuilder)
        ensures
            builder@ == BuilderModel::start(),
    {
        let pairs: Vec<(Axis, Step)> = Vec::new();
        proof {
            lemma_views_empty(pairs@);
        }
        ExpressionBuilder { state: BuilderState::Start, pending: None, pairs }
    }

    /// Where the builder stands. Every builder is well formed.
    pub fn state(&self) -> (state: BuilderState)
        ensures
            state == self@.state,
            self@.wf(),
    {
        proof {
            use_type_invariant(self);
        }
        self.state
    }

    /// The axis that waits for its step, if one does.
    pub fn pending(&self) -> (pending: Option<Axis>)
        ensures
            pending == self@.pending,
    {
        self.pending
    }

    /// How many pairs have been closed.
    pub fn len(&self) -> (n: usize)
        ensures
            n == self@.pairs.len(),
    {
        self.pairs.len()
    }

    /// Reads one more node.
    pub fn feed(self, node: &ParseNode) -> (r: Result<ExpressionBuilder, StructuralError>)
        ensures
            lowered(r, self@.feed(node@)),
    {
        proof {
            use_type_invariant(&self);
            node.lemma_tree();
        }
        match node.rule {
            Rule::Axis => {
                if self.state == BuilderState::PrevWasAxis {
                    return Err(StructuralError::TwoAxesInARow);
                }
                match Axis::from_node(node) {
                    Ok(axis) => Ok(
                        ExpressionBuilder {
                            state: BuilderState::PrevWasAxis,
                            pending: Some(axis),
                            pairs: self.pairs,
                        },
                    ),
                    Err(error) => Err(error),
                }
            },
            Rule::Step => {
                match self.pending {
                    Some(axis) => match Step::from_node(node) {
                        Ok(step) => {
                            let mut pairs = self.pairs;
                            proof {
                                lemma_views_push(pairs@, (axis, step));
                            }
                            pairs.push((axis, step));
                            Ok(
                                ExpressionBuilder {
                                    state: BuilderState::PrevWasStep,
                                    pending: None,
                                    pairs,
                                },
                            )
                        },
                        Err(error) => Err(error),
                    },
                    None => Err(StructuralError::StepWithoutAxis),
                }
            },
            _ => Err(StructuralError::UnexpectedNode),
        }
    }

    /// Closes the expression.
    pub fn finish(self) -> (r: Result<XPathExpression, StructuralError>)
        ensures
            lowered(r, self@.finish()),
    {
        if self.state == BuilderState::PrevWasStep {
            Ok(XPathExpression { pairs: self.pairs })
        } else {
            Err(StructuralError::IncompleteExpression)
        }
    }
}

/// The expression that an expression node stands for: what the builder
/// gives after it has read the node's children in order.
pub open spec fn expression_of(node: ParseTree) -> Result<ExpressionModel, StructuralError> {
    if node.rule != Rule::XpathExpression {
        Err(StructuralError::UnexpectedNode)
    } else {
        match BuilderModel::start().feed_all(node.children, 0) {
            Ok(builder) => builder.finish(),
            Err(error) => Err(error),
        }
    }
}

impl XPathExpression {
    /// Lowers an expression node.
    #[verifier::loop_isolation(false)]
    pub fn from_node(node: &ParseNode) -> (r: Result<XPathExpression, StructuralError>)
        ensures
            lowered(r, expression_of(node@)),
    {
        proof {
            node.lemma_tree();
        }
        if node.rule != Rule::XpathExpression {
            return Err(StructuralError::UnexpectedNode);
        }
        let mut builder = ExpressionBuilder::new();
        let mut i: usize = 0;
        while i < node.children.len()
            invariant
                i <= node.children@.len(),
                builder@.feed_all(node@.children, i as int) == BuilderModel::start().feed_all(
                    node@.children,
                    0,
                ),
            decreases node.children@.len() - i,
        {
            match builder.feed(&node.children[i]) {
                Ok(next) => {
                    builder = next;
                },
                Err(error) => {
                    return Err(error);
                },
            }
            i += 1;
        }
        builder.finish()
    }
}

/// A parsed path query: one expression for each alternative of a union,
/// in the order in which they were written.
#[derive(Debug, PartialEq, Eq)]
pub struct XPath {
    pub expressions: Vec<XPathExpression>,
    /// The type that the query evaluates to; not established by parsing.
    pub output_type: ExpressionType,
}

/// The model of an [`XPath`].
pub struct XPathModel {
    pub expressions: Seq<ExpressionModel>,
    pub output_type: ExpressionType,
}

impl View for XPath {
    type V = XPathModel;

    open spec fn view(&self) -> XPathModel {
        XPathModel { expressions: views(self.expressions@), output_type: self.output_type }
    }
}

/// The expressions that the expression nodes from `from` on stand for,
/// appended to `acc`, or the first error among them. Nodes with another
/// tag are passed over.
pub open spec fn expressions_of(nodes: Seq<ParseTree>, from: int, acc: Seq<ExpressionModel>)
    -> Result<Seq<ExpressionModel>, StructuralError>
    decreases nodes.len() - from,
{
    if 0 <= from < nodes.len() {
        if nodes[from].rule == Rule::XpathExpression {
            match expression_of(nodes[from]) {
                Ok(expression) => expressions_of(nodes, from + 1, acc.push(expression)),
                Err(error) => Err(error),
            }
        } else {
            expressions_of(nodes, from + 1, acc)
        }
    } else {
        Ok(acc)
    }
}

/// The query that a parse tree stands for.
pub open spec fn lowering_of(root: ParseTree) -> Result<XPathModel, StructuralError> {
    if root.rule != Rule::Xpath {
        Err(StructuralError::RootNotXPath)
    } else {
        match expressions_of(root.children, 0, Seq::empty()) {
            Ok(expressions) => Ok(
                XPathModel { expressions, output_type: ExpressionType::InvalidExpressionType },
            ),
            Err(error) => Err(error),
        }
    }
}

/// The query that a text stands for: the lowering of its parse tree.
pub open spec fn parsed(text: Seq<char>) -> Result<XPathModel, XPathError> {
    match xpath_of(text) {
        Ok(root) => match lowering_of(root) {
            Ok(xpath) => Ok(xpath),
            Err(error) => Err(XPathError::Structure(error)),
        },
        Err(error) => Err(XPathError::Syntax(error)),
    }
}

impl XPath {
    /// A query without expressions, of a type yet to be established.
    pub fn new() -> (xpath: XPath)
        ensures
            xpath@ == (XPathModel {
                expressions: Seq::empty(),
                output_type: ExpressionType::InvalidExpressionType,
            }),
    {
        let expressions: Vec<XPathExpression> = Vec::new();
        proof {
            lemma_views_empty(expressions@);
        }
        XPath { expressions, output_type: ExpressionType::InvalidExpressionType }
    }

    /// Lowers a parse tree.
    #[verifier::loop_isolation(false)]
    pub fn from_node(root: &ParseNode) -> (r: Result<XPath, StructuralError>)
        ensures
            lowered(r, lowering_of(root@)),
    {
        proof {
            root.lemma_tree();
        }
        if root.rule != Rule::Xpath {
            return Err(StructuralError::RootNotXPath);
        }
        let mut xpath = XPath::new();
        let mut i: usize = 0;
        while i < root.children.len()
            invariant
                i <= root.children@.len(),
                xpath.output_type == ExpressionType::InvalidExpressionType,
                expressions_of(root@.children, i as int, views(xpath.expressions@))
                    == expressions_of(root@.children, 0, Seq::empty()),
            decreases root.children@.len() - i,
        {
            let child = &root.children[i];
            proof {
                child.lemma_tree();
            }
            if child.rule == Rule::XpathExpression {
                match XPathExpression::from_node(child) {
                    Ok(expression) => {
                        proof {
                            lemma_views_push(xpath.expressions@, expression);
                        }
                        xpath.expressions.push(expression);
                    },
                    Err(error) => {
                        return Err(error);
                    },
                }
            }
            i += 1;
        }
        Ok(xpath)
    }

    /// Parses a query from its text.
    pub fn parse_from_str(xpath_str: &str) -> (r: Result<XPath, XPathError>)
        ensures
            match r {
                Ok(xpath) => parsed(xpath_str@) == Ok::<XPathModel, XPathError>(xpath@),
                Err(error) => parsed(xpath_str@) == Err::<XPathModel, XPathError>(error),
            },
            r is Ok ==> r->Ok_0.expressions.len() >= 1,
    {
        proof {
            lemma_parsed_is_never_empty(xpath_str@);
        }
        match XPathParser::parse(xpath_str) {
            Ok(root) => match XPath::from_node(&root) {
                Ok(xpath) => Ok(xpath),
                Err(error) => Err(XPathError::Structure(error)),
            },
            Err(error) => Err(XPathError::Syntax(error)),
        }
    }
}

} // verus!
