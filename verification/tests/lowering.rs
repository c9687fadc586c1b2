use xpath::error::StructuralError;
use xpath::parse_tree::{ParseNode, Rule};
use xpath::selector::{
    parse_integer, BooleanOperator, Comparator, FunctionCall, Operand, Selector, SelectorClause,
    XPathLiteral,
};
use xpath::xpath_object::{
    Axis, AxisType, BuilderState, ExpressionBuilder, ExpressionType, Step, XPath, XPathExpression,
};

fn leaf(rule: Rule, text: &str) -> ParseNode {
    ParseNode::new(rule, text, vec![])
}

fn named_axis(keyword: &str) -> ParseNode {
    ParseNode::new(Rule::Axis, &format!("{}::", keyword), vec![leaf(Rule::AxisName, keyword)])
}

fn step(test: &str) -> ParseNode {
    ParseNode::new(Rule::Step, test, vec![leaf(Rule::NodeTest, test)])
}

fn expression(children: Vec<ParseNode>) -> ParseNode {
    ParseNode::new(Rule::XpathExpression, "", children)
}

fn root(children: Vec<ParseNode>) -> ParseNode {
    ParseNode::new(Rule::Xpath, "", children)
}

fn clause(children: Vec<ParseNode>) -> ParseNode {
    ParseNode::new(Rule::Clause, "", children)
}

fn attribute(name: &str) -> ParseNode {
    ParseNode::new(Rule::Attribute, &format!("@{}", name), vec![leaf(Rule::Name, name)])
}

fn predicate(children: Vec<ParseNode>) -> ParseNode {
    ParseNode::new(Rule::Predicate, "", children)
}

#[test]
fn new_xpath_is_empty_and_untyped() {
    let xpath = XPath::new();
    assert!(xpath.expressions.is_empty());
    assert_eq!(xpath.output_type, ExpressionType::InvalidExpressionType);
}

#[test]
fn builder_walks_through_its_states() {
    let builder = ExpressionBuilder::new();
    assert_eq!(builder.state(), BuilderState::Start);
    assert_eq!(builder.pending(), None);
    assert_eq!(builder.len(), 0);
    let builder = builder.feed(&leaf(Rule::Axis, "//")).unwrap();
    assert_eq!(builder.state(), BuilderState::PrevWasAxis);
    assert_eq!(builder.pending(), Some(Axis { axis_type: AxisType::DescendantOrSelf }));
    assert_eq!(builder.len(), 0);
    let builder = builder.feed(&step("div")).unwrap();
    assert_eq!(builder.state(), BuilderState::PrevWasStep);
    assert_eq!(builder.pending(), None);
    assert_eq!(builder.len(), 1);
    let builder = builder.feed(&named_axis("parent")).unwrap();
    assert_eq!(builder.state(), BuilderState::PrevWasAxis);
    assert_eq!(builder.pending(), Some(Axis { axis_type: AxisType::Parent }));
    let builder = builder.feed(&step("*")).unwrap();
    let built = builder.finish().unwrap();
    assert_eq!(built.pairs.len(), 2);
    assert_eq!(built.pairs[0].0.axis_type, AxisType::DescendantOrSelf);
    assert_eq!(built.pairs[0].1.tag_identifier, "div");
    assert_eq!(built.pairs[1].0.axis_type, AxisType::Parent);
    assert!(built.pairs[1].1.tag_is_wildcard);
}

#[test]
fn builder_refuses_a_step_at_the_start() {
    let builder = ExpressionBuilder::new();
    assert_eq!(builder.feed(&step("div")).err(), Some(StructuralError::StepWithoutAxis));
}

#[test]
fn builder_refuses_two_axes() {
    let builder = ExpressionBuilder::new().feed(&leaf(Rule::Axis, "/")).unwrap();
    assert_eq!(builder.feed(&leaf(Rule::Axis, "/")).err(), Some(StructuralError::TwoAxesInARow));
    // the state is checked before the axis is resolved
    let builder = ExpressionBuilder::new().feed(&leaf(Rule::Axis, "/")).unwrap();
    assert_eq!(
        builder.feed(&named_axis("sideways")).err(),
        Some(StructuralError::TwoAxesInARow)
    );
}

#[test]
fn builder_refuses_two_steps() {
    let builder = ExpressionBuilder::new()
        .feed(&leaf(Rule::Axis, "/"))
        .unwrap()
        .feed(&step("a"))
        .unwrap();
    assert_eq!(builder.feed(&step("b")).err(), Some(StructuralError::StepWithoutAxis));
}

#[test]
fn builder_refuses_other_nodes() {
    let builder = ExpressionBuilder::new();
    assert_eq!(
        builder.feed(&leaf(Rule::Predicate, "[1]")).err(),
        Some(StructuralError::UnexpectedNode)
    );
}

#[test]
fn builder_does_not_finish_early() {
    assert_eq!(
        ExpressionBuilder::new().finish().err(),
        Some(StructuralError::IncompleteExpression)
    );
    let waiting = ExpressionBuilder::new().feed(&leaf(Rule::Axis, "/")).unwrap();
    assert_eq!(waiting.finish().err(), Some(StructuralError::IncompleteExpression));
}

#[test]
fn axis_resolution() {
    assert_eq!(Axis::from_node(&leaf(Rule::Axis, "/")), Ok(Axis { axis_type: AxisType::Child }));
    assert_eq!(Axis::from_node(&leaf(Rule::Axis, "")), Err(StructuralError::UnexpectedAxisToken));
    assert_eq!(
        Axis::from_node(&leaf(Rule::Axis, "//")),
        Ok(Axis { axis_type: AxisType::DescendantOrSelf })
    );
    assert_eq!(Axis::from_node(&named_axis("child")), Ok(Axis { axis_type: AxisType::Child }));
    assert_eq!(
        Axis::from_node(&named_axis("following-sibling")),
        Ok(Axis { axis_type: AxisType::FollowingSibling })
    );
    assert_eq!(
        Axis::from_node(&named_axis("CHILD")),
        Err(StructuralError::UnrecognizedAxisName)
    );
    assert_eq!(
        Axis::from_node(&leaf(Rule::Axis, "///")),
        Err(StructuralError::UnexpectedAxisToken)
    );
    assert_eq!(
        Axis::from_node(&leaf(Rule::Axis, "child")),
        Err(StructuralError::UnexpectedAxisToken)
    );
    assert_eq!(Axis::from_node(&leaf(Rule::Step, "/")), Err(StructuralError::UnexpectedNode));
}

#[test]
fn axis_name_is_found_among_all_children() {
    let behind = ParseNode::new(
        Rule::Axis,
        "/",
        vec![leaf(Rule::Name, "x"), leaf(Rule::AxisName, "parent"), leaf(Rule::AxisName, "self")],
    );
    assert_eq!(Axis::from_node(&behind), Ok(Axis { axis_type: AxisType::Parent }));
    assert_eq!(behind.find_child(Rule::AxisName), Some(1));
    assert_eq!(behind.find_child(Rule::Name), Some(0));
    assert_eq!(behind.find_child(Rule::Step), None);
    let unknown = ParseNode::new(
        Rule::Axis,
        "/",
        vec![leaf(Rule::Name, "child"), leaf(Rule::AxisName, "sideways")],
    );
    assert_eq!(Axis::from_node(&unknown), Err(StructuralError::UnrecognizedAxisName));
    let unnamed = ParseNode::new(Rule::Axis, "//", vec![leaf(Rule::Name, "child")]);
    assert_eq!(Axis::from_node(&unnamed), Ok(Axis { axis_type: AxisType::DescendantOrSelf }));
    assert_eq!(leaf(Rule::Axis, "/").find_child(Rule::AxisName), None);
}

#[test]
fn step_lowering() {
    let named = Step::from_node(&step("div")).unwrap();
    assert!(!named.tag_is_wildcard);
    assert_eq!(named.tag_identifier, "div");
    assert!(named.selectors.is_empty());
    let any = ParseNode::new(
        Rule::Step,
        "*[@id]",
        vec![leaf(Rule::NodeTest, "*"), predicate(vec![clause(vec![attribute("id")])])],
    );
    let any = Step::from_node(&any).unwrap();
    assert!(any.tag_is_wildcard);
    assert_eq!(any.tag_identifier, "");
    assert_eq!(
        any.selectors,
        vec![Selector {
            clauses: vec![SelectorClause::AttributeExists("id".to_string())],
            operator: None
        }]
    );
}

#[test]
fn step_errors() {
    assert_eq!(Step::from_node(&leaf(Rule::Axis, "/")).err(), Some(StructuralError::UnexpectedNode));
    assert_eq!(
        Step::from_node(&leaf(Rule::Step, "div")).err(),
        Some(StructuralError::MissingNodeTest)
    );
    let misplaced = ParseNode::new(Rule::Step, "div", vec![leaf(Rule::Name, "div")]);
    assert_eq!(Step::from_node(&misplaced).err(), Some(StructuralError::MissingNodeTest));
    assert_eq!(Step::from_node(&step("9lives")).err(), Some(StructuralError::MalformedNodeTest));
    assert_eq!(Step::from_node(&step("")).err(), Some(StructuralError::MalformedNodeTest));
    assert_eq!(Step::from_node(&step("a b")).err(), Some(StructuralError::MalformedNodeTest));
    let stray = ParseNode::new(
        Rule::Step,
        "div",
        vec![leaf(Rule::NodeTest, "div"), leaf(Rule::NodeTest, "p")],
    );
    assert_eq!(Step::from_node(&stray).err(), Some(StructuralError::UnexpectedNode));
}

#[test]
fn expression_lowering() {
    let node = expression(vec![named_axis("self"), step("a"), leaf(Rule::Axis, "//"), step("b")]);
    let lowered = XPathExpression::from_node(&node).unwrap();
    assert_eq!(lowered.pairs.len(), 2);
    assert_eq!(lowered.pairs[0].0.axis_type, AxisType::SelfAxis);
    assert_eq!(lowered.pairs[0].1.tag_identifier, "a");
    assert_eq!(lowered.pairs[1].0.axis_type, AxisType::DescendantOrSelf);
    assert_eq!(lowered.pairs[1].1.tag_identifier, "b");
}

#[test]
fn expression_errors() {
    assert_eq!(
        XPathExpression::from_node(&expression(vec![])).err(),
        Some(StructuralError::IncompleteExpression)
    );
    assert_eq!(
        XPathExpression::from_node(&expression(vec![step("a")])).err(),
        Some(StructuralError::StepWithoutAxis)
    );
    assert_eq!(
        XPathExpression::from_node(&expression(vec![leaf(Rule::Axis, "/")])).err(),
        Some(StructuralError::IncompleteExpression)
    );
    assert_eq!(
        XPathExpression::from_node(&expression(vec![
            leaf(Rule::Axis, "/"),
            step("a"),
            leaf(Rule::Integer, "1")
        ]))
        .err(),
        Some(StructuralError::UnexpectedNode)
    );
    // the first error in reading order is the one returned
    assert_eq!(
        XPathExpression::from_node(&expression(vec![
            named_axis("nowhere"),
            leaf(Rule::Axis, "/"),
        ]))
        .err(),
        Some(StructuralError::UnrecognizedAxisName)
    );
    assert_eq!(
        XPathExpression::from_node(&step("a")).err(),
        Some(StructuralError::UnexpectedNode)
    );
}

#[test]
fn root_must_be_an_xpath() {
    let node = expression(vec![leaf(Rule::Axis, "/"), step("a")]);
    assert_eq!(XPath::from_node(&node).err(), Some(StructuralError::RootNotXPath));
    assert_eq!(
        XPath::from_node(&leaf(Rule::Step, "a")).err(),
        Some(StructuralError::RootNotXPath)
    );
}

#[test]
fn root_keeps_the_order_of_its_expressions() {
    let tree = root(vec![
        expression(vec![leaf(Rule::Axis, "/"), step("a")]),
        leaf(Rule::Name, "ignored"),
        expression(vec![leaf(Rule::Axis, "//"), step("b")]),
    ]);
    let xpath = XPath::from_node(&tree).unwrap();
    assert_eq!(xpath.output_type, ExpressionType::InvalidExpressionType);
    assert_eq!(xpath.expressions.len(), 2);
    assert_eq!(xpath.expressions[0].pairs[0].1.tag_identifier, "a");
    assert_eq!(xpath.expressions[1].pairs[0].1.tag_identifier, "b");
    let broken = root(vec![
        expression(vec![leaf(Rule::Axis, "/"), step("a")]),
        expression(vec![step("b")]),
    ]);
    assert_eq!(XPath::from_node(&broken).err(), Some(StructuralError::StepWithoutAxis));
}

#[test]
fn selector_lowering() {
    let node = predicate(vec![
        clause(vec![attribute("a")]),
        leaf(Rule::BooleanOperator, "and"),
        clause(vec![leaf(Rule::Integer, "3")]),
        leaf(Rule::BooleanOperator, "and"),
        clause(vec![
            attribute("b"),
            leaf(Rule::Comparator, "!="),
            ParseNode::new(Rule::StringLiteral, "'x'", vec![leaf(Rule::StringContent, "x")]),
        ]),
    ]);
    let selector = Selector::from_node(&node).unwrap();
    assert_eq!(selector.operator, Some(BooleanOperator::And));
    assert_eq!(
        selector.clauses,
        vec![
            SelectorClause::AttributeExists("a".to_string()),
            SelectorClause::Position(3),
            SelectorClause::Comparison {
                left: Operand::Attribute("b".to_string()),
                comparator: Comparator::NotEqual,
                right: Operand::Literal(XPathLiteral::Text("x".to_string())),
            },
        ]
    );
}

#[test]
fn selector_errors() {
    assert_eq!(Selector::from_node(&step("a")).err(), Some(StructuralError::UnexpectedNode));
    assert_eq!(
        Selector::from_node(&predicate(vec![])).err(),
        Some(StructuralError::MalformedPredicate)
    );
    assert_eq!(
        Selector::from_node(&predicate(vec![
            clause(vec![attribute("a")]),
            leaf(Rule::BooleanOperator, "or"),
        ]))
        .err(),
        Some(StructuralError::MalformedPredicate)
    );
    assert_eq!(
        Selector::from_node(&predicate(vec![
            clause(vec![attribute("a")]),
            leaf(Rule::BooleanOperator, "xor"),
            clause(vec![attribute("b")]),
        ]))
        .err(),
        Some(StructuralError::MalformedPredicate)
    );
    assert_eq!(
        Selector::from_node(&predicate(vec![
            clause(vec![attribute("a")]),
            clause(vec![attribute("b")]),
        ]))
        .err(),
        Some(StructuralError::MalformedPredicate)
    );
    assert_eq!(
        Selector::from_node(&predicate(vec![
            clause(vec![attribute("a")]),
            leaf(Rule::BooleanOperator, "or"),
            clause(vec![attribute("b")]),
            leaf(Rule::BooleanOperator, "and"),
            clause(vec![attribute("c")]),
        ]))
        .err(),
        Some(StructuralError::MixedOperators)
    );
}

#[test]
fn clause_errors() {
    assert_eq!(
        SelectorClause::from_node(&attribute("a")).err(),
        Some(StructuralError::UnexpectedNode)
    );
    assert_eq!(
        SelectorClause::from_node(&clause(vec![])).err(),
        Some(StructuralError::MalformedClause)
    );
    assert_eq!(
        SelectorClause::from_node(&clause(vec![ParseNode::new(
            Rule::StringLiteral,
            "'x'",
            vec![leaf(Rule::StringContent, "x")]
        )]))
        .err(),
        Some(StructuralError::MalformedClause)
    );
    assert_eq!(
        SelectorClause::from_node(&clause(vec![
            attribute("a"),
            leaf(Rule::Comparator, "=="),
            attribute("b"),
        ]))
        .err(),
        Some(StructuralError::MalformedClause)
    );
    assert_eq!(
        SelectorClause::from_node(&clause(vec![
            attribute("a"),
            leaf(Rule::BooleanOperator, "="),
            attribute("b"),
        ]))
        .err(),
        Some(StructuralError::MalformedClause)
    );
    assert_eq!(
        SelectorClause::from_node(&clause(vec![leaf(Rule::Step, "a")])).err(),
        Some(StructuralError::UnexpectedNode)
    );
}

#[test]
fn operand_lowering() {
    let call = ParseNode::new(
        Rule::FunctionCall,
        "not(last())",
        vec![
            leaf(Rule::Name, "not"),
            ParseNode::new(Rule::FunctionCall, "last()", vec![leaf(Rule::Name, "last")]),
        ],
    );
    assert_eq!(
        Operand::from_node(&call),
        Ok(Operand::Call(FunctionCall {
            name: "not".to_string(),
            arguments: vec![Operand::Call(FunctionCall {
                name: "last".to_string(),
                arguments: vec![]
            })],
        }))
    );
    assert_eq!(
        FunctionCall::from_node(&call).map(|call| call.arguments.len()),
        Ok(1)
    );
    assert_eq!(Operand::from_node(&attribute("id")), Ok(Operand::Attribute("id".to_string())));
    assert_eq!(
        Operand::from_node(&leaf(Rule::Integer, "007")),
        Ok(Operand::Literal(XPathLiteral::Integer(7)))
    );
}

#[test]
fn operand_errors() {
    assert_eq!(
        Operand::from_node(&leaf(Rule::Attribute, "@a")),
        Err(StructuralError::MalformedOperand)
    );
    assert_eq!(
        Operand::from_node(&leaf(Rule::StringLiteral, "'a'")),
        Err(StructuralError::MalformedOperand)
    );
    assert_eq!(
        Operand::from_node(&leaf(Rule::FunctionCall, "f()")),
        Err(StructuralError::MalformedOperand)
    );
    assert_eq!(
        FunctionCall::from_node(&leaf(Rule::Name, "f")).err(),
        Some(StructuralError::UnexpectedNode)
    );
    assert_eq!(
        Operand::from_node(&leaf(Rule::Integer, "12a")),
        Err(StructuralError::MalformedOperand)
    );
    assert_eq!(Operand::from_node(&leaf(Rule::Clause, "1")), Err(StructuralError::UnexpectedNode));
    let nested = ParseNode::new(
        Rule::FunctionCall,
        "f(@)",
        vec![leaf(Rule::Name, "f"), leaf(Rule::Attribute, "@")],
    );
    assert_eq!(Operand::from_node(&nested), Err(StructuralError::MalformedOperand));
}

#[test]
fn integers() {
    assert_eq!(parse_integer("0"), Ok(0));
    assert_eq!(parse_integer("42"), Ok(42));
    assert_eq!(parse_integer("18446744073709551615"), Ok(u64::MAX));
    assert_eq!(parse_integer("18446744073709551616"), Err(StructuralError::IntegerOutOfRange));
    assert_eq!(
        parse_integer("99999999999999999999999999"),
        Err(StructuralError::IntegerOutOfRange)
    );
    assert_eq!(parse_integer("00000000000000000000000001"), Ok(1));
    assert_eq!(parse_integer(""), Err(StructuralError::MalformedOperand));
    assert_eq!(parse_integer("-1"), Err(StructuralError::MalformedOperand));
    assert_eq!(
        parse_integer("99999999999999999999999999x"),
        Err(StructuralError::MalformedOperand)
    );
}

#[test]
fn operators_by_name() {
    assert_eq!(Comparator::from_str("="), Some(Comparator::Equal));
    assert_eq!(Comparator::from_str("!="), Some(Comparator::NotEqual));
    assert_eq!(Comparator::from_str("<"), Some(Comparator::Less));
    assert_eq!(Comparator::from_str("<="), Some(Comparator::LessOrEqual));
    assert_eq!(Comparator::from_str(">"), Some(Comparator::Greater));
    assert_eq!(Comparator::from_str(">="), Some(Comparator::GreaterOrEqual));
    assert_eq!(Comparator::from_str("=>"), None);
    assert_eq!(BooleanOperator::from_str("and"), Some(BooleanOperator::And));
    assert_eq!(BooleanOperator::from_str("or"), Some(BooleanOperator::Or));
    assert_eq!(BooleanOperator::from_str("AND"), None);
}

#[test]
fn error_descriptions() {
    assert_eq!(StructuralError::RootNotXPath.description(), "root node is not an xpath");
    assert_eq!(StructuralError::TwoAxesInARow.description(), "two axes in a row are never valid");
    assert_eq!(
        StructuralError::StepWithoutAxis.description(),
        "a step must always be preceded by an axis"
    );
    assert_eq!(StructuralError::UnrecognizedAxisName.description(), "unrecognized axis name");
    assert_eq!(StructuralError::UnexpectedAxisToken.description(), "unexpected axis token");
    assert_eq!(StructuralError::UnexpectedNode.description(), "unexpected node");
}
