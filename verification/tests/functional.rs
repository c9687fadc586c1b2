use xpath::error::{Expected, StructuralError, SyntaxError, XPathError};
use xpath::selector::{
    BooleanOperator, Comparator, FunctionCall, Operand, SelectorClause, XPathLiteral,
};
use xpath::xpath_object::{AxisType, ExpressionType, XPath};

#[test]
fn basic_functional_test() {
    let test_str = "div[contains(@class, 'id-AuthorList') or @somethin]";
    let xpath_object = XPath::parse_from_str(test_str);
    println!("obj: {:#?}", &xpath_object);
    assert_eq!(xpath_object.err(), Some(XPathError::Structure(StructuralError::StepWithoutAxis)));
}

#[test]
fn leading_step_is_rejected() {
    let rejected = Err(XPathError::Structure(StructuralError::StepWithoutAxis));
    assert_eq!(XPath::parse_from_str("div"), rejected);
    assert_eq!(XPath::parse_from_str("*"), rejected);
    assert_eq!(XPath::parse_from_str("  div/li"), rejected);
    assert_eq!(XPath::parse_from_str("div[@a]"), rejected);
    assert_eq!(XPath::parse_from_str("//a | div"), rejected);
    // the first error in reading order wins
    assert_eq!(XPath::parse_from_str("div//child::li"), rejected);
}

#[test]
fn step_with_a_predicate() {
    let xpath = XPath::parse_from_str("/div[contains(@class, 'id-AuthorList') or @somethin]")
        .unwrap();
    assert_eq!(xpath.output_type, ExpressionType::InvalidExpressionType);
    assert_eq!(xpath.expressions.len(), 1);
    let pairs = &xpath.expressions[0].pairs;
    assert_eq!(pairs.len(), 1);
    assert_eq!(pairs[0].0.axis_type, AxisType::Child);
    let step = &pairs[0].1;
    assert!(!step.tag_is_wildcard);
    assert_eq!(step.tag_identifier, "div");
    assert_eq!(step.selectors.len(), 1);
    let selector = &step.selectors[0];
    assert_eq!(selector.operator, Some(BooleanOperator::Or));
    assert_eq!(selector.clauses.len(), 2);
    assert_eq!(
        selector.clauses[0],
        SelectorClause::Function(FunctionCall {
            name: "contains".to_string(),
            arguments: vec![
                Operand::Attribute("class".to_string()),
                Operand::Literal(XPathLiteral::Text("id-AuthorList".to_string())),
            ],
        })
    );
    assert_eq!(selector.clauses[1], SelectorClause::AttributeExists("somethin".to_string()));
}

#[test]
fn explicit_axis_and_step() {
    let xpath = XPath::parse_from_str("child::div").unwrap();
    assert_eq!(xpath.expressions.len(), 1);
    let pairs = &xpath.expressions[0].pairs;
    assert_eq!(pairs.len(), 1);
    assert_eq!(pairs[0].0.axis_type, AxisType::Child);
    assert!(!pairs[0].1.tag_is_wildcard);
    assert_eq!(pairs[0].1.tag_identifier, "div");
    assert!(pairs[0].1.selectors.is_empty());
}

#[test]
fn shorthand_matches_explicit() {
    let short = XPath::parse_from_str("/div").unwrap();
    let explicit = XPath::parse_from_str("child::div").unwrap();
    assert_eq!(short, explicit);
    assert_eq!(short.expressions[0].pairs[0].0.axis_type, AxisType::Child);
    let deep = XPath::parse_from_str("//div").unwrap();
    assert_eq!(deep.expressions[0].pairs.len(), 1);
    assert_eq!(deep.expressions[0].pairs[0].0.axis_type, AxisType::DescendantOrSelf);
    assert_eq!(deep.expressions[0].pairs[0].1.tag_identifier, "div");
}

fn axis_of(text: &str) -> AxisType {
    let xpath = XPath::parse_from_str(text).unwrap();
    assert_eq!(xpath.expressions.len(), 1);
    assert_eq!(xpath.expressions[0].pairs.len(), 1);
    assert_eq!(xpath.expressions[0].pairs[0].1.tag_identifier, "a");
    xpath.expressions[0].pairs[0].0.axis_type
}

#[test]
fn every_axis_keyword() {
    assert_eq!(axis_of("ancestor::a"), AxisType::Ancestor);
    assert_eq!(axis_of("ancestor-or-self::a"), AxisType::AncestorOrSelf);
    assert_eq!(axis_of("attribute::a"), AxisType::Attribute);
    assert_eq!(axis_of("child::a"), AxisType::Child);
    assert_eq!(axis_of("descendant::a"), AxisType::Descendant);
    assert_eq!(axis_of("descendant-or-self::a"), AxisType::DescendantOrSelf);
    assert_eq!(axis_of("namespace::a"), AxisType::Namespace);
    assert_eq!(axis_of("self::a"), AxisType::SelfAxis);
    assert_eq!(axis_of("parent::a"), AxisType::Parent);
    assert_eq!(axis_of("following::a"), AxisType::Following);
    assert_eq!(axis_of("following-sibling::a"), AxisType::FollowingSibling);
    assert_eq!(axis_of("preceding::a"), AxisType::Preceding);
    assert_eq!(axis_of("preceding-sibling::a"), AxisType::PrecedingSibling);
}

#[test]
fn axis_keywords_by_name() {
    assert_eq!(AxisType::from_str("ancestor"), Ok(AxisType::Ancestor));
    assert_eq!(AxisType::from_str("self"), Ok(AxisType::SelfAxis));
    assert_eq!(AxisType::from_str("preceding-sibling"), Ok(AxisType::PrecedingSibling));
    assert_eq!(AxisType::from_str("Child"), Err(()));
    assert_eq!(AxisType::from_str("child "), Err(()));
    assert_eq!(AxisType::from_str(""), Err(()));
    assert_eq!(AxisType::from_str("sibling"), Err(()));
}

#[test]
fn unknown_axis_name_is_rejected() {
    assert_eq!(
        XPath::parse_from_str("sibling::div"),
        Err(XPathError::Structure(StructuralError::UnrecognizedAxisName))
    );
    assert_eq!(
        XPath::parse_from_str("//a/Child::div"),
        Err(XPathError::Structure(StructuralError::UnrecognizedAxisName))
    );
}

#[test]
fn adjacent_axes_or_steps_are_rejected() {
    assert_eq!(
        XPath::parse_from_str("//child::div"),
        Err(XPathError::Structure(StructuralError::TwoAxesInARow))
    );
    assert_eq!(
        XPath::parse_from_str("///div"),
        Err(XPathError::Structure(StructuralError::TwoAxesInARow))
    );
    assert_eq!(
        XPath::parse_from_str("//div li"),
        Err(XPathError::Structure(StructuralError::StepWithoutAxis))
    );
    assert_eq!(
        XPath::parse_from_str("div *"),
        Err(XPathError::Structure(StructuralError::StepWithoutAxis))
    );
    assert_eq!(
        XPath::parse_from_str("//div/"),
        Err(XPathError::Structure(StructuralError::IncompleteExpression))
    );
}

#[test]
fn union_of_two_paths() {
    let xpath = XPath::parse_from_str("//div | //ul/child::li").unwrap();
    assert_eq!(xpath.expressions.len(), 2);
    let first = &xpath.expressions[0].pairs;
    assert_eq!(first.len(), 1);
    assert_eq!(first[0].0.axis_type, AxisType::DescendantOrSelf);
    assert_eq!(first[0].1.tag_identifier, "div");
    let second = &xpath.expressions[1].pairs;
    assert_eq!(second.len(), 2);
    assert_eq!(second[0].0.axis_type, AxisType::DescendantOrSelf);
    assert_eq!(second[0].1.tag_identifier, "ul");
    assert_eq!(second[1].0.axis_type, AxisType::Child);
    assert_eq!(second[1].1.tag_identifier, "li");
}

#[test]
fn empty_input_is_a_syntax_error() {
    assert_eq!(
        XPath::parse_from_str(""),
        Err(XPathError::Syntax(SyntaxError { position: 0, expected: Expected::Expression }))
    );
    assert_eq!(
        XPath::parse_from_str("   "),
        Err(XPathError::Syntax(SyntaxError { position: 3, expected: Expected::Expression }))
    );
}

#[test]
fn syntax_errors_carry_their_position() {
    assert_eq!(
        XPath::parse_from_str("//div | "),
        Err(XPathError::Syntax(SyntaxError { position: 8, expected: Expected::Expression }))
    );
    assert_eq!(
        XPath::parse_from_str("//div[@a"),
        Err(XPathError::Syntax(SyntaxError { position: 5, expected: Expected::UnionOrEnd }))
    );
    assert_eq!(
        XPath::parse_from_str("//div]"),
        Err(XPathError::Syntax(SyntaxError { position: 5, expected: Expected::UnionOrEnd }))
    );
    assert_eq!(
        XPath::parse_from_str("//é)"),
        Err(XPathError::Syntax(SyntaxError { position: 3, expected: Expected::UnionOrEnd }))
    );
}

#[test]
fn wildcard_step_has_no_identifier() {
    let bare = XPath::parse_from_str("//*").unwrap();
    let step = &bare.expressions[0].pairs[0].1;
    assert!(step.tag_is_wildcard);
    assert_eq!(step.tag_identifier, "");
    assert!(step.selectors.is_empty());
    let tested = XPath::parse_from_str("descendant::*[@id][2]").unwrap();
    let step = &tested.expressions[0].pairs[0].1;
    assert_eq!(tested.expressions[0].pairs[0].0.axis_type, AxisType::Descendant);
    assert!(step.tag_is_wildcard);
    assert_eq!(step.tag_identifier, "");
    assert_eq!(step.selectors.len(), 2);
    assert_eq!(step.selectors[0].clauses, vec![SelectorClause::AttributeExists("id".to_string())]);
    assert_eq!(step.selectors[0].operator, None);
    assert_eq!(step.selectors[1].clauses, vec![SelectorClause::Position(2)]);
}

#[test]
fn long_path_with_predicates() {
    let text = "//div[contains(@class, 'id-AuthorList') and last()]/descendant::*[contains(@class, 'id-Link') or position() <=2] | //ul/child::li";
    let xpath = XPath::parse_from_str(text).unwrap();
    assert_eq!(xpath.expressions.len(), 2);
    let first = &xpath.expressions[0].pairs;
    assert_eq!(first.len(), 2);
    assert_eq!(first[0].0.axis_type, AxisType::DescendantOrSelf);
    assert_eq!(first[0].1.tag_identifier, "div");
    assert_eq!(first[0].1.selectors.len(), 1);
    assert_eq!(first[0].1.selectors[0].operator, Some(BooleanOperator::And));
    assert_eq!(
        first[0].1.selectors[0].clauses[1],
        SelectorClause::Function(FunctionCall { name: "last".to_string(), arguments: vec![] })
    );
    assert_eq!(first[1].0.axis_type, AxisType::Descendant);
    assert!(first[1].1.tag_is_wildcard);
    assert_eq!(first[1].1.selectors[0].operator, Some(BooleanOperator::Or));
    assert_eq!(
        first[1].1.selectors[0].clauses[1],
        SelectorClause::Comparison {
            left: Operand::Call(FunctionCall { name: "position".to_string(), arguments: vec![] }),
            comparator: Comparator::LessOrEqual,
            right: Operand::Literal(XPathLiteral::Integer(2)),
        }
    );
    let second = &xpath.expressions[1].pairs;
    assert_eq!(second.len(), 2);
    assert_eq!(second[1].0.axis_type, AxisType::Child);
    assert_eq!(second[1].1.tag_identifier, "li");
}
