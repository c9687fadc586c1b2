use xpath::error::{Expected, StructuralError, SyntaxError, XPathError};
use xpath::grammar::{check_digit, check_name, check_name_char, check_name_start, check_whitespace, CharClass};
use xpath::parse_tree::{ParseNode, Rule};
use xpath::selector::{
    BooleanOperator, Comparator, FunctionCall, Operand, SelectorClause, XPathLiteral,
};
use xpath::string_types::{EQName, QName};
use xpath::text::str_eq;
use xpath::typer::{XPathType, XPathTypedOutput};
use xpath::xpath_object::{AxisType, XPath};
use xpath::xpath_parser::XPathParser;

fn leaf(rule: Rule, text: &str) -> ParseNode {
    ParseNode::new(rule, text, vec![])
}

#[test]
fn parse_tree_of_an_explicit_pair() {
    let tree = XPathParser::parse("child::div").unwrap();
    assert_eq!(tree.rule, Rule::Xpath);
    assert_eq!(tree.text, "child::div");
    assert_eq!(tree.children.len(), 1);
    let expression = &tree.children[0];
    assert_eq!(expression.rule, Rule::XpathExpression);
    assert_eq!(expression.text, "child::div");
    assert_eq!(expression.children.len(), 2);
    let axis = &expression.children[0];
    assert_eq!((axis.rule, axis.text.as_str()), (Rule::Axis, "child::"));
    assert_eq!(axis.children.len(), 1);
    assert_eq!((axis.children[0].rule, axis.children[0].text.as_str()), (Rule::AxisName, "child"));
    let step = &expression.children[1];
    assert_eq!((step.rule, step.text.as_str()), (Rule::Step, "div"));
    assert_eq!(step.children.len(), 1);
    assert_eq!((step.children[0].rule, step.children[0].text.as_str()), (Rule::NodeTest, "div"));
    assert!(step.children[0].children.is_empty());
}

#[test]
fn parse_tree_of_a_leading_step() {
    let tree = XPathParser::parse(" p ").unwrap();
    assert_eq!(tree.text, " p ");
    assert_eq!(tree.children.len(), 1);
    let expression = &tree.children[0];
    assert_eq!(expression.text, "p");
    assert_eq!(expression.children.len(), 1);
    assert_eq!((expression.children[0].rule, expression.children[0].text.as_str()), (Rule::Step, "p"));
    assert_eq!(
        XPath::from_node(&tree).err(),
        Some(StructuralError::StepWithoutAxis)
    );
}

#[test]
fn outline_of_a_parse_tree() {
    let tree = XPathParser::parse("//a[@b = 'c']/parent::*").unwrap();
    assert_eq!(
        tree.outline(),
        vec![
            "xpath: //a[@b = 'c']/parent::*",
            "\txpath_expression: //a[@b = 'c']/parent::*",
            "\t\taxis: //",
            "\t\tstep: a[@b = 'c']",
            "\t\t\tnode_test: a",
            "\t\t\tpredicate: [@b = 'c']",
            "\t\t\t\tclause: @b = 'c'",
            "\t\t\t\t\tattribute: @b",
            "\t\t\t\t\t\tname: b",
            "\t\t\t\t\tcomparator: =",
            "\t\t\t\t\tstring_literal: 'c'",
            "\t\t\t\t\t\tstring_content: c",
            "\t\taxis: /parent::",
            "\t\t\taxis_name: parent",
            "\t\tstep: *",
            "\t\t\tnode_test: *",
        ]
    );
    assert_eq!(leaf(Rule::Integer, "12").outline(), vec!["integer: 12"]);
    let axis = ParseNode::new(Rule::Axis, "self::", vec![leaf(Rule::AxisName, "self")]);
    assert_eq!(axis.outline_at(2), vec!["\t\taxis: self::", "\t\t\taxis_name: self"]);
    assert_eq!(axis.outline_at(0), axis.outline());
}

#[test]
fn rule_names() {
    assert_eq!(Rule::Xpath.as_str(), "xpath");
    assert_eq!(Rule::XpathExpression.as_str(), "xpath_expression");
    assert_eq!(Rule::FunctionCall.as_str(), "function_call");
    assert_eq!(Rule::BooleanOperator.as_str(), "boolean_operator");
}

#[test]
fn whitespace_is_allowed_between_tokens() {
    let spaced = XPath::parse_from_str("  //div [ @a  and contains( @b ,\t'c' ) ]\n|\n//p  ").unwrap();
    let tight = XPath::parse_from_str("//div[@a and contains(@b,'c')]|//p").unwrap();
    assert_eq!(spaced, tight);
    assert_eq!(spaced.expressions.len(), 2);
}

#[test]
fn comparison_with_a_double_quoted_string() {
    let xpath = XPath::parse_from_str("//meta[@name=\"PUD\"]").unwrap();
    let step = &xpath.expressions[0].pairs[0].1;
    assert_eq!(step.tag_identifier, "meta");
    assert_eq!(
        step.selectors[0].clauses,
        vec![SelectorClause::Comparison {
            left: Operand::Attribute("name".to_string()),
            comparator: Comparator::Equal,
            right: Operand::Literal(XPathLiteral::Text("PUD".to_string())),
        }]
    );
}

#[test]
fn every_comparator() {
    let cases = [
        ("=", Comparator::Equal),
        ("!=", Comparator::NotEqual),
        ("<", Comparator::Less),
        ("<=", Comparator::LessOrEqual),
        (">", Comparator::Greater),
        (">=", Comparator::GreaterOrEqual),
    ];
    for (token, expected) in cases {
        let text = format!("//a[position(){}3]", token);
        let xpath = XPath::parse_from_str(&text).unwrap();
        assert_eq!(
            xpath.expressions[0].pairs[0].1.selectors[0].clauses,
            vec![SelectorClause::Comparison {
                left: Operand::Call(FunctionCall { name: "position".to_string(), arguments: vec![] }),
                comparator: expected,
                right: Operand::Literal(XPathLiteral::Integer(3)),
            }]
        );
    }
}

#[test]
fn nested_calls() {
    let xpath = XPath::parse_from_str("//a[not(contains(@class, \"it's\"))]").unwrap();
    assert_eq!(
        xpath.expressions[0].pairs[0].1.selectors[0].clauses,
        vec![SelectorClause::Function(FunctionCall {
            name: "not".to_string(),
            arguments: vec![Operand::Call(FunctionCall {
                name: "contains".to_string(),
                arguments: vec![
                    Operand::Attribute("class".to_string()),
                    Operand::Literal(XPathLiteral::Text("it's".to_string())),
                ],
            })],
        })]
    );
}

#[test]
fn one_operator_for_each_predicate() {
    assert_eq!(
        XPath::parse_from_str("//a[@x and @y or @z]"),
        Err(XPathError::Structure(StructuralError::MixedOperators))
    );
    let xpath = XPath::parse_from_str("//a[@x and @y][@x or @z or @w]").unwrap();
    let selectors = &xpath.expressions[0].pairs[0].1.selectors;
    assert_eq!(selectors[0].operator, Some(BooleanOperator::And));
    assert_eq!(selectors[0].clauses.len(), 2);
    assert_eq!(selectors[1].operator, Some(BooleanOperator::Or));
    assert_eq!(selectors[1].clauses.len(), 3);
}

#[test]
fn errors_from_inside_a_predicate() {
    assert_eq!(
        XPath::parse_from_str("//a['text']"),
        Err(XPathError::Structure(StructuralError::MalformedClause))
    );
    assert_eq!(
        XPath::parse_from_str("//a[18446744073709551616]"),
        Err(XPathError::Structure(StructuralError::IntegerOutOfRange))
    );
    assert_eq!(
        XPath::parse_from_str("//a[18446744073709551615]").map(|x| x.expressions.len()),
        Ok(1)
    );
    assert_eq!(
        XPath::parse_from_str("//a[@b =]"),
        Err(XPathError::Syntax(SyntaxError { position: 3, expected: Expected::UnionOrEnd }))
    );
    assert_eq!(
        XPath::parse_from_str("//a[f(1,)]"),
        Err(XPathError::Syntax(SyntaxError { position: 3, expected: Expected::UnionOrEnd }))
    );
    assert_eq!(
        XPath::parse_from_str("//a['open]"),
        Err(XPathError::Syntax(SyntaxError { position: 3, expected: Expected::UnionOrEnd }))
    );
}

#[test]
fn names_outside_ascii() {
    let xpath = XPath::parse_from_str("//日本語/child::straße[@größe]").unwrap();
    let pairs = &xpath.expressions[0].pairs;
    assert_eq!(pairs[0].0.axis_type, AxisType::DescendantOrSelf);
    assert_eq!(pairs[0].1.tag_identifier, "日本語");
    assert_eq!(pairs[1].0.axis_type, AxisType::Child);
    assert_eq!(pairs[1].1.tag_identifier, "straße");
    assert_eq!(
        pairs[1].1.selectors[0].clauses,
        vec![SelectorClause::AttributeExists("größe".to_string())]
    );
}

#[test]
fn character_classes() {
    assert!(check_whitespace(' ') && check_whitespace('\t') && check_whitespace('\n') && check_whitespace('\r'));
    assert!(!check_whitespace('a') && !check_whitespace('\u{a0}'));
    assert!(check_digit('0') && check_digit('9') && !check_digit('a') && !check_digit('/'));
    assert!(check_name_start('a') && check_name_start('Z') && check_name_start('_') && check_name_start('é'));
    assert!(!check_name_start('1') && !check_name_start('-') && !check_name_start(':') && !check_name_start('\x7f'));
    assert!(check_name_char('1') && check_name_char('-') && check_name_char('.') && check_name_char('q'));
    assert!(!check_name_char(':') && !check_name_char('/') && !check_name_char('*') && !check_name_char(' '));
    assert!(CharClass::Except('\'').test('"') && !CharClass::Except('\'').test('\''));
    assert!(CharClass::Whitespace.test(' ') && CharClass::NameChar.test('x') && CharClass::Digit.test('5'));
}

#[test]
fn names() {
    assert!(check_name("div") && check_name("_x-1.y") && check_name("a"));
    assert!(!check_name("") && !check_name("1a") && !check_name("a:b") && !check_name("-a") && !check_name("*"));
}

#[test]
fn strings_compare_by_their_characters() {
    assert!(str_eq("", ""));
    assert!(str_eq("child", "child"));
    assert!(!str_eq("child", "Child"));
    assert!(!str_eq("child", "children"));
    assert!(!str_eq("child", ""));
    assert!(str_eq("größe", "größe"));
    assert!(!str_eq("größe", "grösse"));
}

#[test]
fn qualified_names_start_empty() {
    let name = QName::new();
    assert_eq!(name.prefix, "");
    assert_eq!(name.local_part, "");
    assert_eq!(EQName::QName(QName::new()), EQName::QName(name));
    assert_ne!(EQName::URIQualifiedName("u".to_string()), EQName::QName(QName::new()));
}

struct Flag;

impl XPathTypedOutput for Flag {
    fn get_output_type(&self) -> XPathType {
        XPathType::Boolean
    }
}

#[test]
fn typed_output() {
    assert_eq!(Flag.get_output_type(), XPathType::Boolean);
    assert_ne!(XPathType::NoValue, XPathType::Sequence);
}
