//! What holds of every lowering: the laws that tie the typed tree to the
//! parse tree it was lowered from.
use vstd::prelude::*;
use crate::error::Expected;
use crate::error::StructuralError;
use crate::error::SyntaxError;
use crate::error::XPathError;
use crate::grammar::axis_at;
use crate::grammar::CharClass;
use crate::grammar::expression_at;
use crate::grammar::expressions_at;
use crate::grammar::is_name;
use crate::grammar::item_at;
use crate::grammar::items_at;
use crate::grammar::lemma_axis_at;
use crate::grammar::lemma_expression_at;
use crate::grammar::lemma_scan;
use crate::grammar::lemma_step_at;
use crate::grammar::name_char_at;
use crate::grammar::skip_ws;
use crate::grammar::step_at;
use crate::grammar::xpath_of;
use crate::parse_tree::lemma_first_tagged_at;
use crate::parse_tree::lemma_none_tagged;
use crate::parse_tree::ParseTree;
use crate::parse_tree::Rule;
use crate::selector::boolean_operator_of;
use crate::selector::clause_of;
use crate::selector::ClauseModel;
use crate::selector::clauses_from;
use crate::selector::selector_of;
use crate::selector::SelectorModel;
use crate::xpath_object::Axis;
use crate::xpath_object::axis_of;
use crate::xpath_object::axis_of_keyword;
use crate::xpath_object::AxisType;
use crate::xpath_object::BuilderModel;
use crate::xpath_object::BuilderState;
use crate::xpath_object::expression_of;
use crate::xpath_object::ExpressionModel;
use crate::xpath_object::expressions_of;
use crate::xpath_object::ExpressionType;
use crate::xpath_object::lemma_axis_keywords;
use crate::xpath_object::lowering_of;
use crate::xpath_object::parsed;
use crate::xpath_object::selectors_of;
use crate::xpath_object::step_of;
use crate::xpath_object::StepModel;
use crate::xpath_object::XPathModel;

verus! {

/// The tag that the child at `i` of an expression must carry: an axis at
/// each even place, a step at each odd one.
pub open spec fn tag_at(i: int) -> Rule {
    if i % 2 == 0 {
        Rule::Axis
    } else {
        Rule::Step
    }
}

/// Whether `nodes` is a run of axis, step, axis, step, at least once.
pub open spec fn alternates(nodes: Seq<ParseTree>) -> bool {
    &&& nodes.len() >= 2
    &&& nodes.len() % 2 == 0
    &&& forall|i: int| 0 <= i < nodes.len() ==> (#[trigger] nodes[i]).rule == tag_at(i)
}

/// Whether the node at `i` lowers by itself: as an axis at an even
/// place, as a step at an odd one.
pub open spec fn lowers_at(nodes: Seq<ParseTree>, i: int) -> bool {
    if i % 2 == 0 {
        axis_of(nodes[i]) is Ok
    } else {
        step_of(nodes[i]) is Ok
    }
}

/// Whether every node of `nodes` lowers by itself.
pub open spec fn all_lower(nodes: Seq<ParseTree>) -> bool {
    forall|i: int| 0 <= i < nodes.len() ==> lowers_at(nodes, i)
}

/// The pair that the nodes at `2 * k` and `2 * k + 1` stand for.
pub open spec fn pair_at(nodes: Seq<ParseTree>, k: int) -> (Axis, StepModel) {
    (
        match axis_of(nodes[2 * k]) {
            Ok(axis) => axis,
            Err(_) => arbitrary(),
        },
        match step_of(nodes[2 * k + 1]) {
            Ok(step) => step,
            Err(_) => arbitrary(),
        },
    )
}

/// The first `count` pairs that `nodes` stand for.
pub open spec fn pairs_of(nodes: Seq<ParseTree>, count: int) -> Seq<(Axis, StepModel)> {
    Seq::new(count as nat, |k: int| pair_at(nodes, k))
}

/// What the builder gives for the nodes from `from` on, once closed.
spec fn built(builder: BuilderModel, nodes: Seq<ParseTree>, from: int) -> Result<
    ExpressionModel,
    StructuralError,
> {
    match builder.feed_all(nodes, from) {
        Ok(end) => end.finish(),
        Err(error) => Err(error),
    }
}

/// Whether the nodes from `from` on carry the tags of an alternation and
/// lower one by one.
spec fn rest_alternates(nodes: Seq<ParseTree>, from: int) -> bool {
    &&& nodes.len() >= 2
    &&& nodes.len() % 2 == 0
    &&& forall|i: int| from <= i < nodes.len() ==> (#[trigger] nodes[i]).rule == tag_at(i)
    &&& forall|i: int| from <= i < nodes.len() ==> lowers_at(nodes, i)
}

/// A builder that stands between two pairs goes on to an expression
/// exactly if the nodes left alternate and lower, and then the expression
/// holds the pairs of all the nodes.
proof fn lemma_built(builder: BuilderModel, nodes: Seq<ParseTree>, from: int)
    requires
        0 <= from <= nodes.len(),
        from % 2 == 0,
        builder.pending is None,
        builder.state == (if from == 0 {
            BuilderState::Start
        } else {
            BuilderState::PrevWasStep
        }),
        builder.pairs == pairs_of(nodes, from / 2),
    ensures
        built(builder, nodes, from) is Ok <==> rest_alternates(nodes, from),
        built(builder, nodes, from) is Ok ==> built(builder, nodes, from) == Ok::<
            ExpressionModel,
            StructuralError,
        >(ExpressionModel { pairs: pairs_of(nodes, nodes.len() as int / 2) }),
    decreases nodes.len() - from,
{
    if from == nodes.len() {
        assert(builder.feed_all(nodes, from) == Ok::<BuilderModel, StructuralError>(builder));
    } else if from + 1 == nodes.len() {
        match builder.feed(nodes[from]) {
            Ok(next) => {
                assert(next.feed_all(nodes, from + 1) == Ok::<BuilderModel, StructuralError>(next));
                assert(builder.feed_all(nodes, from) == next.feed_all(nodes, from + 1));
            },
            Err(_) => {},
        }
    } else {
        let axis_node = nodes[from];
        let step_node = nodes[from + 1];
        match builder.feed(axis_node) {
            Ok(waiting) => {
                assert(axis_node.rule == tag_at(from));
                assert(lowers_at(nodes, from));
                match waiting.feed(step_node) {
                    Ok(next) => {
                        assert(step_node.rule == tag_at(from + 1));
                        assert(lowers_at(nodes, from + 1));
                        assert(next.pairs =~= pairs_of(nodes, (from + 2) / 2));
                        lemma_built(next, nodes, from + 2);
                        assert(builder.feed_all(nodes, from) == waiting.feed_all(nodes, from + 1));
                        assert(waiting.feed_all(nodes, from + 1) == next.feed_all(nodes, from + 2));
                        assert(built(builder, nodes, from) == built(next, nodes, from + 2));
                        if rest_alternates(nodes, from + 2) {
                            assert forall|i: int| from <= i < nodes.len() implies (
                            #[trigger] nodes[i]).rule == tag_at(i) by {
                                if i >= from + 2 {
                                }
                            }
                            assert forall|i: int| from <= i < nodes.len() implies lowers_at(
                                nodes,
                                i,
                            ) by {
                                if i >= from + 2 {
                                }
                            }
                        }
                    },
                    Err(_) => {
                        assert(builder.feed_all(nodes, from) == waiting.feed_all(nodes, from + 1));
                        assert(!(step_node.rule == tag_at(from + 1) && lowers_at(nodes, from + 1)));
                    },
                }
            },
            Err(_) => {
                assert(!(axis_node.rule == tag_at(from) && lowers_at(nodes, from)));
            },
        }
    }
}

/// The alternation law. An expression node lowers exactly if its
/// children are axis, step, axis, step, at least once, and each lowers by
/// itself; the expression then pairs each axis with the step behind it,
/// in order.
pub proof fn lemma_expression_alternates(node: ParseTree)
    requires
        node.rule == Rule::XpathExpression,
    ensures
        expression_of(node) is Ok <==> alternates(node.children) && all_lower(node.children),
        expression_of(node) is Ok ==> expression_of(node) == Ok::<ExpressionModel, StructuralError>(
            ExpressionModel { pairs: pairs_of(node.children, node.children.len() as int / 2) },
        ),
        expression_of(node) is Ok ==> pairs_of(node.children, node.children.len() as int / 2).len() >= 1,
{
    assert(pairs_of(node.children, 0) =~= Seq::empty());
    lemma_built(BuilderModel::start(), node.children, 0);
}

/// Two neighbours of the same kind, two axes or two steps, make the
/// expression fail.
pub proof fn lemma_neighbours_of_one_kind_fail(node: ParseTree, i: int)
    requires
        node.rule == Rule::XpathExpression,
        0 <= i,
        i + 1 < node.children.len(),
        node.children[i].rule == node.children[i + 1].rule,
    ensures
        expression_of(node) is Err,
{
    lemma_expression_alternates(node);
    if alternates(node.children) {
        assert(node.children[i].rule == tag_at(i));
        assert(node.children[i + 1].rule == tag_at(i + 1));
    }
}

/// One axis and one step make one pair, whatever form the axis was
/// written in.
pub proof fn lemma_single_pair(node: ParseTree)
    requires
        node.rule == Rule::XpathExpression,
        node.children.len() == 2,
        node.children[0].rule == Rule::Axis,
        node.children[1].rule == Rule::Step,
    ensures
        expression_of(node) == match (axis_of(node.children[0]), step_of(node.children[1])) {
            (Ok(axis), Ok(step)) => Ok::<ExpressionModel, StructuralError>(
                ExpressionModel { pairs: seq![(axis, step)] },
            ),
            (Err(error), _) => Err(error),
            (_, Err(error)) => Err(error),
        },
{
    let start = BuilderModel::start();
    match start.feed(node.children[0]) {
        Ok(waiting) => {
            match waiting.feed(node.children[1]) {
                Ok(next) => {
                    assert(next.feed_all(node.children, 2) == Ok::<BuilderModel, StructuralError>(
                        next,
                    ));
                    assert(waiting.feed_all(node.children, 1) == next.feed_all(node.children, 2));
                    assert(next.pairs =~= seq![
                        (axis_of(node.children[0])->Ok_0, step_of(node.children[1])->Ok_0),
                    ]);
                },
                Err(_) => {},
            }
        },
        Err(_) => {},
    }
}

/// Whether no tree of `trees` is tagged as an axis name.
pub open spec fn unnamed(trees: Seq<ParseTree>) -> bool {
    forall|i: int| 0 <= i < trees.len() ==> (#[trigger] trees[i]).rule != Rule::AxisName
}

/// Whether the tree at `place` is the first of `trees` that is tagged as
/// an axis name.
pub open spec fn named_at(trees: Seq<ParseTree>, place: int) -> bool {
    &&& 0 <= place < trees.len()
    &&& trees[place].rule == Rule::AxisName
    &&& forall|i: int| 0 <= i < place ==> (#[trigger] trees[i]).rule != Rule::AxisName
}

/// The shorthand `/` and the keyword `child` stand for the same axis,
/// and so do `//` and `descendant-or-self`; an axis without a name that
/// is neither `/` nor `//` is an unexpected axis token.
pub proof fn lemma_shorthand_axes(shorthand: ParseTree, explicit: ParseTree, place: int)
    requires
        shorthand.rule == Rule::Axis,
        unnamed(shorthand.children),
        explicit.rule == Rule::Axis,
        named_at(explicit.children, place),
    ensures
        shorthand.text == "/"@ && explicit.children[place].text == "child"@ ==> axis_of(shorthand)
            == axis_of(explicit),
        shorthand.text == "/"@ ==> axis_of(shorthand) == Ok::<Axis, StructuralError>(
            Axis { axis_type: AxisType::Child },
        ),
        shorthand.text == "//"@ ==> axis_of(shorthand) == Ok::<Axis, StructuralError>(
            Axis { axis_type: AxisType::DescendantOrSelf },
        ),
        shorthand.text == "//"@ && explicit.children[place].text == "descendant-or-self"@
            ==> axis_of(shorthand) == axis_of(explicit),
        shorthand.text != "/"@ && shorthand.text != "//"@ ==> axis_of(shorthand) == Err::<
            Axis,
            StructuralError,
        >(StructuralError::UnexpectedAxisToken),
{
    lemma_axis_keywords();
    lemma_none_tagged(shorthand.children, Rule::AxisName);
    lemma_first_tagged_at(explicit.children, Rule::AxisName, place);
    reveal_strlit("/");
    reveal_strlit("//");
    assert("/"@.len() == 1 && "//"@.len() == 2);
}

/// An axis written with a name resolves exactly if the name is one of
/// the thirteen keywords, to the axis of that keyword and never to the
/// placeholder; any other name is an unrecognized axis name. The name
/// is the first child that is tagged as one, wherever it stands.
pub proof fn lemma_explicit_axis(node: ParseTree, place: int)
    requires
        node.rule == Rule::Axis,
        named_at(node.children, place),
    ensures
        axis_of(node) == match axis_of_keyword(node.children[place].text) {
            Some(axis_type) => Ok::<Axis, StructuralError>(Axis { axis_type }),
            None => Err(StructuralError::UnrecognizedAxisName),
        },
        axis_of(node) != Ok::<Axis, StructuralError>(Axis { axis_type: AxisType::InvalidAxisType }),
{
    lemma_axis_keywords();
    lemma_first_tagged_at(node.children, Rule::AxisName, place);
}

/// No axis node resolves to the placeholder.
pub proof fn lemma_no_axis_is_invalid(node: ParseTree)
    ensures
        axis_of(node) != Ok::<Axis, StructuralError>(Axis { axis_type: AxisType::InvalidAxisType }),
{
    lemma_axis_keywords();
}

/// An expression that opens with a step fails: no axis precedes the
/// step.
pub proof fn lemma_expression_must_open_with_axis(node: ParseTree)
    requires
        node.rule == Rule::XpathExpression,
        node.children.len() > 0,
        node.children[0].rule == Rule::Step,
    ensures
        expression_of(node) == Err::<ExpressionModel, StructuralError>(
            StructuralError::StepWithoutAxis,
        ),
{
}

/// A step whose node test is `*` is a wildcard with an empty identifier,
/// whatever predicates are attached; a step whose node test is a name is
/// no wildcard and carries the name.
pub proof fn lemma_wildcard_step(node: ParseTree)
    requires
        node.rule == Rule::Step,
        node.children.len() > 0,
        node.children[0].rule == Rule::NodeTest,
    ensures
        node.children[0].text == "*"@ ==> match step_of(node) {
            Ok(step) => step.tag_is_wildcard && step.tag_identifier == Seq::<char>::empty(),
            Err(_) => selectors_of(node.children, 1, Seq::empty()) is Err,
        },
        is_name(node.children[0].text) ==> match step_of(node) {
            Ok(step) => !step.tag_is_wildcard && step.tag_identifier == node.children[0].text,
            Err(_) => selectors_of(node.children, 1, Seq::empty()) is Err,
        },
        step_of(node) is Ok ==> (node.children[0].text == "*"@) != is_name(node.children[0].text),
{
    reveal_strlit("*");
    if is_name("*"@) {
        assert(name_char_at("*"@, 0));
    }
}

/// The expressions that `nodes` stand for, one by one.
pub open spec fn expressions_in_order(nodes: Seq<ParseTree>) -> Seq<ExpressionModel> {
    Seq::new(
        nodes.len(),
        |i: int|
            match expression_of(nodes[i]) {
                Ok(expression) => expression,
                Err(_) => arbitrary(),
            },
    )
}

/// Whether every node of `nodes` from `from` on is an expression node
/// that lowers.
pub open spec fn all_expressions(nodes: Seq<ParseTree>, from: int) -> bool {
    forall|i: int|
        from <= i < nodes.len() ==> (#[trigger] nodes[i]).rule == Rule::XpathExpression
            && expression_of(nodes[i]) is Ok
}

proof fn lemma_expressions_of(nodes: Seq<ParseTree>, from: int, acc: Seq<ExpressionModel>)
    requires
        0 <= from <= nodes.len(),
        forall|i: int| 0 <= i < nodes.len() ==> (#[trigger] nodes[i]).rule == Rule::XpathExpression,
        acc == expressions_in_order(nodes).subrange(0, from),
    ensures
        expressions_of(nodes, from, acc) is Ok <==> all_expressions(nodes, from),
        expressions_of(nodes, from, acc) is Ok ==> expressions_of(nodes, from, acc) == Ok::<
            Seq<ExpressionModel>,
            StructuralError,
        >(expressions_in_order(nodes)),
    decreases nodes.len() - from,
{
    if from < nodes.len() {
        assert(nodes[from].rule == Rule::XpathExpression);
        match expression_of(nodes[from]) {
            Ok(expression) => {
                assert(acc.push(expression) =~= expressions_in_order(nodes).subrange(0, from + 1));
                lemma_expressions_of(nodes, from + 1, acc.push(expression));
                if all_expressions(nodes, from + 1) {
                    assert forall|i: int| from <= i < nodes.len() implies (
                    #[trigger] nodes[i]).rule == Rule::XpathExpression && expression_of(
                        nodes[i],
                    ) is Ok by {
                        if i > from {
                        }
                    }
                }
            },
            Err(_) => {},
        }
    } else {
        assert(acc =~= expressions_in_order(nodes));
    }
}

/// The union law. A root whose children are all expression nodes lowers
/// exactly if each of them does, and then holds one expression for each
/// child, in the order of the children.
pub proof fn lemma_union_in_order(root: ParseTree)
    requires
        root.rule == Rule::Xpath,
        forall|i: int|
            0 <= i < root.children.len() ==> (#[trigger] root.children[i]).rule
                == Rule::XpathExpression,
    ensures
        lowering_of(root) is Ok <==> all_expressions(root.children, 0),
        lowering_of(root) is Ok ==> lowering_of(root) == Ok::<XPathModel, StructuralError>(
            XPathModel {
                expressions: expressions_in_order(root.children),
                output_type: ExpressionType::InvalidExpressionType,
            },
        ),
{
    assert(Seq::<ExpressionModel>::empty() =~= expressions_in_order(root.children).subrange(0, 0));
    lemma_expressions_of(root.children, 0, Seq::empty());
}

/// A tree whose root is not an xpath node never lowers.
pub proof fn lemma_root_must_be_xpath(root: ParseTree)
    requires
        root.rule != Rule::Xpath,
    ensures
        lowering_of(root) == Err::<XPathModel, StructuralError>(StructuralError::RootNotXPath),
{
}

/// Whether every node of `nodes` is an expression node.
pub open spec fn all_tagged_expression(nodes: Seq<ParseTree>) -> bool {
    forall|i: int| 0 <= i < nodes.len() ==> (#[trigger] nodes[i]).rule == Rule::XpathExpression
}

/// The grammar adds expression nodes to those it was given, at least one.
proof fn lemma_expressions_at(s: Seq<char>, pos: int, acc: Seq<ParseTree>)
    requires
        all_tagged_expression(acc),
    ensures
        match expressions_at(s, pos, acc) {
            Ok(nodes) => nodes.len() > acc.len() && all_tagged_expression(nodes),
            Err(_) => true,
        },
    decreases s.len() - pos,
{
    lemma_expression_at(s, pos);
    match expression_at(s, pos) {
        Some((expression, end)) => {
            let next = skip_ws(s, end);
            lemma_scan(s, end, CharClass::Whitespace);
            lemma_scan(s, next + 1, CharClass::Whitespace);
            if next < s.len() && s[next] == '|' {
                lemma_expressions_at(s, skip_ws(s, next + 1), acc.push(expression));
            }
        },
        None => {},
    }
}

/// The shape of a parse tree. The root of the tree of a text is an xpath
/// node over the whole text, and its children are expression nodes, at
/// least one.
pub proof fn lemma_parse_tree_shape(text: Seq<char>)
    ensures
        match xpath_of(text) {
            Ok(root) => {
                &&& root.rule == Rule::Xpath
                &&& root.text == text
                &&& root.children.len() >= 1
                &&& all_tagged_expression(root.children)
            },
            Err(_) => true,
        },
{
    lemma_expressions_at(text, skip_ws(text, 0), Seq::empty());
    assert(text.subrange(0, text.len() as int) =~= text);
}

/// A text without characters is rejected where it starts.
pub proof fn lemma_empty_text_is_rejected(text: Seq<char>)
    requires
        text.len() == 0,
    ensures
        parsed(text) == Err::<XPathModel, XPathError>(
            XPathError::Syntax(SyntaxError { position: 0, expected: Expected::Expression }),
        ),
{
}

/// No parse succeeds with nothing in it: a parsed query holds at least
/// one expression, and each of its expressions at least one pair.
pub proof fn lemma_parsed_is_never_empty(text: Seq<char>)
    ensures
        match parsed(text) {
            Ok(xpath) => {
                &&& xpath.expressions.len() >= 1
                &&& forall|i: int|
                    0 <= i < xpath.expressions.len() ==> (
                    #[trigger] xpath.expressions[i]).pairs.len() >= 1
            },
            Err(_) => true,
        },
{
    lemma_parse_tree_shape(text);
    match xpath_of(text) {
        Ok(root) => {
            lemma_union_in_order(root);
            match lowering_of(root) {
                Ok(xpath) => {
                    assert forall|i: int| 0 <= i < xpath.expressions.len() implies (
                    #[trigger] xpath.expressions[i]).pairs.len() >= 1 by {
                        assert(root.children[i].rule == Rule::XpathExpression);
                        lemma_expression_alternates(root.children[i]);
                    }
                },
                Err(_) => {},
            }
        },
        Err(_) => {},
    }
}

/// The alternation law, of texts. In every parsed query each
/// expression pairs the axes and steps of its node, which alternate:
/// no expression is parsed from two neighbours of one kind.
pub proof fn lemma_parsed_alternates(text: Seq<char>)
    ensures
        match (xpath_of(text), parsed(text)) {
            (Ok(root), Ok(xpath)) => {
                &&& xpath.expressions.len() == root.children.len()
                &&& forall|i: int|
                    0 <= i < root.children.len() ==> {
                        &&& alternates((#[trigger] root.children[i]).children)
                        &&& xpath.expressions[i].pairs == pairs_of(
                            root.children[i].children,
                            root.children[i].children.len() as int / 2,
                        )
                    }
            },
            _ => true,
        },
{
    lemma_parse_tree_shape(text);
    match xpath_of(text) {
        Ok(root) => {
            lemma_union_in_order(root);
            match lowering_of(root) {
                Ok(xpath) => {
                    assert forall|i: int| 0 <= i < root.children.len() implies {
                        &&& alternates((#[trigger] root.children[i]).children)
                        &&& xpath.expressions[i].pairs == pairs_of(
                            root.children[i].children,
                            root.children[i].children.len() as int / 2,
                        )
                    } by {
                        assert(root.children[i].rule == Rule::XpathExpression);
                        lemma_expression_alternates(root.children[i]);
                    }
                },
                Err(_) => {},
            }
        },
        Err(_) => {},
    }
}

/// A text in which the grammar finds two neighbours of one kind, two
/// axes or two steps, is rejected.
pub proof fn lemma_parse_fails_on_neighbours(text: Seq<char>, expression: int, i: int)
    requires
        xpath_of(text) is Ok,
        0 <= expression < xpath_of(text)->Ok_0.children.len(),
        0 <= i,
        i + 1 < xpath_of(text)->Ok_0.children[expression].children.len(),
        xpath_of(text)->Ok_0.children[expression].children[i].rule == xpath_of(
            text,
        )->Ok_0.children[expression].children[i + 1].rule,
    ensures
        parsed(text) is Err,
{
    lemma_parsed_alternates(text);
    let node = xpath_of(text)->Ok_0.children[expression];
    if parsed(text) is Ok {
        assert(alternates(node.children));
        assert(node.children[i].rule == tag_at(i));
        assert(node.children[i + 1].rule == tag_at(i + 1));
    }
}

/// The grammar keeps the items that it was given, in front of those
/// that it adds.
proof fn lemma_items_keep(s: Seq<char>, pos: int, acc: Seq<ParseTree>)
    ensures
        items_at(s, pos, acc).0.len() >= acc.len(),
        forall|i: int| 0 <= i < acc.len() ==> items_at(s, pos, acc).0[i] == acc[i],
    decreases s.len() - pos,
{
    let at = skip_ws(s, pos);
    lemma_scan(s, pos, CharClass::Whitespace);
    lemma_axis_at(s, at);
    lemma_step_at(s, at);
    match item_at(s, at) {
        Some((item, end)) => {
            lemma_items_keep(s, end, acc.push(item));
            assert forall|i: int| 0 <= i < acc.len() implies items_at(s, pos, acc).0[i]
                == acc[i] by {
                assert(acc.push(item)[i] == acc[i]);
            }
        },
        None => {},
    }
}

/// The grammar puts the expression that it finds at `pos` right behind
/// the expressions that it was given.
proof fn lemma_expressions_keep(s: Seq<char>, pos: int, acc: Seq<ParseTree>)
    ensures
        match (expressions_at(s, pos, acc), expression_at(s, pos)) {
            (Ok(nodes), Some((expression, end))) => nodes.len() > acc.len() && nodes[acc.len() as int]
                == expression && forall|i: int| 0 <= i < acc.len() ==> nodes[i] == acc[i],
            (Ok(nodes), None) => false,
            _ => true,
        },
    decreases s.len() - pos,
{
    lemma_expression_at(s, pos);
    match expression_at(s, pos) {
        Some((expression, end)) => {
            let next = skip_ws(s, end);
            lemma_scan(s, end, CharClass::Whitespace);
            lemma_scan(s, next + 1, CharClass::Whitespace);
            let grown = acc.push(expression);
            if next < s.len() && s[next] == '|' {
                lemma_expressions_keep(s, skip_ws(s, next + 1), grown);
                match expressions_at(s, skip_ws(s, next + 1), grown) {
                    Ok(nodes) => {
                        assert(nodes[acc.len() as int] == grown[acc.len() as int]);
                        assert forall|i: int| 0 <= i < acc.len() implies nodes[i] == acc[i] by {
                            assert(nodes[i] == grown[i]);
                        }
                    },
                    Err(_) => {},
                }
            }
        },
        None => {},
    }
}

/// A text that opens with a step is rejected. Where the grammar finds a
/// step and no axis at the start of a text, the text does not parse: if
/// it matches the grammar at all, its first step is preceded by no axis.
pub proof fn lemma_leading_step_is_rejected(text: Seq<char>)
    requires
        axis_at(text, skip_ws(text, 0)) is None,
        step_at(text, skip_ws(text, 0)) is Some,
    ensures
        match parsed(text) {
            Ok(_) => false,
            Err(XPathError::Syntax(_)) => true,
            Err(XPathError::Structure(error)) => error == StructuralError::StepWithoutAxis,
        },
{
    let start = skip_ws(text, 0);
    lemma_step_at(text, start);
    lemma_parse_tree_shape(text);
    lemma_expressions_keep(text, start, Seq::empty());
    match (xpath_of(text), step_at(text, start)) {
        (Ok(root), Some((step, end))) => {
            lemma_items_keep(text, end, seq![step]);
            let expression = root.children[0];
            assert(expression.children[0] == seq![step][0]);
            lemma_expression_must_open_with_axis(expression);
        },
        _ => {},
    }
}

/// The clause that the node at `2 * k` stands for.
pub open spec fn clause_at_place(nodes: Seq<ParseTree>, k: int) -> ClauseModel {
    match clause_of(nodes[2 * k]) {
        Ok(clause) => clause,
        Err(_) => arbitrary(),
    }
}

/// The first `count` clauses that `nodes` stand for.
pub open spec fn clauses_in_order(nodes: Seq<ParseTree>, count: int) -> Seq<ClauseModel> {
    Seq::new(count as nat, |k: int| clause_at_place(nodes, k))
}

/// Whether a selector is what the children of a predicate ask for: an
/// odd number of children, the clauses of the even places in order, and
/// at each odd place the one operator of the selector; no operator only
/// where there is a single clause.
pub open spec fn selector_matches(selector: SelectorModel, nodes: Seq<ParseTree>) -> bool {
    &&& nodes.len() % 2 == 1
    &&& selector.clauses == clauses_in_order(nodes, (nodes.len() as int + 1) / 2)
    &&& forall|i: int|
        0 <= i < nodes.len() && i % 2 == 1 ==> boolean_operator_of((#[trigger] nodes[i]).text)
            == selector.operator
    &&& selector.operator is None <==> nodes.len() == 1
}

proof fn lemma_clauses_from(nodes: Seq<ParseTree>, from: int, acc: SelectorModel)
    requires
        0 <= from <= nodes.len(),
        acc.clauses == clauses_in_order(nodes, (from + 1) / 2),
        forall|i: int|
            0 <= i < from && i % 2 == 1 ==> boolean_operator_of((#[trigger] nodes[i]).text)
                == acc.operator,
        acc.operator is None <==> from <= 1,
    ensures
        match clauses_from(nodes, from, acc) {
            Ok(selector) => selector_matches(selector, nodes),
            Err(_) => true,
        },
    decreases nodes.len() - from,
{
    if from < nodes.len() {
        if from % 2 == 0 {
            match clause_of(nodes[from]) {
                Ok(clause) => {
                    let next = SelectorModel {
                        clauses: acc.clauses.push(clause),
                        operator: acc.operator,
                    };
                    assert(next.clauses =~= clauses_in_order(nodes, (from + 2) / 2));
                    lemma_clauses_from(nodes, from + 1, next);
                },
                Err(_) => {},
            }
        } else {
            match boolean_operator_of(nodes[from].text) {
                Some(operator) => {
                    let next = SelectorModel { clauses: acc.clauses, operator: Some(operator) };
                    if !(acc.operator is Some && acc.operator != Some(operator)) {
                        lemma_clauses_from(nodes, from + 1, next);
                    }
                },
                None => {},
            }
        }
    }
}

/// The one-operator law. A predicate that lowers holds the clauses of
/// its node in order, and one operator joins them all: every operator
/// written in the predicate is the operator of the selector.
pub proof fn lemma_selector_has_one_operator(node: ParseTree)
    requires
        node.rule == Rule::Predicate,
    ensures
        match selector_of(node) {
            Ok(selector) => selector_matches(selector, node.children),
            Err(_) => true,
        },
{
    let start = SelectorModel { clauses: Seq::empty(), operator: None };
    assert(start.clauses =~= clauses_in_order(node.children, 0));
    lemma_clauses_from(node.children, 0, start);
}

} // verus!
