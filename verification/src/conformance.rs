//! What the trees of the grammar look like, and what follows for their
//! lowering: a tree that the grammar gave can fail to lower only for
//! what the grammar does not enforce.
use vstd::prelude::*;
use crate::error::StructuralError;
use crate::error::XPathError;
use crate::grammar::arguments_at;
use crate::grammar::axis_at;
use crate::grammar::boolean_operator_at;
use crate::grammar::call_at;
use crate::grammar::CharClass;
use crate::grammar::clause_at;
use crate::grammar::clauses_at;
use crate::grammar::comparator_at;
use crate::grammar::expression_at;
use crate::grammar::expressions_at;
use crate::grammar::has_char;
use crate::grammar::is_digit;
use crate::grammar::is_name;
use crate::grammar::item_at;
use crate::grammar::items_at;
use crate::grammar::lemma_axis_at;
use crate::grammar::lemma_clause_at;
use crate::grammar::lemma_expression_at;
use crate::grammar::lemma_name_at;
use crate::grammar::lemma_operand_at;
use crate::grammar::lemma_predicate_at;
use crate::grammar::lemma_scan;
use crate::grammar::lemma_step_at;
use crate::grammar::name_at;
use crate::grammar::name_char_at;
use crate::grammar::node_test_at;
use crate::grammar::operand_at;
use crate::grammar::predicate_at;
use crate::grammar::predicates_at;
use crate::grammar::scan;
use crate::grammar::skip_ws;
use crate::grammar::step_at;
use crate::grammar::xpath_of;
use crate::parse_tree::lemma_first_tagged_at;
use crate::parse_tree::lemma_none_tagged;
use crate::parse_tree::ParseTree;
use crate::parse_tree::Rule;
use crate::selector::all_digits;
use crate::selector::boolean_operator_of;
use crate::selector::clause_of;
use crate::selector::clauses_from;
use crate::selector::comparator_of;
use crate::selector::operand_of;
use crate::selector::OperandModel;
use crate::selector::operands_of;
use crate::selector::selector_of;
use crate::selector::SelectorModel;
use crate::xpath_object::axis_of;
use crate::xpath_object::BuilderModel;
use crate::xpath_object::expression_of;
use crate::xpath_object::ExpressionModel;
use crate::xpath_object::expressions_of;
use crate::xpath_object::parsed;
use crate::xpath_object::selectors_of;
use crate::xpath_object::step_of;

verus! {

/// Whether a tree has the shape of an operand: an attribute over its
/// name, a string over its content, an integer of digits, or a call
/// over its name and operands.
pub open spec fn operand_shaped(tree: ParseTree) -> bool
    decreases tree,
{
    match tree.rule {
        Rule::Attribute => tree.children.len() == 1 && tree.children[0].rule == Rule::Name,
        Rule::StringLiteral => tree.children.len() == 1 && tree.children[0].rule
            == Rule::StringContent,
        Rule::Integer => tree.text.len() > 0 && all_digits(tree.text),
        Rule::FunctionCall => call_shaped(tree.children),
        _ => false,
    }
}

/// Whether `trees` are the children of a call: a name, then operands.
pub open spec fn call_shaped(trees: Seq<ParseTree>) -> bool
    decreases trees,
{
    &&& trees.len() >= 1
    &&& trees[0].rule == Rule::Name
    &&& forall|i: int| 1 <= i < trees.len() ==> operand_shaped(#[trigger] trees[i])
}

/// Whether a match, if there is one, has the shape of an operand.
pub open spec fn gives_operand(m: Option<(ParseTree, int)>) -> bool {
    match m {
        Some((tree, end)) => operand_shaped(tree),
        None => true,
    }
}

/// Whether a match of a list, if there is one, holds the children of a
/// call.
pub open spec fn gives_call(m: Option<(Seq<ParseTree>, int)>) -> bool {
    match m {
        Some((trees, end)) => call_shaped(trees),
        None => true,
    }
}

/// The grammar gives operands the shape of operands.
pub proof fn lemma_operand_shape(s: Seq<char>, pos: int)
    ensures
        gives_operand(operand_at(s, pos)),
    decreases s.len() - pos, 1int,
{
    lemma_name_at(s, pos + 1, Rule::Name);
    if has_char(s, pos, '@') {
    } else if has_char(s, pos, '\'') {
    } else if has_char(s, pos, '"') {
    } else if 0 <= pos < s.len() && is_digit(s[pos]) {
        lemma_scan(s, pos, CharClass::Digit);
        let end = scan(s, pos, CharClass::Digit);
        assert(end > pos);
        assert(all_digits(s.subrange(pos, end))) by {
            assert forall|i: int| 0 <= i < end - pos implies is_digit(
                #[trigger] s.subrange(pos, end)[i],
            ) by {
                assert(CharClass::Digit.contains(s[pos + i]));
            }
        }
    } else {
        lemma_call_shape(s, pos);
    }
}

/// The grammar gives calls the shape of calls.
pub proof fn lemma_call_shape(s: Seq<char>, pos: int)
    ensures
        gives_operand(call_at(s, pos)),
    decreases s.len() - pos, 0int,
{
    lemma_name_at(s, pos, Rule::Name);
    match name_at(s, pos, Rule::Name) {
        Some((name, end)) => {
            let open = skip_ws(s, end);
            let first = skip_ws(s, open + 1);
            lemma_scan(s, end, CharClass::Whitespace);
            lemma_scan(s, open + 1, CharClass::Whitespace);
            if has_char(s, open, '(') && !has_char(s, first, ')') {
                lemma_arguments_shape(s, first, seq![name]);
            }
        },
        None => {},
    }
}

/// The grammar adds operands to the children of a call.
pub proof fn lemma_arguments_shape(s: Seq<char>, pos: int, acc: Seq<ParseTree>)
    requires
        call_shaped(acc),
    ensures
        gives_call(arguments_at(s, pos, acc)),
    decreases s.len() - pos, 2int,
{
    lemma_operand_shape(s, pos);
    lemma_operand_at(s, pos);
    match operand_at(s, pos) {
        Some((argument, end)) => {
            let comma = skip_ws(s, end);
            lemma_scan(s, end, CharClass::Whitespace);
            lemma_scan(s, comma + 1, CharClass::Whitespace);
            let next = acc.push(argument);
            assert(call_shaped(next)) by {
                assert forall|i: int| 1 <= i < next.len() implies operand_shaped(
                    #[trigger] next[i],
                ) by {
                    if i < acc.len() {
                        assert(next[i] == acc[i]);
                    }
                }
            }
            if has_char(s, comma, ',') {
                lemma_arguments_shape(s, skip_ws(s, comma + 1), next);
            }
        },
        None => {},
    }
}

/// Whether a lowering, if it fails, fails with `error`.
pub open spec fn fails_only_with<T>(r: Result<T, StructuralError>, error: StructuralError) -> bool {
    match r {
        Ok(_) => true,
        Err(found) => found == error,
    }
}

/// An operand of the right shape lowers, unless an integer inside it is
/// too large.
pub proof fn lemma_operand_lowers(tree: ParseTree)
    requires
        operand_shaped(tree),
    ensures
        fails_only_with(operand_of(tree), StructuralError::IntegerOutOfRange),
    decreases tree, 1int,
{
    if tree.rule == Rule::FunctionCall {
        lemma_operands_lower(tree.children, 1, Seq::empty());
    }
}

/// The operands of a call lower, unless an integer inside them is too
/// large.
pub proof fn lemma_operands_lower(trees: Seq<ParseTree>, from: int, acc: Seq<OperandModel>)
    requires
        call_shaped(trees),
        1 <= from,
    ensures
        fails_only_with(operands_of(trees, from, acc), StructuralError::IntegerOutOfRange),
    decreases trees, trees.len() - from,
{
    if from < trees.len() {
        assert(operand_shaped(trees[from]));
        lemma_operand_lowers(trees[from]);
        match operand_of(trees[from]) {
            Ok(operand) => {
                lemma_operands_lower(trees, from + 1, acc.push(operand));
            },
            Err(_) => {},
        }
    }
}

/// Whether a match, if there is one, has the shape `shape`.
pub open spec fn gives(m: Option<(ParseTree, int)>, shape: spec_fn(ParseTree) -> bool) -> bool {
    match m {
        Some((tree, end)) => shape(tree),
        None => true,
    }
}

/// Whether a lowering, if it fails, fails with an error of `allowed`.
pub open spec fn fails_within<T>(
    r: Result<T, StructuralError>,
    allowed: spec_fn(StructuralError) -> bool,
) -> bool {
    match r {
        Ok(_) => true,
        Err(error) => allowed(error),
    }
}

/// What can be wrong with a clause that has the shape of one.
pub open spec fn clause_error(error: StructuralError) -> bool {
    error == StructuralError::IntegerOutOfRange || error == StructuralError::MalformedClause
}

/// What can be wrong with a predicate that has the shape of one.
pub open spec fn selector_error(error: StructuralError) -> bool {
    clause_error(error) || error == StructuralError::MixedOperators
}

/// What can be wrong with a tree that the grammar gave: what the
/// grammar does not enforce.
pub open spec fn semantic_error(error: StructuralError) -> bool {
    ||| selector_error(error)
    ||| error == StructuralError::TwoAxesInARow
    ||| error == StructuralError::StepWithoutAxis
    ||| error == StructuralError::IncompleteExpression
    ||| error == StructuralError::UnrecognizedAxisName
}

/// Whether a tree has the shape of a clause: one operand, or two around
/// a comparator.
pub open spec fn clause_shaped(tree: ParseTree) -> bool {
    &&& tree.rule == Rule::Clause
    &&& tree.children.len() == 1 || tree.children.len() == 3
    &&& operand_shaped(tree.children[0])
    &&& tree.children.len() == 3 ==> {
        &&& tree.children[1].rule == Rule::Comparator
        &&& comparator_of(tree.children[1].text) is Some
        &&& operand_shaped(tree.children[2])
    }
}

/// The grammar gives comparators that stand for a relation.
pub proof fn lemma_comparator_shape(s: Seq<char>, pos: int)
    ensures
        gives(
            comparator_at(s, pos),
            |tree: ParseTree| tree.rule == Rule::Comparator && comparator_of(tree.text) is Some,
        ),
{
    reveal_strlit("=");
    reveal_strlit("!=");
    reveal_strlit("<");
    reveal_strlit("<=");
    reveal_strlit(">");
    reveal_strlit(">=");
    match comparator_at(s, pos) {
        Some((tree, end)) => {
            if end == pos + 2 {
                if s[pos] == '<' {
                    assert(tree.text =~= "<="@);
                } else if s[pos] == '>' {
                    assert(tree.text =~= ">="@);
                } else {
                    assert(tree.text =~= "!="@);
                }
            } else {
                if s[pos] == '<' {
                    assert(tree.text =~= "<"@);
                } else if s[pos] == '>' {
                    assert(tree.text =~= ">"@);
                } else {
                    assert(tree.text =~= "="@);
                }
            }
        },
        None => {},
    }
}

/// The grammar gives clauses the shape of clauses.
pub proof fn lemma_clause_shape(s: Seq<char>, pos: int)
    ensures
        gives(clause_at(s, pos), |tree: ParseTree| clause_shaped(tree)),
{
    lemma_operand_shape(s, pos);
    match operand_at(s, pos) {
        Some((left, end)) => {
            lemma_comparator_shape(s, skip_ws(s, end));
            match comparator_at(s, skip_ws(s, end)) {
                Some((comparator, after)) => {
                    lemma_operand_shape(s, skip_ws(s, after));
                },
                None => {},
            }
        },
        None => {},
    }
}

/// A clause of the right shape lowers, unless it is a lone string or
/// holds an integer that is too large.
pub proof fn lemma_clause_lowers(tree: ParseTree)
    requires
        clause_shaped(tree),
    ensures
        fails_within(clause_of(tree), |error: StructuralError| clause_error(error)),
{
    lemma_operand_lowers(tree.children[0]);
    if tree.children.len() == 3 {
        lemma_operand_lowers(tree.children[2]);
    }
}

/// Whether the tree at `i` among the children of a predicate is what
/// must stand there: a clause at an even place, an operator at an odd.
pub open spec fn place_shaped(trees: Seq<ParseTree>, i: int) -> bool {
    if i % 2 == 0 {
        clause_shaped(trees[i])
    } else {
        trees[i].rule == Rule::BooleanOperator && boolean_operator_of(trees[i].text) is Some
    }
}

/// Whether every tree of `trees` is what must stand at its place among
/// the children of a predicate.
pub open spec fn places_shaped(trees: Seq<ParseTree>) -> bool {
    forall|i: int| 0 <= i < trees.len() ==> place_shaped(trees, i)
}

/// Whether a tree has the shape of a predicate: clauses with one
/// operator between each two.
pub open spec fn predicate_shaped(tree: ParseTree) -> bool {
    &&& tree.rule == Rule::Predicate
    &&& tree.children.len() % 2 == 1
    &&& places_shaped(tree.children)
}

/// Appending what must stand at the next place keeps the places right.
pub proof fn lemma_places_push(trees: Seq<ParseTree>, tree: ParseTree)
    requires
        places_shaped(trees),
        place_shaped(trees.push(tree), trees.len() as int),
    ensures
        places_shaped(trees.push(tree)),
{
    let next = trees.push(tree);
    assert forall|i: int| 0 <= i < next.len() implies place_shaped(next, i) by {
        if i < trees.len() {
            assert(next[i] == trees[i]);
            assert(place_shaped(trees, i));
        }
    }
}

/// The grammar adds clauses and operators in turn.
pub proof fn lemma_clauses_shape(s: Seq<char>, pos: int, acc: Seq<ParseTree>)
    requires
        acc.len() % 2 == 0,
        places_shaped(acc),
    ensures
        match clauses_at(s, pos, acc) {
            Some((trees, end)) => trees.len() % 2 == 1 && places_shaped(trees),
            None => true,
        },
    decreases s.len() - pos,
{
    lemma_clause_shape(s, pos);
    lemma_clause_at(s, pos);
    match clause_at(s, pos) {
        Some((clause, end)) => {
            let with_clause = acc.push(clause);
            lemma_places_push(acc, clause);
            lemma_scan(s, end, CharClass::Whitespace);
            lemma_name_at(s, skip_ws(s, end), Rule::BooleanOperator);
            match boolean_operator_at(s, skip_ws(s, end)) {
                Some((operator, after)) => {
                    lemma_scan(s, after, CharClass::Whitespace);
                    lemma_places_push(with_clause, operator);
                    lemma_clauses_shape(s, skip_ws(s, after), with_clause.push(operator));
                },
                None => {},
            }
        },
        None => {},
    }
}

/// The grammar gives predicates the shape of predicates.
pub proof fn lemma_predicate_shape(s: Seq<char>, pos: int)
    ensures
        gives(predicate_at(s, pos), |tree: ParseTree| predicate_shaped(tree)),
{
    lemma_clauses_shape(s, skip_ws(s, pos + 1), Seq::empty());
}

/// The children of a predicate of the right shape lower, unless a
/// clause fails or the operators differ.
pub proof fn lemma_clauses_lower(trees: Seq<ParseTree>, from: int, acc: SelectorModel)
    requires
        0 <= from <= trees.len(),
        trees.len() % 2 == 1,
        places_shaped(trees),
    ensures
        fails_within(
            clauses_from(trees, from, acc),
            |error: StructuralError| selector_error(error),
        ),
    decreases trees.len() - from,
{
    if from < trees.len() {
        assert(place_shaped(trees, from));
        if from % 2 == 0 {
            lemma_clause_lowers(trees[from]);
            match clause_of(trees[from]) {
                Ok(clause) => {
                    lemma_clauses_lower(
                        trees,
                        from + 1,
                        SelectorModel { clauses: acc.clauses.push(clause), operator: acc.operator },
                    );
                },
                Err(_) => {},
            }
        } else {
            match boolean_operator_of(trees[from].text) {
                Some(operator) => {
                    lemma_clauses_lower(
                        trees,
                        from + 1,
                        SelectorModel { clauses: acc.clauses, operator: Some(operator) },
                    );
                },
                None => {},
            }
        }
    }
}

/// Whether `trees` are the children of a step: a node test that is `*`
/// or a name, then predicates.
pub open spec fn step_children_shaped(trees: Seq<ParseTree>) -> bool {
    &&& trees.len() >= 1
    &&& trees[0].rule == Rule::NodeTest
    &&& trees[0].text == "*"@ || is_name(trees[0].text)
    &&& forall|i: int| 1 <= i < trees.len() ==> predicate_shaped(#[trigger] trees[i])
}

/// Whether a tree has the shape of a step.
pub open spec fn step_shaped(tree: ParseTree) -> bool {
    tree.rule == Rule::Step && step_children_shaped(tree.children)
}

/// The text of a name node is a name.
pub proof fn lemma_name_text(s: Seq<char>, pos: int, rule: Rule)
    ensures
        gives(name_at(s, pos, rule), |tree: ParseTree| is_name(tree.text)),
{
    lemma_scan(s, pos + 1, CharClass::NameChar);
    match name_at(s, pos, rule) {
        Some((tree, end)) => {
            assert forall|i: int| 0 <= i < tree.text.len() implies name_char_at(tree.text, i) by {
                if i > 0 {
                    assert(CharClass::NameChar.contains(s[pos + i]));
                }
            }
        },
        None => {},
    }
}

/// The grammar adds predicates to the children of a step.
pub proof fn lemma_predicates_shape(s: Seq<char>, pos: int, acc: Seq<ParseTree>)
    requires
        step_children_shaped(acc),
    ensures
        step_children_shaped(predicates_at(s, pos, acc).0),
    decreases s.len() - pos,
{
    lemma_scan(s, pos, CharClass::Whitespace);
    lemma_predicate_at(s, skip_ws(s, pos));
    lemma_predicate_shape(s, skip_ws(s, pos));
    match predicate_at(s, skip_ws(s, pos)) {
        Some((predicate, end)) => {
            let next = acc.push(predicate);
            assert(step_children_shaped(next)) by {
                assert(next[0] == acc[0]);
                assert forall|i: int| 1 <= i < next.len() implies predicate_shaped(
                    #[trigger] next[i],
                ) by {
                    if i < acc.len() {
                        assert(next[i] == acc[i]);
                    }
                }
            }
            lemma_predicates_shape(s, end, next);
        },
        None => {},
    }
}

/// The grammar gives steps the shape of steps.
pub proof fn lemma_step_shape(s: Seq<char>, pos: int)
    ensures
        gives(step_at(s, pos), |tree: ParseTree| step_shaped(tree)),
{
    reveal_strlit("*");
    lemma_name_text(s, pos, Rule::NodeTest);
    match node_test_at(s, pos) {
        Some((test, end)) => {
            if has_char(s, pos, '*') {
                assert(test.text =~= "*"@);
            }
            lemma_predicates_shape(s, end, seq![test]);
        },
        None => {},
    }
}

/// The predicates of a step of the right shape lower, unless one of
/// them fails.
pub proof fn lemma_selectors_lower(trees: Seq<ParseTree>, from: int, acc: Seq<SelectorModel>)
    requires
        step_children_shaped(trees),
        1 <= from,
    ensures
        fails_within(
            selectors_of(trees, from, acc),
            |error: StructuralError| selector_error(error),
        ),
    decreases trees.len() - from,
{
    if from < trees.len() {
        assert(predicate_shaped(trees[from]));
        lemma_clauses_lower(
            trees[from].children,
            0,
            SelectorModel { clauses: Seq::empty(), operator: None },
        );
        match selector_of(trees[from]) {
            Ok(selector) => {
                lemma_selectors_lower(trees, from + 1, acc.push(selector));
            },
            Err(_) => {},
        }
    }
}

/// A step of the right shape lowers, unless one of its predicates
/// fails.
pub proof fn lemma_step_lowers(tree: ParseTree)
    requires
        step_shaped(tree),
    ensures
        fails_within(step_of(tree), |error: StructuralError| selector_error(error)),
{
    lemma_selectors_lower(tree.children, 1, Seq::empty());
}

/// Whether a tree has the shape of an axis: one over its name, or a
/// shorthand without children.
pub open spec fn axis_shaped(tree: ParseTree) -> bool {
    &&& tree.rule == Rule::Axis
    &&& if tree.children.len() == 0 {
        tree.text == "/"@ || tree.text == "//"@
    } else {
        tree.children.len() == 1 && tree.children[0].rule == Rule::AxisName
    }
}

/// The grammar gives axes the shape of axes.
pub proof fn lemma_axis_shape(s: Seq<char>, pos: int)
    ensures
        gives(axis_at(s, pos), |tree: ParseTree| axis_shaped(tree)),
{
    reveal_strlit("/");
    reveal_strlit("//");
    match axis_at(s, pos) {
        Some((tree, end)) => {
            if tree.children.len() == 0 {
                if end == pos + 2 {
                    assert(tree.text =~= "//"@);
                } else {
                    assert(tree.text =~= "/"@);
                }
            }
        },
        None => {},
    }
}

/// An axis of the right shape resolves, unless its name is no keyword.
pub proof fn lemma_axis_lowers(tree: ParseTree)
    requires
        axis_shaped(tree),
    ensures
        fails_only_with(axis_of(tree), StructuralError::UnrecognizedAxisName),
{
    if tree.children.len() == 0 {
        lemma_none_tagged(tree.children, Rule::AxisName);
    } else {
        lemma_first_tagged_at(tree.children, Rule::AxisName, 0);
    }
}

/// Whether a tree has the shape of an axis or of a step.
pub open spec fn item_shaped(tree: ParseTree) -> bool {
    axis_shaped(tree) || step_shaped(tree)
}

/// Whether every tree of `trees` has the shape of an axis or of a step.
pub open spec fn items_shaped(trees: Seq<ParseTree>) -> bool {
    forall|i: int| 0 <= i < trees.len() ==> item_shaped(#[trigger] trees[i])
}

/// Whether a tree has the shape of an expression: axes and steps, in
/// any order.
pub open spec fn expression_shaped(tree: ParseTree) -> bool {
    tree.rule == Rule::XpathExpression && items_shaped(tree.children)
}

/// The grammar adds axes and steps to the children of an expression.
pub proof fn lemma_items_shape(s: Seq<char>, pos: int, acc: Seq<ParseTree>)
    requires
        items_shaped(acc),
    ensures
        items_shaped(items_at(s, pos, acc).0),
    decreases s.len() - pos,
{
    let at = skip_ws(s, pos);
    lemma_scan(s, pos, CharClass::Whitespace);
    lemma_axis_at(s, at);
    lemma_step_at(s, at);
    lemma_axis_shape(s, at);
    lemma_step_shape(s, at);
    match item_at(s, at) {
        Some((item, end)) => {
            let next = acc.push(item);
            assert(items_shaped(next)) by {
                assert forall|i: int| 0 <= i < next.len() implies item_shaped(
                    #[trigger] next[i],
                ) by {
                    if i < acc.len() {
                        assert(next[i] == acc[i]);
                    }
                }
            }
            lemma_items_shape(s, end, next);
        },
        None => {},
    }
}

/// The grammar gives expressions the shape of expressions.
pub proof fn lemma_expression_shape(s: Seq<char>, pos: int)
    ensures
        gives(expression_at(s, pos), |tree: ParseTree| expression_shaped(tree)),
{
    lemma_axis_shape(s, pos);
    lemma_step_shape(s, pos);
    match item_at(s, pos) {
        Some((item, end)) => {
            lemma_items_shape(s, end, seq![item]);
        },
        None => {},
    }
}

/// The builder reads axes and steps of the right shape to the end,
/// unless they break the alternation or one of them fails.
pub proof fn lemma_items_lower(builder: BuilderModel, trees: Seq<ParseTree>, from: int)
    requires
        0 <= from <= trees.len(),
        items_shaped(trees),
    ensures
        fails_within(
            builder.feed_all(trees, from),
            |error: StructuralError| semantic_error(error),
        ),
    decreases trees.len() - from,
{
    if from < trees.len() {
        let tree = trees[from];
        assert(item_shaped(tree));
        if tree.rule == Rule::Axis {
            lemma_axis_lowers(tree);
        } else {
            lemma_step_lowers(tree);
        }
        match builder.feed(tree) {
            Ok(next) => {
                lemma_items_lower(next, trees, from + 1);
            },
            Err(_) => {},
        }
    }
}

/// An expression of the right shape lowers, unless it breaks the
/// alternation or one of its axes or steps fails.
pub proof fn lemma_expression_lowers(tree: ParseTree)
    requires
        expression_shaped(tree),
    ensures
        fails_within(expression_of(tree), |error: StructuralError| semantic_error(error)),
{
    lemma_items_lower(BuilderModel::start(), tree.children, 0);
}

/// Whether every tree of `trees` has the shape of an expression.
pub open spec fn expressions_shaped(trees: Seq<ParseTree>) -> bool {
    forall|i: int| 0 <= i < trees.len() ==> expression_shaped(#[trigger] trees[i])
}

/// The grammar adds expressions to those it was given.
pub proof fn lemma_expressions_shape(s: Seq<char>, pos: int, acc: Seq<ParseTree>)
    requires
        expressions_shaped(acc),
    ensures
        match expressions_at(s, pos, acc) {
            Ok(trees) => expressions_shaped(trees),
            Err(_) => true,
        },
    decreases s.len() - pos,
{
    lemma_expression_at(s, pos);
    lemma_expression_shape(s, pos);
    match expression_at(s, pos) {
        Some((expression, end)) => {
            let next = skip_ws(s, end);
            lemma_scan(s, end, CharClass::Whitespace);
            lemma_scan(s, next + 1, CharClass::Whitespace);
            let trees = acc.push(expression);
            assert(expressions_shaped(trees)) by {
                assert forall|i: int| 0 <= i < trees.len() implies expression_shaped(
                    #[trigger] trees[i],
                ) by {
                    if i < acc.len() {
                        assert(trees[i] == acc[i]);
                    }
                }
            }
            if next < s.len() && s[next] == '|' {
                lemma_expressions_shape(s, skip_ws(s, next + 1), trees);
            }
        },
        None => {},
    }
}

/// Expressions of the right shape lower, unless one of them fails.
pub proof fn lemma_expressions_lower(trees: Seq<ParseTree>, from: int, acc: Seq<ExpressionModel>)
    requires
        expressions_shaped(trees),
    ensures
        fails_within(
            expressions_of(trees, from, acc),
            |error: StructuralError| semantic_error(error),
        ),
    decreases trees.len() - from,
{
    if 0 <= from < trees.len() {
        assert(expression_shaped(trees[from]));
        lemma_expression_lowers(trees[from]);
        match expression_of(trees[from]) {
            Ok(expression) => {
                lemma_expressions_lower(trees, from + 1, acc.push(expression));
            },
            Err(_) => {},
        }
    }
}

/// The grammar and the lowering agree. A text that the grammar accepts
/// can fail to lower only for what the grammar does not enforce: the
/// alternation of axes and steps, the axis keywords, the one operator
/// of a predicate, the kinds of clause, and the range of integers. No
/// tree of the grammar has a wrong root, a node out of place, or a part
/// missing.
pub proof fn lemma_only_semantic_errors(text: Seq<char>)
    ensures
        match parsed(text) {
            Err(XPathError::Structure(error)) => semantic_error(error),
            _ => true,
        },
{
    lemma_expressions_shape(text, skip_ws(text, 0), Seq::empty());
    match xpath_of(text) {
        Ok(root) => {
            lemma_expressions_lower(root.children, 0, Seq::empty());
        },
        Err(_) => {},
    }
}

} // verus!
