//! What holds of the simplest texts: a single step behind each form of
//! axis parses to a single pair.
use vstd::prelude::*;
use crate::error::StructuralError;
use crate::error::SyntaxError;
use crate::error::XPathError;
use crate::grammar::axis_at;
use crate::grammar::branch;
use crate::grammar::CharClass;
use crate::grammar::expression_at;
use crate::grammar::expressions_at;
use crate::grammar::has_char;
use crate::grammar::is_name;
use crate::grammar::is_name_char;
use crate::grammar::is_name_start;
use crate::grammar::is_whitespace;
use crate::grammar::item_at;
use crate::grammar::items_at;
use crate::grammar::leaf;
use crate::grammar::name_at;
use crate::grammar::name_char_at;
use crate::grammar::node_test_at;
use crate::grammar::predicate_at;
use crate::grammar::predicates_at;
use crate::grammar::scan;
use crate::grammar::skip_ws;
use crate::grammar::step_at;
use crate::grammar::xpath_of;
use crate::laws::lemma_leading_step_is_rejected;
use crate::laws::lemma_single_pair;
use crate::parse_tree::ParseTree;
use crate::parse_tree::Rule;
use crate::selector::SelectorModel;
use crate::xpath_object::Axis;
use crate::xpath_object::axis_of;
use crate::xpath_object::axis_of_keyword;
use crate::xpath_object::AxisType;
use crate::xpath_object::expression_of;
use crate::xpath_object::ExpressionModel;
use crate::xpath_object::expressions_of;
use crate::xpath_object::ExpressionType;
use crate::xpath_object::lemma_axis_keywords;
use crate::xpath_object::parsed;
use crate::xpath_object::selectors_of;
use crate::xpath_object::step_of;
use crate::xpath_object::StepModel;
use crate::xpath_object::XPathModel;

verus! {

/// The query of one expression of one pair: the given axis and a step
/// that tests for `name`, without predicates.
pub open spec fn single_pair(axis_type: AxisType, name: Seq<char>) -> XPathModel {
    XPathModel {
        expressions: seq![
            ExpressionModel {
                pairs: seq![
                    (
                        Axis { axis_type },
                        StepModel {
                            tag_is_wildcard: false,
                            tag_identifier: name,
                            selectors: Seq::empty(),
                        },
                    ),
                ],
            },
        ],
        output_type: ExpressionType::InvalidExpressionType,
    }
}

/// A run of characters of one class, closed by the end of the text or
/// by a character outside the class, is what `scan` runs over.
pub proof fn lemma_scan_run(s: Seq<char>, from: int, to: int, class: CharClass)
    requires
        0 <= from <= to <= s.len(),
        forall|i: int| from <= i < to ==> class.contains(#[trigger] s[i]),
        to == s.len() || !class.contains(s[to]),
    ensures
        scan(s, from, class) == to,
    decreases to - from,
{
    if from < to {
        lemma_scan_run(s, from + 1, to, class);
    }
}

/// Each axis keyword is a name.
pub proof fn lemma_keywords_are_names(word: Seq<char>)
    requires
        axis_of_keyword(word) is Some,
    ensures
        is_name(word),
{
    reveal_strlit("ancestor");
    reveal_strlit("ancestor-or-self");
    reveal_strlit("attribute");
    reveal_strlit("child");
    reveal_strlit("descendant");
    reveal_strlit("descendant-or-self");
    reveal_strlit("namespace");
    reveal_strlit("self");
    reveal_strlit("parent");
    reveal_strlit("following");
    reveal_strlit("following-sibling");
    reveal_strlit("preceding");
    reveal_strlit("preceding-sibling");
    assert forall|i: int| 0 <= i < word.len() implies name_char_at(word, i) by {
        assert(is_name_char(word[i]));
        if i == 0 {
            assert(is_name_start(word[0]));
        }
    }
}

/// Nothing of the grammar starts at the end of a text.
pub proof fn lemma_at_end(s: Seq<char>, acc: Seq<ParseTree>)
    ensures
        skip_ws(s, s.len() as int) == s.len(),
        predicates_at(s, s.len() as int, acc) == (acc, s.len() as int),
        items_at(s, s.len() as int, acc) == (acc, s.len() as int),
{
    let end = s.len() as int;
    assert(axis_at(s, end) is None);
    assert(node_test_at(s, end) is None);
    assert(step_at(s, end) is None);
    assert(item_at(s, end) is None);
    assert(predicate_at(s, end) is None);
}

/// A name that runs to the end of the text is a step without
/// predicates, and no axis.
pub proof fn lemma_name_tail(s: Seq<char>, pos: int)
    requires
        0 <= pos < s.len(),
        is_name(s.subrange(pos, s.len() as int)),
    ensures
        skip_ws(s, pos) == pos,
        axis_at(s, pos) is None,
        step_at(s, pos) == Some(
            (
                branch(
                    Rule::Step,
                    s,
                    pos,
                    s.len() as int,
                    seq![leaf(Rule::NodeTest, s, pos, s.len() as int)],
                ),
                s.len() as int,
            ),
        ),
{
    let end = s.len() as int;
    let name = s.subrange(pos, end);
    assert(name_char_at(name, 0));
    assert(is_name_start(s[pos]));
    assert forall|i: int| pos + 1 <= i < end implies CharClass::NameChar.contains(
        #[trigger] s[i],
    ) by {
        assert(name_char_at(name, i - pos));
    }
    lemma_scan_run(s, pos + 1, end, CharClass::NameChar);
    assert(name_at(s, pos, Rule::AxisName) == Some((leaf(Rule::AxisName, s, pos, end), end)));
    assert(name_at(s, pos, Rule::NodeTest) == Some((leaf(Rule::NodeTest, s, pos, end), end)));
    assert(!has_char(s, end, ':'));
    assert(!has_char(s, pos, '/'));
    assert(!has_char(s, pos, '*'));
    lemma_at_end(s, seq![leaf(Rule::NodeTest, s, pos, end)]);
}

/// A step node of a bare name lowers to a step that tests for the name.
pub proof fn lemma_bare_step(s: Seq<char>, pos: int)
    requires
        0 <= pos < s.len(),
        is_name(s.subrange(pos, s.len() as int)),
    ensures
        step_of(
            branch(
                Rule::Step,
                s,
                pos,
                s.len() as int,
                seq![leaf(Rule::NodeTest, s, pos, s.len() as int)],
            ),
        ) == Ok::<StepModel, StructuralError>(
            StepModel {
                tag_is_wildcard: false,
                tag_identifier: s.subrange(pos, s.len() as int),
                selectors: Seq::empty(),
            },
        ),
{
    let end = s.len() as int;
    let name = s.subrange(pos, end);
    let children = seq![leaf(Rule::NodeTest, s, pos, end)];
    reveal_strlit("*");
    assert(name_char_at(name, 0));
    assert(name != "*"@);
    assert(selectors_of(children, 1, Seq::<SelectorModel>::empty()) == Ok::<
        Seq<SelectorModel>,
        StructuralError,
    >(Seq::empty()));
}

/// The parse tree of one axis and one step that tests for a name.
pub open spec fn pair_tree(s: Seq<char>, axis: ParseTree, pos: int) -> ParseTree {
    let end = s.len() as int;
    let step = branch(Rule::Step, s, pos, end, seq![leaf(Rule::NodeTest, s, pos, end)]);
    branch(
        Rule::Xpath,
        s,
        0,
        end,
        seq![branch(Rule::XpathExpression, s, 0, end, seq![axis, step])],
    )
}

/// A text that is one axis and then a name to its end has the parse
/// tree of that axis and a step.
pub proof fn lemma_pair_tree(s: Seq<char>, axis: ParseTree, pos: int)
    requires
        0 <= pos < s.len(),
        is_name(s.subrange(pos, s.len() as int)),
        skip_ws(s, 0) == 0,
        axis_at(s, 0) == Some((axis, pos)),
    ensures
        xpath_of(s) == Ok::<ParseTree, SyntaxError>(pair_tree(s, axis, pos)),
{
    let end = s.len() as int;
    let step = branch(Rule::Step, s, pos, end, seq![leaf(Rule::NodeTest, s, pos, end)]);
    lemma_name_tail(s, pos);
    lemma_at_end(s, seq![axis, step]);
    let expression = branch(Rule::XpathExpression, s, 0, end, seq![axis, step]);
    assert(item_at(s, 0) == Some((axis, pos)));
    assert(items_at(s, pos, seq![axis]) == items_at(s, end, seq![axis].push(step)));
    assert(seq![axis].push(step) =~= seq![axis, step]);
    assert(expression_at(s, 0) == Some((expression, end)));
    assert(Seq::<ParseTree>::empty().push(expression) =~= seq![expression]);
    assert(expressions_at(s, 0, Seq::empty()) == Ok::<Seq<ParseTree>, SyntaxError>(
        seq![expression],
    ));
}

/// A text that is one axis and then a name to its end parses to one
/// pair if the axis resolves, and fails as the axis does if not.
pub proof fn lemma_axis_then_name(s: Seq<char>, axis: ParseTree, pos: int)
    requires
        0 <= pos < s.len(),
        is_name(s.subrange(pos, s.len() as int)),
        axis.rule == Rule::Axis,
        skip_ws(s, 0) == 0,
        axis_at(s, 0) == Some((axis, pos)),
    ensures
        parsed(s) == match axis_of(axis) {
            Ok(found) => Ok::<XPathModel, XPathError>(
                single_pair(found.axis_type, s.subrange(pos, s.len() as int)),
            ),
            Err(error) => Err(XPathError::Structure(error)),
        },
{
    let end = s.len() as int;
    let step = branch(Rule::Step, s, pos, end, seq![leaf(Rule::NodeTest, s, pos, end)]);
    let expression = branch(Rule::XpathExpression, s, 0, end, seq![axis, step]);
    let root = pair_tree(s, axis, pos);
    lemma_pair_tree(s, axis, pos);
    lemma_bare_step(s, pos);
    lemma_single_pair(expression);
    match axis_of(axis) {
        Ok(found) => {
            let lowered = ExpressionModel {
                pairs: seq![
                    (
                        found,
                        StepModel {
                            tag_is_wildcard: false,
                            tag_identifier: s.subrange(pos, end),
                            selectors: Seq::empty(),
                        },
                    ),
                ],
            };
            assert(expression_of(expression) == Ok::<ExpressionModel, StructuralError>(lowered));
            assert(Seq::<ExpressionModel>::empty().push(lowered) =~= seq![lowered]);
            assert(expressions_of(root.children, 1, seq![lowered]) == Ok::<
                Seq<ExpressionModel>,
                StructuralError,
            >(seq![lowered]));
            assert(expressions_of(root.children, 0, Seq::empty()) == Ok::<
                Seq<ExpressionModel>,
                StructuralError,
            >(seq![lowered]));
        },
        Err(error) => {
            assert(expression_of(expression) == Err::<ExpressionModel, StructuralError>(error));
            assert(expressions_of(root.children, 0, Seq::empty()) == Err::<
                Seq<ExpressionModel>,
                StructuralError,
            >(error));
        },
    }
}

/// The axis node that the grammar gives for `word::` at the start of a
/// text.
pub open spec fn named_axis(s: Seq<char>, word: Seq<char>) -> ParseTree {
    branch(
        Rule::Axis,
        s,
        0,
        word.len() as int + 2,
        seq![leaf(Rule::AxisName, s, 0, word.len() as int)],
    )
}

/// In the text `word::name` the grammar finds the axis named `word`,
/// whatever name `word` is.
pub proof fn lemma_named_axis(word: Seq<char>, name: Seq<char>)
    requires
        is_name(word),
        is_name(name),
    ensures
        ({
            let s = word + "::"@ + name;
            &&& skip_ws(s, 0) == 0
            &&& axis_at(s, 0) == Some((named_axis(s, word), word.len() as int + 2))
            &&& s.subrange(word.len() as int + 2, s.len() as int) == name
            &&& named_axis(s, word).children[0].text == word
        }),
{
    reveal_strlit("::");
    let s = word + "::"@ + name;
    let k = word.len() as int;
    assert(name_char_at(word, 0));
    assert(s[0] == word[0]);
    assert(s[k] == ':' && s[k + 1] == ':');
    assert forall|i: int| 1 <= i < k implies CharClass::NameChar.contains(#[trigger] s[i]) by {
        assert(name_char_at(word, i));
        assert(s[i] == word[i]);
    }
    lemma_scan_run(s, 1, k, CharClass::NameChar);
    lemma_scan_run(s, 0, 0, CharClass::Whitespace);
    assert(leaf(Rule::AxisName, s, 0, k).text =~= word);
    assert(s.subrange(k + 2, s.len() as int) =~= name);
}

/// An explicit axis and a name. For each axis keyword and each name,
/// the text `keyword::name` parses to one expression of one pair: the
/// axis of the keyword, and a step that tests for the name.
pub proof fn lemma_explicit_pair(keyword: Seq<char>, name: Seq<char>)
    requires
        axis_of_keyword(keyword) is Some,
        is_name(name),
    ensures
        parsed(keyword + "::"@ + name) == Ok::<XPathModel, XPathError>(
            single_pair(axis_of_keyword(keyword)->0, name),
        ),
{
    let s = keyword + "::"@ + name;
    lemma_keywords_are_names(keyword);
    lemma_named_axis(keyword, name);
    lemma_axis_then_name(s, named_axis(s, keyword), keyword.len() as int + 2);
}

/// A name that is no axis keyword, written as an axis. For each such
/// name, the text `word::name` is rejected: the axis name is not
/// recognized.
pub proof fn lemma_unknown_axis_name(word: Seq<char>, name: Seq<char>)
    requires
        is_name(word),
        axis_of_keyword(word) is None,
        is_name(name),
    ensures
        parsed(word + "::"@ + name) == Err::<XPathModel, XPathError>(
            XPathError::Structure(StructuralError::UnrecognizedAxisName),
        ),
{
    let s = word + "::"@ + name;
    lemma_named_axis(word, name);
    lemma_axis_then_name(s, named_axis(s, word), word.len() as int + 2);
}

/// A shorthand axis and a name. For each name, `/name` parses to one
/// pair on the child axis, as `child::name` does, and `//name` to one
/// pair on the descendant-or-self axis.
pub proof fn lemma_shorthand_pair(name: Seq<char>)
    requires
        is_name(name),
    ensures
        parsed("/"@ + name) == Ok::<XPathModel, XPathError>(single_pair(AxisType::Child, name)),
        parsed("/"@ + name) == parsed("child"@ + "::"@ + name),
        parsed("//"@ + name) == Ok::<XPathModel, XPathError>(
            single_pair(AxisType::DescendantOrSelf, name),
        ),
{
    reveal_strlit("/");
    reveal_strlit("//");
    lemma_axis_keywords();
    lemma_explicit_pair("child"@, name);
    assert(name_char_at(name, 0));
    assert("/"@.len() == 1 && "//"@.len() == 2);
    {
        let s = "/"@ + name;
        assert(s[0] == '/' && s[1] == name[0]);
        assert(s.subrange(1, s.len() as int) =~= name);
        lemma_name_tail(s, 1);
        lemma_scan_run(s, 0, 0, CharClass::Whitespace);
        let axis = leaf(Rule::Axis, s, 0, 1);
        assert(axis.text =~= "/"@);
        assert(axis_at(s, 0) == Some((axis, 1int)));
        lemma_axis_then_name(s, axis, 1);
    }
    {
        let s = "//"@ + name;
        assert(s[0] == '/' && s[1] == '/');
        assert(s.subrange(2, s.len() as int) =~= name);
        lemma_scan_run(s, 0, 0, CharClass::Whitespace);
        let axis = leaf(Rule::Axis, s, 0, 2);
        assert(axis.text =~= "//"@);
        assert(axis_at(s, 0) == Some((axis, 2int)));
        lemma_axis_then_name(s, axis, 2);
    }
}

/// A name alone. A text that is one name is rejected: the step that
/// it holds is preceded by no axis.
pub proof fn lemma_leading_step(name: Seq<char>)
    requires
        is_name(name),
    ensures
        parsed(name) == Err::<XPathModel, XPathError>(
            XPathError::Structure(StructuralError::StepWithoutAxis),
        ),
{
    let end = name.len() as int;
    assert(name.subrange(0, end) =~= name);
    assert(name_char_at(name, 0));
    lemma_scan_run(name, 0, 0, CharClass::Whitespace);
    lemma_name_tail(name, 0);
    let step = branch(Rule::Step, name, 0, end, seq![leaf(Rule::NodeTest, name, 0, end)]);
    lemma_at_end(name, seq![step]);
    let expression = branch(Rule::XpathExpression, name, 0, end, seq![step]);
    assert(item_at(name, 0) == Some((step, end)));
    assert(expression_at(name, 0) == Some((expression, end)));
    assert(Seq::<ParseTree>::empty().push(expression) =~= seq![expression]);
    assert(expressions_at(name, 0, Seq::empty()) == Ok::<Seq<ParseTree>, SyntaxError>(
        seq![expression],
    ));
    lemma_leading_step_is_rejected(name);
}

/// A text that opens with a name which no `:` follows is rejected, and
/// so is a text that opens with `*`: either opens with a step. If such a
/// text matches the grammar at all, its first step is preceded by no
/// axis.
pub proof fn lemma_opening_step_is_rejected(text: Seq<char>, end: int)
    requires
        0 < end <= text.len(),
        text[0] == '*' || {
            &&& is_name(text.subrange(0, end))
            &&& end == text.len() || (!is_name_char(text[end]) && text[end] != ':')
        },
    ensures
        match parsed(text) {
            Ok(_) => false,
            Err(XPathError::Syntax(_)) => true,
            Err(XPathError::Structure(error)) => error == StructuralError::StepWithoutAxis,
        },
{
    if text[0] != '*' {
        let name = text.subrange(0, end);
        assert(name_char_at(name, 0));
        assert(name[0] == text[0]);
        assert forall|i: int| 1 <= i < end implies CharClass::NameChar.contains(
            #[trigger] text[i],
        ) by {
            assert(name_char_at(name, i));
            assert(name[i] == text[i]);
        }
        lemma_scan_run(text, 1, end, CharClass::NameChar);
        assert(!has_char(text, end, ':'));
        assert(name_at(text, 0, Rule::AxisName) is Some);
        assert(node_test_at(text, 0) is Some);
    }
    assert(!is_whitespace(text[0]));
    lemma_scan_run(text, 0, 0, CharClass::Whitespace);
    assert(axis_at(text, 0) is None);
    assert(step_at(text, 0) is Some);
    lemma_leading_step_is_rejected(text);
}

} // verus!
