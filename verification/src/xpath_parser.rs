//! The grammar engine: a recursive-descent parser that builds the parse
//! tree which the grammar gives for a text.
use vstd::prelude::*;
use vstd::std_specs::iter::IteratorSpec;
use vstd::string::StrSliceExecFns;
use crate::error::Expected;
use crate::error::SyntaxError;
use crate::grammar::arguments_at;
use crate::grammar::axis_at;
use crate::grammar::boolean_operator_at;
use crate::grammar::branch;
use crate::grammar::call_at;
use crate::grammar::CharClass;
use crate::grammar::check_digit;
use crate::grammar::check_name_start;
use crate::grammar::clause_at;
use crate::grammar::clauses_at;
use crate::grammar::comparator_at;
use crate::grammar::expression_at;
use crate::grammar::expressions_at;
use crate::grammar::has_char;
use crate::grammar::item_at;
use crate::grammar::items_at;
use crate::grammar::leaf;
use crate::grammar::lemma_arguments_at;
use crate::grammar::lemma_axis_at;
use crate::grammar::lemma_clause_at;
use crate::grammar::lemma_clauses_at;
use crate::grammar::lemma_expression_at;
use crate::grammar::lemma_name_at;
use crate::grammar::lemma_operand_at;
use crate::grammar::lemma_predicate_at;
use crate::grammar::lemma_step_at;
use crate::grammar::name_at;
use crate::grammar::node_test_at;
use crate::grammar::operand_at;
use crate::grammar::predicate_at;
use crate::grammar::predicates_at;
use crate::grammar::scan;
use crate::grammar::step_at;
use crate::grammar::string_at;
use crate::grammar::xpath_of;
use crate::parse_tree::ParseNode;
use crate::parse_tree::ParseTree;
use crate::parse_tree::Rule;
use crate::text::str_eq;

verus! {

/// The source text together with its characters, laid out for indexing.
struct Source<'a> {
    text: &'a str,
    chars: Vec<char>,
}

impl<'a> Source<'a> {
    spec fn wf(&self) -> bool {
        self.chars@ == self.text@ && self.chars@.len() <= usize::MAX
    }

    spec fn view(&self) -> Seq<char> {
        self.text@
    }

    fn new(text: &'a str) -> (source: Self)
        ensures
            source.wf(),
            source.view() == text@,
    {
        let mut chars: Vec<char> = Vec::new();
        for c in it: text.chars()
            invariant
                it.seq() == text@,
                chars@ == it.seq().subrange(0, it.index() as int),
        {
            chars.push(c);
            assert(chars@ =~= it.seq().subrange(0, it.index() + 1));
        }
        assert(chars@ =~= text@);
        assert(chars@.len() == chars.len());
        Source { text, chars }
    }

    fn len(&self) -> (n: usize)
        requires
            self.wf(),
        ensures
            n == self.view().len(),
    {
        self.chars.len()
    }

    /// Whether the character at `pos` exists and is `c`.
    fn has_char(&self, pos: usize, c: char) -> (r: bool)
        requires
            self.wf(),
        ensures
            r == has_char(self.view(), pos as int, c),
    {
        pos < self.chars.len() && self.chars[pos] == c
    }

    fn scan(&self, pos: usize, class: CharClass) -> (end: usize)
        requires
            self.wf(),
            pos <= self.view().len(),
        ensures
            end == scan(self.view(), pos as int, class),
            pos <= end <= self.view().len(),
    {
        let mut end: usize = pos;
        while end < self.chars.len() && class.test(self.chars[end])
            invariant
                self.wf(),
                pos <= end <= self.chars@.len(),
                scan(self.view(), pos as int, class) == scan(self.view(), end as int, class),
            decreases self.chars@.len() - end,
        {
            end += 1;
        }
        end
    }

    /// A node without children for the text between `from` and `to`.
    fn leaf(&self, rule: Rule, from: usize, to: usize) -> (node: ParseNode)
        requires
            self.wf(),
            from <= to <= self.view().len(),
        ensures
            node@ == leaf(rule, self.view(), from as int, to as int),
    {
        let children: Vec<ParseNode> = Vec::new();
        assert(ParseNode::trees(children@) =~= Seq::empty());
        ParseNode::new(rule, self.text.substring_char(from, to), children)
    }

    /// A node with children for the text between `from` and `to`.
    fn branch(&self, rule: Rule, from: usize, to: usize, children: Vec<ParseNode>) -> (node:
        ParseNode)
        requires
            self.wf(),
            from <= to <= self.view().len(),
        ensures
            node@ == branch(rule, self.view(), from as int, to as int, ParseNode::trees(children@)),
    {
        ParseNode::new(rule, self.text.substring_char(from, to), children)
    }

    fn parse_name(&self, pos: usize, rule: Rule) -> (r: Option<(ParseNode, usize)>)
        requires
            self.wf(),
            pos <= self.view().len(),
        ensures
            agrees(r, name_at(self.view(), pos as int, rule)),
    {
        if pos < self.chars.len() && check_name_start(self.chars[pos]) {
            let end = self.scan(pos + 1, CharClass::NameChar);
            Some((self.leaf(rule, pos, end), end))
        } else {
            None
        }
    }

    fn parse_axis(&self, pos: usize) -> (r: Option<(ParseNode, usize)>)
        requires
            self.wf(),
            pos <= self.view().len(),
        ensures
            agrees(r, axis_at(self.view(), pos as int)),
    {
        let slash = self.has_char(pos, '/');
        if slash && self.has_char(pos + 1, '/') {
            return Some((self.leaf(Rule::Axis, pos, pos + 2), pos + 2));
        }
        let start: usize = if slash {
            pos + 1
        } else {
            pos
        };
        match self.parse_name(start, Rule::AxisName) {
            Some((name, end)) => {
                proof {
                    lemma_name_at(self.view(), start as int, Rule::AxisName);
                }
                if self.has_char(end, ':') && self.has_char(end + 1, ':') {
                    let children = one(name);
                    return Some((self.branch(Rule::Axis, pos, end + 2, children), end + 2));
                }
            },
            None => {},
        }
        if slash {
            Some((self.leaf(Rule::Axis, pos, pos + 1), pos + 1))
        } else {
            None
        }
    }

    fn parse_node_test(&self, pos: usize) -> (r: Option<(ParseNode, usize)>)
        requires
            self.wf(),
            pos <= self.view().len(),
        ensures
            agrees(r, node_test_at(self.view(), pos as int)),
    {
        if self.has_char(pos, '*') {
            Some((self.leaf(Rule::NodeTest, pos, pos + 1), pos + 1))
        } else {
            self.parse_name(pos, Rule::NodeTest)
        }
    }

    fn parse_string(&self, pos: usize, quote: char) -> (r: Option<(ParseNode, usize)>)
        requires
            self.wf(),
            pos <= self.view().len(),
        ensures
            agrees(r, string_at(self.view(), pos as int, quote)),
    {
        if !self.has_char(pos, quote) {
            return None;
        }
        let close = self.scan(pos + 1, CharClass::Except(quote));
        if close < self.len() {
            let children = one(self.leaf(Rule::StringContent, pos + 1, close));
            Some((self.branch(Rule::StringLiteral, pos, close + 1, children), close + 1))
        } else {
            None
        }
    }

    fn parse_comparator(&self, pos: usize) -> (r: Option<(ParseNode, usize)>)
        requires
            self.wf(),
            pos <= self.view().len(),
        ensures
            agrees(r, comparator_at(self.view(), pos as int)),
    {
        let less = self.has_char(pos, '<');
        let greater = self.has_char(pos, '>');
        if (less || greater || self.has_char(pos, '!')) && self.has_char(pos + 1, '=') {
            Some((self.leaf(Rule::Comparator, pos, pos + 2), pos + 2))
        } else if self.has_char(pos, '=') || less || greater {
            Some((self.leaf(Rule::Comparator, pos, pos + 1), pos + 1))
        } else {
            None
        }
    }

    fn parse_boolean_operator(&self, pos: usize) -> (r: Option<(ParseNode, usize)>)
        requires
            self.wf(),
            pos <= self.view().len(),
        ensures
            agrees(r, boolean_operator_at(self.view(), pos as int)),
    {
        match self.parse_name(pos, Rule::BooleanOperator) {
            Some((word, end)) => {
                proof {
                    word.lemma_tree();
                }
                if str_eq(word.text.as_str(), "and") || str_eq(word.text.as_str(), "or") {
                    Some((word, end))
                } else {
                    None
                }
            },
            None => None,
        }
    }

    fn parse_operand(&self, pos: usize) -> (r: Option<(ParseNode, usize)>)
        requires
            self.wf(),
            pos <= self.view().len(),
        ensures
            agrees(r, operand_at(self.view(), pos as int)),
        decreases self.view().len() - pos, 1int,
    {
        if self.has_char(pos, '@') {
            match self.parse_name(pos + 1, Rule::Name) {
                Some((name, end)) => {
                    proof {
                        lemma_name_at(self.view(), pos + 1, Rule::Name);
                    }
                    Some((self.branch(Rule::Attribute, pos, end, one(name)), end))
                },
                None => None,
            }
        } else if self.has_char(pos, '\'') {
            self.parse_string(pos, '\'')
        } else if self.has_char(pos, '"') {
            self.parse_string(pos, '"')
        } else if pos < self.chars.len() && check_digit(self.chars[pos]) {
            let end = self.scan(pos, CharClass::Digit);
            Some((self.leaf(Rule::Integer, pos, end), end))
        } else {
            self.parse_call(pos)
        }
    }

    fn parse_call(&self, pos: usize) -> (r: Option<(ParseNode, usize)>)
        requires
            self.wf(),
            pos <= self.view().len(),
        ensures
            agrees(r, call_at(self.view(), pos as int)),
        decreases self.view().len() - pos, 0int,
    {
        match self.parse_name(pos, Rule::Name) {
            Some((name, end)) => {
                proof {
                    lemma_name_at(self.view(), pos as int, Rule::Name);
                }
                let open = self.scan(end, CharClass::Whitespace);
                if !self.has_char(open, '(') {
                    return None;
                }
                let first = self.scan(open + 1, CharClass::Whitespace);
                let children = one(name);
                if self.has_char(first, ')') {
                    return Some(
                        (self.branch(Rule::FunctionCall, pos, first + 1, children), first + 1),
                    );
                }
                match self.parse_arguments(first, children) {
                    Some((children, last)) => {
                        proof {
                            lemma_arguments_at(self.view(), first as int, seq![name@]);
                        }
                        let close = self.scan(last, CharClass::Whitespace);
                        if self.has_char(close, ')') {
                            Some(
                                (
                                    self.branch(Rule::FunctionCall, pos, close + 1, children),
                                    close + 1,
                                ),
                            )
                        } else {
                            None
                        }
                    },
                    None => None,
                }
            },
            None => None,
        }
    }

    #[verifier::loop_isolation(false)]
    fn parse_arguments(&self, pos: usize, acc: Vec<ParseNode>) -> (r: Option<
        (Vec<ParseNode>, usize),
    >)
        requires
            self.wf(),
            pos <= self.view().len(),
        ensures
            agrees_list(r, arguments_at(self.view(), pos as int, ParseNode::trees(acc@))),
        decreases self.view().len() - pos, 2int,
    {
        let ghost start = ParseNode::trees(acc@);
        let mut children = acc;
        let mut at: usize = pos;
        loop
            invariant
                self.wf(),
                pos <= at <= self.view().len(),
                arguments_at(self.view(), at as int, ParseNode::trees(children@)) == arguments_at(
                    self.view(),
                    pos as int,
                    start,
                ),
            decreases self.view().len() - at,
        {
            match self.parse_operand(at) {
                Some((argument, end)) => {
                    proof {
                        lemma_operand_at(self.view(), at as int);
                        ParseNode::lemma_trees_push(children@, argument);
                    }
                    children.push(argument);
                    let comma = self.scan(end, CharClass::Whitespace);
                    if self.has_char(comma, ',') {
                        at = self.scan(comma + 1, CharClass::Whitespace);
                    } else {
                        return Some((children, end));
                    }
                },
                None => {
                    return None;
                },
            }
        }
    }

    fn parse_clause(&self, pos: usize) -> (r: Option<(ParseNode, usize)>)
        requires
            self.wf(),
            pos <= self.view().len(),
        ensures
            agrees(r, clause_at(self.view(), pos as int)),
    {
        match self.parse_operand(pos) {
            Some((left, end)) => {
                proof {
                    lemma_operand_at(self.view(), pos as int);
                }
                let next = self.scan(end, CharClass::Whitespace);
                match self.parse_comparator(next) {
                    Some((comparator, after)) => {
                        let from = self.scan(after, CharClass::Whitespace);
                        match self.parse_operand(from) {
                            Some((right, last)) => {
                                proof {
                                    lemma_operand_at(self.view(), from as int);
                                }
                                let mut children = one(left);
                                proof {
                                    ParseNode::lemma_trees_push(children@, comparator);
                                    ParseNode::lemma_trees_push(children@.push(comparator), right);
                                }
                                children.push(comparator);
                                children.push(right);
                                assert(ParseNode::trees(children@) =~= seq![
                                    left@,
                                    comparator@,
                                    right@,
                                ]);
                                Some((self.branch(Rule::Clause, pos, last, children), last))
                            },
                            None => None,
                        }
                    },
                    None => Some((self.branch(Rule::Clause, pos, end, one(left)), end)),
                }
            },
            None => None,
        }
    }

    #[verifier::loop_isolation(false)]
    fn parse_clauses(&self, pos: usize) -> (r: Option<(Vec<ParseNode>, usize)>)
        requires
            self.wf(),
            pos <= self.view().len(),
        ensures
            agrees_list(r, clauses_at(self.view(), pos as int, Seq::empty())),
    {
        let mut children: Vec<ParseNode> = Vec::new();
        let mut at: usize = pos;
        assert(ParseNode::trees(children@) =~= Seq::empty());
        loop
            invariant
                self.wf(),
                pos <= at <= self.view().len(),
                clauses_at(self.view(), at as int, ParseNode::trees(children@)) == clauses_at(
                    self.view(),
                    pos as int,
                    Seq::empty(),
                ),
            decreases self.view().len() - at,
        {
            match self.parse_clause(at) {
                Some((clause, end)) => {
                    proof {
                        lemma_clause_at(self.view(), at as int);
                        ParseNode::lemma_trees_push(children@, clause);
                    }
                    children.push(clause);
                    let next = self.scan(end, CharClass::Whitespace);
                    match self.parse_boolean_operator(next) {
                        Some((operator, after)) => {
                            proof {
                                lemma_name_at(self.view(), next as int, Rule::BooleanOperator);
                                ParseNode::lemma_trees_push(children@, operator);
                            }
                            children.push(operator);
                            at = self.scan(after, CharClass::Whitespace);
                        },
                        None => {
                            return Some((children, end));
                        },
                    }
                },
                None => {
                    return None;
                },
            }
        }
    }

    fn parse_predicate(&self, pos: usize) -> (r: Option<(ParseNode, usize)>)
        requires
            self.wf(),
            pos <= self.view().len(),
        ensures
            agrees(r, predicate_at(self.view(), pos as int)),
    {
        if !self.has_char(pos, '[') {
            return None;
        }
        let first = self.scan(pos + 1, CharClass::Whitespace);
        match self.parse_clauses(first) {
            Some((children, end)) => {
                proof {
                    lemma_clauses_at(self.view(), first as int, Seq::empty());
                }
                let close = self.scan(end, CharClass::Whitespace);
                if self.has_char(close, ']') {
                    Some((self.branch(Rule::Predicate, pos, close + 1, children), close + 1))
                } else {
                    None
                }
            },
            None => None,
        }
    }

    #[verifier::loop_isolation(false)]
    fn parse_step(&self, pos: usize) -> (r: Option<(ParseNode, usize)>)
        requires
            self.wf(),
            pos <= self.view().len(),
        ensures
            agrees(r, step_at(self.view(), pos as int)),
    {
        match self.parse_node_test(pos) {
            Some((test, end)) => {
                proof {
                    lemma_name_at(self.view(), pos as int, Rule::NodeTest);
                }
                let ghost start = seq![test@];
                let mut children = one(test);
                let mut last: usize = end;
                loop
                    invariant
                        self.wf(),
                        end <= last <= self.view().len(),
                        predicates_at(self.view(), last as int, ParseNode::trees(children@))
                            == predicates_at(self.view(), end as int, start),
                    decreases self.view().len() - last,
                {
                    let next = self.scan(last, CharClass::Whitespace);
                    match self.parse_predicate(next) {
                        Some((predicate, after)) => {
                            proof {
                                lemma_predicate_at(self.view(), next as int);
                                ParseNode::lemma_trees_push(children@, predicate);
                            }
                            children.push(predicate);
                            last = after;
                        },
                        None => {
                            return Some((self.branch(Rule::Step, pos, last, children), last));
                        },
                    }
                }
            },
            None => None,
        }
    }

    fn parse_item(&self, pos: usize) -> (r: Option<(ParseNode, usize)>)
        requires
            self.wf(),
            pos <= self.view().len(),
        ensures
            agrees(r, item_at(self.view(), pos as int)),
    {
        match self.parse_axis(pos) {
            Some(found) => Some(found),
            None => self.parse_step(pos),
        }
    }

    /// The items that follow the opening ones, which `acc` holds.
    #[verifier::loop_isolation(false)]
    fn parse_items(&self, pos: usize, acc: Vec<ParseNode>) -> (r: (Vec<ParseNode>, usize))
        requires
            self.wf(),
            pos <= self.view().len(),
        ensures
            (ParseNode::trees(r.0@), r.1 as int) == items_at(
                self.view(),
                pos as int,
                ParseNode::trees(acc@),
            ),
            pos <= r.1 <= self.view().len(),
    {
        let ghost start = ParseNode::trees(acc@);
        let mut children = acc;
        let mut last: usize = pos;
        loop
            invariant
                self.wf(),
                pos <= last <= self.view().len(),
                items_at(self.view(), last as int, ParseNode::trees(children@)) == items_at(
                    self.view(),
                    pos as int,
                    start,
                ),
            decreases self.view().len() - last,
        {
            let next = self.scan(last, CharClass::Whitespace);
            match self.parse_item(next) {
                Some((item, after)) => {
                    proof {
                        lemma_axis_at(self.view(), next as int);
                        lemma_step_at(self.view(), next as int);
                        ParseNode::lemma_trees_push(children@, item);
                    }
                    children.push(item);
                    last = after;
                },
                None => {
                    return (children, last);
                },
            }
        }
    }

    fn parse_expression(&self, pos: usize) -> (r: Option<(ParseNode, usize)>)
        requires
            self.wf(),
            pos <= self.view().len(),
        ensures
            agrees(r, expression_at(self.view(), pos as int)),
    {
        match self.parse_item(pos) {
            Some((item, end)) => {
                proof {
                    lemma_axis_at(self.view(), pos as int);
                    lemma_step_at(self.view(), pos as int);
                }
                let (children, last) = self.parse_items(end, one(item));
                Some((self.branch(Rule::XpathExpression, pos, last, children), last))
            },
            None => None,
        }
    }

    /// The parse tree of the whole text.
    #[verifier::loop_isolation(false)]
    fn parse_xpath(&self) -> (r: Result<ParseNode, SyntaxError>)
        requires
            self.wf(),
        ensures
            agrees_whole(r, xpath_of(self.view())),
    {
        let first = self.scan(0, CharClass::Whitespace);
        let mut children: Vec<ParseNode> = Vec::new();
        let mut at: usize = first;
        assert(ParseNode::trees(children@) =~= Seq::empty());
        loop
            invariant
                self.wf(),
                at <= self.view().len(),
                expressions_at(self.view(), at as int, ParseNode::trees(children@))
                    == expressions_at(self.view(), first as int, Seq::empty()),
            decreases self.view().len() - at,
        {
            match self.parse_expression(at) {
                Some((expression, end)) => {
                    proof {
                        lemma_expression_at(self.view(), at as int);
                        ParseNode::lemma_trees_push(children@, expression);
                    }
                    children.push(expression);
                    let next = self.scan(end, CharClass::Whitespace);
                    if next >= self.len() {
                        return Ok(self.branch(Rule::Xpath, 0, self.len(), children));
                    } else if self.has_char(next, '|') {
                        at = self.scan(next + 1, CharClass::Whitespace);
                    } else {
                        return Err(
                            SyntaxError { position: next, expected: Expected::UnionOrEnd },
                        );
                    }
                },
                None => {
                    return Err(SyntaxError { position: at, expected: Expected::Expression });
                },
            }
        }
    }
}

/// The grammar engine.
#[derive(Clone, Copy, Debug)]
pub struct XPathParser;

impl XPathParser {
    /// Parses a whole text against the grammar: the parse tree, rooted
    /// in an xpath node, or the place where the text stops matching.
    pub fn parse(input: &str) -> (r: Result<ParseNode, SyntaxError>)
        ensures
            agrees_whole(r, xpath_of(input@)),
    {
        Source::new(input).parse_xpath()
    }
}

/// A list that holds one node.
fn one(node: ParseNode) -> (nodes: Vec<ParseNode>)
    ensures
        nodes@ == seq![node],
        ParseNode::trees(nodes@) == seq![node@],
{
    let mut nodes: Vec<ParseNode> = Vec::new();
    nodes.push(node);
    assert(ParseNode::trees(nodes@) =~= seq![node@]);
    nodes
}

/// Whether a parser's answer is the match that the grammar gives.
spec fn agrees(r: Option<(ParseNode, usize)>, m: Option<(ParseTree, int)>) -> bool {
    match r {
        Some((node, end)) => m == Some((node@, end as int)),
        None => m is None,
    }
}

/// Whether a parser's answer is the match of a list that the grammar gives.
spec fn agrees_list(
    r: Option<(Vec<ParseNode>, usize)>,
    m: Option<(Seq<ParseTree>, int)>,
) -> bool {
    match r {
        Some((nodes, end)) => m == Some((ParseNode::trees(nodes@), end as int)),
        None => m is None,
    }
}

/// Whether a parser's answer is what the grammar gives for the whole text.
pub open spec fn agrees_whole(r: Result<ParseNode, SyntaxError>, m: Result<ParseTree, SyntaxError>)
    -> bool {
    match r {
        Ok(node) => m == Ok::<ParseTree, SyntaxError>(node@),
        Err(error) => m == Err::<ParseTree, SyntaxError>(error),
    }
}

} // verus!
