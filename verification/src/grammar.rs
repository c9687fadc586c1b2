//! The grammar of location paths, as functions from a text and a
//! position to the parse tree that starts there.
//!
//! ```text
//! xpath            := expression ("|" expression)*
//! expression       := (axis | step)+
//! axis             := "//" | "/"? name "::" | "/"
//! step             := ("*" | name) predicate*
//! predicate        := "[" clause (("and" | "or") clause)* "]"
//! clause           := operand (comparator operand)?
//! operand          := "@" name | string | integer | call
//! call             := name "(" (operand ("," operand)*)? ")"
//! comparator       := "<=" | ">=" | "!=" | "=" | "<" | ">"
//! string           := "'" [^']* "'" | '"' [^"]* '"'
//! integer          := [0-9]+
//! name             := name_start name_char*
//! ```
//!
//! Choices are ordered and repetitions are greedy. Whitespace may stand
//! between the items of an expression, around `|`, inside the brackets
//! of a predicate and of a call, and around operators, comparators and
//! commas; it may not stand inside an axis. The order of axes and steps
//! is left open here: the lowering pass enforces it.
use vstd::prelude::*;
use vstd::std_specs::iter::IteratorSpec;
use crate::error::Expected;
use crate::error::SyntaxError;
use crate::parse_tree::ParseTree;
use crate::parse_tree::Rule;

verus! {

/// A set of characters that the scanner can run over.
#[derive(Clone, Copy, Debug)]
pub enum CharClass {
    /// Space, tab, line feed and carriage return.
    Whitespace,
    /// What may follow the first character of a name.
    NameChar,
    /// `0` to `9`.
    Digit,
    /// Every character but the given one.
    Except(char),
}

pub open spec fn is_whitespace(c: char) -> bool {
    c == ' ' || c == '\t' || c == '\n' || c == '\r'
}

pub open spec fn is_digit(c: char) -> bool {
    '0' <= c <= '9'
}

/// A name starts with an ASCII letter, an underscore, or any character
/// outside ASCII.
pub open spec fn is_name_start(c: char) -> bool {
    ('a' <= c <= 'z') || ('A' <= c <= 'Z') || c == '_' || c > '\x7f'
}

/// A name goes on with name-start characters, digits, `-` and `.`.
pub open spec fn is_name_char(c: char) -> bool {
    is_name_start(c) || is_digit(c) || c == '-' || c == '.'
}

pub fn check_whitespace(c: char) -> (r: bool)
    ensures
        r == is_whitespace(c),
{
    c == ' ' || c == '\t' || c == '\n' || c == '\r'
}

pub fn check_digit(c: char) -> (r: bool)
    ensures
        r == is_digit(c),
{
    '0' <= c && c <= '9'
}

pub fn check_name_start(c: char) -> (r: bool)
    ensures
        r == is_name_start(c),
{
    ('a' <= c && c <= 'z') || ('A' <= c && c <= 'Z') || c == '_' || c > '\x7f'
}

pub fn check_name_char(c: char) -> (r: bool)
    ensures
        r == is_name_char(c),
{
    check_name_start(c) || check_digit(c) || c == '-' || c == '.'
}

/// Whether the character of `text` at `i` may stand there in a name.
pub open spec fn name_char_at(text: Seq<char>, i: int) -> bool {
    if i == 0 {
        is_name_start(text[i])
    } else {
        is_name_char(text[i])
    }
}

/// Whether `text` is a name: a name-start character and then name
/// characters only.
pub open spec fn is_name(text: Seq<char>) -> bool {
    text.len() > 0 && forall|i: int| 0 <= i < text.len() ==> name_char_at(text, i)
}

/// Whether `text` is a name.
pub fn check_name(text: &str) -> (r: bool)
    ensures
        r == is_name(text@),
{
    let mut first = true;
    let mut valid = true;
    for c in it: text.chars()
        invariant
            it.seq() == text@,
            first == (it.index() == 0),
            valid == (forall|i: int| 0 <= i < it.index() ==> name_char_at(text@, i)),
    {
        let ghost k = it.index() as int;
        let fits = if first {
            check_name_start(c)
        } else {
            check_name_char(c)
        };
        assert(fits == name_char_at(text@, k));
        assert(valid && fits <==> (forall|i: int| 0 <= i < k + 1 ==> name_char_at(text@, i))) by {
            if valid && fits {
                assert forall|i: int| 0 <= i < k + 1 implies name_char_at(text@, i) by {
                    if i < k {
                    }
                }
            }
        }
        valid = valid && fits;
        first = false;
    }
    !first && valid
}

impl CharClass {
    /// Whether `c` belongs to the class.
    pub open spec fn contains(self, c: char) -> bool {
        match self {
            CharClass::Whitespace => is_whitespace(c),
            CharClass::NameChar => is_name_char(c),
            CharClass::Digit => is_digit(c),
            CharClass::Except(stop) => c != stop,
        }
    }

    pub fn test(self, c: char) -> (r: bool)
        ensures
            r == self.contains(c),
    {
        match self {
            CharClass::Whitespace => check_whitespace(c),
            CharClass::NameChar => check_name_char(c),
            CharClass::Digit => check_digit(c),
            CharClass::Except(stop) => c != stop,
        }
    }
}

/// The first position at or after `pos` whose character is outside
/// `class`, or the end of `s`.
pub open spec fn scan(s: Seq<char>, pos: int, class: CharClass) -> int
    decreases s.len() - pos,
{
    if 0 <= pos < s.len() && class.contains(s[pos]) {
        scan(s, pos + 1, class)
    } else {
        pos
    }
}

/// `scan` never moves backwards; from a position inside the text it stops
/// inside the text, after a run of characters of the class and in front of
/// a character outside it.
pub proof fn lemma_scan(s: Seq<char>, pos: int, class: CharClass)
    ensures
        pos <= scan(s, pos, class),
        pos <= s.len() ==> scan(s, pos, class) <= s.len(),
        0 <= pos ==> forall|i: int| pos <= i < scan(s, pos, class) ==> class.contains(#[trigger] s[i]),
        0 <= pos && scan(s, pos, class) < s.len() ==> !class.contains(s[scan(s, pos, class)]),
    decreases s.len() - pos,
{
    if 0 <= pos < s.len() && class.contains(s[pos]) {
        lemma_scan(s, pos + 1, class);
    }
}

/// Whether the character of `s` at `pos` exists and is `c`.
pub open spec fn has_char(s: Seq<char>, pos: int, c: char) -> bool {
    0 <= pos < s.len() && s[pos] == c
}

/// A node without children for the text of `s` between `from` and `to`.
pub open spec fn leaf(rule: Rule, s: Seq<char>, from: int, to: int) -> ParseTree {
    ParseTree { rule, text: s.subrange(from, to), children: Seq::empty() }
}

/// A node with children for the text of `s` between `from` and `to`.
pub open spec fn branch(rule: Rule, s: Seq<char>, from: int, to: int, children: Seq<ParseTree>)
    -> ParseTree {
    ParseTree { rule, text: s.subrange(from, to), children }
}

/// The first position at or after `pos` that holds no whitespace.
pub open spec fn skip_ws(s: Seq<char>, pos: int) -> int {
    scan(s, pos, CharClass::Whitespace)
}

/// `name := name_start name_char*`, tagged with `rule`.
pub open spec fn name_at(s: Seq<char>, pos: int, rule: Rule) -> Option<(ParseTree, int)> {
    if 0 <= pos < s.len() && is_name_start(s[pos]) {
        let end = scan(s, pos + 1, CharClass::NameChar);
        Some((leaf(rule, s, pos, end), end))
    } else {
        None
    }
}

/// `axis := "//" | "/"? axis_name "::" | "/"`.
pub open spec fn axis_at(s: Seq<char>, pos: int) -> Option<(ParseTree, int)> {
    if has_char(s, pos, '/') && has_char(s, pos + 1, '/') {
        Some((leaf(Rule::Axis, s, pos, pos + 2), pos + 2))
    } else {
        let start = if has_char(s, pos, '/') {
            pos + 1
        } else {
            pos
        };
        match name_at(s, start, Rule::AxisName) {
            Some((name, end)) => if has_char(s, end, ':') && has_char(s, end + 1, ':') {
                Some((branch(Rule::Axis, s, pos, end + 2, seq![name]), end + 2))
            } else if start > pos {
                Some((leaf(Rule::Axis, s, pos, pos + 1), pos + 1))
            } else {
                None
            },
            None => if start > pos {
                Some((leaf(Rule::Axis, s, pos, pos + 1), pos + 1))
            } else {
                None
            },
        }
    }
}

/// `node_test := "*" | name`.
pub open spec fn node_test_at(s: Seq<char>, pos: int) -> Option<(ParseTree, int)> {
    if has_char(s, pos, '*') {
        Some((leaf(Rule::NodeTest, s, pos, pos + 1), pos + 1))
    } else {
        name_at(s, pos, Rule::NodeTest)
    }
}

/// `string := quote (any character but quote)* quote`, opened at `pos`.
pub open spec fn string_at(s: Seq<char>, pos: int, quote: char) -> Option<(ParseTree, int)> {
    let close = scan(s, pos + 1, CharClass::Except(quote));
    if has_char(s, pos, quote) && close < s.len() {
        let content = leaf(Rule::StringContent, s, pos + 1, close);
        Some((branch(Rule::StringLiteral, s, pos, close + 1, seq![content]), close + 1))
    } else {
        None
    }
}

/// `comparator := "<=" | ">=" | "!=" | "=" | "<" | ">"`.
pub open spec fn comparator_at(s: Seq<char>, pos: int) -> Option<(ParseTree, int)> {
    if (has_char(s, pos, '<') || has_char(s, pos, '>') || has_char(s, pos, '!')) && has_char(
        s,
        pos + 1,
        '=',
    ) {
        Some((leaf(Rule::Comparator, s, pos, pos + 2), pos + 2))
    } else if has_char(s, pos, '=') || has_char(s, pos, '<') || has_char(s, pos, '>') {
        Some((leaf(Rule::Comparator, s, pos, pos + 1), pos + 1))
    } else {
        None
    }
}

/// `boolean_operator := "and" | "or"`, as a whole name.
pub open spec fn boolean_operator_at(s: Seq<char>, pos: int) -> Option<(ParseTree, int)> {
    match name_at(s, pos, Rule::BooleanOperator) {
        Some((word, end)) => if word.text == "and"@ || word.text == "or"@ {
            Some((word, end))
        } else {
            None
        },
        None => None,
    }
}

/// `operand := "@" name | string | integer | call`.
pub open spec fn operand_at(s: Seq<char>, pos: int) -> Option<(ParseTree, int)>
    decreases s.len() - pos, 1int,
{
    if has_char(s, pos, '@') {
        match name_at(s, pos + 1, Rule::Name) {
            Some((name, end)) => Some((branch(Rule::Attribute, s, pos, end, seq![name]), end)),
            None => None,
        }
    } else if has_char(s, pos, '\'') {
        string_at(s, pos, '\'')
    } else if has_char(s, pos, '"') {
        string_at(s, pos, '"')
    } else if 0 <= pos < s.len() && is_digit(s[pos]) {
        let end = scan(s, pos, CharClass::Digit);
        Some((leaf(Rule::Integer, s, pos, end), end))
    } else {
        call_at(s, pos)
    }
}

/// `call := name "(" (operand ("," operand)*)? ")"`, with whitespace
/// allowed around the brackets and the commas.
pub open spec fn call_at(s: Seq<char>, pos: int) -> Option<(ParseTree, int)>
    decreases s.len() - pos, 0int,
{
    match name_at(s, pos, Rule::Name) {
        Some((name, end)) => {
            let open = skip_ws(s, end);
            let first = skip_ws(s, open + 1);
            if !has_char(s, open, '(') {
                None
            } else if has_char(s, first, ')') {
                Some((branch(Rule::FunctionCall, s, pos, first + 1, seq![name]), first + 1))
            } else {
                proof {
                    lemma_scan(s, pos + 1, CharClass::NameChar);
                    lemma_scan(s, end, CharClass::Whitespace);
                    lemma_scan(s, open + 1, CharClass::Whitespace);
                }
                match arguments_at(s, first, seq![name]) {
                    Some((children, last)) => {
                        let close = skip_ws(s, last);
                        if has_char(s, close, ')') {
                            Some(
                                (
                                    branch(Rule::FunctionCall, s, pos, close + 1, children),
                                    close + 1,
                                ),
                            )
                        } else {
                            None
                        }
                    },
                    None => None,
                }
            }
        },
        None => None,
    }
}

/// `operand ("," operand)*`, appended to `acc`. An operand is never
/// empty, so each round moves on.
pub open spec fn arguments_at(s: Seq<char>, pos: int, acc: Seq<ParseTree>) -> Option<
    (Seq<ParseTree>, int),
>
    decreases s.len() - pos, 2int,
{
    match operand_at(s, pos) {
        Some((argument, end)) => {
            let comma = skip_ws(s, end);
            if has_char(s, comma, ',') && end > pos {
                proof {
                    lemma_scan(s, end, CharClass::Whitespace);
                    lemma_scan(s, comma + 1, CharClass::Whitespace);
                }
                arguments_at(s, skip_ws(s, comma + 1), acc.push(argument))
            } else {
                Some((acc.push(argument), end))
            }
        },
        None => None,
    }
}

/// Whether a match, if there is one, starts at `pos`, is not empty, ends
/// inside `s`, and carries the text that it ran over.
pub open spec fn within(m: Option<(ParseTree, int)>, s: Seq<char>, pos: int) -> bool {
    match m {
        Some((tree, end)) => 0 <= pos < end <= s.len() && tree.text == s.subrange(pos, end),
        None => true,
    }
}

/// Whether a match, if there is one, carries the tag `rule`.
pub open spec fn tagged(m: Option<(ParseTree, int)>, rule: Rule) -> bool {
    match m {
        Some((tree, end)) => tree.rule == rule,
        None => true,
    }
}

/// Whether a match of a list, if there is one, starts at `pos`, is not
/// empty, and ends inside `s`.
pub open spec fn advances(m: Option<(Seq<ParseTree>, int)>, s: Seq<char>, pos: int) -> bool {
    match m {
        Some((trees, end)) => 0 <= pos < end <= s.len(),
        None => true,
    }
}

pub proof fn lemma_name_at(s: Seq<char>, pos: int, rule: Rule)
    ensures
        within(name_at(s, pos, rule), s, pos),
        tagged(name_at(s, pos, rule), rule),
{
    lemma_scan(s, pos + 1, CharClass::NameChar);
}

pub proof fn lemma_axis_at(s: Seq<char>, pos: int)
    ensures
        within(axis_at(s, pos), s, pos),
        tagged(axis_at(s, pos), Rule::Axis),
{
    lemma_name_at(s, pos, Rule::AxisName);
    lemma_name_at(s, pos + 1, Rule::AxisName);
}

pub proof fn lemma_string_at(s: Seq<char>, pos: int, quote: char)
    ensures
        within(string_at(s, pos, quote), s, pos),
{
    lemma_scan(s, pos + 1, CharClass::Except(quote));
}

pub proof fn lemma_operand_at(s: Seq<char>, pos: int)
    ensures
        within(operand_at(s, pos), s, pos),
    decreases s.len() - pos, 1int,
{
    lemma_name_at(s, pos + 1, Rule::Name);
    lemma_string_at(s, pos, '\'');
    lemma_string_at(s, pos, '"');
    lemma_scan(s, pos, CharClass::Digit);
    if has_char(s, pos, '@') || has_char(s, pos, '\'') || has_char(s, pos, '"') || (0 <= pos
        < s.len() && is_digit(s[pos])) {
    } else {
        lemma_call_at(s, pos);
    }
}

pub proof fn lemma_call_at(s: Seq<char>, pos: int)
    ensures
        within(call_at(s, pos), s, pos),
    decreases s.len() - pos, 0int,
{
    lemma_name_at(s, pos, Rule::Name);
    match name_at(s, pos, Rule::Name) {
        Some((name, end)) => {
            let open = skip_ws(s, end);
            let first = skip_ws(s, open + 1);
            lemma_scan(s, end, CharClass::Whitespace);
            lemma_scan(s, open + 1, CharClass::Whitespace);
            if has_char(s, open, '(') && !has_char(s, first, ')') {
                lemma_arguments_at(s, first, seq![name]);
                match arguments_at(s, first, seq![name]) {
                    Some((children, last)) => {
                        lemma_scan(s, last, CharClass::Whitespace);
                    },
                    None => {},
                }
            }
        },
        None => {},
    }
}

pub proof fn lemma_arguments_at(s: Seq<char>, pos: int, acc: Seq<ParseTree>)
    ensures
        advances(arguments_at(s, pos, acc), s, pos),
    decreases s.len() - pos, 2int,
{
    lemma_operand_at(s, pos);
    match operand_at(s, pos) {
        Some((argument, end)) => {
            let comma = skip_ws(s, end);
            lemma_scan(s, end, CharClass::Whitespace);
            lemma_scan(s, comma + 1, CharClass::Whitespace);
            if has_char(s, comma, ',') {
                lemma_arguments_at(s, skip_ws(s, comma + 1), acc.push(argument));
            }
        },
        None => {},
    }
}

/// `clause := operand (comparator operand)?`, with whitespace allowed
/// around the comparator.
pub open spec fn clause_at(s: Seq<char>, pos: int) -> Option<(ParseTree, int)> {
    match operand_at(s, pos) {
        Some((left, end)) => match comparator_at(s, skip_ws(s, end)) {
            Some((comparator, after)) => match operand_at(s, skip_ws(s, after)) {
                Some((right, last)) => Some(
                    (branch(Rule::Clause, s, pos, last, seq![left, comparator, right]), last),
                ),
                None => None,
            },
            None => Some((branch(Rule::Clause, s, pos, end, seq![left]), end)),
        },
        None => None,
    }
}

pub proof fn lemma_clause_at(s: Seq<char>, pos: int)
    ensures
        within(clause_at(s, pos), s, pos),
        tagged(clause_at(s, pos), Rule::Clause),
{
    lemma_operand_at(s, pos);
    match operand_at(s, pos) {
        Some((left, end)) => {
            lemma_scan(s, end, CharClass::Whitespace);
            match comparator_at(s, skip_ws(s, end)) {
                Some((comparator, after)) => {
                    lemma_scan(s, after, CharClass::Whitespace);
                    lemma_operand_at(s, skip_ws(s, after));
                },
                None => {},
            }
        },
        None => {},
    }
}

/// `clause (boolean_operator clause)*`, appended to `acc`, with
/// whitespace allowed around the operators.
pub open spec fn clauses_at(s: Seq<char>, pos: int, acc: Seq<ParseTree>) -> Option<
    (Seq<ParseTree>, int),
>
    decreases s.len() - pos,
{
    match clause_at(s, pos) {
        Some((clause, end)) => match boolean_operator_at(s, skip_ws(s, end)) {
            Some((operator, after)) => {
                proof {
                    lemma_clause_at(s, pos);
                    lemma_scan(s, end, CharClass::Whitespace);
                    lemma_name_at(s, skip_ws(s, end), Rule::BooleanOperator);
                    lemma_scan(s, after, CharClass::Whitespace);
                }
                clauses_at(s, skip_ws(s, after), acc.push(clause).push(operator))
            },
            None => Some((acc.push(clause), end)),
        },
        None => None,
    }
}

pub proof fn lemma_clauses_at(s: Seq<char>, pos: int, acc: Seq<ParseTree>)
    ensures
        advances(clauses_at(s, pos, acc), s, pos),
    decreases s.len() - pos,
{
    lemma_clause_at(s, pos);
    match clause_at(s, pos) {
        Some((clause, end)) => {
            lemma_scan(s, end, CharClass::Whitespace);
            lemma_name_at(s, skip_ws(s, end), Rule::BooleanOperator);
            match boolean_operator_at(s, skip_ws(s, end)) {
                Some((operator, after)) => {
                    lemma_scan(s, after, CharClass::Whitespace);
                    lemma_clauses_at(s, skip_ws(s, after), acc.push(clause).push(operator));
                },
                None => {},
            }
        },
        None => {},
    }
}

/// `predicate := "[" clause (boolean_operator clause)* "]"`, with
/// whitespace allowed inside the brackets.
pub open spec fn predicate_at(s: Seq<char>, pos: int) -> Option<(ParseTree, int)> {
    if has_char(s, pos, '[') {
        match clauses_at(s, skip_ws(s, pos + 1), Seq::empty()) {
            Some((children, end)) => {
                let close = skip_ws(s, end);
                if has_char(s, close, ']') {
                    Some((branch(Rule::Predicate, s, pos, close + 1, children), close + 1))
                } else {
                    None
                }
            },
            None => None,
        }
    } else {
        None
    }
}

pub proof fn lemma_predicate_at(s: Seq<char>, pos: int)
    ensures
        within(predicate_at(s, pos), s, pos),
        tagged(predicate_at(s, pos), Rule::Predicate),
{
    lemma_scan(s, pos + 1, CharClass::Whitespace);
    lemma_clauses_at(s, skip_ws(s, pos + 1), Seq::empty());
    match clauses_at(s, skip_ws(s, pos + 1), Seq::empty()) {
        Some((children, end)) => {
            lemma_scan(s, end, CharClass::Whitespace);
        },
        None => {},
    }
}

/// `predicate*`, appended to `acc`, with whitespace allowed in front of
/// each; the position returned is the end of the last predicate.
pub open spec fn predicates_at(s: Seq<char>, pos: int, acc: Seq<ParseTree>) -> (Seq<ParseTree>, int)
    decreases s.len() - pos,
{
    match predicate_at(s, skip_ws(s, pos)) {
        Some((predicate, end)) => {
            proof {
                lemma_scan(s, pos, CharClass::Whitespace);
                lemma_predicate_at(s, skip_ws(s, pos));
            }
            predicates_at(s, end, acc.push(predicate))
        },
        None => (acc, pos),
    }
}

pub proof fn lemma_predicates_at(s: Seq<char>, pos: int, acc: Seq<ParseTree>)
    requires
        0 <= pos <= s.len(),
    ensures
        pos <= predicates_at(s, pos, acc).1 <= s.len(),
    decreases s.len() - pos,
{
    lemma_scan(s, pos, CharClass::Whitespace);
    lemma_predicate_at(s, skip_ws(s, pos));
    match predicate_at(s, skip_ws(s, pos)) {
        Some((predicate, end)) => {
            lemma_predicates_at(s, end, acc.push(predicate));
        },
        None => {},
    }
}

/// `step := node_test predicate*`.
pub open spec fn step_at(s: Seq<char>, pos: int) -> Option<(ParseTree, int)> {
    match node_test_at(s, pos) {
        Some((test, end)) => {
            let (children, last) = predicates_at(s, end, seq![test]);
            Some((branch(Rule::Step, s, pos, last, children), last))
        },
        None => None,
    }
}

pub proof fn lemma_step_at(s: Seq<char>, pos: int)
    ensures
        within(step_at(s, pos), s, pos),
        tagged(step_at(s, pos), Rule::Step),
{
    lemma_name_at(s, pos, Rule::NodeTest);
    match node_test_at(s, pos) {
        Some((test, end)) => {
            lemma_predicates_at(s, end, seq![test]);
        },
        None => {},
    }
}

/// `item := axis | step`.
pub open spec fn item_at(s: Seq<char>, pos: int) -> Option<(ParseTree, int)> {
    match axis_at(s, pos) {
        Some(found) => Some(found),
        None => step_at(s, pos),
    }
}

/// `item*`, appended to `acc`, with whitespace allowed in front of each;
/// the position returned is the end of the last item.
pub open spec fn items_at(s: Seq<char>, pos: int, acc: Seq<ParseTree>) -> (Seq<ParseTree>, int)
    decreases s.len() - pos,
{
    match item_at(s, skip_ws(s, pos)) {
        Some((item, end)) => {
            proof {
                lemma_scan(s, pos, CharClass::Whitespace);
                lemma_axis_at(s, skip_ws(s, pos));
                lemma_step_at(s, skip_ws(s, pos));
            }
            items_at(s, end, acc.push(item))
        },
        None => (acc, pos),
    }
}

pub proof fn lemma_items_at(s: Seq<char>, pos: int, acc: Seq<ParseTree>)
    requires
        0 <= pos <= s.len(),
    ensures
        pos <= items_at(s, pos, acc).1 <= s.len(),
    decreases s.len() - pos,
{
    lemma_scan(s, pos, CharClass::Whitespace);
    lemma_axis_at(s, skip_ws(s, pos));
    lemma_step_at(s, skip_ws(s, pos));
    match item_at(s, skip_ws(s, pos)) {
        Some((item, end)) => {
            lemma_items_at(s, end, acc.push(item));
        },
        None => {},
    }
}

/// `expression := item+`. The order of the items is left open: a step
/// that opens the expression stands as its first child.
pub open spec fn expression_at(s: Seq<char>, pos: int) -> Option<(ParseTree, int)> {
    match item_at(s, pos) {
        Some((item, end)) => {
            let (children, last) = items_at(s, end, seq![item]);
            Some((branch(Rule::XpathExpression, s, pos, last, children), last))
        },
        None => None,
    }
}

pub proof fn lemma_expression_at(s: Seq<char>, pos: int)
    ensures
        within(expression_at(s, pos), s, pos),
        tagged(expression_at(s, pos), Rule::XpathExpression),
{
    lemma_axis_at(s, pos);
    lemma_step_at(s, pos);
    match item_at(s, pos) {
        Some((item, end)) => {
            lemma_items_at(s, end, seq![item]);
        },
        None => {},
    }
}

/// `expression ("|" expression)*` up to the end of the text, appended to
/// `acc`, with whitespace allowed around each `|` and at the end.
pub open spec fn expressions_at(s: Seq<char>, pos: int, acc: Seq<ParseTree>) -> Result<
    Seq<ParseTree>,
    SyntaxError,
>
    decreases s.len() - pos,
{
    match expression_at(s, pos) {
        Some((expression, end)) => {
            let next = skip_ws(s, end);
            if next >= s.len() {
                Ok(acc.push(expression))
            } else if has_char(s, next, '|') {
                proof {
                    lemma_expression_at(s, pos);
                    lemma_scan(s, end, CharClass::Whitespace);
                    lemma_scan(s, next + 1, CharClass::Whitespace);
                }
                expressions_at(s, skip_ws(s, next + 1), acc.push(expression))
            } else {
                Err(SyntaxError { position: next as usize, expected: Expected::UnionOrEnd })
            }
        },
        None => Err(SyntaxError { position: pos as usize, expected: Expected::Expression }),
    }
}

/// The parse tree of a whole text: `xpath := expression ("|" expression)*`
/// between optional whitespace, or the place where the text stops matching.
pub open spec fn xpath_of(s: Seq<char>) -> Result<ParseTree, SyntaxError> {
    match expressions_at(s, skip_ws(s, 0), Seq::empty()) {
        Ok(children) => Ok(branch(Rule::Xpath, s, 0, s.len() as int, children)),
        Err(error) => Err(error),
    }
}

} // verus!
