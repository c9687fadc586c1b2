//! The parse tree: tagged nodes that hold the text they matched and the
//! nodes matched inside them.
use vstd::prelude::*;
use vstd::string::StringExecFns;
use crate::model::lemma_views_push;
use crate::model::views;

verus! {

/// The tag of a parse-tree node: the grammar rule that produced it.
#[derive(Clone, Copy, Debug, PartialEq, Eq, Structural)]
pub enum Rule {
    /// The root: one or more expressions joined by `|`.
    Xpath,
    /// One location path: a flat run of axes and steps.
    XpathExpression,
    /// An axis: `name::`, `/name::`, `/` or `//`.
    Axis,
    /// The keyword inside an explicit axis.
    AxisName,
    /// A node test followed by its predicates.
    Step,
    /// The node test of a step: `*` or a name.
    NodeTest,
    /// One bracketed predicate.
    Predicate,
    /// One test inside a predicate.
    Clause,
    /// `and` or `or` between two clauses.
    BooleanOperator,
    /// One of `=`, `!=`, `<`, `<=`, `>`, `>=`.
    Comparator,
    /// A function call: a name and its arguments.
    FunctionCall,
    /// The name of a function or of an attribute.
    Name,
    /// An attribute reference, `@name`.
    Attribute,
    /// A quoted string, quotes included.
    StringLiteral,
    /// The text between the quotes of a string literal.
    StringContent,
    /// A run of decimal digits.
    Integer,
}

impl Rule {
    /// The name under which the rule is shown.
    pub open spec fn name(self) -> Seq<char> {
        match self {
            Rule::Xpath => "xpath"@,
            Rule::XpathExpression => "xpath_expression"@,
            Rule::Axis => "axis"@,
            Rule::AxisName => "axis_name"@,
            Rule::Step => "step"@,
            Rule::NodeTest => "node_test"@,
            Rule::Predicate => "predicate"@,
            Rule::Clause => "clause"@,
            Rule::BooleanOperator => "boolean_operator"@,
            Rule::Comparator => "comparator"@,
            Rule::FunctionCall => "function_call"@,
            Rule::Name => "name"@,
            Rule::Attribute => "attribute"@,
            Rule::StringLiteral => "string_literal"@,
            Rule::StringContent => "string_content"@,
            Rule::Integer => "integer"@,
        }
    }

    pub fn as_str(&self) -> (name: &'static str)
        ensures
            name@ == self.name(),
    {
        match self {
            Rule::Xpath => "xpath",
            Rule::XpathExpression => "xpath_expression",
            Rule::Axis => "axis",
            Rule::AxisName => "axis_name",
            Rule::Step => "step",
            Rule::NodeTest => "node_test",
            Rule::Predicate => "predicate",
            Rule::Clause => "clause",
            Rule::BooleanOperator => "boolean_operator",
            Rule::Comparator => "comparator",
            Rule::FunctionCall => "function_call",
            Rule::Name => "name",
            Rule::Attribute => "attribute",
            Rule::StringLiteral => "string_literal",
            Rule::StringContent => "string_content",
            Rule::Integer => "integer",
        }
    }
}

/// The mathematical model of a parse-tree node.
pub struct ParseTree {
    pub rule: Rule,
    pub text: Seq<char>,
    pub children: Seq<ParseTree>,
}

/// A node of the parse tree: the rule that matched, the exact text it
/// matched, and the nodes of the rules that matched inside it, in order.
#[derive(Debug)]
pub struct ParseNode {
    pub rule: Rule,
    pub text: String,
    pub children: Vec<ParseNode>,
}

impl ParseNode {
    /// The tree that this node stands for.
    pub open spec fn tree(&self) -> ParseTree
        decreases self,
    {
        ParseTree {
            rule: self.rule,
            text: self.text@,
            children: Seq::new(
                self.children@.len(),
                |i: int|
                    if 0 <= i < self.children@.len() {
                        self.children@[i].tree()
                    } else {
                        arbitrary()
                    },
            ),
        }
    }

    /// The trees of a sequence of nodes.
    pub open spec fn trees(nodes: Seq<ParseNode>) -> Seq<ParseTree> {
        Seq::new(nodes.len(), |i: int| nodes[i].tree())
    }

    /// A node's tree has the node's rule and text, and the trees of its
    /// children as children.
    pub proof fn lemma_tree(&self)
        ensures
            self@.rule == self.rule,
            self@.text == self.text@,
            self@.children == Self::trees(self.children@),
    {
        assert(self@.children =~= Self::trees(self.children@));
    }

    /// Appending a node appends its tree.
    pub proof fn lemma_trees_push(nodes: Seq<ParseNode>, node: ParseNode)
        ensures
            Self::trees(nodes.push(node)) == Self::trees(nodes).push(node@),
    {
        assert(Self::trees(nodes.push(node)) =~= Self::trees(nodes).push(node@));
    }

    /// Builds a node from its three parts.
    pub fn new(rule: Rule, text: &str, children: Vec<ParseNode>) -> (node: ParseNode)
        ensures
            node@ == (ParseTree { rule, text: text@, children: Self::trees(children@) }),
            node.rule == rule,
            node.text@ == text@,
            node.children == children,
    {
        let node = ParseNode { rule, text: String::from_str(text), children };
        proof {
            node.lemma_tree();
        }
        node
    }
}

/// The place of the first of `trees`, from `from` on, that carries the
/// tag `rule`, if one does.
pub open spec fn first_tagged(trees: Seq<ParseTree>, rule: Rule, from: int) -> Option<int>
    decreases trees.len() - from,
{
    if 0 <= from < trees.len() {
        if trees[from].rule == rule {
            Some(from)
        } else {
            first_tagged(trees, rule, from + 1)
        }
    } else {
        None
    }
}

/// `first_tagged` finds a tree with the tag, in front of which none has
/// it; it finds nothing only where no tree has the tag.
pub proof fn lemma_first_tagged(trees: Seq<ParseTree>, rule: Rule, from: int)
    requires
        0 <= from,
    ensures
        match first_tagged(trees, rule, from) {
            Some(place) => {
                &&& from <= place < trees.len()
                &&& trees[place].rule == rule
                &&& forall|i: int| from <= i < place ==> (#[trigger] trees[i]).rule != rule
            },
            None => forall|i: int| from <= i < trees.len() ==> (#[trigger] trees[i]).rule != rule,
        },
    decreases trees.len() - from,
{
    if from < trees.len() && trees[from].rule != rule {
        lemma_first_tagged(trees, rule, from + 1);
    }
}

/// A tree with the tag, in front of which none has it, is the one
/// that `first_tagged` finds.
pub proof fn lemma_first_tagged_at(trees: Seq<ParseTree>, rule: Rule, place: int)
    requires
        0 <= place < trees.len(),
        trees[place].rule == rule,
        forall|i: int| 0 <= i < place ==> (#[trigger] trees[i]).rule != rule,
    ensures
        first_tagged(trees, rule, 0) == Some(place),
{
    lemma_first_tagged(trees, rule, 0);
}

/// Where no tree has the tag, `first_tagged` finds nothing.
pub proof fn lemma_none_tagged(trees: Seq<ParseTree>, rule: Rule)
    requires
        forall|i: int| 0 <= i < trees.len() ==> (#[trigger] trees[i]).rule != rule,
    ensures
        first_tagged(trees, rule, 0) is None,
{
    lemma_first_tagged(trees, rule, 0);
}

/// The line that shows one node: the indentation, the name of the
/// rule, a colon and a space, and the text that the node matched.
pub open spec fn line_of(tree: ParseTree, indent: Seq<char>) -> Seq<char> {
    indent + tree.rule.name() + ": "@ + tree.text
}

/// The lines that show a tree: the line of the root, then the lines of
/// each child in order, one tab further in.
pub open spec fn outline_of(tree: ParseTree, indent: Seq<char>) -> Seq<Seq<char>>
    decreases tree, 0int,
{
    seq![line_of(tree, indent)] + outlines_of(tree.children, indent + "\t"@, 0)
}

/// The lines that show the trees from `from` on, one after the other.
pub open spec fn outlines_of(trees: Seq<ParseTree>, indent: Seq<char>, from: int) -> Seq<Seq<char>>
    decreases trees, trees.len() - from,
{
    if 0 <= from < trees.len() {
        outline_of(trees[from], indent) + outlines_of(trees, indent, from + 1)
    } else {
        Seq::empty()
    }
}

/// An indentation of `depth` tabs.
pub open spec fn tabs(depth: nat) -> Seq<char>
    decreases depth,
{
    if depth == 0 {
        Seq::empty()
    } else {
        tabs((depth - 1) as nat) + "\t"@
    }
}

impl ParseNode {
    /// The place of the first child that carries the tag `rule`, if one
    /// does.
    pub fn find_child(&self, rule: Rule) -> (place: Option<usize>)
        ensures
            match place {
                Some(i) => first_tagged(self@.children, rule, 0) == Some(i as int) && i
                    < self.children@.len(),
                None => first_tagged(self@.children, rule, 0) is None,
            },
    {
        proof {
            self.lemma_tree();
        }
        let mut i: usize = 0;
        while i < self.children.len()
            invariant
                i <= self.children@.len(),
                self@.children == Self::trees(self.children@),
                first_tagged(self@.children, rule, i as int) == first_tagged(
                    self@.children,
                    rule,
                    0,
                ),
            decreases self.children@.len() - i,
        {
            proof {
                self.children[i as int].lemma_tree();
            }
            if self.children[i].rule == rule {
                return Some(i);
            }
            i += 1;
        }
        None
    }

    /// The lines that show the tree under this node, for printing.
    pub fn outline(&self) -> (lines: Vec<String>)
        ensures
            views(lines@) == outline_of(self@, Seq::empty()),
    {
        self.outline_at(0)
    }

    /// The lines that show the tree under this node, with the node
    /// itself `depth` tabs in.
    pub fn outline_at(&self, depth: usize) -> (lines: Vec<String>)
        ensures
            views(lines@) == outline_of(self@, tabs(depth as nat)),
    {
        let mut indent = String::new();
        let mut i: usize = 0;
        while i < depth
            invariant
                i <= depth,
                indent@ == tabs(i as nat),
            decreases depth - i,
        {
            indent.append("\t");
            i += 1;
        }
        let mut lines: Vec<String> = Vec::new();
        self.outline_into(indent.as_str(), &mut lines);
        assert(views(lines@) =~= outline_of(self@, tabs(depth as nat)));
        lines
    }

    /// Appends the lines that show the tree under this node.
    #[verifier::loop_isolation(false)]
    fn outline_into(&self, indent: &str, lines: &mut Vec<String>)
        ensures
            views(final(lines)@) == views(old(lines)@) + outline_of(self@, indent@),
        decreases self,
    {
        proof {
            self.lemma_tree();
        }
        let mut line = String::from_str(indent);
        line.append(self.rule.as_str());
        line.append(": ");
        line.append(self.text.as_str());
        proof {
            lemma_views_push(lines@, line);
        }
        lines.push(line);
        let deeper = String::from_str(indent).concat("\t");
        let mut i: usize = 0;
        assert(views(lines@) + outlines_of(self@.children, deeper@, 0) =~= views(old(lines)@)
            + outline_of(self@, indent@));
        while i < self.children.len()
            invariant
                i <= self.children@.len(),
                views(lines@) + outlines_of(self@.children, deeper@, i as int) == views(
                    old(lines)@,
                ) + outline_of(self@, indent@),
            decreases self.children@.len() - i,
        {
            let ghost before = views(lines@);
            self.children[i].outline_into(deeper.as_str(), lines);
            assert(views(lines@) + outlines_of(self@.children, deeper@, i + 1) =~= before
                + outlines_of(self@.children, deeper@, i as int));
            i += 1;
        }
        assert(views(lines@) + outlines_of(self@.children, deeper@, i as int) =~= views(lines@));
    }
}

impl View for ParseNode {
    type V = ParseTree;

    open spec fn view(&self) -> ParseTree {
        self.tree()
    }
}

} // verus!
