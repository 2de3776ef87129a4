//! Parsing source text with tree-sitter, and holding the result as a
//! `SyntaxTree` of plain values.

use vstd::prelude::*;
use vstd::string::*;

use crate::symbol::{Language, Point};
use crate::syntax::{as_ints, index_opt, SyntaxNode, SyntaxTree};
use crate::text::owned;

verus! {

#[verifier::external_type_specification]
#[verifier::external_body]
pub struct ExTsParser(tree_sitter::Parser);

#[verifier::external_type_specification]
#[verifier::external_body]
pub struct ExTsTree(tree_sitter::Tree);

#[verifier::external_type_specification]
#[verifier::external_body]
pub struct ExIoError(std::io::Error);

/// Why reading a source file failed.
#[derive(Debug)]
pub enum ParserError {
    StdError(std::io::Error),
}

/// What tree-sitter reports of one node of a parse: its kind and grammar
/// name, whether it is named, the field of its parent it fills, its depth
/// below the root, its span in bytes and its start and end positions.
pub struct NodeFacts {
    pub kind: Seq<char>,
    pub grammar_name: Seq<char>,
    pub is_named: bool,
    pub field_name: Option<Seq<char>>,
    pub depth: u32,
    pub start_byte: usize,
    pub end_byte: usize,
    pub start_position: Point,
    pub end_position: Point,
}

/// One node of a tree-sitter tree, read out as plain values.
pub struct NodeReading {
    pub kind: String,
    pub grammar_name: String,
    pub is_named: bool,
    pub field_name: Option<String>,
    pub depth: u32,
    pub start_byte: usize,
    pub end_byte: usize,
    pub start_position: Point,
    pub end_position: Point,
}

impl DeepView for NodeReading {
    type V = NodeFacts;

    open spec fn deep_view(&self) -> NodeFacts {
        NodeFacts {
            kind: self.kind@,
            grammar_name: self.grammar_name@,
            is_named: self.is_named,
            field_name: self.field_name.deep_view(),
            depth: self.depth,
            start_byte: self.start_byte,
            end_byte: self.end_byte,
            start_position: self.start_position,
            end_position: self.end_position,
        }
    }
}

/// The nodes, in pre-order from the root, of the tree tree-sitter builds
/// for `source` with the grammar of `language`.
pub uninterp spec fn parsed_nodes(language: Language, source: Seq<char>) -> Seq<NodeFacts>;

/// The nodes a tree-sitter tree holds, in pre-order from the root.
pub uninterp spec fn tree_nodes(tree: tree_sitter::Tree) -> Seq<NodeFacts>;

/// A tree-sitter parser to which the grammar of a language was given.
pub struct GrammarParser {
    parser: tree_sitter::Parser,
    grammar: Language,
}

impl GrammarParser {
    /// The language whose grammar the parser holds.
    pub closed spec fn grammar(&self) -> Language {
        self.grammar
    }
}

/// `tree_sitter::Parser::new`. Nothing is claimed of the parser.
#[verifier::external_body]
fn new_parser() -> tree_sitter::Parser {
    tree_sitter::Parser::new()
}

/// `tree_sitter::Parser::set_language` with the C++ grammar
/// (`tree_sitter_cpp::LANGUAGE`). Claimed: it succeeds. `set_language`
/// accepts a grammar whose ABI version lies between
/// `MIN_COMPATIBLE_LANGUAGE_VERSION` and `LANGUAGE_VERSION` (13 to 15 in the
/// tree-sitter brought here) and that has a lexer; the C++ grammar brought
/// here is generated with version 14 and a lexer.
#[verifier::external_body]
fn set_cpp_grammar(parser: tree_sitter::Parser) -> (res: Option<GrammarParser>)
    ensures
        res is Some,
        res.unwrap().grammar() == Language::Cpp,
{
    let mut parser = parser;
    match parser.set_language(&tree_sitter_cpp::LANGUAGE.into()) {
        Ok(()) => Some(GrammarParser { parser, grammar: Language::Cpp }),
        Err(_) => None,
    }
}

/// `tree_sitter::Parser::set_language` with the Java grammar
/// (`tree_sitter_java::LANGUAGE`). Claimed: it succeeds, for the reason
/// given for C++ (the Java grammar brought here is also of version 14).
#[verifier::external_body]
fn set_java_grammar(parser: tree_sitter::Parser) -> (res: Option<GrammarParser>)
    ensures
        res is Some,
        res.unwrap().grammar() == Language::Java,
{
    let mut parser = parser;
    match parser.set_language(&tree_sitter_java::LANGUAGE.into()) {
        Ok(()) => Some(GrammarParser { parser, grammar: Language::Java }),
        Err(_) => None,
    }
}

/// `tree_sitter::Parser::parse` on the whole text, with no earlier tree and
/// no options. Claimed: a tree comes back (`parse` gives none only to a
/// parser without a language, and this one has one), and it holds the nodes
/// of tree-sitter's parse of the text with the parser's grammar.
#[verifier::external_body]
fn parse_text(parser: &mut GrammarParser, text: &str) -> (res: Option<tree_sitter::Tree>)
    ensures
        final(parser).grammar() == old(parser).grammar(),
        res matches Some(tree) && tree_nodes(tree) == parsed_nodes(old(parser).grammar(), text@),
{
    parser.parser.parse(text, None)
}

/// `tree_sitter::Node::descendant_count` of the root of `tree`. Claimed, as
/// its documentation says (the count includes the node itself), that it is
/// the number of nodes of the tree, so at least one.
#[verifier::external_body]
fn tree_node_count(tree: &tree_sitter::Tree) -> (res: usize)
    ensures
        res == tree_nodes(*tree).len(),
        res >= 1,
{
    tree.root_node().descendant_count()
}

/// The node of `tree` at pre-order position `index`, reached with
/// `tree_sitter::TreeCursor::goto_descendant` from a cursor on the root, and
/// read out with the `Node` and `TreeCursor` getters. Claimed: the reading
/// is that node of the tree; the root, first in pre-order, has depth 0, and
/// every later node lies one level below the node before it (its first
/// child) or at most as deep (a later sibling of it or of an ancestor).
#[verifier::external_body]
fn tree_node_at(tree: &tree_sitter::Tree, index: usize) -> (res: NodeReading)
    requires
        index < tree_nodes(*tree).len(),
    ensures
        res.deep_view() == tree_nodes(*tree)[index as int],
        index == 0 ==> res.depth == 0,
        index > 0 ==> 1 <= res.depth <= tree_nodes(*tree)[index - 1].depth + 1,
{
    let mut cursor = tree.walk();
    cursor.goto_descendant(index);
    let node = cursor.node();
    let (s, e) = (node.start_position(), node.end_position());
    NodeReading {
        kind: node.kind().to_string(),
        grammar_name: node.grammar_name().to_string(),
        is_named: node.is_named(),
        field_name: cursor.field_name().map(String::from),
        depth: cursor.depth(),
        start_byte: node.start_byte(),
        end_byte: node.end_byte(),
        start_position: Point { row: s.row, column: s.column },
        end_position: Point { row: e.row, column: e.column },
    }
}

/// Whether a UTF-8 byte begins a character (is not a continuation byte).
pub open spec fn is_leading_byte(b: u8) -> bool {
    (b & 0xC0u8) != 0x80u8
}

/// The number of bytes of `bytes` that begin a character.
pub open spec fn leading_count(bytes: Seq<u8>) -> nat
    decreases bytes.len(),
{
    if bytes.len() == 0 {
        0
    } else {
        leading_count(bytes.drop_last()) + if is_leading_byte(bytes.last()) {
            1nat
        } else {
            0nat
        }
    }
}

/// For each byte offset into `source` (and the offset one past the end),
/// the number of characters that begin before it.
fn char_offsets(source: &str) -> (table: Vec<usize>)
    ensures
        table@.len() == source.spec_bytes().len() + 1,
        forall|b: int|
            0 <= b < table@.len() ==> #[trigger] table@[b] == leading_count(
                source.spec_bytes().subrange(0, b),
            ),
{
    let bytes = source.as_bytes();
    let mut table: Vec<usize> = Vec::new();
    let mut count: usize = 0;
    let mut i: usize = 0;
    assert(bytes@.subrange(0, 0) =~= Seq::<u8>::empty());
    while i < bytes.len()
        invariant
            bytes@ == source.spec_bytes(),
            i <= bytes@.len(),
            table@.len() == i,
            count == leading_count(bytes@.subrange(0, i as int)),
            count <= i,
            forall|b: int|
                0 <= b < i ==> #[trigger] table@[b] == leading_count(bytes@.subrange(0, b)),
        decreases bytes@.len() - i,
    {
        table.push(count);
        assert(bytes@.subrange(0, i + 1).drop_last() =~= bytes@.subrange(0, i as int));
        if (bytes[i] & 0xC0u8) != 0x80u8 {
            count = count + 1;
        }
        i = i + 1;
    }
    table.push(count);
    table
}

/// The character position of byte offset `b` in a text with bytes `bytes`
/// and `total` characters, kept within the text.
pub open spec fn char_index(bytes: Seq<u8>, total: int, b: int) -> int {
    if 0 <= b <= bytes.len() && leading_count(bytes.subrange(0, b)) <= total {
        leading_count(bytes.subrange(0, b)) as int
    } else {
        total
    }
}

/// The character offset of a byte offset reported by tree-sitter, kept
/// within the source.
fn char_position(table: &Vec<usize>, total: usize, byte: usize) -> (res: usize)
    ensures
        res == if byte < table@.len() && table@[byte as int] <= total {
            table@[byte as int]
        } else {
            total
        },
{
    if byte < table.len() && table[byte] <= total {
        table[byte]
    } else {
        total
    }
}

/// A point kept below `usize::MAX` in each coordinate.
pub open spec fn bounded(p: Point) -> Point {
    Point {
        row: if p.row < usize::MAX { p.row } else { (usize::MAX - 1) as usize },
        column: if p.column < usize::MAX { p.column } else { (usize::MAX - 1) as usize },
    }
}

/// Whether node `n` records what tree-sitter reports in `f`, over a text
/// with bytes `bytes` and `total` characters: the same kind, grammar name,
/// namedness and field, the span turned into characters (an end before the
/// start is moved to the start), and the positions kept below `usize::MAX`.
pub open spec fn records(n: SyntaxNode, f: NodeFacts, bytes: Seq<u8>, total: int) -> bool {
    let start = char_index(bytes, total, f.start_byte as int);
    let end = char_index(bytes, total, f.end_byte as int);
    &&& n.kind@ == f.kind
    &&& n.grammar_name@ == f.grammar_name
    &&& n.is_named == f.is_named
    &&& n.field_name.deep_view() == f.field_name
    &&& n.start == start
    &&& n.end == if end < start {
        start
    } else {
        end
    }
    &&& n.start_position == bounded(f.start_position)
    &&& n.end_position == bounded(f.end_position)
}

/// The last of the first `j` nodes of a pre-order listing that lies at
/// depth `d`.
pub open spec fn last_at_depth(facts: Seq<NodeFacts>, d: int, j: int) -> Option<int>
    decreases j,
{
    if j <= 0 {
        None
    } else if facts[j - 1].depth == d {
        Some(j - 1)
    } else {
        last_at_depth(facts, d, j - 1)
    }
}

/// The parent of node `i` of a pre-order listing: the last node before it
/// one level up. A node at depth 0 has none.
pub open spec fn pre_order_parent(facts: Seq<NodeFacts>, i: int) -> Option<int> {
    if facts[i].depth == 0 {
        None
    } else {
        last_at_depth(facts, facts[i].depth - 1, i)
    }
}

/// The nodes among the first `j` whose parent is `p`, in order.
pub open spec fn pre_order_children(facts: Seq<NodeFacts>, p: int, j: int) -> Seq<int>
    decreases j,
{
    if j <= 0 {
        Seq::empty()
    } else if pre_order_parent(facts, j - 1) == Some(p) {
        pre_order_children(facts, p, j - 1).push(j - 1)
    } else {
        pre_order_children(facts, p, j - 1)
    }
}

proof fn lemma_last_at_depth(facts: Seq<NodeFacts>, d: int, j: int)
    ensures
        last_at_depth(facts, d, j) matches Some(k) ==> 0 <= k < j && facts[k].depth == d,
    decreases j,
{
    if j > 0 {
        lemma_last_at_depth(facts, d, j - 1);
    }
}

proof fn lemma_no_children_yet(facts: Seq<NodeFacts>, p: int, j: int)
    requires
        j <= p,
    ensures
        pre_order_children(facts, p, j) == Seq::<int>::empty(),
    decreases j,
{
    if j > 0 {
        lemma_no_children_yet(facts, p, j - 1);
        if facts[j - 1].depth != 0 {
            lemma_last_at_depth(facts, facts[j - 1].depth - 1, j - 1);
        }
    }
}

/// Whether the nodes of `t` record, one for one and in order, the nodes
/// `facts` of a parse of its source text (whose bytes are its UTF-8
/// encoding), each node's parent being the last node before it one level
/// up, and its children the nodes whose parent it is, in order.
pub open spec fn records_parse(t: SyntaxTree, facts: Seq<NodeFacts>) -> bool {
    &&& t.len() == facts.len()
    &&& forall|i: int|
        0 <= i < t.len() ==> records(
            #[trigger] t.nodes@[i],
            facts[i],
            vstd::utf8::encode_utf8(t.source@),
            t.source@.len() as int,
        )
    &&& forall|i: int|
        0 <= i < t.len() ==> index_opt(#[trigger] t.nodes@[i].parent) == pre_order_parent(facts, i)
            && as_ints(t.nodes@[i].children@) == pre_order_children(facts, i, facts.len() as int)
}

/// A point kept below `usize::MAX` so that it can be made one-based.
fn bounded_point(p: Point) -> (res: Point)
    ensures
        res == bounded(p),
        res.row < usize::MAX,
        res.column < usize::MAX,
{
    Point {
        row: if p.row < usize::MAX { p.row } else { usize::MAX - 1 },
        column: if p.column < usize::MAX { p.column } else { usize::MAX - 1 },
    }
}

/// The nodes of `tree` in pre-order, with parents, children, fields, kinds
/// and spans in characters of `source`.
pub fn syntax_tree_from(tree: &tree_sitter::Tree, source: &str) -> (res: SyntaxTree)
    ensures
        res.wf(),
        res.len() >= 1,
        res.source@ == source@,
        records_parse(res, tree_nodes(*tree)),
{
    let table = char_offsets(source);
    let total = source.unicode_len();
    let ghost facts = tree_nodes(*tree);
    let ghost bytes = source.spec_bytes();
    let count = tree_node_count(tree);
    let mut nodes: Vec<SyntaxNode> = Vec::new();
    let mut ancestors: Vec<usize> = Vec::new();
    let mut i: usize = 0;
    while i < count
        invariant
            i <= count,
            count >= 1,
            count == facts.len(),
            facts == tree_nodes(*tree),
            bytes == source.spec_bytes(),
            total == source@.len(),
            table@.len() == bytes.len() + 1,
            forall|b: int| 0 <= b < table@.len() ==> #[trigger] table@[b] == leading_count(bytes.subrange(0, b)),
            nodes@.len() == i,
            forall|a: int| 0 <= a < ancestors@.len() ==> #[trigger] ancestors@[a] < i,
            forall|n: int|
                0 <= n < nodes@.len() ==> {
                    let node = #[trigger] nodes@[n];
                    &&& node.start <= node.end <= total
                    &&& forall|j: int|
                        0 <= j < node.children@.len() ==> n < #[trigger] node.children@[j] < i
                    &&& node.parent matches Some(p) ==> p < n
                    &&& node.start_position.row < usize::MAX
                    &&& node.start_position.column < usize::MAX
                    &&& node.end_position.row < usize::MAX
                    &&& node.end_position.column < usize::MAX
                    &&& records(node, facts[n], bytes, total as int)
                    &&& index_opt(node.parent) == pre_order_parent(facts, n)
                    &&& as_ints(node.children@) == pre_order_children(facts, n, i as int)
                },
            i == 0 ==> ancestors@.len() == 0,
            i > 0 ==> ancestors@.len() == facts[i - 1].depth + 1,
            forall|k: int|
                0 <= k < ancestors@.len() ==> last_at_depth(facts, k, i as int) == Some(
                    #[trigger] ancestors@[k] as int,
                ),
        decreases count - i,
    {
        let reading = tree_node_at(tree, i);
        let depth = reading.depth as usize;
        let ghost before = ancestors@;
        assert(depth <= ancestors@.len());
        while ancestors.len() > depth
            invariant
                forall|a: int| 0 <= a < ancestors@.len() ==> #[trigger] ancestors@[a] < i,
                depth <= ancestors@.len(),
                ancestors@.len() <= before.len(),
                ancestors@ == before.subrange(0, ancestors@.len() as int),
            decreases ancestors.len(),
        {
            ancestors.pop();
        }
        assert(ancestors@.len() == depth);
        proof {
            if depth > 0 {
                assert(ancestors@[depth - 1] == before[depth - 1]);
                lemma_last_at_depth(facts, depth - 1, i as int);
            }
            lemma_no_children_yet(facts, i as int, i as int);
        }
        let parent = if ancestors.len() > 0 {
            Some(ancestors[ancestors.len() - 1])
        } else {
            None
        };
        let start = char_position(&table, total, reading.start_byte);
        let end_char = char_position(&table, total, reading.end_byte);
        let end = if end_char < start {
            start
        } else {
            end_char
        };
        let record = SyntaxNode {
            kind: reading.kind,
            grammar_name: reading.grammar_name,
            is_named: reading.is_named,
            field_name: reading.field_name,
            start,
            end,
            start_position: bounded_point(reading.start_position),
            end_position: bounded_point(reading.end_position),
            parent,
            children: Vec::new(),
        };
        assert(records(record, facts[i as int], bytes, total as int));
        assert(index_opt(parent) == pre_order_parent(facts, i as int));
        nodes.push(record);
        if let Some(p) = parent {
            let ghost old_kids = nodes@[p as int].children@;
            nodes[p].children.push(i);
            assert(as_ints(nodes@[p as int].children@) =~= as_ints(old_kids).push(i as int));
        }
        proof {
            assert forall|k: int| 0 <= k < depth implies last_at_depth(facts, k, i + 1) == Some(
                #[trigger] ancestors@[k] as int,
            ) by {
                assert(ancestors@[k] == before[k]);
            }
            lemma_last_at_depth(facts, 0, i as int);
            assert forall|n: int| 0 <= n <= i implies as_ints(#[trigger] nodes@[n].children@)
                == pre_order_children(facts, n, i + 1) by {
                if n < i {
                    lemma_last_at_depth(facts, facts[i as int].depth - 1, i as int);
                }
            }
        }
        ancestors.push(i);
        i = i + 1;
    }
    SyntaxTree { source: owned(source), nodes }
}

/// A parsed source file.
#[derive(Debug)]
pub struct SymbolData {
    pub tree: SyntaxTree,
    /// The path the source was read from.
    pub origin: String,
    pub language: Language,
}

/// Parses the content of the file at `origin` with the grammar of
/// `language`.
pub fn parse(language: Language, origin: &str, content: &str) -> (res: Option<SymbolData>)
    ensures
        res matches Some(d) && d.tree.wf() && d.tree.len() >= 1 && d.tree.source@ == content@
            && d.origin@ == origin@ && d.language == language
            && records_parse(d.tree, parsed_nodes(language, content@)),
{
    match parse_source(language, content) {
        Some(tree) => Some(SymbolData { tree, origin: owned(origin), language }),
        None => None,
    }
}

/// Parses `content` with the tree-sitter grammar of `language`: the tree
/// records tree-sitter's parse node for node.
pub fn parse_source(language: Language, content: &str) -> (res: Option<SyntaxTree>)
    ensures
        res matches Some(tree) && tree.wf() && tree.len() >= 1 && tree.source@ == content@
            && records_parse(tree, parsed_nodes(language, content@)),
{
    let parser = new_parser();
    let ready = match language {
        Language::Cpp => set_cpp_grammar(parser),
        Language::Java => set_java_grammar(parser),
    };
    let mut parser = match ready {
        Some(p) => p,
        None => return None,
    };
    match parse_text(&mut parser, content) {
        Some(tree) => Some(syntax_tree_from(&tree, content)),
        None => None,
    }
}

} // verus!
