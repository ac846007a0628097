//! The parts of tree-sitter that symbol extraction calls.  What a parse
//! yields is named below as a function of the language, the parsed text and
//! the path of named-child positions that leads from the root to a node.  A
//! node, tree or parser sits in a struct of this module whose ghost fields
//! record that language, text and path; only the functions here set them.

use vstd::prelude::*;

use crate::code::CodeLanguage;

verus! {

#[verifier::external_type_specification]
#[verifier::external_body]
pub struct ExParser(tree_sitter::Parser);

#[verifier::external_type_specification]
#[verifier::external_body]
pub struct ExTree(tree_sitter::Tree);

#[verifier::external_type_specification]
#[verifier::external_body]
pub struct ExNode<'tree>(tree_sitter::Node<'tree>);

#[verifier::external_type_specification]
#[verifier::external_body]
pub struct ExLanguage(tree_sitter::Language);

#[verifier::external_type_specification]
#[verifier::external_body]
pub struct ExLanguageError(tree_sitter::LanguageError);

/// Whether a parser accepts the language's grammar (its version is one this
/// tree-sitter can load).
pub uninterp spec fn ts_grammar_loads(lang: CodeLanguage) -> bool;

/// Whether parsing `text` with the language's grammar yields a tree.
pub uninterp spec fn ts_parsed(lang: CodeLanguage, text: Seq<char>) -> bool;

/// The grammar kind of the node at `path`.
pub uninterp spec fn ts_kind(lang: CodeLanguage, text: Seq<char>, path: Seq<usize>) -> Seq<char>;

/// The byte offset where the node at `path` starts.
pub uninterp spec fn ts_start(lang: CodeLanguage, text: Seq<char>, path: Seq<usize>) -> usize;

/// The byte offset where the node at `path` ends.
pub uninterp spec fn ts_end(lang: CodeLanguage, text: Seq<char>, path: Seq<usize>) -> usize;

/// The number of named children of the node at `path`; it fits in 32 bits,
/// and the named child at position `i` below it is the node at
/// `path.push(i)`.
pub uninterp spec fn ts_named_count(lang: CodeLanguage, text: Seq<char>, path: Seq<usize>) -> usize;

/// The byte span of the first child of the node at `path` under `field`.
pub uninterp spec fn ts_field_span(lang: CodeLanguage, text: Seq<char>, path: Seq<usize>, field: Seq<char>) -> Option<(usize, usize)>;

/// The number of nodes in the subtree at `path`, its root included.
pub uninterp spec fn ts_descendants(lang: CodeLanguage, text: Seq<char>, path: Seq<usize>) -> usize;

/// A language's grammar.
pub struct Grammar {
    pub(crate) language: tree_sitter::Language,
    pub(crate) lang: Ghost<CodeLanguage>,
}

/// A parser, with the language it was given, if any.
pub struct SyntaxParser {
    pub(crate) parser: tree_sitter::Parser,
    pub(crate) lang: Ghost<Option<CodeLanguage>>,
}

/// A syntax tree of `text` in `lang`.
pub struct SyntaxTree {
    pub(crate) tree: tree_sitter::Tree,
    pub(crate) lang: Ghost<CodeLanguage>,
    pub(crate) text: Ghost<Seq<char>>,
}

/// The node at `path` of a syntax tree of `text` in `lang`.
pub struct SyntaxNode<'t> {
    pub(crate) node: tree_sitter::Node<'t>,
    pub(crate) lang: Ghost<CodeLanguage>,
    pub(crate) text: Ghost<Seq<char>>,
    pub(crate) path: Ghost<Seq<usize>>,
}

/// Relies on `tree_sitter_rust::LANGUAGE`: the Rust grammar.
#[verifier::external_body]
pub(crate) fn rust_grammar() -> (r: Grammar)
    ensures
        r.lang@ == CodeLanguage::Rust,
{
    Grammar { language: tree_sitter_rust::LANGUAGE.into(), lang: Ghost(CodeLanguage::Rust) }
}

/// Relies on `tree_sitter_typescript::LANGUAGE_TYPESCRIPT`: the TypeScript
/// grammar.
#[verifier::external_body]
pub(crate) fn typescript_grammar() -> (r: Grammar)
    ensures
        r.lang@ == CodeLanguage::TypeScript,
{
    Grammar { language: tree_sitter_typescript::LANGUAGE_TYPESCRIPT.into(), lang: Ghost(CodeLanguage::TypeScript) }
}

/// Relies on `tree_sitter_typescript::LANGUAGE_TSX`: the TSX grammar.
#[verifier::external_body]
pub(crate) fn tsx_grammar() -> (r: Grammar)
    ensures
        r.lang@ == CodeLanguage::Tsx,
{
    Grammar { language: tree_sitter_typescript::LANGUAGE_TSX.into(), lang: Ghost(CodeLanguage::Tsx) }
}

/// Relies on `tree_sitter_javascript::LANGUAGE`: the JavaScript grammar.
#[verifier::external_body]
pub(crate) fn javascript_grammar() -> (r: Grammar)
    ensures
        r.lang@ == CodeLanguage::JavaScript,
{
    Grammar { language: tree_sitter_javascript::LANGUAGE.into(), lang: Ghost(CodeLanguage::JavaScript) }
}

/// Relies on `tree_sitter_python::LANGUAGE`: the Python grammar.
#[verifier::external_body]
pub(crate) fn python_grammar() -> (r: Grammar)
    ensures
        r.lang@ == CodeLanguage::Python,
{
    Grammar { language: tree_sitter_python::LANGUAGE.into(), lang: Ghost(CodeLanguage::Python) }
}

/// Relies on `tree_sitter::Parser::new`: a parser with no language yet, no
/// timeout and no cancellation flag.
#[verifier::external_body]
pub(crate) fn new_parser() -> (r: SyntaxParser)
    ensures
        r.lang@.is_none(),
{
    SyntaxParser { parser: tree_sitter::Parser::new(), lang: Ghost(None) }
}

/// Relies on `tree_sitter::Parser::set_language`, which fails exactly when
/// the grammar's version is not one this tree-sitter can load.
#[verifier::external_body]
pub(crate) fn set_parser_language(parser: &mut SyntaxParser, grammar: &Grammar) -> (r: Result<(), tree_sitter::LanguageError>)
    ensures
        r.is_ok() == ts_grammar_loads(grammar.lang@),
        r.is_ok() ==> final(parser).lang@ == Some(grammar.lang@),
        r.is_err() ==> final(parser).lang@ == old(parser).lang@,
{
    let r = parser.parser.set_language(&grammar.language);
    if r.is_ok() {
        parser.lang = Ghost(Some(grammar.lang@));
    }
    r
}

/// Relies on `tree_sitter::Parser::parse` without an earlier tree: without a
/// language there is no tree; with one, and no timeout or cancellation, the
/// outcome depends on the grammar and the text alone.
#[verifier::external_body]
pub(crate) fn parse_text(parser: &mut SyntaxParser, text: &str) -> (r: Option<SyntaxTree>)
    ensures
        final(parser).lang@ == old(parser).lang@,
        old(parser).lang@.is_none() ==> r.is_none(),
        old(parser).lang@.is_some() ==> r.is_some() == ts_parsed(old(parser).lang@.unwrap(), text@),
        r.is_some() ==> r.unwrap().lang@ == old(parser).lang@.unwrap() && r.unwrap().text@ == text@,
{
    let lang = parser.lang;
    parser.parser.parse(text, None).map(|t| SyntaxTree { tree: t, lang: Ghost(lang@.unwrap()), text: Ghost(text@) })
}

/// Relies on `tree_sitter::Tree::root_node`: the node at the empty path.
#[verifier::external_body]
pub(crate) fn root_node<'t>(tree: &'t SyntaxTree) -> (r: SyntaxNode<'t>)
    ensures
        r.lang@ == tree.lang@,
        r.text@ == tree.text@,
        r.path@ == Seq::<usize>::empty(),
{
    SyntaxNode { node: tree.tree.root_node(), lang: tree.lang, text: tree.text, path: Ghost(Seq::empty()) }
}

/// Relies on `tree_sitter::Node::kind`.
#[verifier::external_body]
pub(crate) fn node_kind(node: &SyntaxNode) -> (r: &'static str)
    ensures
        r@ == ts_kind(node.lang@, node.text@, node.path@),
{
    node.node.kind()
}

/// Relies on `tree_sitter::Node::start_byte`.
#[verifier::external_body]
pub(crate) fn node_start(node: &SyntaxNode) -> (r: usize)
    ensures
        r == ts_start(node.lang@, node.text@, node.path@),
{
    node.node.start_byte()
}

/// Relies on `tree_sitter::Node::end_byte`.
#[verifier::external_body]
pub(crate) fn node_end(node: &SyntaxNode) -> (r: usize)
    ensures
        r == ts_end(node.lang@, node.text@, node.path@),
{
    node.node.end_byte()
}

/// Relies on `tree_sitter::Node::named_child_count`, a 32-bit count.
#[verifier::external_body]
pub(crate) fn named_child_count(node: &SyntaxNode) -> (r: usize)
    ensures
        r == ts_named_count(node.lang@, node.text@, node.path@),
        r <= u32::MAX as usize,
{
    node.node.named_child_count()
}

/// Relies on `tree_sitter::Node::named_child`: the `i`-th named child,
/// present exactly when `i` is below the named child count.  The index is
/// passed on as a 32-bit value, so it must fit in one.
#[verifier::external_body]
pub(crate) fn named_child<'t>(node: &SyntaxNode<'t>, i: usize) -> (r: Option<SyntaxNode<'t>>)
    requires
        i <= u32::MAX as usize,
    ensures
        r.is_some() == (i < ts_named_count(node.lang@, node.text@, node.path@)),
        r.is_some() ==> r.unwrap().lang@ == node.lang@ && r.unwrap().text@ == node.text@
            && r.unwrap().path@ == node.path@.push(i),
{
    node.node.named_child(i).map(|c| SyntaxNode { node: c, lang: node.lang, text: node.text, path: Ghost(node.path@.push(i)) })
}

/// Relies on `tree_sitter::Node::child_by_field_name`, with the child's byte
/// span.
#[verifier::external_body]
pub(crate) fn field_span(node: &SyntaxNode, field: &str) -> (r: Option<(usize, usize)>)
    ensures
        r == ts_field_span(node.lang@, node.text@, node.path@, field@),
{
    node.node.child_by_field_name(field).map(|c| (c.start_byte(), c.end_byte()))
}

/// Relies on `tree_sitter::Node::descendant_count`.
#[verifier::external_body]
pub(crate) fn descendant_count(node: &SyntaxNode) -> (r: usize)
    ensures
        r == ts_descendants(node.lang@, node.text@, node.path@),
{
    node.node.descendant_count()
}

} // verus!
