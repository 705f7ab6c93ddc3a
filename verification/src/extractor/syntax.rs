//! The grammar engine: parsing source text and running capture patterns over
//! the tree. Everything here is carried out by tree-sitter; the contracts say
//! what the rest of the crate relies on.

use crate::extractor::captures::Capture;
use crate::extractor::SupportedLang;
use crate::text::texts;
use tree_sitter::{Language, LanguageError, Parser, Query, QueryCursor, QueryError, Tree};
use vstd::prelude::*;

verus! {

/// `tree_sitter::Language`: a grammar. Nothing is known of what is inside.
#[verifier::external_type_specification]
#[verifier::external_body]
pub struct ExLanguage(tree_sitter::Language);

/// `tree_sitter::Parser`. Nothing is known of what is inside.
#[verifier::external_type_specification]
#[verifier::external_body]
pub struct ExParser(tree_sitter::Parser);

/// `tree_sitter::Tree`: a syntax tree. Nothing is known of what is inside.
#[verifier::external_type_specification]
#[verifier::external_body]
pub struct ExTree(tree_sitter::Tree);

/// `tree_sitter::Query`: a compiled query program. Nothing is known of what
/// is inside.
#[verifier::external_type_specification]
#[verifier::external_body]
pub struct ExQuery(tree_sitter::Query);

/// `tree_sitter::LanguageError`. Nothing is known of what is inside.
#[verifier::external_type_specification]
#[verifier::external_body]
pub struct ExLanguageError(tree_sitter::LanguageError);

/// `tree_sitter::QueryError`. Nothing is known of what is inside.
#[verifier::external_type_specification]
#[verifier::external_body]
pub struct ExQueryError(tree_sitter::QueryError);

/// The grammar of each supported language.
pub uninterp spec fn grammar(lang: SupportedLang) -> Language;

/// The language a parser holds, if it has been given one.
pub uninterp spec fn parser_language(parser: Parser) -> Option<Language>;

/// What assigning `language` to a parser returns.
pub uninterp spec fn language_outcome(language: Language) -> Result<(), LanguageError>;

/// What parsing `code` returns on a fresh parser that holds `language`.
pub uninterp spec fn parse_outcome(language: Option<Language>, code: Seq<char>) -> Option<Tree>;

/// What compiling the query program `source` for `language` returns.
pub uninterp spec fn query_outcome(language: Language, source: Seq<char>) -> Result<
    Query,
    QueryError,
>;

/// The language a query was compiled for.
pub uninterp spec fn query_language(query: Query) -> Language;

/// The capture names of a compiled query, in index order.
pub uninterp spec fn capture_names_of(query: Query) -> Seq<Seq<char>>;

/// The matches of `query` over `tree`, in the order the engine finds them,
/// each with its captures in order.
pub uninterp spec fn matches_of(query: Query, tree: Tree, code: Seq<char>) -> Seq<Seq<Capture>>;

/// The text that a `LanguageError` displays.
pub uninterp spec fn language_error_message(error: LanguageError) -> Seq<char>;

/// The text that a `QueryError` displays.
pub uninterp spec fn query_error_message(error: QueryError) -> Seq<char>;

/// The captures of each group, as sequences.
pub open spec fn groups_view(groups: Vec<Vec<Capture>>) -> Seq<Seq<Capture>> {
    groups@.map_values(|g: Vec<Capture>| g@)
}

/// `tree_sitter_javascript::language`: the JavaScript grammar.
#[verifier::external_body]
pub(crate) fn lang_js() -> (l: Language)
    ensures
        l == grammar(SupportedLang::JavaScript),
{
    tree_sitter_javascript::language()
}

/// `tree_sitter_typescript::language_typescript`: the TypeScript grammar.
#[verifier::external_body]
pub(crate) fn lang_ts() -> (l: Language)
    ensures
        l == grammar(SupportedLang::TypeScript),
{
    tree_sitter_typescript::language_typescript()
}

/// `tree_sitter_typescript::language_tsx`: the grammar of TypeScript with JSX.
#[verifier::external_body]
pub(crate) fn lang_tsx() -> (l: Language)
    ensures
        l == grammar(SupportedLang::TypeScriptReact),
{
    tree_sitter_typescript::language_tsx()
}

/// `tree_sitter_css::language`: the CSS grammar.
#[verifier::external_body]
pub(crate) fn lang_css() -> (l: Language)
    ensures
        l == grammar(SupportedLang::CSS),
{
    tree_sitter_css::language()
}

/// `Parser::new`.
#[verifier::external_body]
pub(crate) fn new_parser() -> (p: Parser) {
    Parser::new()
}

/// `Parser::set_language`: the outcome depends on the language alone, and on
/// success the parser holds the language.
#[verifier::external_body]
pub(crate) fn set_language(parser: &mut Parser, language: Language) -> (r: Result<
    (),
    LanguageError,
>)
    ensures
        r == language_outcome(language),
        r is Ok ==> parser_language(*final(parser)) == Some(language),
{
    parser.set_language(language)
}

/// `Parser::parse` without an earlier tree: the result depends on the
/// language the parser holds and on the text alone.
#[verifier::external_body]
pub(crate) fn parse(parser: &mut Parser, code: &str) -> (tree: Option<Tree>)
    ensures
        tree == parse_outcome(parser_language(*old(parser)), code@),
{
    parser.parse(code, None)
}

/// Whether a query program ends in a line break, so that every name in it
/// is followed by a character that is no part of a name.
pub open spec fn ends_in_newline(source: Seq<char>) -> bool {
    source.len() > 0 && source.last() == '\n'
}

/// `Query::new`: the result depends on the language and the program text
/// alone, and a query is bound to the language it was compiled for. The
/// call is made on programs that end in a line break only: where a name
/// that the grammar does not know runs to the end of the text, the call
/// does not return.
#[verifier::external_body]
pub(crate) fn compile_query(language: Language, source: &str) -> (r: Result<Query, QueryError>)
    requires
        ends_in_newline(source@),
    ensures
        r == query_outcome(language, source@),
        r matches Ok(query) ==> query_language(query) == language,
{
    Query::new(language, source)
}

/// `Query::capture_names`, copied out.
#[verifier::external_body]
pub(crate) fn capture_names(query: &Query) -> (names: Vec<String>)
    ensures
        texts(names) == capture_names_of(*query),
{
    query.capture_names().to_vec()
}

/// `QueryCursor::matches` from the root of `tree`, with `code` as the text
/// the tree was parsed from; each match is copied out as the index and byte
/// range of its captures. A query runs on trees of its own language only.
#[verifier::external_body]
pub(crate) fn run_query(query: &Query, tree: &Tree, code: &str) -> (groups: Vec<Vec<Capture>>)
    requires
        parse_outcome(Some(query_language(*query)), code@) == Some(*tree),
    ensures
        groups_view(groups) == matches_of(*query, *tree, code@),
{
    let mut cursor = QueryCursor::new();
    cursor.matches(query, tree.root_node(), code.as_bytes()).map(
        |m| m.captures.iter().map(
            |c| Capture { index: c.index, start: c.node.start_byte(), end: c.node.end_byte() },
        ).collect(),
    ).collect()
}

/// The `Display` text of a `LanguageError`.
#[verifier::external_body]
pub(crate) fn language_error_text(error: &LanguageError) -> (text: String)
    ensures
        text@ == language_error_message(*error),
{
    error.to_string()
}

/// The `Display` text of a `QueryError`.
#[verifier::external_body]
pub(crate) fn query_error_text(error: &QueryError) -> (text: String)
    ensures
        text@ == query_error_message(*error),
{
    error.to_string()
}

} // verus!
