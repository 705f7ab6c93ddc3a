//! Parsing a source and reading the matches of a compiled query off its tree.

use crate::error::{ErrorView, TalosError, TalosResult};
use crate::extractor::syntax::{
    language_error_message, language_error_text, language_outcome, new_parser, parse,
    parse_outcome, set_language,
};
use crate::text::joined;
use tree_sitter::{Language, Tree};
use vstd::prelude::*;

verus! {

/// What parsing `code` with the grammar `language` gives: the tree, or the
/// failure of the first step that fails. `refused` introduces the error of a
/// grammar that the parser does not take, and `unparsed` is the error of a
/// text for which no tree comes back.
pub open spec fn parsed(
    language: Language,
    code: Seq<char>,
    refused: Seq<char>,
    unparsed: Seq<char>,
) -> Result<Tree, ErrorView> {
    match language_outcome(language) {
        Err(e) => Err(ErrorView::ScanError(refused + language_error_message(e))),
        Ok(_) => match parse_outcome(Some(language), code) {
            None => Err(ErrorView::ScanError(unparsed)),
            Some(tree) => Ok(tree),
        },
    }
}

/// A parse result as specifications see it.
pub open spec fn tree_view(r: TalosResult<Tree>) -> Result<Tree, ErrorView> {
    match r {
        Ok(tree) => Ok(tree),
        Err(e) => Err(e@),
    }
}

/// Parses `code` with the grammar `language`.
pub fn parse_source(code: &str, language: Language, refused: &str, unparsed: &str) -> (r:
    TalosResult<Tree>)
    ensures
        tree_view(r) == parsed(language, code@, refused@, unparsed@),
        r matches Ok(tree) ==> parse_outcome(Some(language), code@) == Some(tree),
{
    let mut parser = new_parser();
    if let Err(e) = set_language(&mut parser, language) {
        let text = language_error_text(&e);
        return Err(TalosError::ScanError(joined(refused, text.as_str())));
    }
    match parse(&mut parser, code) {
        Some(tree) => Ok(tree),
        None => Err(TalosError::ScanError(unparsed.to_owned())),
    }
}

} // verus!
