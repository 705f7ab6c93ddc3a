//! From source text to the signatures it declares.

use crate::error::{ErrorView, TalosError, TalosResult};
use crate::extractor::css::{
    css_extraction, extract_css, lemma_css_query_ends_in_newline, CSS_QUERY,
};
use crate::extractor::js_ts::{
    extract_js, extract_ts, extract_tsx, lemma_unified_query_ends_in_newline, outcome_view,
    script_extraction, UNIFIED_QUERY,
};
use crate::extractor::syntax::{
    compile_query, grammar, lang_css, lang_js, lang_ts, lang_tsx, query_error_message,
    query_error_text, query_language, query_outcome,
};
use crate::paths::{extension, path_extension};
use crate::signature_set::strictly_sorted;
use crate::text::{lowercased, same_text, texts, to_ascii_lowercase};
use tree_sitter::{Query, QueryError};
use vstd::prelude::*;

pub mod captures;
pub mod collect;
pub mod css;
pub mod js_ts;
pub mod parsing;
pub mod syntax;

verus! {

/// The languages whose declarations can be extracted.
#[derive(Debug, Clone, Copy, PartialEq, Eq, Structural)]
pub enum SupportedLang {
    JavaScript,
    TypeScript,
    TypeScriptReact,
    CSS,
}

/// Something that turns source text into signatures.
pub trait LanguageExtractor {
    fn extract(&self, code: &str) -> TalosResult<Vec<String>>;
}

/// The language registered for an extension in lower case.
pub open spec fn registered_lang(ext: Seq<char>) -> Option<SupportedLang> {
    if ext == "js"@ || ext == "jsx"@ {
        Some(SupportedLang::JavaScript)
    } else if ext == "ts"@ {
        Some(SupportedLang::TypeScript)
    } else if ext == "tsx"@ {
        Some(SupportedLang::TypeScriptReact)
    } else if ext == "css"@ {
        Some(SupportedLang::CSS)
    } else {
        None
    }
}

/// The language of a path: the one registered for its extension, whatever
/// the case of the extension; none where the path has no extension or the
/// extension is not registered.
pub open spec fn lang_of_path(path: Seq<char>) -> Option<SupportedLang> {
    match path_extension(path) {
        Some(ext) => registered_lang(lowercased(ext)),
        None => None,
    }
}

/// The language registered for `ext`, whatever its case.
pub fn lang_for_extension(ext: &str) -> (r: Option<SupportedLang>)
    ensures
        r == registered_lang(lowercased(ext@)),
{
    let lower = to_ascii_lowercase(ext);
    let e = lower.as_str();
    if same_text(e, "js") || same_text(e, "jsx") {
        Some(SupportedLang::JavaScript)
    } else if same_text(e, "ts") {
        Some(SupportedLang::TypeScript)
    } else if same_text(e, "tsx") {
        Some(SupportedLang::TypeScriptReact)
    } else if same_text(e, "css") {
        Some(SupportedLang::CSS)
    } else {
        None
    }
}

/// The language of a path, by its extension.
pub fn infer_lang_from_ext(path: &str) -> (r: Option<SupportedLang>)
    ensures
        r == lang_of_path(path@),
{
    match extension(path) {
        Some(ext) => lang_for_extension(ext.as_str()),
        None => None,
    }
}

/// What extracting from `code` in the language `lang` gives.
pub open spec fn extraction(lang: SupportedLang, code: Seq<char>) -> Result<
    Seq<Seq<char>>,
    ErrorView,
> {
    match lang {
        SupportedLang::CSS => css_extraction(grammar(lang), CSS_QUERY@, code),
        _ => script_extraction(grammar(lang), UNIFIED_QUERY@, code),
    }
}

/// The signatures of `code`, read as a source in the language `lang`.
pub fn extract_signatures_for_language(code: &str, lang: SupportedLang) -> (r: TalosResult<
    Vec<String>,
>)
    ensures
        outcome_view(r) == extraction(lang, code@),
        r matches Ok(signatures) ==> strictly_sorted(texts(signatures)),
{
    match lang {
        SupportedLang::JavaScript => extract_js(code),
        SupportedLang::TypeScript => extract_ts(code),
        SupportedLang::TypeScriptReact => extract_tsx(code),
        SupportedLang::CSS => extract_css(code),
    }
}

impl LanguageExtractor for SupportedLang {
    /// The signatures of `code`, read as a source in this language.
    fn extract(&self, code: &str) -> (r: TalosResult<Vec<String>>)
        ensures
            outcome_view(r) == extraction(*self, code@),
            r matches Ok(signatures) ==> strictly_sorted(texts(signatures)),
    {
        extract_signatures_for_language(code, *self)
    }
}

/// The query program of a language.
pub open spec fn query_program(lang: SupportedLang) -> Seq<char> {
    match lang {
        SupportedLang::CSS => CSS_QUERY@,
        _ => UNIFIED_QUERY@,
    }
}

/// The error of the first language, in the order of their declaration,
/// whose query program does not compile for its grammar.
pub open spec fn registry_error() -> Option<ErrorView> {
    if let Err(e) = query_outcome(
        grammar(SupportedLang::JavaScript),
        query_program(SupportedLang::JavaScript),
    ) {
        Some(ErrorView::TreeSitter(query_error_message(e)))
    } else if let Err(e) = query_outcome(
        grammar(SupportedLang::TypeScript),
        query_program(SupportedLang::TypeScript),
    ) {
        Some(ErrorView::TreeSitter(query_error_message(e)))
    } else if let Err(e) = query_outcome(
        grammar(SupportedLang::TypeScriptReact),
        query_program(SupportedLang::TypeScriptReact),
    ) {
        Some(ErrorView::TreeSitter(query_error_message(e)))
    } else if let Err(e) = query_outcome(
        grammar(SupportedLang::CSS),
        query_program(SupportedLang::CSS),
    ) {
        Some(ErrorView::TreeSitter(query_error_message(e)))
    } else {
        None
    }
}

/// The registry of grammars: for each language its query program, compiled
/// once for the grammar of the language.
pub struct Grammars {
    javascript: Query,
    typescript: Query,
    typescript_react: Query,
    css: Query,
}

/// Compiles the query program of a language for its grammar.
fn compile_for(lang: SupportedLang) -> (r: TalosResult<Query>)
    ensures
        match r {
            Ok(query) => query_language(query) == grammar(lang) && query_outcome(
                grammar(lang),
                query_program(lang),
            ) == Ok::<Query, QueryError>(query),
            Err(e) => query_outcome(grammar(lang), query_program(lang)) matches Err(cause)
                && e@ == ErrorView::TreeSitter(query_error_message(cause)),
        },
{
    proof {
        lemma_unified_query_ends_in_newline();
        lemma_css_query_ends_in_newline();
    }
    let compiled = match lang {
        SupportedLang::JavaScript => compile_query(lang_js(), UNIFIED_QUERY),
        SupportedLang::TypeScript => compile_query(lang_ts(), UNIFIED_QUERY),
        SupportedLang::TypeScriptReact => compile_query(lang_tsx(), UNIFIED_QUERY),
        SupportedLang::CSS => compile_query(lang_css(), CSS_QUERY),
    };
    match compiled {
        Ok(query) => Ok(query),
        Err(e) => Err(TalosError::TreeSitter(query_error_text(&e))),
    }
}

impl Grammars {
    #[verifier::type_invariant]
    spec fn compiled(self) -> bool {
        &&& query_language(self.javascript) == grammar(SupportedLang::JavaScript)
        &&& query_language(self.typescript) == grammar(SupportedLang::TypeScript)
        &&& query_language(self.typescript_react) == grammar(SupportedLang::TypeScriptReact)
        &&& query_language(self.css) == grammar(SupportedLang::CSS)
        &&& query_outcome(
            grammar(SupportedLang::JavaScript),
            query_program(SupportedLang::JavaScript),
        ) == Ok::<Query, QueryError>(self.javascript)
        &&& query_outcome(
            grammar(SupportedLang::TypeScript),
            query_program(SupportedLang::TypeScript),
        ) == Ok::<Query, QueryError>(self.typescript)
        &&& query_outcome(
            grammar(SupportedLang::TypeScriptReact),
            query_program(SupportedLang::TypeScriptReact),
        ) == Ok::<Query, QueryError>(self.typescript_react)
        &&& query_outcome(grammar(SupportedLang::CSS), query_program(SupportedLang::CSS)) == Ok::<
            Query,
            QueryError,
        >(self.css)
    }

    /// Compiles the query program of every language. A program that does not
    /// compile is an error, and there is no registry then.
    pub fn load() -> (r: TalosResult<Grammars>)
        ensures
            r is Ok <==> registry_error() is None,
            r matches Err(e) ==> registry_error() == Some(e@),
    {
        let javascript = match compile_for(SupportedLang::JavaScript) {
            Ok(query) => query,
            Err(e) => {
                return Err(e);
            },
        };
        let typescript = match compile_for(SupportedLang::TypeScript) {
            Ok(query) => query,
            Err(e) => {
                return Err(e);
            },
        };
        let typescript_react = match compile_for(SupportedLang::TypeScriptReact) {
            Ok(query) => query,
            Err(e) => {
                return Err(e);
            },
        };
        let css = match compile_for(SupportedLang::CSS) {
            Ok(query) => query,
            Err(e) => {
                return Err(e);
            },
        };
        Ok(Grammars { javascript, typescript, typescript_react, css })
    }

    /// The signatures of `code`, read as a source in the language `lang`.
    pub fn extract(&self, code: &str, lang: SupportedLang) -> (r: TalosResult<Vec<String>>)
        ensures
            outcome_view(r) == extraction(lang, code@),
            r matches Ok(signatures) ==> strictly_sorted(texts(signatures)),
    {
        proof {
            use_type_invariant(self);
        }
        match lang {
            SupportedLang::JavaScript => js_ts::extract_with_compiled(
                code,
                lang_js(),
                &self.javascript,
            ),
            SupportedLang::TypeScript => js_ts::extract_with_compiled(
                code,
                lang_ts(),
                &self.typescript,
            ),
            SupportedLang::TypeScriptReact => js_ts::extract_with_compiled(
                code,
                lang_tsx(),
                &self.typescript_react,
            ),
            SupportedLang::CSS => css::extract_with_compiled(code, lang_css(), &self.css),
        }
    }
}

/// What a file gives: nothing where its path has no registered language,
/// else what extracting from its text in that language gives.
pub open spec fn file_extraction(path: Seq<char>, code: Seq<char>) -> Result<
    Seq<Seq<char>>,
    ErrorView,
> {
    match lang_of_path(path) {
        Some(lang) => extraction(lang, code),
        None => Ok(Seq::empty()),
    }
}

/// The signatures of the file at `path` whose text is `code`. A path without
/// a registered language gives no signatures and no error.
pub fn extract_signatures_for_file(path: &str, code: &str) -> (r: TalosResult<Vec<String>>)
    ensures
        outcome_view(r) == file_extraction(path@, code@),
        r matches Ok(signatures) ==> strictly_sorted(texts(signatures)),
{
    match infer_lang_from_ext(path) {
        Some(lang) => extract_signatures_for_language(code, lang),
        None => {
            let none: Vec<String> = Vec::new();
            assert(texts(none) =~= Seq::<Seq<char>>::empty());
            Ok(none)
        },
    }
}

} // verus!
