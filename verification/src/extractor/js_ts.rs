//! Signatures of JavaScript and TypeScript sources: classes, functions,
//! methods and functions bound to variables.

use crate::error::{ErrorView, TalosError, TalosResult};
use crate::extractor::captures::{
    binds, capture_text, extract_text, find_capture, lemma_binds_any_order,
    lemma_find_any_order, lemma_find_capture, names_bound_once, Capture, CaptureMap,
};
use crate::extractor::parsing::{parse_source, parsed};
use crate::extractor::syntax::{
    capture_names, ends_in_newline, capture_names_of, compile_query, grammar, groups_view, lang_js, lang_ts,
    lang_tsx, matches_of, parse_outcome, query_error_message, query_error_text, query_language, query_outcome,
    run_query,
};
use crate::extractor::SupportedLang;
use crate::extractor::collect::{collected, gather, lemma_collected_any_order, Dialect};
use crate::signature_set::{sorted_texts, strictly_sorted};
use crate::text::{joined, texts};
use tree_sitter::{Language, Query, Tree};
use vstd::prelude::*;

verus! {

/// The capture patterns shared by the three script grammars. A class binds
/// `cname`; a function `fname` and `fparams`; a method `mname` and `mparams`;
/// a variable that holds a function `vname` and `vparams`, with `is_arrow`
/// where the function is an arrow function.
pub const UNIFIED_QUERY: &'static str =
    "(class_declaration name: (_) @cname)\n\
(function_declaration name: (identifier) @fname parameters: (formal_parameters) @fparams)\n\
(method_definition name: (_) @mname parameters: (formal_parameters) @mparams)\n\
(variable_declarator name: (identifier) @vname value: (arrow_function parameters: (formal_parameters) @vparams) @is_arrow)\n\
(variable_declarator name: (identifier) @vname value: (function_expression parameters: (formal_parameters) @vparams))\n";

/// The query program of scripts ends in a line break.
pub proof fn lemma_unified_query_ends_in_newline()
    ensures
        ends_in_newline(UNIFIED_QUERY@),
{
    reveal_strlit(
        "(class_declaration name: (_) @cname)\n\
(function_declaration name: (identifier) @fname parameters: (formal_parameters) @fparams)\n\
(method_definition name: (_) @mname parameters: (formal_parameters) @mparams)\n\
(variable_declarator name: (identifier) @vname value: (arrow_function parameters: (formal_parameters) @vparams) @is_arrow)\n\
(variable_declarator name: (identifier) @vname value: (function_expression parameters: (formal_parameters) @vparams))\n",
    );
}

/// A declaration found in a script, with the texts it was written with.
#[derive(Debug)]
pub enum SignatureType {
    Class(String),
    Function(String, String),
    Method(String, String),
    ArrowFunction(String, String),
    FunctionExpression(String, String),
}

/// A `SignatureType` as specifications see it.
pub enum SignatureView {
    Class(Seq<char>),
    Function(Seq<char>, Seq<char>),
    Method(Seq<char>, Seq<char>),
    ArrowFunction(Seq<char>, Seq<char>),
    FunctionExpression(Seq<char>, Seq<char>),
}

impl View for SignatureType {
    type V = SignatureView;

    open spec fn view(&self) -> SignatureView {
        match self {
            SignatureType::Class(name) => SignatureView::Class(name@),
            SignatureType::Function(name, params) => SignatureView::Function(name@, params@),
            SignatureType::Method(name, params) => SignatureView::Method(name@, params@),
            SignatureType::ArrowFunction(name, params) => SignatureView::ArrowFunction(
                name@,
                params@,
            ),
            SignatureType::FunctionExpression(name, params) => SignatureView::FunctionExpression(
                name@,
                params@,
            ),
        }
    }
}

impl SignatureView {
    /// The one-line text of the declaration. Parameter lists stand as they
    /// were written.
    pub open spec fn rendering(self) -> Seq<char> {
        match self {
            SignatureView::Class(name) => "class "@ + name,
            SignatureView::Function(name, params) => "function "@ + name + params,
            SignatureView::Method(name, params) => "method "@ + name + params,
            SignatureView::ArrowFunction(name, params) => "const "@ + name + " = "@ + params
                + " =>"@,
            SignatureView::FunctionExpression(name, params) => "const "@ + name + " = function "@
                + params,
        }
    }
}

impl SignatureType {
    /// The one-line text of the declaration.
    pub fn render(self) -> (r: String)
        ensures
            r@ == self@.rendering(),
    {
        match self {
            SignatureType::Class(name) => joined("class ", name.as_str()),
            SignatureType::Function(name, params) => {
                let head = joined("function ", name.as_str());
                joined(head.as_str(), params.as_str())
            },
            SignatureType::Method(name, params) => {
                let head = joined("method ", name.as_str());
                joined(head.as_str(), params.as_str())
            },
            SignatureType::ArrowFunction(name, params) => {
                let head = joined("const ", name.as_str());
                let bound = joined(head.as_str(), " = ");
                let with_params = joined(bound.as_str(), params.as_str());
                joined(with_params.as_str(), " =>")
            },
            SignatureType::FunctionExpression(name, params) => {
                let head = joined("const ", name.as_str());
                let bound = joined(head.as_str(), " = function ");
                joined(bound.as_str(), params.as_str())
            },
        }
    }
}

/// The texts of the captures bound under `name` and `params`, where the
/// group holds both.
pub open spec fn name_and_params(
    names: Seq<Seq<char>>,
    group: Seq<Capture>,
    code: Seq<char>,
    name: Seq<char>,
    params: Seq<char>,
) -> Option<(Seq<char>, Seq<char>)> {
    match (find_capture(names, group, name), find_capture(names, group, params)) {
        (Some(n), Some(p)) => Some((capture_text(code, n), capture_text(code, p))),
        _ => None,
    }
}

/// The declaration that a capture group stands for. The rules are tried in
/// this order and the first that finds its captures decides: a class name; a
/// function name with parameters; a method name with parameters; a variable
/// name with parameters, which is an arrow function where the arrow marker is
/// bound and a function expression where it is not. A group that meets no
/// rule stands for nothing.
pub open spec fn classify(names: Seq<Seq<char>>, group: Seq<Capture>, code: Seq<char>) -> Option<
    SignatureView,
> {
    if let Some(c) = find_capture(names, group, "cname"@) {
        Some(SignatureView::Class(capture_text(code, c)))
    } else if let Some((name, params)) = name_and_params(
        names,
        group,
        code,
        "fname"@,
        "fparams"@,
    ) {
        Some(SignatureView::Function(name, params))
    } else if let Some((name, params)) = name_and_params(
        names,
        group,
        code,
        "mname"@,
        "mparams"@,
    ) {
        Some(SignatureView::Method(name, params))
    } else if let Some((name, params)) = name_and_params(
        names,
        group,
        code,
        "vname"@,
        "vparams"@,
    ) {
        if find_capture(names, group, "is_arrow"@) is Some {
            Some(SignatureView::ArrowFunction(name, params))
        } else {
            Some(SignatureView::FunctionExpression(name, params))
        }
    } else {
        None
    }
}

/// The kinds of declaration.
pub enum SignatureKind {
    Class,
    Function,
    Method,
    ArrowFunction,
    FunctionExpression,
}

impl SignatureView {
    pub open spec fn kind(self) -> SignatureKind {
        match self {
            SignatureView::Class(_) => SignatureKind::Class,
            SignatureView::Function(_, _) => SignatureKind::Function,
            SignatureView::Method(_, _) => SignatureKind::Method,
            SignatureView::ArrowFunction(_, _) => SignatureKind::ArrowFunction,
            SignatureView::FunctionExpression(_, _) => SignatureKind::FunctionExpression,
        }
    }
}

/// The kind that the names bound in a group call for, by precedence: a class
/// before a function, a function before a method, a method before a function
/// bound to a variable.
pub open spec fn kind_by_precedence(names: Seq<Seq<char>>, group: Seq<Capture>) -> Option<
    SignatureKind,
> {
    if binds(names, group, "cname"@) {
        Some(SignatureKind::Class)
    } else if binds(names, group, "fname"@) && binds(names, group, "fparams"@) {
        Some(SignatureKind::Function)
    } else if binds(names, group, "mname"@) && binds(names, group, "mparams"@) {
        Some(SignatureKind::Method)
    } else if binds(names, group, "vname"@) && binds(names, group, "vparams"@) {
        if binds(names, group, "is_arrow"@) {
            Some(SignatureKind::ArrowFunction)
        } else {
            Some(SignatureKind::FunctionExpression)
        }
    } else {
        None
    }
}

/// The kind of the declaration that a group stands for, if it stands for one.
pub open spec fn kind_of(names: Seq<Seq<char>>, group: Seq<Capture>, code: Seq<char>) -> Option<
    SignatureKind,
> {
    match classify(names, group, code) {
        Some(sig) => Some(sig.kind()),
        None => None,
    }
}

/// Precedence decides. Whatever else a group binds, and whatever the source
/// text, the kind of its declaration is the first in the order of precedence
/// whose names it binds.
pub proof fn law_precedence(names: Seq<Seq<char>>, group: Seq<Capture>, code: Seq<char>)
    ensures
        kind_of(names, group, code) == kind_by_precedence(names, group),
{
    lemma_find_capture(names, group, "cname"@);
    lemma_find_capture(names, group, "fname"@);
    lemma_find_capture(names, group, "fparams"@);
    lemma_find_capture(names, group, "mname"@);
    lemma_find_capture(names, group, "mparams"@);
    lemma_find_capture(names, group, "vname"@);
    lemma_find_capture(names, group, "vparams"@);
    lemma_find_capture(names, group, "is_arrow"@);
}

/// The order in which the captures of a match were found does not matter to
/// the kind of its declaration.
pub proof fn law_capture_order(
    names: Seq<Seq<char>>,
    first: Seq<Capture>,
    second: Seq<Capture>,
    code: Seq<char>,
)
    requires
        forall|c: Capture| first.contains(c) <==> second.contains(c),
    ensures
        kind_of(names, first, code) == kind_of(names, second, code),
{
    law_precedence(names, first, code);
    law_precedence(names, second, code);
    lemma_binds_any_order(names, first, second, "cname"@);
    lemma_binds_any_order(names, first, second, "fname"@);
    lemma_binds_any_order(names, first, second, "fparams"@);
    lemma_binds_any_order(names, first, second, "mname"@);
    lemma_binds_any_order(names, first, second, "mparams"@);
    lemma_binds_any_order(names, first, second, "vname"@);
    lemma_binds_any_order(names, first, second, "vparams"@);
    lemma_binds_any_order(names, first, second, "is_arrow"@);
}

/// The order in which the captures of a match were found does not matter to
/// the declaration it stands for, where no name is bound twice: the kind
/// and the texts are the same.
pub proof fn law_capture_order_exact(
    names: Seq<Seq<char>>,
    first: Seq<Capture>,
    second: Seq<Capture>,
    code: Seq<char>,
)
    requires
        forall|c: Capture| first.contains(c) <==> second.contains(c),
        names_bound_once(names, first),
    ensures
        classify(names, first, code) == classify(names, second, code),
{
    lemma_find_any_order(names, first, second, "cname"@);
    lemma_find_any_order(names, first, second, "fname"@);
    lemma_find_any_order(names, first, second, "fparams"@);
    lemma_find_any_order(names, first, second, "mname"@);
    lemma_find_any_order(names, first, second, "mparams"@);
    lemma_find_any_order(names, first, second, "vname"@);
    lemma_find_any_order(names, first, second, "vparams"@);
    lemma_find_any_order(names, first, second, "is_arrow"@);
}

/// The signature text of a capture group, if it stands for a declaration.
pub open spec fn signature_of(names: Seq<Seq<char>>, group: Seq<Capture>, code: Seq<char>)
    -> Option<Seq<char>> {
    match classify(names, group, code) {
        Some(sig) => Some(sig.rendering()),
        None => None,
    }
}

/// The signature texts of all the groups.
pub open spec fn signature_texts(
    names: Seq<Seq<char>>,
    groups: Seq<Seq<Capture>>,
    code: Seq<char>,
) -> Set<Seq<char>> {
    collected(Dialect::Script, names, groups, code)
}

/// The order in which the matches were found does not matter to the
/// signatures of a file.
pub proof fn law_match_order(
    names: Seq<Seq<char>>,
    first: Seq<Seq<Capture>>,
    second: Seq<Seq<Capture>>,
    code: Seq<char>,
)
    requires
        forall|g: Seq<Capture>| first.contains(g) <==> second.contains(g),
    ensures
        signature_texts(names, first, code) == signature_texts(names, second, code),
{
    lemma_collected_any_order(Dialect::Script, names, first, second, code);
}

/// The texts of two captures, where both are there.
fn pair_texts(
    captures: &CaptureMap,
    code: &str,
    name: &str,
    params: &str,
) -> (r: Option<(String, String)>)
    ensures
        match r {
            Some((n, p)) => name_and_params(
                texts(*captures.names),
                captures.captures@,
                code@,
                name@,
                params@,
            ) == Some((n@, p@)),
            None => name_and_params(
                texts(*captures.names),
                captures.captures@,
                code@,
                name@,
                params@,
            ) is None,
        },
{
    match captures.get_node(name) {
        Some(name_node) => match captures.get_node(params) {
            Some(params_node) => {
                let n = extract_text(code, name_node.start, name_node.end);
                let p = extract_text(code, params_node.start, params_node.end);
                Some((n.to_owned(), p.to_owned()))
            },
            None => None,
        },
        None => None,
    }
}

/// Decides which declaration a capture group stands for.
pub fn detect_signature_type(captures: &CaptureMap, code: &str) -> (r: Option<SignatureType>)
    ensures
        match r {
            Some(sig) => classify(texts(*captures.names), captures.captures@, code@) == Some(
                sig@,
            ),
            None => classify(texts(*captures.names), captures.captures@, code@) is None,
        },
{
    if let Some(node) = captures.get_node("cname") {
        let name = extract_text(code, node.start, node.end);
        return Some(SignatureType::Class(name.to_owned()));
    }
    if let Some((name, params)) = pair_texts(captures, code, "fname", "fparams") {
        return Some(SignatureType::Function(name, params));
    }
    if let Some((name, params)) = pair_texts(captures, code, "mname", "mparams") {
        return Some(SignatureType::Method(name, params));
    }
    if let Some((name, params)) = pair_texts(captures, code, "vname", "vparams") {
        if captures.has_capture("is_arrow") {
            return Some(SignatureType::ArrowFunction(name, params));
        } else {
            return Some(SignatureType::FunctionExpression(name, params));
        }
    }
    None
}

/// The signature of one capture group, if it stands for a declaration.
pub fn create_signature(names: &Vec<String>, captures: &Vec<Capture>, code: &str) -> (r: Option<
    String,
>)
    ensures
        match r {
            Some(s) => signature_of(texts(*names), captures@, code@) == Some(s@),
            None => signature_of(texts(*names), captures@, code@) is None,
        },
{
    let capture_map = CaptureMap::new(names, captures);
    match detect_signature_type(&capture_map, code) {
        Some(signature_type) => Some(signature_type.render()),
        None => None,
    }
}

/// The signatures of the matches of a query over a script, each once and in
/// strictly increasing byte order. `names` are the capture names of the
/// query and `groups` the captures of each match.
pub fn signatures_from_matches(names: &Vec<String>, groups: &Vec<Vec<Capture>>, code: &str) -> (r:
    Vec<String>)
    ensures
        strictly_sorted(texts(r)),
        texts(r).to_set() == signature_texts(texts(*names), groups_view(*groups), code@),
        texts(r) == sorted_texts(signature_texts(texts(*names), groups_view(*groups), code@)),
{
    gather(Dialect::Script, names, groups, code)
}

/// The sorted signatures of the matches of a compiled query over the tree
/// of a script.
pub open spec fn script_signatures(query: Query, tree: Tree, code: Seq<char>) -> Seq<Seq<char>> {
    sorted_texts(signature_texts(capture_names_of(query), matches_of(query, tree, code), code))
}

/// What parsing a script gives.
pub open spec fn script_parsed(language: Language, code: Seq<char>) -> Result<Tree, ErrorView> {
    parsed(language, code, "Failed to set parser language: "@, "Failed to parse code"@)
}

/// What extracting from a script with a compiled query gives: the failure of
/// the parse, or else the sorted signatures of the matches.
pub open spec fn script_outcome(language: Language, query: Query, code: Seq<char>) -> Result<
    Seq<Seq<char>>,
    ErrorView,
> {
    match script_parsed(language, code) {
        Err(e) => Err(e),
        Ok(tree) => Ok(script_signatures(query, tree, code)),
    }
}

/// What extracting from a script gives: the failure of the first step that
/// fails (the grammar is refused, the text does not parse, the query program
/// does not compile), or else the sorted signatures of the matches.
pub open spec fn script_extraction(language: Language, query: Seq<char>, code: Seq<char>) -> Result<
    Seq<Seq<char>>,
    ErrorView,
> {
    match script_parsed(language, code) {
        Err(e) => Err(e),
        Ok(tree) => match query_outcome(language, query) {
            Err(e) => Err(ErrorView::TreeSitter(query_error_message(e))),
            Ok(q) => Ok(script_signatures(q, tree, code)),
        },
    }
}

/// A result of extraction as specifications see it.
pub open spec fn outcome_view(r: TalosResult<Vec<String>>) -> Result<Seq<Seq<char>>, ErrorView> {
    match r {
        Ok(signatures) => Ok(texts(signatures)),
        Err(e) => Err(e@),
    }
}

/// The signatures of the matches of a compiled query over the tree that
/// `code` was parsed to.
fn signatures_in_tree(query: &Query, tree: &Tree, code: &str) -> (r: Vec<String>)
    requires
        parse_outcome(Some(query_language(*query)), code@) == Some(*tree),
    ensures
        texts(r) == script_signatures(*query, *tree, code@),
        strictly_sorted(texts(r)),
{
    let names = capture_names(query);
    let groups = run_query(query, tree, code);
    signatures_from_matches(&names, &groups, code)
}

/// Parses `code` with the grammar `lang` and gives the signatures of the
/// matches of a query compiled for that grammar.
pub(crate) fn extract_with_compiled(code: &str, lang: Language, query: &Query) -> (r: TalosResult<
    Vec<String>,
>)
    requires
        query_language(*query) == lang,
    ensures
        outcome_view(r) == script_outcome(lang, *query, code@),
        r matches Ok(signatures) ==> strictly_sorted(texts(signatures)),
{
    let tree = match parse_source(
        code,
        lang,
        "Failed to set parser language: ",
        "Failed to parse code",
    ) {
        Ok(tree) => tree,
        Err(e) => {
            return Err(e);
        },
    };
    Ok(signatures_in_tree(query, &tree, code))
}

/// Parses `code` with the grammar `lang`, compiles the query program, runs
/// it over the tree and gives the signatures of its matches. The query
/// program ends in a line break.
pub fn extract_with_query(code: &str, lang: Language, query_str: &str) -> (r: TalosResult<
    Vec<String>,
>)
    requires
        ends_in_newline(query_str@),
    ensures
        outcome_view(r) == script_extraction(lang, query_str@, code@),
        r matches Ok(signatures) ==> strictly_sorted(texts(signatures)),
{
    let tree = match parse_source(
        code,
        lang,
        "Failed to set parser language: ",
        "Failed to parse code",
    ) {
        Ok(tree) => tree,
        Err(e) => {
            return Err(e);
        },
    };
    let query = match compile_query(lang, query_str) {
        Ok(query) => query,
        Err(e) => {
            return Err(TalosError::TreeSitter(query_error_text(&e)));
        },
    };
    Ok(signatures_in_tree(&query, &tree, code))
}

/// The signatures of a JavaScript source.
pub fn extract_js(code: &str) -> (r: TalosResult<Vec<String>>)
    ensures
        outcome_view(r) == script_extraction(
            grammar(SupportedLang::JavaScript),
            UNIFIED_QUERY@,
            code@,
        ),
        r matches Ok(signatures) ==> strictly_sorted(texts(signatures)),
{
    proof {
        lemma_unified_query_ends_in_newline();
    }
    extract_with_query(code, lang_js(), UNIFIED_QUERY)
}

/// The signatures of a TypeScript source.
pub fn extract_ts(code: &str) -> (r: TalosResult<Vec<String>>)
    ensures
        outcome_view(r) == script_extraction(
            grammar(SupportedLang::TypeScript),
            UNIFIED_QUERY@,
            code@,
        ),
        r matches Ok(signatures) ==> strictly_sorted(texts(signatures)),
{
    proof {
        lemma_unified_query_ends_in_newline();
    }
    extract_with_query(code, lang_ts(), UNIFIED_QUERY)
}

/// The signatures of a source in TypeScript with JSX.
pub fn extract_tsx(code: &str) -> (r: TalosResult<Vec<String>>)
    ensures
        outcome_view(r) == script_extraction(
            grammar(SupportedLang::TypeScriptReact),
            UNIFIED_QUERY@,
            code@,
        ),
        r matches Ok(signatures) ==> strictly_sorted(texts(signatures)),
{
    proof {
        lemma_unified_query_ends_in_newline();
    }
    extract_with_query(code, lang_tsx(), UNIFIED_QUERY)
}

} // verus!
