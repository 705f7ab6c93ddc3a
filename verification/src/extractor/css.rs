//! Signatures of style sheets: selectors, keyframes, custom properties and
//! at-rules.

use crate::error::{ErrorView, TalosError, TalosResult};
use crate::extractor::captures::{
    binds, capture_text, extract_text, find_capture, lemma_binds_any_order,
    lemma_find_any_order, lemma_find_capture, names_bound_once, Capture, CaptureMap,
};
use crate::extractor::js_ts::outcome_view;
use crate::extractor::parsing::{parse_source, parsed};
use crate::extractor::syntax::{
    capture_names, ends_in_newline, capture_names_of, compile_query, grammar, groups_view, lang_css, matches_of,
    parse_outcome, query_error_message, query_error_text, query_language, query_outcome, run_query,
};
use crate::extractor::SupportedLang;
use crate::extractor::collect::{collected, gather, lemma_collected_any_order, Dialect};
use crate::signature_set::{sorted_texts, strictly_sorted};
use crate::text::{joined, strip_leading, texts, trim_start_matches};
use tree_sitter::{Language, Query, Tree};
use vstd::prelude::*;

verus! {

/// The capture patterns of the style grammar. A class selector binds
/// `css_class`; an id selector `css_id`; an element selector `css_element`;
/// a keyframes rule `keyframe_name`; the declaration of a custom property
/// `css_property`; any other at-rule binds its keyword as `at_rule_name`.
pub const CSS_QUERY: &'static str =
    "(class_selector (class_name) @css_class)\n\
(id_selector (id_name) @css_id)\n\
(rule_set (selectors (tag_name) @css_element))\n\
(keyframes_statement (keyframes_name) @keyframe_name)\n\
((declaration (property_name) @css_property) (#match? @css_property \"^--\"))\n\
(at_rule (at_keyword) @at_rule_name)\n\
(media_statement \"@media\" @at_rule_name)\n\
(supports_statement \"@supports\" @at_rule_name)\n\
(import_statement \"@import\" @at_rule_name)\n\
(charset_statement \"@charset\" @at_rule_name)\n\
(namespace_statement \"@namespace\" @at_rule_name)\n";

/// The query program of style sheets ends in a line break.
pub proof fn lemma_css_query_ends_in_newline()
    ensures
        ends_in_newline(CSS_QUERY@),
{
    reveal_strlit(
        "(class_selector (class_name) @css_class)\n\
(id_selector (id_name) @css_id)\n\
(rule_set (selectors (tag_name) @css_element))\n\
(keyframes_statement (keyframes_name) @keyframe_name)\n\
((declaration (property_name) @css_property) (#match? @css_property \"^--\"))\n\
(at_rule (at_keyword) @at_rule_name)\n\
(media_statement \"@media\" @at_rule_name)\n\
(supports_statement \"@supports\" @at_rule_name)\n\
(import_statement \"@import\" @at_rule_name)\n\
(charset_statement \"@charset\" @at_rule_name)\n\
(namespace_statement \"@namespace\" @at_rule_name)\n",
    );
}

/// A rule found in a style sheet, with the name it was written with.
#[derive(Debug)]
pub enum CssSignatureType {
    Class(String),
    Id(String),
    Element(String),
    Keyframe(String),
    CustomProperty(String),
    AtRule(String),
}

/// A `CssSignatureType` as specifications see it.
pub enum CssSignatureView {
    Class(Seq<char>),
    Id(Seq<char>),
    Element(Seq<char>),
    Keyframe(Seq<char>),
    CustomProperty(Seq<char>),
    AtRule(Seq<char>),
}

impl View for CssSignatureType {
    type V = CssSignatureView;

    open spec fn view(&self) -> CssSignatureView {
        match self {
            CssSignatureType::Class(name) => CssSignatureView::Class(name@),
            CssSignatureType::Id(name) => CssSignatureView::Id(name@),
            CssSignatureType::Element(name) => CssSignatureView::Element(name@),
            CssSignatureType::Keyframe(name) => CssSignatureView::Keyframe(name@),
            CssSignatureType::CustomProperty(name) => CssSignatureView::CustomProperty(name@),
            CssSignatureType::AtRule(name) => CssSignatureView::AtRule(name@),
        }
    }
}

impl CssSignatureView {
    /// The one-line text of the rule. A class selector starts with exactly
    /// one dot and an id selector with exactly one hash, whether or not the
    /// captured name had any; the other names stand as captured.
    pub open spec fn rendering(self) -> Seq<char> {
        match self {
            CssSignatureView::Class(name) => "."@ + strip_leading(name, '.'),
            CssSignatureView::Id(name) => "#"@ + strip_leading(name, '#'),
            CssSignatureView::Element(name) => name,
            CssSignatureView::Keyframe(name) => "@keyframes "@ + name,
            CssSignatureView::CustomProperty(name) => name,
            CssSignatureView::AtRule(name) => name,
        }
    }
}

impl CssSignatureType {
    /// The one-line text of the rule.
    pub fn render(self) -> (r: String)
        ensures
            r@ == self@.rendering(),
    {
        match self {
            CssSignatureType::Class(name) => joined(".", trim_start_matches(name.as_str(), '.')),
            CssSignatureType::Id(name) => joined("#", trim_start_matches(name.as_str(), '#')),
            CssSignatureType::Element(name) => name,
            CssSignatureType::Keyframe(name) => joined("@keyframes ", name.as_str()),
            CssSignatureType::CustomProperty(name) => name,
            CssSignatureType::AtRule(name) => name,
        }
    }
}

/// The rule that a capture group stands for. The captures are looked for in
/// this order and the first one found decides: class selector, id selector,
/// element selector, keyframe name, custom property, at-rule name. A group
/// with none of them stands for nothing.
pub open spec fn classify_css(names: Seq<Seq<char>>, group: Seq<Capture>, code: Seq<char>)
    -> Option<CssSignatureView> {
    if let Some(c) = find_capture(names, group, "css_class"@) {
        Some(CssSignatureView::Class(capture_text(code, c)))
    } else if let Some(c) = find_capture(names, group, "css_id"@) {
        Some(CssSignatureView::Id(capture_text(code, c)))
    } else if let Some(c) = find_capture(names, group, "css_element"@) {
        Some(CssSignatureView::Element(capture_text(code, c)))
    } else if let Some(c) = find_capture(names, group, "keyframe_name"@) {
        Some(CssSignatureView::Keyframe(capture_text(code, c)))
    } else if let Some(c) = find_capture(names, group, "css_property"@) {
        Some(CssSignatureView::CustomProperty(capture_text(code, c)))
    } else if let Some(c) = find_capture(names, group, "at_rule_name"@) {
        Some(CssSignatureView::AtRule(capture_text(code, c)))
    } else {
        None
    }
}

/// The kinds of rule.
pub enum CssSignatureKind {
    Class,
    Id,
    Element,
    Keyframe,
    CustomProperty,
    AtRule,
}

impl CssSignatureView {
    pub open spec fn kind(self) -> CssSignatureKind {
        match self {
            CssSignatureView::Class(_) => CssSignatureKind::Class,
            CssSignatureView::Id(_) => CssSignatureKind::Id,
            CssSignatureView::Element(_) => CssSignatureKind::Element,
            CssSignatureView::Keyframe(_) => CssSignatureKind::Keyframe,
            CssSignatureView::CustomProperty(_) => CssSignatureKind::CustomProperty,
            CssSignatureView::AtRule(_) => CssSignatureKind::AtRule,
        }
    }
}

/// The kind that the names bound in a group call for, by precedence: class
/// selector, id selector, element selector, keyframe name, custom property,
/// at-rule name.
pub open spec fn css_kind_by_precedence(names: Seq<Seq<char>>, group: Seq<Capture>) -> Option<
    CssSignatureKind,
> {
    if binds(names, group, "css_class"@) {
        Some(CssSignatureKind::Class)
    } else if binds(names, group, "css_id"@) {
        Some(CssSignatureKind::Id)
    } else if binds(names, group, "css_element"@) {
        Some(CssSignatureKind::Element)
    } else if binds(names, group, "keyframe_name"@) {
        Some(CssSignatureKind::Keyframe)
    } else if binds(names, group, "css_property"@) {
        Some(CssSignatureKind::CustomProperty)
    } else if binds(names, group, "at_rule_name"@) {
        Some(CssSignatureKind::AtRule)
    } else {
        None
    }
}

/// The kind of the rule that a group stands for, if it stands for one.
pub open spec fn css_kind_of(names: Seq<Seq<char>>, group: Seq<Capture>, code: Seq<char>)
    -> Option<CssSignatureKind> {
    match classify_css(names, group, code) {
        Some(sig) => Some(sig.kind()),
        None => None,
    }
}

/// Precedence decides. Whatever else a group binds, and whatever the source
/// text, the kind of its rule is the first in the order of precedence whose
/// name it binds.
pub proof fn law_css_precedence(names: Seq<Seq<char>>, group: Seq<Capture>, code: Seq<char>)
    ensures
        css_kind_of(names, group, code) == css_kind_by_precedence(names, group),
{
    lemma_find_capture(names, group, "css_class"@);
    lemma_find_capture(names, group, "css_id"@);
    lemma_find_capture(names, group, "css_element"@);
    lemma_find_capture(names, group, "keyframe_name"@);
    lemma_find_capture(names, group, "css_property"@);
    lemma_find_capture(names, group, "at_rule_name"@);
}

/// The order in which the captures of a match were found does not matter to
/// the kind of its rule.
pub proof fn law_css_capture_order(
    names: Seq<Seq<char>>,
    first: Seq<Capture>,
    second: Seq<Capture>,
    code: Seq<char>,
)
    requires
        forall|c: Capture| first.contains(c) <==> second.contains(c),
    ensures
        css_kind_of(names, first, code) == css_kind_of(names, second, code),
{
    law_css_precedence(names, first, code);
    law_css_precedence(names, second, code);
    lemma_binds_any_order(names, first, second, "css_class"@);
    lemma_binds_any_order(names, first, second, "css_id"@);
    lemma_binds_any_order(names, first, second, "css_element"@);
    lemma_binds_any_order(names, first, second, "keyframe_name"@);
    lemma_binds_any_order(names, first, second, "css_property"@);
    lemma_binds_any_order(names, first, second, "at_rule_name"@);
}

/// The order in which the captures of a match were found does not matter to
/// the rule it stands for, where no name is bound twice: the kind and the
/// text are the same.
pub proof fn law_css_capture_order_exact(
    names: Seq<Seq<char>>,
    first: Seq<Capture>,
    second: Seq<Capture>,
    code: Seq<char>,
)
    requires
        forall|c: Capture| first.contains(c) <==> second.contains(c),
        names_bound_once(names, first),
    ensures
        classify_css(names, first, code) == classify_css(names, second, code),
{
    lemma_find_any_order(names, first, second, "css_class"@);
    lemma_find_any_order(names, first, second, "css_id"@);
    lemma_find_any_order(names, first, second, "css_element"@);
    lemma_find_any_order(names, first, second, "keyframe_name"@);
    lemma_find_any_order(names, first, second, "css_property"@);
    lemma_find_any_order(names, first, second, "at_rule_name"@);
}

/// The signature text of a capture group, if it stands for a rule.
pub open spec fn css_signature_of(names: Seq<Seq<char>>, group: Seq<Capture>, code: Seq<char>)
    -> Option<Seq<char>> {
    match classify_css(names, group, code) {
        Some(sig) => Some(sig.rendering()),
        None => None,
    }
}

/// The signature texts of all the groups.
pub open spec fn css_signature_texts(
    names: Seq<Seq<char>>,
    groups: Seq<Seq<Capture>>,
    code: Seq<char>,
) -> Set<Seq<char>> {
    collected(Dialect::Style, names, groups, code)
}

/// The order in which the matches were found does not matter to the
/// signatures of a file.
pub proof fn law_css_match_order(
    names: Seq<Seq<char>>,
    first: Seq<Seq<Capture>>,
    second: Seq<Seq<Capture>>,
    code: Seq<char>,
)
    requires
        forall|g: Seq<Capture>| first.contains(g) <==> second.contains(g),
    ensures
        css_signature_texts(names, first, code) == css_signature_texts(names, second, code),
{
    lemma_collected_any_order(Dialect::Style, names, first, second, code);
}

/// Decides which rule a capture group stands for.
pub fn detect_css_signature_type(captures: &CaptureMap, code: &str) -> (r: Option<
    CssSignatureType,
>)
    ensures
        match r {
            Some(sig) => classify_css(texts(*captures.names), captures.captures@, code@) == Some(
                sig@,
            ),
            None => classify_css(texts(*captures.names), captures.captures@, code@) is None,
        },
{
    if let Some(node) = captures.get_node("css_class") {
        let name = extract_text(code, node.start, node.end);
        return Some(CssSignatureType::Class(name.to_owned()));
    }
    if let Some(node) = captures.get_node("css_id") {
        let name = extract_text(code, node.start, node.end);
        return Some(CssSignatureType::Id(name.to_owned()));
    }
    if let Some(node) = captures.get_node("css_element") {
        let name = extract_text(code, node.start, node.end);
        return Some(CssSignatureType::Element(name.to_owned()));
    }
    if let Some(node) = captures.get_node("keyframe_name") {
        let name = extract_text(code, node.start, node.end);
        return Some(CssSignatureType::Keyframe(name.to_owned()));
    }
    if let Some(node) = captures.get_node("css_property") {
        let name = extract_text(code, node.start, node.end);
        return Some(CssSignatureType::CustomProperty(name.to_owned()));
    }
    if let Some(node) = captures.get_node("at_rule_name") {
        let name = extract_text(code, node.start, node.end);
        return Some(CssSignatureType::AtRule(name.to_owned()));
    }
    None
}

/// The signature of one capture group, if it stands for a rule.
pub fn create_css_signature(names: &Vec<String>, captures: &Vec<Capture>, code: &str) -> (r:
    Option<String>)
    ensures
        match r {
            Some(s) => css_signature_of(texts(*names), captures@, code@) == Some(s@),
            None => css_signature_of(texts(*names), captures@, code@) is None,
        },
{
    let capture_map = CaptureMap::new(names, captures);
    match detect_css_signature_type(&capture_map, code) {
        Some(signature_type) => Some(signature_type.render()),
        None => None,
    }
}

/// The signatures of the matches of a query over a style sheet, each once
/// and in strictly increasing byte order. `names` are the capture names of
/// the query and `groups` the captures of each match.
pub fn css_signatures_from_matches(
    names: &Vec<String>,
    groups: &Vec<Vec<Capture>>,
    code: &str,
) -> (r: Vec<String>)
    ensures
        strictly_sorted(texts(r)),
        texts(r).to_set() == css_signature_texts(texts(*names), groups_view(*groups), code@),
        texts(r) == sorted_texts(
            css_signature_texts(texts(*names), groups_view(*groups), code@),
        ),
{
    gather(Dialect::Style, names, groups, code)
}

/// The sorted signatures of the matches of a compiled query over the tree
/// of a style sheet.
pub open spec fn css_signatures(query: Query, tree: Tree, code: Seq<char>) -> Seq<Seq<char>> {
    sorted_texts(css_signature_texts(capture_names_of(query), matches_of(query, tree, code), code))
}

/// What parsing a style sheet gives.
pub open spec fn css_parsed(language: Language, code: Seq<char>) -> Result<Tree, ErrorView> {
    parsed(language, code, "Failed to set CSS parser language: "@, "Failed to parse CSS code"@)
}

/// What extracting from a style sheet with a compiled query gives: the
/// failure of the parse, or else the sorted signatures of the matches.
pub open spec fn css_outcome(language: Language, query: Query, code: Seq<char>) -> Result<
    Seq<Seq<char>>,
    ErrorView,
> {
    match css_parsed(language, code) {
        Err(e) => Err(e),
        Ok(tree) => Ok(css_signatures(query, tree, code)),
    }
}

/// What extracting from a style sheet gives: the failure of the first step
/// that fails (the grammar is refused, the text does not parse, the query
/// program does not compile), or else the sorted signatures of the matches.
pub open spec fn css_extraction(language: Language, query: Seq<char>, code: Seq<char>) -> Result<
    Seq<Seq<char>>,
    ErrorView,
> {
    match css_parsed(language, code) {
        Err(e) => Err(e),
        Ok(tree) => match query_outcome(language, query) {
            Err(e) => Err(ErrorView::TreeSitter(query_error_message(e))),
            Ok(q) => Ok(css_signatures(q, tree, code)),
        },
    }
}

/// The signatures of the matches of a compiled query over the tree that
/// `code` was parsed to.
fn css_signatures_in_tree(query: &Query, tree: &Tree, code: &str) -> (r: Vec<String>)
    requires
        parse_outcome(Some(query_language(*query)), code@) == Some(*tree),
    ensures
        texts(r) == css_signatures(*query, *tree, code@),
        strictly_sorted(texts(r)),
{
    let names = capture_names(query);
    let groups = run_query(query, tree, code);
    css_signatures_from_matches(&names, &groups, code)
}

/// Parses `code` with the grammar `lang` and gives the signatures of the
/// matches of a query compiled for that grammar.
pub(crate) fn extract_with_compiled(code: &str, lang: Language, query: &Query) -> (r: TalosResult<
    Vec<String>,
>)
    requires
        query_language(*query) == lang,
    ensures
        outcome_view(r) == css_outcome(lang, *query, code@),
        r matches Ok(signatures) ==> strictly_sorted(texts(signatures)),
{
    let tree = match parse_source(
        code,
        lang,
        "Failed to set CSS parser language: ",
        "Failed to parse CSS code",
    ) {
        Ok(tree) => tree,
        Err(e) => {
            return Err(e);
        },
    };
    Ok(css_signatures_in_tree(query, &tree, code))
}

/// Parses `code` with the grammar `lang`, compiles the query program, runs
/// it over the tree and gives the signatures of its matches. The query
/// program ends in a line break.
pub fn extract_with_query(code: &str, lang: Language, query_str: &str) -> (r: TalosResult<
    Vec<String>,
>)
    requires
        ends_in_newline(query_str@),
    ensures
        outcome_view(r) == css_extraction(lang, query_str@, code@),
        r matches Ok(signatures) ==> strictly_sorted(texts(signatures)),
{
    let tree = match parse_source(
        code,
        lang,
        "Failed to set CSS parser language: ",
        "Failed to parse CSS code",
    ) {
        Ok(tree) => tree,
        Err(e) => {
            return Err(e);
        },
    };
    let query = match compile_query(lang, query_str) {
        Ok(query) => query,
        Err(e) => {
            return Err(TalosError::TreeSitter(query_error_text(&e)));
        },
    };
    Ok(css_signatures_in_tree(&query, &tree, code))
}

/// The signatures of a style sheet.
pub fn extract_css(code: &str) -> (r: TalosResult<Vec<String>>)
    ensures
        outcome_view(r) == css_extraction(grammar(SupportedLang::CSS), CSS_QUERY@, code@),
        r matches Ok(signatures) ==> strictly_sorted(texts(signatures)),
{
    proof {
        lemma_css_query_ends_in_newline();
    }
    extract_with_query(code, lang_css(), CSS_QUERY)
}

} // verus!
