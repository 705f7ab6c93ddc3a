use talos::error::TalosError;
use talos::extractor::captures::{extract_text, Capture, CaptureMap};
use talos::extractor::css::{
    create_css_signature, css_signatures_from_matches, detect_css_signature_type, extract_css,
    CssSignatureType,
};
use talos::extractor::js_ts::{
    create_signature, detect_signature_type, extract_js, extract_ts, extract_tsx,
    extract_with_query, signatures_from_matches, SignatureType,
};
use talos::extractor::{
    extract_signatures_for_file, extract_signatures_for_language, infer_lang_from_ext,
    lang_for_extension, LanguageExtractor, SupportedLang,
};

fn strings(items: &[&str]) -> Vec<String> {
    items.iter().map(|s| s.to_string()).collect()
}

fn script_names() -> Vec<String> {
    strings(&["cname", "fname", "fparams", "mname", "mparams", "vname", "vparams", "is_arrow"])
}

fn style_names() -> Vec<String> {
    strings(&["css_class", "css_id", "css_element", "keyframe_name", "css_property", "at_rule_name"])
}

fn capture(index: u32, start: usize, end: usize) -> Capture {
    Capture { index, start, end }
}

#[test]
fn class_and_function_of_a_script() {
    let source = "class Foo {}\nfunction bar(a, b) {}";
    let expected = strings(&["class Foo", "function bar(a, b)"]);
    assert_eq!(extract_js(source).unwrap(), expected);
    assert_eq!(extract_ts(source).unwrap(), expected);
    assert_eq!(extract_tsx(source).unwrap(), expected);
}

#[test]
fn selectors_and_at_rule_of_a_style_sheet() {
    let source = ".card { color: red; } #id {} @media screen {}";
    assert_eq!(extract_css(source).unwrap(), strings(&["#id", ".card", "@media"]));
}

#[test]
fn every_kind_of_script_declaration() {
    let source = "class Foo { bar(x) {} }\nfunction baz(a, b) {}\nconst f = (x, y) => x;\nconst g = function (z) {};\n";
    assert_eq!(
        extract_js(source).unwrap(),
        strings(&[
            "class Foo",
            "const f = (x, y) =>",
            "const g = function (z)",
            "function baz(a, b)",
            "method bar(x)",
        ])
    );
}

#[test]
fn typed_parameters_stand_as_written() {
    let source = "function bar(a: string,   b?: number): void {}\nconst f = (x: number) => x;\n";
    assert_eq!(
        extract_ts(source).unwrap(),
        strings(&["const f = (x: number) =>", "function bar(a: string,   b?: number)"])
    );
}

#[test]
fn tsx_components() {
    let source = "const App = (props: P) => <div/>;\nclass C extends React.Component {}\n";
    assert_eq!(
        extract_tsx(source).unwrap(),
        strings(&["class C", "const App = (props: P) =>"])
    );
}

#[test]
fn every_kind_of_style_rule() {
    let source = ".card { color: red; }\n#id {}\n:root { --main: red; }\n@keyframes spin { from {} to {} }\nbody {}\n@font-face { font-family: x; }\n";
    assert_eq!(
        extract_css(source).unwrap(),
        strings(&["#id", "--main", ".card", "@font-face", "@keyframes spin", "body"])
    );
}

#[test]
fn at_rules_are_listed_by_their_keyword() {
    let source = "@charset \"utf-8\";\n@import \"a.css\";\n@namespace svg url(http://www.w3.org/2000/svg);\n@supports (display: grid) { .g {} }\n@media print { p {} }\n@media screen {}\n@page { margin: 0; }\n";
    assert_eq!(
        extract_css(source).unwrap(),
        strings(&[".g", "@charset", "@import", "@media", "@namespace", "@page", "@supports", "p"])
    );
}

#[test]
fn equal_signatures_are_listed_once() {
    let source = "function a() {}\nfunction a() {}\nfunction a() {}\n";
    assert_eq!(extract_js(source).unwrap(), strings(&["function a()"]));
    assert_eq!(extract_css(".x {} .x {} .x {}").unwrap(), strings(&[".x"]));
}

#[test]
fn signatures_come_in_strict_byte_order() {
    let source = "function b() {}\nfunction a() {}\nclass Z {}\nclass B {}\nfunction b() {}\n";
    let signatures = extract_js(source).unwrap();
    assert_eq!(signatures, strings(&["class B", "class Z", "function a()", "function b()"]));
    for pair in signatures.windows(2) {
        assert!(pair[0].as_bytes() < pair[1].as_bytes());
    }
}

#[test]
fn names_beyond_ascii_are_cut_out_by_bytes() {
    let source = "// ünïcödé\r\nfunction héllo(ä, 日本) {}\r\nclass Straße {}\r\n";
    assert_eq!(
        extract_js(source).unwrap(),
        strings(&["class Straße", "function héllo(ä, 日本)"])
    );
    assert_eq!(
        extract_css("/* größe */ .cafe { content: \"é\"; }").unwrap(),
        strings(&[".cafe"])
    );
}

#[test]
fn parameters_over_several_lines_stand_as_written() {
    let source = "function f(\n  a,\n  b\n) {}";
    assert_eq!(extract_js(source).unwrap(), strings(&["function f(\n  a,\n  b\n)"]));
}

#[test]
fn empty_source_has_no_signatures() {
    assert_eq!(extract_js("").unwrap(), Vec::<String>::new());
    assert_eq!(extract_ts("").unwrap(), Vec::<String>::new());
    assert_eq!(extract_tsx("").unwrap(), Vec::<String>::new());
    assert_eq!(extract_css("").unwrap(), Vec::<String>::new());
}

#[test]
fn text_that_is_no_script_gives_no_error() {
    assert!(extract_js("}}}} ((( \u{0}\u{1} @@@").is_ok());
    assert!(extract_css("}}}} ((( \u{0}\u{1} @@@").is_ok());
}

#[test]
fn a_query_that_does_not_compile_is_a_tree_sitter_error() {
    let result = extract_with_query(
        "class A {}",
        tree_sitter_javascript::language(),
        "(no_such_node) @cname\n",
    );
    match result {
        Err(TalosError::TreeSitter(message)) => {
            assert_eq!(message, "Query error at 1:2. Invalid node type no_such_node");
        }
        other => panic!("unexpected: {:?}", other),
    }
}

#[test]
fn extraction_by_language() {
    let source = "function f(a) {}";
    assert_eq!(
        extract_signatures_for_language(source, SupportedLang::JavaScript).unwrap(),
        strings(&["function f(a)"])
    );
    assert_eq!(
        extract_signatures_for_language(source, SupportedLang::TypeScript).unwrap(),
        strings(&["function f(a)"])
    );
    assert_eq!(
        extract_signatures_for_language(source, SupportedLang::TypeScriptReact).unwrap(),
        strings(&["function f(a)"])
    );
    assert_eq!(
        extract_signatures_for_language("p {}", SupportedLang::CSS).unwrap(),
        strings(&["p"])
    );
}

#[test]
fn a_language_is_an_extractor() {
    assert_eq!(SupportedLang::JavaScript.extract("class A {}").unwrap(), strings(&["class A"]));
    assert_eq!(SupportedLang::CSS.extract("#a {}").unwrap(), strings(&["#a"]));
}

#[test]
fn many_signatures_stay_sorted() {
    let mut source = String::new();
    let mut expected = Vec::new();
    for i in (0..300).rev() {
        source.push_str(&format!("function f{:03}(a{}) {{}}\n", (i * 7) % 300, i % 3));
        expected.push(format!("function f{:03}(a{})", (i * 7) % 300, i % 3));
    }
    expected.sort();
    expected.dedup();
    assert_eq!(extract_js(&source).unwrap(), expected);
}

#[test]
fn extraction_by_path() {
    assert_eq!(
        extract_signatures_for_file("src/a.js", "class A {}").unwrap(),
        strings(&["class A"])
    );
    assert_eq!(
        extract_signatures_for_file("src/a.CSS", ".a {}").unwrap(),
        strings(&[".a"])
    );
    assert_eq!(
        extract_signatures_for_file("src/a.py", "class A {}").unwrap(),
        Vec::<String>::new()
    );
    assert_eq!(
        extract_signatures_for_file("Makefile", "class A {}").unwrap(),
        Vec::<String>::new()
    );
}

#[test]
fn language_of_a_path() {
    assert!(matches!(infer_lang_from_ext("a.js"), Some(SupportedLang::JavaScript)));
    assert!(matches!(infer_lang_from_ext("dir/a.jsx"), Some(SupportedLang::JavaScript)));
    assert!(matches!(infer_lang_from_ext("a.ts"), Some(SupportedLang::TypeScript)));
    assert!(matches!(infer_lang_from_ext("a.tsx"), Some(SupportedLang::TypeScriptReact)));
    assert!(matches!(infer_lang_from_ext("a.css"), Some(SupportedLang::CSS)));
    assert!(matches!(infer_lang_from_ext("a.b.TSX"), Some(SupportedLang::TypeScriptReact)));
    assert!(matches!(infer_lang_from_ext("A.Js"), Some(SupportedLang::JavaScript)));
    assert!(infer_lang_from_ext("a.rs").is_none());
    assert!(infer_lang_from_ext("js").is_none());
    assert!(infer_lang_from_ext(".js").is_none());
    assert!(infer_lang_from_ext("a.js/").is_some());
    assert!(infer_lang_from_ext("").is_none());
}

#[test]
fn language_of_an_extension() {
    assert!(matches!(lang_for_extension("js"), Some(SupportedLang::JavaScript)));
    assert!(matches!(lang_for_extension("JSX"), Some(SupportedLang::JavaScript)));
    assert!(matches!(lang_for_extension("Ts"), Some(SupportedLang::TypeScript)));
    assert!(matches!(lang_for_extension("tSx"), Some(SupportedLang::TypeScriptReact)));
    assert!(matches!(lang_for_extension("CSS"), Some(SupportedLang::CSS)));
    assert!(lang_for_extension("").is_none());
    assert!(lang_for_extension(".js").is_none());
    assert!(lang_for_extension("scss").is_none());
}

#[test]
fn rendering_of_script_declarations() {
    let s = |t: &str| t.to_string();
    assert_eq!(SignatureType::Class(s("Foo")).render(), "class Foo");
    assert_eq!(SignatureType::Function(s("bar"), s("(a, b)")).render(), "function bar(a, b)");
    assert_eq!(SignatureType::Method(s("m"), s("()")).render(), "method m()");
    assert_eq!(SignatureType::ArrowFunction(s("f"), s("(x)")).render(), "const f = (x) =>");
    assert_eq!(
        SignatureType::FunctionExpression(s("g"), s("(y, z)")).render(),
        "const g = function (y, z)"
    );
    assert_eq!(SignatureType::Class(s("")).render(), "class ");
}

#[test]
fn rendering_of_style_rules() {
    let s = |t: &str| t.to_string();
    assert_eq!(CssSignatureType::Class(s("card")).render(), ".card");
    assert_eq!(CssSignatureType::Class(s(".card")).render(), ".card");
    assert_eq!(CssSignatureType::Class(s("...card")).render(), ".card");
    assert_eq!(CssSignatureType::Class(s("ca.rd")).render(), ".ca.rd");
    assert_eq!(CssSignatureType::Id(s("main")).render(), "#main");
    assert_eq!(CssSignatureType::Id(s("##main")).render(), "#main");
    assert_eq!(CssSignatureType::Id(s(".main")).render(), "#.main");
    assert_eq!(CssSignatureType::Element(s("body")).render(), "body");
    assert_eq!(CssSignatureType::Keyframe(s("spin")).render(), "@keyframes spin");
    assert_eq!(CssSignatureType::CustomProperty(s("--x")).render(), "--x");
    assert_eq!(CssSignatureType::AtRule(s("@media")).render(), "@media");
}

#[test]
fn text_between_offsets() {
    let code = "  function  bar (a, b)  ";
    assert_eq!(extract_text(code, 0, code.len()), "function  bar (a, b)");
    assert_eq!(extract_text(code, 2, 10), "function");
    assert_eq!(extract_text(code, 10, 12), "");
    assert_eq!(extract_text(code, 11, 16), "bar");
    assert_eq!(extract_text(code, 5, 5), "");
    assert_eq!(extract_text("\t\n x \r\n", 0, 7), "x");
    assert_eq!(extract_text("\u{a0}\u{2003}x\u{3000}", 0, 9), "x");
}

#[test]
fn offsets_that_delimit_no_slice_give_the_empty_text() {
    let code = "héllo";
    assert_eq!(code.len(), 6);
    assert_eq!(extract_text(code, 0, 6), "héllo");
    assert_eq!(extract_text(code, 0, 7), "");
    assert_eq!(extract_text(code, 7, 9), "");
    assert_eq!(extract_text(code, 4, 2), "");
    assert_eq!(extract_text(code, 0, 2), "");
    assert_eq!(extract_text(code, 2, 6), "");
    assert_eq!(extract_text(code, 1, 3), "é");
    assert_eq!(extract_text(code, usize::MAX, usize::MAX), "");
    assert_eq!(extract_text("", 0, 0), "");
    assert_eq!(extract_text("", 0, 1), "");
}

#[test]
fn captures_are_found_by_name() {
    let names = strings(&["a", "b", "c"]);
    let captures = vec![capture(1, 0, 1), capture(2, 1, 2), capture(1, 2, 3), capture(7, 3, 4)];
    let map = CaptureMap::new(&names, &captures);
    assert_eq!(map.get_node("b"), Some(capture(1, 0, 1)));
    assert_eq!(map.get_node("c"), Some(capture(2, 1, 2)));
    assert_eq!(map.get_node("a"), None);
    assert_eq!(map.get_node("d"), None);
    assert!(map.has_capture("b"));
    assert!(map.has_capture("c"));
    assert!(!map.has_capture("a"));
    assert!(!map.has_capture(""));
    let none: Vec<Capture> = Vec::new();
    assert!(!CaptureMap::new(&names, &none).has_capture("a"));
}

#[test]
fn a_class_name_wins_over_everything() {
    let code = "Foo bar (a) baz (b) qux (c)";
    let names = script_names();
    // every capture of the cascade at once, the class name last
    let group = vec![
        capture(7, 0, 27),
        capture(6, 24, 27),
        capture(5, 20, 23),
        capture(4, 16, 19),
        capture(3, 12, 15),
        capture(2, 8, 11),
        capture(1, 4, 7),
        capture(0, 0, 3),
    ];
    assert_eq!(create_signature(&names, &group, code), Some("class Foo".to_string()));
    let mut reversed = group.clone();
    reversed.reverse();
    assert_eq!(create_signature(&names, &reversed, code), Some("class Foo".to_string()));
    let map = CaptureMap::new(&names, &group);
    assert!(matches!(detect_signature_type(&map, code), Some(SignatureType::Class(_))));
}

#[test]
fn a_function_wins_over_a_method_and_a_variable() {
    let code = "Foo bar (a) baz (b) qux (c)";
    let names = script_names();
    let group = vec![
        capture(7, 0, 27),
        capture(6, 24, 27),
        capture(5, 20, 23),
        capture(4, 16, 19),
        capture(3, 12, 15),
        capture(2, 8, 11),
        capture(1, 4, 7),
    ];
    assert_eq!(create_signature(&names, &group, code), Some("function bar(a)".to_string()));
}

#[test]
fn a_method_wins_over_a_variable() {
    let code = "Foo bar (a) baz (b) qux (c)";
    let names = script_names();
    let group = vec![
        capture(7, 0, 27),
        capture(6, 24, 27),
        capture(5, 20, 23),
        capture(4, 16, 19),
        capture(3, 12, 15),
        // a function name without parameters does not make a function
        capture(1, 4, 7),
    ];
    assert_eq!(create_signature(&names, &group, code), Some("method baz(b)".to_string()));
}

#[test]
fn the_arrow_marker_tells_the_two_variable_forms_apart() {
    let code = "Foo bar (a) baz (b) qux (c)";
    let names = script_names();
    let arrow = vec![capture(5, 20, 23), capture(7, 0, 27), capture(6, 24, 27), capture(3, 12, 15)];
    assert_eq!(create_signature(&names, &arrow, code), Some("const qux = (c) =>".to_string()));
    let plain = vec![capture(5, 20, 23), capture(6, 24, 27), capture(4, 16, 19)];
    assert_eq!(
        create_signature(&names, &plain, code),
        Some("const qux = function (c)".to_string())
    );
}

#[test]
fn the_order_of_the_captures_does_not_change_the_declaration() {
    let code = "Foo bar (a) baz (b) qux (c)";
    let names = script_names();
    let group = vec![capture(5, 20, 23), capture(6, 24, 27), capture(7, 0, 27), capture(3, 12, 15)];
    let expected = Some("const qux = (c) =>".to_string());
    let orders: [[usize; 4]; 6] =
        [[0, 1, 2, 3], [3, 2, 1, 0], [1, 0, 3, 2], [2, 3, 0, 1], [1, 2, 3, 0], [3, 0, 1, 2]];
    for order in orders {
        let shuffled: Vec<Capture> = order.iter().map(|&i| group[i]).collect();
        assert_eq!(create_signature(&names, &shuffled, code), expected);
    }
    let styles = style_names();
    let rule = vec![capture(5, 24, 29), capture(3, 15, 19), capture(1, 5, 9)];
    let code = "card main body spin --x @page";
    for order in [[0usize, 1, 2], [2, 1, 0], [1, 0, 2], [1, 2, 0]] {
        let shuffled: Vec<Capture> = order.iter().map(|&i| rule[i]).collect();
        assert_eq!(create_css_signature(&styles, &shuffled, code), Some("#main".to_string()));
    }
}

#[test]
fn a_query_program_ends_in_a_line_break() {
    for program in [talos::extractor::js_ts::UNIFIED_QUERY, talos::extractor::css::CSS_QUERY] {
        assert!(program.ends_with('\n'));
    }
    // a name that the grammar does not know, last before the line break
    let result = extract_with_query(
        "class A {}",
        tree_sitter_javascript::language(),
        "(nosuchnode\n",
    );
    match result {
        Err(TalosError::TreeSitter(message)) => {
            assert_eq!(message, "Query error at 1:2. Invalid node type nosuchnode");
        }
        other => panic!("unexpected: {:?}", other),
    }
    let result = talos::extractor::css::extract_with_query(
        ".a {}",
        tree_sitter_css::language(),
        "(class_selector (class_name) @undeclared_field_here: (x))\n",
    );
    assert!(matches!(result, Err(TalosError::TreeSitter(_))));
}

#[test]
fn a_group_that_meets_no_rule_gives_nothing() {
    let code = "Foo bar (a) baz (b) qux (c)";
    let names = script_names();
    assert_eq!(create_signature(&names, &vec![], code), None);
    assert_eq!(create_signature(&names, &vec![capture(1, 4, 7)], code), None);
    assert_eq!(create_signature(&names, &vec![capture(2, 8, 11)], code), None);
    assert_eq!(create_signature(&names, &vec![capture(3, 12, 15), capture(6, 24, 27)], code), None);
    assert_eq!(create_signature(&names, &vec![capture(7, 0, 3)], code), None);
    assert_eq!(create_signature(&names, &vec![capture(99, 0, 3)], code), None);
    let none: Vec<Capture> = Vec::new();
    let map = CaptureMap::new(&names, &none);
    assert!(detect_signature_type(&map, code).is_none());
}

#[test]
fn style_rules_by_precedence() {
    let code = "card main body spin --x @page";
    let names = style_names();
    let all = vec![
        capture(5, 24, 29),
        capture(4, 20, 23),
        capture(3, 15, 19),
        capture(2, 10, 14),
        capture(1, 5, 9),
        capture(0, 0, 4),
    ];
    let expected = [".card", "#main", "body", "@keyframes spin", "--x", "@page"];
    for skip in 0..6 {
        let group: Vec<Capture> = all[..6 - skip].to_vec();
        assert_eq!(
            create_css_signature(&names, &group, code),
            Some(expected[skip].to_string())
        );
    }
    assert_eq!(create_css_signature(&names, &vec![], code), None);
    assert_eq!(create_css_signature(&names, &vec![capture(6, 0, 4)], code), None);
    let map = CaptureMap::new(&names, &all);
    assert!(matches!(detect_css_signature_type(&map, code), Some(CssSignatureType::Class(_))));
}

#[test]
fn captured_text_is_trimmed_and_bad_ranges_are_empty() {
    let code = "  Foo  ";
    let names = script_names();
    assert_eq!(create_signature(&names, &vec![capture(0, 0, 7)], code), Some("class Foo".to_string()));
    assert_eq!(create_signature(&names, &vec![capture(0, 3, 100)], code), Some("class ".to_string()));
    assert_eq!(create_signature(&names, &vec![capture(0, 5, 2)], code), Some("class ".to_string()));
}

#[test]
fn signatures_of_matches_are_sorted_and_unique() {
    let code = "Foo bar (a) Foo";
    let names = script_names();
    let groups = vec![
        vec![capture(1, 4, 7), capture(2, 8, 11)],
        vec![capture(0, 12, 15)],
        vec![capture(2, 8, 11)],
        vec![capture(0, 0, 3)],
        vec![capture(1, 4, 7), capture(2, 8, 11)],
    ];
    let expected = strings(&["class Foo", "function bar(a)"]);
    assert_eq!(signatures_from_matches(&names, &groups, code), expected);
    let mut reversed = groups.clone();
    reversed.reverse();
    assert_eq!(signatures_from_matches(&names, &reversed, code), expected);
    assert_eq!(signatures_from_matches(&names, &vec![], code), Vec::<String>::new());
}

#[test]
fn style_signatures_of_matches_are_sorted_and_unique() {
    let code = "card main card";
    let names = style_names();
    let groups = vec![
        vec![capture(1, 5, 9)],
        vec![capture(0, 10, 14)],
        vec![capture(0, 0, 4)],
        vec![],
    ];
    assert_eq!(
        css_signatures_from_matches(&names, &groups, code),
        strings(&["#main", ".card"])
    );
}
