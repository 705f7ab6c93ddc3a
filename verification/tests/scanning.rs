use talos::error::TalosError;
use talos::extractor::{Grammars, SupportedLang};
use talos::globs::{build_exclude_globset, build_globsets, build_include_globset, PathFilter};
use talos::model::{DirectoryEntry, Document, ErrorEntry};
use talos::scanner::{
    build_report, extract_source, format_timestamp, is_allowed_file, is_eligible,
    matches_allowed_ext, scan_at, scan_project, Scan, ScanOptions, SourceFile,
};
use talos::types::{Extensions, GlobPatterns, MaxFileSize};

fn patterns(items: &[&str]) -> GlobPatterns {
    GlobPatterns::new(items.iter().map(|s| s.to_string()).collect())
}

fn options() -> ScanOptions {
    ScanOptions {
        allowed_exts: Extensions::default(),
        include_globs: GlobPatterns::empty(),
        exclude_globs: GlobPatterns::empty(),
        max_file_size: None,
        terse_output: false,
    }
}

fn file(path: &str, text: &str) -> SourceFile {
    SourceFile { path: path.to_string(), size: Some(text.len() as u64), content: Ok(text.to_string()) }
}

fn scan(files: &Vec<SourceFile>, opts: &ScanOptions) -> (Document, Vec<ErrorEntry>) {
    scan_at("/proj", files, opts, "2024-01-02T03:04:05Z".to_string()).unwrap()
}

fn shape(directories: &Vec<DirectoryEntry>) -> Vec<(String, Vec<(String, Vec<String>)>)> {
    directories
        .iter()
        .map(|d| {
            (
                d.directory_path.clone(),
                d.files
                    .iter()
                    .map(|f| (f.relative_file_path.clone(), f.signatures.clone()))
                    .collect(),
            )
        })
        .collect()
}

fn error_shape(errors: &Vec<ErrorEntry>) -> Vec<(String, String)> {
    errors.iter().map(|e| (e.path.clone(), e.error.clone())).collect()
}

fn project() -> Vec<SourceFile> {
    vec![
        file("/proj/src/b.js", "function b() {}"),
        file("/proj/z.css", ".z {}"),
        file("/proj/src/a.ts", "class A {}\nclass A {}"),
        file("/proj/lib/deep/x.tsx", "const X = (p) => p;"),
        file("/proj/src/empty.js", ""),
        file("/proj/README.md", "# Title"),
        file("/proj/a.js", "const f = function (x) {};"),
    ]
}

#[test]
fn files_are_grouped_by_directory_and_everything_is_sorted() {
    let (doc, errors) = scan(&project(), &options());
    assert!(errors.is_empty());
    assert!(doc.errors.is_empty());
    assert_eq!(doc.schema_version, "1.0");
    assert_eq!(doc.last_updated, "2024-01-02T03:04:05Z");
    let s = |t: &str| t.to_string();
    assert_eq!(
        shape(&doc.directories),
        vec![
            (
                s("."),
                vec![
                    (s("a.js"), vec![s("const f = function (x)")]),
                    (s("z.css"), vec![s(".z")]),
                ]
            ),
            (s("lib/deep"), vec![(s("lib/deep/x.tsx"), vec![s("const X = (p) =>")])]),
            (
                s("src"),
                vec![
                    (s("src/a.ts"), vec![s("class A")]),
                    (s("src/b.js"), vec![s("function b()")]),
                    (s("src/empty.js"), vec![]),
                ]
            ),
        ]
    );
    let first = &doc.directories[0].files[0];
    assert_eq!(first.file_name, "a.js");
    assert_eq!(first.relative_file_path, "a.js");
    assert_eq!(first.last_scanned, "2024-01-02T03:04:05Z");
    assert_eq!(first.summary, None);
    assert_eq!(doc.directories[1].files[0].file_name, "x.tsx");
}

#[test]
fn an_empty_file_is_listed_unless_the_scan_is_terse() {
    let files = vec![SourceFile { path: "/proj/src/empty.js".to_string(), size: Some(0), content: Ok(String::new()) }];
    let (doc, errors) = scan(&files, &options());
    assert!(errors.is_empty());
    assert_eq!(
        shape(&doc.directories),
        vec![("src".to_string(), vec![("src/empty.js".to_string(), Vec::<String>::new())])]
    );

    let mut terse = options();
    terse.terse_output = true;
    let (doc, errors) = scan(&files, &terse);
    assert!(errors.is_empty());
    assert!(doc.directories.is_empty());
}

#[test]
fn a_file_over_the_size_limit_is_neither_listed_nor_an_error() {
    let text = "function big() {}";
    let files = vec![
        SourceFile { path: "/proj/big.js".to_string(), size: Some(101), content: Ok(text.to_string()) },
        SourceFile { path: "/proj/edge.js".to_string(), size: Some(100), content: Ok(text.to_string()) },
        SourceFile { path: "/proj/unknown.js".to_string(), size: None, content: Ok(text.to_string()) },
        SourceFile { path: "/proj/unread.js".to_string(), size: Some(5000), content: Err("denied".to_string()) },
    ];
    let mut opts = options();
    opts.max_file_size = Some(MaxFileSize::new(100));
    let (doc, errors) = scan(&files, &opts);
    assert!(errors.is_empty());
    let listed: Vec<String> = doc.directories[0].files.iter().map(|f| f.relative_file_path.clone()).collect();
    assert_eq!(doc.directories.len(), 1);
    assert_eq!(listed, vec!["edge.js", "unknown.js"]);

    let (doc, errors) = scan(&files, &options());
    assert_eq!(doc.directories[0].files.len(), 3);
    assert_eq!(error_shape(&errors), vec![("unread.js".to_string(), "IO error: denied".to_string())]);
}

#[test]
fn leaving_out_wins_over_taking_in() {
    let files = vec![
        file("src/a.js", "class A {}"),
        file("src/gen/b.js", "class B {}"),
        file("lib/c.js", "class C {}"),
        SourceFile { path: "src/gen/broken.js".to_string(), size: None, content: Err("gone".to_string()) },
    ];
    let mut opts = options();
    opts.include_globs = patterns(&["src/**"]);
    opts.exclude_globs = patterns(&["src/gen/**"]);
    let (doc, errors) = scan_at("", &files, &opts, "t".to_string()).unwrap();
    assert!(errors.is_empty());
    assert_eq!(
        shape(&doc.directories),
        vec![("src".to_string(), vec![("src/a.js".to_string(), vec!["class A".to_string()])])]
    );

    // the same pattern on both sides: nothing is left
    opts.include_globs = patterns(&["**/*.js"]);
    opts.exclude_globs = patterns(&["**/*.js"]);
    let (doc, errors) = scan_at("", &files, &opts, "t".to_string()).unwrap();
    assert!(doc.directories.is_empty());
    assert!(errors.is_empty());
}

#[test]
fn the_default_patterns_hold_under_any_root() {
    let files = vec![
        file("/home/me/proj/node_modules/m.js", "class N {}"),
        file("/home/me/proj/dist/d.js", "class D {}"),
        file("/home/me/proj/coverage/c.js", "class V {}"),
        file("/home/me/proj/.git/hooks/h.js", "class G {}"),
        SourceFile {
            path: "/home/me/proj/node_modules/broken.js".to_string(),
            size: None,
            content: Err("gone".to_string()),
        },
        file("/home/me/proj/src/a.js", "class A {}"),
    ];
    let (doc, errors) =
        scan_at("/home/me/proj", &files, &options(), "t".to_string()).unwrap();
    assert!(errors.is_empty());
    assert_eq!(
        shape(&doc.directories),
        vec![("src".to_string(), vec![("src/a.js".to_string(), vec!["class A".to_string()])])]
    );
    // a root that itself lies under such a directory does not hide its files
    let inside = vec![file("/home/me/node_modules/pkg/src/a.js", "class A {}")];
    let (doc, _) =
        scan_at("/home/me/node_modules/pkg", &inside, &options(), "t".to_string()).unwrap();
    assert_eq!(doc.directories.len(), 1);
    assert_eq!(doc.directories[0].directory_path, "src");
}

#[test]
fn patterns_are_read_from_the_root() {
    let files = vec![
        file("/proj/src/a.js", "class A {}"),
        file("/proj/src/gen/b.js", "class B {}"),
        file("/proj/lib/c.js", "class C {}"),
        SourceFile { path: "/proj/src/gen/broken.js".to_string(), size: None, content: Err("gone".to_string()) },
    ];
    let mut opts = options();
    opts.include_globs = patterns(&["src/**"]);
    opts.exclude_globs = patterns(&["src/gen/**"]);
    let (doc, errors) = scan(&files, &opts);
    assert!(errors.is_empty());
    assert_eq!(
        shape(&doc.directories),
        vec![("src".to_string(), vec![("src/a.js".to_string(), vec!["class A".to_string()])])]
    );
    // a pattern that spells out the root matches nothing
    opts.include_globs = patterns(&["/proj/src/**"]);
    opts.exclude_globs = GlobPatterns::empty();
    let (doc, errors) = scan(&files, &opts);
    assert!(doc.directories.is_empty());
    assert!(errors.is_empty());
}

#[test]
fn the_default_patterns_leave_out_dependencies_and_build_output() {
    let files = vec![
        file("node_modules/pkg/index.js", "class N {}"),
        file("dist/out.js", "class D {}"),
        file(".git/hooks/x.js", "class G {}"),
        file("coverage/lcov.js", "class V {}"),
        file("src/node_modules.js", "class S {}"),
        file("distant/a.js", "class T {}"),
    ];
    let (doc, errors) = scan_at("", &files, &options(), "t".to_string()).unwrap();
    assert!(errors.is_empty());
    let listed: Vec<String> = doc.directories.iter().map(|d| d.directory_path.clone()).collect();
    assert_eq!(listed, vec!["distant", "src"]);
}

#[test]
fn take_in_patterns_narrow_the_scan() {
    let mut opts = options();
    opts.include_globs = patterns(&["", "   ", "**/src/*.js"]);
    let (doc, _) = scan(&project(), &opts);
    assert_eq!(doc.directories.len(), 1);
    assert_eq!(doc.directories[0].directory_path, "src");
    let listed: Vec<String> = doc.directories[0].files.iter().map(|f| f.file_name.clone()).collect();
    assert_eq!(listed, vec!["b.js", "empty.js"]);

    // patterns that are all blank take nothing in
    opts.include_globs = patterns(&["", "  "]);
    let (doc, errors) = scan(&project(), &opts);
    assert!(doc.directories.is_empty());
    assert!(errors.is_empty());
}

#[test]
fn a_terse_scan_lists_a_part_of_the_full_scan() {
    let mut files = project();
    files.push(file("/proj/only/empty.css", ""));
    files.push(SourceFile { path: "/proj/src/bad.js".to_string(), size: None, content: Err("x".to_string()) });
    let full = scan(&files, &options());
    let mut opts = options();
    opts.terse_output = true;
    let terse = scan(&files, &opts);

    let pairs = |doc: &Document| -> Vec<(String, String, Vec<String>)> {
        doc.directories
            .iter()
            .flat_map(|d| {
                d.files.iter().map(move |f| {
                    (d.directory_path.clone(), f.relative_file_path.clone(), f.signatures.clone())
                })
            })
            .collect()
    };
    let full_pairs = pairs(&full.0);
    let terse_pairs = pairs(&terse.0);
    assert!(terse_pairs.len() < full_pairs.len());
    for pair in &terse_pairs {
        assert!(full_pairs.contains(pair));
        assert!(!pair.2.is_empty());
    }
    for pair in &full_pairs {
        if !terse_pairs.contains(pair) {
            assert!(pair.2.is_empty());
        }
    }
    assert_eq!(error_shape(&full.1), error_shape(&terse.1));
    assert_eq!(error_shape(&full.1), vec![("src/bad.js".to_string(), "IO error: x".to_string())]);
    let dirs: Vec<String> = terse.0.directories.iter().map(|d| d.directory_path.clone()).collect();
    assert_eq!(dirs, vec![".", "lib/deep", "src"]);
    let dirs: Vec<String> = full.0.directories.iter().map(|d| d.directory_path.clone()).collect();
    assert_eq!(dirs, vec![".", "lib/deep", "only", "src"]);
}

#[test]
fn scanning_twice_gives_the_same_report() {
    let mut files = project();
    files.push(SourceFile { path: "/proj/src/bad.js".to_string(), size: None, content: Err("x".to_string()) });
    let first = scan_at("/proj", &files, &options(), "first".to_string()).unwrap();
    let second = scan_at("/proj", &files, &options(), "second".to_string()).unwrap();
    assert_eq!(shape(&first.0.directories), shape(&second.0.directories));
    assert_eq!(error_shape(&first.1), error_shape(&second.1));
    assert_eq!(first.0.schema_version, second.0.schema_version);

    let mut shuffled = Vec::new();
    for f in files.iter().rev() {
        shuffled.push(SourceFile { path: f.path.clone(), size: f.size, content: f.content.clone() });
    }
    let third = scan_at("/proj", &shuffled, &options(), "third".to_string()).unwrap();
    assert_eq!(shape(&first.0.directories), shape(&third.0.directories));
    assert_eq!(error_shape(&first.1), error_shape(&third.1));
}

#[test]
fn a_failing_file_does_not_stop_the_others() {
    let files = vec![
        file("/proj/a/ok.js", "class A {}"),
        SourceFile { path: "/proj/a/bad.js".to_string(), size: None, content: Err("permission denied".to_string()) },
        SourceFile { path: "/proj/0/bad.css".to_string(), size: None, content: Err("not utf-8".to_string()) },
        file("/proj/b/ok.css", "p {}"),
        SourceFile { path: "/proj/b/notes.txt".to_string(), size: None, content: Err("skipped".to_string()) },
    ];
    let (doc, errors) = scan(&files, &options());
    assert_eq!(
        shape(&doc.directories),
        vec![
            ("a".to_string(), vec![("a/ok.js".to_string(), vec!["class A".to_string()])]),
            ("b".to_string(), vec![("b/ok.css".to_string(), vec!["p".to_string()])]),
        ]
    );
    assert_eq!(
        error_shape(&errors),
        vec![
            ("0/bad.css".to_string(), "IO error: not utf-8".to_string()),
            ("a/bad.js".to_string(), "IO error: permission denied".to_string()),
        ]
    );
}

#[test]
fn an_allowed_extension_without_a_grammar_is_skipped() {
    let mut opts = options();
    opts.allowed_exts = Extensions::from_str("py,js").unwrap();
    let files = vec![
        file("/proj/a.py", "def f(): pass"),
        SourceFile { path: "/proj/b.py".to_string(), size: None, content: Err("unreadable".to_string()) },
        file("/proj/c.js", "class C {}"),
        file("/proj/d.css", ".d {}"),
    ];
    let (doc, errors) = scan(&files, &opts);
    assert!(errors.is_empty());
    assert_eq!(
        shape(&doc.directories),
        vec![(".".to_string(), vec![("c.js".to_string(), vec!["class C".to_string()])])]
    );

    // nothing but files without a grammar: nothing is listed, nothing fails
    opts.allowed_exts = Extensions::from_str("py").unwrap();
    let only = vec![file("/proj/a.py", "def f(): pass")];
    let (doc, errors) = scan(&only, &opts);
    assert!(doc.directories.is_empty());
    assert!(errors.is_empty());
    let filter = PathFilter::build(&GlobPatterns::empty(), &GlobPatterns::empty()).unwrap();
    assert!(!is_eligible(&only[0], "/proj", &opts, &filter));
    opts.terse_output = true;
    let (doc, errors) = scan(&files, &opts);
    assert!(doc.directories.is_empty());
    assert!(errors.is_empty());
}

#[test]
fn a_pattern_that_does_not_parse_ends_the_scan() {
    let mut opts = options();
    opts.include_globs = patterns(&["*.js", "[", "{"]);
    match scan_at("/proj", &project(), &opts, "t".to_string()) {
        Err(TalosError::ScanError(message)) => assert_eq!(
            message,
            "Invalid include glob '[': error parsing glob '[': unclosed character class; missing ']'"
        ),
        other => panic!("unexpected: {:?}", other.map(|_| ())),
    }
    let mut opts = options();
    opts.exclude_globs = patterns(&["a{b"]);
    match scan_project("/proj", &project(), &opts) {
        Err(TalosError::ScanError(message)) => assert_eq!(
            message,
            "Invalid exclude glob 'a{b': error parsing glob 'a{b': unclosed alternate group; missing '}' (maybe escape '{' with '[{]'?)"
        ),
        other => panic!("unexpected: {:?}", other.map(|_| ())),
    }
    // the take-in patterns are looked at first
    opts.include_globs = patterns(&["["]);
    match scan_at("/proj", &project(), &opts, "t".to_string()) {
        Err(TalosError::ScanError(message)) => assert!(message.starts_with("Invalid include glob '['")),
        other => panic!("unexpected: {:?}", other.map(|_| ())),
    }
}

#[test]
fn a_scan_takes_the_time_once() {
    let (doc, errors) = scan_project("/proj", &project(), &options()).unwrap();
    assert!(errors.is_empty());
    let ts = doc.last_updated.clone();
    assert!(ts.len() >= 20);
    assert_eq!(&ts[4..5], "-");
    assert_eq!(&ts[10..11], "T");
    assert!(ts.ends_with('Z'));
    for directory in &doc.directories {
        for f in &directory.files {
            assert_eq!(f.last_scanned, ts);
        }
    }
    assert_eq!(doc.directories.len(), 3);
    let now = format_timestamp().unwrap();
    assert!(now.len() >= 20);
    assert_eq!(&now[..4], &ts[..4]);
    assert!(now.ends_with('Z'));
}

#[test]
fn no_files_no_directories() {
    let (doc, errors) = scan(&Vec::new(), &options());
    assert!(doc.directories.is_empty());
    assert!(errors.is_empty());
    assert_eq!(doc.schema_version, "1.0");
}

#[test]
fn files_outside_the_root_keep_their_paths() {
    let files = vec![file("/other/x.js", "class X {}"), file("y.js", "class Y {}")];
    let (doc, _) = scan(&files, &options());
    assert_eq!(
        shape(&doc.directories),
        vec![
            ("".to_string(), vec![("y.js".to_string(), vec!["class Y".to_string()])]),
            ("/other".to_string(), vec![("/other/x.js".to_string(), vec!["class X".to_string()])]),
        ]
    );
}

#[test]
fn the_same_path_twice_is_listed_twice() {
    let files = vec![file("/proj/a.js", "class A {}"), file("/proj/a.js", "class B {}")];
    let (doc, _) = scan(&files, &options());
    assert_eq!(
        shape(&doc.directories),
        vec![(
            ".".to_string(),
            vec![
                ("a.js".to_string(), vec!["class A".to_string()]),
                ("a.js".to_string(), vec!["class B".to_string()]),
            ]
        )]
    );
}

#[test]
fn allowed_by_extension() {
    let extensions = Extensions::default();
    assert!(matches_allowed_ext("a.js", &extensions));
    assert!(matches_allowed_ext("/x/y/a.TSX", &extensions));
    assert!(matches_allowed_ext("a.min.css", &extensions));
    assert!(!matches_allowed_ext("a.rs", &extensions));
    assert!(!matches_allowed_ext("js", &extensions));
    assert!(!matches_allowed_ext(".js", &extensions));
    assert!(!matches_allowed_ext("", &extensions));
    let custom = Extensions::from_str("md").unwrap();
    assert!(matches_allowed_ext("README.MD", &custom));
    assert!(!matches_allowed_ext("a.js", &custom));
}

#[test]
fn allowed_by_extension_and_size() {
    let extensions = Extensions::default();
    let limit = MaxFileSize::new(10);
    assert!(is_allowed_file("a.js", &extensions, None, None));
    assert!(is_allowed_file("a.js", &extensions, None, Some(u64::MAX)));
    assert!(is_allowed_file("a.js", &extensions, Some(&limit), None));
    assert!(is_allowed_file("a.js", &extensions, Some(&limit), Some(10)));
    assert!(!is_allowed_file("a.js", &extensions, Some(&limit), Some(11)));
    assert!(!is_allowed_file("a.rs", &extensions, Some(&limit), Some(1)));
    assert!(!is_allowed_file("a.rs", &extensions, None, None));
}

#[test]
fn the_glob_sets() {
    assert!(build_include_globset(&GlobPatterns::empty()).unwrap().is_none());
    let set = build_include_globset(&patterns(&["*.js", " ", "src/**"])).unwrap().unwrap();
    assert_eq!(set.len(), 2);
    assert!(set.is_match("a.js"));
    assert!(set.is_match("src/a.css"));
    assert!(!set.is_match("lib/a.css"));
    let blank = build_include_globset(&patterns(&[" "])).unwrap().unwrap();
    assert_eq!(blank.len(), 0);

    let set = build_exclude_globset(&GlobPatterns::empty()).unwrap();
    assert_eq!(set.len(), 4);
    assert!(set.is_match("node_modules/a/b.js"));
    assert!(set.is_match("dist/x"));
    assert!(set.is_match(".git/config"));
    assert!(set.is_match("coverage/index.html"));
    assert!(!set.is_match("src/a.js"));
    let set = build_exclude_globset(&patterns(&["", "*.min.js"])).unwrap();
    assert_eq!(set.len(), 5);
    assert!(set.is_match("a.min.js"));

    match build_exclude_globset(&patterns(&["ok", "[z-a]"])) {
        Err(TalosError::ScanError(message)) => assert_eq!(
            message,
            "Invalid exclude glob '[z-a]': error parsing glob '[z-a]': invalid range; 'z' > 'a'"
        ),
        other => panic!("unexpected: {:?}", other.map(|_| ())),
    }
    let (inc, exc) = build_globsets(&patterns(&["*.ts"]), &patterns(&["*.d.ts"])).unwrap();
    assert_eq!(inc.unwrap().len(), 1);
    assert_eq!(exc.len(), 5);
    assert!(build_globsets(&patterns(&["["]), &patterns(&["["])).is_err());
}

#[test]
fn the_path_filter() {
    let filter = PathFilter::build(&patterns(&["*.ts"]), &patterns(&["*.d.ts"])).unwrap();
    assert!(filter.included("a.ts"));
    assert!(filter.included("src/a.ts"));
    assert!(!filter.included("a.d.ts"));
    assert!(!filter.included("a.js"));
    assert!(!filter.included("dist/a.ts"));
    assert!(!filter.included(""));
    let open = PathFilter::build(&GlobPatterns::empty(), &patterns(&["*.d.ts"])).unwrap();
    assert!(open.included("a.js"));
    assert!(open.included(""));
    assert!(!open.included("a.d.ts"));
    assert!(!open.included("node_modules/a.js"));
    match PathFilter::build(&patterns(&["["]), &patterns(&["{"])) {
        Err(TalosError::ScanError(message)) => {
            assert!(message.starts_with("Invalid include glob '['"))
        }
        _ => panic!("a filter was built"),
    }
    match PathFilter::build(&GlobPatterns::empty(), &patterns(&["{"])) {
        Err(TalosError::ScanError(message)) => {
            assert!(message.starts_with("Invalid exclude glob '{'"))
        }
        _ => panic!("a filter was built"),
    }
}

#[test]
fn eligibility_of_one_file() {
    let mut opts = options();
    opts.max_file_size = Some(MaxFileSize::new(5));
    let filter = PathFilter::build(&patterns(&["src/**"]), &patterns(&["**/*.gen.js"])).unwrap();
    let open = PathFilter::build(&GlobPatterns::empty(), &patterns(&["**/*.gen.js"])).unwrap();
    let candidate = |path: &str, size: Option<u64>| SourceFile {
        path: path.to_string(),
        size,
        content: Err(String::new()),
    };
    assert!(is_eligible(&candidate("src/a.js", Some(5)), "", &opts, &filter));
    assert!(is_eligible(&candidate("src/a.js", None), "", &opts, &filter));
    assert!(!is_eligible(&candidate("src/a.js", Some(6)), "", &opts, &filter));
    assert!(!is_eligible(&candidate("src/a.gen.js", Some(1)), "", &opts, &filter));
    assert!(!is_eligible(&candidate("lib/a.js", Some(1)), "", &opts, &filter));
    assert!(!is_eligible(&candidate("src/a.rs", Some(1)), "", &opts, &filter));
    assert!(is_eligible(&candidate("lib/a.js", Some(1)), "", &opts, &open));
    assert!(is_eligible(&candidate("/proj/src/a.js", Some(5)), "/proj", &opts, &filter));
    assert!(!is_eligible(&candidate("/proj/src/a.js", Some(5)), "/other", &opts, &filter));
    assert!(!is_eligible(&candidate("/proj/lib/a.js", Some(5)), "/proj", &opts, &filter));
    assert!(!is_eligible(&candidate("/proj/node_modules/a.js", Some(5)), "/proj", &opts, &open));
    assert!(is_eligible(&candidate("/proj/node_modules/a.js", Some(5)), "/", &opts, &open));
    opts.allowed_exts = Extensions::from_str("js,md").unwrap();
    assert!(is_eligible(&candidate("/proj/a.js", None), "/proj", &opts, &open));
    assert!(!is_eligible(&candidate("/proj/a.md", None), "/proj", &opts, &open));
}

#[test]
fn what_one_file_gives() {
    let grammars = Grammars::load().unwrap();
    assert_eq!(extract_source(&file("a.js", "class A {}"), &grammars).unwrap(), vec!["class A"]);
    assert_eq!(
        extract_source(&file("a.txt", "class A {}"), &grammars).unwrap(),
        Vec::<String>::new()
    );
    let unread = SourceFile { path: "a.js".to_string(), size: None, content: Err("no".to_string()) };
    match extract_source(&unread, &grammars) {
        Err(TalosError::Io(message)) => assert_eq!(message, "no"),
        other => panic!("unexpected: {:?}", other),
    }
    let unread = SourceFile { path: "a.txt".to_string(), size: None, content: Err("no".to_string()) };
    assert_eq!(extract_source(&unread, &grammars).unwrap(), Vec::<String>::new());
}

#[test]
fn the_report_with_the_filter_already_built() {
    let filter = PathFilter::build(&GlobPatterns::empty(), &patterns(&["**/b.js"])).unwrap();
    let files = vec![file("/proj/b.js", "class B {}"), file("/proj/a.js", "class A {}")];
    let grammars = Grammars::load().unwrap();
    let (directories, errors) =
        build_report("/proj", &files, &options(), &filter, &grammars, "now");
    assert!(errors.is_empty());
    assert_eq!(
        shape(&directories),
        vec![(".".to_string(), vec![("a.js".to_string(), vec!["class A".to_string()])])]
    );
    assert_eq!(directories[0].files[0].last_scanned, "now");
}

#[test]
fn the_registry_of_grammars() {
    let grammars = Grammars::load().unwrap();
    let script = "class A { m(x) {} }\nfunction f(a) {}";
    let expected = vec!["class A", "function f(a)", "method m(x)"];
    assert_eq!(grammars.extract(script, SupportedLang::JavaScript).unwrap(), expected);
    assert_eq!(grammars.extract(script, SupportedLang::TypeScript).unwrap(), expected);
    assert_eq!(grammars.extract(script, SupportedLang::TypeScriptReact).unwrap(), expected);
    assert_eq!(
        grammars.extract(".a {} #b {}", SupportedLang::CSS).unwrap(),
        vec!["#b", ".a"]
    );
    // one registry serves any number of sources
    assert_eq!(grammars.extract("", SupportedLang::CSS).unwrap(), Vec::<String>::new());
    assert_eq!(grammars.extract(script, SupportedLang::JavaScript).unwrap(), expected);
}

#[test]
fn the_errors_of_a_scan_are_merged_into_the_document() {
    let files = vec![
        file("/proj/a.js", "class A {}"),
        SourceFile { path: "/proj/b.js".to_string(), size: None, content: Err("x".to_string()) },
        SourceFile { path: "/proj/c.js".to_string(), size: None, content: Err("y".to_string()) },
    ];
    let (mut doc, mut errors) = scan(&files, &options());
    assert!(doc.errors.is_empty());
    assert_eq!(errors.len(), 2);
    doc.merge_errors(&mut errors);
    assert!(errors.is_empty());
    assert_eq!(
        error_shape(&doc.errors),
        vec![
            ("b.js".to_string(), "IO error: x".to_string()),
            ("c.js".to_string(), "IO error: y".to_string()),
        ]
    );
    assert_eq!(doc.directories.len(), 1);
    let mut more = vec![ErrorEntry { path: "d".to_string(), error: "z".to_string() }];
    doc.merge_errors(&mut more);
    assert_eq!(doc.errors.len(), 3);
    assert_eq!(doc.errors[2].path, "d");
    let mut none: Vec<ErrorEntry> = Vec::new();
    doc.merge_errors(&mut none);
    assert_eq!(doc.errors.len(), 3);
}

#[test]
fn many_files_come_out_in_order() {
    let mut files = Vec::new();
    for i in 0..200 {
        let dir = (i * 37) % 11;
        let name = (i * 53) % 200;
        files.push(file(&format!("/proj/d{:02}/f{:03}.js", dir, name), "class A {}"));
    }
    let (doc, errors) = scan(&files, &options());
    assert!(errors.is_empty());
    assert_eq!(doc.directories.len(), 11);
    let mut count = 0;
    for pair in doc.directories.windows(2) {
        assert!(pair[0].directory_path.as_bytes() < pair[1].directory_path.as_bytes());
    }
    for directory in &doc.directories {
        assert!(!directory.files.is_empty());
        count += directory.files.len();
        for pair in directory.files.windows(2) {
            assert!(pair[0].relative_file_path.as_bytes() <= pair[1].relative_file_path.as_bytes());
        }
        for f in &directory.files {
            assert!(f.relative_file_path.starts_with(&directory.directory_path));
        }
    }
    assert_eq!(count, 200);
}

fn has_the_shape_of_a_utc_timestamp(ts: &str) -> bool {
    let c: Vec<char> = ts.chars().collect();
    let digits = |from: usize, to: usize| c[from..to].iter().all(|d| d.is_ascii_digit());
    (c.len() == 20 || (22..=30).contains(&c.len()))
        && digits(0, 4)
        && c[4] == '-'
        && digits(5, 7)
        && c[7] == '-'
        && digits(8, 10)
        && c[10] == 'T'
        && digits(11, 13)
        && c[13] == ':'
        && digits(14, 16)
        && c[16] == ':'
        && digits(17, 19)
        && (c.len() == 20 || (c[19] == '.' && digits(20, c.len() - 1)))
        && c[c.len() - 1] == 'Z'
}

#[test]
fn the_time_is_written_as_rfc_3339_in_utc() {
    for _ in 0..50 {
        let ts = format_timestamp().unwrap();
        assert!(has_the_shape_of_a_utc_timestamp(&ts), "{}", ts);
    }
    let (doc, _) = scan_project("/proj", &project(), &options()).unwrap();
    assert!(has_the_shape_of_a_utc_timestamp(&doc.last_updated), "{}", doc.last_updated);
    assert!(has_the_shape_of_a_utc_timestamp("2024-01-02T03:04:05Z"));
    assert!(has_the_shape_of_a_utc_timestamp("2024-01-02T03:04:05.123456789Z"));
    assert!(!has_the_shape_of_a_utc_timestamp("2024-01-02T03:04:05.Z"));
    assert!(!has_the_shape_of_a_utc_timestamp("2024-01-02 03:04:05Z"));
}

#[test]
fn a_scan_is_set_up_asked_and_finished() {
    let mut opts = options();
    opts.exclude_globs = patterns(&["gen/**"]);
    opts.max_file_size = Some(MaxFileSize::new(100));
    let scan = Scan::begin_at(&opts, "then".to_string()).unwrap();
    let found = vec![
        file("/proj/a.js", "class A {}"),
        file("/proj/gen/b.js", "class B {}"),
        file("/proj/c.txt", "class C {}"),
        SourceFile { path: "/proj/d.js".to_string(), size: Some(101), content: Ok(String::new()) },
        SourceFile { path: "/proj/e.css".to_string(), size: None, content: Err("locked".to_string()) },
    ];
    let asked: Vec<bool> = found.iter().map(|f| scan.takes(f, "/proj")).collect();
    assert_eq!(asked, vec![true, false, false, false, true]);
    let (doc, errors) = scan.finish("/proj", &found);
    assert_eq!(doc.schema_version, "1.0");
    assert_eq!(doc.last_updated, "then");
    assert!(doc.errors.is_empty());
    assert_eq!(
        shape(&doc.directories),
        vec![(".".to_string(), vec![("a.js".to_string(), vec!["class A".to_string()])])]
    );
    assert_eq!(error_shape(&errors), vec![("e.css".to_string(), "IO error: locked".to_string())]);

    // the same through the two functions that do it in one step
    let (again, again_errors) = scan_at("/proj", &found, &opts, "then".to_string()).unwrap();
    assert_eq!(shape(&again.directories), shape(&doc.directories));
    assert_eq!(error_shape(&again_errors), error_shape(&errors));

    let now = Scan::begin(&opts).unwrap();
    let (doc, _) = now.finish("/proj", &found);
    assert!(has_the_shape_of_a_utc_timestamp(&doc.last_updated));

    opts.include_globs = patterns(&["["]);
    assert!(Scan::begin(&opts).is_err());
    match Scan::begin_at(&opts, "t".to_string()) {
        Err(TalosError::ScanError(message)) => {
            assert!(message.starts_with("Invalid include glob '['"))
        }
        _ => panic!("a scan was set up"),
    }
}

#[test]
fn paths_that_occur_once_are_listed_once_in_strict_order() {
    let mut files = project();
    files.push(file("/proj/src/aa.ts", "class AA {}"));
    let (doc, _) = scan(&files, &options());
    let mut seen: Vec<String> = Vec::new();
    for directory in &doc.directories {
        for pair in directory.files.windows(2) {
            assert!(pair[0].relative_file_path.as_bytes() < pair[1].relative_file_path.as_bytes());
        }
        for f in &directory.files {
            assert!(!seen.contains(&f.relative_file_path));
            seen.push(f.relative_file_path.clone());
        }
    }
    assert_eq!(seen.len(), 7);
}

#[test]
fn a_failing_file_changes_nothing_but_the_errors() {
    let mut files = project();
    let (plain, plain_errors) = scan(&files, &options());
    files.insert(2, SourceFile { path: "/proj/src/bad.js".to_string(), size: None, content: Err("x".to_string()) });
    let (with, with_errors) = scan(&files, &options());
    assert_eq!(shape(&with.directories), shape(&plain.directories));
    assert!(plain_errors.is_empty());
    assert_eq!(error_shape(&with_errors), vec![("src/bad.js".to_string(), "IO error: x".to_string())]);
}

#[test]
fn a_terse_scan_lists_a_part_of_a_full_scan_at_another_time() {
    let mut files = project();
    files.push(file("/proj/only/empty.css", ""));
    let mut terse_opts = options();
    terse_opts.terse_output = true;
    let (terse, terse_errors) = scan_at("/proj", &files, &terse_opts, "early".to_string()).unwrap();
    let (full, full_errors) = scan_at("/proj", &files, &options(), "late".to_string()).unwrap();
    let untimed = |doc: &Document| -> Vec<(String, String, String, Vec<String>)> {
        doc.directories
            .iter()
            .flat_map(|d| {
                d.files.iter().map(move |f| {
                    (
                        d.directory_path.clone(),
                        f.file_name.clone(),
                        f.relative_file_path.clone(),
                        f.signatures.clone(),
                    )
                })
            })
            .collect()
    };
    let terse_files = untimed(&terse);
    let full_files = untimed(&full);
    for f in &terse_files {
        assert!(full_files.contains(f));
    }
    for f in &full_files {
        assert!(terse_files.contains(f) || f.3.is_empty());
    }
    assert_eq!(full_files.len(), terse_files.len() + 2);
    assert_eq!(error_shape(&terse_errors), error_shape(&full_errors));
    assert!(terse.directories.iter().all(|d| d.files.iter().all(|f| f.last_scanned == "early")));
    assert!(full.directories.iter().all(|d| d.files.iter().all(|f| f.last_scanned == "late")));
}
