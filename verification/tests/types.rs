use talos::error::TalosError;
use talos::types::{Extensions, GlobPatterns, MaxFileSize, OutputPath};

fn listed(extensions: &Extensions) -> Vec<String> {
    extensions.iter().cloned().collect()
}

#[test]
fn the_default_extensions() {
    let extensions = Extensions::default();
    assert_eq!(listed(&extensions), vec!["js", "jsx", "ts", "tsx", "css"]);
    for ext in ["js", "jsx", "ts", "tsx", "css", "JS", "Tsx", "CSS"] {
        assert!(extensions.contains(ext));
    }
    for ext in ["", "rs", ".js", "js ", "scss"] {
        assert!(!extensions.contains(ext));
    }
}

#[test]
fn extensions_from_a_list() {
    let extensions = Extensions::from_str(" .JS, ts ,,..Tsx,  , css.map").unwrap();
    assert_eq!(listed(&extensions), vec!["js", "ts", "tsx", "css.map"]);
    assert!(extensions.contains("TS"));
    assert!(!extensions.contains("css"));
    assert_eq!(listed(&Extensions::from_str("py").unwrap()), vec!["py"]);
    assert_eq!(listed(&Extensions::from_str("js,js").unwrap()), vec!["js", "js"]);
    assert_eq!(
        Extensions::from_str("a,b").unwrap().into_vec(),
        vec!["a".to_string(), "b".to_string()]
    );
}

#[test]
fn a_list_without_extensions_is_refused() {
    for list in ["", ",", " , ,, ", ".", " .. , . "] {
        match Extensions::from_str(list) {
            Err(message) => assert_eq!(message, "No valid extensions provided"),
            Ok(_) => panic!("accepted {:?}", list),
        }
    }
}

#[test]
fn the_output_path() {
    let out = OutputPath::new(Some("-"), "/proj");
    assert!(out.is_stdout());
    assert_eq!(out.as_str(), "-");

    let out = OutputPath::new(Some("out/report.json"), "/proj");
    assert!(!out.is_stdout());
    assert_eq!(out.as_str(), "out/report.json");
    assert!(matches!(out, OutputPath::File(ref path) if path == "out/report.json"));

    let out = OutputPath::new(None, "/proj");
    assert!(!out.is_stdout());
    assert_eq!(out.as_str(), "/proj/talos.json");

    assert_eq!(OutputPath::new(None, "/proj/").as_str(), "/proj/talos.json");
    assert_eq!(OutputPath::new(None, "").as_str(), "talos.json");
    assert_eq!(OutputPath::new(Some("--"), "/proj").as_str(), "--");
    assert_eq!(OutputPath::new(Some(""), "/proj").as_str(), "");
    assert!(OutputPath::Stdout.is_stdout());
}

#[test]
fn the_size_limit() {
    let limit = MaxFileSize::new(100);
    assert_eq!(limit.bytes(), 100);
    assert!(!limit.exceeds(0));
    assert!(!limit.exceeds(99));
    assert!(!limit.exceeds(100));
    assert!(limit.exceeds(101));
    assert!(limit.exceeds(u64::MAX));
    assert!(!MaxFileSize::new(u64::MAX).exceeds(u64::MAX));
    assert!(MaxFileSize::new(0).exceeds(1));
    assert!(!MaxFileSize::new(0).exceeds(0));
    assert_eq!(MaxFileSize::default().bytes(), 10 * 1024 * 1024);
}

#[test]
fn glob_patterns() {
    let none = GlobPatterns::empty();
    assert!(none.is_empty());
    assert_eq!(none.len(), 0);
    assert_eq!(none.iter().count(), 0);

    let some = GlobPatterns::new(vec!["*.js".to_string(), "src/**".to_string()]);
    assert!(!some.is_empty());
    assert_eq!(some.len(), 2);
    assert_eq!(some.get(1), "src/**");
    let seen: Vec<&String> = some.iter().collect();
    assert_eq!(seen, vec!["*.js", "src/**"]);
    assert_eq!(some.to_vec(), vec!["*.js", "src/**"]);
    assert_eq!(some.into_vec(), vec!["*.js", "src/**"]);
    assert!(GlobPatterns::new(Vec::new()).is_empty());
}

#[test]
fn conversions_of_the_configuration_types() {
    let extensions: Extensions = "ts, .TSX".parse().unwrap();
    assert_eq!(Vec::<String>::from(extensions), vec!["ts", "tsx"]);
    assert!("".parse::<Extensions>().is_err());
    let spelled = GlobPatterns::from(vec!["a".to_string(), "b".to_string()]);
    assert_eq!(spelled.len(), 2);
    assert_eq!(Vec::<String>::from(spelled), vec!["a", "b"]);
}

#[test]
fn the_extensions_a_scan_is_configured_with() {
    assert_eq!(listed(&Extensions::configured(None).unwrap()), vec!["js", "jsx", "ts", "tsx", "css"]);
    assert_eq!(listed(&Extensions::configured(Some(" .TS, css ")).unwrap()), vec!["ts", "css"]);
    for list in ["", " , ", "..."] {
        match Extensions::configured(Some(list)) {
            Err(TalosError::InvalidInput(message)) => {
                assert_eq!(message, "No valid extensions provided")
            }
            _ => panic!("accepted {:?}", list),
        }
    }
}
