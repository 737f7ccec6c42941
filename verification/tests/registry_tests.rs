use codegraph_server::parser_registry::Language;
use codegraph_server::parser_registry::ParserRegistry;

#[test]
fn test_parser_for_path() {
    let registry = ParserRegistry::new();

    assert!(registry.parser_for_path("test.py").is_some());
    assert!(registry.parser_for_path("test.rs").is_some());
    assert!(registry.parser_for_path("test.ts").is_some());
    assert!(registry.parser_for_path("test.js").is_some());
    assert!(registry.parser_for_path("test.go").is_some());
    assert!(registry.parser_for_path("test.txt").is_none());
}

#[test]
fn test_language_for_path() {
    let registry = ParserRegistry::new();

    assert_eq!(registry.language_for_path("test.py"), Some("python"));
    assert_eq!(registry.language_for_path("test.rs"), Some("rust"));
    assert_eq!(registry.language_for_path("test.ts"), Some("typescript"));
    assert_eq!(registry.language_for_path("test.js"), Some("javascript"));
    assert_eq!(registry.language_for_path("test.go"), Some("go"));
}

#[test]
fn test_get_parser_is_case_insensitive() {
    let registry = ParserRegistry::new();

    assert_eq!(registry.get_parser("Python"), Some(Language::Python));
    assert_eq!(registry.get_parser("RUST"), Some(Language::Rust));
    assert_eq!(registry.get_parser("javascript"), Some(Language::TypeScript));
    assert_eq!(registry.get_parser("typescriptreact"), Some(Language::TypeScript));
    assert_eq!(registry.get_parser("go"), Some(Language::Go));
    assert_eq!(registry.get_parser("cobol"), None);
}

#[test]
fn test_dispatch_ignores_directories_and_hidden_files() {
    let registry = ParserRegistry::new();

    assert!(registry.parser_for_path("a.rs/readme").is_none());
    assert!(registry.parser_for_path(".py").is_none());
    assert!(registry.parser_for_path("src/lib.rs").is_some());
    assert_eq!(registry.language_for_path("/w/app.tsx"), Some("typescript"));
    assert_eq!(registry.language_for_path("/w/app.jsx"), Some("javascript"));
}

#[test]
fn test_supported_extensions() {
    let registry = ParserRegistry::new();
    let exts = registry.supported_extensions();
    assert_eq!(exts, vec!["py", "rs", "ts", "tsx", "js", "jsx", "go"]);
}

#[test]
fn test_can_parse() {
    let registry = ParserRegistry::new();
    assert!(registry.can_parse("m.go"));
    assert!(!registry.can_parse("m.txt"));
}
