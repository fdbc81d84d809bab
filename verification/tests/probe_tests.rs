use search_mesh::probe::{
    ast_probe, language_for_extension, language_for_path, node_kinds_for_alias, squeeze,
    syntax_valid_for_path, ProbeError, ProbeRequest, SqueezeRequest, SupportedLanguage,
};

fn probe(file_path: &str, query_pattern: &str, node_type: &str) -> ProbeRequest {
    ProbeRequest {
        file_path: file_path.to_string(),
        query_pattern: query_pattern.to_string(),
        node_type: node_type.to_string(),
    }
}

#[test]
fn validates_rust_function() {
    let source = "pub fn scan_keywords() {\n    println!(\"ok\");\n}\n";
    let response = ast_probe(&probe("lib.rs", "scan_keywords", "function"), source)
        .expect("probe succeeds");

    assert_eq!(response.node_type.as_deref(), Some("function_item"));
    assert_eq!(response.start_line, Some(1));
    assert_eq!(response.end_line, Some(3));
    assert!(response.is_valid);
}

#[test]
fn validates_python_class() {
    let source = "class SearchMesh:\n    pass\n";
    let response = ast_probe(&probe("model.py", "SearchMesh", "class"), source)
        .expect("probe succeeds");

    assert_eq!(response.node_type.as_deref(), Some("class_definition"));
    assert!(response.is_valid);
}

#[test]
fn validates_typescript_function() {
    let source = "function routeContext() {\n  return true;\n}\n";
    let response = ast_probe(&probe("index.ts", "routeContext", "function"), source)
        .expect("probe succeeds");

    assert_eq!(response.node_type.as_deref(), Some("function_declaration"));
    assert!(response.is_valid);
}

#[test]
fn validates_javascript_function() {
    let source = "function routeContext() {\n  return true;\n}\n";
    let response = ast_probe(&probe("index.js", "routeContext", "function"), source)
        .expect("probe succeeds");

    assert_eq!(response.node_type.as_deref(), Some("function_declaration"));
    assert!(response.is_valid);
}

#[test]
fn rejects_wrong_node_type() {
    let source = "struct SearchMesh;\n";
    let response = ast_probe(&probe("lib.rs", "SearchMesh", "function"), source)
        .expect("probe succeeds");

    assert!(!response.is_valid);
    assert_eq!(response.node_type, None);
}

#[test]
fn probe_without_occurrence_is_invalid() {
    let source = "fn main() {}\n";
    let response = ast_probe(&probe("lib.rs", "absent", "function"), source)
        .expect("probe succeeds");
    assert!(!response.is_valid);
    assert_eq!(response.start_line, None);
}

#[test]
fn probe_takes_the_first_deciding_occurrence() {
    let source = "// helper\nfn helper() {}\n";
    let response = ast_probe(&probe("lib.rs", "helper", "function"), source)
        .expect("probe succeeds");
    assert!(response.is_valid);
    assert_eq!(response.start_line, Some(2));
}

#[test]
fn probe_refuses_incomplete_requests() {
    let source = "fn main() {}\n";
    assert!(matches!(
        ast_probe(&probe("", "main", "function"), source),
        Err(ProbeError::MissingFilePath)
    ));
    assert!(matches!(
        ast_probe(&probe("lib.rs", "", "function"), source),
        Err(ProbeError::MissingQueryPattern)
    ));
    assert!(matches!(
        ast_probe(&probe("lib.rs", "main", ""), source),
        Err(ProbeError::MissingNodeType)
    ));
}

#[test]
fn probe_refuses_unsupported_extensions() {
    match ast_probe(&probe("notes.txt", "x", "function"), "x") {
        Err(ProbeError::UnsupportedFileExtension(extension)) => assert_eq!(extension, "txt"),
        other => panic!("unexpected {other:?}"),
    }
    match ast_probe(&probe("Makefile", "x", "function"), "x") {
        Err(ProbeError::UnsupportedFileExtension(extension)) => assert_eq!(extension, ""),
        other => panic!("unexpected {other:?}"),
    }
}

#[test]
fn languages_follow_extensions() {
    assert_eq!(language_for_extension("rs").ok(), Some(SupportedLanguage::Rust));
    assert_eq!(language_for_extension("py").ok(), Some(SupportedLanguage::Python));
    for extension in ["js", "jsx", "mjs", "cjs"] {
        assert_eq!(
            language_for_extension(extension).ok(),
            Some(SupportedLanguage::JavaScript)
        );
    }
    for extension in ["ts", "tsx"] {
        assert_eq!(
            language_for_extension(extension).ok(),
            Some(SupportedLanguage::TypeScript)
        );
    }
    assert!(language_for_extension("RS").is_err());
    assert_eq!(language_for_path("src/a.b/main.rs").ok(), Some(SupportedLanguage::Rust));
    assert!(language_for_path(".rs").is_err());
    assert_eq!(language_for_path("dir/.hidden.py").ok(), Some(SupportedLanguage::Python));
}

#[test]
fn aliases_name_node_kinds() {
    assert_eq!(
        node_kinds_for_alias(SupportedLanguage::Rust, "function"),
        vec!["function_item".to_string()]
    );
    assert_eq!(
        node_kinds_for_alias(SupportedLanguage::Rust, "struct"),
        vec!["struct_item".to_string()]
    );
    assert_eq!(
        node_kinds_for_alias(SupportedLanguage::Rust, "impl"),
        vec!["impl_item".to_string()]
    );
    assert_eq!(
        node_kinds_for_alias(SupportedLanguage::Rust, "enum"),
        vec!["enum_item".to_string()]
    );
    assert_eq!(
        node_kinds_for_alias(SupportedLanguage::Rust, "class"),
        vec!["class".to_string()]
    );
    assert_eq!(
        node_kinds_for_alias(SupportedLanguage::Python, "function"),
        vec!["function_definition".to_string()]
    );
    assert_eq!(
        node_kinds_for_alias(SupportedLanguage::Python, "class"),
        vec!["class_definition".to_string()]
    );
    assert_eq!(
        node_kinds_for_alias(SupportedLanguage::JavaScript, "function"),
        vec!["function_declaration".to_string(), "method_definition".to_string()]
    );
    assert_eq!(
        node_kinds_for_alias(SupportedLanguage::JavaScript, "interface"),
        vec!["interface".to_string()]
    );
    assert_eq!(
        node_kinds_for_alias(SupportedLanguage::TypeScript, "class"),
        vec!["class_declaration".to_string()]
    );
    assert_eq!(
        node_kinds_for_alias(SupportedLanguage::TypeScript, "interface"),
        vec!["interface_declaration".to_string()]
    );
    assert_eq!(
        node_kinds_for_alias(SupportedLanguage::Python, "decorated_definition"),
        vec!["decorated_definition".to_string()]
    );
}

#[test]
fn squeezes_the_enclosing_block() {
    let source = "fn other() {}\n\npub fn route_context() {\n    println!(\"ok\");\n}\n";
    let request = SqueezeRequest {
        file_path: "lib.rs".to_string(),
        query_pattern: "route_context".to_string(),
        node_type: "function".to_string(),
    };
    let block = squeeze(&request, source).expect("squeeze succeeds").expect("block found");
    assert_eq!(block.file, "lib.rs");
    assert_eq!(block.node_type, "function_item");
    assert_eq!(block.start_line, 3);
    assert_eq!(block.end_line, 5);
    assert_eq!(block.text, "pub fn route_context() {\n    println!(\"ok\");\n}");
}

#[test]
fn squeeze_finds_nothing_outside_the_kind() {
    let source = "struct Only;\n";
    let request = SqueezeRequest {
        file_path: "lib.rs".to_string(),
        query_pattern: "Only".to_string(),
        node_type: "function".to_string(),
    };
    assert!(squeeze(&request, source).expect("squeeze succeeds").is_none());
}

#[test]
fn syntax_validity_depends_on_extension() {
    assert_eq!(syntax_valid_for_path("a.rs", "fn main() {}\n").ok(), Some(Some(true)));
    assert_eq!(syntax_valid_for_path("a.rs", "fn main( {}\n").ok(), Some(Some(false)));
    assert_eq!(syntax_valid_for_path("a.py", "def f(:\n").ok(), Some(Some(false)));
    assert_eq!(syntax_valid_for_path("a.md", "anything").ok(), Some(None));
}

#[test]
fn squeeze_and_probe_agree() {
    let source = "class A:\n    def run(self):\n        return 1\n";
    let probe_answer = ast_probe(&probe("a.py", "return", "function"), source)
        .expect("probe succeeds");
    let block = squeeze(
        &SqueezeRequest {
            file_path: "a.py".to_string(),
            query_pattern: "return".to_string(),
            node_type: "function".to_string(),
        },
        source,
    )
    .expect("squeeze succeeds")
    .expect("block found");
    assert!(probe_answer.is_valid);
    assert_eq!(probe_answer.node_type.as_deref(), Some(block.node_type.as_str()));
    assert_eq!(probe_answer.start_line, Some(block.start_line));
    assert_eq!(probe_answer.end_line, Some(block.end_line));
    assert_eq!(block.node_type, "function_definition");
    assert_eq!(block.start_line, 2);
    assert!(block.text.contains("return"));
}

fn unsupported_extension(path: &str) -> Option<String> {
    match language_for_path(path) {
        Err(ProbeError::UnsupportedFileExtension(extension)) => Some(extension),
        _ => None,
    }
}

#[test]
fn extensions_follow_path_components() {
    assert_eq!(language_for_path("dir.rs/").ok(), Some(SupportedLanguage::Rust));
    assert_eq!(language_for_path("lib/./mod.ts/.").ok(), Some(SupportedLanguage::TypeScript));
    assert_eq!(unsupported_extension("src/.rs"), Some(String::new()));
    assert_eq!(unsupported_extension("archive.tar.gz"), Some("gz".to_string()));
    assert_eq!(unsupported_extension("notes."), Some(String::new()));
    assert_eq!(unsupported_extension("a.rs/.."), Some(String::new()));
    assert_eq!(unsupported_extension("a.py/b"), Some(String::new()));
    assert_eq!(unsupported_extension("/"), Some(String::new()));
}

#[test]
fn probe_lines_stay_within_the_file() {
    let source = "fn outer() {\n    fn inner() {}\n}\n";
    let response = ast_probe(&probe("lib.rs", "inner", "function"), source).unwrap();
    assert!(response.is_valid);
    assert_eq!(response.start_line, Some(2));
    assert_eq!(response.end_line, Some(2));
    let lines = source.matches('\n').count() + 1;
    assert!(response.end_line.unwrap() <= lines);
}
