use search_mesh::probe::ProbeError;
use search_mesh::rename::{apply_rename, rename_in_range, RenameError, RenameRequest};

fn request(path: &str, target: &str, replacement: &str) -> RenameRequest {
    RenameRequest {
        file_path: path.to_string(),
        target: target.to_string(),
        replacement: replacement.to_string(),
        node_type: None,
        query_pattern: None,
    }
}

#[test]
fn renames_whole_words_only() {
    let renamed = apply_rename(
        &request("lib.rs", "count", "total"),
        "fn f(count: u32) -> u32 { count + counter + recount }\n",
    )
    .expect("rename applies");
    assert_eq!(
        renamed.contents,
        "fn f(total: u32) -> u32 { total + counter + recount }\n"
    );
    assert_eq!(renamed.response.occurrences_renamed, 2);
    assert_eq!(renamed.response.syntax_valid, Some(true));
    assert_eq!(renamed.response.bytes_written, renamed.contents.len());
}

#[test]
fn renames_inside_the_probed_node_only() {
    let mut scoped = request("lib.rs", "x", "y");
    scoped.node_type = Some("function".to_string());
    scoped.query_pattern = Some("second".to_string());
    let renamed = apply_rename(
        &scoped,
        "fn first() { let x = 1; }\nfn second() { let x = 2; }\n",
    )
    .expect("rename applies");
    assert_eq!(
        renamed.contents,
        "fn first() { let x = 1; }\nfn second() { let y = 2; }\n"
    );
    assert_eq!(renamed.response.occurrences_renamed, 1);
}

#[test]
fn rename_reports_a_missing_scope() {
    let mut scoped = request("lib.rs", "x", "y");
    scoped.node_type = Some("function".to_string());
    scoped.query_pattern = Some("absent".to_string());
    assert!(matches!(
        apply_rename(&scoped, "fn f() { let x = 1; }\n"),
        Err(RenameError::ScopeNotFound)
    ));
}

#[test]
fn rename_refuses_incomplete_requests() {
    assert!(matches!(
        apply_rename(&request("", "a", "b"), "a"),
        Err(RenameError::MissingFilePath)
    ));
    assert!(matches!(
        apply_rename(&request("a.txt", "", "b"), "a"),
        Err(RenameError::MissingTarget)
    ));
    let mut scoped = request("lib.rs", "a", "b");
    scoped.node_type = Some("function".to_string());
    scoped.query_pattern = Some(String::new());
    assert!(matches!(
        apply_rename(&scoped, "a"),
        Err(RenameError::Probe(ProbeError::MissingQueryPattern))
    ));
}

#[test]
fn rename_treats_non_ascii_letters_as_word_bytes() {
    let renamed = apply_rename(&request("a.txt", "a", "b"), "a éa aé a\n").expect("rename applies");
    assert_eq!(renamed.contents, "b éa aé b\n");
    assert_eq!(renamed.response.syntax_valid, None);
}

#[test]
fn renaming_to_itself_changes_nothing() {
    let source = "let a = a + ab;\n";
    let renamed = apply_rename(&request("a.txt", "a", "a"), source).expect("rename applies");
    assert_eq!(renamed.contents, source);
    assert_eq!(renamed.response.occurrences_renamed, 2);
}

#[test]
fn rename_in_range_leaves_the_outside_alone() {
    let (text, count) = rename_in_range("x x x", 2, 3, "x", "yy");
    assert_eq!(text, "x yy x");
    assert_eq!(count, 1);
}

#[test]
fn scoped_rename_needs_a_node_type_and_a_known_language() {
    let mut scoped = request("lib.rs", "a", "b");
    scoped.node_type = Some(String::new());
    scoped.query_pattern = Some("a".to_string());
    assert!(matches!(
        apply_rename(&scoped, "a"),
        Err(RenameError::Probe(ProbeError::MissingNodeType))
    ));
    let mut unknown = request("notes.md", "a", "b");
    unknown.node_type = Some("function".to_string());
    unknown.query_pattern = Some("a".to_string());
    match apply_rename(&unknown, "a") {
        Err(RenameError::Probe(ProbeError::UnsupportedFileExtension(extension))) => {
            assert_eq!(extension, "md")
        }
        other => panic!("unexpected {other:?}"),
    }
}

#[test]
fn rename_with_only_one_scope_part_covers_the_whole_file() {
    let mut partial = request("a.txt", "a", "b");
    partial.node_type = Some("function".to_string());
    let renamed = apply_rename(&partial, "a a").expect("rename applies");
    assert_eq!(renamed.contents, "b b");
    assert_eq!(renamed.response.occurrences_renamed, 2);
}
