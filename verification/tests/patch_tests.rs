use search_mesh::patch::{
    apply_patch, byte_offset, line_end_offset, line_start_offset, validate_request, PatchError,
    PatchRequest,
};

fn request(
    file_path: &str,
    start: (usize, usize),
    end: (usize, usize),
    replacement: &str,
) -> PatchRequest {
    PatchRequest {
        file_path: file_path.to_string(),
        start_line: start.0,
        start_column: start.1,
        end_line: end.0,
        end_column: end.1,
        replacement: replacement.to_string(),
    }
}

#[test]
fn replaces_text_by_line_and_column() {
    let file_path = "workspace/lib.rs".to_string();
    let patched = apply_patch(
        &PatchRequest {
            file_path: file_path.clone(),
            start_line: 2,
            start_column: 5,
            end_line: 2,
            end_column: 13,
            replacement: "new_name".to_string(),
        },
        "fn main() {\n    old_name();\n}\n",
    )
    .expect("patch applies");

    assert_eq!(patched.contents, "fn main() {\n    new_name();\n}\n");
    assert_eq!(patched.response.file, file_path);
    assert_eq!(patched.response.syntax_valid, Some(true));
}

#[test]
fn reports_invalid_supported_syntax_after_patch() {
    let patched = apply_patch(
        &request("workspace/lib.rs", (1, 1), (1, 3), ""),
        "fn main() {\n    old_name();\n}\n",
    )
    .expect("patch applies");

    assert_eq!(patched.response.syntax_valid, Some(false));
}

#[test]
fn syntax_valid_is_none_for_unsupported_files() {
    let patched = apply_patch(&request("workspace/note.txt", (1, 7), (1, 10), "new"), "hello old\n")
        .expect("patch applies");

    assert_eq!(patched.response.syntax_valid, None);
    assert_eq!(patched.contents, "hello new\n");
}

#[test]
fn rejects_utf8_boundary_splits() {
    let error = apply_patch(&request("workspace/note.txt", (1, 2), (1, 2), "x"), "é\n")
        .err()
        .expect("expected error");

    assert!(matches!(
        error,
        PatchError::InvalidUtf8Boundary { line: 1, column: 2 }
    ));
}

#[test]
fn reports_bytes_written() {
    let patched = apply_patch(&request("a.txt", (1, 1), (1, 1), "ab"), "xyz")
        .expect("patch applies");
    assert_eq!(patched.contents, "abxyz");
    assert_eq!(patched.response.bytes_written, 5);
}

#[test]
fn patch_spans_lines() {
    let patched = apply_patch(&request("a.txt", (1, 3), (3, 2), "-"), "one\ntwo\nthree\n")
        .expect("patch applies");
    assert_eq!(patched.contents, "on-hree\n");
}

#[test]
fn rejects_missing_file_path() {
    let error = validate_request(&request("", (1, 1), (1, 1), "x")).err().expect("refused");
    assert!(matches!(error, PatchError::MissingFilePath));
}

#[test]
fn rejects_zero_coordinates() {
    for coordinates in [((0, 1), (1, 1)), ((1, 0), (1, 1)), ((1, 1), (0, 1)), ((1, 1), (1, 0))] {
        let error = apply_patch(&request("a.txt", coordinates.0, coordinates.1, "x"), "abc")
            .err()
            .expect("refused");
        assert!(matches!(error, PatchError::ZeroCoordinate));
    }
}

#[test]
fn rejects_reversed_range() {
    let error = apply_patch(&request("a.txt", (2, 1), (1, 1), "x"), "a\nb\n")
        .err()
        .expect("refused");
    assert!(matches!(error, PatchError::ReversedRange));
}

#[test]
fn rejects_missing_line() {
    let error = apply_patch(&request("a.txt", (4, 1), (4, 1), "x"), "a\nb\n")
        .err()
        .expect("refused");
    assert!(matches!(error, PatchError::LineOutOfRange(4)));
}

#[test]
fn rejects_column_past_line_end() {
    let error = apply_patch(&request("a.txt", (1, 3), (1, 3), "x"), "a\nb\n")
        .err()
        .expect("refused");
    assert!(matches!(
        error,
        PatchError::ColumnOutOfRange { line: 1, column: 3 }
    ));
}

#[test]
fn line_offsets_follow_newlines() {
    let source = "ab\ncd\n\nxyz";
    assert_eq!(line_start_offset(source, 1).ok(), Some(0));
    assert_eq!(line_start_offset(source, 2).ok(), Some(3));
    assert_eq!(line_start_offset(source, 3).ok(), Some(6));
    assert_eq!(line_start_offset(source, 4).ok(), Some(7));
    assert!(matches!(
        line_start_offset(source, 5),
        Err(PatchError::LineOutOfRange(5))
    ));
    assert!(matches!(
        line_start_offset(source, 0),
        Err(PatchError::LineOutOfRange(0))
    ));
    assert_eq!(line_end_offset(source, 0), 2);
    assert_eq!(line_end_offset(source, 6), 6);
    assert_eq!(line_end_offset(source, 7), 10);
}

#[test]
fn byte_offsets_allow_the_line_end() {
    let source = "ab\ncd";
    assert_eq!(byte_offset(source, 1, 3).ok(), Some(2));
    assert_eq!(byte_offset(source, 2, 3).ok(), Some(5));
    assert!(matches!(
        byte_offset(source, 2, 4),
        Err(PatchError::ColumnOutOfRange { line: 2, column: 4 })
    ));
    assert!(matches!(
        byte_offset(source, 3, 1),
        Err(PatchError::LineOutOfRange(3))
    ));
}

#[test]
fn patch_with_multibyte_text() {
    let patched = apply_patch(&request("a.txt", (1, 3), (1, 5), "ü"), "éé\n")
        .expect("patch applies");
    assert_eq!(patched.contents, "éü\n");
    assert_eq!(patched.response.bytes_written, 5);
}

#[test]
fn patch_with_present_text_leaves_file_unchanged() {
    let source = "fn main() {\n    old_name();\n}\n";
    let patched = apply_patch(&request("lib.rs", (2, 5), (2, 13), "old_name"), source)
        .expect("patch applies");
    assert_eq!(patched.contents, source);
}

#[test]
fn patched_text_reads_back_at_the_start_coordinate() {
    let source = "alpha\nbeta gamma\n";
    let patched = apply_patch(&request("a.txt", (2, 6), (2, 11), "delta\nepsilon"), source)
        .expect("patch applies");
    assert_eq!(patched.contents, "alpha\nbeta delta\nepsilon\n");
    let start = byte_offset(&patched.contents, 2, 6).expect("coordinate exists");
    assert_eq!(start, 11);
    assert_eq!(&patched.contents[start..start + "delta\nepsilon".len()], "delta\nepsilon");
    assert_eq!(
        patched.contents.len(),
        source.len() - ("gamma".len()) + "delta\nepsilon".len()
    );
}

#[test]
fn column_one_names_the_line_start() {
    let source = "a\nbc\n";
    assert_eq!(byte_offset(source, 2, 1).ok(), line_start_offset(source, 2).ok());
    assert_eq!(byte_offset(source, 3, 1).ok(), Some(5));
}

#[test]
fn patching_back_restores_a_supported_file() {
    let source = "fn main() {\n    old_name();\n}\n";
    let first = apply_patch(&request("lib.rs", (2, 5), (2, 13), "renamed_call"), source)
        .expect("first patch applies");
    assert_eq!(first.contents, "fn main() {\n    renamed_call();\n}\n");
    let back = apply_patch(&request("lib.rs", (2, 5), (2, 17), "old_name"), &first.contents)
        .expect("patch back applies");
    assert_eq!(back.contents, source);
    assert_eq!(back.response.bytes_written, source.len());
    assert_eq!(back.response.syntax_valid, Some(true));
}
