use search_mesh::scan::{
    record_line_matches, scan_keywords, ScanError, ScanMatch, ScanRequest, SourceFile,
};

fn file(path: &str, contents: &str) -> SourceFile {
    SourceFile {
        path: path.to_string(),
        contents: contents.to_string(),
    }
}

#[test]
fn rejects_missing_target_dirs() {
    let request = ScanRequest {
        target_dirs: Vec::new(),
        keywords: vec!["TODO".to_string()],
    };

    assert!(matches!(
        scan_keywords(&request, &Vec::new()),
        Err(ScanError::MissingTargetDirs)
    ));
}

#[test]
fn rejects_missing_keywords() {
    let request = ScanRequest {
        target_dirs: vec!["src".to_string()],
        keywords: Vec::new(),
    };

    assert!(matches!(
        scan_keywords(&request, &Vec::new()),
        Err(ScanError::MissingKeywords)
    ));
}

#[test]
fn finds_multiple_keywords_in_one_file() {
    let request = ScanRequest {
        target_dirs: vec!["root/src".to_string()],
        keywords: vec!["TODO".to_string(), "deprecated".to_string()],
    };
    let files = vec![file(
        "root/src/main.rs",
        "fn main() {\n    // TODO: remove deprecated path\n}\n",
    )];

    let matches = scan_keywords(&request, &files).expect("scan succeeds");

    assert_eq!(matches.len(), 2);
    assert_eq!(matches[0].line, 2);
    assert_eq!(matches[0].keyword, "TODO");
    assert_eq!(matches[0].match_str, "    // TODO: remove deprecated path");
    assert_eq!(matches[1].line, 2);
    assert_eq!(matches[1].keyword, "deprecated");
}

#[test]
fn scans_nested_files() {
    let request = ScanRequest {
        target_dirs: vec!["root/src".to_string()],
        keywords: vec!["FIXME".to_string()],
    };
    let files = vec![
        file("root/src/lib.rs", "pub fn clean() {}\n"),
        file("root/src/nested/module.rs", "// FIXME: split module\n"),
    ];

    let matches = scan_keywords(&request, &files).expect("scan succeeds");

    assert_eq!(matches.len(), 1);
    assert!(matches[0].file.ends_with("src/nested/module.rs"));
    assert_eq!(matches[0].line, 1);
    assert_eq!(matches[0].keyword, "FIXME");
}

#[test]
fn lines_drop_carriage_returns_before_newlines() {
    let request = ScanRequest {
        target_dirs: vec!["d".to_string()],
        keywords: vec!["x".to_string()],
    };
    let files = vec![file("d/a.txt", "ax\r\nbx\rc\n\nx")];
    let matches = scan_keywords(&request, &files).expect("scan succeeds");
    let lines: Vec<(usize, &str)> = matches
        .iter()
        .map(|m| (m.line, m.match_str.as_str()))
        .collect();
    assert_eq!(lines, vec![(1, "ax"), (2, "bx\rc"), (4, "x")]);
}

#[test]
fn reports_every_occurrence_in_a_line() {
    let request = ScanRequest {
        target_dirs: vec!["d".to_string()],
        keywords: vec!["ab".to_string()],
    };
    let files = vec![file("d/a.txt", "ab ab\nnone\nab")];
    let matches = scan_keywords(&request, &files).expect("scan succeeds");
    let lines: Vec<usize> = matches.iter().map(|m| m.line).collect();
    assert_eq!(lines, vec![1, 1, 3]);
    assert_eq!(matches[2].match_str, "ab");
}

#[test]
fn empty_files_have_no_matches() {
    let request = ScanRequest {
        target_dirs: vec!["d".to_string()],
        keywords: vec!["TODO".to_string()],
    };
    let files = vec![file("d/empty.rs", ""), file("d/blank.rs", "\n\n")];
    assert!(scan_keywords(&request, &files).expect("scan succeeds").is_empty());
}

#[test]
fn spans_become_matches_in_order() {
    let keywords = vec!["TODO".to_string(), "FIXME".to_string()];
    let mut out: Vec<ScanMatch> = Vec::new();
    record_line_matches(
        &keywords,
        &"f.rs".to_string(),
        &"FIXME TODO".to_string(),
        7,
        &vec![(1, 0, 5), (0, 6, 10)],
        &mut out,
    );
    assert_eq!(out.len(), 2);
    assert_eq!(out[0].keyword, "FIXME");
    assert_eq!(out[1].keyword, "TODO");
    assert_eq!(out[1].line, 7);
    assert_eq!(out[1].match_str, "FIXME TODO");
    assert_eq!(out[0].file, "f.rs");
}

#[test]
fn every_match_holds_its_keyword() {
    let request = ScanRequest {
        target_dirs: vec!["d".to_string()],
        keywords: vec!["fn".to_string(), "main".to_string()],
    };
    let files = vec![file("d/a.rs", "fn main() {}\nstruct S;\nfn helper() { main() }\n")];
    let matches = scan_keywords(&request, &files).expect("scan succeeds");
    assert_eq!(matches.len(), 4);
    for m in &matches {
        assert!(request.keywords.contains(&m.keyword));
        assert!(m.match_str.contains(&m.keyword));
        assert!(m.line >= 1);
    }
}

#[test]
fn scan_lines_are_the_lines_patches_address() {
    let contents = "one\r\nTODO two\nthree TODO\n";
    let request = ScanRequest {
        target_dirs: vec!["d".to_string()],
        keywords: vec!["TODO".to_string()],
    };
    let matches =
        scan_keywords(&request, &vec![file("d/a.txt", contents)]).expect("scan succeeds");
    assert_eq!(matches.len(), 2);
    for m in &matches {
        let start = search_mesh::patch::line_start_offset(contents, m.line).expect("line exists");
        let end = search_mesh::patch::line_end_offset(contents, start);
        assert_eq!(&contents[start..end], m.match_str);
    }
}
