use search_mesh::patch::PatchResponse;
use search_mesh::probe::{ProbeResponse, SqueezeResponse};
use search_mesh::rename::RenameResponse;
use search_mesh::scan::ScanMatch;
use search_mesh::server::{
    listed_tools, negotiated_protocol_version, patch_response_payload, probe_response_payload,
    rename_response_payload, route_request, scan_matches_payload, squeeze_response_payload,
    tool_for_name, RpcMethod, Tool, SUPPORTED_PROTOCOL_VERSION,
};

#[test]
fn notifications_are_not_answered() {
    assert_eq!(route_request(false, "notifications/initialized"), None);
    assert_eq!(route_request(false, "initialize"), None);
}

#[test]
fn methods_are_routed_by_name() {
    assert_eq!(route_request(true, "initialize"), Some(RpcMethod::Initialize));
    assert_eq!(route_request(true, "tools/list"), Some(RpcMethod::ToolsList));
    assert_eq!(route_request(true, "tools/call"), Some(RpcMethod::ToolsCall));
    assert_eq!(route_request(true, "tools/delete"), Some(RpcMethod::Unsupported));
}

#[test]
fn tools_are_found_by_name() {
    for tool in listed_tools() {
        assert_eq!(tool_for_name(tool.name()), Some(tool));
    }
    assert_eq!(tool_for_name("missing_tool"), None);
    let names: Vec<&str> = listed_tools().iter().map(|tool| tool.name()).collect();
    assert_eq!(names, vec!["scan", "ast_probe", "squeeze", "patch", "rename"]);
    assert_eq!(Tool::AstProbe.name(), "ast_probe");
}

#[test]
fn handshake_version_falls_back_to_the_supported_one() {
    assert_eq!(negotiated_protocol_version(Some("2024-11-05")), "2024-11-05");
    assert_eq!(negotiated_protocol_version(None), SUPPORTED_PROTOCOL_VERSION);
    assert_eq!(SUPPORTED_PROTOCOL_VERSION, "2025-06-18");
}

#[test]
fn payloads_keep_fields() {
    let matches = vec![ScanMatch {
        file: "src/main.rs".to_string(),
        line: 1,
        keyword: "TODO".to_string(),
        match_str: "// TODO: wire MCP".to_string(),
    }];
    let payload = scan_matches_payload(matches);
    assert_eq!(payload.len(), 1);
    assert_eq!(payload[0].file, "src/main.rs");
    assert_eq!(payload[0].line, 1);
    assert_eq!(payload[0].keyword, "TODO");
    assert_eq!(payload[0].match_str, "// TODO: wire MCP");

    let probe = probe_response_payload(ProbeResponse {
        is_valid: true,
        node_type: Some("function_item".to_string()),
        start_line: Some(1),
        end_line: Some(2),
    });
    assert!(probe.is_valid);
    assert_eq!(probe.node_type.as_deref(), Some("function_item"));
    assert_eq!(probe.start_line, Some(1));
    assert_eq!(probe.end_line, Some(2));

    let squeezed = squeeze_response_payload(SqueezeResponse {
        file: "lib.rs".to_string(),
        node_type: "function_item".to_string(),
        start_line: 3,
        end_line: 5,
        text: "fn f() {}".to_string(),
    });
    assert_eq!(squeezed.start_line, 3);
    assert_eq!(squeezed.text, "fn f() {}");

    let patch = patch_response_payload(PatchResponse {
        file: "lib.rs".to_string(),
        bytes_written: 29,
        syntax_valid: Some(true),
    });
    assert_eq!(patch.bytes_written, 29);
    assert_eq!(patch.syntax_valid, Some(true));

    let rename = rename_response_payload(RenameResponse {
        file: "lib.rs".to_string(),
        bytes_written: 10,
        occurrences_renamed: 2,
        syntax_valid: None,
    });
    assert_eq!(rename.occurrences_renamed, 2);
    assert_eq!(rename.syntax_valid, None);
}
