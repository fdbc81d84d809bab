//! The decisions of the JSON-RPC tool server: which method and tool a request
//! names, which protocol version the handshake answers with, the error codes,
//! and the payloads that tool results are reported as.
use vstd::prelude::*;

use crate::patch::PatchResponse;
use crate::probe::{ProbeResponse, SqueezeResponse};
use crate::rename::RenameResponse;
use crate::scan::ScanMatch;
use crate::text::str_equal;

verus! {

/// Why the server stopped.
#[derive(Debug)]
pub enum ServerError {
    Io(std::io::Error),
}

/// The protocol version the server speaks when the client names none.
pub const SUPPORTED_PROTOCOL_VERSION: &'static str = "2025-06-18";

/// The request is not valid JSON of a request.
pub const PARSE_ERROR: i64 = -32700i64;

/// The request names a method the server does not have.
pub const METHOD_NOT_FOUND: i64 = -32601i64;

/// The parameters of a request, or the tool it names, are not valid.
pub const INVALID_PARAMS: i64 = -32602i64;

/// A tool failed.
pub const INTERNAL_ERROR: i64 = -32603i64;

/// The JSON-RPC methods the server answers.
#[derive(Debug, Clone, Copy, PartialEq, Eq, Structural)]
pub enum RpcMethod {
    Initialize,
    ToolsList,
    ToolsCall,
    Unsupported,
}

/// The tools the server offers, in the order it lists them.
#[derive(Debug, Clone, Copy, PartialEq, Eq, Structural)]
pub enum Tool {
    Scan,
    AstProbe,
    Squeeze,
    Patch,
    Rename,
}

/// The method a method name stands for.
pub open spec fn method_of(name: Seq<char>) -> RpcMethod {
    if name == "initialize"@ {
        RpcMethod::Initialize
    } else if name == "tools/list"@ {
        RpcMethod::ToolsList
    } else if name == "tools/call"@ {
        RpcMethod::ToolsCall
    } else {
        RpcMethod::Unsupported
    }
}

/// The tool a tool name stands for.
pub open spec fn tool_of(name: Seq<char>) -> Option<Tool> {
    if name == "scan"@ {
        Some(Tool::Scan)
    } else if name == "ast_probe"@ {
        Some(Tool::AstProbe)
    } else if name == "squeeze"@ {
        Some(Tool::Squeeze)
    } else if name == "patch"@ {
        Some(Tool::Patch)
    } else if name == "rename"@ {
        Some(Tool::Rename)
    } else {
        None
    }
}

/// The name under which a tool is listed and called.
pub open spec fn tool_name_of(tool: Tool) -> Seq<char> {
    match tool {
        Tool::Scan => "scan"@,
        Tool::AstProbe => "ast_probe"@,
        Tool::Squeeze => "squeeze"@,
        Tool::Patch => "patch"@,
        Tool::Rename => "rename"@,
    }
}

/// Every tool is called by the name it is listed under.
pub proof fn tools_are_called_by_their_names(tool: Tool)
    ensures
        tool_of(tool_name_of(tool)) == Some(tool),
{
    reveal_strlit("scan");
    reveal_strlit("ast_probe");
    reveal_strlit("squeeze");
    reveal_strlit("patch");
    reveal_strlit("rename");
    match tool {
        Tool::Scan => {},
        Tool::AstProbe => {
            assert("ast_probe"@ != "scan"@) by {
                assert("ast_probe"@.len() != "scan"@.len());
            }
        },
        Tool::Squeeze => {
            assert("squeeze"@ != "scan"@) by {
                assert("squeeze"@[1] != "scan"@[1]);
            }
            assert("squeeze"@ != "ast_probe"@) by {
                assert("squeeze"@.len() != "ast_probe"@.len());
            }
        },
        Tool::Patch => {
            assert("patch"@ != "scan"@) by {
                assert("patch"@.len() != "scan"@.len());
            }
            assert("patch"@ != "ast_probe"@) by {
                assert("patch"@.len() != "ast_probe"@.len());
            }
            assert("patch"@ != "squeeze"@) by {
                assert("patch"@.len() != "squeeze"@.len());
            }
        },
        Tool::Rename => {
            assert("rename"@ != "scan"@) by {
                assert("rename"@.len() != "scan"@.len());
            }
            assert("rename"@ != "ast_probe"@) by {
                assert("rename"@.len() != "ast_probe"@.len());
            }
            assert("rename"@ != "squeeze"@) by {
                assert("rename"@.len() != "squeeze"@.len());
            }
            assert("rename"@ != "patch"@) by {
                assert("rename"@.len() != "patch"@.len());
            }
        },
    }
}

/// The method a request names. A request without an id is a notification,
/// which is never answered: it is routed nowhere.
pub fn route_request(has_id: bool, method: &str) -> (res: Option<RpcMethod>)
    ensures
        !has_id ==> res is None,
        has_id ==> res == Some(method_of(method@)),
{
    if !has_id {
        return None;
    }
    if str_equal(method, "initialize") {
        Some(RpcMethod::Initialize)
    } else if str_equal(method, "tools/list") {
        Some(RpcMethod::ToolsList)
    } else if str_equal(method, "tools/call") {
        Some(RpcMethod::ToolsCall)
    } else {
        Some(RpcMethod::Unsupported)
    }
}

/// The tool a tool call names, if the server has it.
pub fn tool_for_name(name: &str) -> (res: Option<Tool>)
    ensures
        res == tool_of(name@),
{
    if str_equal(name, "scan") {
        Some(Tool::Scan)
    } else if str_equal(name, "ast_probe") {
        Some(Tool::AstProbe)
    } else if str_equal(name, "squeeze") {
        Some(Tool::Squeeze)
    } else if str_equal(name, "patch") {
        Some(Tool::Patch)
    } else if str_equal(name, "rename") {
        Some(Tool::Rename)
    } else {
        None
    }
}

impl Tool {
    /// The name under which the tool is listed and called.
    pub fn name(self) -> (res: &'static str)
        ensures
            res@ == tool_name_of(self),
    {
        match self {
            Tool::Scan => "scan",
            Tool::AstProbe => "ast_probe",
            Tool::Squeeze => "squeeze",
            Tool::Patch => "patch",
            Tool::Rename => "rename",
        }
    }
}

/// The tools in the order the server lists them.
pub fn listed_tools() -> (res: Vec<Tool>)
    ensures
        res@ == seq![Tool::Scan, Tool::AstProbe, Tool::Squeeze, Tool::Patch, Tool::Rename],
{
    let mut tools = Vec::new();
    tools.push(Tool::Scan);
    tools.push(Tool::AstProbe);
    tools.push(Tool::Squeeze);
    tools.push(Tool::Patch);
    tools.push(Tool::Rename);
    tools
}

/// The protocol version the handshake answers with: the one the client asks
/// for, or the supported one when it names none.
pub fn negotiated_protocol_version(requested: Option<&str>) -> (res: String)
    ensures
        match requested {
            Some(version) => res@ == version@,
            None => res@ == SUPPORTED_PROTOCOL_VERSION@,
        },
{
    match requested {
        Some(version) => version.to_owned(),
        None => SUPPORTED_PROTOCOL_VERSION.to_owned(),
    }
}

/// A scan match as it is reported.
#[derive(Debug, Clone, PartialEq, Eq)]
pub struct ScanMatchPayload {
    pub file: String,
    pub line: usize,
    pub keyword: String,
    pub match_str: String,
}

/// A probe answer as it is reported.
#[derive(Debug, Clone, PartialEq, Eq)]
pub struct ProbeResponsePayload {
    pub is_valid: bool,
    pub node_type: Option<String>,
    pub start_line: Option<usize>,
    pub end_line: Option<usize>,
}

/// A squeezed block as it is reported.
#[derive(Debug, Clone, PartialEq, Eq)]
pub struct SqueezeResponsePayload {
    pub file: String,
    pub node_type: String,
    pub start_line: usize,
    pub end_line: usize,
    pub text: String,
}

/// A patch report as it is reported.
#[derive(Debug, Clone, PartialEq, Eq)]
pub struct PatchResponsePayload {
    pub file: String,
    pub bytes_written: usize,
    pub syntax_valid: Option<bool>,
}

/// A rename report as it is reported.
#[derive(Debug, Clone, PartialEq, Eq)]
pub struct RenameResponsePayload {
    pub file: String,
    pub bytes_written: usize,
    pub occurrences_renamed: usize,
    pub syntax_valid: Option<bool>,
}

/// The payload of a scan match carries its fields unchanged.
pub open spec fn scan_payload_of(m: ScanMatch) -> ScanMatchPayload {
    ScanMatchPayload { file: m.file, line: m.line, keyword: m.keyword, match_str: m.match_str }
}

/// Reports a list of scan matches, in order.
pub fn scan_matches_payload(matches: Vec<ScanMatch>) -> (res: Vec<ScanMatchPayload>)
    ensures
        res@ == matches@.map_values(|m: ScanMatch| scan_payload_of(m)),
{
    let mut payload: Vec<ScanMatchPayload> = Vec::new();
    let mut i: usize = 0;
    while i < matches.len()
        invariant
            0 <= i <= matches@.len(),
            payload@ == matches@.take(i as int).map_values(|m: ScanMatch| scan_payload_of(m)),
        decreases matches@.len() - i,
    {
        let m = &matches[i];
        payload.push(
            ScanMatchPayload {
                file: m.file.clone(),
                line: m.line,
                keyword: m.keyword.clone(),
                match_str: m.match_str.clone(),
            },
        );
        assert(matches@.take(i + 1) =~= matches@.take(i as int).push(matches@[i as int]));
        i = i + 1;
    }
    assert(matches@.take(matches@.len() as int) =~= matches@);
    payload
}

/// Reports a probe answer.
pub fn probe_response_payload(response: ProbeResponse) -> (res: ProbeResponsePayload)
    ensures
        res == (ProbeResponsePayload {
            is_valid: response.is_valid,
            node_type: response.node_type,
            start_line: response.start_line,
            end_line: response.end_line,
        }),
{
    ProbeResponsePayload {
        is_valid: response.is_valid,
        node_type: response.node_type,
        start_line: response.start_line,
        end_line: response.end_line,
    }
}

/// Reports a squeezed block.
pub fn squeeze_response_payload(response: SqueezeResponse) -> (res: SqueezeResponsePayload)
    ensures
        res == (SqueezeResponsePayload {
            file: response.file,
            node_type: response.node_type,
            start_line: response.start_line,
            end_line: response.end_line,
            text: response.text,
        }),
{
    SqueezeResponsePayload {
        file: response.file,
        node_type: response.node_type,
        start_line: response.start_line,
        end_line: response.end_line,
        text: response.text,
    }
}

/// Reports a patch.
pub fn patch_response_payload(response: PatchResponse) -> (res: PatchResponsePayload)
    ensures
        res == (PatchResponsePayload {
            file: response.file,
            bytes_written: response.bytes_written,
            syntax_valid: response.syntax_valid,
        }),
{
    PatchResponsePayload {
        file: response.file,
        bytes_written: response.bytes_written,
        syntax_valid: response.syntax_valid,
    }
}

/// Reports a rename.
pub fn rename_response_payload(response: RenameResponse) -> (res: RenameResponsePayload)
    ensures
        res == (RenameResponsePayload {
            file: response.file,
            bytes_written: response.bytes_written,
            occurrences_renamed: response.occurrences_renamed,
            syntax_valid: response.syntax_valid,
        }),
{
    RenameResponsePayload {
        file: response.file,
        bytes_written: response.bytes_written,
        occurrences_renamed: response.occurrences_renamed,
        syntax_valid: response.syntax_valid,
    }
}

} // verus!
