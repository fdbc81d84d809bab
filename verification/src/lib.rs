use vstd::prelude::*;

pub mod foreign;
pub mod grammar;
pub mod parsed;
pub mod patch;
pub mod probe;
pub mod rename;
pub mod scan;
pub mod server;
pub mod syntax;
pub mod text;

pub use patch::{apply_patch, PatchError, PatchRequest, PatchResponse, PatchedFile};
pub use probe::{
    ast_probe, squeeze, ProbeError, ProbeRequest, ProbeResponse, SqueezeRequest, SqueezeResponse,
};
pub use rename::{apply_rename, RenameError, RenameRequest, RenameResponse, RenamedFile};
pub use scan::{scan_keywords, ScanError, ScanMatch, ScanRequest, SourceFile};
pub use server::ServerError;
