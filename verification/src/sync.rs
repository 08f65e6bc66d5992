//! Sync mode: the same scan pipeline, plus a copy decision for every
//! surviving entry.  The byte transfer itself is outside work; this
//! module decides which entries are copied and where to.

use vstd::prelude::*;

use crate::filter::FilterExpression;
use crate::scan::{ScanParams, StorageEntity};
use crate::text::{append_chars, chars_to_string, string_to_chars};

verus! {

/// What a sync was asked to do.
#[derive(Debug, Clone)]
pub struct SyncParams {
    /// The job id, when the caller supplied one.
    pub id: Option<String>,
    /// The scan half of the work.
    pub scan_params: ScanParams,
    /// The source location.
    pub src_path: String,
    /// The destination location.
    pub dest_path: String,
    /// Checksum the copied files?
    pub enable_md5: bool,
}

impl Default for SyncParams {
    /// Copy the current directory onto itself, without checksums.
    fn default() -> (r: Self)
        ensures
            r.id is None,
            r.src_path@ == "."@,
            r.dest_path@ == "."@,
            !r.enable_md5,
            r.scan_params.depth == 1,
            r.scan_params.scan_type is Full,
    {
        SyncParams {
            id: None,
            scan_params: ScanParams::default(),
            src_path: chars_to_string(string_to_chars(".")),
            dest_path: chars_to_string(string_to_chars(".")),
            enable_md5: false,
        }
    }
}

/// A sync's parameters with its expressions already parsed.
#[derive(Debug, Clone)]
pub struct SyncConfig {
    /// The parameters as given.
    pub params: SyncParams,
    /// The parsed match expressions.
    pub expressions: Vec<FilterExpression>,
    /// The parsed exclude expressions.
    pub exclude_expressions: Vec<FilterExpression>,
}

/// Where a surviving entry is copied to, if anywhere: only files with
/// a non-empty relative path are copied (the scan root itself is not),
/// and only when both endpoints are on the local filesystem; the
/// destination is the relative path under the destination root.
pub fn sync_action(
    entity: &StorageEntity,
    src_is_local: bool,
    dest_is_local: bool,
    dest_root: &str,
) -> (r: Option<String>)
    ensures
        (r is Some) == (src_is_local && dest_is_local && !entity.is_dir
            && entity.relative_path@.len() > 0),
        r matches Some(p) ==> p@ == dest_root@ + seq!['/'] + entity.relative_path@,
{
    if src_is_local && dest_is_local && !entity.is_dir && entity.relative_path.as_str().unicode_len()
        > 0 {
        let mut out = string_to_chars(dest_root);
        out.push('/');
        let rel = string_to_chars(entity.relative_path.as_str());
        append_chars(&mut out, rel.as_slice());
        proof {
            assert(out@ =~= dest_root@ + seq!['/'] + entity.relative_path@);
        }
        Some(chars_to_string(out))
    } else {
        None
    }
}

} // verus!
