//! Access-control-list reporting.  The platform probing is switched
//! off; every file reads as readable and carries an empty ACL, so the
//! interface stays callable while promising exactly that.

use vstd::prelude::*;

use crate::text::{chars_to_string, string_to_chars};

verus! {

/// Whether an ACL entry grants or denies.
#[derive(Debug, Clone, Copy, PartialEq, Eq, Structural)]
pub enum AclAccessType {
    /// The entry grants its rights.
    Allow,
    /// The entry denies its rights.
    Deny,
}

/// One entry of an access control list.
#[derive(Debug, Clone)]
pub struct AclEntry {
    /// Grant or deny.
    pub access_type: AclAccessType,
    /// The account the entry speaks about.
    pub account: String,
    /// The rights granted or denied.
    pub rights: Vec<String>,
    /// Was the entry inherited from a parent?
    pub is_inherited: bool,
}

/// A file's ACL information.
#[derive(Debug, Clone)]
pub struct FileAclInfo {
    /// The owning account.
    pub owner: String,
    /// The owning group.
    pub group: String,
    /// The entries.
    pub permissions: Vec<AclEntry>,
}

/// With ACL probing switched off, every file reads as readable.
pub fn is_file_readable(file_path: &str) -> (r: bool)
    ensures
        r,
{
    let _ = file_path;
    true
}

/// With ACL probing switched off, every file carries the placeholder
/// owner and group and an empty entry list.
pub fn get_file_acl(file_path: &str) -> (r: FileAclInfo)
    ensures
        r.owner@ == "Disabled"@,
        r.group@ == "Disabled"@,
        r.permissions@.len() == 0,
{
    let _ = file_path;
    FileAclInfo {
        owner: chars_to_string(string_to_chars("Disabled")),
        group: chars_to_string(string_to_chars("Disabled")),
        permissions: Vec::new(),
    }
}

} // verus!
