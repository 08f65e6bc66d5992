//! The storage abstraction: one entry type for every backend, and the
//! dispatch from a location string to the backend that serves it.

use vstd::prelude::*;

use crate::local::LocalStorage;
use crate::nfs::{parse_nfs_path, NfsPathError, NFSStorage};
use crate::s3::S3Storage;
use crate::text;
use crate::text::{
    chars_to_string, is_prefix_of, is_suffix_of, slice_range, starts_with, string_to_chars,
};

verus! {

/// One filesystem object surfaced by a walker, for any backend.
///
/// Times are milliseconds since the Unix epoch, `None` when the backend
/// does not provide them.  The NFS file handle is kept as opaque bytes
/// and never read above the walker layer.
#[derive(Debug, Clone)]
pub struct StorageEntry {
    /// The file or directory name.
    pub name: String,
    /// The full path.
    pub path: String,
    /// The path with the scan root stripped; empty for the root itself.
    pub relative_path: String,
    /// Is the entry a directory?  A symlink to a directory is reported
    /// as a symlink, not a directory.
    pub is_dir: bool,
    /// Is the entry a symbolic link?
    pub is_symlink: bool,
    /// Size in bytes; for directories, backend-defined.
    pub size: u64,
    /// Modification time.
    pub modified: Option<i64>,
    /// Access time.
    pub accessed: Option<i64>,
    /// Creation (or change) time.
    pub created: Option<i64>,
    /// The NFS file handle, when the entry came from NFS.
    pub nfs_fh: Option<Vec<u8>>,
    /// POSIX permission bits, when known.
    pub mode: Option<u32>,
    /// Number of hard links, when known; at least 1.
    pub hard_links: Option<u8>,
}

/// The invariants every walker maintains: a directory is never also a
/// symlink, the relative path is a suffix of the path, and a hard-link
/// count, when present, is at least one.
pub open spec fn entry_wf(e: StorageEntry) -> bool {
    &&& !(e.is_dir && e.is_symlink)
    &&& is_suffix_of(e.relative_path@, e.path@)
    &&& match e.hard_links {
        Some(n) => n >= 1,
        None => true,
    }
}

/// `target` with the prefix `base` stripped, component-wise.
///
/// When `base` (with a `/` separator after it) is not a prefix of
/// `target`, the target is returned unchanged; when the two are equal
/// the result is empty.
pub open spec fn spec_relative(target: Seq<char>, base: Seq<char>) -> Seq<char> {
    if target == base {
        Seq::empty()
    } else if base.len() > 0 && base.last() == '/' && is_prefix_of(base, target) {
        target.skip(base.len() as int)
    } else if is_prefix_of(base + seq!['/'], target) {
        target.skip(base.len() as int + 1)
    } else {
        target
    }
}

/// Strip the scan root `base` from `target`, giving the relative path.
pub fn get_relative_path(target: &str, base: &str) -> (r: String)
    ensures
        r@ == spec_relative(target@, base@),
        is_suffix_of(r@, target@),
{
    let t = string_to_chars(target);
    let b = string_to_chars(base);
    let tl = t.len();
    let bl = b.len();
    if text::chars_eq(t.as_slice(), b.as_slice()) {
        proof {
            assert(Seq::<char>::empty() =~= t@.skip(tl as int));
        }
        return chars_to_string(Vec::new());
    }
    if bl > 0 && b[bl - 1] == '/' && starts_with(t.as_slice(), b.as_slice()) {
        let rest = slice_range(t.as_slice(), bl, tl);
        proof {
            assert(rest@ =~= t@.skip(bl as int));
        }
        return chars_to_string(rest);
    }
    let mut bslash = b;
    bslash.push('/');
    proof {
        assert(bslash@ =~= base@ + seq!['/']);
    }
    if starts_with(t.as_slice(), bslash.as_slice()) {
        let rest = slice_range(t.as_slice(), bl + 1, tl);
        proof {
            assert(rest@ =~= t@.skip(bl + 1));
        }
        return chars_to_string(rest);
    }
    proof {
        assert(t@.skip(0) =~= t@);
    }
    chars_to_string(t)
}

/// A suffix relation is kept by every branch of `spec_relative`:
/// the relative path always ends the full path.
pub proof fn lemma_relative_is_suffix(target: Seq<char>, base: Seq<char>)
    ensures
        is_suffix_of(spec_relative(target, base), target),
{
    let r = spec_relative(target, base);
    if target == base {
        assert(r =~= target.skip(target.len() as int));
    } else if base.len() > 0 && base.last() == '/' && is_prefix_of(base, target) {
        assert(target.skip(target.len() - r.len()) =~= r);
    } else if is_prefix_of(base + seq!['/'], target) {
        assert(target.skip(target.len() - r.len()) =~= r);
    } else {
        assert(target.skip(0) =~= target);
    }
}

/// The storage backends.
pub enum StorageType {
    /// A directory on the local filesystem.
    Local(LocalStorage),
    /// An NFSv3 export.
    NFS(NFSStorage),
    /// An S3 bucket (interface only).
    S3(S3Storage),
}

/// Why a storage location was rejected.
#[derive(Debug, Clone, Copy, PartialEq, Eq, Structural)]
pub enum StorageError {
    /// The `nfs://` (or traditional) NFS location is malformed.
    BadNfsPath(NfsPathError),
}

impl StorageType {
    /// Is this the local backend?
    pub fn is_local(&self) -> (r: bool)
        ensures
            r == (*self is Local),
    {
        match self {
            StorageType::Local(_) => true,
            _ => false,
        }
    }

    /// The root that relative paths are taken against: the local root
    /// directory, `/` for NFS, and the bucket name for S3.
    pub fn get_root(&self) -> (r: String)
        ensures
            match self {
                StorageType::Local(s) => r@ == s.root@,
                StorageType::NFS(_) => r@ == "/"@,
                StorageType::S3(s) => r@ == s.bucket@,
            },
    {
        match self {
            StorageType::Local(s) => {
                let c = string_to_chars(s.get_root());
                chars_to_string(c)
            },
            StorageType::NFS(_) => {
                let mut v: Vec<char> = Vec::new();
                v.push('/');
                proof {
                    reveal_strlit("/");
                    assert(v@ =~= "/"@);
                }
                chars_to_string(v)
            },
            StorageType::S3(s) => {
                let c = string_to_chars(s.bucket());
                chars_to_string(c)
            },
        }
    }
}

/// Pick the backend for a location: `nfs://` goes to NFS, `s3://` to
/// S3, everything else is a local path (taken as given; resolving it to
/// a canonical absolute path is the caller's business).
///
/// The S3 backend here carries only the bucket name; region and
/// credentials are supplied by the caller that actually connects.
pub fn create_storage(path: &str) -> (r: Result<StorageType, StorageError>)
    ensures
        match r {
            Ok(st) => match st {
                StorageType::NFS(n) => is_prefix_of("nfs://"@, text::spec_trim(path@))
                    && crate::nfs::spec_parse_nfs(path@) == Ok::<_, NfsPathError>(
                    (n.server_ip@, n.portmapper_port, n.path@),
                ),
                StorageType::S3(s) => is_prefix_of("s3://"@, path@) && s.bucket@
                    == crate::s3::spec_bucket_of(path@.skip(5)),
                StorageType::Local(l) => !is_prefix_of("s3://"@, path@) && !is_prefix_of(
                    "nfs://"@,
                    text::spec_trim(path@),
                ) && l.root@ == path@,
            },
            Err(StorageError::BadNfsPath(e)) => crate::nfs::spec_parse_nfs(path@) == Err::<
                (Seq<char>, u16, Seq<char>),
                _,
            >(e),
        },
{
    let chars = string_to_chars(path);
    let nfs_prefix = string_to_chars("nfs://");
    let s3_prefix = string_to_chars("s3://");
    let trimmed = text::trim(chars.as_slice());
    if starts_with(trimmed.as_slice(), nfs_prefix.as_slice()) {
        match parse_nfs_path(path) {
            Ok((server, port, mount)) => Ok(
                StorageType::NFS(NFSStorage::new(server, Some(port), Some(mount))),
            ),
            Err(e) => Err(StorageError::BadNfsPath(e)),
        }
    } else if starts_with(chars.as_slice(), s3_prefix.as_slice()) {
        proof {
            reveal_strlit("s3://");
            assert("s3://"@.len() == 5);
        }
        let rest = slice_range(chars.as_slice(), 5, chars.len());
        proof {
            assert(rest@ =~= path@.skip(5));
        }
        let bucket = crate::s3::parse_s3_bucket(rest.as_slice());
        Ok(
            StorageType::S3(
                S3Storage::new(
                    bucket,
                    String::new(),
                    String::new(),
                    String::new(),
                ),
            ),
        )
    } else {
        let c = string_to_chars(path);
        Ok(StorageType::Local(LocalStorage::new(chars_to_string(c))))
    }
}

/// Split a signed duration since the Unix epoch into seconds and a
/// positive nanosecond remainder, the form wire protocols use.
///
/// For an instant before the epoch with a nonzero nanosecond part, the
/// second count is rounded down and the nanoseconds count up from it,
/// so that `secs * 1_000_000_000 + nanos` always equals the input.
pub fn split_epoch_duration(secs: u64, nanos: u32, before_epoch: bool) -> (r: (i64, u32))
    requires
        secs <= i64::MAX as u64,
        nanos < 1_000_000_000,
    ensures
        r.1 < 1_000_000_000,
        (r.0 as int) * 1_000_000_000 + r.1 == if before_epoch {
            -((secs as int) * 1_000_000_000 + nanos)
        } else {
            (secs as int) * 1_000_000_000 + nanos
        },
{
    if !before_epoch {
        (secs as i64, nanos)
    } else {
        if nanos == 0 {
            (-(secs as i64), 0)
        } else {
            let s = -(secs as i64) - 1;
            let n = 1_000_000_000 - nanos;
            proof {
                assert((s as int) * 1_000_000_000 == (-(secs as int) - 1) * 1_000_000_000)
                    by (nonlinear_arith)
                    requires
                        s as int == -(secs as int) - 1,
                ;
                assert((-(secs as int) - 1) * 1_000_000_000 == -(secs as int) * 1_000_000_000
                    - 1_000_000_000) by (nonlinear_arith);
                assert(-(secs as int) * 1_000_000_000 == -((secs as int) * 1_000_000_000))
                    by (nonlinear_arith);
            }
            (s, n)
        }
    }
}

} // verus!

verus! {

/// How many bytes a sectioned read or write may move next: the
/// buffer's length, capped by what remains before the section limit.
pub fn section_chunk_len(current_pos: u64, limit: u64, buf_len: usize) -> (r: usize)
    ensures
        current_pos >= limit ==> r == 0,
        current_pos < limit ==> r == if (buf_len as int) <= limit - current_pos {
            buf_len as int
        } else {
            limit - current_pos
        },
{
    if current_pos >= limit {
        return 0;
    }
    let remaining: u64 = limit - current_pos;
    if (buf_len as u64) <= remaining {
        buf_len
    } else {
        remaining as usize
    }
}

} // verus!
