//! NFS path handling and the NFS walker's decision logic.
//!
//! An NFS location is written in one of four forms, resolved in this
//! order: `nfs://server[:port]/path`, `server:port:path`, `server:path`
//! and `server` alone.  The server name must be non-empty, the port (if
//! present) must fit a `u16`, and the path is normalized to start with
//! `/`.

use vstd::prelude::*;

use crate::text;
use crate::text::{
    chars_eq, chars_to_string, is_prefix_of, lemma_spec_find, slice_range, spec_find,
    spec_parse_u64, spec_trim, string_to_chars, trim,
};

verus! {

/// The portmapper port, the default when no port is given.
pub const NFS_DEFAULT_PORT: u16 = 111;

/// Why an NFS path failed to parse.
#[derive(Debug, Clone, Copy, PartialEq, Eq, Structural)]
pub enum NfsPathError {
    /// The path is empty (or only whitespace).
    Empty,
    /// An `nfs://` URL has no `/path` part.
    MissingPath,
    /// The server name is empty.
    EmptyServer,
    /// A port position is present but blank.
    EmptyPort,
    /// The port is not a number between 0 and 65535.
    InvalidPort,
    /// A path position is present but blank.
    EmptyPath,
}

impl NfsPathError {
    /// A short description of the error.
    pub fn message(&self) -> (r: &'static str) {
        match self {
            NfsPathError::Empty => "invalid NFS path: empty string",
            NfsPathError::MissingPath => "invalid NFS URL: missing path part",
            NfsPathError::EmptyServer => "invalid NFS path: server name must not be empty",
            NfsPathError::EmptyPort => "invalid NFS path: port must not be empty",
            NfsPathError::InvalidPort => "invalid NFS path: bad port number",
            NfsPathError::EmptyPath => "invalid NFS path: path must not be empty",
        }
    }
}

/// A parsed port: a decimal number that fits a `u16`.
pub open spec fn spec_parse_port(s: Seq<char>) -> Option<u16> {
    match spec_parse_u64(s) {
        Some(v) => if v <= 65535 {
            Some(v as u16)
        } else {
            None
        },
        None => None,
    }
}

/// A path normalized to start with `/`.
pub open spec fn spec_slash(p: Seq<char>) -> Seq<char> {
    if p.len() > 0 && p[0] == '/' {
        p
    } else {
        seq!['/'] + p
    }
}

/// A server part split into server name and port: `server[:port]`,
/// both sides trimmed.
pub open spec fn spec_server_port(sp: Seq<char>) -> Result<(Seq<char>, u16), NfsPathError> {
    let t = spec_trim(sp);
    if t.len() == 0 {
        Err(NfsPathError::EmptyServer)
    } else {
        match spec_find(t, seq![':']) {
            None => Ok((t, NFS_DEFAULT_PORT)),
            Some(i) => {
                let server = spec_trim(t.take(i));
                let port_str = spec_trim(t.skip(i + 1));
                if server.len() == 0 {
                    Err(NfsPathError::EmptyServer)
                } else if port_str.len() == 0 {
                    Err(NfsPathError::EmptyPort)
                } else {
                    match spec_parse_port(port_str) {
                        Some(p) => Ok((server, p)),
                        None => Err(NfsPathError::InvalidPort),
                    }
                }
            },
        }
    }
}

/// An `nfs://`-less URL: everything up to the first `/` names the
/// server (with an optional port); the rest, slash included, is the
/// path.
pub open spec fn spec_parse_url(rest: Seq<char>) -> Result<
    (Seq<char>, u16, Seq<char>),
    NfsPathError,
> {
    match spec_find(rest, seq!['/']) {
        None => Err(NfsPathError::MissingPath),
        Some(i) => {
            let path = rest.skip(i);
            match spec_server_port(rest.take(i)) {
                Ok((server, port)) => Ok((server, port, path)),
                Err(e) => Err(e),
            }
        },
    }
}

/// The traditional forms: `server`, `server:path` and
/// `server:port:path` (a path may itself contain further colons).
pub open spec fn spec_parse_traditional(s: Seq<char>) -> Result<
    (Seq<char>, u16, Seq<char>),
    NfsPathError,
> {
    match spec_find(s, seq![':']) {
        None => {
            let server = spec_trim(s);
            if server.len() == 0 {
                Err(NfsPathError::EmptyServer)
            } else {
                Ok((server, NFS_DEFAULT_PORT, seq!['/']))
            }
        },
        Some(i1) => {
            let after1 = s.skip(i1 + 1);
            let server = spec_trim(s.take(i1));
            match spec_find(after1, seq![':']) {
                None => {
                    let path = spec_trim(after1);
                    if server.len() == 0 {
                        Err(NfsPathError::EmptyServer)
                    } else if path.len() == 0 {
                        Err(NfsPathError::EmptyPath)
                    } else {
                        Ok((server, NFS_DEFAULT_PORT, spec_slash(path)))
                    }
                },
                Some(i2) => {
                    let port_str = spec_trim(after1.take(i2));
                    let path = spec_trim(after1.skip(i2 + 1));
                    if server.len() == 0 {
                        Err(NfsPathError::EmptyServer)
                    } else if port_str.len() == 0 {
                        Err(NfsPathError::EmptyPort)
                    } else if path.len() == 0 {
                        Err(NfsPathError::EmptyPath)
                    } else {
                        match spec_parse_port(port_str) {
                            Some(p) => Ok((server, p, spec_slash(path))),
                            None => Err(NfsPathError::InvalidPort),
                        }
                    }
                },
            }
        },
    }
}

/// A full NFS location: trimmed, then read as a URL when it starts
/// with `nfs://`, else in the traditional forms.
pub open spec fn spec_parse_nfs(input: Seq<char>) -> Result<
    (Seq<char>, u16, Seq<char>),
    NfsPathError,
> {
    let s = spec_trim(input);
    if s.len() == 0 {
        Err(NfsPathError::Empty)
    } else if is_prefix_of("nfs://"@, s) {
        spec_parse_url(s.skip(6))
    } else {
        spec_parse_traditional(s)
    }
}

/// Index of the first occurrence of the single character `c`.
fn find_one(s: &[char], c: char) -> (r: Option<usize>)
    ensures
        match r {
            Some(i) => spec_find(s@, seq![c]) == Some(i as int),
            None => spec_find(s@, seq![c]) is None,
        },
{
    let mut p: Vec<char> = Vec::new();
    p.push(c);
    proof {
        assert(p@ =~= seq![c]);
    }
    text::find_sub(s, p.as_slice())
}

/// Parse a port number.
fn parse_port_chars(s: &[char]) -> (r: Option<u16>)
    ensures
        r == spec_parse_port(s@),
{
    match text::parse_u64_chars(s) {
        Some(v) => if v <= 65535 {
            Some(v as u16)
        } else {
            None
        },
        None => None,
    }
}

/// Split a server part into server name and port.
fn server_port_chars(sp: &[char]) -> (r: Result<(Vec<char>, u16), NfsPathError>)
    ensures
        match r {
            Ok((server, port)) => spec_server_port(sp@) == Ok::<_, NfsPathError>(
                (server@, port),
            ),
            Err(e) => spec_server_port(sp@) == Err::<(Seq<char>, u16), _>(e),
        },
{
    let t = trim(sp);
    if t.len() == 0 {
        return Err(NfsPathError::EmptyServer);
    }
    let tl = t.len();
    match find_one(t.as_slice(), ':') {
        None => Ok((t, NFS_DEFAULT_PORT)),
        Some(i) => {
            proof {
                lemma_spec_find(t@, seq![':']);
            }
            let server = trim(slice_range(t.as_slice(), 0, i).as_slice());
            proof {
                assert(t@.subrange(0, i as int) =~= t@.take(i as int));
            }
            let port_raw = slice_range(t.as_slice(), i + 1, tl);
            proof {
                assert(port_raw@ =~= t@.skip(i + 1));
            }
            let port_str = trim(port_raw.as_slice());
            if server.len() == 0 {
                Err(NfsPathError::EmptyServer)
            } else if port_str.len() == 0 {
                Err(NfsPathError::EmptyPort)
            } else {
                match parse_port_chars(port_str.as_slice()) {
                    Some(p) => Ok((server, p)),
                    None => Err(NfsPathError::InvalidPort),
                }
            }
        },
    }
}

/// Parse an NFS location into server name, port and export path.
///
/// Accepted forms, in this order: `nfs://server[:port]/path`,
/// `server:port:path`, `server:path` (default port) and `server` alone
/// (default port, root path).  Paths of the traditional forms are
/// normalized to start with `/`.
pub fn parse_nfs_path(nfs_path: &str) -> (r: Result<(String, u16, String), NfsPathError>)
    ensures
        match r {
            Ok((server, port, path)) => spec_parse_nfs(nfs_path@) == Ok::<_, NfsPathError>(
                (server@, port, path@),
            ),
            Err(e) => spec_parse_nfs(nfs_path@) == Err::<(Seq<char>, u16, Seq<char>), _>(e),
        },
{
    let chars = string_to_chars(nfs_path);
    let sv = trim(chars.as_slice());
    let s = sv.as_slice();
    let sl = s.len();
    if sl == 0 {
        return Err(NfsPathError::Empty);
    }
    let prefix = string_to_chars("nfs://");
    proof {
        reveal_strlit("nfs://");
        assert("nfs://"@.len() == 6);
    }
    if text::starts_with(s, prefix.as_slice()) {
        // URL form
        let rest = slice_range(s, 6, sl);
        proof {
            assert(rest@ =~= sv@.skip(6));
        }
        let rl = rest.len();
        match find_one(rest.as_slice(), '/') {
            None => Err(NfsPathError::MissingPath),
            Some(i) => {
                proof {
                    lemma_spec_find(rest@, seq!['/']);
                }
                let path_part = slice_range(rest.as_slice(), i, rl);
                let server_part = slice_range(rest.as_slice(), 0, i);
                proof {
                    assert(path_part@ =~= rest@.skip(i as int));
                    assert(server_part@ =~= rest@.take(i as int));
                }
                match server_port_chars(server_part.as_slice()) {
                    Ok((server, port)) => Ok(
                        (chars_to_string(server), port, chars_to_string(path_part)),
                    ),
                    Err(e) => Err(e),
                }
            },
        }
    } else {
        // traditional forms
        match find_one(s, ':') {
            None => {
                // the whole (trimmed) text is the server name
                let server = slice_range(s, 0, sl);
                proof {
                    assert(server@ =~= sv@);
                    assert(spec_trim(sv@) == sv@) by {
                        crate::text::lemma_trim_idem(chars@);
                    }
                    assert(seq!['/'] =~= "/"@) by {
                        reveal_strlit("/");
                    }
                }
                let root = chars_to_string(string_to_chars("/"));
                Ok((chars_to_string(server), NFS_DEFAULT_PORT, root))
            },
            Some(i1) => {
                proof {
                    lemma_spec_find(sv@, seq![':']);
                }
                let after1 = slice_range(s, i1 + 1, sl);
                let server = trim(slice_range(s, 0, i1).as_slice());
                proof {
                    assert(after1@ =~= sv@.skip(i1 + 1));
                    assert(sv@.subrange(0, i1 as int) =~= sv@.take(i1 as int));
                }
                let al = after1.len();
                match find_one(after1.as_slice(), ':') {
                    None => {
                        let path = trim(after1.as_slice());
                        if server.len() == 0 {
                            Err(NfsPathError::EmptyServer)
                        } else if path.len() == 0 {
                            Err(NfsPathError::EmptyPath)
                        } else {
                            Ok(
                                (
                                    chars_to_string(server),
                                    NFS_DEFAULT_PORT,
                                    chars_to_string(slashed(path)),
                                ),
                            )
                        }
                    },
                    Some(i2) => {
                        proof {
                            lemma_spec_find(after1@, seq![':']);
                        }
                        let port_str = trim(slice_range(after1.as_slice(), 0, i2).as_slice());
                        proof {
                            assert(after1@.subrange(0, i2 as int) =~= after1@.take(i2 as int));
                        }
                        let path_raw = slice_range(after1.as_slice(), i2 + 1, al);
                        proof {
                            assert(path_raw@ =~= after1@.skip(i2 + 1));
                        }
                        let path = trim(path_raw.as_slice());
                        if server.len() == 0 {
                            Err(NfsPathError::EmptyServer)
                        } else if port_str.len() == 0 {
                            Err(NfsPathError::EmptyPort)
                        } else if path.len() == 0 {
                            Err(NfsPathError::EmptyPath)
                        } else {
                            match parse_port_chars(port_str.as_slice()) {
                                Some(p) => Ok(
                                    (chars_to_string(server), p, chars_to_string(slashed(path))),
                                ),
                                None => Err(NfsPathError::InvalidPort),
                            }
                        }
                    },
                }
            },
        }
    }
}

/// Prepend `/` unless the path already starts with one.
fn slashed(p: Vec<char>) -> (r: Vec<char>)
    ensures
        r@ == spec_slash(p@),
{
    if p.len() > 0 {
        let c = p[0];
        if c == '/' {
            return p;
        }
    }
    let mut r: Vec<char> = Vec::new();
    r.push('/');
    text::append_chars(&mut r, p.as_slice());
    proof {
        assert(r@ =~= seq!['/'] + p@);
    }
    r
}

} // verus!

verus! {

/// Nanoseconds from a seconds/nanoseconds pair.  For the 32-bit inputs
/// of NFSv3 the product can never overflow a signed 64-bit count, so
/// this always succeeds; the `Option` mirrors the checked arithmetic.
pub fn from_secs_nsecs_to_nsecs(seconds: u32, nseconds: u32) -> (r: Option<i64>)
    ensures
        r matches Some(v) && v as int == (seconds as int) * 1_000_000_000 + nseconds as int,
{
    let secs_i64: i64 = seconds as i64;
    proof {
        assert((seconds as i64) * 1_000_000_000 <= 0xFFFF_FFFFi64 * 1_000_000_000)
            by (nonlinear_arith)
            requires
                0 <= seconds as i64 <= 0xFFFF_FFFFi64,
        ;
    }
    let secs_as_nanos = secs_i64 * 1_000_000_000;
    Some(secs_as_nanos + nseconds as i64)
}

/// Split a non-negative nanosecond count back into seconds and
/// nanoseconds; `None` for a negative count or seconds beyond `u32`.
pub fn from_nanos_to_secs_nsecs(nanos: i64) -> (r: Option<(u32, u32)>)
    ensures
        match r {
            Some((s, ns)) => nanos >= 0 && s == nanos as int / 1_000_000_000 && ns == nanos as int
                % 1_000_000_000,
            None => nanos < 0 || nanos as int / 1_000_000_000 > u32::MAX,
        },
{
    if nanos < 0 {
        return None;
    }
    let seconds = nanos / 1_000_000_000;
    let remaining = nanos % 1_000_000_000;
    if seconds <= u32::MAX as i64 {
        Some((seconds as u32, remaining as u32))
    } else {
        None
    }
}

/// An NFSv3 export location: server, portmapper port and export path.
#[derive(Debug, Clone)]
pub struct NFSStorage {
    /// The server name or address.
    pub server_ip: String,
    /// The portmapper port.
    pub portmapper_port: u16,
    /// The export path.
    pub path: String,
}

impl NFSStorage {
    /// An export location; the port defaults to the portmapper port,
    /// the path to `/`.
    pub fn new(server_ip: String, portmapper_port: Option<u16>, path: Option<String>) -> (r:
        NFSStorage)
        ensures
            r.server_ip@ == server_ip@,
            r.portmapper_port == match portmapper_port {
                Some(p) => p,
                None => NFS_DEFAULT_PORT,
            },
            r.path@ == match path {
                Some(p) => p@,
                None => "/"@,
            },
    {
        let port = match portmapper_port {
            Some(p) => p,
            None => NFS_DEFAULT_PORT,
        };
        let path = match path {
            Some(p) => p,
            None => {
                let mut v: Vec<char> = Vec::new();
                v.push('/');
                proof {
                    reveal_strlit("/");
                    assert(v@ =~= "/"@);
                }
                chars_to_string(v)
            },
        };
        NFSStorage { server_ip, portmapper_port: port, path }
    }

    /// The server name or address.
    pub fn server_ip(&self) -> (r: &str)
        ensures
            r@ == self.server_ip@,
    {
        self.server_ip.as_str()
    }

    /// The portmapper port.
    pub fn portmapper_port(&self) -> (r: u16)
        ensures
            r == self.portmapper_port,
    {
        self.portmapper_port
    }

    /// The export path, when one was given.
    pub fn path(&self) -> (r: &str)
        ensures
            r@ == self.path@,
    {
        self.path.as_str()
    }
}

/// Should the walk descend into a directory found at `current_depth`?
/// Depth 0 means unbounded; depth N stops the recursion so that only
/// the root and N further levels are listed.
pub fn should_recurse(is_dir: bool, current_depth: usize, max_depth: usize) -> (r: bool)
    ensures
        r == (is_dir && (max_depth == 0 || current_depth < max_depth - 1)),
{
    is_dir && (max_depth == 0 || current_depth < max_depth - 1)
}

/// Is the name one of the synthetic `.` / `..` entries, which are
/// never emitted?
pub fn is_dot_entry(name: &str) -> (r: bool)
    ensures
        r == (name@ == "."@ || name@ == ".."@),
{
    let n = string_to_chars(name);
    let dot = string_to_chars(".");
    let dotdot = string_to_chars("..");
    let a = chars_eq(n.as_slice(), dot.as_slice());
    let b = chars_eq(n.as_slice(), dotdot.as_slice());
    a || b
}

/// The type of an NFS directory entry, from its attribute block.
#[derive(Debug, Clone, Copy, PartialEq, Eq, Structural)]
pub enum NfsEntryType {
    /// A directory.
    Directory,
    /// A symbolic link.
    Symlink,
    /// Anything else (regular file, socket, device, ...).
    Other,
}

/// The attribute values of one NFS directory entry, as plain numbers.
/// Times are NFSv3 `(seconds, nseconds)` pairs.
#[derive(Debug, Clone, Copy)]
pub struct NfsAttrs {
    /// The entry type.
    pub entry_type: NfsEntryType,
    /// Size in bytes.
    pub size: u64,
    /// Modification time.
    pub mtime_s: u32,
    /// Modification time, nanosecond part.
    pub mtime_ns: u32,
    /// Access time.
    pub atime_s: u32,
    /// Access time, nanosecond part.
    pub atime_ns: u32,
    /// Change time.
    pub ctime_s: u32,
    /// Change time, nanosecond part.
    pub ctime_ns: u32,
    /// Permission bits.
    pub mode: u32,
    /// Number of hard links.
    pub nlink: u32,
}

/// An NFS time as milliseconds since the epoch.
pub open spec fn nfs_time_ms(s: u32, ns: u32) -> int {
    (s as int) * 1000 + (ns as int) / 1_000_000
}

/// The full path of an entry under `dir_path`: joined with `/` unless
/// the directory already ends with one.
pub open spec fn spec_join_path(dir: Seq<char>, name: Seq<char>) -> Seq<char> {
    if dir.len() > 0 && dir.last() == '/' {
        dir + name
    } else {
        dir + seq!['/'] + name
    }
}

/// Join a directory path and an entry name.
pub fn join_path(dir: &str, name: &str) -> (r: String)
    ensures
        r@ == spec_join_path(dir@, name@),
{
    let d = string_to_chars(dir);
    let n = string_to_chars(name);
    let dl = d.len();
    let mut out = d;
    if !(dl > 0 && out[dl - 1] == '/') {
        out.push('/');
    }
    text::append_chars(&mut out, n.as_slice());
    proof {
        if dir@.len() > 0 && dir@.last() == '/' {
            assert(out@ =~= dir@ + name@);
        } else {
            assert(out@ =~= dir@ + seq!['/'] + name@);
        }
    }
    chars_to_string(out)
}

/// Build the entry for one NFS directory item from its name, the
/// directory it sits in, and its attribute block (when the server sent
/// one; without attributes the entry is reported as a regular file of
/// size 0 with mode `0o644` and one hard link, at the epoch).
///
/// The entry's full path joins the directory and the name; the
/// relative path strips the directory again.  A directory is never
/// also a symlink, since both come from one type field.  A hard-link
/// count wider than `u8` saturates at 255, and a server-sent count of
/// zero is reported as 1.
pub fn build_nfs_entry(name: String, dir_path: &str, attrs: Option<&NfsAttrs>) -> (r:
    crate::storage::StorageEntry)
    ensures
        crate::storage::entry_wf(r),
        r.name@ == name@,
        r.path@ == spec_join_path(dir_path@, name@),
        r.relative_path@ == crate::storage::spec_relative(r.path@, dir_path@),
        match attrs {
            Some(a) => {
                &&& r.is_dir == (a.entry_type is Directory)
                &&& r.is_symlink == (a.entry_type is Symlink)
                &&& r.size == a.size
                &&& r.modified == Some(nfs_time_ms(a.mtime_s, a.mtime_ns) as i64)
                &&& r.accessed == Some(nfs_time_ms(a.atime_s, a.atime_ns) as i64)
                &&& r.created == Some(nfs_time_ms(a.ctime_s, a.ctime_ns) as i64)
                &&& r.mode == Some(a.mode)
                &&& match r.hard_links {
                    Some(h) => h as int == if a.nlink == 0 {
                        1int
                    } else if a.nlink > 255 {
                        255int
                    } else {
                        a.nlink as int
                    },
                    None => false,
                }
            },
            None => {
                &&& !r.is_dir
                &&& !r.is_symlink
                &&& r.size == 0
                &&& r.modified == Some(0i64)
                &&& r.accessed == Some(0i64)
                &&& r.created == Some(0i64)
                &&& r.mode == Some(0o644u32)
                &&& r.hard_links == Some(1u8)
            },
        },
{
    let full_path = join_path(dir_path, name.as_str());
    let relative_path = crate::storage::get_relative_path(full_path.as_str(), dir_path);
    match attrs {
        Some(a) => {
            let is_dir = match a.entry_type {
                NfsEntryType::Directory => true,
                _ => false,
            };
            let is_symlink = match a.entry_type {
                NfsEntryType::Symlink => true,
                _ => false,
            };
            let hard_links: u8 = if a.nlink == 0 {
                1
            } else if a.nlink > 255 {
                255
            } else {
                a.nlink as u8
            };
            crate::storage::StorageEntry {
                name,
                path: full_path,
                relative_path,
                is_dir,
                is_symlink,
                size: a.size,
                modified: Some(nfs_time_ms_exec(a.mtime_s, a.mtime_ns)),
                accessed: Some(nfs_time_ms_exec(a.atime_s, a.atime_ns)),
                created: Some(nfs_time_ms_exec(a.ctime_s, a.ctime_ns)),
                nfs_fh: None,
                mode: Some(a.mode),
                hard_links: Some(hard_links),
            }
        },
        None => crate::storage::StorageEntry {
            name,
            path: full_path,
            relative_path,
            is_dir: false,
            is_symlink: false,
            size: 0,
            modified: Some(0),
            accessed: Some(0),
            created: Some(0),
            nfs_fh: None,
            mode: Some(0o644),
            hard_links: Some(1),
        },
    }
}

/// An NFS time as milliseconds since the epoch.
fn nfs_time_ms_exec(s: u32, ns: u32) -> (r: i64)
    ensures
        r as int == nfs_time_ms(s, ns),
{
    proof {
        assert((s as i64) * 1000 <= 0xFFFF_FFFFi64 * 1000) by (nonlinear_arith)
            requires
                0 <= s as i64 <= 0xFFFF_FFFFi64,
        ;
    }
    (s as i64) * 1000 + (ns / 1_000_000) as i64
}

/// The `READDIRPLUS` cursor for the next request: continue from the
/// last entry's cookie unless the server reported the end.
pub fn next_readdir_cursor(eof: bool, last_cookie: Option<u64>) -> (r: Option<u64>)
    ensures
        match r {
            Some(c) => !eof && last_cookie == Some(c),
            None => eof || last_cookie is None,
        },
{
    if eof {
        None
    } else {
        last_cookie
    }
}

} // verus!
