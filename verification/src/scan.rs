//! The scan pipeline's per-entry processing and the message protocol.
//!
//! For each entry the walker yields, the pipeline normalizes the path
//! separators, computes the modification age and the extension,
//! classifies the entry as file or directory, applies the match and
//! exclude expressions, and forwards the survivors.  A run's message
//! stream is `Config`, then one `Result` per surviving entry, then
//! `Complete`.

use vstd::prelude::*;

use crate::filter::{expr_matches, expr_wf, EntryAttrs, FilterExpression};
use crate::storage::StorageEntry;
use crate::text;
use crate::text::{
    chars_to_string, contains_seq, is_suffix_of, lower_seq, occurs_at, string_to_chars,
};

verus! {

/// Whether a scan starts fresh or continues an earlier job.
#[derive(Debug, Clone, Copy, PartialEq, Eq, Structural)]
pub enum ScanType {
    /// A fresh scan.
    Full,
    /// A repeated scan of an existing job.
    Incremental,
}

impl ScanType {
    /// The name used on the wire and in logs.
    pub fn as_str(&self) -> (r: &'static str)
        ensures
            (*self is Full) ==> r@ == "full"@,
            (*self is Incremental) ==> r@ == "incremental"@,
    {
        match self {
            ScanType::Full => "full",
            ScanType::Incremental => "incremental",
        }
    }
}

impl Default for ScanType {
    /// A scan is full unless something says otherwise.
    fn default() -> (r: Self)
        ensures
            r is Full,
    {
        ScanType::Full
    }
}

/// What a scan was asked to do.
#[derive(Debug, Clone)]
pub struct ScanParams {
    /// The job id, when the caller supplied one.
    pub id: Option<String>,
    /// The depth limit: 0 means unbounded, N means the root and N
    /// further levels.
    pub depth: u32,
    /// The location to scan.
    pub path: String,
    /// The match expressions, as written.
    pub match_expressions: Vec<String>,
    /// The exclude expressions, as written.
    pub exclude_expressions: Vec<String>,
    /// Full or incremental.
    pub scan_type: ScanType,
}

impl Default for ScanParams {
    /// Scan the current directory, one level deep, with no filters.
    fn default() -> (r: Self)
        ensures
            r.id is None,
            r.depth == 1,
            r.path@ == "."@,
            r.match_expressions@.len() == 0,
            r.exclude_expressions@.len() == 0,
            r.scan_type is Full,
    {
        let mut dot: Vec<char> = Vec::new();
        dot.push('.');
        proof {
            reveal_strlit(".");
            assert(dot@ =~= "."@);
        }
        ScanParams {
            id: None,
            depth: 1,
            path: chars_to_string(dot),
            match_expressions: Vec::new(),
            exclude_expressions: Vec::new(),
            scan_type: ScanType::Full,
        }
    }
}

/// A scan's parameters with its expressions already parsed.
#[derive(Debug, Clone)]
pub struct ScanConfig {
    /// The parameters as given.
    pub params: ScanParams,
    /// The parsed match expressions.
    pub expressions: Vec<FilterExpression>,
    /// The parsed exclude expressions.
    pub exclude_expressions: Vec<FilterExpression>,
}

/// Every expression of the configuration is well formed.
pub open spec fn scan_config_wf(c: ScanConfig) -> bool {
    &&& forall|i: int|
        0 <= i < c.expressions@.len() ==> expr_wf(#[trigger] c.expressions@[i])
    &&& forall|i: int|
        0 <= i < c.exclude_expressions@.len() ==> expr_wf(#[trigger] c.exclude_expressions@[i])
}

/// What the sinks receive with the run's `Config` message.
#[derive(Debug, Clone)]
pub struct ConsumerConfig {
    /// The scan configuration.
    pub scan_config: ScanConfig,
    /// The sanitized job id.
    pub job_id: String,
    /// The database sink's settings.
    pub database: crate::db::DatabaseConfig,
}

/// One surviving entry, as the sinks see it.
#[derive(Debug, Clone)]
pub struct StorageEntity {
    /// The file name.
    pub file_name: String,
    /// The full path, `/`-separated.
    pub file_path: String,
    /// The path with the scan root stripped, `/`-separated.
    pub relative_path: String,
    /// The lower-cased extension, when there is one.
    pub extension: Option<String>,
    /// Is the entry a directory?
    pub is_dir: bool,
    /// Is the entry a symlink?
    pub is_symlink: bool,
    /// Size in bytes.
    pub size: u64,
    /// Access time, milliseconds since the epoch.
    pub atime: Option<i64>,
    /// Creation (change) time, milliseconds since the epoch.
    pub ctime: Option<i64>,
    /// Modification time, milliseconds since the epoch.
    pub mtime: Option<i64>,
    /// POSIX permission bits, when known.
    pub mode: Option<u32>,
    /// The permissions as `rwxrwxrwx` text, when the mode is known.
    pub permissions: Option<String>,
    /// Number of hard links, when known.
    pub hard_links: Option<u8>,
}

/// One message on the pipeline bus.
#[derive(Debug, Clone)]
pub enum ScanMessage {
    /// A surviving entry.
    Result(StorageEntity),
    /// The run is over; sinks drain and stop.
    Complete,
    /// The run's configuration, sent once before any result.
    Config(ConsumerConfig),
}

/// The permission characters of a mode: `rwxrwxrwx`, one flag per bit.
pub open spec fn spec_perm_chars(mode: u32) -> Seq<char> {
    seq![
        if mode & 0o400 != 0 { 'r' } else { '-' },
        if mode & 0o200 != 0 { 'w' } else { '-' },
        if mode & 0o100 != 0 { 'x' } else { '-' },
        if mode & 0o040 != 0 { 'r' } else { '-' },
        if mode & 0o020 != 0 { 'w' } else { '-' },
        if mode & 0o010 != 0 { 'x' } else { '-' },
        if mode & 0o004 != 0 { 'r' } else { '-' },
        if mode & 0o002 != 0 { 'w' } else { '-' },
        if mode & 0o001 != 0 { 'x' } else { '-' },
    ]
}

/// Format Unix permission bits as the nine-character `rwxrwxrwx` text.
pub fn format_permissions(mode: u32) -> (r: String)
    ensures
        r@ == spec_perm_chars(mode),
{
    let mut v: Vec<char> = Vec::new();
    v.push(if mode & 0o400 != 0 { 'r' } else { '-' });
    v.push(if mode & 0o200 != 0 { 'w' } else { '-' });
    v.push(if mode & 0o100 != 0 { 'x' } else { '-' });
    v.push(if mode & 0o040 != 0 { 'r' } else { '-' });
    v.push(if mode & 0o020 != 0 { 'w' } else { '-' });
    v.push(if mode & 0o010 != 0 { 'x' } else { '-' });
    v.push(if mode & 0o004 != 0 { 'r' } else { '-' });
    v.push(if mode & 0o002 != 0 { 'w' } else { '-' });
    v.push(if mode & 0o001 != 0 { 'x' } else { '-' });
    proof {
        assert(v@ =~= spec_perm_chars(mode));
    }
    chars_to_string(v)
}

/// Path separators normalized: every `\` becomes `/`.
pub open spec fn normalize_sep(s: Seq<char>) -> Seq<char> {
    s.map_values(|c: char| if c == '\\' { '/' } else { c })
}

/// A normalized path holds no backslash.
pub proof fn lemma_normalize_no_backslash(s: Seq<char>)
    ensures
        !contains_seq(normalize_sep(s), seq!['\\']),
{
    let n = normalize_sep(s);
    assert forall|i: int| !occurs_at(n, seq!['\\'], i) by {
        if occurs_at(n, seq!['\\'], i) {
            assert(n.subrange(i, i + 1)[0] == n[i]);
            assert(n[i] == '\\');
        }
    }
}

/// Normalizing preserves the suffix relation.
pub proof fn lemma_normalize_keeps_suffix(a: Seq<char>, b: Seq<char>)
    requires
        is_suffix_of(a, b),
    ensures
        is_suffix_of(normalize_sep(a), normalize_sep(b)),
{
    assert(normalize_sep(b).skip(b.len() - a.len()) =~= normalize_sep(a));
}

/// Replace every `\` with `/`.
pub fn normalize_path(s: &str) -> (r: String)
    ensures
        r@ == normalize_sep(s@),
{
    let chars = string_to_chars(s);
    let n = chars.len();
    let mut v: Vec<char> = Vec::new();
    let mut i: usize = 0;
    while i < n
        invariant
            n == chars@.len(),
            chars@ == s@,
            i <= n,
            v@ == normalize_sep(s@.take(i as int)),
        decreases n - i,
    {
        let c = chars[i];
        if c == '\\' {
            v.push('/');
        } else {
            v.push(c);
        }
        proof {
            assert(v@ =~= normalize_sep(s@.take(i + 1)));
        }
        i = i + 1;
    }
    proof {
        assert(s@.take(n as int) =~= s@);
    }
    chars_to_string(v)
}

/// The suffix of `s` after its last occurrence of `c`; the whole of
/// `s` when `c` does not occur.
pub open spec fn after_last(s: Seq<char>, c: char) -> Seq<char>
    decreases s.len(),
{
    if s.len() == 0 {
        s
    } else if s.last() == c {
        Seq::empty()
    } else {
        after_last(s.drop_last(), c).push(s.last())
    }
}

/// The extension of a path: the lower-cased characters after the last
/// `.` of the final path component; empty when the component has no
/// dot, or only a leading one.
pub open spec fn spec_extension(path: Seq<char>) -> Seq<char> {
    let comp = after_last(path, '/');
    let e = after_last(comp, '.');
    if e.len() < comp.len() && comp.len() - e.len() - 1 >= 1 {
        lower_seq(e)
    } else {
        Seq::empty()
    }
}

/// `after_last` is the suffix following the last occurrence.
proof fn lemma_after_last_at(s: Seq<char>, c: char, i: int)
    requires
        0 <= i < s.len(),
        s[i] == c,
        forall|j: int| i < j < s.len() ==> s[j] != c,
    ensures
        after_last(s, c) == s.skip(i + 1),
    decreases s.len(),
{
    if i == s.len() - 1 {
        assert(s.skip(i + 1) =~= Seq::<char>::empty());
    } else {
        let dl = s.drop_last();
        lemma_after_last_at(dl, c, i);
        assert(after_last(s, c) == after_last(dl, c).push(s.last()));
        assert(dl.skip(i + 1).push(s.last()) =~= s.skip(i + 1));
    }
}

/// The suffix after the last occurrence is never longer than the
/// whole.
pub proof fn lemma_after_last_len(s: Seq<char>, c: char)
    ensures
        after_last(s, c).len() <= s.len(),
    decreases s.len(),
{
    if s.len() > 0 && s.last() != c {
        lemma_after_last_len(s.drop_last(), c);
    }
}

/// Without an occurrence, `after_last` is the whole sequence.
proof fn lemma_after_last_none(s: Seq<char>, c: char)
    requires
        forall|j: int| 0 <= j < s.len() ==> s[j] != c,
    ensures
        after_last(s, c) == s,
    decreases s.len(),
{
    if s.len() > 0 {
        lemma_after_last_none(s.drop_last(), c);
        assert(after_last(s.drop_last(), c).push(s.last()) =~= s);
    }
}

/// The suffix of `v` after the last occurrence of `c`.
pub fn after_last_exec(v: &[char], c: char) -> (r: Vec<char>)
    ensures
        r@ == after_last(v@, c),
{
    let n = v.len();
    let mut i: usize = n;
    while i > 0 && v[i - 1] != c
        invariant
            n == v@.len(),
            i <= n,
            forall|j: int| i <= j < n ==> v@[j] != c,
        decreases i,
    {
        i = i - 1;
    }
    let r = text::slice_range(v, i, n);
    proof {
        assert(r@ =~= v@.skip(i as int));
        if i == 0 {
            lemma_after_last_none(v@, c);
            assert(v@.skip(0) =~= v@);
        } else {
            assert(v@[i - 1] == c);
            lemma_after_last_at(v@, c, i - 1);
        }
    }
    r
}

/// The extension of a path, lower-cased; empty when there is none.
pub fn extension_of(path: &str) -> (r: String)
    ensures
        r@ == spec_extension(path@),
{
    let chars = string_to_chars(path);
    let comp = after_last_exec(chars.as_slice(), '/');
    let e = after_last_exec(comp.as_slice(), '.');
    if e.len() < comp.len() && comp.len() - e.len() - 1 >= 1 {
        chars_to_string(text::to_lower_chars(e.as_slice()))
    } else {
        chars_to_string(Vec::new())
    }
}

/// The entry's age: `now_ms - mtime`, clamped to zero when the
/// modification time is unknown, in the future, or before the epoch
/// base used for `now_ms`.
pub open spec fn spec_age_ms(now_ms: i64, mtime: Option<i64>) -> int {
    let m: int = match mtime {
        Some(v) => v as int,
        None => 0,
    };
    if now_ms - m >= 0 {
        now_ms - m
    } else {
        0
    }
}

/// The entry's age in milliseconds at the instant `now_ms`.
pub fn age_ms(now_ms: i64, mtime: &Option<i64>) -> (r: u64)
    ensures
        r == spec_age_ms(now_ms, *mtime),
{
    let m: i64 = match mtime {
        Some(v) => *v,
        None => 0,
    };
    let diff: i128 = (now_ms as i128) - (m as i128);
    if diff >= 0 {
        diff as u64
    } else {
        0
    }
}

/// The entry's classification: directories are `dir`, everything else
/// (symlinks included) is `file`.
pub open spec fn spec_file_type(is_dir: bool) -> Seq<char> {
    if is_dir {
        "dir"@
    } else {
        "file"@
    }
}

/// `"dir"` for directories, `"file"` otherwise.
pub fn file_type_of(is_dir: bool) -> (r: &'static str)
    ensures
        r@ == spec_file_type(is_dir),
{
    if is_dir {
        "dir"
    } else {
        "file"
    }
}

} // verus!

verus! {

/// Some expression of the list accepts the entry.
pub open spec fn spec_any_match(ms: Seq<crate::filter::ExprView>, e: EntryAttrs) -> bool {
    exists|i: int| 0 <= i < ms.len() && expr_matches(#[trigger] ms[i], e)
}

/// The match/exclude composition: an entry is kept iff the match list
/// is empty or some match expression accepts it, and no exclude
/// expression accepts it.
pub open spec fn spec_keep(
    ms: Seq<crate::filter::ExprView>,
    xs: Seq<crate::filter::ExprView>,
    e: EntryAttrs,
) -> bool {
    (ms.len() == 0 || spec_any_match(ms, e)) && !spec_any_match(xs, e)
}

/// The views of a list of parsed expressions.
pub open spec fn expr_views(es: Seq<FilterExpression>) -> Seq<crate::filter::ExprView> {
    es.map_values(|e: FilterExpression| e@)
}

/// All expressions of the list are well formed.
pub open spec fn exprs_wf(es: Seq<FilterExpression>) -> bool {
    forall|i: int| 0 <= i < es.len() ==> expr_wf(#[trigger] es[i])
}

/// Does any expression of the list accept the entry?
fn has_matching_expression(
    expressions: &Vec<FilterExpression>,
    file_name: &str,
    file_path: &str,
    file_type: &str,
    modified_age_ms: u64,
    size: u64,
    extension: &str,
) -> (r: bool)
    requires
        exprs_wf(expressions@),
    ensures
        r == spec_any_match(
            expr_views(expressions@),
            (EntryAttrs {
                name: file_name@,
                path: file_path@,
                ftype: file_type@,
                age_ms: modified_age_ms as int,
                size: size as int,
                ext: extension@,
            }),
        ),
{
    let ghost attrs = EntryAttrs {
        name: file_name@,
        path: file_path@,
        ftype: file_type@,
        age_ms: modified_age_ms as int,
        size: size as int,
        ext: extension@,
    };
    let n = expressions.len();
    let mut i: usize = 0;
    while i < n
        invariant
            n == expressions@.len(),
            i <= n,
            exprs_wf(expressions@),
            attrs == (EntryAttrs {
                name: file_name@,
                path: file_path@,
                ftype: file_type@,
                age_ms: modified_age_ms as int,
                size: size as int,
                ext: extension@,
            }),
            forall|k: int| 0 <= k < i ==> !expr_matches(#[trigger] expr_views(expressions@)[k], attrs),
        decreases n - i,
    {
        let m = crate::filter::evaluate_filter(
            &expressions[i],
            file_name,
            file_path,
            file_type,
            modified_age_ms,
            size,
            extension,
        );
        proof {
            assert(expr_views(expressions@)[i as int] == expressions@[i as int]@);
        }
        if m {
            return true;
        }
        i = i + 1;
    }
    false
}

/// Should the entry be dropped?  The negation of the match/exclude
/// composition: skipped iff some exclude expression accepts it, or the
/// match list is non-empty and none of its expressions accepts it.
pub fn should_skip_file(
    expressions: &Vec<FilterExpression>,
    exclude_expressions: &Vec<FilterExpression>,
    file_name: &str,
    file_path: &str,
    file_type: &str,
    modified_age_ms: u64,
    size: u64,
    extension: &str,
) -> (r: bool)
    requires
        exprs_wf(expressions@),
        exprs_wf(exclude_expressions@),
    ensures
        r == !spec_keep(
            expr_views(expressions@),
            expr_views(exclude_expressions@),
            (EntryAttrs {
                name: file_name@,
                path: file_path@,
                ftype: file_type@,
                age_ms: modified_age_ms as int,
                size: size as int,
                ext: extension@,
            }),
        ),
{
    if exclude_expressions.len() > 0 && has_matching_expression(
        exclude_expressions,
        file_name,
        file_path,
        file_type,
        modified_age_ms,
        size,
        extension,
    ) {
        return true;
    }
    if expressions.len() > 0 && !has_matching_expression(
        expressions,
        file_name,
        file_path,
        file_type,
        modified_age_ms,
        size,
        extension,
    ) {
        return true;
    }
    false
}

} // verus!

verus! {

/// The attributes that the filter language sees for a walked entry at
/// the instant `now_ms`: the normalized path, the `file`/`dir`
/// classification, the age and the extension.
pub open spec fn entry_attrs_of(e: StorageEntry, now_ms: i64) -> EntryAttrs {
    EntryAttrs {
        name: e.name@,
        path: normalize_sep(e.path@),
        ftype: spec_file_type(e.is_dir),
        age_ms: spec_age_ms(now_ms, e.modified),
        size: e.size as int,
        ext: spec_extension(normalize_sep(e.path@)),
    }
}

/// Process one walked entry at the instant `now_ms`: normalize its
/// paths, classify it, apply the match/exclude composition, and build
/// the record the sinks receive — or drop the entry.
///
/// The result is `Some` exactly when the composition keeps the entry;
/// the record carries the normalized paths (never a backslash), the
/// lower-cased extension (`None` when empty), the entry's own times and
/// sizes, and the mode also rendered as `rwxrwxrwx` text.
pub fn process_entry(
    entry: StorageEntry,
    now_ms: i64,
    expressions: &Vec<FilterExpression>,
    exclude_expressions: &Vec<FilterExpression>,
) -> (r: Option<StorageEntity>)
    requires
        exprs_wf(expressions@),
        exprs_wf(exclude_expressions@),
    ensures
        (r is Some) == spec_keep(
            expr_views(expressions@),
            expr_views(exclude_expressions@),
            entry_attrs_of(entry, now_ms),
        ),
        match r {
            Some(e) => {
                &&& e.file_name@ == entry.name@
                &&& e.file_path@ == normalize_sep(entry.path@)
                &&& e.relative_path@ == normalize_sep(entry.relative_path@)
                &&& !contains_seq(e.file_path@, seq!['\\'])
                &&& !contains_seq(e.relative_path@, seq!['\\'])
                &&& (crate::storage::entry_wf(entry) ==> is_suffix_of(
                    e.relative_path@,
                    e.file_path@,
                ))
                &&& match e.extension {
                    Some(x) => x@ == spec_extension(normalize_sep(entry.path@)) && x@.len() > 0,
                    None => spec_extension(normalize_sep(entry.path@)).len() == 0,
                }
                &&& e.is_dir == entry.is_dir
                &&& e.is_symlink == entry.is_symlink
                &&& e.size == entry.size
                &&& e.atime == entry.accessed
                &&& e.ctime == entry.created
                &&& e.mtime == entry.modified
                &&& e.mode == entry.mode
                &&& match e.permissions {
                    Some(p) => entry.mode matches Some(m) && p@ == spec_perm_chars(m),
                    None => entry.mode is None,
                }
                &&& e.hard_links == entry.hard_links
            },
            None => true,
        },
{
    let file_path = normalize_path(entry.path.as_str());
    let relative_path = normalize_path(entry.relative_path.as_str());
    let age = age_ms(now_ms, &entry.modified);
    let extension = extension_of(file_path.as_str());
    let ftype = file_type_of(entry.is_dir);
    proof {
        lemma_normalize_no_backslash(entry.path@);
        lemma_normalize_no_backslash(entry.relative_path@);
        if crate::storage::entry_wf(entry) {
            lemma_normalize_keeps_suffix(entry.relative_path@, entry.path@);
        }
    }
    let skip = should_skip_file(
        expressions,
        exclude_expressions,
        entry.name.as_str(),
        file_path.as_str(),
        ftype,
        age,
        entry.size,
        extension.as_str(),
    );
    if skip {
        return None;
    }
    let permissions = match &entry.mode {
        Some(m) => Some(format_permissions(*m)),
        None => None,
    };
    let ext_opt = if extension.as_str().unicode_len() == 0 {
        None
    } else {
        Some(extension)
    };
    Some(
        StorageEntity {
            file_name: entry.name,
            file_path,
            relative_path,
            extension: ext_opt,
            is_dir: entry.is_dir,
            is_symlink: entry.is_symlink,
            size: entry.size,
            atime: entry.accessed,
            ctime: entry.created,
            mtime: entry.modified,
            mode: entry.mode,
            permissions,
            hard_links: entry.hard_links,
        },
    )
}

/// A well-formed run: one `Config` first, one `Complete` last, and
/// only `Result`s in between.
pub open spec fn well_formed_run(s: Seq<ScanMessage>) -> bool {
    &&& s.len() >= 2
    &&& s[0] is Config
    &&& s.last() is Complete
    &&& forall|i: int| 1 <= i < s.len() - 1 ==> s[i] is Result
}

/// In a well-formed run the sink sees exactly one `Config`, before any
/// `Result`; exactly one `Complete`, after the last `Result`; and
/// nothing after the `Complete`.
pub proof fn lemma_run_shape(s: Seq<ScanMessage>)
    requires
        well_formed_run(s),
    ensures
        forall|i: int| 0 <= i < s.len() ==> ((s[i] is Config) <==> i == 0),
        forall|i: int| 0 <= i < s.len() ==> ((s[i] is Complete) <==> i == s.len() - 1),
        forall|i: int, j: int|
            0 <= i < s.len() && 0 <= j < s.len() && s[i] is Config && s[j] is Result ==> i < j,
        forall|i: int, j: int|
            0 <= i < s.len() && 0 <= j < s.len() && s[i] is Complete && s[j] is Result ==> j < i,
{
}

/// The message stream of one run: the configuration, one `Result` per
/// surviving entry in order, then `Complete`.
pub fn build_scan_messages(config: ConsumerConfig, results: Vec<StorageEntity>) -> (r: Vec<
    ScanMessage,
>)
    ensures
        well_formed_run(r@),
        r@.len() == results@.len() + 2,
        r@[0] == ScanMessage::Config(config),
        forall|i: int|
            0 <= i < results@.len() ==> r@[i + 1] == ScanMessage::Result(#[trigger] results@[i]),
        r@.last() == ScanMessage::Complete,
{
    let ghost cfg = config;
    let ghost all = results@;
    let mut out: Vec<ScanMessage> = Vec::new();
    out.push(ScanMessage::Config(config));
    let n = results.len();
    let mut results = results;
    let mut i: usize = 0;
    while i < n
        invariant
            n == all.len(),
            i <= n,
            results@ == all.skip(i as int),
            out@.len() == i + 1,
            out@[0] == ScanMessage::Config(cfg),
            forall|k: int| 0 <= k < i ==> out@[k + 1] == ScanMessage::Result(#[trigger] all[k]),
        decreases n - i,
    {
        let e = results.remove(0);
        proof {
            assert(all.skip(i as int)[0] == all[i as int]);
            assert(all.skip(i as int).remove(0) =~= all.skip(i + 1));
        }
        out.push(ScanMessage::Result(e));
        i = i + 1;
    }
    out.push(ScanMessage::Complete);
    proof {
        assert(out@[0] == ScanMessage::Config(cfg));
        assert(forall|k: int|
            0 <= k < all.len() ==> out@[k + 1] == ScanMessage::Result(#[trigger] all[k]));
        assert forall|k: int| 1 <= k < out@.len() - 1 implies out@[k] is Result by {
            assert(out@[k] == ScanMessage::Result(all[k - 1]));
        }
    }
    out
}

} // verus!

verus! {

/// The entries of `es` that the match/exclude composition keeps, at
/// the instant `now_ms`.
pub open spec fn kept_entries(
    es: Seq<StorageEntry>,
    ms: Seq<crate::filter::ExprView>,
    xs: Seq<crate::filter::ExprView>,
    now_ms: i64,
) -> Seq<StorageEntry> {
    es.filter(|e: StorageEntry| spec_keep(ms, xs, entry_attrs_of(e, now_ms)))
}

/// What a filter keeps, it took from the sequence.
proof fn lemma_filter_elems(s: Seq<StorageEntry>, pred: spec_fn(StorageEntry) -> bool)
    ensures
        forall|i: int|
            0 <= i < s.filter(pred).len() ==> s.contains(#[trigger] s.filter(pred)[i]),
    decreases s.len(),
{
    reveal(Seq::filter);
    if s.len() > 0 {
        let sub = s.drop_last().filter(pred);
        lemma_filter_elems(s.drop_last(), pred);
        assert forall|i: int| 0 <= i < s.filter(pred).len() implies s.contains(
            #[trigger] s.filter(pred)[i],
        ) by {
            let out = s.filter(pred);
            if pred(s.last()) && i == out.len() - 1 {
                assert(out[i] == s.last());
                assert(s[s.len() - 1] == s.last());
            } else {
                assert(out[i] == sub[i]);
                assert(s.drop_last().contains(sub[i]));
                let j = choose|j: int| 0 <= j < s.drop_last().len() && s.drop_last()[j] == sub[i];
                assert(s[j] == sub[i]);
            }
        }
    }
}

/// Repeating a scan with identical inputs yields an identical set of
/// surviving entries: the kept set depends only on the set of walked
/// entries, not on the order any backend yields them in.
pub proof fn lemma_scan_set_deterministic(
    e1: Seq<StorageEntry>,
    e2: Seq<StorageEntry>,
    ms: Seq<crate::filter::ExprView>,
    xs: Seq<crate::filter::ExprView>,
    now_ms: i64,
)
    requires
        e1.to_set() == e2.to_set(),
    ensures
        kept_entries(e1, ms, xs, now_ms).to_set() == kept_entries(e2, ms, xs, now_ms).to_set(),
{
    let pred = |e: StorageEntry| spec_keep(ms, xs, entry_attrs_of(e, now_ms));
    e1.filter_lemma(pred);
    e2.filter_lemma(pred);
    lemma_filter_elems(e1, pred);
    lemma_filter_elems(e2, pred);
    let k1 = e1.filter(pred);
    let k2 = e2.filter(pred);
    assert forall|x: StorageEntry| k1.to_set().contains(x) implies k2.to_set().contains(x) by {
        assert(k1.contains(x));
        let i = choose|i: int| 0 <= i < k1.len() && k1[i] == x;
        assert(e1.contains(k1[i]));
        assert(pred(k1[i]));
        assert(e1.contains(x) && pred(x));
        assert(e1.to_set().contains(x));
        assert(e2.to_set().contains(x));
        assert(e2.contains(x));
        let j = choose|j: int| 0 <= j < e2.len() && e2[j] == x;
        assert(k2.contains(e2[j]));
    }
    assert forall|x: StorageEntry| k2.to_set().contains(x) implies k1.to_set().contains(x) by {
        assert(k2.contains(x));
        let i = choose|i: int| 0 <= i < k2.len() && k2[i] == x;
        assert(e2.contains(k2[i]));
        assert(pred(k2[i]));
        assert(e2.contains(x) && pred(x));
        assert(e2.to_set().contains(x));
        assert(e1.to_set().contains(x));
        assert(e1.contains(x));
        let j = choose|j: int| 0 <= j < e1.len() && e1[j] == x;
        assert(k1.contains(e1[j]));
    }
    assert(k1.to_set() =~= k2.to_set());
}

} // verus!

verus! {

/// The per-job working directory: `jobs/<kind>_<job_id>`.
pub fn job_dir_name(job_type: &str, job_id: &str) -> (r: String)
    ensures
        r@ == "jobs/"@ + job_type@ + seq!['_'] + job_id@,
{
    let mut v = string_to_chars("jobs/");
    let t = string_to_chars(job_type);
    text::append_chars(&mut v, t.as_slice());
    v.push('_');
    let j = string_to_chars(job_id);
    text::append_chars(&mut v, j.as_slice());
    proof {
        assert(v@ =~= "jobs/"@ + job_type@ + seq!['_'] + job_id@);
    }
    chars_to_string(v)
}

} // verus!
