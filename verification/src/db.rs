//! The database sink's pure logic: per-job table names, the flattened
//! record that is persisted, the statement texts, and the two-state
//! run marker.  Executing the statements against a real database is
//! the business of the unverified shell.

use vstd::prelude::*;

use crate::text;
use crate::text::{append_chars, chars_to_string, is_prefix_of, string_to_chars};

verus! {

/// The base name of the per-job data table.
pub const SCAN_BASE_TABLE_BASE_NAME: &'static str = "scan_base";

/// The base name of the per-instance staging table.
pub const SCAN_TEMP_TABLE_BASE_NAME: &'static str = "scan_temp";

/// The base name of the per-job state table.
pub const SCAN_STATE_TABLE_BASE_NAME: &'static str = "scan_state";

/// The data table for a job: `scan_base_<job_id>`.
pub fn get_scan_base_table_name(job_id: &str) -> (r: String)
    ensures
        r@ == "scan_base_"@ + job_id@,
{
    let mut v = string_to_chars("scan_base_");
    let j = string_to_chars(job_id);
    append_chars(&mut v, j.as_slice());
    chars_to_string(v)
}

/// The state table for a job: `scan_state_<job_id>`.
pub fn get_scan_state_table_name(job_id: &str) -> (r: String)
    ensures
        r@ == "scan_state_"@ + job_id@,
{
    let mut v = string_to_chars("scan_state_");
    let j = string_to_chars(job_id);
    append_chars(&mut v, j.as_slice());
    chars_to_string(v)
}

/// A lower-case hexadecimal digit or a hyphen: the characters of a
/// hyphenated UUID.
pub open spec fn is_uuid_char(c: char) -> bool {
    ('0' <= c && c <= '9') || ('a' <= c && c <= 'f') || c == '-'
}

/// Relies on `uuid::Uuid::new_v4` and its `Display` form: a fresh
/// random UUID printed hyphenated, which is exactly 36 characters of
/// lower-case hexadecimal digits and hyphens.
#[verifier::external_body]
fn new_uuid_string() -> (r: String)
    ensures
        r@.len() == 36,
        forall|i: int| 0 <= i < r@.len() ==> is_uuid_char(#[trigger] r@[i]),
{
    uuid::Uuid::new_v4().to_string()
}

/// A fresh staging table name: `scan_temp_<uuid>`, with the UUID's
/// hyphens replaced by underscores so the whole name is made of word
/// characters.
pub fn generate_scan_temp_table_name() -> (r: String)
    ensures
        r@.len() == "scan_temp_"@.len() + 36,
        is_prefix_of("scan_temp_"@, r@),
        forall|i: int|
            "scan_temp_"@.len() <= i < r@.len() ==> crate::is_word_char(#[trigger] r@[i]),
{
    let u = new_uuid_string();
    let uc = string_to_chars(u.as_str());
    let mut v = string_to_chars("scan_temp_");
    let ghost prefix = "scan_temp_"@;
    let n = uc.len();
    let mut i: usize = 0;
    while i < n
        invariant
            n == uc@.len(),
            i <= n,
            forall|k: int| 0 <= k < n ==> is_uuid_char(#[trigger] uc@[k]),
            v@.len() == prefix.len() + i,
            v@.take(prefix.len() as int) == prefix,
            forall|k: int| prefix.len() <= k < v@.len() ==> crate::is_word_char(#[trigger] v@[k]),
        decreases n - i,
    {
        let c = uc[i];
        if c == '-' {
            v.push('_');
        } else {
            v.push(c);
        }
        proof {
            assert(v@.take(prefix.len() as int) =~= prefix);
        }
        i = i + 1;
    }
    let r = chars_to_string(v);
    proof {
        assert(is_prefix_of(prefix, r@));
    }
    r
}

/// The two-state run marker: each completed run flips it.
pub fn switched_state(current: u8) -> (r: u8)
    requires
        current <= 1,
    ensures
        r == 1 - current,
        r <= 1,
{
    1 - current
}

/// One row of the per-job data table: a flattened entry with times in
/// Unix seconds and the permissions as a number.
#[derive(Debug, Clone)]
pub struct FileScanRecord {
    /// The full path (the table's ordering key).
    pub path: String,
    /// Size in bytes.
    pub size: u64,
    /// The extension, when there is one.
    pub ext: Option<String>,
    /// Change time, Unix seconds (0 when unavailable).
    pub ctime: u64,
    /// Modification time, Unix seconds (0 when unavailable).
    pub mtime: u64,
    /// Access time, Unix seconds (0 when unavailable).
    pub atime: u64,
    /// Permission bits (0 when absent or malformed).
    pub perm: u32,
    /// Is the entry a symlink?
    pub is_symlink: bool,
    /// Is the entry a directory?
    pub is_dir: bool,
    /// Is the entry a regular file (not a directory)?
    pub is_regular_file: bool,
    /// The backend file handle, when one is kept.
    pub file_handle: Option<String>,
    /// The run-state marker the row was written under.
    pub current_state: u8,
}

/// Milliseconds since the epoch as non-negative Unix seconds.
pub open spec fn spec_ms_to_secs(t: Option<i64>) -> int {
    match t {
        Some(v) => if v >= 0 {
            v as int / 1000
        } else {
            0
        },
        None => 0,
    }
}

/// Milliseconds since the epoch as non-negative Unix seconds.
fn ms_to_secs(t: &Option<i64>) -> (r: u64)
    ensures
        r == spec_ms_to_secs(*t),
{
    match t {
        Some(v) => if *v >= 0 {
            (*v / 1000) as u64
        } else {
            0
        },
        None => 0,
    }
}

/// An octal digit.
pub open spec fn is_oct_digit(c: char) -> bool {
    '0' <= c && c <= '7'
}

/// Every character of `s` is an octal digit.
pub open spec fn all_oct_digits(s: Seq<char>) -> bool {
    forall|i: int| 0 <= i < s.len() ==> is_oct_digit(s[i])
}

/// The number denoted by a sequence of octal digits.
pub open spec fn oct_to_nat(s: Seq<char>) -> nat
    decreases s.len(),
{
    if s.len() == 0 {
        0
    } else {
        oct_to_nat(s.drop_last()) * 8 + if 0 <= text::digit_val(s.last()) <= 7 {
            text::digit_val(s.last()) as nat
        } else {
            0nat
        }
    }
}

/// The permissions number denoted by an octal text: an optional `+`,
/// then octal digits; `None` when the text is not octal or overflows.
pub open spec fn spec_parse_octal_u32(s: Seq<char>) -> Option<u32> {
    let d = if s.len() > 0 && s[0] == '+' {
        s.drop_first()
    } else {
        s
    };
    if d.len() > 0 && all_oct_digits(d) && oct_to_nat(d) <= u32::MAX {
        Some(oct_to_nat(d) as u32)
    } else {
        None
    }
}

/// An octal digit string denotes a number below eight to its length.
proof fn lemma_oct_bound(s: Seq<char>)
    ensures
        oct_to_nat(s) < pow8(s.len()),
    decreases s.len(),
{
    if s.len() > 0 {
        lemma_oct_bound(s.drop_last());
    }
}

/// Eight to the `k`.
pub open spec fn pow8(k: nat) -> nat
    decreases k,
{
    if k == 0 {
        1
    } else {
        8 * pow8((k - 1) as nat)
    }
}

proof fn lemma_pow8_vals()
    ensures
        pow8(21) == 9223372036854775808,
    decreases 0nat,
{
    assert(pow8(0) == 1);
    assert(pow8(1) == 8);
    assert(pow8(2) == 64);
    assert(pow8(3) == 512);
    assert(pow8(4) == 4096);
    assert(pow8(5) == 32768);
    assert(pow8(6) == 262144);
    assert(pow8(7) == 2097152);
    assert(pow8(8) == 16777216);
    assert(pow8(9) == 134217728);
    assert(pow8(10) == 1073741824);
    assert(pow8(11) == 8589934592);
    assert(pow8(12) == 68719476736);
    assert(pow8(13) == 549755813888);
    assert(pow8(14) == 4398046511104);
    assert(pow8(15) == 35184372088832);
    assert(pow8(16) == 281474976710656);
    assert(pow8(17) == 2251799813685248);
    assert(pow8(18) == 18014398509481984);
    assert(pow8(19) == 144115188075855872);
    assert(pow8(20) == 1152921504606846976);
    assert(pow8(21) == 9223372036854775808);
}

/// `pow8` is monotone.
proof fn lemma_pow8_increases(a: nat, b: nat)
    requires
        a <= b,
    ensures
        pow8(a) <= pow8(b),
    decreases b,
{
    if a < b {
        lemma_pow8_increases(a, (b - 1) as nat);
        assert(pow8(b) == 8 * pow8((b - 1) as nat));
    }
}

/// A leading zero does not change an octal value.
proof fn lemma_oct_leading_zero(s: Seq<char>)
    requires
        s.len() > 0,
        text::digit_val(s[0]) == 0,
    ensures
        oct_to_nat(s) == oct_to_nat(s.drop_first()),
    decreases s.len(),
{
    if s.len() == 1 {
        assert(s.drop_last() =~= Seq::<char>::empty());
        assert(s.drop_first() =~= Seq::<char>::empty());
    } else {
        let dl = s.drop_last();
        lemma_oct_leading_zero(dl);
        assert(s.drop_first().drop_last() =~= dl.drop_first());
        assert(s.drop_first().last() == s.last());
        assert(s.drop_first().len() > 0);
    }
}

/// Leading zeros do not change an octal value.
proof fn lemma_oct_leading_zeros(s: Seq<char>, k: int)
    requires
        0 <= k <= s.len(),
        forall|i: int| 0 <= i < k ==> text::digit_val(s[i]) == 0,
    ensures
        oct_to_nat(s) == oct_to_nat(s.skip(k)),
    decreases k,
{
    if k > 0 {
        lemma_oct_leading_zero(s);
        assert(s.drop_first().skip(k - 1) =~= s.skip(k));
        lemma_oct_leading_zeros(s.drop_first(), k - 1);
    } else {
        assert(s.skip(0) =~= s);
    }
}

/// An octal string with a nonzero first digit is at least eight to one
/// less than its length.
proof fn lemma_oct_lower(s: Seq<char>)
    requires
        s.len() > 0,
        all_oct_digits(s),
        text::digit_val(s[0]) >= 1,
    ensures
        oct_to_nat(s) >= pow8((s.len() - 1) as nat),
    decreases s.len(),
{
    if s.len() == 1 {
        assert(oct_to_nat(s.drop_last()) == 0);
    } else {
        let dl = s.drop_last();
        assert(dl[0] == s[0]);
        assert(all_oct_digits(dl));
        lemma_oct_lower(dl);
        assert(oct_to_nat(s) == oct_to_nat(dl) * 8 + text::digit_val(s.last()));
        assert(oct_to_nat(dl) * 8 >= pow8((dl.len() - 1) as nat) * 8);
        assert(pow8((dl.len() - 1) as nat) * 8 == pow8((s.len() - 1) as nat));
    }
}

/// An octal digit's value lies between 0 and 7.
proof fn lemma_oct_digit_facts(c: char)
    requires
        is_oct_digit(c),
    ensures
        0 <= text::digit_val(c) <= 7,
        (c == '0') == (text::digit_val(c) == 0),
{
    assert(('0' as u32) == 48);
    assert(('7' as u32) == 55);
    assert(48 <= c as u32 <= 55);
}

/// Parse an octal permissions number, as `u32::from_str_radix(_, 8)`
/// reads it.
pub fn parse_octal_chars(s: &[char]) -> (r: Option<u32>)
    ensures
        r == spec_parse_octal_u32(s@),
{
    let n = s.len();
    let start: usize = if n > 0 && s[0] == '+' {
        1
    } else {
        0
    };
    let ghost d = if s@.len() > 0 && s@[0] == '+' {
        s@.drop_first()
    } else {
        s@
    };
    proof {
        assert(s@.drop_first() =~= s@.skip(1));
        assert(s@.skip(0) =~= s@);
        assert(d == s@.skip(start as int));
    }
    if start == n {
        return None;
    }
    let mut i: usize = start;
    while i < n
        invariant
            n == s@.len(),
            start <= i <= n,
            start < n,
            d == s@.skip(start as int),
            d == (if s@.len() > 0 && s@[0] == '+' {
                s@.drop_first()
            } else {
                s@
            }),
            forall|k: int| start <= k < i ==> is_oct_digit(s@[k]),
        decreases n - i,
    {
        let c = s[i];
        if !('0' <= c && c <= '7') {
            proof {
                assert(d[i - start] == s@[i as int]);
                assert(!all_oct_digits(d));
            }
            return None;
        }
        i = i + 1;
    }
    proof {
        assert(all_oct_digits(d)) by {
            assert(forall|k: int| 0 <= k < d.len() ==> d[k] == s@[start + k]);
        }
    }
    let mut z: usize = start;
    while z < n && s[z] == '0'
        invariant
            n == s@.len(),
            start <= z <= n,
            start < n,
            d == s@.skip(start as int),
            d == (if s@.len() > 0 && s@[0] == '+' {
                s@.drop_first()
            } else {
                s@
            }),
            all_oct_digits(d),
            forall|k: int| start <= k < z ==> s@[k] == '0',
        decreases n - z,
    {
        z = z + 1;
    }
    let ghost sig = s@.skip(z as int);
    proof {
        assert forall|k: int| 0 <= k < z - start implies text::digit_val(d[k]) == 0 by {
            assert(d[k] == s@[start + k]);
            lemma_oct_digit_facts(d[k]);
        }
        lemma_oct_leading_zeros(d, z - start);
        assert(d.skip(z - start) =~= sig);
        assert(oct_to_nat(d) == oct_to_nat(sig));
        assert(all_oct_digits(sig)) by {
            assert(forall|k: int| 0 <= k < sig.len() ==> sig[k] == s@[z + k]);
        }
        lemma_pow8_vals();
    }
    if n - z > 20 {
        proof {
            assert(text::digit_val(sig[0]) >= 1) by {
                assert(sig[0] == s@[z as int]);
                lemma_oct_digit_facts(sig[0]);
            }
            lemma_oct_lower(sig);
            assert(pow8((sig.len() - 1) as nat) >= pow8(20)) by {
                lemma_pow8_increases(20, (sig.len() - 1) as nat);
            }
            assert(pow8(20) > u32::MAX);
        }
        return None;
    }
    let mut acc: u128 = 0;
    let mut i: usize = z;
    while i < n
        invariant
            n == s@.len(),
            start <= z <= i <= n,
            start < n,
            n - z <= 20,
            d == s@.skip(start as int),
            d == (if s@.len() > 0 && s@[0] == '+' {
                s@.drop_first()
            } else {
                s@
            }),
            all_oct_digits(d),
            sig == s@.skip(z as int),
            all_oct_digits(sig),
            oct_to_nat(d) == oct_to_nat(sig),
            acc == oct_to_nat(sig.take(i - z)),
            acc < pow8(21),
            pow8(21) == 9223372036854775808,
        decreases n - i,
    {
        proof {
            assert(is_oct_digit(s@[i as int])) by {
                assert(sig[i - z] == s@[i as int]);
            }
            lemma_oct_digit_facts(s@[i as int]);
            assert(48 <= (s@[i as int] as u32) <= 55) by {
                assert(('0' as u32) == 48);
                assert(('7' as u32) == 55);
            }
            let u = sig.take(i + 1 - z);
            assert(u.drop_last() =~= sig.take(i - z));
            assert(u.last() == sig[i - z] == s@[i as int]);
            lemma_oct_bound(u);
            assert(pow8(u.len() as nat) <= pow8(20)) by {
                lemma_pow8_increases(u.len() as nat, 20);
            }
        }
        let dv = (s[i] as u32 - 48) as u128;
        acc = acc * 8 + dv;
        i = i + 1;
    }
    proof {
        assert(sig.take(n - z) =~= sig);
        assert(d.len() > 0);
    }
    if acc <= u32::MAX as u128 {
        Some(acc as u32)
    } else {
        None
    }
}

} // verus!

verus! {

/// The database backends a configuration can name.
#[derive(Debug, Clone, Copy, PartialEq, Eq, Structural)]
pub enum DatabaseType {
    /// The ClickHouse backend.
    ClickHouse,
}

/// Settings for the ClickHouse backend.
#[derive(Debug, Clone)]
pub struct ClickHouseConfig {
    /// The server address, e.g. `tcp://localhost:9000`.
    pub dsn: String,
    /// Connect timeout, seconds.
    pub dial_timeout: u32,
    /// Read timeout, seconds.
    pub read_timeout: u32,
    /// The database to use.
    pub database: String,
    /// The user to connect as.
    pub username: String,
    /// The password, when one is required.
    pub password: Option<String>,
}

impl Default for ClickHouseConfig {
    /// A local server with default credentials and the usual timeouts.
    fn default() -> (r: Self)
        ensures
            r.dsn@ == "tcp://localhost:9000"@,
            r.dial_timeout == 10,
            r.read_timeout == 30,
            r.database@ == "default"@,
            r.username@ == "default"@,
            r.password is None,
    {
        ClickHouseConfig {
            dsn: chars_to_string(string_to_chars("tcp://localhost:9000")),
            dial_timeout: 10,
            read_timeout: 30,
            database: chars_to_string(string_to_chars("default")),
            username: chars_to_string(string_to_chars("default")),
            password: None,
        }
    }
}

/// The database sink's settings.
#[derive(Debug, Clone)]
pub struct DatabaseConfig {
    /// Is the database sink enabled?
    pub enabled: bool,
    /// The backend selector, e.g. `clickhouse`.
    pub db_type: String,
    /// The batch capacity of the database sink.
    pub batch_size: u32,
    /// The ClickHouse settings, when that backend is selected.
    pub clickhouse: Option<ClickHouseConfig>,
}

impl Default for DatabaseConfig {
    /// An enabled ClickHouse sink batching 200 000 records.
    fn default() -> (r: Self)
        ensures
            r.enabled,
            r.db_type@ == "clickhouse"@,
            r.batch_size == 200_000,
            r.clickhouse is Some,
    {
        DatabaseConfig {
            enabled: true,
            db_type: chars_to_string(string_to_chars("clickhouse")),
            batch_size: 200_000,
            clickhouse: Some(ClickHouseConfig::default()),
        }
    }
}

/// Why a database configuration was rejected.
#[derive(Debug, Clone, Copy, PartialEq, Eq, Structural)]
pub enum DatabaseConfigError {
    /// The database sink is disabled.
    Disabled,
    /// The named backend is not registered.
    UnsupportedType,
    /// The backend is selected but its settings are missing.
    MissingBackendConfig,
}

/// The registry of database backends.  The built-in backends are
/// registered by `initialize`; the set of names then decides which
/// configurations are accepted.
pub struct DatabaseFactory {
    /// The registered backend names.
    pub registered: Vec<String>,
}

impl DatabaseFactory {
    /// An empty registry.
    pub fn new() -> (r: DatabaseFactory)
        ensures
            r.registered@.len() == 0,
    {
        DatabaseFactory { registered: Vec::new() }
    }

    /// Register a backend name.
    pub fn register_database_type(&mut self, db_type: &str)
        ensures
            final(self).registered@.len() == old(self).registered@.len() + 1,
            final(self).registered@.last()@ == db_type@,
            forall|i: int|
                0 <= i < old(self).registered@.len() ==> final(self).registered@[i] == old(
                    self,
                ).registered@[i],
    {
        let c = string_to_chars(db_type);
        self.registered.push(chars_to_string(c));
    }

    /// Register the built-in backends: `clickhouse` and `sqlite`.
    pub fn initialize(&mut self)
        ensures
            final(self).registered@.len() == old(self).registered@.len() + 2,
            final(self).registered@[final(self).registered@.len() - 2]@ == "clickhouse"@,
            final(self).registered@[final(self).registered@.len() - 1]@ == "sqlite"@,
    {
        self.register_database_type("clickhouse");
        self.register_database_type("sqlite");
    }

    /// The registered backend names.
    pub fn get_supported_types(&self) -> (r: &Vec<String>)
        ensures
            r@ == self.registered@,
    {
        &self.registered
    }

    /// Is the named backend registered?
    pub fn supports(&self, db_type: &str) -> (r: bool)
        ensures
            r == exists|i: int|
                0 <= i < self.registered@.len() && #[trigger] self.registered@[i]@ == db_type@,
    {
        let want = string_to_chars(db_type);
        let n = self.registered.len();
        let mut i: usize = 0;
        while i < n
            invariant
                n == self.registered@.len(),
                i <= n,
                want@ == db_type@,
                forall|k: int| 0 <= k < i ==> #[trigger] self.registered@[k]@ != db_type@,
            decreases n - i,
        {
            let have = string_to_chars(self.registered[i].as_str());
            if text::chars_eq(have.as_slice(), want.as_slice()) {
                return true;
            }
            i = i + 1;
        }
        false
    }

    /// Check a configuration against the registry: it must be enabled,
    /// name a registered backend, and carry that backend's settings
    /// (ClickHouse settings, for the `clickhouse` backend).
    pub fn validate(&self, config: &DatabaseConfig) -> (r: Result<(), DatabaseConfigError>)
        ensures
            match r {
                Ok(()) => config.enabled && (exists|i: int|
                    0 <= i < self.registered@.len() && #[trigger] self.registered@[i]@
                        == config.db_type@) && (config.db_type@ == "clickhouse"@
                    ==> config.clickhouse is Some),
                Err(DatabaseConfigError::Disabled) => !config.enabled,
                Err(DatabaseConfigError::UnsupportedType) => config.enabled && !(exists|i: int|
                    0 <= i < self.registered@.len() && #[trigger] self.registered@[i]@
                        == config.db_type@),
                Err(DatabaseConfigError::MissingBackendConfig) => config.enabled
                    && config.db_type@ == "clickhouse"@ && config.clickhouse is None,
            },
    {
        if !config.enabled {
            return Err(DatabaseConfigError::Disabled);
        }
        if !self.supports(config.db_type.as_str()) {
            return Err(DatabaseConfigError::UnsupportedType);
        }
        let ch = string_to_chars("clickhouse");
        let have = string_to_chars(config.db_type.as_str());
        if text::chars_eq(have.as_slice(), ch.as_slice()) {
            match &config.clickhouse {
                Some(_) => Ok(()),
                None => Err(DatabaseConfigError::MissingBackendConfig),
            }
        } else {
            Ok(())
        }
    }
}

} // verus!

verus! {

/// Does the row faithfully flatten the entry?  Times become
/// non-negative Unix seconds, the `rwxrwxrwx`-or-octal permissions
/// text becomes a number (0 when absent or not octal), and a
/// non-directory counts as a regular file.
pub open spec fn record_matches(r: FileScanRecord, e: crate::scan::StorageEntity) -> bool {
    &&& r.path@ == e.file_path@
    &&& r.size == e.size
    &&& match (r.ext, e.extension) {
        (Some(a), Some(b)) => a@ == b@,
        (None, None) => true,
        _ => false,
    }
    &&& r.ctime == spec_ms_to_secs(e.ctime)
    &&& r.mtime == spec_ms_to_secs(e.mtime)
    &&& r.atime == spec_ms_to_secs(e.atime)
    &&& r.perm == match e.permissions {
        Some(p) => match spec_parse_octal_u32(p@) {
            Some(v) => v as int,
            None => 0int,
        },
        None => 0int,
    }
    &&& r.is_symlink == e.is_symlink
    &&& r.is_dir == e.is_dir
    &&& r.is_regular_file == !e.is_dir
    &&& r.file_handle is None
    &&& r.current_state == 0
}

/// Flatten one entry into the row the data table stores.
pub fn to_file_scan_record(e: &crate::scan::StorageEntity) -> (r: FileScanRecord)
    ensures
        record_matches(r, *e),
{
    let perm: u32 = match &e.permissions {
        Some(p) => {
            let chars = string_to_chars(p.as_str());
            match parse_octal_chars(chars.as_slice()) {
                Some(v) => v,
                None => 0,
            }
        },
        None => 0,
    };
    let ext: Option<String> = match &e.extension {
        Some(x) => Some(x.clone()),
        None => None,
    };
    FileScanRecord {
        path: e.file_path.clone(),
        size: e.size,
        ext,
        ctime: ms_to_secs(&e.ctime),
        mtime: ms_to_secs(&e.mtime),
        atime: ms_to_secs(&e.atime),
        perm,
        is_symlink: e.is_symlink,
        is_dir: e.is_dir,
        is_regular_file: !e.is_dir,
        file_handle: None,
        current_state: 0,
    }
}

} // verus!

verus! {

/// The column definitions shared by the data and staging tables.
pub const FILE_SCAN_COLUMNS_DEFINITION: &'static str = "path String, size UInt64, ext Nullable(String), ctime UInt64, mtime UInt64, atime UInt64, perm UInt32, is_symlink UInt8, is_dir UInt8, is_regular_file UInt8, file_handle Nullable(String), current_state UInt8";

/// The statement creating a job's data table: replacing-merge
/// semantics ordered by path, so repeated scans of one path collapse
/// to the newest row.
pub fn create_scan_base_table_sql(job_id: &str) -> (r: String)
    ensures
        r@ == "CREATE TABLE IF NOT EXISTS scan_base_"@ + job_id@ + " ("@
            + FILE_SCAN_COLUMNS_DEFINITION@ + ") ENGINE = ReplacingMergeTree() ORDER BY (path)"@,
{
    let mut v = string_to_chars("CREATE TABLE IF NOT EXISTS scan_base_");
    let j = string_to_chars(job_id);
    append_chars(&mut v, j.as_slice());
    let open = string_to_chars(" (");
    append_chars(&mut v, open.as_slice());
    let cols = string_to_chars(FILE_SCAN_COLUMNS_DEFINITION);
    append_chars(&mut v, cols.as_slice());
    let tail = string_to_chars(") ENGINE = ReplacingMergeTree() ORDER BY (path)");
    append_chars(&mut v, tail.as_slice());
    chars_to_string(v)
}

/// The statement creating a job's state table: one `(id,
/// origin_state)` row kept per id.
pub fn create_scan_state_table_sql(job_id: &str) -> (r: String)
    ensures
        r@ == "CREATE TABLE IF NOT EXISTS scan_state_"@ + job_id@
            + " (id UInt8, origin_state UInt8) ENGINE = ReplacingMergeTree() ORDER BY id"@,
{
    let mut v = string_to_chars("CREATE TABLE IF NOT EXISTS scan_state_");
    let j = string_to_chars(job_id);
    append_chars(&mut v, j.as_slice());
    let tail = string_to_chars(
        " (id UInt8, origin_state UInt8) ENGINE = ReplacingMergeTree() ORDER BY id",
    );
    append_chars(&mut v, tail.as_slice());
    chars_to_string(v)
}

/// The statement creating a staging table under the given name, with
/// plain merge semantics.
pub fn create_scan_temp_table_sql(table_name: &str) -> (r: String)
    ensures
        r@ == "CREATE TABLE IF NOT EXISTS "@ + table_name@ + " ("@
            + FILE_SCAN_COLUMNS_DEFINITION@ + ") ENGINE = MergeTree() ORDER BY (path)"@,
{
    let mut v = string_to_chars("CREATE TABLE IF NOT EXISTS ");
    let t = string_to_chars(table_name);
    append_chars(&mut v, t.as_slice());
    let open = string_to_chars(" (");
    append_chars(&mut v, open.as_slice());
    let cols = string_to_chars(FILE_SCAN_COLUMNS_DEFINITION);
    append_chars(&mut v, cols.as_slice());
    let tail = string_to_chars(") ENGINE = MergeTree() ORDER BY (path)");
    append_chars(&mut v, tail.as_slice());
    chars_to_string(v)
}

/// The statement dropping a table by name.
pub fn drop_table_sql(table_name: &str) -> (r: String)
    ensures
        r@ == "DROP TABLE IF EXISTS "@ + table_name@,
{
    let mut v = string_to_chars("DROP TABLE IF EXISTS ");
    let t = string_to_chars(table_name);
    append_chars(&mut v, t.as_slice());
    chars_to_string(v)
}

/// The statement writing a job's state row (id fixed at 1).
pub fn insert_scan_state_sql(job_id: &str) -> (r: String)
    ensures
        r@ == "INSERT INTO scan_state_"@ + job_id@ + " (id, origin_state) VALUES (?, ?)"@,
{
    let mut v = string_to_chars("INSERT INTO scan_state_");
    let j = string_to_chars(job_id);
    append_chars(&mut v, j.as_slice());
    let tail = string_to_chars(" (id, origin_state) VALUES (?, ?)");
    append_chars(&mut v, tail.as_slice());
    chars_to_string(v)
}

/// The statement reading a job's state row.
pub fn query_scan_state_sql(job_id: &str) -> (r: String)
    ensures
        r@ == "SELECT origin_state FROM scan_state_"@ + job_id@ + " FINAL WHERE id = 1"@,
{
    let mut v = string_to_chars("SELECT origin_state FROM scan_state_");
    let j = string_to_chars(job_id);
    append_chars(&mut v, j.as_slice());
    let tail = string_to_chars(" FINAL WHERE id = 1");
    append_chars(&mut v, tail.as_slice());
    chars_to_string(v)
}

} // verus!
