//! Scan statistics: the running counters a console sink keeps, and the
//! framed report printed when a run completes.
//!
//! Totals saturate at `i64::MAX` instead of wrapping; averages are
//! computed over whole units and rounded half-up; capacities are shown
//! in IEC units with two decimal places.

use vstd::prelude::*;

use crate::scan::ScanParams;
use crate::text;
use crate::text::{
    append_chars, chars_to_string, spec_dec_digits, spec_join, string_to_chars, u64_to_dec_chars,
};

verus! {

/// `a + b`, stopped at `i64::MAX`.
pub open spec fn sat_add(a: int, b: int) -> int {
    if a + b > i64::MAX {
        i64::MAX as int
    } else {
        a + b
    }
}

/// Add a non-negative amount to a non-negative total, saturating.
fn sat_add_i64(a: i64, b: u64) -> (r: i64)
    requires
        a >= 0,
    ensures
        r == sat_add(a as int, b as int),
        r >= 0,
{
    let wide: i128 = (a as i128) + (b as i128);
    if wide > i64::MAX as i128 {
        i64::MAX
    } else {
        wide as i64
    }
}

/// The counters of one scan run.
#[derive(Debug, Clone)]
pub struct ScanStats {
    /// Entries counted as files (symlinks included).
    pub total_files: usize,
    /// Entries counted as directories.
    pub total_dirs: usize,
    /// Files that passed the match/exclude composition.
    pub matched_files: usize,
    /// Directories that passed the match/exclude composition.
    pub matched_dirs: usize,
    /// Total size of the files, bytes.
    pub total_size: i64,
    /// How many of the files are symlinks.
    pub total_symlink: i64,
    /// How many of the files are regular.
    pub total_regular_file: i64,
    /// Sum of all name lengths.
    pub total_name_length: i64,
    /// The longest name seen.
    pub max_name_length: usize,
    /// Sum of all directory depths.
    pub total_dir_depth: i64,
    /// The deepest directory seen.
    pub max_dir_depth: usize,
    /// The command line that reproduces the scan.
    pub command: String,
    /// The job id.
    pub job_id: String,
    /// Where the log went.
    pub log_path: String,
    /// The wall-clock duration, as text.
    pub total_time: String,
}

/// The counters are all non-negative.
pub open spec fn stats_wf(s: ScanStats) -> bool {
    s.total_size >= 0 && s.total_symlink >= 0 && s.total_regular_file >= 0
        && s.total_name_length >= 0 && s.total_dir_depth >= 0
}

impl Default for ScanStats {
    /// All counters zero; the command is the bare `terrasync scan`.
    fn default() -> (r: Self)
        ensures
            r.total_files == 0,
            r.total_dirs == 0,
            r.matched_files == 0,
            r.matched_dirs == 0,
            r.total_size == 0,
            r.total_symlink == 0,
            r.total_regular_file == 0,
            r.total_name_length == 0,
            r.max_name_length == 0,
            r.total_dir_depth == 0,
            r.max_dir_depth == 0,
            r.command@ == "terrasync scan"@,
            r.job_id@.len() == 0,
            r.log_path@.len() == 0,
            r.total_time@ == "0s"@,
            stats_wf(r),
    {
        ScanStats {
            total_files: 0,
            total_dirs: 0,
            matched_files: 0,
            matched_dirs: 0,
            total_size: 0,
            total_symlink: 0,
            total_regular_file: 0,
            total_name_length: 0,
            max_name_length: 0,
            total_dir_depth: 0,
            max_dir_depth: 0,
            command: chars_to_string(string_to_chars("terrasync scan")),
            job_id: String::new(),
            log_path: String::new(),
            total_time: chars_to_string(string_to_chars("0s")),
        }
    }
}

/// The command line that would reproduce the scan: the path, then the
/// id, depth, match and exclude arguments when present.
pub open spec fn spec_command(p: ScanParams) -> Seq<char> {
    let base = "terrasync scan \""@ + p.path@ + "\""@;
    let with_id = base + match p.id {
        Some(id) => " --id \""@ + id@ + "\""@,
        None => Seq::<char>::empty(),
    };
    let with_depth = with_id + if p.depth > 0 {
        " --depth "@ + spec_dec_digits(p.depth as nat)
    } else {
        Seq::<char>::empty()
    };
    let with_match = with_depth + if p.match_expressions@.len() > 0 {
        " --expression \""@ + spec_join(
            p.match_expressions@.map_values(|s: String| s@),
            " \""@,
        ) + "\""@
    } else {
        Seq::<char>::empty()
    };
    with_match + if p.exclude_expressions@.len() > 0 {
        " --exclude \""@ + spec_join(
            p.exclude_expressions@.map_values(|s: String| s@),
            " \""@,
        ) + "\""@
    } else {
        Seq::<char>::empty()
    }
}

/// Copy a list of strings into character vectors.
fn strings_to_char_vecs(v: &Vec<String>) -> (r: Vec<Vec<char>>)
    ensures
        r@.len() == v@.len(),
        forall|i: int| 0 <= i < r@.len() ==> #[trigger] r@[i]@ == v@[i]@,
{
    let n = v.len();
    let mut r: Vec<Vec<char>> = Vec::new();
    let mut i: usize = 0;
    while i < n
        invariant
            n == v@.len(),
            i <= n,
            r@.len() == i,
            forall|k: int| 0 <= k < i ==> #[trigger] r@[k]@ == v@[k]@,
        decreases n - i,
    {
        r.push(string_to_chars(v[i].as_str()));
        i = i + 1;
    }
    r
}

impl ScanStats {
    /// Build the command line that reproduces the scan.
    #[verifier::rlimit(50)]
    #[verifier::spinoff_prover]
    pub fn build_command(params: &ScanParams) -> (r: String)
        ensures
            r@ == spec_command(*params),
    {
        let ghost base = "terrasync scan \""@ + params.path@ + "\""@;
        let ghost with_id = base + match &params.id {
            Some(id) => " --id \""@ + id@ + "\""@,
            None => Seq::<char>::empty(),
        };
        let ghost with_depth = with_id + if params.depth > 0 {
            " --depth "@ + spec_dec_digits(params.depth as nat)
        } else {
            Seq::<char>::empty()
        };
        let ghost with_match = with_depth + if params.match_expressions@.len() > 0 {
            " --expression \""@ + spec_join(
                params.match_expressions@.map_values(|s: String| s@),
                " \""@,
            ) + "\""@
        } else {
            Seq::<char>::empty()
        };
        let mut out = string_to_chars("terrasync scan \"");
        let p = string_to_chars(params.path.as_str());
        append_chars(&mut out, p.as_slice());
        let q = string_to_chars("\"");
        append_chars(&mut out, q.as_slice());
        proof {
            assert(out@ == base);
        }
        match &params.id {
            Some(id) => {
                let lit = string_to_chars(" --id \"");
                append_chars(&mut out, lit.as_slice());
                let idc = string_to_chars(id.as_str());
                append_chars(&mut out, idc.as_slice());
                append_chars(&mut out, q.as_slice());
            },
            None => {},
        }
        proof {
            assert(out@ =~= with_id);
        }
        if params.depth > 0 {
            let lit = string_to_chars(" --depth ");
            append_chars(&mut out, lit.as_slice());
            let d = u64_to_dec_chars(params.depth as u64);
            append_chars(&mut out, d.as_slice());
        }
        proof {
            assert(out@ =~= with_depth);
        }
        let sep = string_to_chars(" \"");
        if params.match_expressions.len() > 0 {
            let lit = string_to_chars(" --expression \"");
            append_chars(&mut out, lit.as_slice());
            let parts = strings_to_char_vecs(&params.match_expressions);
            let joined = text::join_chars(&parts, sep.as_slice());
            proof {
                assert(parts@.map_values(|p: Vec<char>| p@) =~= params.match_expressions@
                    .map_values(|s: String| s@));
            }
            append_chars(&mut out, joined.as_slice());
            append_chars(&mut out, q.as_slice());
        }
        proof {
            assert(out@ =~= with_match);
        }
        if params.exclude_expressions.len() > 0 {
            let lit = string_to_chars(" --exclude \"");
            append_chars(&mut out, lit.as_slice());
            let parts = strings_to_char_vecs(&params.exclude_expressions);
            let joined = text::join_chars(&parts, sep.as_slice());
            proof {
                assert(parts@.map_values(|p: Vec<char>| p@) =~= params.exclude_expressions@
                    .map_values(|s: String| s@));
            }
            append_chars(&mut out, joined.as_slice());
            append_chars(&mut out, q.as_slice());
        }
        proof {
            assert(out@ =~= spec_command(*params));
        }
        chars_to_string(out)
    }

    /// Take another run's counters, keeping the larger maxima and this
    /// run's display metadata.
    pub fn merge_from(&mut self, other: &ScanStats)
        ensures
            final(self).total_files == other.total_files,
            final(self).total_dirs == other.total_dirs,
            final(self).matched_files == other.matched_files,
            final(self).matched_dirs == other.matched_dirs,
            final(self).total_size == other.total_size,
            final(self).total_symlink == other.total_symlink,
            final(self).total_regular_file == other.total_regular_file,
            final(self).total_name_length == other.total_name_length,
            final(self).max_name_length == if old(self).max_name_length >= other.max_name_length {
                old(self).max_name_length
            } else {
                other.max_name_length
            },
            final(self).total_dir_depth == other.total_dir_depth,
            final(self).max_dir_depth == if old(self).max_dir_depth >= other.max_dir_depth {
                old(self).max_dir_depth
            } else {
                other.max_dir_depth
            },
            final(self).command == old(self).command,
            final(self).job_id == old(self).job_id,
            final(self).log_path == old(self).log_path,
            final(self).total_time == old(self).total_time,
    {
        self.total_files = other.total_files;
        self.total_dirs = other.total_dirs;
        self.matched_files = other.matched_files;
        self.matched_dirs = other.matched_dirs;
        self.total_size = other.total_size;
        self.total_symlink = other.total_symlink;
        self.total_regular_file = other.total_regular_file;
        self.total_name_length = other.total_name_length;
        if other.max_name_length > self.max_name_length {
            self.max_name_length = other.max_name_length;
        }
        self.total_dir_depth = other.total_dir_depth;
        if other.max_dir_depth > self.max_dir_depth {
            self.max_dir_depth = other.max_dir_depth;
        }
    }
}

/// The per-entry statistics updates, relative to a base path.
#[derive(Debug, Clone)]
pub struct StatsCalculator {
    /// The path depths are measured against.
    pub base_path: String,
}

/// Does position `i` start a path segment (a maximal run without
/// `/`)?
pub open spec fn count_segments(s: Seq<char>) -> nat
    decreases s.len(),
{
    if s.len() == 0 {
        0
    } else {
        count_segments(s.drop_last()) + if s.last() != '/' && (s.len() == 1 || s[s.len() - 2]
            == '/') {
            1nat
        } else {
            0nat
        }
    }
}

/// The depth of a path below a base: the number of path segments of
/// the path with the base stripped (plus one for the root of an
/// absolute leftover path), but at least 1.
pub open spec fn spec_depth(path: Seq<char>, base: Seq<char>) -> int {
    let rel = crate::storage::spec_relative(path, base);
    let segs = count_segments(rel) + if rel.len() > 0 && rel[0] == '/' {
        1int
    } else {
        0int
    };
    if segs >= 1 {
        segs
    } else {
        1
    }
}

impl StatsCalculator {
    /// A calculator measuring depths against the given base path.
    pub fn new(base_path: &str) -> (r: StatsCalculator)
        ensures
            r.base_path@ == base_path@,
    {
        let c = string_to_chars(base_path);
        StatsCalculator { base_path: chars_to_string(c) }
    }

    /// Count a file: its size, name length and link kind.
    pub fn update_file_stats(
        &self,
        stats: &mut ScanStats,
        file_name: &str,
        file_size: u64,
        is_symlink: bool,
    )
        requires
            stats_wf(*old(stats)),
        ensures
            stats_wf(*final (stats)),
            final (stats).total_size == sat_add(old(stats).total_size as int, file_size as int),
            final (stats).total_name_length == sat_add(
                old(stats).total_name_length as int,
                file_name@.len() as int,
            ),
            final (stats).max_name_length == if old(stats).max_name_length >= file_name@.len() {
                old(stats).max_name_length as int
            } else {
                file_name@.len() as int
            },
            final (stats).total_symlink == if is_symlink {
                sat_add(old(stats).total_symlink as int, 1)
            } else {
                old(stats).total_symlink as int
            },
            final (stats).total_regular_file == if is_symlink {
                old(stats).total_regular_file as int
            } else {
                sat_add(old(stats).total_regular_file as int, 1)
            },
            final (stats).total_files == old(stats).total_files,
            final (stats).total_dirs == old(stats).total_dirs,
            final (stats).matched_files == old(stats).matched_files,
            final (stats).matched_dirs == old(stats).matched_dirs,
            final (stats).total_dir_depth == old(stats).total_dir_depth,
            final (stats).max_dir_depth == old(stats).max_dir_depth,
            final (stats).command == old(stats).command,
            final (stats).job_id == old(stats).job_id,
            final (stats).log_path == old(stats).log_path,
            final (stats).total_time == old(stats).total_time,
    {
        stats.total_size = sat_add_i64(stats.total_size, file_size);
        let name_len = file_name.unicode_len();
        stats.total_name_length = sat_add_i64(stats.total_name_length, name_len as u64);
        if name_len > stats.max_name_length {
            stats.max_name_length = name_len;
        }
        if is_symlink {
            stats.total_symlink = sat_add_i64(stats.total_symlink, 1);
        } else {
            stats.total_regular_file = sat_add_i64(stats.total_regular_file, 1);
        }
    }

    /// Count a directory: its name length and depth.
    pub fn update_dir_stats(&self, stats: &mut ScanStats, dir_name: &str, depth: usize)
        requires
            stats_wf(*old(stats)),
        ensures
            stats_wf(*final (stats)),
            final (stats).total_name_length == sat_add(
                old(stats).total_name_length as int,
                dir_name@.len() as int,
            ),
            final (stats).max_name_length == if old(stats).max_name_length >= dir_name@.len() {
                old(stats).max_name_length as int
            } else {
                dir_name@.len() as int
            },
            final (stats).total_dir_depth == sat_add(old(stats).total_dir_depth as int, depth as int),
            final (stats).max_dir_depth == if old(stats).max_dir_depth >= depth {
                old(stats).max_dir_depth
            } else {
                depth
            },
            final (stats).total_files == old(stats).total_files,
            final (stats).total_dirs == old(stats).total_dirs,
            final (stats).matched_files == old(stats).matched_files,
            final (stats).matched_dirs == old(stats).matched_dirs,
            final (stats).total_size == old(stats).total_size,
            final (stats).total_symlink == old(stats).total_symlink,
            final (stats).total_regular_file == old(stats).total_regular_file,
            final (stats).command == old(stats).command,
            final (stats).job_id == old(stats).job_id,
            final (stats).log_path == old(stats).log_path,
            final (stats).total_time == old(stats).total_time,
    {
        let name_len = dir_name.unicode_len();
        stats.total_name_length = sat_add_i64(stats.total_name_length, name_len as u64);
        if name_len > stats.max_name_length {
            stats.max_name_length = name_len;
        }
        stats.total_dir_depth = sat_add_i64(stats.total_dir_depth, depth as u64);
        if depth > stats.max_dir_depth {
            stats.max_dir_depth = depth;
        }
    }

    /// The depth of a path below the base path: its number of path
    /// segments after stripping the base, at least 1.
    pub fn calculate_depth(&self, path: &str) -> (r: usize)
        ensures
            r == spec_depth(path@, self.base_path@),
    {
        let rel = crate::storage::get_relative_path(path, self.base_path.as_str());
        let chars = string_to_chars(rel.as_str());
        let n = chars.len();
        let mut cnt: usize = 0;
        let mut i: usize = 0;
        while i < n
            invariant
                n == chars@.len(),
                i <= n,
                cnt == count_segments(chars@.take(i as int)),
                cnt <= i,
                (n > 0 && chars@[0] == '/' && i > 0) ==> cnt < i,
            decreases n - i,
        {
            proof {
                let t = chars@.take(i + 1);
                assert(t.drop_last() =~= chars@.take(i as int));
                assert(t.last() == chars@[i as int]);
                if i > 0 {
                    assert(t[t.len() - 2] == chars@[i - 1]);
                }
            }
            let c = chars[i];
            if c != '/' && (i == 0 || chars[i - 1] == '/') {
                cnt = cnt + 1;
            }
            i = i + 1;
        }
        proof {
            assert(chars@.take(n as int) =~= chars@);
        }
        let rooted: usize = if n > 0 && chars[0] == '/' {
            1
        } else {
            0
        };
        let total = cnt + rooted;
        if total >= 1 {
            total
        } else {
            1
        }
    }

    /// The length of a path's final component.
    pub fn get_name_length(&self, path: &str) -> (r: usize)
        ensures
            r == crate::scan::after_last(path@, '/').len(),
    {
        let chars = string_to_chars(path);
        let name = crate::scan::after_last_exec(chars.as_slice(), '/');
        name.len()
    }
}

} // verus!

verus! {

/// A non-negative count, for display.
pub open spec fn clamp0(x: int) -> nat {
    if x >= 0 {
        x as nat
    } else {
        0
    }
}

/// `a / b` rounded half up; 0 when `b` is 0.
pub open spec fn spec_div_round(a: nat, b: nat) -> nat {
    if b == 0 {
        0
    } else {
        ((a + b / 2) / b) as nat
    }
}

/// Two decimal digits, zero-padded.
pub open spec fn spec_pad2(n: nat) -> Seq<char> {
    if n < 10 {
        seq!['0'] + spec_dec_digits(n)
    } else {
        spec_dec_digits(n)
    }
}

/// A byte count in IEC units: plain bytes below 1 KiB, else the
/// scaled value with two decimals (rounded half up) and its unit.
pub open spec fn spec_format_bytes(b: nat) -> Seq<char> {
    if b < 1024 {
        spec_dec_digits(b) + " B"@
    } else {
        let divu: (nat, Seq<char>) = if b < 1048576 {
            (1024nat, " KiB"@)
        } else if b < 1073741824 {
            (1048576nat, " MiB"@)
        } else if b < 1099511627776 {
            (1073741824nat, " GiB"@)
        } else {
            (1099511627776nat, " TiB"@)
        };
        let v100 = (b * 100 + divu.0 / 2) / divu.0;
        spec_dec_digits(v100 / 100) + seq!['.'] + spec_pad2(v100 % 100) + divu.1
    }
}

/// Append a byte count formatted in IEC units.
fn append_bytes(out: &mut Vec<char>, b: u64)
    ensures
        final (out)@ == old(out)@ + spec_format_bytes(b as nat),
{
    if b < 1024 {
        let d = u64_to_dec_chars(b);
        append_chars(out, d.as_slice());
        let unit = string_to_chars(" B");
        append_chars(out, unit.as_slice());
        return ;
    }
    let div: u64;
    let unit: &'static str;
    if b < 1048576 {
        div = 1024;
        unit = " KiB";
    } else if b < 1073741824 {
        div = 1048576;
        unit = " MiB";
    } else if b < 1099511627776 {
        div = 1073741824;
        unit = " GiB";
    } else {
        div = 1099511627776;
        unit = " TiB";
    }
    let v100: u128 = ((b as u128) * 100 + (div as u128) / 2) / (div as u128);
    let whole = text::u128_to_dec_chars(v100 / 100);
    append_chars(out, whole.as_slice());
    out.push('.');
    let frac: u64 = (v100 % 100) as u64;
    proof {
        assert(old(out)@ + spec_dec_digits((v100 / 100) as nat) + seq!['.'] =~= old(out)@
            + (spec_dec_digits((v100 / 100) as nat) + seq!['.']));
    }
    if frac < 10 {
        out.push('0');
        let d = u64_to_dec_chars(frac);
        append_chars(out, d.as_slice());
        proof {
            assert(seq!['0'] + spec_dec_digits(frac as nat) =~= spec_pad2(frac as nat));
        }
    } else {
        let d = u64_to_dec_chars(frac);
        append_chars(out, d.as_slice());
    }
    let u = string_to_chars(unit);
    append_chars(out, u.as_slice());
    proof {
        let b100 = (b as nat) * 100;
        let divu: (nat, Seq<char>) = if (b as nat) < 1048576 {
            (1024nat, " KiB"@)
        } else if (b as nat) < 1073741824 {
            (1048576nat, " MiB"@)
        } else if (b as nat) < 1099511627776 {
            (1073741824nat, " GiB"@)
        } else {
            (1099511627776nat, " TiB"@)
        };
        assert(v100 as nat == (b100 + divu.0 / 2) / divu.0);
        assert(final (out)@ =~= old(out)@ + spec_format_bytes(b as nat));
    }
}

/// A byte count formatted in IEC units, at most two decimals.
pub fn format_bytes(b: u64) -> (r: String)
    ensures
        r@ == spec_format_bytes(b as nat),
{
    let mut v: Vec<char> = Vec::new();
    append_bytes(&mut v, b);
    proof {
        assert(Seq::<char>::empty() + spec_format_bytes(b as nat) =~= spec_format_bytes(
            b as nat,
        ));
    }
    chars_to_string(v)
}

} // verus!

verus! {

/// The report's header block: frame, command, time, job id, log path.
pub open spec fn spec_report_head(s: ScanStats) -> Seq<char> {
    "==================================================================\n"@
        + "                           Scan Statistics                          \n"@
        + " ==================================================================\n\n"@
        + "   Command    :    "@ + s.command@ + "\n"@ + "   Total time :    "@ + s.total_time@
        + "\n"@ + "   Job ID     :    "@ + s.job_id@ + "\n"@ + "   Log Path   :    "@
        + s.log_path@ + "\n\n"@
}

/// The report's counts block: total, files, directories.
pub open spec fn spec_report_counts(s: ScanStats) -> Seq<char> {
    " ------------------------- Scanned Count -------------------------\n"@
        + "   Total:                                       "@ + spec_dec_digits(
        (s.total_files + s.total_dirs) as nat,
    ) + "\n"@ + "   Files:                                       "@ + spec_dec_digits(
        s.total_files as nat,
    ) + "\n"@ + "   Directories:                                 "@ + spec_dec_digits(
        s.total_dirs as nat,
    ) + "\n"@
}

/// The report's capacity block: total and average size in IEC units.
/// The average is over whole bytes, rounded down.
pub open spec fn spec_report_capacity(s: ScanStats) -> Seq<char> {
    let size = clamp0(s.total_size as int);
    let avg = if s.total_files == 0 {
        0nat
    } else {
        (size / (s.total_files as nat)) as nat
    };
    " --------------------------- Capacity ---------------------------\n"@
        + "   Total:                                 "@ + spec_format_bytes(size) + "\n"@
        + "   Average:                               "@ + spec_format_bytes(avg) + "\n"@
}

/// The report's name-length and depth block, with half-up-rounded
/// averages, and the closing frame.
pub open spec fn spec_report_tail(s: ScanStats) -> Seq<char> {
    let avg_name = spec_div_round(
        clamp0(s.total_name_length as int),
        (s.total_files + s.total_dirs) as nat,
    );
    let avg_depth = spec_div_round(clamp0(s.total_dir_depth as int), s.total_dirs as nat);
    " ------------------------ Filename Length ------------------------\n"@
        + "   Avg:                                          "@ + spec_dec_digits(avg_name) + "\n"@
        + "   Max:                                          "@ + spec_dec_digits(
        s.max_name_length as nat,
    ) + "\n"@ + " ------------------------ Directory Depth ------------------------\n"@
        + "   Avg:                                           "@ + spec_dec_digits(avg_depth)
        + "\n"@ + "   Max:                                           "@ + spec_dec_digits(
        s.max_dir_depth as nat,
    ) + "\n"@ + " -------------------------------------------------------------\n"@
        + " =================================================================\n"@
}

/// The whole framed report.
pub open spec fn spec_report(s: ScanStats) -> Seq<char> {
    spec_report_head(s) + spec_report_counts(s) + spec_report_capacity(s) + spec_report_tail(s)
}

/// `a / b` rounded half up; 0 when `b` is 0.
fn div_round(a: u64, b: u128) -> (r: u64)
    ensures
        r == spec_div_round(a as nat, b as nat),
{
    if b == 0 {
        return 0;
    }
    proof {
        assert(((a as int) + (b as int) / 2) / (b as int) <= a as int) by (nonlinear_arith)
            requires
                b as int >= 1,
                a as int >= 0,
        ;
    }
    let wide: u128 = ((a as u128) + b / 2) / b;
    wide as u64
}

impl ScanStats {
    /// The framed statistics report, as the console prints it on
    /// completion.
    #[verifier::rlimit(100)]
    #[verifier::spinoff_prover]
    pub fn format_report(&self) -> (r: String)
        requires
            stats_wf(*self),
        ensures
            r@ == spec_report(*self),
    {
        let mut out = string_to_chars(
            "==================================================================\n",
        );
        let l2 = string_to_chars(
            "                           Scan Statistics                          \n",
        );
        append_chars(&mut out, l2.as_slice());
        let l3 = string_to_chars(" ==================================================================\n\n");
        append_chars(&mut out, l3.as_slice());
        let l4 = string_to_chars("   Command    :    ");
        append_chars(&mut out, l4.as_slice());
        let cmd = string_to_chars(self.command.as_str());
        append_chars(&mut out, cmd.as_slice());
        let nl = string_to_chars("\n");
        append_chars(&mut out, nl.as_slice());
        let l5 = string_to_chars("   Total time :    ");
        append_chars(&mut out, l5.as_slice());
        let tt = string_to_chars(self.total_time.as_str());
        append_chars(&mut out, tt.as_slice());
        append_chars(&mut out, nl.as_slice());
        let l6 = string_to_chars("   Job ID     :    ");
        append_chars(&mut out, l6.as_slice());
        let jid = string_to_chars(self.job_id.as_str());
        append_chars(&mut out, jid.as_slice());
        append_chars(&mut out, nl.as_slice());
        let l7 = string_to_chars("   Log Path   :    ");
        append_chars(&mut out, l7.as_slice());
        let lp = string_to_chars(self.log_path.as_str());
        append_chars(&mut out, lp.as_slice());
        let nl2 = string_to_chars("\n\n");
        append_chars(&mut out, nl2.as_slice());
        proof {
            assert(out@ =~= spec_report_head(*self));
        }
        let c1 = string_to_chars(
            " ------------------------- Scanned Count -------------------------\n",
        );
        append_chars(&mut out, c1.as_slice());
        let c2 = string_to_chars("   Total:                                       ");
        append_chars(&mut out, c2.as_slice());
        let items: u128 = (self.total_files as u128) + (self.total_dirs as u128);
        let items_d = text::u128_to_dec_chars(items);
        append_chars(&mut out, items_d.as_slice());
        append_chars(&mut out, nl.as_slice());
        let c3 = string_to_chars("   Files:                                       ");
        append_chars(&mut out, c3.as_slice());
        let files_d = text::u128_to_dec_chars(self.total_files as u128);
        append_chars(&mut out, files_d.as_slice());
        append_chars(&mut out, nl.as_slice());
        let c4 = string_to_chars("   Directories:                                 ");
        append_chars(&mut out, c4.as_slice());
        let dirs_d = text::u128_to_dec_chars(self.total_dirs as u128);
        append_chars(&mut out, dirs_d.as_slice());
        append_chars(&mut out, nl.as_slice());
        proof {
            assert(out@ =~= spec_report_head(*self) + spec_report_counts(*self));
        }
        let p1 = string_to_chars(
            " --------------------------- Capacity ---------------------------\n",
        );
        append_chars(&mut out, p1.as_slice());
        let p2 = string_to_chars("   Total:                                 ");
        append_chars(&mut out, p2.as_slice());
        let size: u64 = if self.total_size >= 0 {
            self.total_size as u64
        } else {
            0
        };
        append_bytes(&mut out, size);
        append_chars(&mut out, nl.as_slice());
        let p3 = string_to_chars("   Average:                               ");
        append_chars(&mut out, p3.as_slice());
        let avg_size: u64 = if self.total_files == 0 {
            0
        } else {
            size / (self.total_files as u64)
        };
        append_bytes(&mut out, avg_size);
        append_chars(&mut out, nl.as_slice());
        proof {
            assert(out@ =~= spec_report_head(*self) + spec_report_counts(*self)
                + spec_report_capacity(*self));
        }
        let t1 = string_to_chars(
            " ------------------------ Filename Length ------------------------\n",
        );
        append_chars(&mut out, t1.as_slice());
        let t2 = string_to_chars("   Avg:                                          ");
        append_chars(&mut out, t2.as_slice());
        let name_total: u64 = if self.total_name_length >= 0 {
            self.total_name_length as u64
        } else {
            0
        };
        let avg_name = div_round(name_total, items);
        let avg_name_d = u64_to_dec_chars(avg_name);
        append_chars(&mut out, avg_name_d.as_slice());
        append_chars(&mut out, nl.as_slice());
        let t3 = string_to_chars("   Max:                                          ");
        append_chars(&mut out, t3.as_slice());
        let max_name_d = text::u128_to_dec_chars(self.max_name_length as u128);
        append_chars(&mut out, max_name_d.as_slice());
        append_chars(&mut out, nl.as_slice());
        let t4 = string_to_chars(
            " ------------------------ Directory Depth ------------------------\n",
        );
        append_chars(&mut out, t4.as_slice());
        let t5 = string_to_chars("   Avg:                                           ");
        append_chars(&mut out, t5.as_slice());
        let depth_total: u64 = if self.total_dir_depth >= 0 {
            self.total_dir_depth as u64
        } else {
            0
        };
        let avg_depth = div_round(depth_total, self.total_dirs as u128);
        let avg_depth_d = u64_to_dec_chars(avg_depth);
        append_chars(&mut out, avg_depth_d.as_slice());
        append_chars(&mut out, nl.as_slice());
        let t6 = string_to_chars("   Max:                                           ");
        append_chars(&mut out, t6.as_slice());
        let max_depth_d = text::u128_to_dec_chars(self.max_dir_depth as u128);
        append_chars(&mut out, max_depth_d.as_slice());
        append_chars(&mut out, nl.as_slice());
        let t7 = string_to_chars(
            " -------------------------------------------------------------\n",
        );
        append_chars(&mut out, t7.as_slice());
        let t8 = string_to_chars(
            " =================================================================\n",
        );
        append_chars(&mut out, t8.as_slice());
        proof {
            assert(out@ =~= spec_report(*self));
        }
        chars_to_string(out)
    }
}

} // verus!

verus! {

/// Count one walked entry in the run totals: every entry bumps its
/// total, an entry the filters kept bumps its matched counter too.
pub fn count_entry(stats: &mut ScanStats, is_dir: bool, kept: bool)
    ensures
        final (stats).total_files == if !is_dir && old(stats).total_files < usize::MAX {
            old(stats).total_files + 1
        } else {
            old(stats).total_files as int
        },
        final (stats).total_dirs == if is_dir && old(stats).total_dirs < usize::MAX {
            old(stats).total_dirs + 1
        } else {
            old(stats).total_dirs as int
        },
        final (stats).matched_files == if !is_dir && kept && old(stats).matched_files
            < usize::MAX {
            old(stats).matched_files + 1
        } else {
            old(stats).matched_files as int
        },
        final (stats).matched_dirs == if is_dir && kept && old(stats).matched_dirs < usize::MAX {
            old(stats).matched_dirs + 1
        } else {
            old(stats).matched_dirs as int
        },
        final (stats).total_size == old(stats).total_size,
        final (stats).total_symlink == old(stats).total_symlink,
        final (stats).total_regular_file == old(stats).total_regular_file,
        final (stats).total_name_length == old(stats).total_name_length,
        final (stats).max_name_length == old(stats).max_name_length,
        final (stats).total_dir_depth == old(stats).total_dir_depth,
        final (stats).max_dir_depth == old(stats).max_dir_depth,
        final (stats).command == old(stats).command,
        final (stats).job_id == old(stats).job_id,
        final (stats).log_path == old(stats).log_path,
        final (stats).total_time == old(stats).total_time,
{
    if is_dir {
        if stats.total_dirs < usize::MAX {
            stats.total_dirs = stats.total_dirs + 1;
        }
        if kept && stats.matched_dirs < usize::MAX {
            stats.matched_dirs = stats.matched_dirs + 1;
        }
    } else {
        if stats.total_files < usize::MAX {
            stats.total_files = stats.total_files + 1;
        }
        if kept && stats.matched_files < usize::MAX {
            stats.matched_files = stats.matched_files + 1;
        }
    }
}

} // verus!
