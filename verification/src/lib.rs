//! A verified core for a filesystem scan-and-sync pipeline.
//!
//! The crate models a streaming scan: storage walkers produce metadata
//! entries, a filter language decides which entries survive, and the
//! surviving entries are fanned out to sinks (console statistics, a
//! batching database sink, a log sink).  All decision logic lives here,
//! with contracts; transports (filesystem, NFS, database connections)
//! are driven by an unverified shell around the library.

use vstd::prelude::*;

mod text;
pub mod acl;
pub mod consumer;
pub mod db;
pub mod filter;
pub mod local;
pub mod nfs;
pub mod s3;
pub mod scan;
pub mod stats;
pub mod storage;
pub mod sync;

pub use text::chars_to_string;
pub use text::string_to_chars;

verus! {

/// Replaces every `-`, `.`, space, `/` and `\` in a job id with `_`,
/// so the id can be embedded in table and directory names.
pub open spec fn sanitize_char(c: char) -> char {
    if c == '-' || c == '.' || c == ' ' || c == '/' || c == '\\' {
        '_'
    } else {
        c
    }
}

/// The sanitized form of a whole job id.
pub open spec fn sanitize_spec(s: Seq<char>) -> Seq<char> {
    s.map_values(|c: char| sanitize_char(c))
}

/// Make a job id safe for use in table and directory names: every
/// occurrence of `-`, `.`, space, `/` or `\` becomes `_`.
pub fn sanitize_job_id(job_id: &str) -> (r: String)
    ensures
        r@ == sanitize_spec(job_id@),
{
    let chars = text::string_to_chars(job_id);
    let mut out: Vec<char> = Vec::new();
    let n = chars.len();
    let mut i: usize = 0;
    while i < n
        invariant
            n == chars.len(),
            i <= n,
            chars@ == job_id@,
            out@ == sanitize_spec(job_id@.take(i as int)),
        decreases n - i,
    {
        let c = chars[i];
        if c == '-' || c == '.' || c == ' ' || c == '/' || c == '\\' {
            out.push('_');
        } else {
            out.push(c);
        }
        proof {
            assert(out@ =~= sanitize_spec(job_id@.take(i + 1)));
        }
        i = i + 1;
    }
    proof {
        assert(job_id@.take(n as int) =~= job_id@);
    }
    text::chars_to_string(out)
}

} // verus!

verus! {

/// A character that may appear in a table or directory name.
pub open spec fn is_word_char(c: char) -> bool {
    ('a' <= c && c <= 'z') || ('A' <= c && c <= 'Z') || ('0' <= c && c <= '9') || c == '_'
}

/// A character that sanitizing replaces with `_`.
pub open spec fn is_replaced_char(c: char) -> bool {
    c == '-' || c == '.' || c == ' ' || c == '/' || c == '\\'
}

/// Sanitizing a job id is idempotent.
pub proof fn lemma_sanitize_idempotent(s: Seq<char>)
    ensures
        sanitize_spec(sanitize_spec(s)) == sanitize_spec(s),
{
    assert(sanitize_spec(sanitize_spec(s)) =~= sanitize_spec(s)) by {
        assert(forall|i: int|
            0 <= i < s.len() ==> sanitize_char(sanitize_char(#[trigger] s[i])) == sanitize_char(
                s[i],
            ));
    }
}

/// Sanitizing a job id of word characters and replaceable characters
/// yields only word characters.  (A character outside both classes,
/// such as `@`, passes through unchanged, so the claim needs the
/// premise.)
pub proof fn lemma_sanitize_charset(s: Seq<char>)
    requires
        forall|i: int| 0 <= i < s.len() ==> is_word_char(#[trigger] s[i]) || is_replaced_char(s[i]),
    ensures
        forall|i: int|
            0 <= i < sanitize_spec(s).len() ==> is_word_char(#[trigger] sanitize_spec(s)[i]),
{
    assert forall|i: int| 0 <= i < sanitize_spec(s).len() implies is_word_char(
        #[trigger] sanitize_spec(s)[i],
    ) by {
        assert(sanitize_spec(s)[i] == sanitize_char(s[i]));
        assert(is_word_char(s[i]) || is_replaced_char(s[i]));
    }
}

} // verus!
