//! The S3 backend: interface only.  Listing a bucket is the business
//! of an S3 adapter outside this library.

use vstd::prelude::*;

use crate::text::{chars_to_string, slice_range, spec_find};

verus! {

/// The bucket name of an `s3://`-less location: everything before the
/// first `/`, or the whole text when there is no `/`.
pub open spec fn spec_bucket_of(rest: Seq<char>) -> Seq<char> {
    match spec_find(rest, seq!['/']) {
        Some(i) => rest.take(i),
        None => rest,
    }
}

/// Extract the bucket name from an `s3://`-less location.
pub fn parse_s3_bucket(rest: &[char]) -> (r: String)
    ensures
        r@ == spec_bucket_of(rest@),
{
    let mut slash: Vec<char> = Vec::new();
    slash.push('/');
    proof {
        assert(slash@ =~= seq!['/']);
    }
    match crate::text::find_sub(rest, slash.as_slice()) {
        Some(i) => {
            proof {
                crate::text::lemma_spec_find(rest@, seq!['/']);
            }
            let b = slice_range(rest, 0, i);
            proof {
                assert(b@ =~= rest@.take(i as int));
            }
            chars_to_string(b)
        },
        None => {
            let b = slice_range(rest, 0, rest.len());
            proof {
                assert(b@ =~= rest@);
            }
            chars_to_string(b)
        },
    }
}

/// An S3 bucket with the credentials needed to reach it.
#[derive(Debug, Clone)]
pub struct S3Storage {
    /// The bucket name.
    pub bucket: String,
    /// The region.
    pub region: String,
    /// The access key.
    pub access_key: String,
    /// The secret key.
    pub secret_key: String,
}

impl S3Storage {
    /// Bundle a bucket with its region and credentials.
    pub fn new(bucket: String, region: String, access_key: String, secret_key: String) -> (r:
        S3Storage)
        ensures
            r.bucket@ == bucket@,
            r.region@ == region@,
            r.access_key@ == access_key@,
            r.secret_key@ == secret_key@,
    {
        S3Storage { bucket, region, access_key, secret_key }
    }

    /// The bucket name.
    pub fn bucket(&self) -> (r: &str)
        ensures
            r@ == self.bucket@,
    {
        self.bucket.as_str()
    }

    /// The region.
    pub fn region(&self) -> (r: &str)
        ensures
            r@ == self.region@,
    {
        self.region.as_str()
    }

    /// The access key.
    pub fn access_key(&self) -> (r: &str)
        ensures
            r@ == self.access_key@,
    {
        self.access_key.as_str()
    }

    /// The secret key.
    pub fn secret_key(&self) -> (r: &str)
        ensures
            r@ == self.secret_key@,
    {
        self.secret_key.as_str()
    }
}

} // verus!
