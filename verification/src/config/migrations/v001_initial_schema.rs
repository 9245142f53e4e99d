//! V1: the initial schema, identified by a checksum of its sources.
use vstd::prelude::*;

use sha2::Digest;

verus! {

/// The SHA-256 digest of `data`.
pub uninterp spec fn sha256_of(data: Seq<u8>) -> Seq<u8>;

/// `sha2::Sha256::digest`: the SHA-256 digest of `data`, 32 bytes.
#[verifier::external_body]
fn sha256_digest(data: &[u8]) -> (d: Vec<u8>)
    ensures
        d@ == sha256_of(data@),
        d@.len() == 32,
{
    sha2::Sha256::digest(data).to_vec()
}

/// The lowercase hexadecimal digit of a value below 16.
pub open spec fn hex_digit(n: int) -> char {
    if n < 10 {
        (n + 48) as char
    } else {
        (n + 87) as char
    }
}

/// Lowercase hexadecimal text of bytes: two digits per byte, high nibble first.
pub open spec fn spec_hex_lower(bytes: Seq<u8>) -> Seq<char>
    decreases bytes.len(),
{
    if bytes.len() == 0 {
        seq![]
    } else {
        spec_hex_lower(bytes.drop_last()) + seq![hex_digit(bytes.last() as int / 16), hex_digit(bytes.last() as int % 16)]
    }
}

/// `hex::encode`: lowercase hexadecimal text of `bytes`.
#[verifier::external_body]
fn hex_encode(bytes: &[u8]) -> (s: String)
    ensures
        s@ == spec_hex_lower(bytes@),
{
    hex::encode(bytes)
}

/// Checksums recorded around the MySQL `upstreams` primary-key correction; the
/// DDL before and after it are both valid V1 schemas.
pub const COMPATIBLE_UPSTREAMS_PK_FIX_CHECKSUM_BEFORE: &'static str =
    "sha256:094e4c56370bba562f1feeafe0b18403e8eb26c22e23d8b083e773a468180038";

/// See [`COMPATIBLE_UPSTREAMS_PK_FIX_CHECKSUM_BEFORE`].
pub const COMPATIBLE_UPSTREAMS_PK_FIX_CHECKSUM_AFTER: &'static str =
    "sha256:24903f7bc521d6ceef02927bc7af812c5f92fb57c3ae4115a23b02b7d808c806";

/// V1: initial schema, creating the baseline tables.
#[derive(Debug, Clone, Copy)]
pub struct V001InitialSchema;

impl V001InitialSchema {
    /// The schema version this migration brings the database to.
    pub fn version(&self) -> (v: i64)
        ensures
            v == 1,
    {
        1
    }

    /// The migration's name.
    pub fn name(&self) -> (n: &'static str)
        ensures
            n@ == "initial_schema"@,
    {
        "initial_schema"
    }

    /// The migration's checksum: `sha256:` and the lowercase hex SHA-256 of
    /// the migration source followed by the SQL dialect source.
    pub fn checksum_from_sources(&self, migration_source: &[u8], dialect_source: &[u8]) -> (c: String)
        ensures
            c@ == "sha256:"@ + spec_hex_lower(sha256_of(migration_source@ + dialect_source@)),
    {
        let mut data: Vec<u8> = Vec::new();
        let mut i: usize = 0;
        while i < migration_source.len()
            invariant
                i <= migration_source.len(),
                data@ == migration_source@.take(i as int),
            decreases migration_source.len() - i,
        {
            data.push(migration_source[i]);
            i += 1;
        }
        let mut j: usize = 0;
        while j < dialect_source.len()
            invariant
                i == migration_source.len(),
                j <= dialect_source.len(),
                data@ == migration_source@ + dialect_source@.take(j as int),
            decreases dialect_source.len() - j,
        {
            assert(migration_source@.take(i as int) =~= migration_source@);
            data.push(dialect_source[j]);
            assert(migration_source@ + dialect_source@.take(j + 1) =~= (migration_source@ + dialect_source@.take(j as int)).push(dialect_source@[j as int]));
            j += 1;
        }
        assert(migration_source@.take(migration_source.len() as int) =~= migration_source@);
        assert(data@ =~= migration_source@ + dialect_source@);
        let digest = sha256_digest(data.as_slice());
        let hex = hex_encode(digest.as_slice());
        let mut c = String::from_str("sha256:");
        c.append(hex.as_str());
        c
    }
}

} // verus!
