//! Archive acquisition: the per-module decisions of the fetch pipeline.
//!
//! For each module the registry is asked for the authoritative checksum
//! of its exact identity. A missing kind skips the module; any other
//! failure, or an empty checksum, is fatal. When a cached archive
//! already hashes to the registry's checksum it is reused as is;
//! otherwise the archive is downloaded into the cache. The I/O itself —
//! the two registry requests and the cache reads and writes — happens
//! around these decisions, which fix for every outcome what must be done.

use vstd::prelude::*;

use crate::identity::AmpModule;
use crate::identity::ModuleView;
use crate::text::option_bytes_view;

verus! {

/// Names the content hash `crypto::md5::Md5` computes over a byte
/// sequence, as lowercase hexadecimal text: it depends on the bytes
/// alone.
pub uninterp spec fn md5_hex(b: Seq<u8>) -> Seq<char>;

/// Relies on `crypto::md5::Md5` with `crypto::digest::Digest::result_str`:
/// the digest of the input bytes, as lowercase hexadecimal text.
#[verifier::external_body]
fn md5_hex_string(b: &Vec<u8>) -> (r: String)
    ensures
        r@ == md5_hex(b@),
{
    let mut digest = crypto::md5::Md5::new();
    crypto::digest::Digest::input(&mut digest, b.as_slice());
    crypto::digest::Digest::result_str(&mut digest)
}

/// Whether a file's bytes hash to the expected checksum.
pub fn checksum_matches(bytes: &Vec<u8>, checksum: &String) -> (r: bool)
    ensures
        r == (md5_hex(bytes@) == checksum@),
{
    let h = md5_hex_string(bytes);
    h.eq(checksum)
}

/// The deterministic cache path of a module's archive:
/// `.cache/vendor-name-version-kind.amp`.
pub open spec fn spec_cache_path(m: ModuleView) -> Seq<char> {
    ".cache/"@ + m.vendor + seq!['-'] + m.name + seq!['-'] + m.version + seq!['-'] + m.module_type
        + ".amp"@
}

/// The cache path a module's archive lives at.
pub fn cache_path(m: &AmpModule) -> (r: String)
    ensures
        r@ =~= spec_cache_path(m@),
{
    proof {
        reveal_strlit("-");
    }
    String::from_str(".cache/").concat(m.vendor.as_str()).concat("-").concat(
        m.name.as_str(),
    ).concat("-").concat(m.version.as_str()).concat("-").concat(m.module_type.as_str()).concat(
        ".amp",
    )
}

/// The registry URL answering a module's authoritative checksum:
/// `{base}/module/{vendor}/{name}/{version}/{kind}`.
pub open spec fn spec_checksum_url(base: Seq<char>, m: ModuleView) -> Seq<char> {
    base + "/module/"@ + m.vendor + seq!['/'] + m.name + seq!['/'] + m.version + seq!['/']
        + m.module_type
}

/// The registry URL answering a module's checksum.
pub fn checksum_url(base: &String, m: &AmpModule) -> (r: String)
    ensures
        r@ =~= spec_checksum_url(base@, m@),
{
    proof {
        reveal_strlit("/");
    }
    base.clone().concat("/module/").concat(m.vendor.as_str()).concat("/").concat(
        m.name.as_str(),
    ).concat("/").concat(m.version.as_str()).concat("/").concat(m.module_type.as_str())
}

/// The registry URL serving a module's archive bytes: the checksum URL
/// with the archive extension appended.
pub open spec fn spec_archive_url(base: Seq<char>, m: ModuleView) -> Seq<char> {
    spec_checksum_url(base, m) + ".amp"@
}

/// The registry URL a module's archive downloads from.
pub fn archive_url(base: &String, m: &AmpModule) -> (r: String)
    ensures
        r@ =~= spec_archive_url(base@, m@),
{
    checksum_url(base, m).concat(".amp")
}

/// What one module's acquisition must do next, the checksum response and
/// the cache's state seen.
#[derive(Clone, Copy, Debug, PartialEq, Eq, Structural)]
pub enum AcquireStep {
    /// The registry has no component of this kind: skip the module.
    Skip,
    /// The cached archive already hashes to the registry's checksum.
    UseCached,
    /// Download the archive into the cache.
    Download,
    /// A fatal registry failure: abort the whole run.
    Fail,
}

/// The acquisition decision: a missing-kind status skips the module, any
/// other non-success status or an empty checksum is fatal, a cached
/// archive hashing to the checksum is reused, and anything else is
/// downloaded.
pub open spec fn spec_plan_acquire(
    status: u16,
    checksum: Seq<char>,
    cached: Option<Seq<u8>>,
) -> AcquireStep {
    if status == 303 {
        AcquireStep::Skip
    } else if status != 200 {
        AcquireStep::Fail
    } else if checksum.len() == 0 {
        AcquireStep::Fail
    } else if cached is Some && md5_hex(cached->0) == checksum {
        AcquireStep::UseCached
    } else {
        AcquireStep::Download
    }
}

/// Decides one module's acquisition from the checksum query's status and
/// body and from the cached bytes, if a cache entry exists.
pub fn plan_acquire(status: u16, checksum: &String, cached: &Option<Vec<u8>>) -> (r: AcquireStep)
    ensures
        r == spec_plan_acquire(status, checksum@, option_bytes_view(cached)),
{
    if status == 303 {
        AcquireStep::Skip
    } else if status != 200 {
        AcquireStep::Fail
    } else if checksum.as_str().is_empty() {
        AcquireStep::Fail
    } else {
        match cached {
            Some(c) => {
                if checksum_matches(c, checksum) {
                    AcquireStep::UseCached
                } else {
                    AcquireStep::Download
                }
            },
            None => AcquireStep::Download,
        }
    }
}

/// Whether a download response may be written to the cache; any other
/// status is fatal.
pub fn download_ok(status: u16) -> (r: bool)
    ensures
        r == (status == 200),
{
    status == 200
}

/// Law: acquisition is idempotent over a valid cache entry. When the
/// checksum query succeeds and the cached bytes already hash to the
/// registry's checksum, the plan is to reuse the cache: no download is
/// performed.
pub proof fn lemma_valid_cache_reused(checksum: Seq<char>, cached: Seq<u8>)
    requires
        checksum.len() > 0,
        md5_hex(cached) == checksum,
    ensures
        spec_plan_acquire(200, checksum, Some(cached)) == AcquireStep::UseCached,
{
}

} // verus!
