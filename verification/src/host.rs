//! Host-binding layer: adapts the mediated operations to the import surface a
//! sandboxed execution engine expects. Each binding takes primitive arguments,
//! forwards them to the corresponding context operation and converts an error
//! into the flat failure string that traps an import call. It also supplies
//! the two capabilities with no context equivalent: a wall-clock read and a
//! random-byte generator. The layer owns no state and performs no business
//! logic of its own.

use vstd::prelude::*;
use rand::RngCore;
use rand::SeedableRng;
use crate::context::Context;
use crate::context::CoreError;
use crate::context::FsHost;
use crate::context::LogHost;
use crate::context::NetHost;
use crate::context::entry_views;
use crate::context::error_message_spec;
use crate::context::fetch_json;
use crate::context::list_dir;
use crate::context::read_text;
use crate::context::strictly_sorted;
use crate::context::write_text;
use crate::path::sanitize_spec;

verus! {

/// Binds the directory-listing import: a rejected path traps with the
/// invalid-path description, a provider fault traps with its wrapped detail,
/// and a success is the sorted, duplicate-free listing.
pub fn host_list_dir<'a, F: FsHost, N: NetHost, L: LogHost>(
    ctx: &Context<'a, F, N, L>,
    path: String,
) -> (r: Result<Vec<String>, String>)
    ensures
        sanitize_spec(path@) is None <==> (r matches Err(m) && m@ == error_message_spec(
            CoreError::InvalidPath,
        )),
        r matches Ok(v) ==> strictly_sorted(entry_views(v@)) && sanitize_spec(path@) is Some,
        r matches Err(m) ==> (sanitize_spec(path@) is Some ==> exists|d: Seq<char>|
            m@ == #[trigger] ("fs error: "@ + d)),
{
    proof {
        reveal_strlit("fs error: ");
        reveal_strlit("invalid or unsafe path");
    }
    match list_dir(ctx, path.as_str()) {
        Ok(entries) => Ok(entries),
        Err(e) => {
            proof {
                crate::context::lemma_error_messages_distinct(e);
            }
            Err(e.message())
        },
    }
}

/// Binds the text-read import.
pub fn host_read_text<'a, F: FsHost, N: NetHost, L: LogHost>(
    ctx: &Context<'a, F, N, L>,
    path: String,
) -> (r: Result<String, String>)
    ensures
        sanitize_spec(path@) is None <==> (r matches Err(m) && m@ == error_message_spec(
            CoreError::InvalidPath,
        )),
        r is Ok ==> sanitize_spec(path@) is Some,
        r matches Err(m) ==> (sanitize_spec(path@) is Some ==> exists|d: Seq<char>|
            m@ == #[trigger] ("fs error: "@ + d)),
{
    proof {
        reveal_strlit("fs error: ");
        reveal_strlit("invalid or unsafe path");
    }
    match read_text(ctx, path.as_str()) {
        Ok(text) => Ok(text),
        Err(e) => {
            proof {
                crate::context::lemma_error_messages_distinct(e);
            }
            Err(e.message())
        },
    }
}

/// Binds the text-write import.
pub fn host_write_text<'a, F: FsHost, N: NetHost, L: LogHost>(
    ctx: &Context<'a, F, N, L>,
    path: String,
    content: String,
) -> (r: Result<(), String>)
    ensures
        sanitize_spec(path@) is None <==> (r matches Err(m) && m@ == error_message_spec(
            CoreError::InvalidPath,
        )),
        r is Ok ==> sanitize_spec(path@) is Some,
        r matches Err(m) ==> (sanitize_spec(path@) is Some ==> exists|d: Seq<char>|
            m@ == #[trigger] ("fs error: "@ + d)),
{
    proof {
        reveal_strlit("fs error: ");
        reveal_strlit("invalid or unsafe path");
    }
    match write_text(ctx, path.as_str(), content.as_str()) {
        Ok(_) => Ok(()),
        Err(e) => {
            proof {
                crate::context::lemma_error_messages_distinct(e);
            }
            Err(e.message())
        },
    }
}

/// Binds the network-fetch import: any failure is a provider fault wrapped
/// with its detail.
pub fn host_get_text<'a, F: FsHost, N: NetHost, L: LogHost>(
    ctx: &Context<'a, F, N, L>,
    url: String,
) -> (r: Result<String, String>)
    ensures
        r matches Err(m) ==> exists|d: Seq<char>| m@ == #[trigger] ("net error: "@ + d),
{
    match fetch_json(ctx, url.as_str()) {
        Ok(body) => Ok(body),
        Err(e) => {
            proof {
                crate::context::lemma_error_messages_distinct(e);
            }
            Err(e.message())
        },
    }
}

/// Binds the logging import: fire-and-forget event recording.
pub fn host_event<'a, F: FsHost, N: NetHost, L: LogHost>(
    ctx: &Context<'a, F, N, L>,
    message: String,
) {
    ctx.log.event(message.as_str());
}

/// Relies on std::time::SystemTime::now and duration_since: the host clock
/// read as whole seconds since the Unix epoch, zero when the clock reads
/// before the epoch. Nothing further can be promised of a wall clock.
#[verifier::external_body]
fn system_now_unix_seconds() -> u64 {
    match std::time::SystemTime::now().duration_since(std::time::UNIX_EPOCH) {
        Ok(d) => d.as_secs(),
        Err(_) => 0,
    }
}

/// Binds the clock import: seconds since the Unix epoch.
pub fn host_now_unix_seconds() -> u64 {
    system_now_unix_seconds()
}

/// Relies on rand::rngs::StdRng::from_entropy and rand::RngCore::fill_bytes:
/// fills a fresh buffer of `len` bytes from an OS-seeded generator and fills
/// it completely. The contents depend on entropy, so only the length can be
/// stated; the call aborts only if the OS entropy source fails.
#[verifier::external_body]
fn entropy_fill(len: u32) -> (r: Vec<u8>)
    ensures
        r@.len() == len as nat,
{
    let mut rng = rand::rngs::StdRng::from_entropy();
    let mut buf = vec![0u8; len as usize];
    rng.fill_bytes(&mut buf);
    buf
}

/// Binds the random-bytes import: `len` bytes of host randomness.
pub fn host_fill(len: u32) -> (r: Vec<u8>)
    ensures
        r@.len() == len as nat,
{
    entropy_fill(len)
}

/// How the random-bytes import is backed. The embedding chooses explicitly
/// between the OS entropy source (production) and a deterministic seeded
/// generator (reproducible test runs); nothing defaults silently.
pub enum RandomnessSource {
    OsEntropy,
    Seeded(u64),
}

/// The bytes the deterministic generator draws for a seed and a length: a
/// function of the two arguments alone.
pub uninterp spec fn seeded_fill_of(seed: u64, len: u32) -> Seq<u8>;

/// Relies on rand::SeedableRng::seed_from_u64 and rand::RngCore::fill_bytes
/// for rand's standard generator: seed_from_u64 is a fixed, value-stable
/// expansion of the seed and the generator it builds is deterministic, so for
/// this generator the draw is a function of the seed and length alone; the
/// fresh `len`-byte buffer is filled completely.
#[verifier::external_body]
fn seeded_fill(seed: u64, len: u32) -> (r: Vec<u8>)
    ensures
        r@ == seeded_fill_of(seed, len),
        r@.len() == len as nat,
{
    let mut rng = rand::rngs::StdRng::seed_from_u64(seed);
    let mut buf = vec![0u8; len as usize];
    rng.fill_bytes(&mut buf);
    buf
}

/// Binds the random-bytes import to the configured source: `len` bytes, and
/// under the seeded configuration a draw that depends on the configured seed
/// and the length alone, so test runs reproduce.
pub fn host_fill_from(source: &RandomnessSource, len: u32) -> (r: Vec<u8>)
    ensures
        r@.len() == len as nat,
        *source matches RandomnessSource::Seeded(seed) ==> r@ == seeded_fill_of(seed, len),
{
    match source {
        RandomnessSource::OsEntropy => entropy_fill(len),
        RandomnessSource::Seeded(seed) => seeded_fill(*seed, len),
    }
}

} // verus!
