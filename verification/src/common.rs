//! Small helpers shared by the node: time, randomness, hashing, splitting.

use rand::distr::{Alphanumeric, SampleString};
use rand::seq::IteratorRandom;
use rand::{rng, RngExt};
use sha2::{Digest, Sha256};
use std::time::{Duration, SystemTimeError, UNIX_EPOCH};
use vstd::prelude::*;
use vstd::utf8::encode_utf8;

verus! {

#[verifier::external_type_specification]
#[verifier::external_body]
pub struct ExSystemTimeError(SystemTimeError);

/// `std::time::UNIX_EPOCH.elapsed()`: how long ago the Unix epoch was by the
/// system clock, or an error when the clock reads earlier than the epoch.
/// Nothing is stated of the value: it is read from the clock.
#[verifier::external_body]
fn unix_epoch_elapsed() -> Result<Duration, SystemTimeError> {
    UNIX_EPOCH.elapsed()
}

/// `Duration::as_secs`: the whole seconds of `d`. Nothing is stated of it,
/// since the durations handled here come from the clock.
#[verifier::external_body]
fn duration_secs(d: &Duration) -> u64 {
    d.as_secs()
}

/// Seconds since the Unix epoch by the system clock; `None` when the clock
/// reads earlier than the epoch.
pub fn unix_epoch() -> (r: Option<u64>) {
    match unix_epoch_elapsed() {
        Ok(d) => Some(duration_secs(&d)),
        Err(_) => None,
    }
}

/// An ASCII letter or digit, the alphabet of `rand::distr::Alphanumeric`.
pub open spec fn is_alnum(c: char) -> bool {
    ||| ('0' <= c && c <= '9')
    ||| ('A' <= c && c <= 'Z')
    ||| ('a' <= c && c <= 'z')
}

/// Whether `s` has `len` characters, each an ASCII letter or digit.
pub open spec fn alnum_of_len(s: Seq<char>, len: nat) -> bool {
    &&& s.len() == len
    &&& forall|i: int| 0 <= i < s.len() ==> is_alnum(#[trigger] s[i])
}

/// `SampleString::sample_string` of `rand::distr::Alphanumeric` with the
/// thread generator: `len` characters, each one of `A-Z`, `a-z`, `0-9`.
/// Which ones is chance.
#[verifier::external_body]
fn random_alphanumeric(len: usize) -> (r: String)
    ensures
        alnum_of_len(r@, len as nat),
{
    Alphanumeric.sample_string(&mut rng(), len)
}

/// `RngExt::random_range(lo..hi)` on the thread generator: some `r` with
/// `lo <= r < hi` (the range must not be empty, or it panics).
#[verifier::external_body]
fn random_index(lo: usize, hi: usize) -> (r: usize)
    requires
        lo < hi,
    ensures
        lo <= r < hi,
{
    rng().random_range(lo..hi)
}

/// `IteratorRandom::choose` over `lo..hi` with the thread generator: an
/// element of the range, or `None` exactly when the range is empty.
#[verifier::external_body]
fn choose_in(lo: u64, hi: u64) -> (r: Option<u64>)
    ensures
        match r {
            Some(v) => lo <= v < hi,
            None => hi <= lo,
        },
{
    (lo..hi).choose(&mut rng())
}

/// SHA-256 of `data`.
pub uninterp spec fn sha256(data: Seq<u8>) -> Seq<u8>;

/// `sha2::Sha256::digest`: the 32-byte SHA-256 digest of `data`.
#[verifier::external_body]
fn sha256_digest(data: &[u8]) -> (r: Vec<u8>)
    ensures
        r@ == sha256(data@),
        r@.len() == 32,
{
    Sha256::digest(data).to_vec()
}

/// The lower-case hexadecimal digit for `v < 16`.
pub open spec fn hex_digit(v: nat) -> char {
    if v < 10 {
        (('0' as nat) + v) as char
    } else {
        (('a' as nat) + v - 10) as char
    }
}

/// Lower-case hexadecimal text of `b`, two digits per byte, high nibble first.
pub open spec fn hex_lower(b: Seq<u8>) -> Seq<char>
    decreases b.len(),
{
    if b.len() == 0 {
        seq![]
    } else {
        hex_lower(b.drop_last()) + seq![hex_digit((b.last() / 16) as nat), hex_digit((b.last() % 16) as nat)]
    }
}

/// `hex::encode`: the lower-case hexadecimal text of `data`.
#[verifier::external_body]
fn hex_encode(data: &[u8]) -> (r: String)
    ensures
        r@ == hex_lower(data@),
{
    hex::encode(data)
}

/// Hex text has two digits per byte, each a lower-case hex digit.
pub proof fn lemma_hex_lower_shape(b: Seq<u8>)
    ensures
        hex_lower(b).len() == 2 * b.len(),
        forall|i: int|
            0 <= i < hex_lower(b).len() ==> ('0' <= #[trigger] hex_lower(b)[i] <= '9' || 'a'
                <= hex_lower(b)[i] <= 'f'),
    decreases b.len(),
{
    if b.len() > 0 {
        let t = b.drop_last();
        lemma_hex_lower_shape(t);
        let x = b.last();
        let hi = (x / 16) as nat;
        let lo = (x % 16) as nat;
        assert(hi < 16 && lo < 16);
        let h = hex_lower(b);
        assert forall|i: int| 0 <= i < h.len() implies ('0' <= #[trigger] h[i] <= '9' || 'a' <= h[i]
            <= 'f') by {
            if i < hex_lower(t).len() {
                assert(h[i] == hex_lower(t)[i]);
            } else if i == hex_lower(t).len() {
                assert(h[i] == hex_digit(hi));
            } else {
                assert(h[i] == hex_digit(lo));
            }
        }
    }
}

/// The hex SHA-256 digest of the UTF-8 bytes of `secret`.
pub open spec fn commitment_of(secret: Seq<char>) -> Seq<char> {
    hex_lower(sha256(encode_utf8(secret)))
}

/// The lower-case hex SHA-256 digest of the UTF-8 bytes of `secret`.
pub fn commitment(secret: &str) -> (r: String)
    ensures
        r@ == commitment_of(secret@),
        r@.len() == 64,
{
    let digest = sha256_digest(secret.as_bytes());
    proof {
        lemma_hex_lower_shape(digest@);
    }
    hex_encode(digest.as_slice())
}

/// A fresh 16-character alphanumeric secret and its hex SHA-256 digest.
pub fn generate_entropy() -> (r: (String, String))
    ensures
        alnum_of_len(r.0@, 16),
        r.1@ == commitment_of(r.0@),
        r.1@.len() == 64,
{
    let secret = random_alphanumeric(16);
    let hash = commitment(secret.as_str());
    (secret, hash)
}

/// A fresh 7-character alphanumeric identifier.
pub fn generate_random() -> (r: String)
    ensures
        alnum_of_len(r@, 7),
{
    random_alphanumeric(7)
}

/// Splits `v` into `v[..idx]` and `v[idx..]`.
pub fn split_at_index(v: Vec<String>, idx: usize) -> (r: (Vec<String>, Vec<String>))
    requires
        idx <= v.len(),
    ensures
        r.0@ == v@.take(idx as int),
        r.1@ == v@.skip(idx as int),
{
    let mut left = v;
    let right = left.split_off(idx);
    (left, right)
}

/// Splits `v` at a random point into two non-empty parts, in order.
pub fn random_split(v: Vec<String>) -> (r: (Vec<String>, Vec<String>))
    requires
        v.len() >= 2,
    ensures
        r.0@.len() >= 1,
        r.1@.len() >= 1,
        r.0@ + r.1@ == v@,
{
    let ghost whole = v@;
    let idx = random_index(1, v.len());
    let r = split_at_index(v, idx);
    proof {
        assert(r.0@ + r.1@ =~= whole);
    }
    r
}

/// Seconds a provider waits before joining an advertised session: 4 or 5.
pub fn join_delay_secs() -> (r: u64)
    ensures
        4 <= r < 6,
{
    match choose_in(4, 6) {
        Some(v) => v,
        None => 4,
    }
}

/// Milliseconds a verifier waits before publishing its score: 200 to 899.
pub fn score_delay_millis() -> (r: u64)
    ensures
        200 <= r < 900,
{
    match choose_in(200, 900) {
        Some(v) => v,
        None => 200,
    }
}

/// The last `n` characters of `s` (all of `s` when it is shorter than `n`).
pub open spec fn last_chars(s: Seq<char>, n: nat) -> Seq<char> {
    if n >= s.len() {
        s
    } else {
        s.skip(s.len() - n)
    }
}

/// Returns the last `n` characters of `s`, counted in Unicode scalar values.
pub fn last_n_chars(s: &str, n: usize) -> (r: String)
    ensures
        r@ == last_chars(s@, n as nat),
{
    let len = s.unicode_len();
    let start = if n >= len { 0 } else { len - n };
    let tail = s.substring_char(start, len);
    proof {
        assert(s@.subrange(0, s@.len() as int) =~= s@);
        assert(n < len ==> s@.subrange(start as int, len as int) =~= s@.skip(s@.len() - n));
    }
    String::from_str(tail)
}

} // verus!
