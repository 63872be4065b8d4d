//! The splitmix64 finalizer, and a seed taken from the system clock.

use vstd::prelude::*;
use std::time::{Duration, SystemTime, SystemTimeError};

verus! {

/// The splitmix64 finalizer on a `u64`.
pub open spec fn spec_splitmix64(s: u64) -> u64 {
    let a = (s ^ (s >> 30u64)).wrapping_mul(0xBF58476D1CE4E5B9u64);
    let b = (a ^ (a >> 27u64)).wrapping_mul(0x94D049BB133111EBu64);
    b ^ (b >> 31u64)
}

/// splitmix64 finalizer: mixes a `u64` seed into a well-spread hash.
pub fn splitmix64(s: u64) -> (h: u64)
    ensures
        h == spec_splitmix64(s),
{
    let s = (s ^ (s >> 30)).wrapping_mul(0xBF58476D1CE4E5B9);
    let s = (s ^ (s >> 27)).wrapping_mul(0x94D049BB133111EB);
    s ^ (s >> 31)
}

/// Undoes `y = x ^ (x >> k)` for a shift `k` of at least 22: the shifts
/// `k`, `2k` and `3k` cover all 64 bits.
spec fn unshift(y: u64, k: u64) -> u64 {
    y ^ (y >> k) ^ (y >> (2 * k) as u64)
}

/// Multiplying by `c` (odd) and then by `c_inv` gives back `x` when
/// `c * c_inv == 1 + k * 2^64`.
proof fn lemma_mul_undo(x: u64, c: u64, c_inv: u64, k: int)
    requires
        c * c_inv == 1 + k * 0x1_0000_0000_0000_0000,
        k >= 0,
    ensures
        x.wrapping_mul(c).wrapping_mul(c_inv) == x,
{
    let m: int = 0x1_0000_0000_0000_0000;
    let xc = (x as int * c as int) % m;
    vstd::arithmetic::div_mod::lemma_mul_mod_noop_left(x as int * c as int, c_inv as int, m);
    assert(x as int * c as int * c_inv as int == m * (x as int * k) + x as int) by (nonlinear_arith)
        requires
            c * c_inv == 1 + k * m,
    ;
    vstd::arithmetic::div_mod::lemma_mod_multiples_vanish(x as int * k, x as int, m);
    vstd::arithmetic::div_mod::lemma_small_mod(x as nat, m as nat);
}

/// splitmix64 sends 0 to 0 and different seeds to different values: each of
/// its steps can be undone.
pub proof fn lemma_splitmix64_injective(a: u64, b: u64)
    ensures
        spec_splitmix64(0) == 0,
        spec_splitmix64(a) == spec_splitmix64(b) ==> a == b,
{
    assert(0u64 ^ (0u64 >> 30u64) == 0u64) by (bit_vector);
    lemma_splitmix64_undo(a);
    lemma_splitmix64_undo(b);
    assert(0u64.wrapping_mul(0xBF58476D1CE4E5B9u64) == 0u64);
    assert(0u64.wrapping_mul(0x94D049BB133111EBu64) == 0u64);
    assert(0u64 ^ (0u64 >> 27u64) == 0u64) by (bit_vector);
    assert(0u64 ^ (0u64 >> 31u64) == 0u64) by (bit_vector);
}

/// The inverse of splitmix64, step by step.
proof fn lemma_splitmix64_undo(x: u64)
    ensures
        unshift(
            unshift(unshift(spec_splitmix64(x), 31).wrapping_mul(0x319642b2d24d8ec3u64), 27).wrapping_mul(
                0x96de1b173f119089u64,
            ),
            30,
        ) == x,
{
    let a = x ^ (x >> 30u64);
    let b = a.wrapping_mul(0xBF58476D1CE4E5B9u64);
    let c = b ^ (b >> 27u64);
    let d = c.wrapping_mul(0x94D049BB133111EBu64);
    let e = d ^ (d >> 31u64);
    assert(e == spec_splitmix64(x));
    assert(unshift(e, 31) == d) by {
        assert((d ^ (d >> 31u64)) ^ ((d ^ (d >> 31u64)) >> 31u64) ^ ((d ^ (d >> 31u64)) >> 62u64) == d)
            by (bit_vector);
    }
    lemma_mul_undo(c, 0x94D049BB133111EBu64, 0x319642b2d24d8ec3u64, 2077064247507883091);
    assert(unshift(c, 27) == b) by {
        assert((b ^ (b >> 27u64)) ^ ((b ^ (b >> 27u64)) >> 27u64) ^ ((b ^ (b >> 27u64)) >> 54u64) == b)
            by (bit_vector);
    }
    lemma_mul_undo(a, 0xBF58476D1CE4E5B9u64, 0x96de1b173f119089u64, 8125545580553827436);
    assert(unshift(a, 30) == x) by {
        assert((x ^ (x >> 30u64)) ^ ((x ^ (x >> 30u64)) >> 30u64) ^ ((x ^ (x >> 30u64)) >> 60u64) == x)
            by (bit_vector);
    }
}

#[verifier::external_type_specification]
#[verifier::external_body]
pub struct ExSystemTime(SystemTime);

#[verifier::external_type_specification]
#[verifier::external_body]
pub struct ExSystemTimeError(SystemTimeError);

/// `SystemTime::now`: reads the system clock.  Nothing is stated of the
/// result, which depends on the time.
#[verifier::external_body]
fn system_time_now() -> SystemTime {
    SystemTime::now()
}

/// `SystemTime::duration_since` with `UNIX_EPOCH`: the time elapsed since the
/// Unix epoch, or an error when the clock reads an earlier time.  Nothing is
/// stated of it: it depends on the clock.
#[verifier::external_body]
fn elapsed_since_unix_epoch(t: &SystemTime) -> Result<Duration, SystemTimeError> {
    t.duration_since(std::time::UNIX_EPOCH)
}

/// `Duration::as_nanos`: the whole nanoseconds of a duration.  Nothing is
/// stated of it: a `Duration` is opaque here.
#[verifier::external_body]
fn duration_as_nanos(d: &Duration) -> u128 {
    d.as_nanos()
}

/// A seed from the current time: splitmix64 of the nanoseconds since the Unix
/// epoch (the low 64 bits).  A clock that reads a time before the epoch counts
/// as 0 nanoseconds.
pub fn time_seed() -> (seed: u64)
    ensures
        exists|t: u64| seed == spec_splitmix64(t),
{
    let now = system_time_now();
    let nanos: u64 = match elapsed_since_unix_epoch(&now) {
        Ok(d) => {
            let n: u128 = duration_as_nanos(&d);
            n as u64
        },
        Err(_) => 0,
    };
    let seed = splitmix64(nanos);
    assert(seed == spec_splitmix64(nanos));
    seed
}

} // verus!
