//! An internet-radio style broadcaster library: Ogg page parsing and framing,
//! Opus tag reading, and a single-producer multi-consumer playback engine
//! with a sliding headstart buffer and granule-position accounting.
use vstd::prelude::*;

pub mod comments;
pub mod framer;
pub mod json;
pub mod outside;
pub mod pages;
pub mod player;

verus! {

/// Samples per second of the engine's timeline.
pub const SAMPLE_RATE: u32 = 48_000;

/// Interleaved channels in all PCM handled by the engine.
pub const CHANNELS: usize = 2;

/// The deliberate lead-ahead of production over the wall clock, and the
/// span of audio retained for late joiners, in milliseconds.
pub const BUFFER_SIZE_MS: usize = 3000;

/// Milliseconds on the timeline corresponding to `granule` decoded samples
/// per channel, rounded down.
pub open spec fn granule_to_ms(granule: u64) -> u64 {
    ((granule * 1000) / 48_000) as u64
}

/// Granule positions map to non-decreasing millisecond timestamps.
pub proof fn lemma_granule_to_ms_monotonic(g1: u64, g2: u64)
    requires
        g1 <= g2,
    ensures
        granule_to_ms(g1) <= granule_to_ms(g2),
{
    vstd::arithmetic::mul::lemma_mul_inequality(g1 as int, g2 as int, 1000);
    vstd::arithmetic::div_mod::lemma_div_is_ordered(
        (g1 * 1000) as int,
        (g2 * 1000) as int,
        48_000,
    );
}

pub proof fn lemma_granule_to_ms_fits(g: u64)
    ensures
        (g * 1000) / 48_000 <= g,
{
    vstd::arithmetic::mul::lemma_mul_inequality(1000, 48_000, g as int);
    vstd::arithmetic::div_mod::lemma_div_is_ordered((g * 1000) as int, (g * 48_000) as int, 48_000);
    vstd::arithmetic::div_mod::lemma_div_by_multiple(g as int, 48_000);
}

/// `granule_to_ms`, computed without overflow.
pub fn granule_ms(g: u64) -> (r: u64)
    ensures
        r == granule_to_ms(g),
{
    proof {
        lemma_granule_to_ms_fits(g);
    }
    ((g as u128) * 1000 / 48_000) as u64
}

/// What a listener is hearing, in milliseconds: the produced timeline less
/// the engine's deliberate `BUFFER_SIZE_MS` lead, and never negative.
pub open spec fn spec_current_ms(granule: u64) -> u64 {
    if granule_to_ms(granule) >= BUFFER_SIZE_MS {
        (granule_to_ms(granule) - BUFFER_SIZE_MS) as u64
    } else {
        0
    }
}

/// What a listener hears only moves forward as the timeline grows.
pub proof fn lemma_current_ms_monotonic(g1: u64, g2: u64)
    requires
        g1 <= g2,
    ensures
        spec_current_ms(g1) <= spec_current_ms(g2),
{
    lemma_granule_to_ms_monotonic(g1, g2);
}

} // verus!
