//! Choosing a compressor from a quick trial compression.
use crate::deflate::libdeflater::{libdeflate_stream, libdeflater_deflate};
use crate::deflate::zopfli::{ZopfliConfig, zopfli_deflate, zopfli_stream_for};
use crate::deflate::{zlib_stream, zlib_wrap, DeflateError};
use vstd::prelude::*;

verus! {

/// Zopfli settings from fastest to slowest.
pub open spec fn fastest_zopfli() -> ZopfliConfig {
    ZopfliConfig { iteration_count: 5, iterations_without_improvement: 5, maximum_block_splits: 15 }
}

pub open spec fn fast_zopfli() -> ZopfliConfig {
    ZopfliConfig { iteration_count: 10, iterations_without_improvement: 10, maximum_block_splits: 15 }
}

pub open spec fn normal_zopfli() -> ZopfliConfig {
    ZopfliConfig { iteration_count: 15, iterations_without_improvement: 15, maximum_block_splits: 15 }
}

pub open spec fn slow_zopfli() -> ZopfliConfig {
    ZopfliConfig { iteration_count: 25, iterations_without_improvement: 25, maximum_block_splits: 20 }
}

pub open spec fn slowest_zopfli() -> ZopfliConfig {
    ZopfliConfig { iteration_count: 40, iterations_without_improvement: 40, maximum_block_splits: 25 }
}

pub fn fastest_zopfli_options() -> (r: ZopfliConfig)
    ensures
        r == fastest_zopfli(),
{
    ZopfliConfig { iteration_count: 5, iterations_without_improvement: 5, maximum_block_splits: 15 }
}

pub fn fast_zopfli_options() -> (r: ZopfliConfig)
    ensures
        r == fast_zopfli(),
{
    ZopfliConfig { iteration_count: 10, iterations_without_improvement: 10, maximum_block_splits: 15 }
}

pub fn normal_zopfli_options() -> (r: ZopfliConfig)
    ensures
        r == normal_zopfli(),
{
    ZopfliConfig { iteration_count: 15, iterations_without_improvement: 15, maximum_block_splits: 15 }
}

pub fn slow_zopfli_options() -> (r: ZopfliConfig)
    ensures
        r == slow_zopfli(),
{
    ZopfliConfig { iteration_count: 25, iterations_without_improvement: 25, maximum_block_splits: 20 }
}

pub fn slowest_zopfli_options() -> (r: ZopfliConfig)
    ensures
        r == slowest_zopfli(),
{
    ZopfliConfig { iteration_count: 40, iterations_without_improvement: 40, maximum_block_splits: 25 }
}

/// What to do with data after the trial compression.
#[derive(Debug, Clone, Copy, PartialEq, Eq, Structural)]
pub enum PreCheckResult {
    /// Skip compression entirely.
    Skip,
    /// Use Zopfli with the given options.
    CompressWithZopfli(ZopfliConfig),
    /// Use libdeflate at level 12.
    LibDeflater,
}

/// How much effort goes into compression.
#[derive(Debug, Clone, Copy, PartialEq, Eq, Structural)]
pub enum Level {
    Normal,
    Best,
}

impl Level {
    /// Both levels pre-process the data with libdeflate level 9; they differ
    /// in the Zopfli settings chosen afterwards.
    pub open spec fn trial_level(self) -> u8 {
        9
    }

    /// The libdeflate level of the trial compression.
    pub fn analysis_level(self) -> (r: u8)
        ensures
            r == self.trial_level(),
    {
        9
    }

    /// The decision for a trial that saved `saved` of `original_size` bytes:
    /// under 1% saved, skip; under 8%, libdeflate level 12 (`Normal`) or fast
    /// Zopfli (`Best`); otherwise Zopfli, slower for smaller inputs and for
    /// `Best`.
    pub open spec fn precheck(self, saved: int, original_size: int) -> PreCheckResult {
        if saved * 100 < original_size {
            PreCheckResult::Skip
        } else if saved * 25 < original_size * 2 {
            match self {
                Level::Normal => PreCheckResult::LibDeflater,
                Level::Best => PreCheckResult::CompressWithZopfli(fast_zopfli()),
            }
        } else if original_size <= 51_200 {
            PreCheckResult::CompressWithZopfli(
                match self {
                    Level::Normal => normal_zopfli(),
                    Level::Best => slowest_zopfli(),
                },
            )
        } else if original_size <= 512_000 {
            PreCheckResult::CompressWithZopfli(
                match self {
                    Level::Normal => fast_zopfli(),
                    Level::Best => slow_zopfli(),
                },
            )
        } else {
            PreCheckResult::CompressWithZopfli(
                match self {
                    Level::Normal => fastest_zopfli(),
                    Level::Best => normal_zopfli(),
                },
            )
        }
    }

    /// The decision for a trial that saved `saved` of `original_size` bytes
    /// (the fraction saved is compared exactly, in integers).
    pub fn get_precheck_result(&self, saved: usize, original_size: usize) -> (r: PreCheckResult)
        ensures
            r == self.precheck(saved as int, original_size as int),
    {
        if (saved as u128) * 100 < original_size as u128 {
            return PreCheckResult::Skip;
        }
        if (saved as u128) * 25 < (original_size as u128) * 2 {
            return match self {
                Level::Normal => PreCheckResult::LibDeflater,
                Level::Best => PreCheckResult::CompressWithZopfli(fast_zopfli_options()),
            };
        }
        PreCheckResult::CompressWithZopfli(
            if original_size <= 51_200 {
                match self {
                    Level::Normal => normal_zopfli_options(),
                    Level::Best => slowest_zopfli_options(),
                }
            } else if original_size <= 512_000 {
                match self {
                    Level::Normal => fast_zopfli_options(),
                    Level::Best => slow_zopfli_options(),
                }
            } else {
                match self {
                    Level::Normal => fastest_zopfli_options(),
                    Level::Best => normal_zopfli_options(),
                }
            },
        )
    }
}

/// The bytes a trial compression of `input` at `level` saved (zero when it
/// grew).
pub open spec fn trial_saving(input: Seq<u8>, level: Level) -> int {
    let trial = libdeflate_stream(input, level.trial_level());
    if trial.len() <= input.len() {
        input.len() - trial.len()
    } else {
        0
    }
}

/// The DEFLATE data `dynamic_deflate` produces for non-empty `input`.
pub open spec fn dynamic_stream(input: Seq<u8>, level: Level, compress_anyway: bool) -> Seq<u8> {
    let trial = libdeflate_stream(input, level.trial_level());
    match level.precheck(trial_saving(input, level), input.len() as int) {
        PreCheckResult::Skip => if compress_anyway {
            trial
        } else {
            Seq::empty()
        },
        PreCheckResult::CompressWithZopfli(options) => zopfli_stream_for(input, options),
        PreCheckResult::LibDeflater => libdeflate_stream(input, 12),
    }
}

/// Trial compression with libdeflate at `level`: the data and the bytes saved.
fn analyze(input: &[u8], level: u8) -> (r: Result<(Vec<u8>, usize), DeflateError>)
    requires
        level <= 12,
    ensures
        r is Err <==> input.len() == 0,
        r matches Ok((data, saved)) ==> data@ == libdeflate_stream(input@, level) && saved == (
        if data@.len() <= input@.len() {
            input@.len() - data@.len()
        } else {
            0
        }),
{
    let original_size = input.len();
    if original_size == 0 {
        return Err(DeflateError::CompressionFailed);
    }
    let fast = libdeflater_deflate(input, level)?;
    let saved = original_size.saturating_sub(fast.len());
    Ok((fast, saved))
}

/// `input` compressed as DEFLATE data by the compressor that a trial
/// compression recommends. When the trial saves under 1%, the trial data is
/// returned if `compress_anyway`, else nothing (meaning: store uncompressed).
/// Empty input fails; any other input succeeds.
pub fn dynamic_deflate(input: &[u8], level: Level, compress_anyway: bool) -> (r: Result<Vec<u8>, DeflateError>)
    ensures
        r is Err <==> input.len() == 0,
        r matches Ok(v) ==> v@ == dynamic_stream(input@, level, compress_anyway),
{
    let (fast, saved) = analyze(input, level.analysis_level())?;
    match level.get_precheck_result(saved, input.len()) {
        PreCheckResult::Skip => {
            if compress_anyway {
                Ok(fast)
            } else {
                Ok(Vec::new())
            }
        },
        PreCheckResult::CompressWithZopfli(options) => zopfli_deflate(input, options),
        PreCheckResult::LibDeflater => libdeflater_deflate(input, 12),
    }
}

/// `dynamic_deflate(input, level, true)` as a zlib stream; the checksum is
/// zeroed when `checksum` is false.
pub fn dynamic_zlib(input: &[u8], level: Level, checksum: bool) -> (r: Result<Vec<u8>, DeflateError>)
    ensures
        r is Err <==> input.len() == 0,
        r matches Ok(v) ==> v@ == zlib_stream(input@, dynamic_stream(input@, level, true), checksum),
{
    let compressed = dynamic_deflate(input, level, true)?;
    Ok(zlib_wrap(input, compressed, checksum))
}

/// The number of Zopfli iterations a decision asks for (none when Zopfli is
/// not used).
pub open spec fn zopfli_iterations(r: PreCheckResult) -> int {
    match r {
        PreCheckResult::CompressWithZopfli(o) => o.iteration_count as int,
        _ => 0,
    }
}

/// How the trial decides, as OPTIONS.md describes it: a trial that saves
/// under 1% of the input skips compression at either level; from 1% up to
/// 8% `Normal` uses libdeflate level 12 while `Best` uses Zopfli; from 8% on
/// both use Zopfli. `Best` never works less than `Normal` on the same trial,
/// and neither works less on a smaller input. Every Zopfli setting chosen is
/// one Zopfli accepts.
pub proof fn trial_decisions(level: Level, saved: int, size: int, smaller: int)
    requires
        0 <= saved,
        0 <= smaller <= size,
    ensures
        level.precheck(saved, size) is Skip <==> 100 * saved < size,
        (level.precheck(saved, size) is LibDeflater) <==> (level == Level::Normal && size <= 100 * saved && 25
            * saved < 2 * size),
        2 * size <= 25 * saved ==> level.precheck(saved, size) is CompressWithZopfli,
        zopfli_iterations(Level::Normal.precheck(saved, size)) <= zopfli_iterations(
            Level::Best.precheck(saved, size),
        ),
        2 * size <= 25 * saved && 2 * smaller <= 25 * saved ==> zopfli_iterations(level.precheck(saved, size))
            <= zopfli_iterations(level.precheck(saved, smaller)),
        level.precheck(saved, size) matches PreCheckResult::CompressWithZopfli(o) ==> o.valid(),
        level.trial_level() == 9,
{
}

} // verus!
