//! Chunk size configuration.

use vstd::prelude::*;

use vstd::string::*;

use crate::text::{decimal, decimal_string};

verus! {

/// Configuration for chunking algorithms: the size distribution of the chunks.
///
/// Content-defined chunkers (FastCDC, Rabin) use these as guidelines,
/// while the fixed chunker uses `target_size` directly.
#[derive(Debug, Clone, Copy, PartialEq, Eq)]
pub struct ChunkingConfig {
    /// Minimum chunk size in bytes.
    pub min_size: usize,
    /// Target/average chunk size in bytes.
    pub target_size: usize,
    /// Maximum chunk size in bytes.
    pub max_size: usize,
}

/// Ordering of the sizes that `ChunkingConfig::new` insists on.
pub open spec fn sizes_ordered(min_size: usize, target_size: usize, max_size: usize) -> bool {
    min_size <= target_size && target_size <= max_size
}

/// Why a configuration is rejected by `validate`, if it is.
pub enum ConfigProblem {
    /// `min_size` is zero.
    ZeroMin,
    /// `min_size` exceeds `target_size`.
    MinAboveTarget,
    /// `target_size` exceeds `max_size`.
    TargetAboveMax,
    /// Nothing is wrong.
    Fine,
}

/// The first problem of a configuration, in the order `validate` checks them.
pub open spec fn config_problem(c: ChunkingConfig) -> ConfigProblem {
    if c.min_size == 0 {
        ConfigProblem::ZeroMin
    } else if c.min_size > c.target_size {
        ConfigProblem::MinAboveTarget
    } else if c.target_size > c.max_size {
        ConfigProblem::TargetAboveMax
    } else {
        ConfigProblem::Fine
    }
}

/// Message of `validate` for a zero minimum.
pub const MSG_MIN_ZERO: &'static str = "min_size must be greater than 0";

/// Message of `validate` for a minimum above the target.
pub open spec fn msg_min_above_target(min_size: usize, target_size: usize) -> Seq<char> {
    "min_size ("@ + decimal(min_size as nat) + ") must be <= target_size ("@ + decimal(target_size as nat) + ")"@
}

/// Message of `validate` for a target above the maximum.
pub open spec fn msg_target_above_max(target_size: usize, max_size: usize) -> Seq<char> {
    "target_size ("@ + decimal(target_size as nat) + ") must be <= max_size ("@ + decimal(max_size as nat) + ")"@
}

/// Renders the message for a minimum above the target.
fn min_above_target_message(min_size: usize, target_size: usize) -> (r: String)
    ensures
        r@ == msg_min_above_target(min_size, target_size),
{
    let r = String::from_str("min_size (").concat(decimal_string(min_size as u64).as_str()).concat(
        ") must be <= target_size (",
    ).concat(decimal_string(target_size as u64).as_str()).concat(")");
    assert(r@ =~= msg_min_above_target(min_size, target_size));
    r
}

/// Renders the message for a target above the maximum.
fn target_above_max_message(target_size: usize, max_size: usize) -> (r: String)
    ensures
        r@ == msg_target_above_max(target_size, max_size),
{
    let r = String::from_str("target_size (").concat(decimal_string(target_size as u64).as_str()).concat(
        ") must be <= max_size (",
    ).concat(decimal_string(max_size as u64).as_str()).concat(")");
    assert(r@ =~= msg_target_above_max(target_size, max_size));
    r
}

/// The larger of two sizes.
pub open spec fn size_max(a: usize, b: usize) -> usize {
    if a >= b { a } else { b }
}

impl ChunkingConfig {
    /// The default configuration: 64 KB, 256 KB, 1 MB.
    pub fn default_config() -> (r: Self)
        ensures
            r.min_size == 65536 && r.target_size == 262144 && r.max_size == 1048576,
    {
        ChunkingConfig { min_size: 64 * 1024, target_size: 256 * 1024, max_size: 1024 * 1024 }
    }

    /// A configuration with the given sizes; they must be ordered (the caller panics otherwise).
    pub fn new(min_size: usize, target_size: usize, max_size: usize) -> (r: Self)
        requires
            sizes_ordered(min_size, target_size, max_size),
        ensures
            r.min_size == min_size && r.target_size == target_size && r.max_size == max_size,
    {
        ChunkingConfig { min_size, target_size, max_size }
    }

    /// Small chunks (good for deduplication testing): 1 KB, 4 KB, 16 KB.
    pub fn small() -> (r: Self)
        ensures
            r.min_size == 1024 && r.target_size == 4096 && r.max_size == 16384,
    {
        ChunkingConfig { min_size: 1024, target_size: 4 * 1024, max_size: 16 * 1024 }
    }

    /// Large chunks (good for large files): 256 KB, 1 MB, 4 MB.
    pub fn large() -> (r: Self)
        ensures
            r.min_size == 262144 && r.target_size == 1048576 && r.max_size == 4194304,
    {
        ChunkingConfig { min_size: 256 * 1024, target_size: 1024 * 1024, max_size: 4 * 1024 * 1024 }
    }

    /// The configuration that `from_env` builds from the values it read (each `None` when the
    /// variable was unset or did not parse): defaults fill the gaps, then the minimum is raised
    /// to at least 1 KB, the target to at least the minimum and the maximum to at least the target.
    pub fn from_values(min_size: Option<usize>, target_size: Option<usize>, max_size: Option<usize>) -> (r: Self)
        ensures
            r.min_size == size_max(
                match min_size { Some(v) => v, None => 65536 },
                1024,
            ),
            r.target_size == size_max(
                match target_size { Some(v) => v, None => 262144 },
                r.min_size,
            ),
            r.max_size == size_max(
                match max_size { Some(v) => v, None => 1048576 },
                r.target_size,
            ),
            sizes_ordered(r.min_size, r.target_size, r.max_size),
    {
        let min_raw: usize = match min_size { Some(v) => v, None => 64 * 1024 };
        let target_raw: usize = match target_size { Some(v) => v, None => 256 * 1024 };
        let max_raw: usize = match max_size { Some(v) => v, None => 1024 * 1024 };
        let min_v: usize = if min_raw >= 1024 { min_raw } else { 1024 };
        let target_v: usize = if target_raw >= min_v { target_raw } else { min_v };
        let max_v: usize = if max_raw >= target_v { max_raw } else { target_v };
        ChunkingConfig { min_size: min_v, target_size: target_v, max_size: max_v }
    }

    /// Checks that the configuration is sensible: a non-zero minimum and ordered sizes.
    pub fn validate(&self) -> (r: Result<(), String>)
        ensures
            match config_problem(*self) {
                ConfigProblem::Fine => r is Ok,
                ConfigProblem::ZeroMin => r matches Err(m) && m@ == MSG_MIN_ZERO@,
                ConfigProblem::MinAboveTarget => r matches Err(m) && m@ == msg_min_above_target(self.min_size, self.target_size),
                ConfigProblem::TargetAboveMax => r matches Err(m) && m@ == msg_target_above_max(self.target_size, self.max_size),
            },
    {
        if self.min_size == 0 {
            return Err(MSG_MIN_ZERO.to_string());
        }
        if self.min_size > self.target_size {
            return Err(min_above_target_message(self.min_size, self.target_size));
        }
        if self.target_size > self.max_size {
            return Err(target_above_max_message(self.target_size, self.max_size));
        }
        Ok(())
    }
}

impl Default for ChunkingConfig {
    fn default() -> (r: Self)
        ensures
            r.min_size == 65536 && r.target_size == 262144 && r.max_size == 1048576,
    {
        Self::default_config()
    }
}

} // verus!
