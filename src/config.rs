//! Switches, limits and the per-run configuration of the fuzzer.
use vstd::prelude::*;

verus! {

// length
pub const ENABLE_INPUT_LEN_EXPLORATION: bool = true;
pub const ENABLE_RANDOM_LEN: bool = false;
pub const ENABLE_MICRO_RANDOM_LEN: bool = true;
pub const DISABLE_INFER_SHAPE_IF_HAS_AND_OP: bool = true;
pub const PREFER_FAST_COND: bool = true;

/// Largest input the fuzzer produces, in bytes.
pub const MAX_INPUT_LEN: usize = 1048576;
pub const MAP_SIZE_POW2: usize = 20;
/// Number of cells of the branch table.
pub const BRANCHES_SIZE: usize = 1048576;

/// Retries of a run that timed out before the timeout is accepted.
pub const TMOUT_SKIP: usize = 3;
pub const TIME_LIMIT: u64 = 1;
pub const MEM_LIMIT: u64 = 200;
pub const TIME_LIMIT_TRACK: u64 = 20;
pub const MEM_LIMIT_TRACK: u64 = 0;
/// Fuzz time for one condition.
pub const LONG_FUZZ_TIME: usize = 16;
/// Fuzz time in one state.
pub const STATE_FUZZ_TIME: usize = 4;
pub const MAX_INVARIABLE_NUM: usize = 16;
pub const MAX_NUM_MINIMAL_OPTIMA_ALL: usize = 28;
pub const MAX_COND_ORDER: u32 = 16;

pub const ENABLE_DET_MUTATION: bool = true;
/// Evaluations spent on one condition by a search.
pub const MAX_SEARCH_EXEC_NUM: usize = 376;
pub const MAX_EXPLOIT_EXEC_NUM: usize = 66;
pub const MAX_NUM_MINIMAL_OPTIMA_ROUND: usize = 8;
pub const MAX_RANDOM_SAMPLE_NUM: usize = 10;
pub const BONUS_EXEC_NUM: usize = 66;

pub const MUTATE_ARITH_MAX: u32 = 30;
pub const RANDOM_LEN_NUM: usize = 30;
pub const MAX_HAVOC_FLIP_TIMES: usize = 45;
pub const MAX_SPLICE_TIMES: usize = 45;

/// Feature toggles of one fuzzing run, handed to each worker.
#[derive(Debug, Clone, Copy, PartialEq, Eq)]
pub struct FuzzerConfig {
    /// Use AFL-style havoc mutation as a side strategy.
    pub enable_afl: bool,
    /// Solve exploitation conditions.
    pub enable_exploitation: bool,
    /// Infer signedness of input segments dynamically.
    pub enable_dyn_sign: bool,
    /// Draw each segment's sign from its blended probability instead of the consensus.
    pub enable_random_sign: bool,
    /// Infer endianness of input segments dynamically.
    pub enable_dyn_endian: bool,
    /// Read multi-byte segments as big-endian by default.
    pub assume_be: bool,
    /// Use multiple start points.
    pub enable_multi_pt: bool,
    /// Priority above which a condition is retired.
    pub max_priority: u16,
    /// Write the owning seed into the condition dump.
    pub belong: bool,
    /// Write the hit order into the condition dump.
    pub order: bool,
}

impl FuzzerConfig {
    /// The default configuration.
    pub open spec fn default_spec() -> FuzzerConfig {
        FuzzerConfig {
            enable_afl: true,
            enable_exploitation: true,
            enable_dyn_sign: true,
            enable_random_sign: false,
            enable_dyn_endian: true,
            assume_be: false,
            enable_multi_pt: true,
            max_priority: 0xffff,
            belong: false,
            order: true,
        }
    }

    pub fn new() -> (r: Self)
        ensures
            r == Self::default_spec(),
    {
        FuzzerConfig {
            enable_afl: true,
            enable_exploitation: true,
            enable_dyn_sign: true,
            enable_random_sign: false,
            enable_dyn_endian: true,
            assume_be: false,
            enable_multi_pt: true,
            max_priority: 0xffff,
            belong: false,
            order: true,
        }
    }

    pub fn set_enable_afl(&mut self, enable_afl: bool) -> (r: &mut Self)
        ensures
            *r == (FuzzerConfig { enable_afl, ..*old(self) }),
            *final(self) == *final(r),
    {
        self.enable_afl = enable_afl;
        self
    }

    pub fn enable_afl(&self) -> (r: bool)
        ensures
            r == self.enable_afl,
    {
        self.enable_afl
    }

    pub fn set_enable_exploitation(&mut self, enable_exploitation: bool) -> (r: &mut Self)
        ensures
            *r == (FuzzerConfig { enable_exploitation, ..*old(self) }),
            *final(self) == *final(r),
    {
        self.enable_exploitation = enable_exploitation;
        self
    }

    pub fn enable_exploitation(&self) -> (r: bool)
        ensures
            r == self.enable_exploitation,
    {
        self.enable_exploitation
    }

    pub fn set_enable_dyn_sign(&mut self, enable_dyn_sign: bool) -> (r: &mut Self)
        ensures
            *r == (FuzzerConfig { enable_dyn_sign, ..*old(self) }),
            *final(self) == *final(r),
    {
        self.enable_dyn_sign = enable_dyn_sign;
        self
    }

    pub fn enable_dyn_sign(&self) -> (r: bool)
        ensures
            r == self.enable_dyn_sign,
    {
        self.enable_dyn_sign
    }

    pub fn set_enable_random_sign(&mut self, enable_random_sign: bool) -> (r: &mut Self)
        ensures
            *r == (FuzzerConfig { enable_random_sign, ..*old(self) }),
            *final(self) == *final(r),
    {
        self.enable_random_sign = enable_random_sign;
        self
    }

    pub fn enable_random_sign(&self) -> (r: bool)
        ensures
            r == self.enable_random_sign,
    {
        self.enable_random_sign
    }

    pub fn set_enable_dyn_endian(&mut self, enable_dyn_endian: bool) -> (r: &mut Self)
        ensures
            *r == (FuzzerConfig { enable_dyn_endian, ..*old(self) }),
            *final(self) == *final(r),
    {
        self.enable_dyn_endian = enable_dyn_endian;
        self
    }

    pub fn enable_dyn_endian(&self) -> (r: bool)
        ensures
            r == self.enable_dyn_endian,
    {
        self.enable_dyn_endian
    }

    pub fn set_assume_be(&mut self, assume_be: bool) -> (r: &mut Self)
        ensures
            *r == (FuzzerConfig { assume_be, ..*old(self) }),
            *final(self) == *final(r),
    {
        self.assume_be = assume_be;
        self
    }

    pub fn assume_be(&self) -> (r: bool)
        ensures
            r == self.assume_be,
    {
        self.assume_be
    }

    pub fn set_enable_multi_pt(&mut self, enable_multi_pt: bool) -> (r: &mut Self)
        ensures
            *r == (FuzzerConfig { enable_multi_pt, ..*old(self) }),
            *final(self) == *final(r),
    {
        self.enable_multi_pt = enable_multi_pt;
        self
    }

    pub fn enable_multi_pt(&self) -> (r: bool)
        ensures
            r == self.enable_multi_pt,
    {
        self.enable_multi_pt
    }

    pub fn set_max_priority(&mut self, max_priority: u16) -> (r: &mut Self)
        ensures
            *r == (FuzzerConfig { max_priority, ..*old(self) }),
            *final(self) == *final(r),
    {
        self.max_priority = max_priority;
        self
    }

    pub fn max_priority(&self) -> (r: u16)
        ensures
            r == self.max_priority,
    {
        self.max_priority
    }

    pub fn set_belong(&mut self, belong: bool) -> (r: &mut Self)
        ensures
            *r == (FuzzerConfig { belong, ..*old(self) }),
            *final(self) == *final(r),
    {
        self.belong = belong;
        self
    }

    pub fn belong(&self) -> (r: bool)
        ensures
            r == self.belong,
    {
        self.belong
    }

    pub fn set_order(&mut self, order: bool) -> (r: &mut Self)
        ensures
            *r == (FuzzerConfig { order, ..*old(self) }),
            *final(self) == *final(r),
    {
        self.order = order;
        self
    }

    pub fn order(&self) -> (r: bool)
        ensures
            r == self.order,
    {
        self.order
    }

}

impl Default for FuzzerConfig {
    fn default() -> (r: Self)
        ensures
            r == Self::default_spec(),
    {
        Self::new()
    }
}

} // verus!
