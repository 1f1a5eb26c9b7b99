//! The strategy a condition is handed to.
use vstd::prelude::*;

verus! {

#[derive(Clone, Copy, Debug, PartialEq, Eq)]
pub enum FuzzType {
    ExploreFuzz,
    ExploitIntFuzz,
    ExploitMemFuzz,
    ExploitRandFuzz,
    CmpFnFuzz,
    LenFuzz,
    AFLFuzz,
    OtherFuzz,
}

/// Number of strategies.
pub const FUZZ_TYPE_NUM: usize = 8;

impl FuzzType {
    pub open spec fn index_spec(self) -> usize {
        match self {
            FuzzType::ExploreFuzz => 0,
            FuzzType::ExploitIntFuzz => 1,
            FuzzType::ExploitMemFuzz => 2,
            FuzzType::ExploitRandFuzz => 3,
            FuzzType::CmpFnFuzz => 4,
            FuzzType::LenFuzz => 5,
            FuzzType::AFLFuzz => 6,
            FuzzType::OtherFuzz => 7,
        }
    }

    /// Position of the strategy in per-strategy tables.
    pub fn index(&self) -> (r: usize)
        ensures
            r == self.index_spec(),
            r < FUZZ_TYPE_NUM,
    {
        match self {
            FuzzType::ExploreFuzz => 0,
            FuzzType::ExploitIntFuzz => 1,
            FuzzType::ExploitMemFuzz => 2,
            FuzzType::ExploitRandFuzz => 3,
            FuzzType::CmpFnFuzz => 4,
            FuzzType::LenFuzz => 5,
            FuzzType::AFLFuzz => 6,
            FuzzType::OtherFuzz => 7,
        }
    }
}

impl Default for FuzzType {
    fn default() -> (r: Self)
        ensures
            r == FuzzType::OtherFuzz,
    {
        FuzzType::OtherFuzz
    }
}

pub open spec fn fuzz_type_name_spec(i: usize) -> Seq<char> {
    if i == 0 {
        "Explore"@
    } else if i == 1 {
        "ExpInt"@
    } else if i == 2 {
        "ExpMem"@
    } else if i == 3 {
        "ExpRand"@
    } else if i == 4 {
        "CmpFn"@
    } else if i == 5 {
        "Len"@
    } else if i == 6 {
        "AFL"@
    } else {
        "Other"@
    }
}

/// Display name of the strategy with index `i`.
pub fn get_fuzz_type_name(i: usize) -> (r: String)
    requires
        i < FUZZ_TYPE_NUM,
    ensures
        r@ == fuzz_type_name_spec(i),
{
    let s: &str = if i == 0 {
        "Explore"
    } else if i == 1 {
        "ExpInt"
    } else if i == 2 {
        "ExpMem"
    } else if i == 3 {
        "ExpRand"
    } else if i == 4 {
        "CmpFn"
    } else if i == 5 {
        "Len"
    } else if i == 6 {
        "AFL"
    } else {
        "Other"
    };
    s.to_owned()
}

} // verus!
