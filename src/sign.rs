//! Signedness evidence of an input segment.
use vstd::prelude::*;

verus! {

#[derive(Clone, Copy, Debug, PartialEq, Eq, Hash)]
pub enum Sign {
    Signed,
    Unsigned,
    Unknown,
}

impl Default for Sign {
    fn default() -> (r: Self)
        ensures
            r == Sign::Unknown,
    {
        Sign::Unknown
    }
}

impl Sign {
    pub fn from_bool(sign: bool) -> (r: Self)
        ensures
            r == (if sign { Sign::Signed } else { Sign::Unsigned }),
    {
        if sign {
            Sign::Signed
        } else {
            Sign::Unsigned
        }
    }

    /// One letter: `S`, `U` or `X`.
    pub fn to_string(&self) -> (r: String)
        ensures
            r@ == (match *self {
                Sign::Signed => "S"@,
                Sign::Unsigned => "U"@,
                Sign::Unknown => "X"@,
            }),
    {
        match self {
            Sign::Signed => "S".to_owned(),
            Sign::Unsigned => "U".to_owned(),
            Sign::Unknown => "X".to_owned(),
        }
    }
}

/// Weight of one piece of evidence for `target`.
pub open spec fn weight(s: Sign, target: Sign, w: nat) -> nat {
    if s == target {
        w
    } else {
        0
    }
}

/// The probability that a segment is signed, as `(numerator, denominator)`:
/// certain where static and both dynamic readings agree, 19/20 where the
/// dynamic ones agree against the static one, and otherwise the share of
/// signed evidence with the static reading weighing 1 and each dynamic 2.
pub open spec fn sign_prob(st: Sign, dn: Sign, ds: Sign) -> (u32, u32) {
    if st == Sign::Signed && dn == Sign::Signed && ds == Sign::Signed {
        (1, 1)
    } else if st == Sign::Unsigned && dn == Sign::Unsigned && ds == Sign::Unsigned {
        (0, 1)
    } else if st == Sign::Unsigned && dn == Sign::Signed && ds == Sign::Signed {
        (19, 20)
    } else if st == Sign::Signed && dn == Sign::Unsigned && ds == Sign::Unsigned {
        (1, 20)
    } else {
        let s = weight(st, Sign::Signed, 1) + weight(dn, Sign::Signed, 2) + weight(ds, Sign::Signed, 2);
        let u = weight(st, Sign::Unsigned, 1) + weight(dn, Sign::Unsigned, 2) + weight(
            ds,
            Sign::Unsigned,
            2,
        );
        (s as u32, (s + u) as u32)
    }
}

/// The static sign from the taint pass, two dynamic readings (across the
/// unsigned and the signed wrap), and the blended probability of signedness.
#[derive(Clone, Copy, Debug, PartialEq, Eq, Hash)]
pub struct SignInfo {
    pub static_sign: Sign,
    pub dyn_n_sign: Sign,
    pub dyn_s_sign: Sign,
    pub prob_num: u32,
    pub prob_den: u32,
}

impl SignInfo {
    pub open spec fn wf(&self) -> bool {
        &&& self.static_sign != Sign::Unknown
        &&& (self.prob_num, self.prob_den) == sign_prob(
            self.static_sign,
            self.dyn_n_sign,
            self.dyn_s_sign,
        )
    }

    pub fn from_static_sign(sign: bool) -> (r: Self)
        ensures
            r.wf(),
            r.static_sign == Sign::from_bool_spec(sign),
            r.dyn_n_sign == Sign::Unknown,
            r.dyn_s_sign == Sign::Unknown,
    {
        Self::new(Sign::from_bool(sign), Sign::Unknown, Sign::Unknown)
    }

    pub fn update_dyn_sign(&mut self, dyn_n_sign: Sign, dyn_s_sign: Sign)
        requires
            old(self).wf(),
        ensures
            final(self).wf(),
            final(self).static_sign == old(self).static_sign,
            final(self).dyn_n_sign == dyn_n_sign,
            final(self).dyn_s_sign == dyn_s_sign,
    {
        *self = Self::new(self.static_sign, dyn_n_sign, dyn_s_sign);
    }

    pub fn new(static_sign: Sign, dyn_n_sign: Sign, dyn_s_sign: Sign) -> (r: Self)
        requires
            static_sign != Sign::Unknown,
        ensures
            r.wf(),
            r.static_sign == static_sign,
            r.dyn_n_sign == dyn_n_sign,
            r.dyn_s_sign == dyn_s_sign,
    {
        let (num, den): (u32, u32) = match (static_sign, dyn_n_sign, dyn_s_sign) {
            (Sign::Signed, Sign::Signed, Sign::Signed) => (1, 1),
            (Sign::Unsigned, Sign::Unsigned, Sign::Unsigned) => (0, 1),
            (Sign::Unsigned, Sign::Signed, Sign::Signed) => (19, 20),
            (Sign::Signed, Sign::Unsigned, Sign::Unsigned) => (1, 20),
            (st, dn, ds) => {
                let mut signed: u32 = 0;
                let mut unsigned: u32 = 0;
                match st {
                    Sign::Signed => signed = signed + 1,
                    Sign::Unsigned => unsigned = unsigned + 1,
                    Sign::Unknown => {},
                }
                match dn {
                    Sign::Signed => signed = signed + 2,
                    Sign::Unsigned => unsigned = unsigned + 2,
                    Sign::Unknown => {},
                }
                match ds {
                    Sign::Signed => signed = signed + 2,
                    Sign::Unsigned => unsigned = unsigned + 2,
                    Sign::Unknown => {},
                }
                (signed, signed + unsigned)
            },
        };
        SignInfo { static_sign, dyn_n_sign, dyn_s_sign, prob_num: num, prob_den: den }
    }

    /// The sign drawn with the blended probability, given `draw` taken
    /// uniformly below `prob_den`.
    pub fn get_random_sign(&self, draw: u32) -> (r: bool)
        ensures
            r == (draw < self.prob_num),
    {
        draw < self.prob_num
    }

    /// Signed when the blended probability is above one half.
    pub fn get_concensus_sign(&self) -> (r: bool)
        ensures
            r == (2 * (self.prob_num as int) > self.prob_den as int),
    {
        2 * (self.prob_num as u64) > self.prob_den as u64
    }
}

impl Sign {
    pub open spec fn from_bool_spec(sign: bool) -> Sign {
        if sign {
            Sign::Signed
        } else {
            Sign::Unsigned
        }
    }
}

/// The probability is well defined: its denominator is positive and it
/// lies between 0 and 1.
pub proof fn lemma_sign_prob_bounds(st: Sign, dn: Sign, ds: Sign)
    requires
        st != Sign::Unknown,
    ensures
        0 < sign_prob(st, dn, ds).1,
        sign_prob(st, dn, ds).0 <= sign_prob(st, dn, ds).1,
{
}

} // verus!
