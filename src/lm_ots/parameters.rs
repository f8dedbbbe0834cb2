use crate::util::{coef, coef_of, digit_max, u16_be, u16str, valid_width};
use vstd::arithmetic::power2::{lemma2_to64, pow2};
use vstd::prelude::*;

verus! {

/// The LM-OTS profiles with SHA-256 and n = 32, by Winternitz width.
#[derive(Clone, Copy, Debug, PartialEq, Eq, Structural)]
pub enum LmotsAlgorithmType {
    LmotsSha256N32W1,
    LmotsSha256N32W2,
    LmotsSha256N32W4,
    LmotsSha256N32W8,
}

/// The derived constants of an LM-OTS profile.
#[derive(Clone, Copy, Debug, PartialEq, Eq, Structural)]
pub struct LmotsAlgorithmParameter {
    pub n: u16,
    pub w: u8,
    pub p: u16,
    pub ls: u8,
    pub _type: LmotsAlgorithmType,
}

impl LmotsAlgorithmType {
    /// The 4-byte type code of the profile.
    pub open spec fn spec_code(self) -> u32 {
        match self {
            LmotsAlgorithmType::LmotsSha256N32W1 => 1,
            LmotsAlgorithmType::LmotsSha256N32W2 => 2,
            LmotsAlgorithmType::LmotsSha256N32W4 => 3,
            LmotsAlgorithmType::LmotsSha256N32W8 => 4,
        }
    }

    pub open spec fn spec_from_u32(x: u32) -> Option<Self> {
        if x == 1 {
            Some(LmotsAlgorithmType::LmotsSha256N32W1)
        } else if x == 2 {
            Some(LmotsAlgorithmType::LmotsSha256N32W2)
        } else if x == 3 {
            Some(LmotsAlgorithmType::LmotsSha256N32W4)
        } else if x == 4 {
            Some(LmotsAlgorithmType::LmotsSha256N32W8)
        } else {
            None
        }
    }

    /// The profile's row of the parameter table.
    pub open spec fn spec_parameter(self) -> LmotsAlgorithmParameter {
        match self {
            LmotsAlgorithmType::LmotsSha256N32W1 => LmotsAlgorithmParameter {
                n: 32,
                w: 1,
                p: 265,
                ls: 7,
                _type: self,
            },
            LmotsAlgorithmType::LmotsSha256N32W2 => LmotsAlgorithmParameter {
                n: 32,
                w: 2,
                p: 133,
                ls: 6,
                _type: self,
            },
            LmotsAlgorithmType::LmotsSha256N32W4 => LmotsAlgorithmParameter {
                n: 32,
                w: 4,
                p: 67,
                ls: 4,
                _type: self,
            },
            LmotsAlgorithmType::LmotsSha256N32W8 => LmotsAlgorithmParameter {
                n: 32,
                w: 8,
                p: 34,
                ls: 0,
                _type: self,
            },
        }
    }

    pub fn code(self) -> (r: u32)
        ensures
            r == self.spec_code(),
    {
        match self {
            LmotsAlgorithmType::LmotsSha256N32W1 => 1,
            LmotsAlgorithmType::LmotsSha256N32W2 => 2,
            LmotsAlgorithmType::LmotsSha256N32W4 => 3,
            LmotsAlgorithmType::LmotsSha256N32W8 => 4,
        }
    }

    /// The profile with type code `x`, if there is one.
    pub fn from_u32(x: u32) -> (r: Option<Self>)
        ensures
            r == Self::spec_from_u32(x),
            r matches Some(t) ==> t.spec_code() == x,
            r is Some <==> 1 <= x <= 4,
    {
        if x == 1 {
            Some(LmotsAlgorithmType::LmotsSha256N32W1)
        } else if x == 2 {
            Some(LmotsAlgorithmType::LmotsSha256N32W2)
        } else if x == 3 {
            Some(LmotsAlgorithmType::LmotsSha256N32W4)
        } else if x == 4 {
            Some(LmotsAlgorithmType::LmotsSha256N32W8)
        } else {
            None
        }
    }

    pub fn get_parameter(self) -> (r: LmotsAlgorithmParameter)
        ensures
            r == self.spec_parameter(),
            r.wf(),
    {
        match self {
            LmotsAlgorithmType::LmotsSha256N32W1 => LmotsAlgorithmParameter {
                n: 32,
                w: 1,
                p: 265,
                ls: 7,
                _type: self,
            },
            LmotsAlgorithmType::LmotsSha256N32W2 => LmotsAlgorithmParameter {
                n: 32,
                w: 2,
                p: 133,
                ls: 6,
                _type: self,
            },
            LmotsAlgorithmType::LmotsSha256N32W4 => LmotsAlgorithmParameter {
                n: 32,
                w: 4,
                p: 67,
                ls: 4,
                _type: self,
            },
            LmotsAlgorithmType::LmotsSha256N32W8 => LmotsAlgorithmParameter {
                n: 32,
                w: 8,
                p: 34,
                ls: 0,
                _type: self,
            },
        }
    }
}

/// Sum over the first `k` digits of `q` of `(2^w - 1) - digit`.
pub open spec fn digit_gap_sum(q: Seq<u8>, w: u8, k: int) -> int
    decreases k,
{
    if k <= 0 {
        0
    } else {
        digit_gap_sum(q, w, k - 1) + (digit_max(w) - coef(q, k - 1, w))
    }
}

/// The Winternitz checksum of a message digest `q`.
pub open spec fn checksum(q: Seq<u8>, w: u8, ls: u8) -> u16 {
    (digit_gap_sum(q, w, 8 * (q.len() as int) / (w as int)) * pow2(ls as nat)) as u16
}

/// The digest followed by its big-endian checksum.
pub open spec fn with_checksum(q: Seq<u8>, w: u8, ls: u8) -> Seq<u8> {
    q + u16_be(checksum(q, w, ls))
}

impl LmotsAlgorithmParameter {
    /// The parameter is a row of the table.
    pub open spec fn wf(self) -> bool {
        self == self._type.spec_parameter()
    }

    /// The largest digit, `2^w - 1`.
    pub open spec fn max_digit(self) -> u8 {
        digit_max(self.w)
    }

    /// Length of a serialized LM-OTS signature: type, C and p chain values.
    pub open spec fn signature_len(self) -> int {
        4 + self.n * (self.p + 1)
    }

    pub fn get_appended_with_checksum(&self, q: &[u8]) -> (r: Vec<u8>)
        requires
            self.wf(),
            q@.len() == self.n,
        ensures
            r@ == with_checksum(q@, self.w, self.ls),
            r@.len() == self.n + 2,
    {
        let count: usize = 8 * q.len() / (self.w as usize);
        let ghost m = digit_max(self.w) as int;
        assert(valid_width(self.w));
        assert(count * m <= 8160) by {
            assert(count * m == (256int / (self.w as int)) * m);
        }
        let mut sum: u16 = 0;
        let mut i: usize = 0;
        while i < count
            invariant
                self.wf(),
                q@.len() == self.n,
                count == 8 * (q@.len() as int) / (self.w as int),
                count * m <= 8160,
                m == digit_max(self.w),
                valid_width(self.w),
                0 <= i <= count,
                sum == digit_gap_sum(q@, self.w, i as int),
                sum <= i * m,
            decreases count - i,
        {
            assert(i * self.w / 8 < q@.len()) by (nonlinear_arith)
                requires
                    i < count,
                    count == 8 * (q@.len() as int) / (self.w as int),
                    self.w >= 1,
            ;
            let c = coef_of(q, i, self.w);
            assert((i + 1) * m == i * m + m) by (nonlinear_arith);
            assert((i + 1) * m <= count * m) by (nonlinear_arith)
                requires
                    i < count,
                    m >= 0,
            ;
            sum = sum + (self.max_digit_exec() - c) as u16;
            i = i + 1;
        }
        proof {
            lemma2_to64();
        }
        let factor: u16 = if self.ls == 7 {
            128
        } else if self.ls == 6 {
            64
        } else if self.ls == 4 {
            16
        } else {
            1
        };
        assert(factor == pow2(self.ls as nat));
        assert(count * m * factor <= 32768) by {
            assert(count == 256int / (self.w as int));
            if self.w == 1 {
                assert(count * m == 256);
            } else if self.w == 2 {
                assert(count * m == 384);
            } else if self.w == 4 {
                assert(count * m == 960);
            } else {
                assert(count * m == 8160);
            }
        }
        assert(sum * factor <= count * m * factor) by (nonlinear_arith)
            requires
                sum <= count * m,
                factor >= 0,
        ;
        let cks: u16 = sum * factor;
        let mut r: Vec<u8> = Vec::new();
        crate::util::extend(&mut r, q);
        let c = u16str(cks);
        crate::util::extend(&mut r, c.as_slice());
        r
    }

    pub proof fn lemma_bounds(self)
        requires
            self.wf(),
        ensures
            self.n == 32,
            34 <= self.p <= 265,
            1 <= self.w <= 8,
            self.signature_len() == 4 + 32 * (self.p + 1),
    {
    }

    /// Every chain index reads a digit inside the digest and its checksum.
    pub proof fn lemma_digit_in_range(self, i: int)
        requires
            self.wf(),
            0 <= i < self.p,
        ensures
            0 <= i * self.w / 8 < self.n + 2,
    {
        assert(0 <= i * self.w <= (self.p - 1) * self.w) by (nonlinear_arith)
            requires
                0 <= i < self.p,
                self.w >= 1,
        ;
    }

    pub fn max_digit_exec(&self) -> (r: u8)
        requires
            self.wf(),
        ensures
            r == self.max_digit(),
    {
        if self.w == 1 {
            1
        } else if self.w == 2 {
            3
        } else if self.w == 4 {
            15
        } else {
            255
        }
    }
}

} // verus!
