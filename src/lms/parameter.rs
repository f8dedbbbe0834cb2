use vstd::arithmetic::power2::{lemma2_to64, pow2};
use vstd::prelude::*;

verus! {

/// The LMS tree profiles with SHA-256 and m = 32, by height.
#[derive(Clone, Copy, Debug, PartialEq, Eq, Structural)]
pub enum LmsAlgorithmType {
    LmsSha256M32H5,
    LmsSha256M32H10,
    LmsSha256M32H15,
    LmsSha256M32H20,
    LmsSha256M32H25,
}

impl LmsAlgorithmType {
    pub open spec fn spec_code(self) -> u32 {
        match self {
            LmsAlgorithmType::LmsSha256M32H5 => 5,
            LmsAlgorithmType::LmsSha256M32H10 => 6,
            LmsAlgorithmType::LmsSha256M32H15 => 7,
            LmsAlgorithmType::LmsSha256M32H20 => 8,
            LmsAlgorithmType::LmsSha256M32H25 => 9,
        }
    }

    /// Tree height `H`.
    pub open spec fn spec_height(self) -> u8 {
        match self {
            LmsAlgorithmType::LmsSha256M32H5 => 5,
            LmsAlgorithmType::LmsSha256M32H10 => 10,
            LmsAlgorithmType::LmsSha256M32H15 => 15,
            LmsAlgorithmType::LmsSha256M32H20 => 20,
            LmsAlgorithmType::LmsSha256M32H25 => 25,
        }
    }

    /// Number of one-time keys in the tree, `2^H`.
    pub open spec fn spec_leaves(self) -> nat {
        pow2(self.spec_height() as nat)
    }

    pub open spec fn spec_from_u32(x: u32) -> Option<Self> {
        if x == 5 {
            Some(LmsAlgorithmType::LmsSha256M32H5)
        } else if x == 6 {
            Some(LmsAlgorithmType::LmsSha256M32H10)
        } else if x == 7 {
            Some(LmsAlgorithmType::LmsSha256M32H15)
        } else if x == 8 {
            Some(LmsAlgorithmType::LmsSha256M32H20)
        } else if x == 9 {
            Some(LmsAlgorithmType::LmsSha256M32H25)
        } else {
            None
        }
    }

    pub fn code(self) -> (r: u32)
        ensures
            r == self.spec_code(),
    {
        match self {
            LmsAlgorithmType::LmsSha256M32H5 => 5,
            LmsAlgorithmType::LmsSha256M32H10 => 6,
            LmsAlgorithmType::LmsSha256M32H15 => 7,
            LmsAlgorithmType::LmsSha256M32H20 => 8,
            LmsAlgorithmType::LmsSha256M32H25 => 9,
        }
    }

    pub fn height(self) -> (r: u8)
        ensures
            r == self.spec_height(),
            5 <= r <= 25,
    {
        match self {
            LmsAlgorithmType::LmsSha256M32H5 => 5,
            LmsAlgorithmType::LmsSha256M32H10 => 10,
            LmsAlgorithmType::LmsSha256M32H15 => 15,
            LmsAlgorithmType::LmsSha256M32H20 => 20,
            LmsAlgorithmType::LmsSha256M32H25 => 25,
        }
    }

    /// The profile with type code `x`, if there is one.
    pub fn from_u32(x: u32) -> (r: Option<Self>)
        ensures
            r == Self::spec_from_u32(x),
            r matches Some(t) ==> t.spec_code() == x,
            r is Some <==> 5 <= x <= 9,
    {
        if x == 5 {
            Some(LmsAlgorithmType::LmsSha256M32H5)
        } else if x == 6 {
            Some(LmsAlgorithmType::LmsSha256M32H10)
        } else if x == 7 {
            Some(LmsAlgorithmType::LmsSha256M32H15)
        } else if x == 8 {
            Some(LmsAlgorithmType::LmsSha256M32H20)
        } else if x == 9 {
            Some(LmsAlgorithmType::LmsSha256M32H25)
        } else {
            None
        }
    }

    pub fn number_of_lm_ots_keys(self) -> (r: u32)
        ensures
            r == self.spec_leaves(),
    {
        proof {
            lemma2_to64();
        }
        match self {
            LmsAlgorithmType::LmsSha256M32H5 => 32,
            LmsAlgorithmType::LmsSha256M32H10 => 1024,
            LmsAlgorithmType::LmsSha256M32H15 => 32768,
            LmsAlgorithmType::LmsSha256M32H20 => 1048576,
            LmsAlgorithmType::LmsSha256M32H25 => 33554432,
        }
    }
}

/// A tree profile as a type.
pub trait LmsParameter {
    spec fn spec_algorithm() -> LmsAlgorithmType;

    fn algorithm() -> (r: LmsAlgorithmType)
        ensures
            r == Self::spec_algorithm(),
    ;

    fn is_type_correct(_type: u32) -> (r: bool)
        ensures
            r == (_type == Self::spec_algorithm().spec_code()),
    {
        Self::algorithm().code() == _type
    }

    fn number_of_lm_ots_keys() -> (r: u32)
        ensures
            r == Self::spec_algorithm().spec_leaves(),
    {
        Self::algorithm().number_of_lm_ots_keys()
    }
}

pub struct LmsSha256M32H5;

pub struct LmsSha256M32H10;

pub struct LmsSha256M32H15;

pub struct LmsSha256M32H20;

pub struct LmsSha256M32H25;

impl LmsParameter for LmsSha256M32H5 {
    open spec fn spec_algorithm() -> LmsAlgorithmType {
        LmsAlgorithmType::LmsSha256M32H5
    }

    fn algorithm() -> (r: LmsAlgorithmType) {
        LmsAlgorithmType::LmsSha256M32H5
    }
}

impl LmsParameter for LmsSha256M32H10 {
    open spec fn spec_algorithm() -> LmsAlgorithmType {
        LmsAlgorithmType::LmsSha256M32H10
    }

    fn algorithm() -> (r: LmsAlgorithmType) {
        LmsAlgorithmType::LmsSha256M32H10
    }
}

impl LmsParameter for LmsSha256M32H15 {
    open spec fn spec_algorithm() -> LmsAlgorithmType {
        LmsAlgorithmType::LmsSha256M32H15
    }

    fn algorithm() -> (r: LmsAlgorithmType) {
        LmsAlgorithmType::LmsSha256M32H15
    }
}

impl LmsParameter for LmsSha256M32H20 {
    open spec fn spec_algorithm() -> LmsAlgorithmType {
        LmsAlgorithmType::LmsSha256M32H20
    }

    fn algorithm() -> (r: LmsAlgorithmType) {
        LmsAlgorithmType::LmsSha256M32H20
    }
}

impl LmsParameter for LmsSha256M32H25 {
    open spec fn spec_algorithm() -> LmsAlgorithmType {
        LmsAlgorithmType::LmsSha256M32H25
    }

    fn algorithm() -> (r: LmsAlgorithmType) {
        LmsAlgorithmType::LmsSha256M32H25
    }
}

} // verus!
