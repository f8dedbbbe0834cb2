#![allow(non_snake_case)]

pub mod hasher;
pub mod lm_ots;
pub mod lms;
pub mod util;

pub use crate::hasher::Sha256Hasher;
pub use crate::lm_ots::definitions::LmotsPrivateKey;
pub use crate::lm_ots::parameters::{LmotsAlgorithmParameter, LmotsAlgorithmType};
pub use crate::lm_ots::signing::LmotsSignature;
pub use crate::lms::keys::{keygen, keygen_random, keygen_with_seed, LmsPrivateKey, LmsPublicKey};
pub use crate::lms::parameter::{
    LmsAlgorithmType, LmsParameter, LmsSha256M32H10, LmsSha256M32H15, LmsSha256M32H20,
    LmsSha256M32H25, LmsSha256M32H5,
};
pub use crate::lms::signing::{verify, LmsError, LmsSignature};
pub mod hss;

pub use crate::hss::{hss_keygen, hss_keygen_with_seed, hss_verify, HssParameter, HssPrivateKey, HssPublicKey, HssSignature};
