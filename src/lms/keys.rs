use crate::hasher::random_bytes;
use crate::lm_ots::parameters::LmotsAlgorithmType;
use crate::lms::definitions::{compute_root_and_path, tree_root};
use crate::lms::parameter::LmsAlgorithmType;
use crate::util::{be_u32, extend, extend_range, read_u32, u32_be, u32str};
use vstd::prelude::*;

verus! {

/// An LMS public key: the two profiles, the tree identifier `I` and the root `T[1]`.
pub struct LmsPublicKey {
    pub lms_type: LmsAlgorithmType,
    pub lmots_type: LmotsAlgorithmType,
    pub I: Vec<u8>,
    pub root: Vec<u8>,
}

/// An LMS private key: the two profiles, `I`, the seed and the next unused leaf `q`.
pub struct LmsPrivateKey {
    pub lms_type: LmsAlgorithmType,
    pub lmots_type: LmotsAlgorithmType,
    pub I: Vec<u8>,
    pub seed: Vec<u8>,
    pub q: u32,
}

/// `data` has the shape of a serialized public key.
pub open spec fn is_public_key_encoding(data: Seq<u8>) -> bool {
    &&& data.len() == 56
    &&& LmsAlgorithmType::spec_from_u32(be_u32(data.subrange(0, 4))) is Some
    &&& LmotsAlgorithmType::spec_from_u32(be_u32(data.subrange(4, 8))) is Some
}

/// `data` has the shape of a serialized private key.
pub open spec fn is_private_key_encoding(data: Seq<u8>) -> bool {
    &&& data.len() == 60
    &&& LmsAlgorithmType::spec_from_u32(be_u32(data.subrange(0, 4))) matches Some(t)
    &&& LmotsAlgorithmType::spec_from_u32(be_u32(data.subrange(4, 8))) is Some
    &&& be_u32(data.subrange(8, 12)) <= t.spec_leaves()
}

proof fn lemma_code_bytes(b: Seq<u8>, off: int, x: u32)
    requires
        0 <= off,
        off + 4 <= b.len(),
        b.subrange(off, off + 4) == u32_be(x),
    ensures
        be_u32(b.subrange(off, off + 4)) == x,
{
    crate::util::lemma_be_u32_of_u32_be(x);
}

impl LmsPublicKey {
    pub open spec fn wf(&self) -> bool {
        self.I@.len() == 16 && self.root@.len() == 32
    }

    /// `u32(lms_type) ‖ u32(lmots_type) ‖ I ‖ T[1]`.
    pub open spec fn spec_bytes(&self) -> Seq<u8> {
        u32_be(self.lms_type.spec_code()) + u32_be(self.lmots_type.spec_code()) + self.I@
            + self.root@
    }

    /// A copy of the key.
    pub fn duplicate(&self) -> (r: Self)
        ensures
            r.lms_type == self.lms_type,
            r.lmots_type == self.lmots_type,
            r.I@ == self.I@,
            r.root@ == self.root@,
    {
        let mut I: Vec<u8> = Vec::new();
        extend(&mut I, self.I.as_slice());
        let mut root: Vec<u8> = Vec::new();
        extend(&mut root, self.root.as_slice());
        LmsPublicKey { lms_type: self.lms_type, lmots_type: self.lmots_type, I, root }
    }

    pub fn to_binary_representation(&self) -> (r: Vec<u8>)
        ensures
            r@ == self.spec_bytes(),
    {
        let mut r = u32str(self.lms_type.code());
        let t = u32str(self.lmots_type.code());
        extend(&mut r, t.as_slice());
        extend(&mut r, self.I.as_slice());
        extend(&mut r, self.root.as_slice());
        r
    }

    /// Parses a serialized public key; `None` on a wrong length or an unknown type code.
    pub fn from_binary_representation(data: &[u8]) -> (r: Option<Self>)
        ensures
            r is Some <==> is_public_key_encoding(data@),
            r matches Some(k) ==> k.wf() && k.spec_bytes() == data@,
    {
        if data.len() != 56 {
            return None;
        }
        let lms_type = match LmsAlgorithmType::from_u32(read_u32(data, 0)) {
            None => return None,
            Some(t) => t,
        };
        let lmots_type = match LmotsAlgorithmType::from_u32(read_u32(data, 4)) {
            None => return None,
            Some(t) => t,
        };
        let mut I: Vec<u8> = Vec::new();
        extend_range(&mut I, data, 8, 24);
        let mut root: Vec<u8> = Vec::new();
        extend_range(&mut root, data, 24, 56);
        let k = LmsPublicKey { lms_type, lmots_type, I, root };
        proof {
            crate::util::lemma_u32_be_of_be_u32(data@.subrange(0, 4));
            crate::util::lemma_u32_be_of_be_u32(data@.subrange(4, 8));
            assert(k.spec_bytes() =~= data@);
        }
        Some(k)
    }
}

/// Serialization round trip of a public key: its bytes parse, and any
/// well-formed key with the same bytes has the same fields.
pub proof fn lemma_public_key_round_trip(k: LmsPublicKey, t: LmsPublicKey)
    requires
        k.wf(),
        t.wf(),
        t.spec_bytes() == k.spec_bytes(),
    ensures
        is_public_key_encoding(k.spec_bytes()),
        t.lms_type == k.lms_type,
        t.lmots_type == k.lmots_type,
        t.I@ == k.I@,
        t.root@ == k.root@,
{
    let b = k.spec_bytes();
    assert(b.subrange(0, 4) =~= u32_be(k.lms_type.spec_code()));
    assert(b.subrange(4, 8) =~= u32_be(k.lmots_type.spec_code()));
    assert(t.spec_bytes().subrange(0, 4) =~= u32_be(t.lms_type.spec_code()));
    assert(t.spec_bytes().subrange(4, 8) =~= u32_be(t.lmots_type.spec_code()));
    lemma_code_bytes(b, 0, k.lms_type.spec_code());
    lemma_code_bytes(b, 4, k.lmots_type.spec_code());
    lemma_code_bytes(b, 0, t.lms_type.spec_code());
    lemma_code_bytes(b, 4, t.lmots_type.spec_code());
    assert(b.subrange(8, 24) =~= k.I@);
    assert(t.spec_bytes().subrange(8, 24) =~= t.I@);
    assert(b.subrange(24, 56) =~= k.root@);
    assert(t.spec_bytes().subrange(24, 56) =~= t.root@);
}

/// Serialization round trip of a private key: any well-formed key with the
/// same bytes holds the same values.
pub proof fn lemma_private_key_round_trip(k: LmsPrivateKey, t: LmsPrivateKey)
    requires
        k.wf(),
        t.wf(),
        t.spec_bytes() == k.spec_bytes(),
    ensures
        k.spec_bytes().len() == 60,
        t.lms_type == k.lms_type,
        t.lmots_type == k.lmots_type,
        t.q == k.q,
        t.I@ == k.I@,
        t.seed@ == k.seed@,
{
    let b = k.spec_bytes();
    let tb = t.spec_bytes();
    assert(b.subrange(0, 4) =~= u32_be(k.lms_type.spec_code()));
    assert(b.subrange(4, 8) =~= u32_be(k.lmots_type.spec_code()));
    assert(b.subrange(8, 12) =~= u32_be(k.q));
    assert(tb.subrange(0, 4) =~= u32_be(t.lms_type.spec_code()));
    assert(tb.subrange(4, 8) =~= u32_be(t.lmots_type.spec_code()));
    assert(tb.subrange(8, 12) =~= u32_be(t.q));
    lemma_code_bytes(b, 0, k.lms_type.spec_code());
    lemma_code_bytes(b, 4, k.lmots_type.spec_code());
    lemma_code_bytes(b, 8, k.q);
    lemma_code_bytes(b, 0, t.lms_type.spec_code());
    lemma_code_bytes(b, 4, t.lmots_type.spec_code());
    lemma_code_bytes(b, 8, t.q);
    assert(b.subrange(12, 28) =~= k.I@);
    assert(tb.subrange(12, 28) =~= t.I@);
    assert(b.subrange(28, 60) =~= k.seed@);
    assert(tb.subrange(28, 60) =~= t.seed@);
}

impl LmsPrivateKey {
    pub open spec fn wf(&self) -> bool {
        &&& self.I@.len() == 16
        &&& self.seed@.len() == 32
        &&& self.q <= self.lms_type.spec_leaves()
    }

    /// A copy of the key.
    pub fn duplicate(&self) -> (r: Self)
        ensures
            r.lms_type == self.lms_type,
            r.lmots_type == self.lmots_type,
            r.I@ == self.I@,
            r.seed@ == self.seed@,
            r.q == self.q,
    {
        let mut I: Vec<u8> = Vec::new();
        extend(&mut I, self.I.as_slice());
        let mut seed: Vec<u8> = Vec::new();
        extend(&mut seed, self.seed.as_slice());
        LmsPrivateKey { lms_type: self.lms_type, lmots_type: self.lmots_type, I, seed, q: self.q }
    }

    /// `u32(lms_type) ‖ u32(lmots_type) ‖ u32(q) ‖ I ‖ seed`.
    pub open spec fn spec_bytes(&self) -> Seq<u8> {
        u32_be(self.lms_type.spec_code()) + u32_be(self.lmots_type.spec_code()) + u32_be(self.q)
            + self.I@ + self.seed@
    }

    /// The public key of the tree.
    pub open spec fn spec_public_key_root(&self) -> Seq<u8> {
        tree_root(
            self.lms_type.spec_height() as nat,
            self.lmots_type.spec_parameter(),
            self.I@,
            self.seed@,
        )
    }

    pub fn to_binary_representation(&self) -> (r: Vec<u8>)
        ensures
            r@ == self.spec_bytes(),
    {
        let mut r = u32str(self.lms_type.code());
        let t = u32str(self.lmots_type.code());
        extend(&mut r, t.as_slice());
        let qb = u32str(self.q);
        extend(&mut r, qb.as_slice());
        extend(&mut r, self.I.as_slice());
        extend(&mut r, self.seed.as_slice());
        r
    }

    /// Parses a serialized private key; `None` on a wrong length, an unknown
    /// type code or a leaf index past the end of the tree.
    pub fn from_binary_representation(data: &[u8]) -> (r: Option<Self>)
        ensures
            r is Some <==> is_private_key_encoding(data@),
            r matches Some(k) ==> k.wf() && k.spec_bytes() == data@,
    {
        if data.len() != 60 {
            return None;
        }
        let lms_type = match LmsAlgorithmType::from_u32(read_u32(data, 0)) {
            None => return None,
            Some(t) => t,
        };
        let lmots_type = match LmotsAlgorithmType::from_u32(read_u32(data, 4)) {
            None => return None,
            Some(t) => t,
        };
        let q = read_u32(data, 8);
        if q > lms_type.number_of_lm_ots_keys() {
            return None;
        }
        let mut I: Vec<u8> = Vec::new();
        extend_range(&mut I, data, 12, 28);
        let mut seed: Vec<u8> = Vec::new();
        extend_range(&mut seed, data, 28, 60);
        let k = LmsPrivateKey { lms_type, lmots_type, I, seed, q };
        proof {
            crate::util::lemma_u32_be_of_be_u32(data@.subrange(0, 4));
            crate::util::lemma_u32_be_of_be_u32(data@.subrange(4, 8));
            crate::util::lemma_u32_be_of_be_u32(data@.subrange(8, 12));
            assert(k.spec_bytes() =~= data@);
        }
        Some(k)
    }
}

/// Generates the key pair of the tree given by its profiles, identifier and seed.
pub fn keygen(
    lms_type: LmsAlgorithmType,
    lmots_type: LmotsAlgorithmType,
    I: &[u8],
    seed: &[u8],
) -> (r: (LmsPrivateKey, LmsPublicKey))
    requires
        I@.len() == 16,
        seed@.len() == 32,
    ensures
        r.0.wf(),
        r.0.lms_type == lms_type,
        r.0.lmots_type == lmots_type,
        r.0.I@ == I@,
        r.0.seed@ == seed@,
        r.0.q == 0,
        r.1.wf(),
        r.1.lms_type == lms_type,
        r.1.lmots_type == lmots_type,
        r.1.I@ == I@,
        r.1.root@ == r.0.spec_public_key_root(),
{
    let lm = lmots_type.get_parameter();
    let h = lms_type.height();
    proof {
        vstd::arithmetic::power2::lemma_pow2_pos(h as nat);
    }
    let (root, _path) = compute_root_and_path(h, lm, I, seed, 0);
    let mut iv: Vec<u8> = Vec::new();
    extend(&mut iv, I);
    let mut sv: Vec<u8> = Vec::new();
    extend(&mut sv, seed);
    let mut iv2: Vec<u8> = Vec::new();
    extend(&mut iv2, I);
    let private_key = LmsPrivateKey { lms_type, lmots_type, I: iv, seed: sv, q: 0 };
    let public_key = LmsPublicKey { lms_type, lmots_type, I: iv2, root };
    (private_key, public_key)
}

/// Generates a key pair from `seed` under a fresh random identifier `I`.
pub fn keygen_with_seed(lms_type: LmsAlgorithmType, lmots_type: LmotsAlgorithmType, seed: &[u8]) -> (r: (
    LmsPrivateKey,
    LmsPublicKey,
))
    requires
        seed@.len() == 32,
    ensures
        r.0.wf(),
        r.0.lms_type == lms_type,
        r.0.lmots_type == lmots_type,
        r.0.seed@ == seed@,
        r.0.q == 0,
        r.1.wf(),
        r.1.lms_type == lms_type,
        r.1.lmots_type == lmots_type,
        r.1.I@ == r.0.I@,
        r.1.root@ == r.0.spec_public_key_root(),
{
    let I = random_bytes(16);
    keygen(lms_type, lmots_type, I.as_slice(), seed)
}

/// Generates a key pair from a fresh random seed and identifier.
pub fn keygen_random(lms_type: LmsAlgorithmType, lmots_type: LmotsAlgorithmType) -> (r: (
    LmsPrivateKey,
    LmsPublicKey,
))
    ensures
        r.0.wf(),
        r.0.lms_type == lms_type,
        r.0.lmots_type == lmots_type,
        r.0.q == 0,
        r.1.wf(),
        r.1.lms_type == lms_type,
        r.1.lmots_type == lmots_type,
        r.1.I@ == r.0.I@,
        r.1.root@ == r.0.spec_public_key_root(),
{
    let seed = random_bytes(32);
    keygen_with_seed(lms_type, lmots_type, seed.as_slice())
}

} // verus!
