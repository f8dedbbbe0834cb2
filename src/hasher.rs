use rand::RngCore;
use sha2::Digest;
use vstd::prelude::*;

verus! {

/// The SHA-256 digest of a byte string.
pub uninterp spec fn sha256_of(data: Seq<u8>) -> Seq<u8>;

/// Relies on sha2::Sha256::digest: the SHA-256 digest of `data`, which is 32 bytes long.
#[verifier::external_body]
fn sha256(data: &Vec<u8>) -> (r: Vec<u8>)
    ensures
        r@ == sha256_of(data@),
        r@.len() == 32,
{
    sha2::Sha256::digest(data.as_slice()).to_vec()
}

/// Relies on rand::thread_rng and RngCore::fill_bytes: `n` bytes drawn at random.
#[verifier::external_body]
pub(crate) fn random_bytes(n: usize) -> (r: Vec<u8>)
    ensures
        r@.len() == n,
{
    let mut r = vec![0u8; n];
    rand::thread_rng().fill_bytes(&mut r);
    r
}

/// A SHA-256 hashing context with the update / finalize interface; the
/// bytes fed so far are its model.
pub struct Sha256Hasher {
    data: Vec<u8>,
}

impl View for Sha256Hasher {
    type V = Seq<u8>;

    closed spec fn view(&self) -> Seq<u8> {
        self.data@
    }
}

impl Sha256Hasher {
    pub fn new() -> (r: Self)
        ensures
            r@ == Seq::<u8>::empty(),
    {
        Sha256Hasher { data: Vec::new() }
    }

    pub fn update(&mut self, bytes: &[u8])
        ensures
            final(self)@ == old(self)@ + bytes@,
    {
        let mut i: usize = 0;
        while i < bytes.len()
            invariant
                0 <= i <= bytes@.len(),
                self@ == old(self)@ + bytes@.subrange(0, i as int),
            decreases bytes@.len() - i,
        {
            self.data.push(bytes[i]);
            i = i + 1;
            assert(bytes@.subrange(0, i as int) == bytes@.subrange(0, i - 1) + seq![bytes@[i - 1]]);
        }
        assert(bytes@.subrange(0, bytes@.len() as int) == bytes@);
    }

    /// The digest of everything fed since the context was created.
    pub fn finalize(self) -> (r: Vec<u8>)
        ensures
            r@ == sha256_of(self@),
            r@.len() == 32,
    {
        sha256(&self.data)
    }

    /// The digest of everything fed so far; the context starts over empty.
    pub fn finalize_reset(&mut self) -> (r: Vec<u8>)
        ensures
            r@ == sha256_of(old(self)@),
            r@.len() == 32,
            final(self)@ == Seq::<u8>::empty(),
    {
        let r = sha256(&self.data);
        self.data = Vec::new();
        r
    }
}

} // verus!
