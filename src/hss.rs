use crate::lm_ots::parameters::LmotsAlgorithmType;
use crate::hasher::{sha256_of, Sha256Hasher};
use crate::lms::keys::{keygen, keygen_random, LmsPrivateKey, LmsPublicKey};
use crate::lms::parameter::LmsAlgorithmType;
use crate::lms::signing::{
    lemma_accepts_by_views, lemma_lms_signature_layout, lemma_lms_signature_round_trip,
    lemma_sign_then_verify, stands_at, LmsError, LmsSignature,
};
use crate::lms::keys::{lemma_private_key_round_trip, lemma_public_key_round_trip};
use crate::lm_ots::signing::{block, lemma_concat_blocks};
use crate::lm_ots::definitions::concat;
use crate::lms::keys::is_public_key_encoding;
use crate::util::{be_u32, extend, extend_range, read_u32, u32_be, u32str};
use vstd::prelude::*;

verus! {

/// The key pair of one level: the public key is the one that `keygen` gave
/// with the private key.
pub open spec fn level_ok(sk: LmsPrivateKey, pk: LmsPublicKey) -> bool {
    &&& sk.wf()
    &&& pk.wf()
    &&& pk.lms_type == sk.lms_type
    &&& pk.lmots_type == sk.lmots_type
    &&& pk.I@ == sk.I@
    &&& pk.root@ == sk.spec_public_key_root()
}

/// A multi-level private key: one LMS key pair per level, and for each level
/// but the bottom, the signature of the next level's public key.
pub struct HssPrivateKey {
    pub levels: Vec<LmsPrivateKey>,
    pub public_keys: Vec<LmsPublicKey>,
    pub signatures: Vec<LmsSignature>,
}

/// A multi-level public key: the number of levels and the top level's LMS public key.
pub struct HssPublicKey {
    pub levels: u32,
    pub public_key: LmsPublicKey,
}

/// A multi-level signature: the signed public keys of the levels below the
/// top, and the bottom level's signature of the message.
pub struct HssSignature {
    pub signed_public_keys: Vec<LmsSignature>,
    pub public_keys: Vec<LmsPublicKey>,
    pub signature: LmsSignature,
}

/// The profiles of one level.
#[derive(Clone, Copy, Debug, PartialEq, Eq, Structural)]
pub struct HssParameter {
    pub lmots: LmotsAlgorithmType,
    pub lms: LmsAlgorithmType,
}

impl HssParameter {
    pub fn new(lmots: LmotsAlgorithmType, lms: LmsAlgorithmType) -> (r: Self)
        ensures
            r.lmots == lmots,
            r.lms == lms,
    {
        HssParameter { lmots, lms }
    }
}

/// A persistence hook for the keys that signing inside the hierarchy
/// consumes; the hierarchy persists its own state.
fn accept_blob(_b: &[u8]) -> (r: bool)
    ensures
        r,
{
    true
}

/// Signs the public key `child` with `parent`, which has a leaf left.
fn sign_child(parent: &mut LmsPrivateKey, parent_pk: &LmsPublicKey, child: &LmsPublicKey) -> (r:
    LmsSignature)
    requires
        level_ok(*old(parent), *parent_pk),
        old(parent).q < old(parent).lms_type.spec_leaves(),
    ensures
        level_ok(*final(parent), *parent_pk),
        final(parent).q == old(parent).q + 1,
        final(parent).seed@ == old(parent).seed@,
        final(parent).I@ == old(parent).I@,
        r.wf(),
        r.accepts(child.spec_bytes(), *parent_pk),
{
    let bytes = child.to_binary_representation();
    let res = parent.sign(bytes.as_slice(), accept_blob);
    if let Err(e) = res {
        assert(e == LmsError::KeyExhausted || e == LmsError::PersistenceFailed);
        assert(res == Err::<LmsSignature, LmsError>(e));
    }
    match res {
        Ok(sig) => {
            proof {
                lemma_sign_then_verify(
                    *old(parent),
                    *parent_pk,
                    sig,
                    bytes@,
                    sig.lmots_signature.C@,
                );
            }
            sig
        },
        Err(_) => vstd::pervasive::unreached(),
    }
}

/// Seed of level `i` of a key generated from `seed`.
pub open spec fn level_seed(seed: Seq<u8>, i: u8) -> Seq<u8> {
    sha256_of(seed + seq![i, 0x5eu8])
}

/// Identifier `I` of level `i` of a key generated from `seed`.
pub open spec fn level_id(seed: Seq<u8>, i: u8) -> Seq<u8> {
    sha256_of(seed + seq![i, 0x1du8]).subrange(0, 16)
}

/// The key pair of level `i`: derived from `seed` where there is one, else random.
fn level_keys(p: HssParameter, seed: Option<&[u8]>, i: u8) -> (r: (LmsPrivateKey, LmsPublicKey))
    ensures
        level_ok(r.0, r.1),
        r.0.q == 0,
        r.0.lms_type == p.lms,
        r.0.lmots_type == p.lmots,
        seed matches Some(sd) ==> r.0.seed@ == level_seed(sd@, i) && r.0.I@ == level_id(sd@, i),
{
    match seed {
        None => keygen_random(p.lms, p.lmots),
        Some(sd) => {
            let mut h = Sha256Hasher::new();
            h.update(sd);
            let t1: Vec<u8> = vec![i, 0x5eu8];
            h.update(t1.as_slice());
            let level_sd = h.finalize();
            let mut h = Sha256Hasher::new();
            h.update(sd);
            let t2: Vec<u8> = vec![i, 0x1du8];
            h.update(t2.as_slice());
            let id_full = h.finalize();
            let mut id: Vec<u8> = Vec::new();
            extend_range(&mut id, id_full.as_slice(), 0, 16);
            proof {
                assert(t1@ =~= seq![i, 0x5eu8]);
                assert(t2@ =~= seq![i, 0x1du8]);
            }
            keygen(p.lms, p.lmots, id.as_slice(), level_sd.as_slice())
        },
    }
}

/// Generates the levels, top first, each signing the public key of the next.
fn keygen_levels(parameters: &[HssParameter], seed: Option<&[u8]>) -> (r: Option<HssPrivateKey>)
    ensures
        r is Some <==> 1 <= parameters@.len() <= 8,
        r matches Some(k) ==> k.wf() && k.levels@.len() == parameters@.len() && forall|i: int|
            0 <= i < parameters@.len() ==> (#[trigger] k.levels@[i]).lms_type == parameters@[i].lms
                && k.levels@[i].lmots_type == parameters@[i].lmots,
        r matches Some(k) ==> (seed matches Some(sd) ==> forall|i: int|
            0 <= i < k.levels@.len() ==> (#[trigger] k.levels@[i]).seed@ == level_seed(sd@, i as u8)
                && k.levels@[i].I@ == level_id(sd@, i as u8)),
{
    let n = parameters.len();
    if n < 1 || n > 8 {
        return None;
    }
    let mut levels: Vec<LmsPrivateKey> = Vec::new();
    let mut public_keys: Vec<LmsPublicKey> = Vec::new();
    let mut signatures: Vec<LmsSignature> = Vec::new();
    let (mut prev, pk0) = level_keys(parameters[0], seed, 0);
    public_keys.push(pk0);
    proof {
        vstd::arithmetic::power2::lemma_pow2_pos(prev.lms_type.spec_height() as nat);
    }
    let mut i: usize = 1;
    while i < n
        invariant
            1 <= i <= n <= 8,
            n == parameters@.len(),
            levels@.len() == i - 1,
            public_keys@.len() == i,
            signatures@.len() == i - 1,
            prev.q == 0,
            prev.lms_type.spec_leaves() > 0,
            level_ok(prev, public_keys@[i - 1]),
            prev.lms_type == parameters@[i - 1].lms,
            prev.lmots_type == parameters@[i - 1].lmots,
            seed matches Some(sd) ==> prev.seed@ == level_seed(sd@, (i - 1) as u8) && prev.I@
                == level_id(sd@, (i - 1) as u8),
            seed matches Some(sd) ==> forall|k: int|
                0 <= k < i - 1 ==> (#[trigger] levels@[k]).seed@ == level_seed(sd@, k as u8)
                    && levels@[k].I@ == level_id(sd@, k as u8),
            forall|k: int| 0 <= k < i - 1 ==> level_ok(#[trigger] levels@[k], public_keys@[k]),
            forall|k: int|
                0 <= k < i - 1 ==> (#[trigger] levels@[k]).lms_type == parameters@[k].lms
                    && levels@[k].lmots_type == parameters@[k].lmots,
            forall|k: int|
                0 <= k < i - 1 ==> (#[trigger] signatures@[k]).wf() && signatures@[k].accepts(
                    public_keys@[k + 1].spec_bytes(),
                    public_keys@[k],
                ),
        decreases n - i,
    {
        let (sk, pk) = level_keys(parameters[i], seed, i as u8);
        let sig = sign_child(&mut prev, &public_keys[i - 1], &pk);
        levels.push(prev);
        signatures.push(sig);
        public_keys.push(pk);
        prev = sk;
        proof {
            vstd::arithmetic::power2::lemma_pow2_pos(prev.lms_type.spec_height() as nat);
        }
        i = i + 1;
    }
    levels.push(prev);
    Some(HssPrivateKey { levels, public_keys, signatures })
}

/// Generates a key with one level per parameter, top first, from fresh
/// random seeds and identifiers; `None` unless there are one to eight levels.
pub fn hss_keygen(parameters: &[HssParameter]) -> (r: Option<HssPrivateKey>)
    ensures
        r is Some <==> 1 <= parameters@.len() <= 8,
        r matches Some(k) ==> k.wf() && k.levels@.len() == parameters@.len() && forall|i: int|
            0 <= i < parameters@.len() ==> (#[trigger] k.levels@[i]).lms_type == parameters@[i].lms
                && k.levels@[i].lmots_type == parameters@[i].lmots,
{
    keygen_levels(parameters, None)
}

/// Generates a key with one level per parameter, top first, whose level seeds
/// and identifiers are derived from `seed`; `None` unless there are one to
/// eight levels.
pub fn hss_keygen_with_seed(parameters: &[HssParameter], seed: &[u8]) -> (r: Option<HssPrivateKey>)
    ensures
        r is Some <==> 1 <= parameters@.len() <= 8,
        r matches Some(k) ==> k.wf() && k.levels@.len() == parameters@.len() && forall|i: int|
            0 <= i < parameters@.len() ==> (#[trigger] k.levels@[i]).lms_type == parameters@[i].lms
                && k.levels@[i].lmots_type == parameters@[i].lmots && k.levels@[i].seed@
                == level_seed(seed@, i as u8) && k.levels@[i].I@ == level_id(seed@, i as u8),
{
    keygen_levels(parameters, Some(seed))
}

impl HssPrivateKey {
    /// The public key: the number of levels and the top level's key.
    pub fn public_key(&self) -> (r: HssPublicKey)
        requires
            self.wf(),
        ensures
            r.levels == self.levels@.len(),
            r.public_key.wf(),
            r.public_key.lms_type == self.public_keys@[0].lms_type,
            r.public_key.lmots_type == self.public_keys@[0].lmots_type,
            r.public_key.I@ == self.public_keys@[0].I@,
            r.public_key.root@ == self.public_keys@[0].root@,
    {
        assert(level_ok(self.levels@[0], self.public_keys@[0]));
        HssPublicKey { levels: self.levels.len() as u32, public_key: self.public_keys[0].duplicate() }
    }

    /// Signs `message` with the bottom level. Where the bottom level has used
    /// all of its leaves, the deepest level with a leaf left signs a fresh
    /// key for the level below it, and so on down to the bottom; the levels
    /// above keep their keys. The advanced state is handed to `persist` before
    /// anything changes, and nothing changes or is released unless it reports
    /// success.
    #[verifier::rlimit(100)]
    #[verifier::spinoff_prover]
    pub fn sign<F: Fn(&[u8]) -> bool>(&mut self, message: &[u8], persist: F) -> (r: Result<
        HssSignature,
        LmsError,
    >)
        requires
            old(self).wf(),
            forall|b: &[u8]| persist.requires((b,)),
        ensures
            final(self).wf(),
            final(self).levels@.len() == old(self).levels@.len(),
            same_public_key(final(self).public_keys@[0], old(self).public_keys@[0]),
            (r == Err::<HssSignature, LmsError>(LmsError::KeyExhausted)) <==> old(self).exhausted(),
            r is Err ==> *final(self) == *old(self),
            r is Ok ==> exists|b: &[u8]|
                b@ == final(self).spec_bytes() && #[trigger] persist.ensures((b,), true),
            r == Err::<HssSignature, LmsError>(LmsError::PersistenceFailed) ==> exists|b: &[u8]|
                #[trigger] persist.ensures((b,), false) && exists|k: HssPrivateKey|
                    #[trigger] k.wf() && k.levels@.len() == old(self).levels@.len()
                        && same_public_key(k.public_keys@[0], old(self).public_keys@[0]) && b@
                        == k.spec_bytes(),
            r is Ok && old(self).bottom().q < old(self).bottom().lms_type.spec_leaves()
                ==> final(self).bottom().q == old(self).bottom().q + 1,
            r matches Ok(sig) ==> sig.wf() && sig.accepts(
                message@,
                HssPublicKey {
                    levels: old(self).levels@.len() as u32,
                    public_key: old(self).public_keys@[0],
                },
            ),
    {
        let n = self.levels.len();
        let mut j: usize = n;
        while j > 0 && self.levels[j - 1].q >= self.levels[j - 1].lms_type.number_of_lm_ots_keys()
            invariant
                self.wf(),
                n == self.levels@.len(),
                j <= n,
                forall|i: int|
                    j <= i < n ==> (#[trigger] self.levels@[i]).q
                        == self.levels@[i].lms_type.spec_leaves(),
            decreases j,
        {
            j = j - 1;
        }
        if j == 0 {
            return Err(LmsError::KeyExhausted);
        }
        let top: usize = j - 1;
        assert(level_ok(self.levels@[top as int], self.public_keys@[top as int]));
        let mut fresh_sk: Vec<LmsPrivateKey> = Vec::new();
        let mut fresh_pk: Vec<LmsPublicKey> = Vec::new();
        let mut k: usize = top + 1;
        while k < n
            invariant
                self.wf(),
                n == self.levels@.len(),
                top < k <= n,
                fresh_sk@.len() == k - top - 1,
                fresh_pk@.len() == k - top - 1,
                forall|m: int|
                    0 <= m < fresh_sk@.len() ==> level_ok(#[trigger] fresh_sk@[m], fresh_pk@[m])
                        && fresh_sk@[m].q == 0 && fresh_sk@[m].lms_type.spec_leaves() > 0,
            decreases n - k,
        {
            let (sk, pk) = keygen_random(self.levels[k].lms_type, self.levels[k].lmots_type);
            proof {
                vstd::arithmetic::power2::lemma_pow2_pos(sk.lms_type.spec_height() as nat);
            }
            fresh_sk.push(sk);
            fresh_pk.push(pk);
            k = k + 1;
        }
        let mut st = self.duplicate();
        let ghost old_top = st.public_keys@[0];
        st.levels.truncate(top + 1);
        st.public_keys.truncate(top + 1);
        st.signatures.truncate(top);
        let mut k: usize = top + 1;
        while k < n
            invariant
                1 <= n <= 8,
                top < k <= n,
                st.levels@.len() == k,
                st.public_keys@.len() == k,
                st.signatures@.len() == k - 1,
                st.public_keys@[0] == old_top,
                forall|i: int| 0 <= i < k ==> level_ok(#[trigger] st.levels@[i], st.public_keys@[i]),
                forall|i: int|
                    0 <= i < k - 1 ==> (#[trigger] st.signatures@[i]).wf()
                        && st.signatures@[i].accepts(
                        st.public_keys@[i + 1].spec_bytes(),
                        st.public_keys@[i],
                    ),
                st.levels@[k - 1].q < st.levels@[k - 1].lms_type.spec_leaves(),
                k == top + 1 ==> st.levels@[top as int].q == old(self).levels@[top as int].q,
                forall|m: int| 0 <= m <= top ==> #[trigger] st.levels@[m].lms_type == old(self).levels@[m].lms_type,
                fresh_sk@.len() == n - k,
                fresh_pk@.len() == n - k,
                forall|m: int|
                    0 <= m < fresh_sk@.len() ==> level_ok(#[trigger] fresh_sk@[m], fresh_pk@[m])
                        && fresh_sk@[m].q == 0 && fresh_sk@[m].lms_type.spec_leaves() > 0,
            decreases n - k,
        {
            assert(level_ok(st.levels@[k - 1], st.public_keys@[k - 1]));
            let mut parent = match st.levels.pop() {
                Some(p) => p,
                None => vstd::pervasive::unreached(),
            };
            let ghost before_sk = fresh_sk@;
            let ghost before_pk = fresh_pk@;
            let sk = fresh_sk.remove(0);
            let pk = fresh_pk.remove(0);
            assert(level_ok(sk, pk));
            let sig = sign_child(&mut parent, &st.public_keys[k - 1], &pk);
            st.levels.push(parent);
            st.levels.push(sk);
            st.public_keys.push(pk);
            st.signatures.push(sig);
            assert(fresh_sk@.len() == n - k - 1);
            assert forall|m: int| 0 <= m < fresh_sk@.len() implies level_ok(
                #[trigger] fresh_sk@[m],
                fresh_pk@[m],
            ) && fresh_sk@[m].q == 0 && fresh_sk@[m].lms_type.spec_leaves() > 0 by {
                assert(fresh_sk@[m] == before_sk[m + 1]);
                assert(fresh_pk@[m] == before_pk[m + 1]);
            }
            k = k + 1;
        }
        assert(level_ok(st.levels@[n - 1], st.public_keys@[n - 1]));
        let mut bottom = match st.levels.pop() {
            Some(p) => p,
            None => vstd::pervasive::unreached(),
        };
        let ghost old_bottom = bottom;
        let res = bottom.sign(message, accept_blob);
        st.levels.push(bottom);
        if let Err(e) = res {
            assert(e == LmsError::KeyExhausted || e == LmsError::PersistenceFailed);
            assert(res == Err::<LmsSignature, LmsError>(e));
        }
        let signature = match res {
            Ok(s) => s,
            Err(_) => vstd::pervasive::unreached(),
        };
        proof {
            lemma_sign_then_verify(
                old_bottom,
                st.public_keys@[n - 1],
                signature,
                message@,
                signature.lmots_signature.C@,
            );
        }
        let mut sp: Vec<LmsSignature> = Vec::new();
        let mut pp: Vec<LmsPublicKey> = Vec::new();
        let mut i: usize = 0;
        while i < n - 1
            invariant
                st.wf(),
                n == st.levels@.len(),
                i <= n - 1,
                sp@.len() == i,
                pp@.len() == i,
                forall|m: int|
                    0 <= m < i ==> {
                        let c = #[trigger] sp@[m];
                        let o = st.signatures@[m];
                        &&& c.wf()
                        &&& c.q == o.q
                        &&& c.lms_type == o.lms_type
                        &&& c.lmots_signature.parameter == o.lmots_signature.parameter
                        &&& c.lmots_signature.C@ == o.lmots_signature.C@
                        &&& c.lmots_signature.y_view() == o.lmots_signature.y_view()
                        &&& c.path_view() == o.path_view()
                    },
                forall|m: int|
                    0 <= m < i ==> {
                        let c = #[trigger] pp@[m];
                        let o = st.public_keys@[m + 1];
                        &&& c.wf()
                        &&& c.lms_type == o.lms_type
                        &&& c.lmots_type == o.lmots_type
                        &&& c.I@ == o.I@
                        &&& c.root@ == o.root@
                    },
            decreases n - 1 - i,
        {
            assert(st.signatures@[i as int].wf());
            assert(level_ok(st.levels@[i + 1], st.public_keys@[i + 1]));
            sp.push(st.signatures[i].duplicate());
            pp.push(st.public_keys[i + 1].duplicate());
            i = i + 1;
        }
        let sig = HssSignature { signed_public_keys: sp, public_keys: pp, signature };
        let ghost hpk = HssPublicKey { levels: n as u32, public_key: old_top };
        proof {
            assert forall|m: int| 0 <= m < n - 1 implies (#[trigger] sig.signed_public_keys@[m]).accepts(
                sig.public_keys@[m].spec_bytes(),
                sig.key_at(hpk.public_key, m),
            ) by {
                assert(sig.public_keys@[m].spec_bytes() == st.public_keys@[m + 1].spec_bytes());
                lemma_accepts_by_views(
                    st.signatures@[m],
                    sig.signed_public_keys@[m],
                    st.public_keys@[m + 1].spec_bytes(),
                    st.public_keys@[m],
                    sig.key_at(hpk.public_key, m),
                );
            }
            lemma_accepts_by_views(
                signature,
                signature,
                message@,
                st.public_keys@[n - 1],
                sig.key_at(hpk.public_key, n - 1),
            );
            assert(sig.wf());
        }
        proof {
            lemma_hss_accepts_same_key(
                sig,
                message@,
                hpk,
                HssPublicKey { levels: n as u32, public_key: old(self).public_keys@[0] },
            );
        }
        let blob = st.to_binary_representation();
        if !persist(blob.as_slice()) {
            return Err(LmsError::PersistenceFailed);
        }
        *self = st;
        Ok(sig)
    }

    /// The bottom level's key, which signs messages.
    pub open spec fn bottom(&self) -> LmsPrivateKey {
        self.levels@[self.levels@.len() - 1]
    }

    /// The serialized private keys of the levels, top first.
    pub open spec fn key_parts(&self) -> Seq<Seq<u8>> {
        Seq::new(self.levels@.len(), |i: int| self.levels@[i].spec_bytes())
    }

    /// The serialized public keys of the levels, top first.
    pub open spec fn public_key_parts(&self) -> Seq<Seq<u8>> {
        Seq::new(self.public_keys@.len(), |i: int| self.public_keys@[i].spec_bytes())
    }

    /// The serialized signatures of the levels' public keys below the top.
    pub open spec fn signature_parts(&self) -> Seq<Seq<u8>> {
        Seq::new(self.signatures@.len(), |i: int| self.signatures@[i].spec_bytes())
    }

    /// `u32(L) ‖ private keys ‖ public keys ‖ signatures of the keys below the top`.
    pub open spec fn spec_bytes(&self) -> Seq<u8> {
        u32_be(self.levels@.len() as u32) + concat(self.key_parts()) + concat(
            self.public_key_parts(),
        ) + concat(self.signature_parts())
    }

    /// The two keys hold the same values.
    pub open spec fn same_state(&self, o: HssPrivateKey) -> bool {
        &&& self.levels@.len() == o.levels@.len()
        &&& self.public_keys@.len() == o.public_keys@.len()
        &&& self.signatures@.len() == o.signatures@.len()
        &&& forall|i: int|
            0 <= i < self.levels@.len() ==> same_private_key(#[trigger] self.levels@[i], o.levels@[i])
        &&& forall|i: int|
            0 <= i < self.public_keys@.len() ==> same_public_key(
                #[trigger] self.public_keys@[i],
                o.public_keys@[i],
            )
        &&& forall|i: int|
            0 <= i < self.signatures@.len() ==> same_lms_signature(
                #[trigger] self.signatures@[i],
                o.signatures@[i],
            )
    }

    pub fn to_binary_representation(&self) -> (r: Vec<u8>)
        ensures
            r@ == self.spec_bytes(),
    {
        let mut r = u32str(self.levels.len() as u32);
        let ghost kp = self.key_parts();
        let mut i: usize = 0;
        while i < self.levels.len()
            invariant
                kp == self.key_parts(),
                i <= self.levels@.len(),
                r@ == u32_be(self.levels@.len() as u32) + concat(kp.subrange(0, i as int)),
            decreases self.levels@.len() - i,
        {
            let b = self.levels[i].to_binary_representation();
            extend(&mut r, b.as_slice());
            i = i + 1;
            assert(kp.subrange(0, i as int).drop_last() =~= kp.subrange(0, i - 1));
            assert(r@ =~= u32_be(self.levels@.len() as u32) + concat(kp.subrange(0, i as int)));
        }
        assert(kp.subrange(0, i as int) =~= kp);
        let ghost head = r@;
        let ghost pp = self.public_key_parts();
        let mut i: usize = 0;
        while i < self.public_keys.len()
            invariant
                pp == self.public_key_parts(),
                i <= self.public_keys@.len(),
                r@ == head + concat(pp.subrange(0, i as int)),
            decreases self.public_keys@.len() - i,
        {
            let b = self.public_keys[i].to_binary_representation();
            extend(&mut r, b.as_slice());
            i = i + 1;
            assert(pp.subrange(0, i as int).drop_last() =~= pp.subrange(0, i - 1));
            assert(r@ =~= head + concat(pp.subrange(0, i as int)));
        }
        assert(pp.subrange(0, i as int) =~= pp);
        let ghost head2 = r@;
        let ghost sp = self.signature_parts();
        let mut i: usize = 0;
        while i < self.signatures.len()
            invariant
                sp == self.signature_parts(),
                i <= self.signatures@.len(),
                r@ == head2 + concat(sp.subrange(0, i as int)),
            decreases self.signatures@.len() - i,
        {
            let b = self.signatures[i].to_binary_representation();
            extend(&mut r, b.as_slice());
            i = i + 1;
            assert(sp.subrange(0, i as int).drop_last() =~= sp.subrange(0, i - 1));
            assert(r@ =~= head2 + concat(sp.subrange(0, i as int)));
        }
        assert(sp.subrange(0, i as int) =~= sp);
        r
    }

    /// Parses a serialized key. Only a well-formed key is returned: each
    /// level's public key is recomputed from its seed and each signature of a
    /// level's public key is verified.
    pub fn from_binary_representation(data: &[u8]) -> (r: Option<Self>)
        ensures
            r matches Some(k) ==> k.wf() && k.spec_bytes() == data@,
    {
        if data.len() < 4 {
            return None;
        }
        let n32 = read_u32(data, 0);
        if n32 < 1 || n32 > 8 {
            return None;
        }
        let n: usize = n32 as usize;
        if data.len() < 4 + 116 * n {
            return None;
        }
        let mut levels: Vec<LmsPrivateKey> = Vec::new();
        let mut i: usize = 0;
        proof {
            crate::util::lemma_u32_be_of_be_u32(data@.subrange(0, 4));
            assert(data@.subrange(0, 4) =~= u32_be(n as u32) + concat(Seq::<Seq<u8>>::empty()));
        }
        while i < n
            invariant
                1 <= n <= 8,
                4 + 116 * n <= data@.len(),
                i <= n,
                levels@.len() == i,
                forall|m: int| 0 <= m < i ==> (#[trigger] levels@[m]).wf(),
                data@.subrange(0, 4 + 60 * i) == u32_be(n as u32) + concat(
                    Seq::new(i as nat, |m: int| levels@[m].spec_bytes()),
                ),
            decreases n - i,
        {
            let ghost prev = Seq::new(i as nat, |m: int| levels@[m].spec_bytes());
            let mut b: Vec<u8> = Vec::new();
            extend_range(&mut b, data, 4 + 60 * i, 4 + 60 * i + 60);
            let k = match LmsPrivateKey::from_binary_representation(b.as_slice()) {
                None => return None,
                Some(k) => k,
            };
            levels.push(k);
            i = i + 1;
            proof {
                let cur = Seq::new(i as nat, |m: int| levels@[m].spec_bytes());
                assert(cur.drop_last() =~= prev);
                assert(data@.subrange(0, 4 + 60 * i) =~= data@.subrange(0, 4 + 60 * (i - 1)) + b@);
            }
        }
        let ghost head = data@.subrange(0, 4 + 60 * n);
        let mut public_keys: Vec<LmsPublicKey> = Vec::new();
        let mut i: usize = 0;
        assert(data@.subrange(0, 4 + 60 * n) =~= head + concat(Seq::<Seq<u8>>::empty()));
        while i < n
            invariant
                1 <= n <= 8,
                4 + 116 * n <= data@.len(),
                i <= n,
                public_keys@.len() == i,
                forall|m: int| 0 <= m < i ==> (#[trigger] public_keys@[m]).wf(),
                head == data@.subrange(0, 4 + 60 * n),
                data@.subrange(0, 4 + 60 * n + 56 * i) == head + concat(
                    Seq::new(i as nat, |m: int| public_keys@[m].spec_bytes()),
                ),
            decreases n - i,
        {
            let ghost prev = Seq::new(i as nat, |m: int| public_keys@[m].spec_bytes());
            let start: usize = 4 + 60 * n + 56 * i;
            let mut b: Vec<u8> = Vec::new();
            extend_range(&mut b, data, start, start + 56);
            let k = match LmsPublicKey::from_binary_representation(b.as_slice()) {
                None => return None,
                Some(k) => k,
            };
            public_keys.push(k);
            i = i + 1;
            proof {
                let cur = Seq::new(i as nat, |m: int| public_keys@[m].spec_bytes());
                assert(cur.drop_last() =~= prev);
                assert(data@.subrange(0, start + 56) =~= data@.subrange(0, start as int) + b@);
            }
        }
        let ghost head2 = data@.subrange(0, 4 + 116 * n);
        let mut signatures: Vec<LmsSignature> = Vec::new();
        let mut off: usize = 4 + 116 * n;
        let mut i: usize = 0;
        assert(data@.subrange(0, off as int) =~= head2 + concat(Seq::<Seq<u8>>::empty()));
        while i < n - 1
            invariant
                1 <= n <= 8,
                off <= data@.len(),
                i <= n - 1,
                signatures@.len() == i,
                forall|m: int| 0 <= m < i ==> (#[trigger] signatures@[m]).wf(),
                head2 == data@.subrange(0, 4 + 116 * n),
                data@.subrange(0, off as int) == head2 + concat(
                    Seq::new(i as nat, |m: int| signatures@[m].spec_bytes()),
                ),
            decreases n - 1 - i,
        {
            let ghost prev = Seq::new(i as nat, |m: int| signatures@[m].spec_bytes());
            let (s, t) = match LmsSignature::parse_at(data, off) {
                None => return None,
                Some(p) => p,
            };
            let dl = data.len();
            assert(off + t <= dl);
            let ghost old_off = off;
            signatures.push(s);
            off = off + t;
            i = i + 1;
            proof {
                let cur = Seq::new(i as nat, |m: int| signatures@[m].spec_bytes());
                assert(cur.drop_last() =~= prev);
                assert(data@.subrange(0, off as int) =~= data@.subrange(0, old_off as int)
                    + data@.subrange(old_off as int, off as int));
            }
        }
        if off != data.len() {
            return None;
        }
        let k = HssPrivateKey { levels, public_keys, signatures };
        let mut i: usize = 0;
        while i < n
            invariant
                n == k.levels@.len(),
                n == k.public_keys@.len(),
                i <= n,
                forall|m: int| 0 <= m < n ==> (#[trigger] k.levels@[m]).wf(),
                forall|m: int| 0 <= m < n ==> (#[trigger] k.public_keys@[m]).wf(),
                forall|m: int| 0 <= m < i ==> level_ok(#[trigger] k.levels@[m], k.public_keys@[m]),
            decreases n - i,
        {
            let sk = &k.levels[i];
            let pk = &k.public_keys[i];
            if sk.lms_type != pk.lms_type || sk.lmots_type != pk.lmots_type {
                return None;
            }
            if !bytes_same(sk.I.as_slice(), pk.I.as_slice()) {
                return None;
            }
            let h = sk.lms_type.height();
            proof {
                vstd::arithmetic::power2::lemma_pow2_pos(h as nat);
            }
            let (root, _path) = crate::lms::definitions::compute_root_and_path(
                h,
                sk.lmots_type.get_parameter(),
                sk.I.as_slice(),
                sk.seed.as_slice(),
                0,
            );
            if !bytes_same(root.as_slice(), pk.root.as_slice()) {
                return None;
            }
            i = i + 1;
        }
        let mut i: usize = 0;
        while i < n - 1
            invariant
                n == k.levels@.len(),
                n == k.public_keys@.len(),
                n - 1 == k.signatures@.len(),
                1 <= n,
                i <= n - 1,
                forall|m: int| 0 <= m < n ==> level_ok(#[trigger] k.levels@[m], k.public_keys@[m]),
                forall|m: int| 0 <= m < n - 1 ==> (#[trigger] k.signatures@[m]).wf(),
                forall|m: int|
                    0 <= m < i ==> (#[trigger] k.signatures@[m]).accepts(
                        k.public_keys@[m + 1].spec_bytes(),
                        k.public_keys@[m],
                    ),
            decreases n - 1 - i,
        {
            assert(level_ok(k.levels@[i + 1], k.public_keys@[i + 1]));
            assert(level_ok(k.levels@[i as int], k.public_keys@[i as int]));
            let b = k.public_keys[i + 1].to_binary_representation();
            if !k.signatures[i].verify(b.as_slice(), &k.public_keys[i]) {
                return None;
            }
            i = i + 1;
        }
        proof {
            assert(k.key_parts() =~= Seq::new(n as nat, |m: int| k.levels@[m].spec_bytes()));
            assert(k.public_key_parts() =~= Seq::new(n as nat, |m: int| k.public_keys@[m].spec_bytes()));
            assert(k.signature_parts() =~= Seq::new((n - 1) as nat, |m: int| k.signatures@[m].spec_bytes()));
            assert(data@.subrange(0, data@.len() as int) =~= data@);
            assert(k.spec_bytes() =~= data@);
        }
        Some(k)
    }

    /// A copy of the key.
    pub fn duplicate(&self) -> (r: Self)
        requires
            self.wf(),
        ensures
            r.wf(),
            r.same_state(*self),
            r.spec_bytes() == self.spec_bytes(),
    {
        let n = self.levels.len();
        let mut levels: Vec<LmsPrivateKey> = Vec::new();
        let mut public_keys: Vec<LmsPublicKey> = Vec::new();
        let mut i: usize = 0;
        while i < n
            invariant
                self.wf(),
                n == self.levels@.len(),
                i <= n,
                levels@.len() == i,
                public_keys@.len() == i,
                forall|m: int|
                    0 <= m < i ==> same_private_key(#[trigger] levels@[m], self.levels@[m])
                        && same_public_key(public_keys@[m], self.public_keys@[m]) && level_ok(
                        levels@[m],
                        public_keys@[m],
                    ),
            decreases n - i,
        {
            assert(level_ok(self.levels@[i as int], self.public_keys@[i as int]));
            levels.push(self.levels[i].duplicate());
            public_keys.push(self.public_keys[i].duplicate());
            i = i + 1;
        }
        assert forall|m: int| 0 <= m < n implies same_public_key(
            #[trigger] public_keys@[m],
            self.public_keys@[m],
        ) by {
            assert(same_private_key(levels@[m], self.levels@[m]));
        }
        let mut signatures: Vec<LmsSignature> = Vec::new();
        let mut i: usize = 0;
        while i < n - 1
            invariant
                self.wf(),
                n == self.levels@.len(),
                i <= n - 1,
                public_keys@.len() == n,
                forall|m: int|
                    0 <= m < n ==> same_public_key(#[trigger] public_keys@[m], self.public_keys@[m]),
                signatures@.len() == i,
                forall|m: int|
                    0 <= m < i ==> same_lms_signature(#[trigger] signatures@[m], self.signatures@[m])
                        && signatures@[m].wf() && signatures@[m].accepts(
                        public_keys@[m + 1].spec_bytes(),
                        public_keys@[m],
                    ),
            decreases n - 1 - i,
        {
            assert(self.signatures@[i as int].wf());
            let c = self.signatures[i].duplicate();
            proof {
                let o = self.signatures@[i as int];
                assert(same_public_key(public_keys@[i + 1], self.public_keys@[i + 1]));
                assert(same_public_key(public_keys@[i as int], self.public_keys@[i as int]));
                assert(public_keys@[i + 1].spec_bytes() == self.public_keys@[i + 1].spec_bytes());
                lemma_accepts_by_views(
                    o,
                    c,
                    self.public_keys@[i + 1].spec_bytes(),
                    self.public_keys@[i as int],
                    public_keys@[i as int],
                );
            }
            signatures.push(c);
            i = i + 1;
        }
        let r = HssPrivateKey { levels, public_keys, signatures };
        proof {
            assert(r.key_parts() =~= self.key_parts());
            assert(r.public_key_parts() =~= self.public_key_parts());
            assert forall|m: int| 0 <= m < n - 1 implies r.signature_parts()[m]
                == self.signature_parts()[m] by {
                assert(same_lms_signature(r.signatures@[m], self.signatures@[m]));
                assert(r.signatures@[m].lmots_signature.spec_bytes()
                    =~= self.signatures@[m].lmots_signature.spec_bytes());
            }
            assert(r.signature_parts() =~= self.signature_parts());
        }
        r
    }

    pub open spec fn wf(&self) -> bool {
        let n = self.levels@.len();
        &&& 1 <= n <= 8
        &&& self.public_keys@.len() == n
        &&& self.signatures@.len() == n - 1
        &&& forall|i: int| 0 <= i < n ==> level_ok(#[trigger] self.levels@[i], self.public_keys@[i])
        &&& forall|i: int|
            0 <= i < n - 1 ==> (#[trigger] self.signatures@[i]).wf() && self.signatures@[i].accepts(
                self.public_keys@[i + 1].spec_bytes(),
                self.public_keys@[i],
            )
    }

    /// Every level has used all of its leaves.
    pub open spec fn exhausted(&self) -> bool {
        forall|i: int|
            0 <= i < self.levels@.len() ==> (#[trigger] self.levels@[i]).q
                == self.levels@[i].lms_type.spec_leaves()
    }
}

/// The two LMS signatures hold the same values.
pub open spec fn same_lms_signature(a: LmsSignature, b: LmsSignature) -> bool {
    &&& a.q == b.q
    &&& a.lms_type == b.lms_type
    &&& a.lmots_signature.parameter == b.lmots_signature.parameter
    &&& a.lmots_signature.C@ == b.lmots_signature.C@
    &&& a.lmots_signature.y_view() == b.lmots_signature.y_view()
    &&& a.path_view() == b.path_view()
}

fn bytes_same(a: &[u8], b: &[u8]) -> (r: bool)
    ensures
        r == (a@ == b@),
{
    if a.len() != b.len() {
        return false;
    }
    let mut i: usize = 0;
    while i < a.len()
        invariant
            a@.len() == b@.len(),
            i <= a@.len(),
            forall|k: int| 0 <= k < i ==> a@[k] == b@[k],
        decreases a@.len() - i,
    {
        if a[i] != b[i] {
            return false;
        }
        i = i + 1;
    }
    assert(a@ =~= b@);
    true
}

/// The two LMS private keys hold the same values.
pub open spec fn same_private_key(a: LmsPrivateKey, b: LmsPrivateKey) -> bool {
    &&& a.lms_type == b.lms_type
    &&& a.lmots_type == b.lmots_type
    &&& a.I@ == b.I@
    &&& a.seed@ == b.seed@
    &&& a.q == b.q
}

/// The two LMS public keys hold the same values.
pub open spec fn same_public_key(a: LmsPublicKey, b: LmsPublicKey) -> bool {
    &&& a.lms_type == b.lms_type
    &&& a.lmots_type == b.lmots_type
    &&& a.I@ == b.I@
    &&& a.root@ == b.root@
}

pub proof fn lemma_concat_append(a: Seq<Seq<u8>>, b: Seq<Seq<u8>>)
    ensures
        concat(a + b) == concat(a) + concat(b),
    decreases b.len(),
{
    if b.len() == 0 {
        assert(a + b =~= a);
    } else {
        lemma_concat_append(a, b.drop_last());
        assert((a + b).drop_last() =~= a + b.drop_last());
    }
}

proof fn lemma_level_alike(x: HssSignature, y: HssSignature, k: HssPublicKey, i: int)
    requires
        x.wf(),
        y.wf(),
        x.same_as(y),
        0 <= i < x.signed_public_keys@.len(),
    ensures
        x.signed_public_keys@[i].accepts(x.public_keys@[i].spec_bytes(), x.key_at(k.public_key, i))
            == y.signed_public_keys@[i].accepts(
            y.public_keys@[i].spec_bytes(),
            y.key_at(k.public_key, i),
        ),
{
    assert(same_lms_signature(x.signed_public_keys@[i], y.signed_public_keys@[i]));
    assert(same_public_key(x.public_keys@[i], y.public_keys@[i]));
    if i > 0 {
        assert(same_public_key(x.public_keys@[i - 1], y.public_keys@[i - 1]));
    }
    lemma_accepts_by_views(
        x.signed_public_keys@[i],
        y.signed_public_keys@[i],
        x.public_keys@[i].spec_bytes(),
        x.key_at(k.public_key, i),
        y.key_at(k.public_key, i),
    );
}

/// In the bytes of `w`, level `i`'s part starts where the parts before it end.
#[verifier::rlimit(80)]
#[verifier::spinoff_prover]
proof fn lemma_part_at(w: HssSignature, data: Seq<u8>, i: int)
    requires
        w.encodes(data),
        0 <= i < w.signed_public_keys@.len(),
    ensures
        ({
            let wp = w.parts();
            let off = 4 + concat(wp.subrange(0, i)).len() as int;
            &&& concat(wp.subrange(0, i + 1)) == concat(wp.subrange(0, i)) + wp[i]
            &&& off + wp[i].len() <= data.len()
            &&& data.subrange(off, off + wp[i].len() as int) == wp[i]
        }),
{
    let wp = w.parts();
    let n = wp.len() as int;
    assert(wp.subrange(0, i + 1).drop_last() =~= wp.subrange(0, i));
    lemma_concat_append(wp.subrange(0, i + 1), wp.subrange(i + 1, n));
    assert(wp =~= wp.subrange(0, i + 1) + wp.subrange(i + 1, n));
    let head = u32_be(w.signed_public_keys@.len() as u32) + concat(wp.subrange(0, i));
    let rest = concat(wp.subrange(i + 1, n)) + w.signature.spec_bytes();
    assert(data =~= head + wp[i] + rest);
    assert(data.subrange(head.len() as int, head.len() + wp[i].len() as int) =~= wp[i]);
}

/// In the bytes of `w`, its message signature follows all the parts.
proof fn lemma_last_part(w: HssSignature, data: Seq<u8>)
    requires
        w.encodes(data),
    ensures
        ({
            let off = 4 + concat(w.parts()).len() as int;
            &&& off <= data.len()
            &&& data.subrange(off, data.len() as int) == w.signature.spec_bytes()
        }),
{
    let head = u32_be(w.signed_public_keys@.len() as u32) + concat(w.parts());
    assert(data =~= head + w.signature.spec_bytes());
    assert(data.subrange(head.len() as int, data.len() as int) =~= w.signature.spec_bytes());
}

/// The multi-level signature that `data` encodes.
pub open spec fn decode_hss_signature(data: Seq<u8>) -> HssSignature {
    choose|w: HssSignature| #[trigger] w.encodes(data)
}

/// The multi-level public key that `data` encodes.
pub open spec fn decode_hss_public_key(data: Seq<u8>) -> HssPublicKey {
    choose|k: HssPublicKey| k.public_key.wf() && k.spec_bytes() == data
}

/// Verifies a serialized multi-level signature of `message` under a
/// serialized multi-level public key: true exactly when both parse and the
/// signature is accepted.
pub fn hss_verify(message: &[u8], signature: &[u8], public_key: &[u8]) -> (r: bool)
    ensures
        r == ((exists|w: HssSignature| #[trigger] w.encodes(signature@))
            && is_hss_public_key_encoding(public_key@) && decode_hss_signature(signature@).accepts(
            message@,
            decode_hss_public_key(public_key@),
        )),
{
    let s = match HssSignature::from_binary_representation(signature) {
        None => return false,
        Some(s) => s,
    };
    let k = match HssPublicKey::from_binary_representation(public_key) {
        None => return false,
        Some(k) => k,
    };
    proof {
        let ds = decode_hss_signature(signature@);
        let dk = decode_hss_public_key(public_key@);
        assert(dk.public_key.wf() && dk.spec_bytes() == public_key@);
        assert(1 <= k.levels <= 8) by {
            crate::util::lemma_be_u32_of_u32_be(k.levels);
            assert(public_key@.subrange(0, 4) =~= u32_be(k.levels));
        }
        lemma_hss_public_key_round_trip(k, dk);
        lemma_hss_accepts_alike(s, ds, message@, dk);
        lemma_hss_accepts_same_key(s, message@, k, dk);
    }
    s.verify(message, &k)
}

/// Acceptance depends on the values of the public key alone.
proof fn lemma_hss_accepts_same_key(x: HssSignature, message: Seq<u8>, k1: HssPublicKey, k2: HssPublicKey)
    requires
        x.wf(),
        k1.levels == k2.levels,
        same_public_key(k1.public_key, k2.public_key),
    ensures
        x.accepts(message, k1) == x.accepts(message, k2),
{
    let n = x.signed_public_keys@.len();
    if n > 0 {
        lemma_accepts_by_views(
            x.signed_public_keys@[0],
            x.signed_public_keys@[0],
            x.public_keys@[0].spec_bytes(),
            k1.public_key,
            k2.public_key,
        );
    } else {
        lemma_accepts_by_views(x.signature, x.signature, message, k1.public_key, k2.public_key);
    }
    assert forall|i: int| 0 <= i < n implies (#[trigger] x.signed_public_keys@[i]).accepts(
        x.public_keys@[i].spec_bytes(),
        x.key_at(k1.public_key, i),
    ) == x.signed_public_keys@[i].accepts(x.public_keys@[i].spec_bytes(), x.key_at(k2.public_key, i))
        by {
        if i == 0 {
            lemma_accepts_by_views(
                x.signed_public_keys@[0],
                x.signed_public_keys@[0],
                x.public_keys@[0].spec_bytes(),
                k1.public_key,
                k2.public_key,
            );
        }
    }
}

/// In `head ‖ concat(p) ‖ tail`, part `i` stands where the parts before it end.
pub proof fn lemma_concat_part(head: Seq<u8>, p: Seq<Seq<u8>>, tail: Seq<u8>, i: int)
    requires
        0 <= i < p.len(),
    ensures
        ({
            let data = head + concat(p) + tail;
            let off = head.len() + concat(p.subrange(0, i)).len() as int;
            &&& concat(p.subrange(0, i + 1)) == concat(p.subrange(0, i)) + p[i]
            &&& off + p[i].len() <= data.len()
            &&& data.subrange(off, off + p[i].len() as int) == p[i]
        }),
{
    let n = p.len() as int;
    assert(p.subrange(0, i + 1).drop_last() =~= p.subrange(0, i));
    lemma_concat_append(p.subrange(0, i + 1), p.subrange(i + 1, n));
    assert(p =~= p.subrange(0, i + 1) + p.subrange(i + 1, n));
    let data = head + concat(p) + tail;
    let h2 = head + concat(p.subrange(0, i));
    let rest = concat(p.subrange(i + 1, n)) + tail;
    assert(data =~= h2 + p[i] + rest);
    assert(data.subrange(h2.len() as int, h2.len() + p[i].len() as int) =~= p[i]);
}

/// The signatures of two keys with the same bytes, up to level `i`, hold
/// the same values and take the same bytes.
proof fn lemma_signature_parts_alike(a: HssPrivateKey, b: HssPrivateKey, i: int)
    requires
        a.wf(),
        b.wf(),
        a.signatures@.len() == b.signatures@.len(),
        0 <= i <= a.signatures@.len(),
        ({
            let ha = u32_be(a.levels@.len() as u32) + concat(a.key_parts()) + concat(a.public_key_parts());
            let hb = u32_be(b.levels@.len() as u32) + concat(b.key_parts()) + concat(b.public_key_parts());
            ha.len() == hb.len()
        }),
        a.spec_bytes() == b.spec_bytes(),
    ensures
        concat(a.signature_parts().subrange(0, i)) == concat(b.signature_parts().subrange(0, i)),
        forall|m: int| 0 <= m < i ==> same_lms_signature(#[trigger] a.signatures@[m], b.signatures@[m]),
    decreases i,
{
    if i > 0 {
        lemma_signature_parts_alike(a, b, i - 1);
        let ha = u32_be(a.levels@.len() as u32) + concat(a.key_parts()) + concat(a.public_key_parts());
        let hb = u32_be(b.levels@.len() as u32) + concat(b.key_parts()) + concat(b.public_key_parts());
        let data = a.spec_bytes();
        assert(data =~= ha + concat(a.signature_parts()) + Seq::<u8>::empty());
        assert(data =~= hb + concat(b.signature_parts()) + Seq::<u8>::empty());
        lemma_concat_part(ha, a.signature_parts(), Seq::<u8>::empty(), i - 1);
        lemma_concat_part(hb, b.signature_parts(), Seq::<u8>::empty(), i - 1);
        let off = ha.len() + concat(a.signature_parts().subrange(0, i - 1)).len() as int;
        let sa = a.signatures@[i - 1];
        let sb = b.signatures@[i - 1];
        assert(sa.wf() && sb.wf());
        reveal(stands_at);
        assert(stands_at(sa, data, off));
        assert(stands_at(sb, data, off));
        crate::lms::signing::lemma_stands_at(sa, data, off);
        crate::lms::signing::lemma_stands_at(sb, data, off);
        sa.lmots_signature.parameter.lemma_bounds();
        sb.lmots_signature.parameter.lemma_bounds();
        assert(sa.spec_bytes().len() == sb.spec_bytes().len());
        assert(sa.spec_bytes() == sb.spec_bytes());
        lemma_lms_signature_round_trip(sa, sb);
        assert(a.signature_parts()[i - 1] == sa.spec_bytes());
        assert(b.signature_parts()[i - 1] == sb.spec_bytes());
    }
}

/// Serialization round trip of a multi-level private key: any well-formed
/// key with the same bytes holds the same values.
pub proof fn lemma_hss_private_key_round_trip(a: HssPrivateKey, b: HssPrivateKey)
    requires
        a.wf(),
        b.wf(),
        a.spec_bytes() == b.spec_bytes(),
    ensures
        a.same_state(b),
{
    let data = a.spec_bytes();
    let na = a.levels@.len();
    let nb = b.levels@.len();
    crate::util::lemma_be_u32_of_u32_be(na as u32);
    crate::util::lemma_be_u32_of_u32_be(nb as u32);
    assert(data.subrange(0, 4) =~= u32_be(na as u32));
    assert(b.spec_bytes().subrange(0, 4) =~= u32_be(nb as u32));
    assert(na == nb);
    let n = na as int;
    assert forall|m: int| 0 <= m < n implies (#[trigger] a.key_parts()[m]).len() == 60 by {
        assert(level_ok(a.levels@[m], a.public_keys@[m]));
        lemma_private_key_round_trip(a.levels@[m], a.levels@[m]);
    }
    assert forall|m: int| 0 <= m < n implies (#[trigger] b.key_parts()[m]).len() == 60 by {
        assert(level_ok(b.levels@[m], b.public_keys@[m]));
        lemma_private_key_round_trip(b.levels@[m], b.levels@[m]);
    }
    assert forall|m: int| 0 <= m < n implies (#[trigger] a.public_key_parts()[m]).len() == 56 by {
        assert(level_ok(a.levels@[m], a.public_keys@[m]));
    }
    assert forall|m: int| 0 <= m < n implies (#[trigger] b.public_key_parts()[m]).len() == 56 by {
        assert(level_ok(b.levels@[m], b.public_keys@[m]));
    }
    lemma_concat_blocks(a.key_parts(), 60);
    lemma_concat_blocks(b.key_parts(), 60);
    lemma_concat_blocks(a.public_key_parts(), 56);
    lemma_concat_blocks(b.public_key_parts(), 56);
    let bd = b.spec_bytes();
    assert(data.subrange(4, 4 + 60 * n) =~= concat(a.key_parts()));
    assert(bd.subrange(4, 4 + 60 * n) =~= concat(b.key_parts()));
    assert(data.subrange(4 + 60 * n, 4 + 116 * n) =~= concat(a.public_key_parts()));
    assert(bd.subrange(4 + 60 * n, 4 + 116 * n) =~= concat(b.public_key_parts()));
    assert forall|m: int| 0 <= m < n implies same_private_key(#[trigger] a.levels@[m], b.levels@[m])
        by {
        assert(block(concat(a.key_parts()), 60, m) == a.key_parts()[m]);
        assert(block(concat(b.key_parts()), 60, m) == b.key_parts()[m]);
        assert(level_ok(a.levels@[m], a.public_keys@[m]));
        assert(level_ok(b.levels@[m], b.public_keys@[m]));
        lemma_private_key_round_trip(a.levels@[m], b.levels@[m]);
    }
    assert forall|m: int| 0 <= m < n implies same_public_key(#[trigger] a.public_keys@[m], b.public_keys@[m])
        by {
        assert(block(concat(a.public_key_parts()), 56, m) == a.public_key_parts()[m]);
        assert(block(concat(b.public_key_parts()), 56, m) == b.public_key_parts()[m]);
        assert(level_ok(a.levels@[m], a.public_keys@[m]));
        assert(level_ok(b.levels@[m], b.public_keys@[m]));
        lemma_public_key_round_trip(a.public_keys@[m], b.public_keys@[m]);
    }
    lemma_signature_parts_alike(a, b, n - 1);
}

/// Signatures that hold the same values are accepted alike.
pub proof fn lemma_hss_accepts_alike(
    x: HssSignature,
    y: HssSignature,
    message: Seq<u8>,
    k: HssPublicKey,
)
    requires
        x.wf(),
        y.wf(),
        x.same_as(y),
    ensures
        x.accepts(message, k) == y.accepts(message, k),
{
    let n = x.signed_public_keys@.len();
    if n > 0 {
        assert(same_public_key(x.public_keys@[n - 1], y.public_keys@[n - 1]));
    }
    lemma_accepts_by_views(
        x.signature,
        y.signature,
        message,
        x.key_at(k.public_key, n as int),
        y.key_at(k.public_key, n as int),
    );
    if x.accepts(message, k) {
        assert forall|i: int| 0 <= i < n implies (#[trigger] y.signed_public_keys@[i]).accepts(
            y.public_keys@[i].spec_bytes(),
            y.key_at(k.public_key, i),
        ) by {
            lemma_level_alike(x, y, k, i);
        }
    }
    if y.accepts(message, k) {
        assert forall|i: int| 0 <= i < n implies (#[trigger] x.signed_public_keys@[i]).accepts(
            x.public_keys@[i].spec_bytes(),
            x.key_at(k.public_key, i),
        ) by {
            lemma_level_alike(x, y, k, i);
        }
    }
}

impl HssSignature {
    pub open spec fn wf(&self) -> bool {
        &&& self.public_keys@.len() == self.signed_public_keys@.len()
        &&& forall|i: int|
            0 <= i < self.public_keys@.len() ==> (#[trigger] self.public_keys@[i]).wf()
                && self.signed_public_keys@[i].wf()
        &&& self.signature.wf()
    }

    /// The key that signs at level `i`: the top key, then the signed keys.
    pub open spec fn key_at(&self, top: LmsPublicKey, i: int) -> LmsPublicKey {
        if i == 0 {
            top
        } else {
            self.public_keys@[i - 1]
        }
    }

    /// Every level's signature is accepted under the key above it, and the
    /// message signature under the last key.
    pub open spec fn accepts(&self, message: Seq<u8>, pk: HssPublicKey) -> bool {
        let n = self.signed_public_keys@.len();
        &&& n + 1 == pk.levels
        &&& forall|i: int|
            0 <= i < n ==> (#[trigger] self.signed_public_keys@[i]).accepts(
                self.public_keys@[i].spec_bytes(),
                self.key_at(pk.public_key, i),
            )
        &&& self.signature.accepts(message, self.key_at(pk.public_key, n as int))
    }

    /// Checks the signature of `message` against `public_key`.
    pub fn verify(&self, message: &[u8], public_key: &HssPublicKey) -> (r: bool)
        requires
            self.wf(),
            public_key.public_key.wf(),
        ensures
            r == self.accepts(message@, *public_key),
    {
        let n = self.signed_public_keys.len();
        if public_key.levels == 0 || n as u64 != (public_key.levels - 1) as u64 {
            return false;
        }
        let mut i: usize = 0;
        while i < n
            invariant
                self.wf(),
                public_key.public_key.wf(),
                n == self.signed_public_keys@.len(),
                i <= n,
                forall|k: int|
                    0 <= k < i ==> (#[trigger] self.signed_public_keys@[k]).accepts(
                        self.public_keys@[k].spec_bytes(),
                        self.key_at(public_key.public_key, k),
                    ),
            decreases n - i,
        {
            let bytes = self.public_keys[i].to_binary_representation();
            let ok = if i == 0 {
                self.signed_public_keys[i].verify(bytes.as_slice(), &public_key.public_key)
            } else {
                self.signed_public_keys[i].verify(bytes.as_slice(), &self.public_keys[i - 1])
            };
            if !ok {
                return false;
            }
            i = i + 1;
        }
        if n == 0 {
            self.signature.verify(message, &public_key.public_key)
        } else {
            self.signature.verify(message, &self.public_keys[n - 1])
        }
    }

    /// The serialized signed public keys, level by level.
    pub open spec fn parts(&self) -> Seq<Seq<u8>> {
        Seq::new(
            self.signed_public_keys@.len(),
            |i: int| self.signed_public_keys@[i].spec_bytes() + self.public_keys@[i].spec_bytes(),
        )
    }

    /// The serialized signed public keys, one after another.
    pub open spec fn signed_keys_bytes(&self) -> Seq<u8> {
        concat(self.parts())
    }

    /// Every leaf index is inside its tree.
    pub open spec fn in_range(&self) -> bool {
        &&& forall|i: int|
            0 <= i < self.signed_public_keys@.len() ==> (#[trigger] self.signed_public_keys@[i]).q
                < self.signed_public_keys@[i].lms_type.spec_leaves()
        &&& self.signature.q < self.signature.lms_type.spec_leaves()
    }

    /// `data` is the serialized form of this signature, which has at most
    /// eight levels and leaf indices inside their trees.
    pub open spec fn encodes(&self, data: Seq<u8>) -> bool {
        &&& self.wf()
        &&& self.in_range()
        &&& self.signed_public_keys@.len() <= 7
        &&& self.spec_bytes() == data
    }

    /// The two signatures hold the same values.
    pub open spec fn same_as(&self, o: HssSignature) -> bool {
        &&& self.signed_public_keys@.len() == o.signed_public_keys@.len()
        &&& self.public_keys@.len() == o.public_keys@.len()
        &&& forall|i: int|
            0 <= i < self.signed_public_keys@.len() ==> same_lms_signature(
                #[trigger] self.signed_public_keys@[i],
                o.signed_public_keys@[i],
            )
        &&& forall|i: int|
            0 <= i < self.public_keys@.len() ==> same_public_key(
                #[trigger] self.public_keys@[i],
                o.public_keys@[i],
            )
        &&& same_lms_signature(self.signature, o.signature)
    }

    /// Parses a serialized multi-level signature. It succeeds exactly when
    /// `data` is the serialized form of a signature with at most eight levels
    /// and leaf indices inside their trees, and returns one with its values.
    pub fn from_binary_representation(data: &[u8]) -> (r: Option<Self>)
        ensures
            r matches Some(x) ==> x.encodes(data@) && x.same_as(decode_hss_signature(data@)),
            r is Some <==> exists|w: HssSignature| #[trigger] w.encodes(data@),
    {
        let ghost w = decode_hss_signature(data@);
        Self::parse_with(data, Ghost(w))
    }

    /// Parses the signature and public key of one level at `off`.
    #[verifier::rlimit(100)]
    fn parse_level(data: &[u8], off: usize, w: Ghost<HssSignature>, i: Ghost<int>) -> (r: Option<
        (LmsSignature, LmsPublicKey, usize),
    >)
        requires
            off <= data@.len(),
        ensures
            r matches Some((s, k, t)) ==> s.wf() && s.q < s.lms_type.spec_leaves() && k.wf() && off
                + t + 56 <= data@.len() && data@.subrange(off as int, off + t + 56) == s.spec_bytes()
                + k.spec_bytes(),
            ({
                let wp = w@.parts();
                w@.encodes(data@) && 0 <= i@ < w@.signed_public_keys@.len() && off + wp[i@].len()
                    <= data@.len() && data@.subrange(off as int, off + wp[i@].len()) == wp[i@]
            }) ==> (r is Some && same_lms_signature(r->Some_0.0, w@.signed_public_keys@[i@])
                && same_public_key(r->Some_0.1, w@.public_keys@[i@]) && r->Some_0.2 + 56
                == w@.parts()[i@].len()),
    {
        let ghost valid = ({
            let wp = w@.parts();
            w@.encodes(data@) && 0 <= i@ < w@.signed_public_keys@.len() && off + wp[i@].len()
                <= data@.len() && data@.subrange(off as int, off + wp[i@].len()) == wp[i@]
        });
        proof {
            if valid {
                let ws = w@.signed_public_keys@[i@];
                let wk = w@.public_keys@[i@];
                assert(ws.wf() && wk.wf());
                assert(w@.parts()[i@] == ws.spec_bytes() + wk.spec_bytes());
                assert(data@.subrange(off as int, off + ws.spec_bytes().len()) =~= ws.spec_bytes());
                reveal(stands_at);
                assert(stands_at(ws, data@, off as int));
                assert(ws.q < ws.lms_type.spec_leaves());
            }
        }
        let (s, t) = match LmsSignature::parse_at(data, off) {
            None => return None,
            Some(p) => p,
        };
        if data.len() - off - t < 56 {
            return None;
        }
        let mut kb: Vec<u8> = Vec::new();
        extend_range(&mut kb, data, off + t, off + t + 56);
        proof {
            if valid {
                let ws = w@.signed_public_keys@[i@];
                let wk = w@.public_keys@[i@];
                lemma_lms_signature_round_trip(ws, s);
                assert(t == ws.spec_bytes().len());
                assert(wk.spec_bytes().len() == 56);
                let whole = data@.subrange(off as int, off + w@.parts()[i@].len());
                assert(whole == ws.spec_bytes() + wk.spec_bytes());
                assert(kb@ =~= whole.subrange(t as int, t + 56));
                assert(kb@ =~= wk.spec_bytes());
                lemma_public_key_round_trip(wk, wk);
            }
        }
        let k = match LmsPublicKey::from_binary_representation(kb.as_slice()) {
            None => return None,
            Some(k) => k,
        };
        proof {
            if valid {
                lemma_public_key_round_trip(w@.public_keys@[i@], k);
            }
            assert(data@.subrange(off as int, off + t + 56) =~= data@.subrange(off as int, off + t)
                + kb@);
        }
        Some((s, k, t))
    }

    #[verifier::rlimit(100)]
    #[verifier::spinoff_prover]
    fn parse_with(data: &[u8], w: Ghost<HssSignature>) -> (r: Option<Self>)
        ensures
            r matches Some(x) ==> x.encodes(data@),
            w@.encodes(data@) ==> (r is Some && r->Some_0.same_as(w@)),
    {
        let ghost valid = w@.encodes(data@);
        let ghost wp = w@.parts();
        proof {
            if valid {
                crate::util::lemma_be_u32_of_u32_be(w@.signed_public_keys@.len() as u32);
                assert(data@.subrange(0, 4) =~= u32_be(w@.signed_public_keys@.len() as u32));
            }
        }
        if data.len() < 4 {
            return None;
        }
        let n = read_u32(data, 0);
        if n > 7 {
            return None;
        }
        let mut off: usize = 4;
        let mut sp: Vec<LmsSignature> = Vec::new();
        let mut pp: Vec<LmsPublicKey> = Vec::new();
        let mut i: u32 = 0;
        assert(data@.subrange(0, 4) =~= u32_be(n) + concat(Seq::<Seq<u8>>::empty())) by {
            crate::util::lemma_u32_be_of_be_u32(data@.subrange(0, 4));
        }
        while i < n
            invariant
                n <= 7,
                4 <= off <= data@.len(),
                i <= n,
                sp@.len() == i,
                pp@.len() == i,
                forall|m: int|
                    0 <= m < i ==> (#[trigger] sp@[m]).wf() && sp@[m].q < sp@[m].lms_type.spec_leaves()
                        && pp@[m].wf(),
                data@.subrange(0, off as int) == u32_be(n) + concat(
                    Seq::new(i as nat, |m: int| sp@[m].spec_bytes() + pp@[m].spec_bytes()),
                ),
                valid == w@.encodes(data@),
                wp == w@.parts(),
                valid ==> n == w@.signed_public_keys@.len(),
                valid ==> off == 4 + concat(wp.subrange(0, i as int)).len(),
                valid ==> forall|m: int|
                    0 <= m < i ==> same_lms_signature(#[trigger] sp@[m], w@.signed_public_keys@[m])
                        && same_public_key(pp@[m], w@.public_keys@[m]),
            decreases n - i,
        {
            let ghost prev = Seq::new(i as nat, |m: int| sp@[m].spec_bytes() + pp@[m].spec_bytes());
            proof {
                if valid {
                    lemma_part_at(w@, data@, i as int);
                }
            }
            let (s, k, t) = match Self::parse_level(data, off, w, Ghost(i as int)) {
                None => return None,
                Some(p) => p,
            };
            let dl = data.len();
            assert(off + t + 56 <= dl);
            let ghost old_off = off;
            sp.push(s);
            pp.push(k);
            off = off + t + 56;
            i = i + 1;
            proof {
                let cur = Seq::new(i as nat, |m: int| sp@[m].spec_bytes() + pp@[m].spec_bytes());
                assert(cur.drop_last() =~= prev);
                assert(cur[i - 1] == s.spec_bytes() + k.spec_bytes());
                assert(data@.subrange(0, off as int) =~= data@.subrange(0, old_off as int)
                    + data@.subrange(old_off as int, off as int));
            }
        }
        proof {
            if valid {
                assert(wp.subrange(0, n as int) =~= wp);
                lemma_last_part(w@, data@);
                lemma_lms_signature_round_trip(w@.signature, w@.signature);
            }
        }
        let mut rest: Vec<u8> = Vec::new();
        extend_range(&mut rest, data, off, data.len());
        let signature = match LmsSignature::from_binary_representation(rest.as_slice()) {
            None => return None,
            Some(s) => s,
        };
        let x = HssSignature { signed_public_keys: sp, public_keys: pp, signature };
        proof {
            lemma_lms_signature_layout(signature);
            assert(signature.spec_bytes().subrange(0, 4) =~= rest@.subrange(0, 4));
            assert(x.parts() =~= Seq::new(n as nat, |m: int| sp@[m].spec_bytes() + pp@[m].spec_bytes()));
            assert(data@ =~= data@.subrange(0, off as int) + rest@);
            assert(x.spec_bytes() == data@);
            assert(signature.q < signature.lms_type.spec_leaves());
            assert(x.in_range());
            assert forall|m: int| 0 <= m < x.public_keys@.len() implies (#[trigger] x.public_keys@[m]).wf()
                && x.signed_public_keys@[m].wf() by {
                assert(sp@[m].wf());
            }
            assert(x.wf());
            assert(x.encodes(data@));
            if valid {
                lemma_lms_signature_round_trip(w@.signature, signature);
                assert(same_lms_signature(x.signature, w@.signature));
                assert(x.same_as(w@));
            }
        }
        Some(x)
    }

    /// `u32(L - 1) ‖ (signature_0 ‖ pk_1) ‖ … ‖ signature_{L-1}`.
    pub open spec fn spec_bytes(&self) -> Seq<u8> {
        u32_be(self.signed_public_keys@.len() as u32) + self.signed_keys_bytes()
            + self.signature.spec_bytes()
    }

    pub fn to_binary_representation(&self) -> (r: Vec<u8>)
        requires
            self.wf(),
        ensures
            r@ == self.spec_bytes(),
    {
        let n = self.signed_public_keys.len();
        let ghost parts = self.parts();
        let mut r = u32str(n as u32);
        let mut i: usize = 0;
        while i < n
            invariant
                self.wf(),
                n == self.signed_public_keys@.len(),
                parts.len() == n,
                parts == self.parts(),
                i <= n,
                r@ == u32_be(n as u32) + concat(parts.subrange(0, i as int)),
            decreases n - i,
        {
            let s = self.signed_public_keys[i].to_binary_representation();
            extend(&mut r, s.as_slice());
            let k = self.public_keys[i].to_binary_representation();
            extend(&mut r, k.as_slice());
            assert(parts[i as int] == s@ + k@);
            i = i + 1;
            assert(parts.subrange(0, i as int).drop_last() =~= parts.subrange(0, i - 1));
            assert(r@ =~= u32_be(n as u32) + concat(parts.subrange(0, i as int)));
        }
        assert(parts.subrange(0, n as int) =~= parts);
        let s = self.signature.to_binary_representation();
        extend(&mut r, s.as_slice());
        r
    }
}

/// `data` has the shape of a serialized multi-level public key.
pub open spec fn is_hss_public_key_encoding(data: Seq<u8>) -> bool {
    &&& data.len() == 60
    &&& 1 <= be_u32(data.subrange(0, 4)) <= 8
    &&& is_public_key_encoding(data.subrange(4, 60))
}

/// Serialization round trip of a multi-level public key: its bytes parse, and
/// any key with the same bytes has the same level count and top-level key.
pub proof fn lemma_hss_public_key_round_trip(k: HssPublicKey, t: HssPublicKey)
    requires
        k.public_key.wf(),
        t.public_key.wf(),
        1 <= k.levels <= 8,
        t.spec_bytes() == k.spec_bytes(),
    ensures
        is_hss_public_key_encoding(k.spec_bytes()),
        t.levels == k.levels,
        t.public_key.lms_type == k.public_key.lms_type,
        t.public_key.lmots_type == k.public_key.lmots_type,
        t.public_key.I@ == k.public_key.I@,
        t.public_key.root@ == k.public_key.root@,
{
    let b = k.spec_bytes();
    crate::util::lemma_be_u32_of_u32_be(k.levels);
    crate::util::lemma_be_u32_of_u32_be(t.levels);
    assert(b.subrange(0, 4) =~= u32_be(k.levels));
    assert(t.spec_bytes().subrange(0, 4) =~= u32_be(t.levels));
    assert(b.subrange(4, 60) =~= k.public_key.spec_bytes());
    assert(t.spec_bytes().subrange(4, 60) =~= t.public_key.spec_bytes());
    crate::lms::keys::lemma_public_key_round_trip(k.public_key, t.public_key);
}

impl HssPublicKey {
    /// Parses a serialized multi-level public key; `None` on a wrong length,
    /// a level count outside one to eight, or a malformed top-level key.
    pub fn from_binary_representation(data: &[u8]) -> (r: Option<Self>)
        ensures
            r is Some <==> is_hss_public_key_encoding(data@),
            r matches Some(k) ==> k.public_key.wf() && k.spec_bytes() == data@,
    {
        if data.len() != 60 {
            return None;
        }
        let levels = read_u32(data, 0);
        if levels < 1 || levels > 8 {
            return None;
        }
        let mut rest: Vec<u8> = Vec::new();
        extend_range(&mut rest, data, 4, 60);
        let public_key = match LmsPublicKey::from_binary_representation(rest.as_slice()) {
            None => return None,
            Some(k) => k,
        };
        let k = HssPublicKey { levels, public_key };
        proof {
            crate::util::lemma_u32_be_of_be_u32(data@.subrange(0, 4));
            assert(k.spec_bytes() =~= data@);
        }
        Some(k)
    }

    /// `u32(L) ‖ LMS public key`.
    pub open spec fn spec_bytes(&self) -> Seq<u8> {
        u32_be(self.levels) + self.public_key.spec_bytes()
    }

    pub fn to_binary_representation(&self) -> (r: Vec<u8>)
        ensures
            r@ == self.spec_bytes(),
    {
        let mut r = u32str(self.levels);
        let k = self.public_key.to_binary_representation();
        extend(&mut r, k.as_slice());
        r
    }
}

} // verus!
