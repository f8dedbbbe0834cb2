use crate::lm_ots::definitions::{
    candidate_key, concat, ots_signature_chains, views, LmotsPrivateKey,
};
use crate::lm_ots::signing::{
    is_signature_encoding, lemma_blocks_determine, lemma_concat_blocks, lemma_signature_bytes_len,
    lemma_signature_round_trip, block, LmotsSignature,
};
use crate::lm_ots::parameters::LmotsAlgorithmType;
use crate::lms::definitions::{
    auth_path, climb, compute_root_and_path, hash_interior, hash_leaf, leaf_secrets, node_number,
    root_from_leaf,
};
use crate::lms::keys::{LmsPrivateKey, LmsPublicKey};
use crate::lms::parameter::LmsAlgorithmType;
use crate::util::{be_u32, extend, extend_range, read_u32, u32_be, u32str};
use vstd::arithmetic::power2::{lemma_pow2_pos, lemma_pow2_unfold, pow2};
use vstd::prelude::*;

verus! {

/// Why signing did not release a signature.
#[derive(Clone, Copy, Debug, PartialEq, Eq, Structural)]
pub enum LmsError {
    /// Every leaf of the tree has been used.
    KeyExhausted,
    /// The persistence hook refused the advanced private key.
    PersistenceFailed,
}

/// An LMS signature: leaf index, one-time signature, tree profile and authentication path.
pub struct LmsSignature {
    pub q: u32,
    pub lmots_signature: LmotsSignature,
    pub lms_type: LmsAlgorithmType,
    pub path: Vec<Vec<u8>>,
}

/// Length of the one-time signature inside an LMS signature of the given
/// one-time profile.
pub open spec fn ots_len(t: LmotsAlgorithmType) -> int {
    t.spec_parameter().signature_len()
}

/// `data` has the shape of a serialized LMS signature with a leaf index inside the tree.
pub open spec fn is_lms_signature_encoding(data: Seq<u8>) -> bool {
    &&& data.len() >= 8
    &&& LmotsAlgorithmType::spec_from_u32(be_u32(data.subrange(4, 8))) matches Some(t)
    &&& data.len() >= 8 + ots_len(t)
    &&& LmsAlgorithmType::spec_from_u32(
        be_u32(data.subrange(4 + ots_len(t), 8 + ots_len(t))),
    ) matches Some(lt)
    &&& data.len() == 8 + ots_len(t) + 32 * lt.spec_height()
    &&& be_u32(data.subrange(0, 4)) < lt.spec_leaves()
}

impl LmsSignature {
    pub open spec fn path_view(&self) -> Seq<Seq<u8>> {
        views(self.path@)
    }

    pub open spec fn wf(&self) -> bool {
        &&& self.lmots_signature.wf()
        &&& self.path@.len() == self.lms_type.spec_height()
        &&& forall|i: int| 0 <= i < self.path@.len() ==> (#[trigger] self.path@[i])@.len() == 32
    }

    /// `u32(q) ‖ LM-OTS signature ‖ u32(lms_type) ‖ path[0] ‖ … ‖ path[H-1]`.
    pub open spec fn spec_bytes(&self) -> Seq<u8> {
        u32_be(self.q) + self.lmots_signature.spec_bytes() + u32_be(self.lms_type.spec_code())
            + concat(self.path_view())
    }

    /// The signature is accepted for `message` under `pk`: the profiles match,
    /// the leaf index is inside the tree, and the candidate one-time key
    /// climbs with the path to the root of `pk`.
    #[verifier::opaque]
    pub open spec fn accepts(&self, message: Seq<u8>, pk: LmsPublicKey) -> bool {
        &&& self.lms_type == pk.lms_type
        &&& self.lmots_signature.parameter._type == pk.lmots_type
        &&& self.q < self.lms_type.spec_leaves()
        &&& root_from_leaf(
            self.lms_type.spec_height() as nat,
            pk.I@,
            self.q as nat,
            candidate_key(
                self.lmots_signature.parameter,
                pk.I@,
                u32_be(self.q),
                self.lmots_signature.C@,
                self.lmots_signature.y_view(),
                message,
            ),
            self.path_view(),
        ) == pk.root@
    }

    /// A copy of the signature.
    pub fn duplicate(&self) -> (r: Self)
        ensures
            r.q == self.q,
            r.lms_type == self.lms_type,
            r.lmots_signature.parameter == self.lmots_signature.parameter,
            r.lmots_signature.C@ == self.lmots_signature.C@,
            r.lmots_signature.y_view() == self.lmots_signature.y_view(),
            r.path_view() == self.path_view(),
            self.wf() ==> r.wf(),
    {
        let path = crate::lm_ots::signing::copy_chains(&self.path);
        let r = LmsSignature {
            q: self.q,
            lmots_signature: self.lmots_signature.duplicate(),
            lms_type: self.lms_type,
            path,
        };
        r
    }

    pub fn to_binary_representation(&self) -> (r: Vec<u8>)
        ensures
            r@ == self.spec_bytes(),
    {
        let mut r = u32str(self.q);
        let o = self.lmots_signature.to_binary_representation();
        extend(&mut r, o.as_slice());
        let t = u32str(self.lms_type.code());
        extend(&mut r, t.as_slice());
        let mut i: usize = 0;
        while i < self.path.len()
            invariant
                0 <= i <= self.path@.len(),
                r@ == u32_be(self.q) + self.lmots_signature.spec_bytes() + u32_be(
                    self.lms_type.spec_code(),
                ) + concat(self.path_view().subrange(0, i as int)),
            decreases self.path@.len() - i,
        {
            extend(&mut r, self.path[i].as_slice());
            i = i + 1;
            assert(self.path_view().subrange(0, i as int).drop_last() =~= self.path_view().subrange(
                0,
                i - 1,
            ));
        }
        assert(self.path_view().subrange(0, self.path@.len() as int) =~= self.path_view());
        r
    }

    /// Parses a serialized LMS signature; `None` on a wrong length, an unknown
    /// type code or a leaf index that is not below `2^H`.
    pub fn from_binary_representation(data: &[u8]) -> (r: Option<Self>)
        ensures
            r is Some <==> is_lms_signature_encoding(data@),
            r matches Some(s) ==> s.wf() && s.spec_bytes() == data@,
    {
        if data.len() < 8 {
            return None;
        }
        let q = read_u32(data, 0);
        let lmots_type = match LmotsAlgorithmType::from_u32(read_u32(data, 4)) {
            None => return None,
            Some(t) => t,
        };
        let lm = lmots_type.get_parameter();
        proof {
            lm.lemma_bounds();
        }
        let ol: usize = 4 + (lm.n as usize) * (lm.p as usize + 1);
        if data.len() < 8 + ol {
            return None;
        }
        let mut ob: Vec<u8> = Vec::new();
        extend_range(&mut ob, data, 4, 4 + ol);
        let lms_type = match LmsAlgorithmType::from_u32(read_u32(data, 4 + ol)) {
            None => return None,
            Some(t) => t,
        };
        let h = lms_type.height();
        if data.len() != 8 + ol + 32 * (h as usize) {
            return None;
        }
        if q >= lms_type.number_of_lm_ots_keys() {
            return None;
        }
        assert(ob@.subrange(0, 4) =~= data@.subrange(4, 8));
        let lmots_signature = match LmotsSignature::from_binary_representation(ob.as_slice()) {
            None => {
                assert(is_signature_encoding(ob@));
                return None;
            },
            Some(s) => s,
        };
        let start: usize = 8 + ol;
        let ghost body = data@.subrange(start as int, data@.len() as int);
        let mut path: Vec<Vec<u8>> = Vec::new();
        let mut i: usize = 0;
        while i < h as usize
            invariant
                h <= 25,
                start == 8 + ol,
                data@.len() == start + 32 * (h as int),
                data@.len() <= usize::MAX,
                body == data@.subrange(start as int, data@.len() as int),
                i <= h,
                path@.len() == i,
                forall|k: int| 0 <= k < i ==> (#[trigger] path@[k])@ == block(body, 32, k),
            decreases h - i,
        {
            let mut temp: Vec<u8> = Vec::new();
            extend_range(&mut temp, data, start + 32 * i, start + 32 * i + 32);
            assert(temp@ =~= block(body, 32, i as int));
            path.push(temp);
            i = i + 1;
        }
        let s = LmsSignature { q, lmots_signature, lms_type, path };
        proof {
            assert forall|k: int| 0 <= k < h implies (#[trigger] s.path@[k])@.len() == 32 by {}
            lemma_concat_blocks(s.path_view(), 32);
            assert forall|k: int| 0 <= k < h implies #[trigger] block(concat(s.path_view()), 32, k)
                == block(body, 32, k) by {}
            lemma_blocks_determine(concat(s.path_view()), body, 32, h as int);
            crate::util::lemma_u32_be_of_be_u32(data@.subrange(0, 4));
            crate::util::lemma_u32_be_of_be_u32(data@.subrange(4 + ol, 8 + ol));
            assert(s.spec_bytes() =~= data@);
        }
        Some(s)
    }

    /// Parses the serialized signature that starts at `off` in `data`,
    /// returning it with its length.
    pub fn parse_at(data: &[u8], off: usize) -> (r: Option<(LmsSignature, usize)>)
        requires
            off <= data@.len(),
        ensures
            r matches Some((s, t)) ==> s.wf() && off + t <= data@.len() && s.spec_bytes()
                == data@.subrange(off as int, off + t) && s.q < s.lms_type.spec_leaves(),
            forall|w: LmsSignature|
                #[trigger] stands_at(w, data@, off as int) && w.q < w.lms_type.spec_leaves() ==> (
                r is Some && r->Some_0.1 == w.spec_bytes().len()),
    {
        if data.len() - off < 8 {
            proof {
                assert forall|w: LmsSignature| #[trigger] stands_at(w, data@, off as int) implies false by {
                    lemma_stands_at(w, data@, off as int);
                }
            }
            return None;
        }
        let lmots_type = match LmotsAlgorithmType::from_u32(read_u32(data, off + 4)) {
            None => {
                proof {
                    assert forall|w: LmsSignature| #[trigger] stands_at(w, data@, off as int) implies false by {
                        lemma_stands_at(w, data@, off as int);
                    }
                }
                return None;
            },
            Some(t) => t,
        };
        let lm = lmots_type.get_parameter();
        proof {
            lm.lemma_bounds();
        }
        let ol: usize = 4 + (lm.n as usize) * (lm.p as usize + 1);
        assert(ol == ots_len(lmots_type));
        if data.len() - off < 8 + ol {
            proof {
                assert forall|w: LmsSignature| #[trigger] stands_at(w, data@, off as int) implies false by {
                    lemma_stands_at(w, data@, off as int);
                }
            }
            return None;
        }
        let lms_type = match LmsAlgorithmType::from_u32(read_u32(data, off + 4 + ol)) {
            None => {
                proof {
                    assert forall|w: LmsSignature| #[trigger] stands_at(w, data@, off as int) implies false by {
                        lemma_stands_at(w, data@, off as int);
                    }
                }
                return None;
            },
            Some(t) => t,
        };
        let h = lms_type.height();
        let total: usize = 8 + ol + 32 * (h as usize);
        proof {
            assert forall|w: LmsSignature| #[trigger] stands_at(w, data@, off as int) implies w.spec_bytes().len()
                == total && off + total <= data@.len() by {
                lemma_stands_at(w, data@, off as int);
            }
        }
        if data.len() - off < total {
            return None;
        }
        let mut piece: Vec<u8> = Vec::new();
        extend_range(&mut piece, data, off, off + total);
        match LmsSignature::from_binary_representation(piece.as_slice()) {
            None => {
                proof {
                    assert forall|w: LmsSignature|
                        #[trigger] stands_at(w, data@, off as int) && w.q < w.lms_type.spec_leaves() implies false by {
                        lemma_stands_at(w, data@, off as int);
                        lemma_lms_signature_round_trip(w, w);
                    }
                }
                None
            },
            Some(s) => {
                proof {
                    assert(is_lms_signature_encoding(piece@));
                    lemma_lms_signature_layout(s);
                    assert(s.spec_bytes().subrange(0, 4) =~= piece@.subrange(0, 4));
                }
                Some((s, total))
            },
        }
    }

    /// Checks this signature of `message` against `public_key`.
    pub fn verify(&self, message: &[u8], public_key: &LmsPublicKey) -> (r: bool)
        requires
            self.wf(),
            public_key.wf(),
        ensures
            r == self.accepts(message@, *public_key),
    {
        reveal(LmsSignature::accepts);
        if self.lms_type != public_key.lms_type {
            return false;
        }
        if self.lmots_signature.parameter._type != public_key.lmots_type {
            return false;
        }
        let leaves = self.lms_type.number_of_lm_ots_keys();
        if self.q >= leaves {
            return false;
        }
        let h = self.lms_type.height();
        let ghost hn = h as nat;
        let I = public_key.I.as_slice();
        let qb = u32str(self.q);
        let kc = self.lmots_signature.candidate_public_key(I, qb.as_slice(), message);
        assert(node_number(hn, 0, self.q as nat) == leaves + self.q) by {
            assert(pow2(0) == 1) by {
                vstd::arithmetic::power2::lemma2_to64();
            }
            vstd::arithmetic::power2::lemma_pow2_strictly_increases(hn, 26);
            vstd::arithmetic::power2::lemma2_to64();
        }
        let mut tc = hash_leaf(I, leaves + self.q, kc.as_slice());
        proof {
            vstd::arithmetic::power2::lemma2_to64();
            if hn < 25 {
                vstd::arithmetic::power2::lemma_pow2_strictly_increases(hn, 25);
            }
        }
        let ghost goal = root_from_leaf(hn, I@, self.q as nat, kc@, self.path_view());
        let mut l: u8 = 0;
        let mut j: u32 = self.q;
        let mut width: u32 = leaves;
        while l < h
            invariant
                self.wf(),
                hn == h,
                h <= 25,
                h == self.lms_type.spec_height(),
                l <= h,
                width == pow2((hn - l) as nat),
                width <= 33554432,
                j < width,
                goal == climb(hn, I@, j as nat, tc@, self.path_view(), l as nat, (hn - l) as nat),
            decreases h - l,
        {
            proof {
                lemma_pow2_unfold((hn - l) as nat);
                lemma_pow2_pos((hn - l - 1) as nat);
            }
            let half: u32 = width / 2;
            let parent: u32 = half + j / 2;
            assert(parent == node_number(hn, (l + 1) as nat, (j / 2) as nat));
            let p = self.path[l as usize].as_slice();
            assert(p@ == self.path_view()[l as int]);
            if j % 2 == 0 {
                tc = hash_interior(I, parent, tc.as_slice(), p);
            } else {
                tc = hash_interior(I, parent, p, tc.as_slice());
            }
            j = j / 2;
            width = half;
            l = l + 1;
        }
        assert(goal == tc@);
        proof {
            vstd::arithmetic::power2::lemma2_to64();
        }
        bytes_equal(tc.as_slice(), public_key.root.as_slice())
    }
}

impl LmsPrivateKey {
    /// The serialized private key with the leaf index advanced by one.
    pub open spec fn advanced_bytes(&self) -> Seq<u8> {
        u32_be(self.lms_type.spec_code()) + u32_be(self.lmots_type.spec_code()) + u32_be(
            (self.q + 1) as u32,
        ) + self.I@ + self.seed@
    }

    /// What a signature of `message` at the key's current leaf with
    /// randomizer `c` holds.
    pub open spec fn signs(&self, sig: LmsSignature, message: Seq<u8>, c: Seq<u8>) -> bool {
        let lm = self.lmots_type.spec_parameter();
        let h = self.lms_type.spec_height() as nat;
        &&& sig.wf()
        &&& sig.q == self.q
        &&& sig.lms_type == self.lms_type
        &&& sig.lmots_signature.parameter == lm
        &&& sig.lmots_signature.C@ == c
        &&& sig.lmots_signature.y_view() == ots_signature_chains(
            lm,
            self.I@,
            u32_be(self.q),
            leaf_secrets(lm, self.I@, self.seed@, self.q),
            c,
            message,
        )
        &&& sig.path_view() == auth_path(h, lm, self.I@, self.seed@, self.q as nat)
    }

    /// The serialized key with the leaf index advanced by one.
    pub fn advanced_binary_representation(&self) -> (r: Vec<u8>)
        requires
            self.wf(),
            self.q < self.lms_type.spec_leaves(),
        ensures
            r@ == self.advanced_bytes(),
    {
        // The tree size fits in a u32, so the advanced index does too.
        let _leaves = self.lms_type.number_of_lm_ots_keys();
        let mut r = u32str(self.lms_type.code());
        let t = u32str(self.lmots_type.code());
        extend(&mut r, t.as_slice());
        let nq = u32str(self.q + 1);
        extend(&mut r, nq.as_slice());
        extend(&mut r, self.I.as_slice());
        extend(&mut r, self.seed.as_slice());
        r
    }

    /// Signs `message` with the next unused leaf and randomizer `C`. The
    /// advanced private key is handed to `persist` first; the signature is
    /// released, and the key advanced, only where `persist` reports success.
    pub fn sign_with_randomizer<F: Fn(&[u8]) -> bool>(
        &mut self,
        message: &[u8],
        C: Vec<u8>,
        persist: F,
    ) -> (r: Result<LmsSignature, LmsError>)
        requires
            old(self).wf(),
            C@.len() == 32,
            forall|b: &[u8]| persist.requires((b,)),
        ensures
            final(self).wf(),
            (r == Err::<LmsSignature, LmsError>(LmsError::KeyExhausted)) <==> old(self).q
                == old(self).lms_type.spec_leaves(),
            r is Ok ==> final(self).q == old(self).q + 1,
            r is Err ==> final(self).q == old(self).q,
            final(self).lms_type == old(self).lms_type,
            final(self).lmots_type == old(self).lmots_type,
            final(self).I@ == old(self).I@,
            final(self).seed@ == old(self).seed@,
            r matches Ok(sig) ==> old(self).signs(sig, message@, C@),
            r is Ok ==> exists|b: &[u8]|
                b@ == old(self).advanced_bytes() && #[trigger] persist.ensures((b,), true),
            r == Err::<LmsSignature, LmsError>(LmsError::PersistenceFailed) ==> exists|b: &[u8]|
                b@ == old(self).advanced_bytes() && #[trigger] persist.ensures((b,), false),
    {
        let leaves = self.lms_type.number_of_lm_ots_keys();
        if self.q >= leaves {
            return Err(LmsError::KeyExhausted);
        }
        let lm = self.lmots_type.get_parameter();
        let h = self.lms_type.height();
        let qb = u32str(self.q);
        let ots_key = LmotsPrivateKey::new(lm, self.I.as_slice(), qb.as_slice(), self.seed.as_slice());
        assert(ots_key.key_view() == leaf_secrets(lm, self.I@, self.seed@, self.q));
        let ots_sig = LmotsSignature::sign_with_randomizer(&ots_key, message, C);
        let (_root, path) = compute_root_and_path(h, lm, self.I.as_slice(), self.seed.as_slice(), self.q);
        let mut blob = u32str(self.lms_type.code());
        let t = u32str(self.lmots_type.code());
        extend(&mut blob, t.as_slice());
        let nq = u32str(self.q + 1);
        extend(&mut blob, nq.as_slice());
        extend(&mut blob, self.I.as_slice());
        extend(&mut blob, self.seed.as_slice());
        let b = blob.as_slice();
        let ok = persist(b);
        if !ok {
            return Err(LmsError::PersistenceFailed);
        }
        let sig = LmsSignature { q: self.q, lmots_signature: ots_sig, lms_type: self.lms_type, path };
        assert(sig.path_view().len() == h);
        assert(sig.wf());
        assert(sig.lmots_signature.y_view() == ots_signature_chains(
            lm,
            self.I@,
            u32_be(self.q),
            leaf_secrets(lm, self.I@, self.seed@, self.q),
            C@,
            message@,
        ));
        assert(self.signs(sig, message@, C@));
        self.q = self.q + 1;
        Ok(sig)
    }

    /// Signs `message` as `sign_with_randomizer` does, with a fresh random randomizer.
    pub fn sign<F: Fn(&[u8]) -> bool>(&mut self, message: &[u8], persist: F) -> (r: Result<
        LmsSignature,
        LmsError,
    >)
        requires
            old(self).wf(),
            forall|b: &[u8]| persist.requires((b,)),
        ensures
            final(self).wf(),
            (r == Err::<LmsSignature, LmsError>(LmsError::KeyExhausted)) <==> old(self).q
                == old(self).lms_type.spec_leaves(),
            r is Ok ==> final(self).q == old(self).q + 1,
            r is Err ==> final(self).q == old(self).q,
            final(self).lms_type == old(self).lms_type,
            final(self).lmots_type == old(self).lmots_type,
            final(self).I@ == old(self).I@,
            final(self).seed@ == old(self).seed@,
            r matches Ok(sig) ==> old(self).signs(sig, message@, sig.lmots_signature.C@),
            r is Ok ==> exists|b: &[u8]|
                b@ == old(self).advanced_bytes() && #[trigger] persist.ensures((b,), true),
            r == Err::<LmsSignature, LmsError>(LmsError::PersistenceFailed) ==> exists|b: &[u8]|
                b@ == old(self).advanced_bytes() && #[trigger] persist.ensures((b,), false),
    {
        let C = crate::hasher::random_bytes(32);
        self.sign_with_randomizer(message, C, persist)
    }
}

/// Serialization round trip of an LMS signature: any well-formed signature
/// with the same bytes (which is what parsing returns) has the same fields,
/// and the bytes parse wherever the leaf index is inside the tree.
pub proof fn lemma_lms_signature_round_trip(s: LmsSignature, t: LmsSignature)
    requires
        s.wf(),
        t.wf(),
        t.spec_bytes() == s.spec_bytes(),
    ensures
        s.q < s.lms_type.spec_leaves() ==> is_lms_signature_encoding(s.spec_bytes()),
        t.q == s.q,
        t.lms_type == s.lms_type,
        t.lmots_signature.parameter == s.lmots_signature.parameter,
        t.lmots_signature.C@ == s.lmots_signature.C@,
        t.lmots_signature.y_view() == s.lmots_signature.y_view(),
        t.path_view() == s.path_view(),
{
    let b = s.spec_bytes();
    let tb = t.spec_bytes();
    let so = s.lmots_signature;
    let to = t.lmots_signature;
    lemma_signature_bytes_len(so);
    lemma_signature_bytes_len(to);
    so.parameter.lemma_bounds();
    to.parameter.lemma_bounds();
    crate::util::lemma_be_u32_of_u32_be(s.q);
    crate::util::lemma_be_u32_of_u32_be(t.q);
    assert(b.subrange(0, 4) =~= u32_be(s.q));
    assert(tb.subrange(0, 4) =~= u32_be(t.q));
    crate::util::lemma_be_u32_of_u32_be(so.parameter._type.spec_code());
    crate::util::lemma_be_u32_of_u32_be(to.parameter._type.spec_code());
    assert(b.subrange(4, 8) =~= u32_be(so.parameter._type.spec_code()));
    assert(tb.subrange(4, 8) =~= u32_be(to.parameter._type.spec_code()));
    assert(to.parameter == so.parameter);
    let ol = so.parameter.signature_len();
    assert(b.subrange(4, 4 + ol) =~= so.spec_bytes());
    assert(tb.subrange(4, 4 + ol) =~= to.spec_bytes());
    lemma_signature_round_trip(so, to);
    crate::util::lemma_be_u32_of_u32_be(s.lms_type.spec_code());
    crate::util::lemma_be_u32_of_u32_be(t.lms_type.spec_code());
    assert(b.subrange(4 + ol, 8 + ol) =~= u32_be(s.lms_type.spec_code()));
    assert(tb.subrange(4 + ol, 8 + ol) =~= u32_be(t.lms_type.spec_code()));
    assert(t.lms_type == s.lms_type);
    let h = s.lms_type.spec_height() as int;
    assert forall|i: int| 0 <= i < h implies (#[trigger] s.path_view()[i]).len() == 32 by {
        assert(s.path@[i]@.len() == 32);
    }
    assert forall|i: int| 0 <= i < h implies (#[trigger] t.path_view()[i]).len() == 32 by {
        assert(t.path@[i]@.len() == 32);
    }
    lemma_concat_blocks(s.path_view(), 32);
    lemma_concat_blocks(t.path_view(), 32);
    assert(b.subrange(8 + ol, b.len() as int) =~= concat(s.path_view()));
    assert(tb.subrange(8 + ol, b.len() as int) =~= concat(t.path_view()));
    assert forall|i: int| 0 <= i < h implies t.path_view()[i] == s.path_view()[i] by {
        assert(block(concat(s.path_view()), 32, i) == s.path_view()[i]);
        assert(block(concat(t.path_view()), 32, i) == t.path_view()[i]);
    }
    assert(t.path_view() =~= s.path_view());
}

/// Where the type codes stand in a serialized signature, and its length.
pub proof fn lemma_lms_signature_layout(s: LmsSignature)
    requires
        s.wf(),
    ensures
        ({
            let b = s.spec_bytes();
            let ol = ots_len(s.lmots_signature.parameter._type);
            &&& b.len() == 8 + ol + 32 * s.lms_type.spec_height()
            &&& be_u32(b.subrange(0, 4)) == s.q
            &&& LmotsAlgorithmType::spec_from_u32(be_u32(b.subrange(4, 8))) == Some(
                s.lmots_signature.parameter._type,
            )
            &&& LmsAlgorithmType::spec_from_u32(be_u32(b.subrange(4 + ol, 8 + ol))) == Some(
                s.lms_type,
            )
        }),
{
    let b = s.spec_bytes();
    let so = s.lmots_signature;
    lemma_signature_bytes_len(so);
    so.parameter.lemma_bounds();
    let ol = so.parameter.signature_len();
    crate::util::lemma_be_u32_of_u32_be(s.q);
    assert(b.subrange(0, 4) =~= u32_be(s.q));
    crate::util::lemma_be_u32_of_u32_be(so.parameter._type.spec_code());
    assert(b.subrange(4, 8) =~= u32_be(so.parameter._type.spec_code()));
    crate::util::lemma_be_u32_of_u32_be(s.lms_type.spec_code());
    assert(b.subrange(4 + ol, 8 + ol) =~= u32_be(s.lms_type.spec_code()));
    let h = s.lms_type.spec_height() as int;
    assert forall|i: int| 0 <= i < h implies (#[trigger] s.path_view()[i]).len() == 32 by {
        assert(s.path@[i]@.len() == 32);
    }
    lemma_concat_blocks(s.path_view(), 32);
}

/// The serialized form of `w` stands in `data` at `off`.
#[verifier::opaque]
pub open spec fn stands_at(w: LmsSignature, data: Seq<u8>, off: int) -> bool {
    &&& w.wf()
    &&& 0 <= off
    &&& off + w.spec_bytes().len() <= data.len()
    &&& data.subrange(off, off + w.spec_bytes().len()) == w.spec_bytes()
}

pub proof fn lemma_stands_at(w: LmsSignature, data: Seq<u8>, off: int)
    requires
        stands_at(w, data, off),
    ensures
        ({
            let ol = ots_len(w.lmots_signature.parameter._type);
            &&& w.wf()
            &&& w.spec_bytes().len() == 8 + ol + 32 * w.lms_type.spec_height()
            &&& off + w.spec_bytes().len() <= data.len()
            &&& data.subrange(off, off + w.spec_bytes().len()) == w.spec_bytes()
            &&& LmotsAlgorithmType::spec_from_u32(be_u32(data.subrange(off + 4, off + 8))) == Some(
                w.lmots_signature.parameter._type,
            )
            &&& LmsAlgorithmType::spec_from_u32(be_u32(data.subrange(off + 4 + ol, off + 8 + ol)))
                == Some(w.lms_type)
        }),
{
    reveal(stands_at);
    lemma_lms_signature_layout(w);
    let b = w.spec_bytes();
    let ol = ots_len(w.lmots_signature.parameter._type);
    w.lmots_signature.parameter.lemma_bounds();
    assert(b.subrange(4, 8) =~= data.subrange(off + 4, off + 8));
    assert(b.subrange(4 + ol, 8 + ol) =~= data.subrange(off + 4 + ol, off + 8 + ol));
}

/// The bytes that signing hands to the persistence hook are a valid private
/// key whose leaf index is one past the index that the signature used.
pub proof fn lemma_persisted_key_advances(sk: LmsPrivateKey)
    requires
        sk.wf(),
        sk.q < sk.lms_type.spec_leaves(),
    ensures
        crate::lms::keys::is_private_key_encoding(sk.advanced_bytes()),
        be_u32(sk.advanced_bytes().subrange(8, 12)) == sk.q + 1,
{
    let b = sk.advanced_bytes();
    let nq = (sk.q + 1) as u32;
    crate::util::lemma_be_u32_of_u32_be(sk.lms_type.spec_code());
    crate::util::lemma_be_u32_of_u32_be(sk.lmots_type.spec_code());
    crate::util::lemma_be_u32_of_u32_be(nq);
    assert(b.subrange(0, 4) =~= u32_be(sk.lms_type.spec_code()));
    assert(b.subrange(4, 8) =~= u32_be(sk.lmots_type.spec_code()));
    assert(b.subrange(8, 12) =~= u32_be(nq));
    assert(sk.lms_type.spec_leaves() <= 33554432) by {
        vstd::arithmetic::power2::lemma2_to64();
        if sk.lms_type.spec_height() < 25 {
            vstd::arithmetic::power2::lemma_pow2_strictly_increases(
                sk.lms_type.spec_height() as nat,
                25,
            );
        }
    }
}

/// Acceptance depends on the views of the signature and key alone.
pub proof fn lemma_accepts_by_views(
    s: LmsSignature,
    t: LmsSignature,
    message: Seq<u8>,
    k: LmsPublicKey,
    l: LmsPublicKey,
)
    requires
        t.q == s.q,
        t.lms_type == s.lms_type,
        t.lmots_signature.parameter == s.lmots_signature.parameter,
        t.lmots_signature.C@ == s.lmots_signature.C@,
        t.lmots_signature.y_view() == s.lmots_signature.y_view(),
        t.path_view() == s.path_view(),
        l.lms_type == k.lms_type,
        l.lmots_type == k.lmots_type,
        l.I@ == k.I@,
        l.root@ == k.root@,
    ensures
        t.accepts(message, l) == s.accepts(message, k),
{
    reveal(LmsSignature::accepts);
}

/// The signature that `data` encodes.
pub open spec fn decode_signature(data: Seq<u8>) -> LmsSignature {
    choose|s: LmsSignature| s.wf() && s.spec_bytes() == data
}

/// The public key that `data` encodes.
pub open spec fn decode_public_key(data: Seq<u8>) -> LmsPublicKey {
    choose|k: LmsPublicKey| k.wf() && k.spec_bytes() == data
}

/// Verifies a serialized LMS signature of `message` under a serialized
/// public key: true exactly when both parse and the signature is accepted.
pub fn verify(message: &[u8], signature: &[u8], public_key: &[u8]) -> (r: bool)
    ensures
        r == (is_lms_signature_encoding(signature@) && crate::lms::keys::is_public_key_encoding(
            public_key@,
        ) && decode_signature(signature@).accepts(message@, decode_public_key(public_key@))),
{
    let s = match LmsSignature::from_binary_representation(signature) {
        None => return false,
        Some(s) => s,
    };
    let k = match LmsPublicKey::from_binary_representation(public_key) {
        None => return false,
        Some(k) => k,
    };
    proof {
        let ds = decode_signature(signature@);
        let dk = decode_public_key(public_key@);
        assert(ds.wf() && ds.spec_bytes() == signature@);
        assert(dk.wf() && dk.spec_bytes() == public_key@);
        reveal(LmsSignature::accepts);
        lemma_lms_signature_round_trip(s, ds);
        crate::lms::keys::lemma_public_key_round_trip(k, dk);
    }
    s.verify(message, &k)
}

/// A signature made by a private key is accepted under the public key that
/// `keygen` gave with it: the signing leaf's candidate one-time key is that
/// leaf's public key, and its authentication path leads to the root.
pub proof fn lemma_sign_then_verify(
    sk: LmsPrivateKey,
    pk: LmsPublicKey,
    sig: LmsSignature,
    message: Seq<u8>,
    c: Seq<u8>,
)
    requires
        sk.wf(),
        pk.wf(),
        pk.lms_type == sk.lms_type,
        pk.lmots_type == sk.lmots_type,
        pk.I@ == sk.I@,
        pk.root@ == sk.spec_public_key_root(),
        sk.q < sk.lms_type.spec_leaves(),
        sk.signs(sig, message, c),
    ensures
        sig.accepts(message, pk),
{
    reveal(LmsSignature::accepts);
    let lm = sk.lmots_type.spec_parameter();
    let h = sk.lms_type.spec_height() as nat;
    crate::lm_ots::definitions::lemma_candidate_of_signature(
        lm,
        sk.I@,
        u32_be(sk.q),
        leaf_secrets(lm, sk.I@, sk.seed@, sk.q),
        c,
        message,
    );
    crate::lms::definitions::lemma_root_from_leaf(h, lm, sk.I@, sk.seed@, sk.q as nat);
}

fn bytes_equal(a: &[u8], b: &[u8]) -> (r: bool)
    ensures
        r == (a@ == b@),
{
    if a.len() != b.len() {
        return false;
    }
    let mut i: usize = 0;
    while i < a.len()
        invariant
            a@.len() == b@.len(),
            i <= a@.len(),
            forall|k: int| 0 <= k < i ==> a@[k] == b@[k],
        decreases a@.len() - i,
    {
        if a[i] != b[i] {
            return false;
        }
        i = i + 1;
    }
    assert(a@ =~= b@);
    true
}

} // verus!
