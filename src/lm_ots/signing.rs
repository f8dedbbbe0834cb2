use crate::hasher::{random_bytes, Sha256Hasher};
use crate::lm_ots::definitions::{
    candidate_chains, candidate_key, chain_exec, concat, d_mesg, d_pblc, message_digest, message_digit,
    ots_signature_chains, views, LmotsPrivateKey,
};
use crate::lm_ots::parameters::{with_checksum, LmotsAlgorithmParameter, LmotsAlgorithmType};
use crate::util::{be_u32, coef_of, extend, extend_range, str32u, u32_be, u32str};
use vstd::prelude::*;

verus! {

/// An LM-OTS signature: the profile, the randomizer `C` and the `p` chain values `y`.
pub struct LmotsSignature {
    pub parameter: LmotsAlgorithmParameter,
    pub C: Vec<u8>,
    pub y: Vec<Vec<u8>>,
}

/// The `k`-th `n`-byte block of `d`.
pub open spec fn block(d: Seq<u8>, n: int, k: int) -> Seq<u8> {
    d.subrange(k * n, (k + 1) * n)
}

/// `data` has the shape of a serialized LM-OTS signature: a known type code and
/// the length that the profile gives.
pub open spec fn is_signature_encoding(data: Seq<u8>) -> bool {
    &&& data.len() >= 4
    &&& LmotsAlgorithmType::spec_from_u32(be_u32(data)) matches Some(t)
    &&& data.len() == t.spec_parameter().signature_len()
}

/// The profile whose type code opens `data`.
pub open spec fn encoded_parameter(data: Seq<u8>) -> LmotsAlgorithmParameter {
    LmotsAlgorithmType::spec_from_u32(be_u32(data))->Some_0.spec_parameter()
}

pub proof fn lemma_concat_blocks(y: Seq<Seq<u8>>, n: int)
    requires
        n >= 0,
        forall|i: int| 0 <= i < y.len() ==> (#[trigger] y[i]).len() == n,
    ensures
        concat(y).len() == y.len() * n,
        forall|i: int| 0 <= i < y.len() ==> #[trigger] block(concat(y), n, i) == y[i],
    decreases y.len(),
{
    if y.len() > 0 {
        let init = y.drop_last();
        lemma_concat_blocks(init, n);
        let k = y.len() - 1;
        assert(concat(y) == concat(init) + y.last());
        assert(k * n + n == y.len() * n) by (nonlinear_arith)
            requires
                k == y.len() - 1,
        ;
        assert forall|i: int| 0 <= i < y.len() implies #[trigger] block(concat(y), n, i) == y[i] by {
            assert((i + 1) * n == i * n + n) by (nonlinear_arith);
            if i < k {
                assert((i + 1) * n <= k * n) by (nonlinear_arith)
                    requires
                        i < k,
                        n >= 0,
                ;
                assert(block(concat(init), n, i) == init[i]);
                assert(block(concat(y), n, i) =~= block(concat(init), n, i));
            } else {
                assert(block(concat(y), n, i) =~= y.last());
            }
        }
    }
}

/// Byte strings of equal length are equal when their blocks are.
pub proof fn lemma_blocks_determine(a: Seq<u8>, b: Seq<u8>, n: int, count: int)
    requires
        n > 0,
        count >= 0,
        a.len() == count * n,
        b.len() == count * n,
        forall|i: int| 0 <= i < count ==> #[trigger] block(a, n, i) == block(b, n, i),
    ensures
        a == b,
{
    assert forall|k: int| 0 <= k < a.len() implies a[k] == b[k] by {
        let i = k / n;
        let j = k % n;
        assert(k == i * n + j && 0 <= j < n) by (nonlinear_arith)
            requires
                n > 0,
                k >= 0,
                i == k / n,
                j == k % n,
        ;
        assert(0 <= i < count && (i + 1) * n <= count * n) by (nonlinear_arith)
            requires
                n > 0,
                0 <= k < count * n,
                k == i * n + j,
                0 <= j < n,
        ;
        assert((i + 1) * n == i * n + n) by (nonlinear_arith);
        assert(block(a, n, i)[j] == a[k]);
        assert(block(b, n, i)[j] == b[k]);
    }
    assert(a =~= b);
}

/// Serialization round trip: the bytes of a well-formed signature parse, and
/// any well-formed signature with the same bytes (which is what parsing returns)
/// has the same profile, randomizer and chain values.
pub proof fn lemma_signature_round_trip(s: LmotsSignature, t: LmotsSignature)
    requires
        s.wf(),
        t.wf(),
        t.spec_bytes() == s.spec_bytes(),
    ensures
        is_signature_encoding(s.spec_bytes()),
        t.parameter == s.parameter,
        t.C@ == s.C@,
        t.y_view() == s.y_view(),
{
    let b = s.spec_bytes();
    let n = s.parameter.n as int;
    crate::util::lemma_be_u32_of_u32_be(s.parameter._type.spec_code());
    crate::util::lemma_be_u32_of_u32_be(t.parameter._type.spec_code());
    assert(b.subrange(0, 4) =~= u32_be(s.parameter._type.spec_code()));
    assert(t.spec_bytes().subrange(0, 4) =~= u32_be(t.parameter._type.spec_code()));
    assert(be_u32(b) == be_u32(b.subrange(0, 4)));
    assert(t.parameter._type.spec_code() == s.parameter._type.spec_code());
    assert(t.parameter == s.parameter);
    assert forall|i: int| 0 <= i < s.y_view().len() implies (#[trigger] s.y_view()[i]).len() == n by {
        assert(s.y@[i]@.len() == n);
    }
    assert forall|i: int| 0 <= i < t.y_view().len() implies (#[trigger] t.y_view()[i]).len() == n by {
        assert(t.y@[i]@.len() == n);
    }
    lemma_concat_blocks(s.y_view(), n);
    lemma_concat_blocks(t.y_view(), n);
    assert(b.subrange(4, 4 + n) =~= s.C@);
    assert(t.spec_bytes().subrange(4, 4 + n) =~= t.C@);
    assert(b.subrange(4 + n, b.len() as int) =~= concat(s.y_view()));
    assert(t.spec_bytes().subrange(4 + n, b.len() as int) =~= concat(t.y_view()));
    assert forall|i: int| 0 <= i < s.y_view().len() implies t.y_view()[i] == s.y_view()[i] by {
        assert(block(concat(s.y_view()), n, i) == s.y_view()[i]);
        assert(block(concat(t.y_view()), n, i) == t.y_view()[i]);
    }
    assert(t.y_view() =~= s.y_view());
}

/// Signing is deterministic but for the randomizer: two signatures that the
/// signing contract allows for the same key, message and `C` are the same.
pub proof fn lemma_sign_deterministic(
    a: LmotsSignature,
    b: LmotsSignature,
    key: LmotsPrivateKey,
    message: Seq<u8>,
    c: Seq<u8>,
)
    requires
        a.parameter == key.parameter,
        b.parameter == key.parameter,
        a.C@ == c,
        b.C@ == c,
        a.y_view() == ots_signature_chains(key.parameter, key.I@, key.q@, key.key_view(), c, message),
        b.y_view() == ots_signature_chains(key.parameter, key.I@, key.q@, key.key_view(), c, message),
    ensures
        a.spec_bytes() == b.spec_bytes(),
        a.y_view() == b.y_view(),
{
}

pub proof fn lemma_signature_bytes_len(s: LmotsSignature)
    requires
        s.wf(),
    ensures
        s.spec_bytes().len() == s.parameter.signature_len(),
{
    let n = s.parameter.n as int;
    assert forall|i: int| 0 <= i < s.y_view().len() implies (#[trigger] s.y_view()[i]).len() == n by {
        assert(s.y@[i]@.len() == n);
    }
    lemma_concat_blocks(s.y_view(), n);
    assert(s.y_view().len() * n == s.parameter.p * n);
}

impl LmotsSignature {
    pub open spec fn y_view(&self) -> Seq<Seq<u8>> {
        views(self.y@)
    }

    pub open spec fn wf(&self) -> bool {
        &&& self.parameter.wf()
        &&& self.C@.len() == self.parameter.n
        &&& self.y@.len() == self.parameter.p
        &&& forall|i: int| 0 <= i < self.y@.len() ==> (#[trigger] self.y@[i])@.len() == self.parameter.n
    }

    /// The serialized form: type code, `C`, then `y[0]` to `y[p-1]`.
    pub open spec fn spec_bytes(&self) -> Seq<u8> {
        u32_be(self.parameter._type.spec_code()) + self.C@ + concat(self.y_view())
    }

    /// A copy of the signature.
    pub fn duplicate(&self) -> (r: Self)
        ensures
            r.parameter == self.parameter,
            r.C@ == self.C@,
            r.y_view() == self.y_view(),
            self.wf() ==> r.wf(),
    {
        let mut C: Vec<u8> = Vec::new();
        extend(&mut C, self.C.as_slice());
        LmotsSignature { parameter: self.parameter, C, y: copy_chains(&self.y) }
    }

    /// Signs `message` with the one-time key, with `C` as randomizer.
    pub fn sign_with_randomizer(private_key: &LmotsPrivateKey, message: &[u8], C: Vec<u8>) -> (r:
        Self)
        requires
            private_key.wf(),
            C@.len() == private_key.parameter.n,
        ensures
            r.wf(),
            r.parameter == private_key.parameter,
            r.C@ == C@,
            r.y_view() == ots_signature_chains(
                private_key.parameter,
                private_key.I@,
                private_key.q@,
                private_key.key_view(),
                C@,
                message@,
            ),
    {
        let param = private_key.parameter;
        let mut hasher = Sha256Hasher::new();
        hasher.update(private_key.I.as_slice());
        hasher.update(private_key.q.as_slice());
        let dm: Vec<u8> = vec![0x81u8, 0x81u8];
        assert(dm@ =~= d_mesg());
        hasher.update(dm.as_slice());
        hasher.update(C.as_slice());
        hasher.update(message);
        let Q = hasher.finalize();
        let qc = param.get_appended_with_checksum(Q.as_slice());
        let ghost spec_y = ots_signature_chains(
            param,
            private_key.I@,
            private_key.q@,
            private_key.key_view(),
            C@,
            message@,
        );
        let mut y: Vec<Vec<u8>> = Vec::new();
        let mut i: u16 = 0;
        while i < param.p
            invariant
                private_key.wf(),
                param == private_key.parameter,
                forall|k: int|
                    0 <= k < private_key.key@.len() ==> (#[trigger] private_key.key@[k])@.len()
                        == param.n,
                qc@ == with_checksum(
                    message_digest(private_key.I@, private_key.q@, C@, message@),
                    param.w,
                    param.ls,
                ),
                qc@.len() == param.n + 2,
                spec_y == ots_signature_chains(
                    param,
                    private_key.I@,
                    private_key.q@,
                    private_key.key_view(),
                    C@,
                    message@,
                ),
                i <= param.p,
                y@.len() == i,
                forall|k: int| 0 <= k < i ==> (#[trigger] y@[k])@ == spec_y[k],
                forall|k: int| 0 <= k < i ==> (#[trigger] y@[k])@.len() == param.n,
            decreases param.p - i,
        {
            proof {
                param.lemma_digit_in_range(i as int);
            }
            let a = coef_of(qc.as_slice(), i as usize, param.w);
            let x = private_key.key[i as usize].clone();
            assert(x@ == private_key.key_view()[i as int]);
            let tmp = chain_exec(private_key.I.as_slice(), private_key.q.as_slice(), i, x, 0, a);
            y.push(tmp);
            i = i + 1;
        }
        let r = LmotsSignature { parameter: param, C, y };
        assert(r.y_view() =~= spec_y);
        r
    }

    /// Signs `message` with the one-time key under a fresh random `C`.
    pub fn sign(private_key: &LmotsPrivateKey, message: &[u8]) -> (r: Self)
        requires
            private_key.wf(),
        ensures
            r.wf(),
            r.parameter == private_key.parameter,
            r.y_view() == ots_signature_chains(
                private_key.parameter,
                private_key.I@,
                private_key.q@,
                private_key.key_view(),
                r.C@,
                message@,
            ),
    {
        let C = random_bytes(private_key.parameter.n as usize);
        Self::sign_with_randomizer(private_key, message, C)
    }

    pub fn to_binary_representation(&self) -> (r: Vec<u8>)
        ensures
            r@ == self.spec_bytes(),
    {
        let mut result = u32str(self.parameter._type.code());
        extend(&mut result, self.C.as_slice());
        let mut i: usize = 0;
        while i < self.y.len()
            invariant
                0 <= i <= self.y@.len(),
                result@ == u32_be(self.parameter._type.spec_code()) + self.C@ + concat(
                    self.y_view().subrange(0, i as int),
                ),
            decreases self.y@.len() - i,
        {
            extend(&mut result, self.y[i].as_slice());
            i = i + 1;
            assert(self.y_view().subrange(0, i as int).drop_last() =~= self.y_view().subrange(
                0,
                i - 1,
            ));
        }
        assert(self.y_view().subrange(0, self.y@.len() as int) =~= self.y_view());
        result
    }

    /// Parses a serialized signature; `None` when the type code is unknown or
    /// the length is not the one that the profile gives.
    pub fn from_binary_representation(data: &[u8]) -> (r: Option<Self>)
        ensures
            r is Some <==> is_signature_encoding(data@),
            r matches Some(s) ==> s.wf() && s.spec_bytes() == data@ && s.parameter
                == encoded_parameter(data@),
    {
        if data.len() < 4 {
            return None;
        }
        let code = str32u(data);
        let lm_ots_type = match LmotsAlgorithmType::from_u32(code) {
            None => return None,
            Some(x) => x,
        };
        let param = lm_ots_type.get_parameter();
        let n: usize = param.n as usize;
        let p: usize = param.p as usize;
        if data.len() != 4 + n * (p + 1) {
            return None;
        }
        let mut C: Vec<u8> = Vec::new();
        extend_range(&mut C, data, 4, 4 + n);
        let ghost body = data@.subrange(4 + n, data@.len() as int);
        let mut y: Vec<Vec<u8>> = Vec::new();
        let mut i: usize = 0;
        while i < p
            invariant
                n == 32,
                p == param.p,
                data@.len() == 4 + n * (p + 1),
                body == data@.subrange(4 + n, data@.len() as int),
                i <= p,
                y@.len() == i,
                forall|k: int| 0 <= k < i ==> (#[trigger] y@[k])@ == block(body, n as int, k),
            decreases p - i,
        {
            let start: usize = 4 + n + i * n;
            let mut temp: Vec<u8> = Vec::new();
            extend_range(&mut temp, data, start, start + n);
            assert(temp@ =~= block(body, n as int, i as int));
            y.push(temp);
            i = i + 1;
        }
        let s = LmotsSignature { parameter: param, C, y };
        proof {
            assert(s.y_view().len() == p);
            assert forall|k: int| 0 <= k < p implies (#[trigger] s.y@[k])@.len() == n by {}
            lemma_concat_blocks(s.y_view(), n as int);
            assert forall|k: int| 0 <= k < p implies #[trigger] block(concat(s.y_view()), n as int, k)
                == block(body, n as int, k) by {}
            lemma_blocks_determine(concat(s.y_view()), body, n as int, p as int);
            crate::util::lemma_u32_be_of_be_u32(data@.subrange(0, 4));
            assert(be_u32(data@.subrange(0, 4)) == be_u32(data@));
            assert(s.spec_bytes() =~= data@);
        }
        Some(s)
    }

    /// The LM-OTS public key that this signature of `message` under key
    /// `(I, q)` points to.
    pub fn candidate_public_key(&self, I: &[u8], q: &[u8], message: &[u8]) -> (r: Vec<u8>)
        requires
            self.wf(),
        ensures
            r@ == candidate_key(self.parameter, I@, q@, self.C@, self.y_view(), message@),
            r@.len() == 32,
    {
        let param = self.parameter;
        let mut hasher = Sha256Hasher::new();
        hasher.update(I);
        hasher.update(q);
        let dm: Vec<u8> = vec![0x81u8, 0x81u8];
        assert(dm@ =~= d_mesg());
        hasher.update(dm.as_slice());
        hasher.update(self.C.as_slice());
        hasher.update(message);
        let Q = hasher.finalize();
        let qc = param.get_appended_with_checksum(Q.as_slice());
        let max = param.max_digit_exec();
        let ghost z = candidate_chains(param, I@, q@, self.C@, self.y_view(), message@);
        let mut out = Sha256Hasher::new();
        out.update(I);
        out.update(q);
        let dp: Vec<u8> = vec![0x80u8, 0x80u8];
        assert(dp@ =~= d_pblc());
        out.update(dp.as_slice());
        let ghost prefix = I@ + q@ + d_pblc();
        let mut i: u16 = 0;
        while i < param.p
            invariant
                self.wf(),
                param == self.parameter,
                max == param.max_digit(),
                qc@ == with_checksum(message_digest(I@, q@, self.C@, message@), param.w, param.ls),
                qc@.len() == param.n + 2,
                i <= param.p,
                out@ == prefix + concat(z.subrange(0, i as int)),
                z == candidate_chains(param, I@, q@, self.C@, self.y_view(), message@),
                z.len() == param.p,
            decreases param.p - i,
        {
            proof {
                param.lemma_digit_in_range(i as int);
            }
            let a = coef_of(qc.as_slice(), i as usize, param.w);
            let yi = self.y[i as usize].clone();
            assert(yi@ == self.y_view()[i as int]);
            let tmp = chain_exec(I, q, i, yi, a, max - a);
            assert(a == message_digit(param, I@, q@, self.C@, message@, i as int));
            assert(tmp@ == crate::lm_ots::definitions::chain(
                I@,
                q@,
                i,
                self.y_view()[i as int],
                a as int,
                param.max_digit() - a,
            ));
            assert(tmp@ == z[i as int]);
            let ghost before = concat(z.subrange(0, i as int));
            out.update(tmp.as_slice());
            i = i + 1;
            assert(z.subrange(0, i as int).drop_last() =~= z.subrange(0, i - 1));
            assert(concat(z.subrange(0, i as int)) == before + tmp@);
            assert(out@ =~= prefix + concat(z.subrange(0, i as int)));
        }
        assert(z.subrange(0, param.p as int) =~= z);
        out.finalize()
    }
}

impl PartialEq for LmotsSignature {
    fn eq(&self, other: &LmotsSignature) -> (r: bool)
        ensures
            r == (self.parameter == other.parameter && self.C@ == other.C@ && self.y_view()
                == other.y_view()),
    {
        self.parameter == other.parameter && bytes_eq(&self.C, &other.C) && chains_eq(
            &self.y,
            &other.y,
        )
    }
}

impl vstd::std_specs::cmp::PartialEqSpecImpl for LmotsSignature {
    open spec fn obeys_eq_spec() -> bool {
        true
    }

    open spec fn eq_spec(&self, other: &LmotsSignature) -> bool {
        self.parameter == other.parameter && self.C@ == other.C@ && self.y_view()
            == other.y_view()
    }
}

/// A copy of a vector of byte strings.
pub fn copy_chains(v: &Vec<Vec<u8>>) -> (r: Vec<Vec<u8>>)
    ensures
        views(r@) == views(v@),
        r@.len() == v@.len(),
        forall|k: int| 0 <= k < v@.len() ==> (#[trigger] r@[k])@ == v@[k]@,
{
    let mut r: Vec<Vec<u8>> = Vec::new();
    let mut i: usize = 0;
    while i < v.len()
        invariant
            i <= v@.len(),
            r@.len() == i,
            forall|k: int| 0 <= k < i ==> (#[trigger] r@[k])@ == v@[k]@,
        decreases v@.len() - i,
    {
        let mut b: Vec<u8> = Vec::new();
        extend(&mut b, v[i].as_slice());
        r.push(b);
        i = i + 1;
    }
    assert(views(r@) =~= views(v@));
    r
}

fn bytes_eq(a: &Vec<u8>, b: &Vec<u8>) -> (r: bool)
    ensures
        r == (a@ == b@),
{
    if a.len() != b.len() {
        return false;
    }
    let mut i: usize = 0;
    while i < a.len()
        invariant
            a@.len() == b@.len(),
            i <= a@.len(),
            forall|k: int| 0 <= k < i ==> a@[k] == b@[k],
        decreases a@.len() - i,
    {
        if a[i] != b[i] {
            return false;
        }
        i = i + 1;
    }
    assert(a@ =~= b@);
    true
}

fn chains_eq(a: &Vec<Vec<u8>>, b: &Vec<Vec<u8>>) -> (r: bool)
    ensures
        r == (views(a@) == views(b@)),
{
    if a.len() != b.len() {
        assert(views(a@).len() != views(b@).len());
        return false;
    }
    let mut i: usize = 0;
    while i < a.len()
        invariant
            a@.len() == b@.len(),
            i <= a@.len(),
            forall|k: int| 0 <= k < i ==> views(a@)[k] == views(b@)[k],
        decreases a@.len() - i,
    {
        if !bytes_eq(&a[i], &b[i]) {
            assert(views(a@)[i as int] != views(b@)[i as int]);
            return false;
        }
        i = i + 1;
    }
    assert(views(a@) =~= views(b@));
    true
}

} // verus!
