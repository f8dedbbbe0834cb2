use crate::hasher::{sha256_of, Sha256Hasher};
use crate::lm_ots::parameters::{with_checksum, LmotsAlgorithmParameter};
use crate::util::{coef, u16_be, u16str};
use vstd::prelude::*;

verus! {

/// Domain separator of a message digest.
pub open spec fn d_mesg() -> Seq<u8> {
    seq![0x81u8, 0x81u8]
}

/// Domain separator of an LM-OTS public key.
pub open spec fn d_pblc() -> Seq<u8> {
    seq![0x80u8, 0x80u8]
}

/// The byte strings of `s`, one after another.
pub open spec fn concat(s: Seq<Seq<u8>>) -> Seq<u8>
    decreases s.len(),
{
    if s.len() == 0 {
        Seq::empty()
    } else {
        concat(s.drop_last()) + s.last()
    }
}

/// The views of a vector of byte vectors.
pub open spec fn views(v: Seq<Vec<u8>>) -> Seq<Seq<u8>> {
    v.map_values(|b: Vec<u8>| b@)
}

/// One step `j` of Winternitz chain `i`.
pub open spec fn chain_step(id: Seq<u8>, q: Seq<u8>, i: u16, j: u8, x: Seq<u8>) -> Seq<u8> {
    sha256_of(id + q + u16_be(i) + seq![j] + x)
}

/// Chain `i` evaluated `iters` times from `x`, starting at step `start`.
pub open spec fn chain(id: Seq<u8>, q: Seq<u8>, i: u16, x: Seq<u8>, start: int, iters: int) -> Seq<
    u8,
>
    decreases iters,
{
    if iters <= 0 {
        x
    } else {
        chain(id, q, i, chain_step(id, q, i, start as u8, x), start + 1, iters - 1)
    }
}

/// Secret value `i` of the one-time key `(id, q)` derived from `seed`.
pub open spec fn ots_secret(id: Seq<u8>, q: Seq<u8>, seed: Seq<u8>, i: u16) -> Seq<u8> {
    sha256_of(id + q + u16_be(i) + seq![0xffu8] + seed)
}

/// The randomized digest `Q` of a message.
pub open spec fn message_digest(id: Seq<u8>, q: Seq<u8>, c: Seq<u8>, msg: Seq<u8>) -> Seq<u8> {
    sha256_of(id + q + d_mesg() + c + msg)
}

/// Digit `i` of the digest of `msg` followed by its checksum.
pub open spec fn message_digit(
    param: LmotsAlgorithmParameter,
    id: Seq<u8>,
    q: Seq<u8>,
    c: Seq<u8>,
    msg: Seq<u8>,
    i: int,
) -> u8 {
    coef(with_checksum(message_digest(id, q, c, msg), param.w, param.ls), i, param.w)
}

/// The chain values of an LM-OTS signature of `msg` with randomizer `c`.
pub open spec fn ots_signature_chains(
    param: LmotsAlgorithmParameter,
    id: Seq<u8>,
    q: Seq<u8>,
    key: Seq<Seq<u8>>,
    c: Seq<u8>,
    msg: Seq<u8>,
) -> Seq<Seq<u8>> {
    Seq::new(
        param.p as nat,
        |i: int| chain(id, q, i as u16, key[i], 0, message_digit(param, id, q, c, msg, i) as int),
    )
}

/// Every chain of the key run to its end.
pub open spec fn full_chains(
    param: LmotsAlgorithmParameter,
    id: Seq<u8>,
    q: Seq<u8>,
    key: Seq<Seq<u8>>,
) -> Seq<Seq<u8>> {
    Seq::new(param.p as nat, |i: int| chain(id, q, i as u16, key[i], 0, param.max_digit() as int))
}

/// The public key `K` of the one-time key with secret values `key`.
pub open spec fn ots_public_key(
    param: LmotsAlgorithmParameter,
    id: Seq<u8>,
    q: Seq<u8>,
    key: Seq<Seq<u8>>,
) -> Seq<u8> {
    sha256_of(id + q + d_pblc() + concat(full_chains(param, id, q, key)))
}

/// The chain ends that a signature `(c, y)` of `msg` completes to.
pub open spec fn candidate_chains(
    param: LmotsAlgorithmParameter,
    id: Seq<u8>,
    q: Seq<u8>,
    c: Seq<u8>,
    y: Seq<Seq<u8>>,
    msg: Seq<u8>,
) -> Seq<Seq<u8>> {
    Seq::new(
        param.p as nat,
        |i: int|
            chain(
                id,
                q,
                i as u16,
                y[i],
                message_digit(param, id, q, c, msg, i) as int,
                param.max_digit() - message_digit(param, id, q, c, msg, i),
            ),
    )
}

/// The public key that a signature `(c, y)` of `msg` points to.
pub open spec fn candidate_key(
    param: LmotsAlgorithmParameter,
    id: Seq<u8>,
    q: Seq<u8>,
    c: Seq<u8>,
    y: Seq<Seq<u8>>,
    msg: Seq<u8>,
) -> Seq<u8> {
    sha256_of(id + q + d_pblc() + concat(candidate_chains(param, id, q, c, y, msg)))
}

pub proof fn lemma_chain_split(
    id: Seq<u8>,
    q: Seq<u8>,
    i: u16,
    x: Seq<u8>,
    start: int,
    a: int,
    b: int,
)
    requires
        a >= 0,
        b >= 0,
    ensures
        chain(id, q, i, x, start, a + b) == chain(id, q, i, chain(id, q, i, x, start, a), start + a, b),
    decreases a,
{
    if a > 0 {
        lemma_chain_split(id, q, i, chain_step(id, q, i, start as u8, x), start + 1, a - 1, b);
    }
}

/// Completing each chain of a signature from the digit where it stopped gives
/// the full chains of the key: the candidate of an honest signature is the
/// one-time public key.
pub proof fn lemma_candidate_of_signature(
    param: LmotsAlgorithmParameter,
    id: Seq<u8>,
    q: Seq<u8>,
    key: Seq<Seq<u8>>,
    c: Seq<u8>,
    msg: Seq<u8>,
)
    requires
        param.wf(),
    ensures
        candidate_key(param, id, q, c, ots_signature_chains(param, id, q, key, c, msg), msg)
            == ots_public_key(param, id, q, key),
{
    let y = ots_signature_chains(param, id, q, key, c, msg);
    let m = param.max_digit() as int;
    let lhs = candidate_chains(param, id, q, c, y, msg);
    let rhs = full_chains(param, id, q, key);
    assert forall|i: int| 0 <= i < param.p implies lhs[i] == rhs[i] by {
        let a = message_digit(param, id, q, c, msg, i) as int;
        assert(a <= m) by {
            let qc = with_checksum(message_digest(id, q, c, msg), param.w, param.ls);
            let byte = qc[i * param.w / 8];
            let sh = crate::util::coef_shift(i, param.w);
            let mx = crate::util::digit_max(param.w);
            assert(mx & (byte >> sh) <= mx) by (bit_vector);
        }
        lemma_chain_split(id, q, i as u16, key[i], 0, a, m - a);
    }
    assert(lhs =~= rhs);
}

/// The private part of one LM-OTS key pair: the `p` secret chain starts.
pub struct LmotsPrivateKey {
    pub parameter: LmotsAlgorithmParameter,
    pub I: Vec<u8>,
    pub q: Vec<u8>,
    pub key: Vec<Vec<u8>>,
}

impl LmotsPrivateKey {
    pub open spec fn key_view(&self) -> Seq<Seq<u8>> {
        views(self.key@)
    }

    pub open spec fn wf(&self) -> bool {
        &&& self.parameter.wf()
        &&& self.I@.len() == 16
        &&& self.q@.len() == 4
        &&& self.key@.len() == self.parameter.p
        &&& forall|i: int| 0 <= i < self.key@.len() ==> (#[trigger] self.key@[i])@.len() == self.parameter.n
    }

    /// Derives the secret values of key `(I, q)` from `seed`.
    pub fn new(parameter: LmotsAlgorithmParameter, I: &[u8], q: &[u8], seed: &[u8]) -> (r: Self)
        requires
            parameter.wf(),
            I@.len() == 16,
            q@.len() == 4,
        ensures
            r.wf(),
            r.parameter == parameter,
            r.I@ == I@,
            r.q@ == q@,
            r.key_view() == Seq::new(
                parameter.p as nat,
                |i: int| ots_secret(I@, q@, seed@, i as u16),
            ),
    {
        let mut key: Vec<Vec<u8>> = Vec::new();
        let mut i: u16 = 0;
        while i < parameter.p
            invariant
                parameter.wf(),
                i <= parameter.p,
                key@.len() == i,
                forall|k: int| 0 <= k < i ==> #[trigger] key@[k]@ == ots_secret(I@, q@, seed@, k as u16),
                forall|k: int| 0 <= k < i ==> (#[trigger] key@[k])@.len() == 32,
            decreases parameter.p - i,
        {
            let mut h = Sha256Hasher::new();
            h.update(I);
            h.update(q);
            let ib = u16str(i);
            h.update(ib.as_slice());
            let ff: Vec<u8> = vec![0xffu8];
            h.update(ff.as_slice());
            h.update(seed);
            assert(ff@ =~= seq![0xffu8]);
            key.push(h.finalize());
            i = i + 1;
        }
        let mut iv: Vec<u8> = Vec::new();
        crate::util::extend(&mut iv, I);
        let mut qv: Vec<u8> = Vec::new();
        crate::util::extend(&mut qv, q);
        let r = LmotsPrivateKey { parameter, I: iv, q: qv, key };
        assert(r.key_view() =~= Seq::new(
            parameter.p as nat,
            |i: int| ots_secret(I@, q@, seed@, i as u16),
        ));
        r
    }
}

impl LmotsPrivateKey {
    /// The one-time public key `K`: the hash of every chain run to its end.
    pub fn public_key(&self) -> (r: Vec<u8>)
        requires
            self.wf(),
        ensures
            r@ == ots_public_key(self.parameter, self.I@, self.q@, self.key_view()),
            r@.len() == 32,
    {
        let param = self.parameter;
        let max = param.max_digit_exec();
        let ghost z = full_chains(param, self.I@, self.q@, self.key_view());
        let mut out = Sha256Hasher::new();
        out.update(self.I.as_slice());
        out.update(self.q.as_slice());
        let dp: Vec<u8> = vec![0x80u8, 0x80u8];
        assert(dp@ =~= d_pblc());
        out.update(dp.as_slice());
        let ghost prefix = self.I@ + self.q@ + d_pblc();
        let mut i: u16 = 0;
        while i < param.p
            invariant
                self.wf(),
                param == self.parameter,
                max == param.max_digit(),
                i <= param.p,
                z == full_chains(param, self.I@, self.q@, self.key_view()),
                out@ == prefix + concat(z.subrange(0, i as int)),
            decreases param.p - i,
        {
            let x = self.key[i as usize].clone();
            assert(x@ == self.key_view()[i as int]);
            let tmp = chain_exec(self.I.as_slice(), self.q.as_slice(), i, x, 0, max);
            assert(tmp@ == z[i as int]);
            let ghost before = concat(z.subrange(0, i as int));
            out.update(tmp.as_slice());
            i = i + 1;
            assert(z.subrange(0, i as int).drop_last() =~= z.subrange(0, i - 1));
            assert(concat(z.subrange(0, i as int)) == before + tmp@);
            assert(out@ =~= prefix + concat(z.subrange(0, i as int)));
        }
        assert(z.subrange(0, param.p as int) =~= z);
        out.finalize()
    }
}

/// Evaluates chain `i` `iters` times from `x`, starting at step `start`.
pub fn chain_exec(I: &[u8], q: &[u8], i: u16, x: Vec<u8>, start: u8, iters: u8) -> (r: Vec<u8>)
    requires
        start + iters <= 255,
    ensures
        r@ == chain(I@, q@, i, x@, start as int, iters as int),
        x@.len() == 32 ==> r@.len() == 32,
{
    let end: u8 = start + iters;
    let mut tmp = x;
    let mut j: u8 = start;
    let ib = u16str(i);
    while j < end
        invariant
            start <= j <= end,
            ib@ == u16_be(i),
            x@.len() == 32 ==> tmp@.len() == 32,
            chain(I@, q@, i, x@, start as int, iters as int) == chain(
                I@,
                q@,
                i,
                tmp@,
                j as int,
                end - j,
            ),
        decreases end - j,
    {
        let mut h = Sha256Hasher::new();
        h.update(I);
        h.update(q);
        h.update(ib.as_slice());
        let jb: Vec<u8> = vec![j];
        assert(jb@ =~= seq![j]);
        h.update(jb.as_slice());
        h.update(tmp.as_slice());
        tmp = h.finalize();
        j = j + 1;
    }
    tmp
}

} // verus!
