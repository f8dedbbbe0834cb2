use crate::hasher::{sha256_of, Sha256Hasher};
use crate::lm_ots::definitions::{ots_public_key, ots_secret, views, LmotsPrivateKey};
use crate::lm_ots::parameters::LmotsAlgorithmParameter;
use crate::util::{u32_be, u32str};
use vstd::arithmetic::div_mod::lemma_div_denominator;
use vstd::arithmetic::power2::{
    lemma2_to64, lemma_pow2_pos, lemma_pow2_strictly_increases, lemma_pow2_unfold, pow2,
};
use vstd::prelude::*;

verus! {

/// Domain separator of a leaf hash.
pub open spec fn d_leaf() -> Seq<u8> {
    seq![0x82u8, 0x82u8]
}

/// Domain separator of an interior node hash.
pub open spec fn d_intr() -> Seq<u8> {
    seq![0x83u8, 0x83u8]
}

/// Secret values of the one-time key at leaf `q`.
pub open spec fn leaf_secrets(lm: LmotsAlgorithmParameter, id: Seq<u8>, seed: Seq<u8>, q: u32) -> Seq<
    Seq<u8>,
> {
    Seq::new(lm.p as nat, |i: int| ots_secret(id, u32_be(q), seed, i as u16))
}

/// The one-time public key at leaf `q`.
pub open spec fn leaf_key(lm: LmotsAlgorithmParameter, id: Seq<u8>, seed: Seq<u8>, q: u32) -> Seq<
    u8,
> {
    ots_public_key(lm, id, u32_be(q), leaf_secrets(lm, id, seed, q))
}

/// The node number of the `j`-th node at level `l` above the leaves of a tree of height `h`.
pub open spec fn node_number(h: nat, l: nat, j: nat) -> u32 {
    (pow2((h - l) as nat) + j) as u32
}

pub open spec fn leaf_hash(id: Seq<u8>, r: u32, k: Seq<u8>) -> Seq<u8> {
    sha256_of(id + u32_be(r) + d_leaf() + k)
}

pub open spec fn interior_hash(id: Seq<u8>, r: u32, left: Seq<u8>, right: Seq<u8>) -> Seq<u8> {
    sha256_of(id + u32_be(r) + d_intr() + left + right)
}

/// The value `T` of the `j`-th node at level `l` of the tree of height `h`.
pub open spec fn tree_node(
    h: nat,
    lm: LmotsAlgorithmParameter,
    id: Seq<u8>,
    seed: Seq<u8>,
    l: nat,
    j: nat,
) -> Seq<u8>
    decreases l,
{
    if l == 0 {
        leaf_hash(id, node_number(h, 0, j), leaf_key(lm, id, seed, j as u32))
    } else {
        interior_hash(
            id,
            node_number(h, l, j),
            tree_node(h, lm, id, seed, (l - 1) as nat, 2 * j),
            tree_node(h, lm, id, seed, (l - 1) as nat, 2 * j + 1),
        )
    }
}

/// The root `T[1]` of the tree.
pub open spec fn tree_root(h: nat, lm: LmotsAlgorithmParameter, id: Seq<u8>, seed: Seq<u8>) -> Seq<
    u8,
> {
    tree_node(h, lm, id, seed, h, 0)
}

pub open spec fn sibling(j: nat) -> nat {
    if j % 2 == 0 {
        j + 1
    } else {
        (j - 1) as nat
    }
}

/// The authentication path of leaf `q`: at each level, the sibling of the
/// node on the way to the root.
pub open spec fn auth_path(
    h: nat,
    lm: LmotsAlgorithmParameter,
    id: Seq<u8>,
    seed: Seq<u8>,
    q: nat,
) -> Seq<Seq<u8>> {
    Seq::new(h, |l: int| tree_node(h, lm, id, seed, l as nat, sibling(q / pow2(l as nat))))
}

/// Climbs `steps` levels from node `j` at level `l` with value `tc`, joining
/// it with the path's sibling at each level.
pub open spec fn climb(
    h: nat,
    id: Seq<u8>,
    j: nat,
    tc: Seq<u8>,
    path: Seq<Seq<u8>>,
    l: nat,
    steps: nat,
) -> Seq<u8>
    decreases steps,
{
    if steps == 0 {
        tc
    } else {
        let parent = node_number(h, l + 1, j / 2);
        let next = if j % 2 == 0 {
            interior_hash(id, parent, tc, path[l as int])
        } else {
            interior_hash(id, parent, path[l as int], tc)
        };
        climb(h, id, j / 2, next, path, l + 1, (steps - 1) as nat)
    }
}

/// The root that a leaf's one-time public key `k` and path lead to.
pub open spec fn root_from_leaf(h: nat, id: Seq<u8>, q: nat, k: Seq<u8>, path: Seq<Seq<u8>>) -> Seq<
    u8,
> {
    climb(h, id, q, leaf_hash(id, node_number(h, 0, q), k), path, 0, h)
}

pub proof fn lemma_div_pow2_step(q: nat, l: nat)
    ensures
        (q / pow2(l)) / 2 == q / pow2(l + 1),
{
    lemma_pow2_pos(l);
    lemma_pow2_unfold(l + 1);
    lemma_div_denominator(q as int, pow2(l) as int, 2);
    assert(pow2(l) * 2 == pow2(l + 1));
}

/// From any level, climbing with the authentication path reaches the root.
pub proof fn lemma_climb_auth_path(
    h: nat,
    lm: LmotsAlgorithmParameter,
    id: Seq<u8>,
    seed: Seq<u8>,
    q: nat,
    l: nat,
)
    requires
        l <= h,
        q < pow2(h),
    ensures
        climb(
            h,
            id,
            q / pow2(l),
            tree_node(h, lm, id, seed, l, q / pow2(l)),
            auth_path(h, lm, id, seed, q),
            l,
            (h - l) as nat,
        ) == tree_root(h, lm, id, seed),
    decreases h - l,
{
    lemma_pow2_pos(l);
    if l == h {
        assert(q / pow2(h) == 0) by (nonlinear_arith)
            requires
                q < pow2(h),
                pow2(h) > 0,
        ;
    } else {
        let j = q / pow2(l);
        lemma_div_pow2_step(q, l);
        lemma_climb_auth_path(h, lm, id, seed, q, l + 1);
        let path = auth_path(h, lm, id, seed, q);
        assert(path[l as int] == tree_node(h, lm, id, seed, l, sibling(j)));
        if j % 2 == 0 {
            assert(2 * (j / 2) == j);
        } else {
            assert(2 * (j / 2) + 1 == j);
        }
    }
}

/// With the true path, the leaf's one-time public key leads to the tree root.
pub proof fn lemma_root_from_leaf(
    h: nat,
    lm: LmotsAlgorithmParameter,
    id: Seq<u8>,
    seed: Seq<u8>,
    q: nat,
)
    requires
        q < pow2(h),
    ensures
        root_from_leaf(h, id, q, leaf_key(lm, id, seed, q as u32), auth_path(h, lm, id, seed, q))
            == tree_root(h, lm, id, seed),
{
    lemma_climb_auth_path(h, lm, id, seed, q, 0);
    assert(pow2(0) == 1) by {
        lemma2_to64();
    }
}

/// The one-time public key at leaf `q`.
pub fn leaf_public_key(lm: LmotsAlgorithmParameter, I: &[u8], seed: &[u8], q: u32) -> (r: Vec<u8>)
    requires
        lm.wf(),
        I@.len() == 16,
    ensures
        r@ == leaf_key(lm, I@, seed@, q),
        r@.len() == 32,
{
    let qb = u32str(q);
    let key = LmotsPrivateKey::new(lm, I, qb.as_slice(), seed);
    assert(key.key_view() == leaf_secrets(lm, I@, seed@, q));
    key.public_key()
}

pub(crate) fn hash_leaf(I: &[u8], r: u32, k: &[u8]) -> (out: Vec<u8>)
    ensures
        out@ == leaf_hash(I@, r, k@),
        out@.len() == 32,
{
    let mut h = Sha256Hasher::new();
    h.update(I);
    let rb = u32str(r);
    h.update(rb.as_slice());
    let d: Vec<u8> = vec![0x82u8, 0x82u8];
    assert(d@ =~= d_leaf());
    h.update(d.as_slice());
    h.update(k);
    h.finalize()
}

pub(crate) fn hash_interior(I: &[u8], r: u32, left: &[u8], right: &[u8]) -> (out: Vec<u8>)
    ensures
        out@ == interior_hash(I@, r, left@, right@),
        out@.len() == 32,
{
    let mut h = Sha256Hasher::new();
    h.update(I);
    let rb = u32str(r);
    h.update(rb.as_slice());
    let d: Vec<u8> = vec![0x83u8, 0x83u8];
    assert(d@ =~= d_intr());
    h.update(d.as_slice());
    h.update(left);
    h.update(right);
    h.finalize()
}

/// Builds the tree of height `h` and returns its root and the authentication
/// path of leaf `q`.
pub fn compute_root_and_path(
    h: u8,
    lm: LmotsAlgorithmParameter,
    I: &[u8],
    seed: &[u8],
    q: u32,
) -> (r: (Vec<u8>, Vec<Vec<u8>>))
    requires
        1 <= h <= 25,
        lm.wf(),
        I@.len() == 16,
        q < pow2(h as nat),
    ensures
        r.0@ == tree_root(h as nat, lm, I@, seed@),
        r.0@.len() == 32,
        views(r.1@) == auth_path(h as nat, lm, I@, seed@, q as nat),
        forall|i: int| 0 <= i < r.1@.len() ==> (#[trigger] r.1@[i])@.len() == 32,
{
    let ghost hn = h as nat;
    proof {
        lemma2_to64();
        if h < 25 {
            lemma_pow2_strictly_increases(h as nat, 25);
        }
    }
    let leaves: u32 = pow2_u32(h);
    let mut level: Vec<Vec<u8>> = Vec::new();
    let mut j: u32 = 0;
    while j < leaves
        invariant
            leaves == pow2(hn),
            leaves <= 33554432,
            lm.wf(),
            I@.len() == 16,
            j <= leaves,
            level@.len() == j,
            forall|k: int| 0 <= k < j ==> (#[trigger] level@[k])@ == tree_node(hn, lm, I@, seed@, 0, k as nat),
            forall|k: int| 0 <= k < j ==> (#[trigger] level@[k])@.len() == 32,
        decreases leaves - j,
    {
        let k = leaf_public_key(lm, I, seed, j);
        let t = hash_leaf(I, leaves + j, k.as_slice());
        assert(node_number(hn, 0, j as nat) == leaves + j);
        level.push(t);
        j = j + 1;
    }
    let mut path: Vec<Vec<u8>> = Vec::new();
    let mut l: u8 = 0;
    let mut width: u32 = leaves;
    let mut idx: u32 = q;
    let ghost full = auth_path(hn, lm, I@, seed@, q as nat);
    while l < h
        invariant
            hn == h,
            1 <= h <= 25,
            l <= h,
            width == pow2((hn - l) as nat),
            width <= 33554432,
            idx == (q as nat) / pow2(l as nat),
            idx < width,
            level@.len() == width,
            forall|k: int| 0 <= k < width ==> (#[trigger] level@[k])@ == tree_node(hn, lm, I@, seed@, l as nat, k as nat),
            forall|k: int| 0 <= k < width ==> (#[trigger] level@[k])@.len() == 32,
            full == auth_path(hn, lm, I@, seed@, q as nat),
            views(path@) == full.subrange(0, l as int),
            forall|i: int| 0 <= i < path@.len() ==> (#[trigger] path@[i])@.len() == 32,
        decreases h - l,
    {
        proof {
            lemma_pow2_unfold((hn - l) as nat);
            lemma_div_pow2_step(q as nat, l as nat);
            lemma_pow2_pos((hn - l - 1) as nat);
        }
        let sib: u32 = if idx % 2 == 0 {
            idx + 1
        } else {
            idx - 1
        };
        let s = level[sib as usize].clone();
        assert(s@ == full[l as int]);
        let ghost prev = path@;
        path.push(s);
        assert(path@ == prev.push(s));
        assert(views(path@) =~= views(prev).push(s@));
        assert(full.subrange(0, l + 1) =~= full.subrange(0, l as int).push(full[l as int]));
        let half: u32 = width / 2;
        let mut next: Vec<Vec<u8>> = Vec::new();
        let mut k: u32 = 0;
        while k < half
            invariant
                hn == h,
                l < h,
                width == 2 * half,
                half == pow2((hn - l - 1) as nat),
                width <= 33554432,
                level@.len() == width,
                forall|m: int| 0 <= m < width ==> (#[trigger] level@[m])@ == tree_node(hn, lm, I@, seed@, l as nat, m as nat),
                k <= half,
                next@.len() == k,
                forall|m: int| 0 <= m < k ==> (#[trigger] next@[m])@ == tree_node(hn, lm, I@, seed@, (l + 1) as nat, m as nat),
                forall|m: int| 0 <= m < k ==> (#[trigger] next@[m])@.len() == 32,
            decreases half - k,
        {
            let t = hash_interior(
                I,
                half + k,
                level[(2 * k) as usize].as_slice(),
                level[(2 * k + 1) as usize].as_slice(),
            );
            assert(node_number(hn, (l + 1) as nat, k as nat) == half + k);
            next.push(t);
            k = k + 1;
        }
        level = next;
        width = half;
        idx = idx / 2;
        l = l + 1;
    }
    assert(views(path@) =~= full);
    assert(width == 1) by {
        assert(pow2(0) == 1);
    }
    (level[0].clone(), path)
}

/// `2^h` for a tree height.
pub fn pow2_u32(h: u8) -> (r: u32)
    requires
        h <= 25,
    ensures
        r == pow2(h as nat),
{
    let mut r: u32 = 1;
    let mut i: u8 = 0;
    proof {
        lemma2_to64();
    }
    while i < h
        invariant
            i <= h <= 25,
            r == pow2(i as nat),
            pow2(25) == 33554432,
        decreases h - i,
    {
        proof {
            lemma_pow2_unfold((i + 1) as nat);
            lemma_pow2_strictly_increases(i as nat, 25);
        }
        r = r * 2;
        i = i + 1;
    }
    r
}

} // verus!
