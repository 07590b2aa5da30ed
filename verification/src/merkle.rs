use crate::address::{address_to_xdr, bytes32_eq, bytes32_le, bytes32_lex_le, Address, Bytes32};
use vstd::prelude::*;

verus! {

/// Domain tag that opens the preimage of a leaf.
pub const LEAF_PREFIX: u8 = 0x00;

/// Domain tag that opens the preimage of an internal node.
pub const NODE_PREFIX: u8 = 0x01;

/// The longest preimage that [`sha256`] is asked to hash.
pub const MAX_PREIMAGE_LEN: usize = 1024;

/// The SHA-256 digest of a byte string.
pub uninterp spec fn sha256_digest(data: Seq<u8>) -> Bytes32;

/// The SHA-256 digest of `data`.
///
/// Trusted: the body copies `data` into the SDK's `Bytes` on a fresh
/// environment and calls `soroban_sdk::crypto::Crypto::sha256` on it. The
/// contract claims that the digest depends on the bytes hashed and on
/// nothing else. The host meters its work and gives up when a budget is
/// spent; a fresh environment has a budget of a hundred million
/// instructions and a hash costs some tens of instructions a byte, so
/// preimages are kept short, far inside what it lets through.
#[verifier::external_body]
fn sha256(data: &Vec<u8>) -> (out: Bytes32)
    requires
        data@.len() <= MAX_PREIMAGE_LEN,
    ensures
        out == sha256_digest(data@),
{
    let env = soroban_sdk::Env::default();
    let bytes = soroban_sdk::Bytes::from_slice(&env, data.as_slice());
    env.crypto().sha256(&bytes).to_array()
}

/// The big-endian digits of `value` in base 256, `width` of them: the low
/// `width` bytes of `value`, most significant first.
pub open spec fn be_bytes(value: nat, width: nat) -> Seq<u8>
    decreases width,
{
    if width == 0 {
        Seq::<u8>::empty()
    } else {
        be_bytes(value / 256, (width - 1) as nat).push((value % 256) as u8)
    }
}

/// `be_bytes` yields as many bytes as asked for.
pub proof fn lemma_be_bytes_len(value: nat, width: nat)
    ensures
        be_bytes(value, width).len() == width,
    decreases width,
{
    if width > 0 {
        lemma_be_bytes_len(value / 256, (width - 1) as nat);
    }
}

/// The unsigned integer with the same 128-bit two's-complement pattern.
pub open spec fn twos_complement(x: i128) -> nat {
    if x >= 0 {
        x as nat
    } else {
        (x + 0x1_0000_0000_0000_0000_0000_0000_0000_0000) as nat
    }
}

/// Appends the `width` low bytes of `value` to `data`, most significant
/// first.
pub fn push_be(data: &mut Vec<u8>, value: u128, width: usize)
    requires
        width <= 16,
    ensures
        final(data)@ == old(data)@ + be_bytes(value as nat, width as nat),
{
    let mut digits: Vec<u8> = Vec::new();
    let mut rest: u128 = value;
    let mut done: usize = 0;
    while done < width
        invariant
            done <= width,
            be_bytes(value as nat, width as nat) == be_bytes(rest as nat, (width - done) as nat)
                + digits@,
        decreases width - done,
    {
        let ghost before = digits@;
        let digit: u8 = (rest % 256) as u8;
        digits.insert(0, digit);
        proof {
            let left = be_bytes((rest / 256) as nat, (width - done - 1) as nat);
            assert(be_bytes(rest as nat, (width - done) as nat) == left.push(digit));
            assert(left.push(digit) + before =~= left + digits@);
        }
        rest = rest / 256;
        done += 1;
    }
    assert(be_bytes(rest as nat, 0) =~= Seq::<u8>::empty());
    assert(Seq::<u8>::empty() + digits@ =~= digits@);
    data.append(&mut digits);
}

/// The bytes that are hashed into the leaf of a position: the leaf tag, the
/// pool index as 4 big-endian bytes, the account's canonical
/// serialization, the balance as 16 big-endian bytes in two's complement,
/// and the epoch as 8 big-endian bytes.
pub open spec fn spec_leaf_preimage(
    pool_index: u32,
    user: Address,
    lp_balance: i128,
    epoch_id: u64,
) -> Seq<u8> {
    seq![LEAF_PREFIX] + be_bytes(pool_index as nat, 4) + user.spec_xdr() + be_bytes(
        twos_complement(lp_balance),
        16,
    ) + be_bytes(epoch_id as nat, 8)
}

/// The leaf that commits to a position.
pub open spec fn spec_leaf(pool_index: u32, user: Address, lp_balance: i128, epoch_id: u64) -> Bytes32 {
    sha256_digest(spec_leaf_preimage(pool_index, user, lp_balance, epoch_id))
}

/// The leaf that commits to the position of `user` in the pool under
/// `pool_index`, with balance `lp_balance`, in epoch `epoch_id`.
pub fn compute_leaf(pool_index: u32, user: &Address, lp_balance: i128, epoch_id: u64) -> (leaf:
    Bytes32)
    ensures
        leaf == spec_leaf(pool_index, *user, lp_balance, epoch_id),
{
    let mut data: Vec<u8> = Vec::new();
    data.push(LEAF_PREFIX);
    assert(data@ =~= seq![LEAF_PREFIX]);
    push_be(&mut data, pool_index as u128, 4);
    let mut user_bytes: Vec<u8> = address_to_xdr(user);
    data.append(&mut user_bytes);
    let pattern: u128 = if lp_balance >= 0 {
        lp_balance as u128
    } else {
        ((lp_balance - i128::MIN) as u128) + 0x8000_0000_0000_0000_0000_0000_0000_0000u128
    };
    assert(pattern == twos_complement(lp_balance));
    push_be(&mut data, pattern, 16);
    push_be(&mut data, epoch_id as u128, 8);
    proof {
        lemma_be_bytes_len(pool_index as nat, 4);
        lemma_be_bytes_len(pattern as nat, 16);
        lemma_be_bytes_len(epoch_id as nat, 8);
        assert(data@ == spec_leaf_preimage(pool_index, *user, lp_balance, epoch_id));
    }
    sha256(&data)
}

/// The bytes that are hashed into the parent of two nodes: the node tag,
/// then the two children, the lexicographically smaller one first.
pub open spec fn spec_node_preimage(a: Bytes32, b: Bytes32) -> Seq<u8> {
    if bytes32_le(a, b) {
        seq![NODE_PREFIX] + a@ + b@
    } else {
        seq![NODE_PREFIX] + b@ + a@
    }
}

/// The parent of two nodes.
pub open spec fn spec_hash_pair(a: Bytes32, b: Bytes32) -> Bytes32 {
    sha256_digest(spec_node_preimage(a, b))
}

/// Appends the 32 bytes of `node` to `data`.
fn push_node(data: &mut Vec<u8>, node: &Bytes32)
    ensures
        final(data)@ == old(data)@ + node@,
{
    let mut i: usize = 0;
    while i < 32
        invariant
            i <= 32,
            data@ == old(data)@ + node@.subrange(0, i as int),
        decreases 32 - i,
    {
        data.push(node[i]);
        assert(data@ =~= old(data)@ + node@.subrange(0, i + 1));
        i += 1;
    }
    assert(node@.subrange(0, 32) =~= node@);
}

/// The parent of the nodes `a` and `b`. The order of the two arguments
/// does not matter.
pub fn hash_pair(a: &Bytes32, b: &Bytes32) -> (parent: Bytes32)
    ensures
        parent == spec_hash_pair(*a, *b),
{
    let mut data: Vec<u8> = Vec::new();
    data.push(NODE_PREFIX);
    assert(data@ =~= seq![NODE_PREFIX]);
    if bytes32_lex_le(a, b) {
        push_node(&mut data, a);
        push_node(&mut data, b);
    } else {
        push_node(&mut data, b);
        push_node(&mut data, a);
    }
    sha256(&data)
}

/// The node reached from `leaf` by joining it with each sibling of `path`
/// in turn, `path[0]` being the leaf's own sibling.
pub open spec fn spec_fold_path(leaf: Bytes32, path: Seq<Bytes32>) -> Bytes32
    decreases path.len(),
{
    if path.len() == 0 {
        leaf
    } else {
        spec_hash_pair(spec_fold_path(leaf, path.drop_last()), path.last())
    }
}

/// Whether `path` leads from `leaf` to `root`.
pub open spec fn spec_verify_proof(leaf: Bytes32, path: Seq<Bytes32>, root: Bytes32) -> bool {
    spec_fold_path(leaf, path) == root
}

/// Whether the sibling path `proof` leads from `leaf` to `root`. An empty
/// path leads from a leaf to itself only.
pub fn verify_proof(leaf: &Bytes32, proof: &Vec<Bytes32>, root: &Bytes32) -> (ok: bool)
    ensures
        ok == spec_verify_proof(*leaf, proof@, *root),
{
    let mut current: Bytes32 = *leaf;
    let n: usize = proof.len();
    let mut i: usize = 0;
    assert(proof@.take(0) =~= Seq::<Bytes32>::empty());
    while i < n
        invariant
            n == proof@.len(),
            i <= n,
            current == spec_fold_path(*leaf, proof@.take(i as int)),
        decreases n - i,
    {
        let sibling: Bytes32 = proof[i];
        current = hash_pair(&current, &sibling);
        proof {
            let next = proof@.take(i + 1);
            assert(next.drop_last() =~= proof@.take(i as int));
            assert(next.last() == proof@[i as int]);
        }
        i += 1;
    }
    assert(proof@.take(n as int) =~= proof@);
    bytes32_eq(&current, root)
}

/// A path is accepted against the root that it leads to.
pub proof fn lemma_derived_root_verifies(leaf: Bytes32, path: Seq<Bytes32>)
    ensures
        spec_verify_proof(leaf, path, spec_fold_path(leaf, path)),
{
}

/// A path is rejected against every root but the one that it leads to: any
/// change to the root of an accepted proof makes it fail.
pub proof fn lemma_altered_root_rejected(leaf: Bytes32, path: Seq<Bytes32>, root: Bytes32, other: Bytes32)
    requires
        spec_verify_proof(leaf, path, root),
        other != root,
    ensures
        !spec_verify_proof(leaf, path, other),
{
}

/// The parent of two nodes does not depend on their order.
pub proof fn lemma_hash_pair_symmetric(a: Bytes32, b: Bytes32)
    ensures
        spec_hash_pair(a, b) == spec_hash_pair(b, a),
{
    if bytes32_le(a, b) && bytes32_le(b, a) {
        crate::address::lemma_bytes32_le_antisymmetric(a, b);
    }
    if !bytes32_le(a, b) && !bytes32_le(b, a) {
        crate::address::lemma_bytes32_le_total(a, b);
    }
}

/// Whether two different byte strings have the same SHA-256 digest.
pub open spec fn sha256_collides() -> bool {
    exists|x: Seq<u8>, y: Seq<u8>| x != y && #[trigger] sha256_digest(x) == #[trigger] sha256_digest(y)
}

/// The preimage of a node tells its two children, up to their order.
pub proof fn lemma_node_preimage_tells_children(a: Bytes32, b: Bytes32, c: Bytes32, d: Bytes32)
    requires
        spec_node_preimage(a, b) == spec_node_preimage(c, d),
    ensures
        (a == c && b == d) || (a == d && b == c),
{
    let (x, y) = if bytes32_le(a, b) { (a, b) } else { (b, a) };
    let (u, v) = if bytes32_le(c, d) { (c, d) } else { (d, c) };
    let p = spec_node_preimage(a, b);
    let q = spec_node_preimage(c, d);
    assert(p == seq![NODE_PREFIX] + x@ + y@);
    assert(q == seq![NODE_PREFIX] + u@ + v@);
    assert forall|i: int| 0 <= i < 32 implies x[i] == u[i] && y[i] == v[i] by {
        assert(p[1 + i] == x@[i]);
        assert(q[1 + i] == u@[i]);
        assert(p[33 + i] == y@[i]);
        assert(q[33 + i] == v@[i]);
    }
    assert(x =~= u);
    assert(y =~= v);
}

/// Two different nodes joined with the same sibling have different
/// parents, or SHA-256 collides.
proof fn lemma_parents_differ(a: Bytes32, b: Bytes32, sibling: Bytes32)
    requires
        a != b,
    ensures
        spec_hash_pair(a, sibling) != spec_hash_pair(b, sibling) || sha256_collides(),
{
    let p = spec_node_preimage(a, sibling);
    let q = spec_node_preimage(b, sibling);
    if p == q {
        lemma_node_preimage_tells_children(a, sibling, b, sibling);
    }
}

/// Two paths from different nodes through the same siblings end in
/// different nodes, or SHA-256 collides.
proof fn lemma_folds_differ(a: Bytes32, b: Bytes32, path: Seq<Bytes32>)
    requires
        a != b,
    ensures
        spec_fold_path(a, path) != spec_fold_path(b, path) || sha256_collides(),
    decreases path.len(),
{
    if path.len() > 0 {
        lemma_folds_differ(a, b, path.drop_last());
        let x = spec_fold_path(a, path.drop_last());
        let y = spec_fold_path(b, path.drop_last());
        if x != y {
            lemma_parents_differ(x, y, path.last());
        }
    }
}

/// Altering the leaf of an accepted proof makes it fail: it is rejected
/// against the same root, or else SHA-256 collides.
pub proof fn lemma_altered_leaf_rejected(
    leaf: Bytes32,
    other: Bytes32,
    path: Seq<Bytes32>,
    root: Bytes32,
)
    requires
        spec_verify_proof(leaf, path, root),
        other != leaf,
    ensures
        !spec_verify_proof(other, path, root) || sha256_collides(),
{
    lemma_folds_differ(leaf, other, path);
}

/// Altering one sibling of an accepted proof makes it fail: it is
/// rejected against the same root, or else SHA-256 collides.
pub proof fn lemma_altered_path_rejected(
    leaf: Bytes32,
    path: Seq<Bytes32>,
    altered: Seq<Bytes32>,
    at: int,
    root: Bytes32,
)
    requires
        spec_verify_proof(leaf, path, root),
        altered.len() == path.len(),
        0 <= at < path.len(),
        altered[at] != path[at],
        forall|j: int| 0 <= j < path.len() && j != at ==> altered[j] == path[j],
    ensures
        !spec_verify_proof(leaf, altered, root) || sha256_collides(),
    decreases path.len(),
{
    let below = spec_fold_path(leaf, path.drop_last());
    let below_altered = spec_fold_path(leaf, altered.drop_last());
    if at == path.len() - 1 {
        assert(altered.drop_last() =~= path.drop_last());
        let p = spec_node_preimage(below, path.last());
        let q = spec_node_preimage(below, altered.last());
        if p == q {
            lemma_node_preimage_tells_children(below, path.last(), below, altered.last());
        }
    } else {
        assert(altered.last() == path.last());
        lemma_altered_path_rejected(leaf, path.drop_last(), altered.drop_last(), at, below);
        if below != below_altered {
            lemma_parents_differ(below, below_altered, path.last());
        }
    }
}


} // verus!
