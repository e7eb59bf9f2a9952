//! Append-only incremental Merkle tree with a bounded root history.
//!
//! Only the path from the fresh leaf to the root is recomputed on append:
//! completed left siblings are cached per level in `filled_subtrees`, and
//! empty right siblings use the per-level all-empty defaults.  Every new
//! root is recorded in a ring that overwrites its oldest entry, which is
//! the pool's only tolerance for proofs built against slightly stale
//! roots.

use vstd::prelude::*;

verus! {

use vstd::arithmetic::power2::{pow2, lemma_pow2_adds, lemma_pow2_pos, lemma2_to64};
use vstd::arithmetic::div_mod::{
    lemma_mod_bound, lemma_small_mod, lemma_mod_multiples_vanish, lemma_fundamental_div_mod,
    lemma_fundamental_div_mod_converse_mod, lemma_div_denominator,
};
use crate::errors::ErrorCode;
use crate::field::{
    is_canonical_be, lemma_be_val_zero, lemma_field_order_values, lemma_pow2_le,
};
use crate::state::{MerkleTreeAccount, TreeView, MAX_TREE_HEIGHT, MAX_ROOT_HISTORY_SIZE};

/// The empty leaf: 32 zero bytes.
pub open spec fn zero_leaf() -> Seq<u8> {
    Seq::new(32, |i: int| 0u8)
}

/// Digest of two 32-byte words under the circuit's arithmetic hash.
pub uninterp spec fn poseidon2_of(a: Seq<u8>, b: Seq<u8>) -> [u8; 32];

/// Relies on `light_hasher::Poseidon::hashv` over two 32-byte words (with
/// the crate's poseidon backend enabled): it succeeds exactly when both
/// inputs, read big endian, are below the scalar-field order, and then
/// returns the 32-byte big-endian Poseidon digest, itself a canonical
/// field element depending on the inputs alone.
#[verifier::external_body]
fn poseidon_hash2(a: &[u8; 32], b: &[u8; 32]) -> (r: Option<[u8; 32]>)
    ensures
        r is Some <==> (is_canonical_be(a@) && is_canonical_be(b@)),
        r matches Some(v) ==> v == poseidon2_of(a@, b@) && is_canonical_be(v@),
{
    match <light_hasher::Poseidon as light_hasher::Hasher>::hashv(&[a.as_slice(), b.as_slice()]) {
        Ok(h) => Some(h),
        Err(_) => None,
    }
}

/// Hash of the append path at `level`, for a leaf inserted at position
/// `idx`: at each level the node so far is combined with the cached left
/// sibling or with the empty default, by the parity of the position.
pub open spec fn level_hash(
    filled: Seq<[u8; 32]>,
    zeros: Seq<[u8; 32]>,
    idx: nat,
    leaf: [u8; 32],
    level: nat,
) -> [u8; 32]
    decreases level,
{
    if level == 0 {
        leaf
    } else {
        let below = level_hash(filled, zeros, idx, leaf, (level - 1) as nat);
        if (idx / pow2((level - 1) as nat)) % 2 == 0 {
            poseidon2_of(below@, zeros[level - 1]@)
        } else {
            poseidon2_of(filled[level - 1]@, below@)
        }
    }
}

/// The cached left siblings after appending `leaf` at `idx`: levels where
/// the fresh node is a left child record it, the rest keep their cache.
pub open spec fn filled_after(
    filled: Seq<[u8; 32]>,
    zeros: Seq<[u8; 32]>,
    idx: nat,
    leaf: [u8; 32],
) -> Seq<[u8; 32]> {
    Seq::new(
        filled.len(),
        |l: int|
            if (idx / pow2(l as nat)) % 2 == 0 {
                level_hash(filled, zeros, idx, leaf, l as nat)
            } else {
                filled[l]
            },
    )
}

/// Root of a complete subtree of height `h` over exactly `pow2(h)`
/// leaves.
pub open spec fn subtree_root(leaves: Seq<Seq<u8>>, h: nat) -> Seq<u8>
    recommends
        leaves.len() == pow2(h),
    decreases h,
{
    if h == 0 {
        leaves[0]
    } else {
        poseidon2_of(
            subtree_root(leaves.take(pow2((h - 1) as nat) as int), (h - 1) as nat),
            subtree_root(leaves.skip(pow2((h - 1) as nat) as int), (h - 1) as nat),
        )@
    }
}

/// `n` copies of the empty leaf.
pub open spec fn zero_leaves(n: nat) -> Seq<Seq<u8>> {
    Seq::new(n, |i: int| zero_leaf())
}

/// A leaf sequence padded with empty leaves up to `size`.
pub open spec fn padded_to(leaves: Seq<Seq<u8>>, size: nat) -> Seq<Seq<u8>> {
    leaves + zero_leaves((size - leaves.len()) as nat)
}

/// The per-level defaults are the roots of all-empty subtrees.
proof fn lemma_zeros_are_empty_roots(zeros: Seq<[u8; 32]>, l: nat)
    requires
        l < zeros.len(),
        zeros[0]@ == zero_leaf(),
        forall|k: int|
            0 <= k < zeros.len() - 1 ==> #[trigger] zeros[k + 1] == poseidon2_of(
                zeros[k]@,
                zeros[k]@,
            ),
    ensures
        zeros[l as int]@ == subtree_root(zero_leaves(pow2(l)), l),
    decreases l,
{
    lemma_pow2_pos(l);
    if l == 0 {
        lemma2_to64();
        assert(zero_leaves(1)[0] == zero_leaf());
    } else {
        lemma_zeros_are_empty_roots(zeros, (l - 1) as nat);
        lemma_pow2_adds((l - 1) as nat, 1);
        lemma2_to64();
        let half = pow2((l - 1) as nat) as int;
        assert(zero_leaves(pow2(l)).take(half) =~= zero_leaves(pow2((l - 1) as nat)));
        assert(zero_leaves(pow2(l)).skip(half) =~= zero_leaves(pow2((l - 1) as nat)));
    }
}

/// The leaf-block invariant of the cached left siblings: whenever the
/// current position is a right child at a level, the cache holds the root
/// of the completed left-sibling block of leaves.
pub open spec fn filled_matches_leaves(
    filled: Seq<[u8; 32]>,
    leaves: Seq<Seq<u8>>,
    n: nat,
) -> bool {
    forall|l: int|
        0 <= l < filled.len() && (n / pow2(l as nat)) % 2 == 1 ==> #[trigger] filled[l]@
            == subtree_root(
            leaves.subrange(
                ((n / pow2(l as nat)) - 1) * pow2(l as nat) as int,
                (n / pow2(l as nat)) * pow2(l as nat) as int,
            ),
            l as nat,
        )
}

/// Division bounds: a position sits inside its block at every level.
proof fn lemma_block_bounds(n: nat, l: nat, height: nat)
    requires
        l <= height,
        n < pow2(height),
    ensures
        (n / pow2(l)) * pow2(l) <= n < ((n / pow2(l)) + 1) * pow2(l),
        ((n / pow2(l)) + 1) * pow2(l) <= pow2(height),
{
    lemma_pow2_pos(l);
    lemma_pow2_pos((height - l) as nat);
    lemma_pow2_adds((height - l) as nat, l);
    lemma_pow2_adds(l, (height - l) as nat);
    let b = (n / pow2(l)) as int;
    lemma_fundamental_div_mod(n as int, pow2(l) as int);
    lemma_mod_bound(n as int, pow2(l) as int);
    assert((n / pow2(l)) * pow2(l) <= n < ((n / pow2(l)) + 1) * pow2(l)) by (nonlinear_arith)
        requires
            n == pow2(l) * (n as int / pow2(l) as int) + (n as int % pow2(l) as int),
            0 <= (n as int % pow2(l) as int),
            (n as int % pow2(l) as int) < pow2(l);
    vstd::arithmetic::div_mod::lemma_multiply_divide_lt(
        n as int,
        pow2(l) as int,
        pow2((height - l) as nat) as int,
    );
    assert((n as int / pow2(l) as int) < pow2((height - l) as nat));
    assert(b == n as int / pow2(l) as int);
    assert(b + 1 <= pow2((height - l) as nat));
    assert((b + 1) * pow2(l) <= pow2((height - l) as nat) * pow2(l)) by (nonlinear_arith)
        requires b + 1 <= pow2((height - l) as nat), pow2(l) > 0;
}

/// Indexing into a padded leaf sequence: real leaves first, empty leaves
/// after.
proof fn lemma_pad_index(leaves: Seq<Seq<u8>>, size: nat, i: int)
    requires
        leaves.len() <= size,
        0 <= i < size,
    ensures
        padded_to(leaves, size)[i] == if i < leaves.len() {
            leaves[i]
        } else {
            zero_leaf()
        },
{
    if i >= leaves.len() {
        assert(padded_to(leaves, size)[i] == zero_leaves((size - leaves.len()) as nat)[i
            - leaves.len()]);
    }
}

/// The append-path hash at each level is the root of the block of the
/// padded new leaf sequence that contains the fresh position.
proof fn lemma_level_hash_block(
    filled: Seq<[u8; 32]>,
    zeros: Seq<[u8; 32]>,
    n: nat,
    leaf: [u8; 32],
    height: nat,
    leaves: Seq<Seq<u8>>,
    l: nat,
)
    requires
        l <= height,
        n < pow2(height),
        leaves.len() == n,
        filled.len() == height,
        zeros.len() == height + 1,
        zeros[0]@ == zero_leaf(),
        forall|k: int|
            0 <= k < height ==> #[trigger] zeros[k + 1] == poseidon2_of(zeros[k]@, zeros[k]@),
        filled_matches_leaves(filled, leaves, n),
    ensures
        ({
            let pad = padded_to(leaves.push(leaf@), pow2(height));
            let b = (n / pow2(l)) as int;
            level_hash(filled, zeros, n, leaf, l)@ == subtree_root(
                pad.subrange(b * pow2(l) as int, (b + 1) * pow2(l) as int),
                l,
            )
        }),
    decreases l,
{
    let pad = padded_to(leaves.push(leaf@), pow2(height));
    assert(pad.len() == pow2(height));
    lemma_pow2_pos(l);
    lemma_block_bounds(n, l, height);
    if l == 0 {
        lemma2_to64();
        assert(n / pow2(0) == n);
        let b0 = (n / pow2(0)) as int;
        assert(b0 * pow2(0) as int == n && (b0 + 1) * pow2(0) as int == n + 1) by (nonlinear_arith)
            requires pow2(0) == 1nat, b0 == n;
        assert(pad.subrange(n as int, n as int + 1) =~= seq![leaf@]) by {
            lemma_pad_index(leaves.push(leaf@), pow2(height), n as int);
            assert(pad[n as int] == leaf@);
        }
        assert(subtree_root(seq![leaf@], 0) == leaf@);
    } else {
        let lm = (l - 1) as nat;
        lemma_level_hash_block(filled, zeros, n, leaf, height, leaves, lm);
        lemma_pow2_pos(lm);
        lemma_block_bounds(n, lm, height);
        lemma_pow2_adds(lm, 1);
        lemma2_to64();
        let b = (n / pow2(lm)) as int;
        let bl = (n / pow2(l)) as int;
        lemma_div_denominator(n as int, pow2(lm) as int, 2);
        assert(bl == b / 2);
        lemma_fundamental_div_mod(b, 2);
        assert((bl + 1) * pow2(l) as int == bl * pow2(l) as int + pow2(l)) by (nonlinear_arith);
        let block = pad.subrange(bl * pow2(l) as int, (bl + 1) * pow2(l) as int);
        assert(block.len() == pow2(l));
        let left = block.take(pow2(lm) as int);
        let right = block.skip(pow2(lm) as int);
        assert(subtree_root(block, l) == poseidon2_of(
            subtree_root(left, lm),
            subtree_root(right, lm),
        )@);
        let below = level_hash(filled, zeros, n, leaf, lm);
        if b % 2 == 0 {
            assert(b == 2 * bl);
            assert(bl * pow2(l) as int == b * pow2(lm) as int) by (nonlinear_arith)
                requires pow2(l) == 2 * pow2(lm), b == 2 * bl;
            assert((bl + 1) * pow2(l) as int == (b + 2) * pow2(lm) as int) by (nonlinear_arith)
                requires pow2(l) == 2 * pow2(lm), b == 2 * bl;
            assert((b + 1) * pow2(lm) as int - b * pow2(lm) as int == pow2(lm))
                by (nonlinear_arith);
            assert((b + 2) * pow2(lm) as int - (b + 1) * pow2(lm) as int == pow2(lm))
                by (nonlinear_arith);
            assert(left =~= pad.subrange(b * pow2(lm) as int, (b + 1) * pow2(lm) as int));
            assert(right =~= pad.subrange((b + 1) * pow2(lm) as int, (b + 2) * pow2(lm) as int));
            // the right sibling lies wholly past the fresh position, so it
            // is all empty leaves
            assert(right =~= zero_leaves(pow2(lm))) by {
                assert forall|j: int| 0 <= j < pow2(lm) implies right[j] == zero_leaf() by {
                    let pos = (b + 1) * pow2(lm) as int + j;
                    assert(right[j] == pad[pos]);
                    assert(pos >= n + 1);
                    lemma_pad_index(leaves.push(leaf@), pow2(height), pos);
                }
            }
            assert(subtree_root(left, lm) == below@);
            lemma_zeros_are_empty_roots(zeros, lm);
            assert(subtree_root(right, lm) == zeros[lm as int]@);
            assert(level_hash(filled, zeros, n, leaf, l) == poseidon2_of(below@, zeros[lm as int]@));
        } else {
            assert(b == 2 * bl + 1);
            assert(bl * pow2(l) as int == (b - 1) * pow2(lm) as int) by (nonlinear_arith)
                requires pow2(l) == 2 * pow2(lm), b == 2 * bl + 1;
            assert((bl + 1) * pow2(l) as int == (b + 1) * pow2(lm) as int) by (nonlinear_arith)
                requires pow2(l) == 2 * pow2(lm), b == 2 * bl + 1;
            assert(b * pow2(lm) as int - (b - 1) * pow2(lm) as int == pow2(lm))
                by (nonlinear_arith);
            assert((b + 1) * pow2(lm) as int - b * pow2(lm) as int == pow2(lm))
                by (nonlinear_arith);
            assert(left =~= pad.subrange((b - 1) * pow2(lm) as int, b * pow2(lm) as int));
            assert(right =~= pad.subrange(b * pow2(lm) as int, (b + 1) * pow2(lm) as int));
            // the left sibling lies wholly before the fresh position, so
            // it is the cached block of real leaves
            assert((b - 1) * pow2(lm) as int >= 0) by (nonlinear_arith)
                requires b >= 1, pow2(lm) > 0;
            assert(left =~= leaves.subrange((b - 1) * pow2(lm) as int, b * pow2(lm) as int)) by {
                assert forall|j: int| 0 <= j < pow2(lm) implies left[j] == leaves[(b - 1) * pow2(
                    lm,
                ) as int + j] by {
                    let pos = (b - 1) * pow2(lm) as int + j;
                    assert(left[j] == pad[pos]);
                    assert(pos < b * pow2(lm) as int <= n);
                    lemma_pad_index(leaves.push(leaf@), pow2(height), pos);
                }
            }
            assert(filled[lm as int]@ == subtree_root(
                leaves.subrange((b - 1) * pow2(lm) as int, b * pow2(lm) as int),
                lm,
            ));
            assert(subtree_root(right, lm) == below@);
            assert(level_hash(filled, zeros, n, leaf, l) == poseidon2_of(
                filled[lm as int]@,
                below@,
            ));
        }
    }
}

/// The semantic tree invariant: the cached state agrees with a history of
/// appended leaves, so the roots it produces are Merkle roots over that
/// history.
pub open spec fn tree_tracks_leaves(v: TreeView, leaves: Seq<Seq<u8>>) -> bool {
    &&& leaves.len() == v.next_index
    &&& v.next_index <= pow2(v.height)
    &&& v.filled_subtrees.len() == v.height
    &&& v.zeros.len() == v.height + 1
    &&& v.zeros[0]@ == zero_leaf()
    &&& (forall|k: int|
        0 <= k < v.height ==> #[trigger] v.zeros[k + 1] == poseidon2_of(v.zeros[k]@, v.zeros[k]@))
    &&& filled_matches_leaves(v.filled_subtrees, leaves, v.next_index)
}

/// A fresh tree tracks the empty history.
pub proof fn lemma_empty_tree_tracks(v: TreeView)
    requires
        v.next_index == 0,
        v.filled_subtrees.len() == v.height,
        v.zeros.len() == v.height + 1,
        v.zeros[0]@ == zero_leaf(),
        forall|k: int|
            0 <= k < v.height ==> #[trigger] v.zeros[k + 1] == poseidon2_of(v.zeros[k]@, v.zeros[k]@),
    ensures
        tree_tracks_leaves(v, Seq::empty()),
{
    lemma_pow2_pos(v.height);
    assert forall|l: int|
        0 <= l < v.filled_subtrees.len() implies (0nat / #[trigger] pow2(l as nat)) % 2 == 0 by {
        lemma_pow2_pos(l as nat);
        vstd::arithmetic::div_mod::lemma_div_of0(pow2(l as nat) as int);
    }
}

/// Appending a leaf to a tracking tree yields exactly the Merkle root of
/// the extended history padded with empty leaves, and the tree goes on
/// tracking the extended history.
pub proof fn lemma_append_tracks(v: TreeView, leaves: Seq<Seq<u8>>, leaf: [u8; 32])
    requires
        tree_tracks_leaves(v, leaves),
        v.next_index < pow2(v.height),
    ensures
        level_hash(v.filled_subtrees, v.zeros, v.next_index, leaf, v.height)@ == subtree_root(
            padded_to(leaves.push(leaf@), pow2(v.height)),
            v.height,
        ),
        tree_tracks_leaves(tree_view_append(v, leaf), leaves.push(leaf@)),
{
    let n = v.next_index;
    let h = v.height;
    let pad = padded_to(leaves.push(leaf@), pow2(h));
    let leaves2 = leaves.push(leaf@);
    lemma_pow2_pos(h);
    // the new root: the block at the top level is the whole padded tree
    lemma_level_hash_block(v.filled_subtrees, v.zeros, n, leaf, h, leaves, h);
    vstd::arithmetic::div_mod::lemma_basic_div(n as int, pow2(h) as int);
    let bt = (n / pow2(h)) as int;
    assert(bt == 0);
    assert(bt * pow2(h) as int == 0 && (bt + 1) * pow2(h) as int == pow2(h)) by (nonlinear_arith)
        requires bt == 0;
    assert(pad.subrange(0, pow2(h) as int) =~= pad);

    // the refreshed caches track the extended history
    let v2 = tree_view_append(v, leaf);
    let nf = filled_after(v.filled_subtrees, v.zeros, n, leaf);
    assert forall|l: int|
        0 <= l < nf.len() && (((n + 1) as nat / pow2(l as nat)) % 2 == 1) implies #[trigger] nf[l]@
        == subtree_root(
        leaves2.subrange(
            (((n + 1) as nat / pow2(l as nat)) - 1) * pow2(l as nat) as int,
            ((n + 1) as nat / pow2(l as nat)) * pow2(l as nat) as int,
        ),
        l as nat,
    ) by {
        let p = pow2(l as nat) as int;
        lemma_pow2_pos(l as nat);
        lemma_block_bounds(n, l as nat, h);
        let b = (n / pow2(l as nat)) as int;
        let r = n as int % p;
        lemma_fundamental_div_mod(n as int, p);
        lemma_mod_bound(n as int, p);
        let b2 = ((n + 1) as nat / pow2(l as nat)) as int;
        if r < p - 1 {
            // the fresh position stays inside block b: the cursor parity
            // is unchanged and the cache at this level was not rewritten
            vstd::arithmetic::div_mod::lemma_fundamental_div_mod_converse_div(
                n as int + 1,
                p,
                b,
                r + 1,
            );
            assert(b2 == b);
            assert(nf[l] == v.filled_subtrees[l]);
            assert((b - 1) * p >= 0) by (nonlinear_arith)
                requires b >= 1, p > 0;
            assert(b * p <= n && b * p - (b - 1) * p == p) by (nonlinear_arith)
                requires n as int == p * b + r, 0 <= r;
            assert(leaves2.subrange((b - 1) * p, b * p) =~= leaves.subrange((b - 1) * p, b * p));
        } else {
            // the fresh leaf completes block b: the cache at this level
            // was just rewritten with the block's root
            assert(n as int + 1 == p * (b + 1)) by (nonlinear_arith)
                requires n as int == p * b + r, r == p - 1;
            vstd::arithmetic::div_mod::lemma_fundamental_div_mod_converse_div(
                n as int + 1,
                p,
                b + 1,
                0,
            );
            assert(b2 == b + 1);
            assert((n / pow2(l as nat)) % 2 == 0) by {
                if b % 2 == 1 {
                    assert(b2 % 2 == 0);
                    assert(b2 == b + 1);
                }
            }
            assert(nf[l] == level_hash(v.filled_subtrees, v.zeros, n, leaf, l as nat));
            lemma_level_hash_block(v.filled_subtrees, v.zeros, n, leaf, h, leaves, l as nat);
            assert((b + 1) * p == n + 1) by (nonlinear_arith)
                requires n as int == p * b + r, r == p - 1;
            assert(pad.subrange(b * p, (b + 1) * p) =~= leaves2.subrange(b * p, (b + 1) * p)) by {
                assert forall|j: int|
                    0 <= j < (b + 1) * p - b * p implies #[trigger] pad.subrange(
                    b * p,
                    (b + 1) * p,
                )[j] == leaves2[b * p + j] by {
                    lemma_pad_index(leaves2, pow2(h), b * p + j);
                }
            }
        }
    }
    assert(filled_matches_leaves(v2.filled_subtrees, leaves2, (n + 1) as nat));
}

/// The whole effect of one append on the mathematical tree state: the new
/// leaf's path root recorded in the ring, the left-sibling caches
/// refreshed, and the leaf count advanced.
pub open spec fn tree_view_append(v: TreeView, leaf: [u8; 32]) -> TreeView {
    let rt = level_hash(v.filled_subtrees, v.zeros, v.next_index, leaf, v.height);
    let ring = ring_push(v.roots, v.root_index, v.root_history_size as int, rt);
    TreeView {
        next_index: v.next_index + 1,
        root_index: ring.1,
        filled_subtrees: filled_after(v.filled_subtrees, v.zeros, v.next_index, leaf),
        roots: ring.0,
        ..v
    }
}

/// One step of the root-history ring: grow until capacity, then overwrite
/// the slot after the cursor.  Returns the new buffer and cursor.
pub open spec fn ring_push(
    roots: Seq<[u8; 32]>,
    root_index: int,
    cap: int,
    root: [u8; 32],
) -> (Seq<[u8; 32]>, int) {
    if roots.len() < cap {
        (roots.push(root), roots.len() as int)
    } else {
        let ni = (root_index + 1) % cap;
        (roots.update(ni, root), ni)
    }
}

/// The ring after a whole sequence of appended roots.
pub open spec fn ring_push_all(
    roots: Seq<[u8; 32]>,
    root_index: int,
    cap: int,
    xs: Seq<[u8; 32]>,
) -> (Seq<[u8; 32]>, int)
    decreases xs.len(),
{
    if xs.len() == 0 {
        (roots, root_index)
    } else {
        let stepped = ring_push(roots, root_index, cap, xs[0]);
        ring_push_all(stepped.0, stepped.1, cap, xs.subrange(1, xs.len() as int))
    }
}

/// Cursor-freshness: while the ring still grows, the cursor is the last
/// entry; once full, any position.  Every tree built by appends has it.
pub open spec fn ring_wf(len: int, root_index: int, cap: int) -> bool {
    &&& 1 <= len <= cap
    &&& 0 <= root_index < len
    &&& (len == cap || root_index == len - 1)
}

/// How many further appends leave the entry at position `p` untouched:
/// while the ring still grows, all current entries survive until the
/// buffer fills and the write position cycles back round to `p`; at
/// capacity, the writes walk onward from the cursor and reach `p` last
/// when it was written most recently.
pub open spec fn safe_steps(len: int, root_index: int, cap: int, p: int) -> int {
    if len < cap {
        cap - len + p
    } else {
        (p - root_index - 1) % cap
    }
}

/// No entry outlives a full revolution of the ring.
pub proof fn lemma_safe_steps_bound(len: int, root_index: int, cap: int, p: int)
    requires
        1 <= len <= cap,
        0 <= p < len,
    ensures
        0 <= safe_steps(len, root_index, cap, p) <= cap - 1,
{
    if len == cap {
        lemma_mod_bound(p - root_index - 1, cap);
    }
}

/// Stepping the write position costs exactly one safe step at every other
/// position, and the freshly written position itself starts a full
/// revolution away.
proof fn lemma_safe_steps_decrease(len: int, root_index: int, cap: int, p: int)
    requires
        ring_wf(len, root_index, cap),
        0 <= p < len,
        safe_steps(len, root_index, cap, p) >= 1,
    ensures
        ({
            let stepped_len = if len < cap {
                len + 1
            } else {
                len
            };
            let stepped_idx = if len < cap {
                len
            } else {
                (root_index + 1) % cap
            };
            safe_steps(stepped_len, stepped_idx, cap, p) == safe_steps(len, root_index, cap, p) - 1
        }),
{
    if len < cap {
        if len + 1 < cap {
        } else {
            // the buffer just filled: positions wrap, and p sits a whole
            // lap minus its distance from the end away from the cursor
            assert(len == cap - 1);
            let a = p - len - 1;
            lemma_mod_multiples_vanish(1, a, cap);
            lemma_small_mod((a + cap) as nat, cap as nat);
            assert((p - len - 1) % cap == p);
        }
    } else {
        let w = (root_index + 1) % cap;
        let a = p - root_index - 1;
        let s = a % cap;
        lemma_mod_bound(a, cap);
        lemma_fundamental_div_mod(a, cap);
        lemma_fundamental_div_mod_converse_mod(a - 1, cap, a / cap, s - 1);
        // (p - w - 1) % cap == (a - 1) % cap since w differs from
        // root_index + 1 by a multiple of cap
        lemma_fundamental_div_mod(root_index + 1, cap);
        let q = (root_index + 1) / cap;
        assert(p - w - 1 == cap * q + (a - 1));
        lemma_mod_multiples_vanish(q, a - 1, cap);
        assert((p - w - 1) % cap == s - 1);
    }
}

/// At capacity, a zero safe-step count identifies exactly the next write
/// slot.
proof fn lemma_zero_safe_is_next_slot(len: int, root_index: int, cap: int, j: int)
    requires
        ring_wf(len, root_index, cap),
        0 <= j < len,
        len == cap,
        (j - root_index - 1) % cap == 0,
    ensures
        j == (root_index + 1) % cap,
{
    let a = j - root_index - 1;
    lemma_fundamental_div_mod(a, cap);
    assert(a == cap * (a / cap));
    assert(j == cap * (a / cap) + (root_index + 1));
    lemma_mod_multiples_vanish(a / cap, root_index + 1, cap);
    lemma_small_mod(j as nat, cap as nat);
}

/// If a position's safe-step count is nonzero, the next write does not
/// land on it.
proof fn lemma_safe_position_not_written(len: int, root_index: int, cap: int, p: int)
    requires
        ring_wf(len, root_index, cap),
        0 <= p < len,
        safe_steps(len, root_index, cap, p) >= 1,
        len == cap,
    ensures
        p != (root_index + 1) % cap,
{
    let w = (root_index + 1) % cap;
    if p == w {
        lemma_fundamental_div_mod(root_index + 1, cap);
        let q = (root_index + 1) / cap;
        assert(w == root_index + 1 - cap * q);
        assert(cap * (-q) == -(cap * q)) by (nonlinear_arith);
        assert(p - root_index - 1 == cap * (-q));
        lemma_mod_multiples_vanish(-q, 0, cap);
        lemma_small_mod(0, cap as nat);
        assert((p - root_index - 1) % cap == 0);
    }
}

/// An entry younger than the number of upcoming appends survives them all
/// in place.
pub proof fn lemma_ring_preserves(
    roots: Seq<[u8; 32]>,
    root_index: int,
    cap: int,
    xs: Seq<[u8; 32]>,
    p: int,
)
    requires
        ring_wf(roots.len() as int, root_index, cap),
        0 <= p < roots.len(),
        xs.len() <= safe_steps(roots.len() as int, root_index, cap, p),
    ensures
        ({
            let after = ring_push_all(roots, root_index, cap, xs);
            &&& ring_wf(after.0.len() as int, after.1, cap)
            &&& p < after.0.len()
            &&& after.0[p] == roots[p]
        }),
    decreases xs.len(),
{
    let len = roots.len() as int;
    if xs.len() == 0 {
    } else {
        let stepped = ring_push(roots, root_index, cap, xs[0]);
        let rest = xs.subrange(1, xs.len() as int);
        lemma_safe_steps_decrease(len, root_index, cap, p);
        if len < cap {
            assert(stepped.0[p] == roots[p]);
        } else {
            lemma_safe_position_not_written(len, root_index, cap, p);
            lemma_mod_bound(root_index + 1, cap);
            assert(stepped.0[p] == roots[p]);
        }
        lemma_ring_preserves(stepped.0, stepped.1, cap, rest, p);
    }
}

/// After enough appends to run a full revolution, every live entry is one
/// of the roots appended meanwhile: entries older than the history window
/// are gone.
pub proof fn lemma_ring_ages_out(
    roots: Seq<[u8; 32]>,
    root_index: int,
    cap: int,
    xs: Seq<[u8; 32]>,
)
    requires
        ring_wf(roots.len() as int, root_index, cap),
        xs.len() >= cap,
    ensures
        ({
            let after = ring_push_all(roots, root_index, cap, xs);
            forall|j: int|
                0 <= j < after.0.len() ==> exists|k: int|
                    0 <= k < xs.len() && #[trigger] after.0[j] == xs[k]
        }),
    decreases xs.len(),
{
    lemma_ring_history(roots, root_index, cap, xs);
    let after = ring_push_all(roots, root_index, cap, xs);
    assert forall|j: int| 0 <= j < after.0.len() implies exists|k: int|
        0 <= k < xs.len() && #[trigger] after.0[j] == xs[k] by {
        if !(exists|k: int| 0 <= k < xs.len() && #[trigger] after.0[j] == xs[k]) {
            lemma_safe_steps_bound(roots.len() as int, root_index, cap, j);
        }
    }
}

/// The tree after a whole sequence of appends.
pub open spec fn tree_view_append_all(v: TreeView, leaves: Seq<[u8; 32]>) -> TreeView
    decreases leaves.len(),
{
    if leaves.len() == 0 {
        v
    } else {
        tree_view_append_all(
            tree_view_append(v, leaves[0]),
            leaves.subrange(1, leaves.len() as int),
        )
    }
}

/// The roots those appends record, oldest first.
pub open spec fn appended_roots(v: TreeView, leaves: Seq<[u8; 32]>) -> Seq<[u8; 32]>
    decreases leaves.len(),
{
    if leaves.len() == 0 {
        Seq::empty()
    } else {
        seq![level_hash(v.filled_subtrees, v.zeros, v.next_index, leaves[0], v.height)]
            + appended_roots(
            tree_view_append(v, leaves[0]),
            leaves.subrange(1, leaves.len() as int),
        )
    }
}

/// The ring-freshness invariant as a tree property.
pub open spec fn tree_ring_wf(v: TreeView) -> bool {
    ring_wf(v.roots.len() as int, v.root_index, v.root_history_size as int)
}

/// Appending leaves drives the history ring exactly as pushing the
/// corresponding roots does; the ring parameters themselves never change.
proof fn lemma_tree_ring_correspondence(v: TreeView, leaves: Seq<[u8; 32]>)
    ensures
        ({
            let after = tree_view_append_all(v, leaves);
            let ring = ring_push_all(
                v.roots,
                v.root_index,
                v.root_history_size as int,
                appended_roots(v, leaves),
            );
            &&& after.roots == ring.0
            &&& after.root_index == ring.1
            &&& after.root_history_size == v.root_history_size
        }),
    decreases leaves.len(),
{
    if leaves.len() > 0 {
        let v1 = tree_view_append(v, leaves[0]);
        let rest = leaves.subrange(1, leaves.len() as int);
        lemma_tree_ring_correspondence(v1, rest);
        let xs = appended_roots(v, leaves);
        assert(xs.subrange(1, xs.len() as int) =~= appended_roots(v1, rest));
    }
}

/// Root-history freshness: the latest root stays in the history through
/// any run of fewer than `root_history_size` further appends, so a proof
/// built against it still passes the root check.
pub proof fn lemma_recent_root_stays_known(v: TreeView, leaves: Seq<[u8; 32]>)
    requires
        tree_ring_wf(v),
        leaves.len() < v.root_history_size,
    ensures
        ({
            let after = tree_view_append_all(v, leaves);
            &&& 0 <= v.root_index < after.roots.len()
            &&& after.roots[v.root_index] == v.roots[v.root_index]
        }),
{
    let cap = v.root_history_size as int;
    let len = v.roots.len() as int;
    let idx = v.root_index;
    lemma_tree_ring_correspondence(v, leaves);
    let xs = appended_roots(v, leaves);
    assert(xs.len() == leaves.len()) by {
        lemma_appended_roots_len(v, leaves);
    }
    assert(safe_steps(len, idx, cap, idx) == cap - 1) by {
        if len == cap {
            lemma_mod_multiples_vanish(1, -1, cap);
            lemma_small_mod((cap - 1) as nat, cap as nat);
        }
    }
    lemma_ring_preserves(v.roots, idx, cap, xs, idx);
}

/// Each append records one root.
proof fn lemma_appended_roots_len(v: TreeView, leaves: Seq<[u8; 32]>)
    ensures
        appended_roots(v, leaves).len() == leaves.len(),
    decreases leaves.len(),
{
    if leaves.len() > 0 {
        lemma_appended_roots_len(
            tree_view_append(v, leaves[0]),
            leaves.subrange(1, leaves.len() as int),
        );
    }
}

/// Root-history aging: after at least `root_history_size` further
/// appends, a root that none of them reproduced is no longer in the
/// history, so a proof built against it fails the root check.
pub proof fn lemma_stale_root_forgotten(v: TreeView, leaves: Seq<[u8; 32]>, root: Seq<u8>)
    requires
        tree_ring_wf(v),
        leaves.len() >= v.root_history_size,
        forall|k: int|
            0 <= k < leaves.len() ==> #[trigger] appended_roots(v, leaves)[k]@ != root,
    ensures
        ({
            let after = tree_view_append_all(v, leaves);
            forall|j: int| 0 <= j < after.roots.len() ==> #[trigger] after.roots[j]@ != root
        }),
{
    let cap = v.root_history_size as int;
    lemma_tree_ring_correspondence(v, leaves);
    let xs = appended_roots(v, leaves);
    lemma_appended_roots_len(v, leaves);
    lemma_ring_ages_out(v.roots, v.root_index, cap, xs);
    let after = tree_view_append_all(v, leaves);
    assert forall|j: int| 0 <= j < after.roots.len() implies #[trigger] after.roots[j]@
        != root by {
        let k = choose|k: int| 0 <= k < xs.len() && #[trigger] after.roots[j] == xs[k];
        assert(xs[k]@ != root);
    }
}

/// 2 to the power `h`, for capacity checks.
pub fn pow2_u64(h: usize) -> (r: u64)
    requires
        h <= 32,
    ensures
        r == pow2(h as nat),
{
    let mut r: u64 = 1;
    let mut l: usize = 0;
    proof {
        lemma2_to64();
    }
    while l < h
        invariant
            l <= h <= 32,
            r == pow2(l as nat),
        decreases h - l,
    {
        proof {
            lemma_pow2_adds(l as nat, 1);
            lemma2_to64();
            lemma_pow2_le((l + 1) as nat, 32);
        }
        r = r * 2;
        l += 1;
    }
    r
}

impl MerkleTreeAccount {
    /// The root produced by appending `leaf` at the current position.
    pub open spec fn append_root(self, leaf: [u8; 32]) -> [u8; 32] {
        level_hash(
            self.filled_subtrees@,
            self.zeros@,
            self.next_index as nat,
            leaf,
            self.height as nat,
        )
    }

    /// Sets up an empty tree: per-level empty-subtree defaults hashed up
    /// from the zero leaf, the cached left siblings primed with them, and
    /// the history seeded with the empty root.  Rejects a zero or
    /// oversized height or history capacity.
    pub fn initialize(
        height: usize,
        root_history_size: usize,
        authority: [u8; 32],
        max_deposit_amount: u64,
    ) -> (r: Result<MerkleTreeAccount, ErrorCode>)
        ensures
            r is Ok <==> (1 <= height <= MAX_TREE_HEIGHT && 1 <= root_history_size
                <= MAX_ROOT_HISTORY_SIZE),
            r is Err ==> r == Err::<MerkleTreeAccount, ErrorCode>(ErrorCode::InvalidTreeParameters),
            r matches Ok(t) ==> ({
                &&& t.wf()
                &&& t.height == height
                &&& t.root_history_size == root_history_size
                &&& t.next_index == 0
                &&& t.root_index == 0
                &&& t.authority == authority
                &&& t.max_deposit_amount == max_deposit_amount
                &&& t.roots@.len() == 1
                &&& t.roots@[0] == t.zeros@[height as int]
                &&& t.filled_subtrees@ == t.zeros@.subrange(0, height as int)
                &&& tree_tracks_leaves(t@, Seq::<Seq<u8>>::empty())
            }),
    {
        if height == 0 || height > MAX_TREE_HEIGHT || root_history_size == 0 || root_history_size
            > MAX_ROOT_HISTORY_SIZE {
            return Err(ErrorCode::InvalidTreeParameters);
        }
        let zero: [u8; 32] = [0; 32];
        proof {
            assert(zero@ =~= zero_leaf());
            lemma_be_val_zero(zero@);
            lemma_field_order_values();
        }
        let mut zeros: Vec<[u8; 32]> = Vec::new();
        zeros.push(zero);
        let mut l: usize = 0;
        while l < height
            invariant
                l <= height,
                zeros@.len() == l + 1,
                zeros@[0]@ == zero_leaf(),
                forall|k: int|
                    0 <= k < l ==> #[trigger] zeros@[k + 1] == poseidon2_of(zeros@[k]@, zeros@[k]@),
                forall|k: int| 0 <= k <= l ==> is_canonical_be(#[trigger] zeros@[k]@),
            decreases height - l,
        {
            let prev = zeros[l];
            let h = poseidon_hash2(&prev, &prev).unwrap();
            zeros.push(h);
            l += 1;
        }
        let mut filled_subtrees: Vec<[u8; 32]> = Vec::new();
        let mut f: usize = 0;
        while f < height
            invariant
                f <= height,
                zeros@.len() == height + 1,
                filled_subtrees@ == zeros@.subrange(0, f as int),
            decreases height - f,
        {
            proof {
                assert(zeros@.subrange(0, f as int).push(zeros@[f as int])
                    =~= zeros@.subrange(0, f + 1));
            }
            filled_subtrees.push(zeros[f]);
            f += 1;
        }
        let empty_root = zeros[height];
        let mut roots: Vec<[u8; 32]> = Vec::new();
        roots.push(empty_root);
        let t = MerkleTreeAccount {
            authority,
            next_index: 0,
            root_index: 0,
            max_deposit_amount,
            height,
            root_history_size,
            filled_subtrees,
            zeros,
            roots,
        };
        proof {
            lemma_empty_tree_tracks(t@);
        }
        Ok(t)
    }

    /// Inserts `leaf` at the next free position, refreshes the cached
    /// left siblings along its path, and records the new root in the
    /// history ring.  Succeeds exactly while the tree is below its
    /// `2^height` capacity; a full tree rejects the leaf unchanged.
    pub fn append(&mut self, leaf: [u8; 32]) -> (r: Result<(), ErrorCode>)
        requires
            old(self).wf(),
            is_canonical_be(leaf@),
        ensures
            final(self).wf(),
            r is Ok <==> old(self).next_index < pow2(old(self).height as nat),
            r is Err ==> r == Err::<(), ErrorCode>(ErrorCode::MerkleTreeFull) && *final(self)
                == *old(self),
            r is Ok ==> ({
                let rt = old(self).append_root(leaf);
                let ring = ring_push(
                    old(self).roots@,
                    old(self).root_index as int,
                    old(self).root_history_size as int,
                    rt,
                );
                &&& final(self).next_index == old(self).next_index + 1
                &&& final(self).height == old(self).height
                &&& final(self).root_history_size == old(self).root_history_size
                &&& final(self).authority == old(self).authority
                &&& final(self).max_deposit_amount == old(self).max_deposit_amount
                &&& final(self).zeros@ == old(self).zeros@
                &&& final(self).filled_subtrees@ == filled_after(
                    old(self).filled_subtrees@,
                    old(self).zeros@,
                    old(self).next_index as nat,
                    leaf,
                )
                &&& final(self).roots@ == ring.0
                &&& final(self).root_index as int == ring.1
                &&& final(self).known_root(rt@)
                &&& is_canonical_be(rt@)
                &&& final(self)@ == tree_view_append(old(self)@, leaf)
            }),
    {
        let height = self.height;
        let capacity = pow2_u64(height);
        if self.next_index >= capacity {
            return Err(ErrorCode::MerkleTreeFull);
        }
        let ghost t0 = *self;
        let mut current = leaf;
        let mut idx = self.next_index;
        let mut level: usize = 0;
        proof {
            lemma2_to64();
        }
        while level < height
            invariant
                t0.wf(),
                level <= height,
                height == t0.height,
                self.height == t0.height,
                self.authority == t0.authority,
                self.next_index == t0.next_index,
                self.root_index == t0.root_index,
                self.max_deposit_amount == t0.max_deposit_amount,
                self.root_history_size == t0.root_history_size,
                self.zeros@ == t0.zeros@,
                self.roots@ == t0.roots@,
                self.filled_subtrees@.len() == t0.filled_subtrees@.len(),
                idx == t0.next_index as nat / pow2(level as nat),
                current == level_hash(
                    t0.filled_subtrees@,
                    t0.zeros@,
                    t0.next_index as nat,
                    leaf,
                    level as nat,
                ),
                is_canonical_be(current@),
                forall|l: int|
                    0 <= l < level ==> #[trigger] self.filled_subtrees@[l] == filled_after(
                        t0.filled_subtrees@,
                        t0.zeros@,
                        t0.next_index as nat,
                        leaf,
                    )[l],
                forall|l: int|
                    level <= l < height ==> #[trigger] self.filled_subtrees@[l]
                        == t0.filled_subtrees@[l],
                forall|l: int|
                    0 <= l < height ==> is_canonical_be(#[trigger] self.filled_subtrees@[l]@),
            decreases height - level,
        {
            let ghost pre_filled = self.filled_subtrees@;
            if idx % 2 == 0 {
                self.filled_subtrees.set(level, current);
                let z = self.zeros[level];
                let next = poseidon_hash2(&current, &z).unwrap();
                current = next;
            } else {
                let f = self.filled_subtrees[level];
                let next = poseidon_hash2(&f, &current).unwrap();
                current = next;
            }
            proof {
                let n = t0.next_index as nat;
                let lv = level as nat;
                lemma_pow2_adds(lv, 1);
                lemma2_to64();
                lemma_div_denominator(n as int, pow2(lv) as int, 2);
                assert(n / pow2(lv) / 2 == n / pow2((lv + 1) as nat));
            }
            idx = idx / 2;
            level += 1;
        }
        let rt = current;
        let cap = self.root_history_size;
        if self.roots.len() < cap {
            self.root_index = self.roots.len();
            self.roots.push(rt);
        } else {
            let ni = (self.root_index + 1) % cap;
            self.root_index = ni;
            self.roots.set(ni, rt);
        }
        proof {
            lemma_pow2_le(t0.height as nat, 32);
            lemma2_to64();
        }
        self.next_index = self.next_index + 1;
        proof {
            assert(self.filled_subtrees@ =~= filled_after(
                t0.filled_subtrees@,
                t0.zeros@,
                t0.next_index as nat,
                leaf,
            ));
            assert(self.known_root(rt@)) by {
                assert(self.roots@[self.root_index as int]@ == rt@);
            }
            assert(self@ =~= tree_view_append(t0@, leaf));
        }
        Ok(())
    }
}

/// Where the history ring comes from: after any sequence of appends, each
/// live entry either is one of the roots just appended, or is an original
/// entry whose position the write cursor has not yet come back round to.
pub proof fn lemma_ring_history(
    roots: Seq<[u8; 32]>,
    root_index: int,
    cap: int,
    xs: Seq<[u8; 32]>,
)
    requires
        ring_wf(roots.len() as int, root_index, cap),
    ensures
        ({
            let after = ring_push_all(roots, root_index, cap, xs);
            &&& ring_wf(after.0.len() as int, after.1, cap)
            &&& roots.len() <= after.0.len()
            &&& forall|j: int|
                0 <= j < after.0.len() ==> (exists|k: int|
                    0 <= k < xs.len() && #[trigger] after.0[j] == xs[k]) || (j < roots.len()
                    && after.0[j] == roots[j] && safe_steps(
                    roots.len() as int,
                    root_index,
                    cap,
                    j,
                ) >= xs.len())
        }),
    decreases xs.len(),
{
    let len = roots.len() as int;
    if xs.len() == 0 {
    } else {
        let stepped = ring_push(roots, root_index, cap, xs[0]);
        let rest = xs.subrange(1, xs.len() as int);
        if len == cap {
            lemma_mod_bound(root_index + 1, cap);
        }
        lemma_ring_history(stepped.0, stepped.1, cap, rest);
        let after = ring_push_all(stepped.0, stepped.1, cap, rest);
        assert forall|j: int|
            0 <= j < after.0.len() implies (exists|k: int|
            0 <= k < xs.len() && #[trigger] after.0[j] == xs[k]) || (j < roots.len()
            && after.0[j] == roots[j] && safe_steps(len, root_index, cap, j) >= xs.len()) by {
            if exists|k: int| 0 <= k < rest.len() && #[trigger] after.0[j] == rest[k] {
                let k = choose|k: int| 0 <= k < rest.len() && #[trigger] after.0[j] == rest[k];
                assert(after.0[j] == xs[k + 1]);
            } else {
                // the inner call left the entry as `stepped` had it
                assert(j < stepped.0.len() && after.0[j] == stepped.0[j] && safe_steps(
                    stepped.0.len() as int,
                    stepped.1,
                    cap,
                    j,
                ) >= rest.len());
                let fresh = if len < cap {
                    len
                } else {
                    (root_index + 1) % cap
                };
                if j == fresh {
                    assert(stepped.0[j] == xs[0]);
                } else {
                    assert(stepped.0[j] == roots[j] && j < roots.len());
                    if safe_steps(len, root_index, cap, j) == 0 {
                        // a zero-age position is exactly the next write slot
                        if len == cap {
                            lemma_zero_safe_is_next_slot(len, root_index, cap, j);
                        } else {
                            assert(safe_steps(len, root_index, cap, j) == cap - len + j >= 1);
                        }
                        assert(false);
                    }
                    lemma_safe_steps_decrease(len, root_index, cap, j);
                }
            }
        }
    }
}

} // verus!
