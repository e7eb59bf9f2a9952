//! Persistent pool state: the Merkle tree singleton, the fee policy, and
//! the registry of spent nullifiers.

use vstd::prelude::*;

verus! {

use vstd::arithmetic::power2::pow2;
use crate::errors::ErrorCode;
use crate::field::{is_canonical_be, bytes32_eq};
use crate::merkle_tree::{poseidon2_of, zero_leaf};

/// Height used by a production pool.
pub const MERKLE_TREE_HEIGHT: usize = 26;

/// Root-history capacity used by a production pool.
pub const DEFAULT_ROOT_HISTORY_SIZE: usize = 100;

/// Largest tree height the implementation accepts.
pub const MAX_TREE_HEIGHT: usize = 32;

/// Largest root-history capacity the implementation accepts.
pub const MAX_ROOT_HISTORY_SIZE: usize = 4096;

/// Default deposit cap of a fresh pool.
pub const DEFAULT_MAX_DEPOSIT_AMOUNT: u64 = 1_000_000_000_000;

/// The incremental Merkle tree singleton.
///
/// `filled_subtrees[l]` caches the hash of the last completed left sibling
/// at level `l`; `zeros[l]` is the root of an all-empty subtree of height
/// `l`; `roots` is a bounded ring of recent roots with `root_index`
/// pointing at the latest entry.
pub struct MerkleTreeAccount {
    pub authority: [u8; 32],
    pub next_index: u64,
    pub root_index: usize,
    pub max_deposit_amount: u64,
    pub height: usize,
    pub root_history_size: usize,
    pub filled_subtrees: Vec<[u8; 32]>,
    pub zeros: Vec<[u8; 32]>,
    pub roots: Vec<[u8; 32]>,
}

/// The mathematical content of a tree: the same fields with sequences in
/// place of vectors, for contracts that construct successor states.
#[verifier::ext_equal]
pub struct TreeView {
    pub authority: [u8; 32],
    pub next_index: nat,
    pub root_index: int,
    pub max_deposit_amount: u64,
    pub height: nat,
    pub root_history_size: nat,
    pub filled_subtrees: Seq<[u8; 32]>,
    pub zeros: Seq<[u8; 32]>,
    pub roots: Seq<[u8; 32]>,
}

impl View for MerkleTreeAccount {
    type V = TreeView;

    open spec fn view(&self) -> TreeView {
        TreeView {
            authority: self.authority,
            next_index: self.next_index as nat,
            root_index: self.root_index as int,
            max_deposit_amount: self.max_deposit_amount,
            height: self.height as nat,
            root_history_size: self.root_history_size as nat,
            filled_subtrees: self.filled_subtrees@,
            zeros: self.zeros@,
            roots: self.roots@,
        }
    }
}

impl MerkleTreeAccount {
    /// Structural invariant: sizes line up, the cursor is live, the leaf
    /// count respects capacity, every stored word is a canonical field
    /// element, and the per-level empty-subtree defaults form the hash
    /// chain over the zero leaf.
    pub open spec fn wf(self) -> bool {
        &&& 1 <= self.height <= MAX_TREE_HEIGHT
        &&& 1 <= self.root_history_size <= MAX_ROOT_HISTORY_SIZE
        &&& self.filled_subtrees@.len() == self.height
        &&& self.zeros@.len() == self.height + 1
        &&& 1 <= self.roots@.len() <= self.root_history_size
        &&& (self.root_index as int) < self.roots@.len()
        &&& (self.roots@.len() == self.root_history_size || self.root_index as int
            == self.roots@.len() - 1)
        &&& self.next_index <= pow2(self.height as nat)
        &&& (forall|i: int| 0 <= i < self.zeros@.len() ==> is_canonical_be(#[trigger] self.zeros@[i]@))
        &&& (forall|i: int|
            0 <= i < self.filled_subtrees@.len() ==> is_canonical_be(
                #[trigger] self.filled_subtrees@[i]@,
            ))
        &&& (forall|i: int| 0 <= i < self.roots@.len() ==> is_canonical_be(#[trigger] self.roots@[i]@))
        &&& self.zeros@[0]@ == zero_leaf()
        &&& (forall|l: int|
            0 <= l < self.height ==> #[trigger] self.zeros@[l + 1] == poseidon2_of(
                self.zeros@[l]@,
                self.zeros@[l]@,
            ))
    }

    /// A root is known while it still sits in the history ring.
    pub open spec fn known_root(self, root: Seq<u8>) -> bool {
        exists|i: int| 0 <= i < self.roots@.len() && #[trigger] self.roots@[i]@ == root
    }

    /// Scans the live history entries for `root`.
    pub fn is_known_root(&self, root: &[u8; 32]) -> (r: bool)
        ensures
            r == self.known_root(root@),
    {
        let n = self.roots.len();
        let mut i: usize = 0;
        while i < n
            invariant
                n == self.roots@.len(),
                i <= n,
                forall|j: int| 0 <= j < i ==> #[trigger] self.roots@[j]@ != root@,
            decreases n - i,
        {
            if bytes32_eq(&self.roots[i], root) {
                return true;
            }
            i += 1;
        }
        false
    }
}

/// The pool-wide fee policy, adjusted only by its authority.
pub struct GlobalConfig {
    pub authority: [u8; 32],
    pub deposit_fee_rate: u16,
    pub withdrawal_fee_rate: u16,
    pub fee_error_margin: u16,
}

impl GlobalConfig {
    /// All rates are basis points.
    pub open spec fn wf(self) -> bool {
        &&& crate::valid_bps(self.deposit_fee_rate)
        &&& crate::valid_bps(self.withdrawal_fee_rate)
        &&& crate::valid_bps(self.fee_error_margin)
    }

    /// A fresh pool starts with free deposits, a 25-basis-point withdrawal
    /// fee and a 5% fee error margin.
    pub fn new(authority: [u8; 32]) -> (r: Self)
        ensures
            r.wf(),
            r.authority == authority,
            r.deposit_fee_rate == 0,
            r.withdrawal_fee_rate == 25,
            r.fee_error_margin == 500,
    {
        GlobalConfig { authority, deposit_fee_rate: 0, withdrawal_fee_rate: 25, fee_error_margin: 500 }
    }

    /// Applies the requested policy changes; each given rate must be a
    /// valid basis-point value or the whole update is rejected unchanged.
    pub fn update(
        &mut self,
        deposit_fee_rate: Option<u16>,
        withdrawal_fee_rate: Option<u16>,
        fee_error_margin: Option<u16>,
    ) -> (r: Result<(), ErrorCode>)
        requires
            old(self).wf(),
        ensures
            final(self).wf(),
            r is Ok <==> ((deposit_fee_rate matches Some(d) ==> d <= 10000)
                && (withdrawal_fee_rate matches Some(w) ==> w <= 10000)
                && (fee_error_margin matches Some(m) ==> m <= 10000)),
            r is Err ==> r == Err::<(), ErrorCode>(ErrorCode::InvalidFeeRate) && *final(self) == *old(self),
            r is Ok ==> ({
                &&& final(self).authority == old(self).authority
                &&& final(self).deposit_fee_rate == (if deposit_fee_rate is Some {
                    deposit_fee_rate->0
                } else {
                    old(self).deposit_fee_rate
                })
                &&& final(self).withdrawal_fee_rate == (if withdrawal_fee_rate is Some {
                    withdrawal_fee_rate->0
                } else {
                    old(self).withdrawal_fee_rate
                })
                &&& final(self).fee_error_margin == (if fee_error_margin is Some {
                    fee_error_margin->0
                } else {
                    old(self).fee_error_margin
                })
            }),
    {
        if let Some(d) = deposit_fee_rate {
            if d > 10000 {
                return Err(ErrorCode::InvalidFeeRate);
            }
        }
        if let Some(w) = withdrawal_fee_rate {
            if w > 10000 {
                return Err(ErrorCode::InvalidFeeRate);
            }
        }
        if let Some(m) = fee_error_margin {
            if m > 10000 {
                return Err(ErrorCode::InvalidFeeRate);
            }
        }
        if let Some(d) = deposit_fee_rate {
            self.deposit_fee_rate = d;
        }
        if let Some(w) = withdrawal_fee_rate {
            self.withdrawal_fee_rate = w;
        }
        if let Some(m) = fee_error_margin {
            self.fee_error_margin = m;
        }
        Ok(())
    }
}

/// Registry of spent nullifiers: existence of an entry means "spent", and
/// entries are only ever created, exactly once each.
pub struct NullifierRegistry {
    consumed: Vec<[u8; 32]>,
}

impl NullifierRegistry {
    /// The set of nullifier values spent so far.
    pub closed spec fn spent(self) -> Set<Seq<u8>> {
        Set::new(|s: Seq<u8>| exists|i: int| 0 <= i < self.consumed@.len() && #[trigger] self.consumed@[i]@ == s)
    }

    /// Whether a nullifier has already been spent.
    pub open spec fn is_spent(self, n: Seq<u8>) -> bool {
        self.spent().contains(n)
    }

    /// An empty registry: nothing is spent.
    pub fn new() -> (r: Self)
        ensures
            r.spent() == Set::<Seq<u8>>::empty(),
    {
        let r = NullifierRegistry { consumed: Vec::new() };
        proof {
            assert(r.spent() =~= Set::<Seq<u8>>::empty());
        }
        r
    }

    /// Whether `n` is recorded as spent.
    pub fn contains(&self, n: &[u8; 32]) -> (r: bool)
        ensures
            r == self.is_spent(n@),
    {
        let m = self.consumed.len();
        let mut i: usize = 0;
        while i < m
            invariant
                m == self.consumed@.len(),
                i <= m,
                forall|j: int| 0 <= j < i ==> #[trigger] self.consumed@[j]@ != n@,
            decreases m - i,
        {
            if bytes32_eq(&self.consumed[i], n) {
                proof {
                    assert(self.spent().contains(n@));
                }
                return true;
            }
            i += 1;
        }
        proof {
            assert(!self.spent().contains(n@));
        }
        false
    }

    /// Marks `n` as spent, with create-if-absent semantics: the first
    /// presentation succeeds, every later one fails and changes nothing.
    pub fn consume(&mut self, n: &[u8; 32]) -> (r: Result<(), ErrorCode>)
        ensures
            r is Ok <==> !old(self).is_spent(n@),
            r is Err ==> r == Err::<(), ErrorCode>(ErrorCode::NullifierAlreadyUsed)
                && *final(self) == *old(self),
            r is Ok ==> final(self).spent() == old(self).spent().insert(n@),
    {
        if self.contains(n) {
            return Err(ErrorCode::NullifierAlreadyUsed);
        }
        let ghost pre = *self;
        self.consumed.push(*n);
        proof {
            assert forall|s: Seq<u8>| self.spent().contains(s) <==> pre.spent().insert(n@).contains(s) by {
                if self.spent().contains(s) {
                    let i = choose|i: int|
                        0 <= i < self.consumed@.len() && self.consumed@[i]@ == s;
                    if i < pre.consumed@.len() {
                        assert(pre.consumed@[i]@ == s);
                    }
                }
                if pre.spent().insert(n@).contains(s) {
                    if s == n@ {
                        assert(self.consumed@[self.consumed@.len() - 1]@ == s);
                    } else {
                        let i = choose|i: int|
                            0 <= i < pre.consumed@.len() && pre.consumed@[i]@ == s;
                        assert(self.consumed@[i]@ == s);
                    }
                }
            }
            assert(self.spent() =~= pre.spent().insert(n@));
        }
        Ok(())
    }
}

/// A nullifier can be consumed at most once: after a successful
/// consumption the registry reports it as spent, so by `consume`'s
/// contract any later presentation of the same value must fail.
pub proof fn lemma_double_spend_rejected(before: NullifierRegistry, after: NullifierRegistry, n: [u8; 32])
    requires
        !before.is_spent(n@),
        after.spent() == before.spent().insert(n@),
    ensures
        after.is_spent(n@),
{
    assert(after.spent().contains(n@));
}

} // verus!
