//! The balance ledger's Merkle tree: a sequence of (identity, asset) balance
//! leaves in insertion order, a root rebuilt from scratch after every
//! mutation, and inclusion proofs that fold back to that root. At each level
//! adjacent hashes are paired left to right; an unpaired trailing node is
//! promoted to the next level unchanged, and the proof for a promoted node
//! carries no sibling entry for that level.

use vstd::prelude::*;

use crate::codec::push_bytes;
use crate::hashing::{sha256, sha256_of};
use crate::records::clone_bytes;

verus! {

/// One balance entry: the identity's bytes, the asset identifier, and the
/// balance committed for the pair.
pub struct BalanceLeaf {
    pub identity: Vec<u8>,
    pub token_id: u64,
    pub balance: u64,
}

/// The mathematical content of a [`BalanceLeaf`].
#[verifier::ext_equal]
pub struct LeafView {
    pub identity: Seq<u8>,
    pub token_id: u64,
    pub balance: u64,
}

impl View for BalanceLeaf {
    type V = LeafView;

    open spec fn view(&self) -> LeafView {
        LeafView { identity: self.identity@, token_id: self.token_id, balance: self.balance }
    }
}

impl Clone for BalanceLeaf {
    fn clone(&self) -> (r: Self)
        ensures
            r@ == self@,
    {
        BalanceLeaf {
            identity: clone_bytes(&self.identity),
            token_id: self.token_id,
            balance: self.balance,
        }
    }
}

/// The big-endian bytes of a 64-bit number.
pub open spec fn spec_u64_be_bytes(x: u64) -> Seq<u8> {
    seq![
        (x >> 56) as u8,
        (x >> 48) as u8,
        (x >> 40) as u8,
        (x >> 32) as u8,
        (x >> 24) as u8,
        (x >> 16) as u8,
        (x >> 8) as u8,
        x as u8,
    ]
}

/// Writes a 64-bit number in big-endian order.
pub fn u64_be_bytes(x: u64) -> (r: Vec<u8>)
    ensures
        r@ == spec_u64_be_bytes(x),
{
    let mut r: Vec<u8> = Vec::new();
    r.push((x >> 56) as u8);
    r.push((x >> 48) as u8);
    r.push((x >> 40) as u8);
    r.push((x >> 32) as u8);
    r.push((x >> 24) as u8);
    r.push((x >> 16) as u8);
    r.push((x >> 8) as u8);
    r.push(x as u8);
    proof {
        assert(r@ =~= spec_u64_be_bytes(x));
    }
    r
}

/// Byte-for-byte equality of two byte vectors.
pub fn bytes_eq(a: &Vec<u8>, b: &Vec<u8>) -> (r: bool)
    ensures
        r == (a@ == b@),
{
    if a.len() != b.len() {
        return false;
    }
    let n = a.len();
    let mut i: usize = 0;
    while i < n
        invariant
            n == a.len() == b.len(),
            i <= n,
            forall|j: int| 0 <= j < i ==> a@[j] == b@[j],
        decreases n - i,
    {
        if a[i] != b[i] {
            return false;
        }
        i += 1;
    }
    proof {
        assert(a@ =~= b@);
    }
    true
}

/// The hash of a leaf: the digest of its identity bytes, then the asset
/// identifier and balance in big-endian order.
pub open spec fn spec_leaf_hash(l: LeafView) -> Seq<u8> {
    sha256_of(l.identity + spec_u64_be_bytes(l.token_id) + spec_u64_be_bytes(l.balance))
}

impl BalanceLeaf {
    /// Hashes the leaf's fields.
    pub fn hash(&self) -> (h: Vec<u8>)
        ensures
            h@ == spec_leaf_hash(self@),
            h@.len() == 32,
    {
        let mut buf: Vec<u8> = Vec::new();
        push_bytes(&mut buf, &self.identity);
        let t = u64_be_bytes(self.token_id);
        push_bytes(&mut buf, &t);
        let bb = u64_be_bytes(self.balance);
        push_bytes(&mut buf, &bb);
        sha256(buf.as_slice())
    }
}

/// The contents of a sequence of byte vectors.
pub open spec fn views_of(v: Seq<Vec<u8>>) -> Seq<Seq<u8>> {
    Seq::new(v.len(), |i: int| v[i]@)
}

/// The hashes of a sequence of leaves.
pub open spec fn spec_leaf_hashes(leaves: Seq<LeafView>) -> Seq<Seq<u8>> {
    Seq::new(leaves.len(), |i: int| spec_leaf_hash(leaves[i]))
}

/// One level up the tree: adjacent hashes paired left to right, the parent of
/// a pair being the digest of the two in order, an unpaired trailing hash
/// promoted unchanged.
pub open spec fn spec_level_up(level: Seq<Seq<u8>>) -> Seq<Seq<u8>> {
    Seq::new(
        (level.len() + 1) / 2,
        |i: int|
            if 2 * i + 1 < level.len() {
                sha256_of(level[2 * i] + level[2 * i + 1])
            } else {
                level[2 * i]
            },
    )
}

/// The root that a non-empty level reduces to.
pub open spec fn spec_root_of_level(level: Seq<Seq<u8>>) -> Seq<u8>
    recommends
        level.len() >= 1,
    decreases level.len(),
{
    if level.len() <= 1 {
        if level.len() == 1 {
            level[0]
        } else {
            Seq::<u8>::empty()
        }
    } else {
        spec_root_of_level(spec_level_up(level))
    }
}

/// The root committed for a leaf sequence: nothing for no leaves, otherwise
/// the bottom-up fold of their hashes with the promote-odd-node rule.
pub open spec fn spec_root(leaves: Seq<LeafView>) -> Option<Seq<u8>> {
    if leaves.len() == 0 {
        Option::None
    } else {
        Option::Some(spec_root_of_level(spec_leaf_hashes(leaves)))
    }
}

/// Whether a leaf carries the given key.
pub open spec fn spec_key_matches(l: LeafView, identity: Seq<u8>, token_id: u64) -> bool {
    l.identity == identity && l.token_id == token_id
}

/// The first position holding the given key, or a negative value when the
/// key is absent.
pub open spec fn spec_key_index(leaves: Seq<LeafView>, identity: Seq<u8>, token_id: u64) -> int
    decreases leaves.len(),
{
    if leaves.len() == 0 {
        -1
    } else if spec_key_matches(leaves[0], identity, token_id) {
        0
    } else {
        let r = spec_key_index(leaves.drop_first(), identity, token_id);
        if r < 0 {
            -1
        } else {
            1 + r
        }
    }
}

/// A scan that saw no match before `i` and a match at `i` pins the first
/// matching position; a scan that saw none at all pins absence.
pub proof fn lemma_key_index_scan(leaves: Seq<LeafView>, identity: Seq<u8>, token_id: u64, i: int)
    requires
        0 <= i <= leaves.len(),
        forall|j: int| 0 <= j < i ==> !spec_key_matches(leaves[j], identity, token_id),
        i < leaves.len() ==> spec_key_matches(leaves[i], identity, token_id),
    ensures
        i < leaves.len() ==> spec_key_index(leaves, identity, token_id) == i,
        i == leaves.len() ==> spec_key_index(leaves, identity, token_id) == -1,
    decreases leaves.len(),
{
    if leaves.len() == 0 {
    } else if spec_key_matches(leaves[0], identity, token_id) {
    } else {
        assert(forall|j: int|
            0 <= j < i - 1 ==> leaves.drop_first()[j] == leaves[j + 1]
                && !spec_key_matches(leaves[j + 1], identity, token_id));
        lemma_key_index_scan(leaves.drop_first(), identity, token_id, i - 1);
    }
}

/// The position the first-match scan returns is in range and matches, and
/// nothing before it matches.
pub proof fn lemma_key_index_found(leaves: Seq<LeafView>, identity: Seq<u8>, token_id: u64)
    requires
        spec_key_index(leaves, identity, token_id) >= 0,
    ensures
        spec_key_index(leaves, identity, token_id) < leaves.len(),
        spec_key_matches(leaves[spec_key_index(leaves, identity, token_id)], identity, token_id),
    decreases leaves.len(),
{
    if leaves.len() == 0 {
    } else if spec_key_matches(leaves[0], identity, token_id) {
    } else {
        lemma_key_index_found(leaves.drop_first(), identity, token_id);
    }
}

/// Nothing before the first matching position matches.
pub proof fn lemma_key_index_first(leaves: Seq<LeafView>, identity: Seq<u8>, token_id: u64)
    requires
        spec_key_index(leaves, identity, token_id) >= 0,
    ensures
        forall|j: int|
            0 <= j < spec_key_index(leaves, identity, token_id) ==> !spec_key_matches(
                #[trigger] leaves[j],
                identity,
                token_id,
            ),
    decreases leaves.len(),
{
    if leaves.len() == 0 {
    } else if spec_key_matches(leaves[0], identity, token_id) {
    } else {
        lemma_key_index_found(leaves, identity, token_id);
        lemma_key_index_first(leaves.drop_first(), identity, token_id);
        assert forall|j: int|
            0 <= j < spec_key_index(leaves, identity, token_id) implies !spec_key_matches(
            #[trigger] leaves[j],
            identity,
            token_id,
        ) by {
            if j >= 1 {
                assert(leaves.drop_first()[j - 1] == leaves[j]);
            }
        }
    }
}

/// A negative first-match position means nothing matches.
pub proof fn lemma_key_index_absent(leaves: Seq<LeafView>, identity: Seq<u8>, token_id: u64)
    requires
        spec_key_index(leaves, identity, token_id) < 0,
    ensures
        forall|j: int|
            0 <= j < leaves.len() ==> !spec_key_matches(#[trigger] leaves[j], identity, token_id),
    decreases leaves.len(),
{
    if leaves.len() == 0 {
    } else {
        lemma_key_index_absent(leaves.drop_first(), identity, token_id);
        assert forall|j: int|
            0 <= j < leaves.len() implies !spec_key_matches(
            #[trigger] leaves[j],
            identity,
            token_id,
        ) by {
            if j >= 1 {
                assert(leaves.drop_first()[j - 1] == leaves[j]);
            }
        }
    }
}

/// Folding a hash up through an inclusion proof: each sibling is combined on
/// the stated side, levels without a sibling entry leave the hash unchanged.
pub open spec fn spec_fold(h: Seq<u8>, siblings: Seq<Seq<u8>>, sides: Seq<bool>) -> Seq<u8>
    recommends
        siblings.len() == sides.len(),
    decreases siblings.len(),
{
    if siblings.len() == 0 || sides.len() == 0 {
        h
    } else {
        let below = spec_fold(h, siblings.drop_last(), sides.drop_last());
        if sides.last() {
            sha256_of(below + siblings.last())
        } else {
            sha256_of(siblings.last() + below)
        }
    }
}

/// Appending one proof entry extends the fold by one combining step.
pub proof fn lemma_fold_push(h: Seq<u8>, siblings: Seq<Seq<u8>>, sides: Seq<bool>, s: Seq<u8>, b: bool)
    requires
        siblings.len() == sides.len(),
    ensures
        spec_fold(h, siblings.push(s), sides.push(b)) == if b {
            sha256_of(spec_fold(h, siblings, sides) + s)
        } else {
            sha256_of(s + spec_fold(h, siblings, sides))
        },
{
    assert(siblings.push(s).drop_last() =~= siblings);
    assert(sides.push(b).drop_last() =~= sides);
}

/// The balance ledger's tree: the leaves in insertion order and the root
/// they commit to. The root always reflects the current leaves; every
/// mutation rebuilds it before returning.
pub struct MerkleTree {
    leaves: Vec<BalanceLeaf>,
    root: Option<Vec<u8>>,
}

impl View for MerkleTree {
    type V = Seq<LeafView>;

    closed spec fn view(&self) -> Seq<LeafView> {
        Seq::new(self.leaves@.len(), |i: int| self.leaves@[i]@)
    }
}

impl MerkleTree {
    /// The cached root equals the root committed for the current leaves.
    pub closed spec fn wf(&self) -> bool {
        match self.root {
            Option::Some(r) => spec_root(self@) == Option::Some(r@),
            Option::None => spec_root(self@) is None,
        }
    }

    /// An empty tree: no leaves, no root.
    pub fn new() -> (t: Self)
        ensures
            t@ =~= Seq::<LeafView>::empty(),
            t.wf(),
    {
        MerkleTree { leaves: Vec::new(), root: Option::None }
    }

    /// The number of leaves.
    pub fn len(&self) -> (n: usize)
        ensures
            n == self@.len(),
    {
        self.leaves.len()
    }

    /// The leaf at a position, as key and balance.
    pub fn leaf_at(&self, i: usize) -> (l: BalanceLeaf)
        requires
            i < self@.len(),
        ensures
            l@ == self@[i as int],
    {
        self.leaves[i].clone()
    }

    /// The hashes of the current leaves, lowest tree level first.
    fn leaf_level(&self) -> (level: Vec<Vec<u8>>)
        ensures
            views_of(level@) =~= spec_leaf_hashes(self@),
    {
        let mut level: Vec<Vec<u8>> = Vec::new();
        let n = self.leaves.len();
        let mut i: usize = 0;
        while i < n
            invariant
                n == self.leaves.len(),
                i <= n,
                level@.len() == i,
                forall|j: int| 0 <= j < i ==> views_of(level@)[j] == spec_leaf_hashes(self@)[j],
            decreases n - i,
        {
            let h = self.leaves[i].hash();
            level.push(h);
            i += 1;
        }
        level
    }

    /// One level up: pairs combined, an unpaired trailing hash promoted.
    fn level_up_vec(level: &Vec<Vec<u8>>) -> (next: Vec<Vec<u8>>)
        ensures
            views_of(next@) =~= spec_level_up(views_of(level@)),
    {
        let n = level.len();
        let mut next: Vec<Vec<u8>> = Vec::new();
        let mut i: usize = 0;
        while i < n
            invariant
                n == level.len(),
                i == 2 * next@.len() || (i == n && 2 * next@.len() == n + 1),
                i <= n + 1,
                forall|j: int| 0 <= j < next@.len() ==> views_of(next@)[j] == spec_level_up(
                    views_of(level@),
                )[j],
            decreases n - i,
        {
            let ghost prev = next@;
            if i + 1 < n {
                let mut buf: Vec<u8> = Vec::new();
                push_bytes(&mut buf, &level[i]);
                push_bytes(&mut buf, &level[i + 1]);
                let h = sha256(buf.as_slice());
                proof {
                    assert(buf@ == level@[i as int]@ + level@[i + 1]@);
                    assert(h@ == spec_level_up(views_of(level@))[prev.len() as int]);
                }
                next.push(h);
                proof {
                    assert(views_of(next@) =~= views_of(prev).push(h@));
                }
                i += 2;
            } else {
                let promoted = clone_bytes(&level[i]);
                proof {
                    assert(promoted@ == spec_level_up(views_of(level@))[prev.len() as int]);
                }
                next.push(promoted);
                proof {
                    assert(views_of(next@) =~= views_of(prev).push(promoted@));
                    assert(2 * next@.len() == n + 1);
                }
                i = n;
            }
        }
        proof {
            assert(next@.len() == (n + 1) / 2);
        }
        next
    }

    /// Recomputes the root from the current leaves.
    fn rebuild(&mut self)
        ensures
            final(self)@ == old(self)@,
            final(self).leaves == old(self).leaves,
            final(self).wf(),
    {
        if self.leaves.len() == 0 {
            self.root = Option::None;
            return ;
        }
        let mut level = self.leaf_level();
        while level.len() > 1
            invariant
                level@.len() >= 1,
                spec_root_of_level(views_of(level@)) == spec_root_of_level(
                    spec_leaf_hashes(self@),
                ),
            decreases level@.len(),
        {
            let next = Self::level_up_vec(&level);
            proof {
                assert(views_of(next@).len() == (views_of(level@).len() + 1) / 2);
            }
            level = next;
        }
        let r = level.remove(0);
        self.root = Option::Some(r);
    }

    /// Appends a leaf for the key and rebuilds the root.
    pub fn add_balance(&mut self, identity: Vec<u8>, token_id: u64, balance: u64)
        requires
            old(self).wf(),
        ensures
            final(self)@ =~= old(self)@.push(
                LeafView { identity: identity@, token_id, balance },
            ),
            final(self).wf(),
    {
        self.leaves.push(BalanceLeaf { identity, token_id, balance });
        proof {
            assert(self@ =~= old(self)@.push(LeafView { identity: identity@, token_id, balance }));
        }
        self.rebuild();
    }

    /// Updates the balance of the first leaf holding the key, in place, and
    /// rebuilds the root; reports whether the key was present.
    pub fn update_balance(&mut self, identity: &Vec<u8>, token_id: u64, new_balance: u64) -> (found:
        bool)
        requires
            old(self).wf(),
        ensures
            found == (spec_key_index(old(self)@, identity@, token_id) >= 0),
            found ==> final(self)@ =~= old(self)@.update(
                spec_key_index(old(self)@, identity@, token_id),
                LeafView {
                    identity: identity@,
                    token_id,
                    balance: new_balance,
                },
            ),
            !found ==> final(self)@ == old(self)@,
            final(self).wf(),
    {
        let n = self.leaves.len();
        let mut i: usize = 0;
        while i < n
            invariant
                n == self.leaves@.len(),
                self == old(self),
                i <= n,
                forall|j: int| 0 <= j < i ==> !spec_key_matches(self@[j], identity@, token_id),
            decreases n - i,
        {
            if bytes_eq(&self.leaves[i].identity, identity) && self.leaves[i].token_id == token_id {
                proof {
                    lemma_key_index_scan(self@, identity@, token_id, i as int);
                }
                let updated = BalanceLeaf {
                    identity: clone_bytes(identity),
                    token_id,
                    balance: new_balance,
                };
                vstd::pervasive::VecAdditionalExecFns::set(&mut self.leaves, i, updated);
                proof {
                    assert(self@ =~= old(self)@.update(
                        i as int,
                        LeafView { identity: identity@, token_id, balance: new_balance },
                    ));
                }
                self.rebuild();
                return true;
            }
            i += 1;
        }
        proof {
            lemma_key_index_scan(self@, identity@, token_id, n as int);
        }
        false
    }

    /// The current root, or nothing when the tree holds no leaves.
    pub fn root_hash(&self) -> (r: Option<Vec<u8>>)
        requires
            self.wf(),
        ensures
            match r {
                Option::Some(h) => spec_root(self@) == Option::Some(h@),
                Option::None => spec_root(self@) is None,
            },
    {
        match &self.root {
            Option::Some(h) => Option::Some(clone_bytes(h)),
            Option::None => Option::None,
        }
    }

    /// The inclusion proof for the first leaf holding the key: the sibling
    /// hashes and, in parallel, whether the folded hash stands on the left at
    /// that step. Levels where the leaf's ancestor is promoted contribute no
    /// entry. Folding the leaf's hash through the result reproduces the
    /// committed root; absent keys yield nothing.
    pub fn generate_proof(&self, identity: &Vec<u8>, token_id: u64) -> (r: Option<
        (Vec<Vec<u8>>, Vec<bool>),
    >)
        requires
            self.wf(),
        ensures
            match r {
                Option::Some(proof_parts) => {
                    let idx = spec_key_index(self@, identity@, token_id);
                    &&& idx >= 0
                    &&& proof_parts.0@.len() == proof_parts.1@.len()
                    &&& spec_root(self@) == Option::Some(
                        spec_fold(
                            spec_leaf_hash(self@[idx]),
                            views_of(proof_parts.0@),
                            proof_parts.1@,
                        ),
                    )
                },
                Option::None => spec_key_index(self@, identity@, token_id) < 0,
            },
    {
        let n = self.leaves.len();
        let mut found: usize = n;
        let mut i: usize = 0;
        while i < n && found == n
            invariant
                n == self.leaves@.len(),
                i <= n,
                found == n || (found == i && i < n && spec_key_matches(
                    self@[found as int],
                    identity@,
                    token_id,
                )),
                forall|j: int| 0 <= j < i ==> !spec_key_matches(self@[j], identity@, token_id),
            decreases n - i + if found == n {
                1int
            } else {
                0int
            },
        {
            if bytes_eq(&self.leaves[i].identity, identity) && self.leaves[i].token_id == token_id {
                found = i;
            } else {
                i += 1;
            }
        }
        if found == n {
            proof {
                lemma_key_index_scan(self@, identity@, token_id, n as int);
            }
            return Option::None;
        }
        proof {
            lemma_key_index_scan(self@, identity@, token_id, found as int);
        }
        let ghost idx = found as int;
        let ghost leaf0 = spec_leaf_hash(self@[idx]);

        let mut pos = found;
        let mut level = self.leaf_level();
        let mut siblings: Vec<Vec<u8>> = Vec::new();
        let mut sides: Vec<bool> = Vec::new();
        while level.len() > 1
            invariant
                siblings@.len() == sides@.len(),
                pos < level@.len(),
                spec_fold(leaf0, views_of(siblings@), sides@) == views_of(level@)[pos as int],
                spec_root_of_level(views_of(level@)) == spec_root_of_level(
                    spec_leaf_hashes(self@),
                ),
            decreases level@.len(),
        {
            let ghost lv = views_of(level@);
            let ghost prev_sib = views_of(siblings@);
            let ghost prev_sides = sides@;
            let is_left = pos % 2 == 0;
            let sib = if is_left {
                pos + 1
            } else {
                pos - 1
            };
            if sib < level.len() {
                let sib_hash = clone_bytes(&level[sib]);
                siblings.push(sib_hash);
                sides.push(is_left);
                proof {
                    assert(views_of(siblings@) =~= prev_sib.push(lv[sib as int]));
                    assert(sides@ =~= prev_sides.push(is_left));
                    lemma_fold_push(leaf0, prev_sib, prev_sides, lv[sib as int], is_left);
                }
            }
            let next = Self::level_up_vec(&level);
            proof {
                let k = pos as int / 2;
                assert(views_of(next@) == spec_level_up(lv));
                assert(views_of(next@).len() == (lv.len() + 1) / 2);
                if is_left {
                    if (sib as int) < lv.len() {
                        assert(2 * k == pos as int && 2 * k + 1 == sib as int);
                        assert(views_of(next@)[k] == sha256_of(lv[pos as int] + lv[sib as int]));
                    } else {
                        assert(2 * k == pos as int && 2 * k + 1 == lv.len());
                        assert(views_of(next@)[k] == lv[pos as int]);
                    }
                } else {
                    assert(2 * k == pos as int - 1 && 2 * k + 1 == pos as int);
                    assert(views_of(next@)[k] == sha256_of(lv[pos as int - 1] + lv[pos as int]));
                }
                assert(spec_root_of_level(lv) == spec_root_of_level(spec_level_up(lv)));
            }
            pos = pos / 2;
            level = next;
        }
        proof {
            assert(views_of(level@)[0] == spec_root_of_level(views_of(level@)));
        }
        Option::Some((siblings, sides))
    }

    /// Folds a leaf hash through an inclusion proof and compares the result
    /// with an expected root: a sibling is combined on the stated side at
    /// each step, and a missing level carries the hash up unchanged.
    pub fn verify_inclusion(
        leaf_hash: &Vec<u8>,
        siblings: &Vec<Vec<u8>>,
        sides: &Vec<bool>,
        root: &Vec<u8>,
    ) -> (ok: bool)
        requires
            siblings@.len() == sides@.len(),
        ensures
            ok == (spec_fold(leaf_hash@, views_of(siblings@), sides@) == root@),
    {
        let n = siblings.len();
        let mut h = clone_bytes(leaf_hash);
        let mut i: usize = 0;
        while i < n
            invariant
                n == siblings@.len() == sides@.len(),
                i <= n,
                h@ == spec_fold(leaf_hash@, views_of(siblings@).take(i as int), sides@.take(i as int)),
            decreases n - i,
        {
            let mut buf: Vec<u8> = Vec::new();
            if sides[i] {
                push_bytes(&mut buf, &h);
                push_bytes(&mut buf, &siblings[i]);
            } else {
                push_bytes(&mut buf, &siblings[i]);
                push_bytes(&mut buf, &h);
            }
            proof {
                let st = views_of(siblings@).take(i + 1 as int);
                let bt = sides@.take(i + 1 as int);
                assert(st.drop_last() =~= views_of(siblings@).take(i as int));
                assert(bt.drop_last() =~= sides@.take(i as int));
                assert(st.last() == views_of(siblings@)[i as int]);
            }
            h = sha256(buf.as_slice());
            i += 1;
        }
        proof {
            assert(views_of(siblings@).take(n as int) =~= views_of(siblings@));
            assert(sides@.take(n as int) =~= sides@);
        }
        bytes_eq(&h, root)
    }
}

} // verus!
