//! The durable collections of proof records, keyed by proof identifier: one
//! for verification results, one for balance-ownership proofs. A put with an
//! existing identifier replaces the entry; insertion order is kept otherwise.

use vstd::prelude::*;

use crate::records::{TokenProofResult, TokenProofView, VerificationResult, VerificationView};
use crate::strings::str_eq;

verus! {

/// The first position holding a verification result with the given proof
/// identifier, or a negative value when none does.
pub open spec fn spec_vr_index(items: Seq<VerificationView>, id: Seq<char>) -> int
    decreases items.len(),
{
    if items.len() == 0 {
        -1
    } else if items[0].proof_id == id {
        0
    } else {
        let r = spec_vr_index(items.drop_first(), id);
        if r < 0 {
            -1
        } else {
            1 + r
        }
    }
}

/// A scan that saw no match before `i` and a match at `i` pins the first
/// matching position; a scan that saw none at all pins absence.
pub proof fn lemma_vr_index_scan(items: Seq<VerificationView>, id: Seq<char>, i: int)
    requires
        0 <= i <= items.len(),
        forall|j: int| 0 <= j < i ==> #[trigger] items[j].proof_id != id,
        i < items.len() ==> items[i].proof_id == id,
    ensures
        i < items.len() ==> spec_vr_index(items, id) == i,
        i == items.len() ==> spec_vr_index(items, id) == -1,
    decreases items.len(),
{
    if items.len() == 0 {
    } else if items[0].proof_id == id {
    } else {
        assert(forall|j: int|
            0 <= j < i - 1 ==> items.drop_first()[j] == items[j + 1] && #[trigger] items[j
                + 1].proof_id != id);
        lemma_vr_index_scan(items.drop_first(), id, i - 1);
    }
}

/// The durable collection of verification results.
pub struct VerificationStore {
    items: Vec<VerificationResult>,
}

impl View for VerificationStore {
    type V = Seq<VerificationView>;

    closed spec fn view(&self) -> Seq<VerificationView> {
        Seq::new(self.items@.len(), |i: int| self.items@[i]@)
    }
}

impl VerificationStore {
    /// An empty store.
    pub fn new() -> (s: Self)
        ensures
            s@ =~= Seq::<VerificationView>::empty(),
    {
        VerificationStore { items: Vec::new() }
    }

    /// Stores a record under its proof identifier: replaces the entry
    /// holding that identifier, or appends when none does.
    pub fn put(&mut self, r: VerificationResult)
        ensures
            spec_vr_index(old(self)@, r@.proof_id) >= 0 ==> final(self)@ =~= old(self)@.update(
                spec_vr_index(old(self)@, r@.proof_id),
                r@,
            ),
            spec_vr_index(old(self)@, r@.proof_id) < 0 ==> final(self)@ =~= old(self)@.push(r@),
    {
        let n = self.items.len();
        let mut i: usize = 0;
        while i < n
            invariant
                n == self.items@.len(),
                self == old(self),
                i <= n,
                forall|j: int| 0 <= j < i ==> #[trigger] self@[j].proof_id != r@.proof_id,
            decreases n - i,
        {
            if str_eq(self.items[i].proof_id.as_str(), r.proof_id.as_str()) {
                proof {
                    lemma_vr_index_scan(self@, r@.proof_id, i as int);
                }
                vstd::pervasive::VecAdditionalExecFns::set(&mut self.items, i, r);
                proof {
                    assert(self@ =~= old(self)@.update(i as int, self.items@[i as int]@));
                }
                return ;
            }
            i += 1;
        }
        proof {
            lemma_vr_index_scan(self@, r@.proof_id, n as int);
        }
        self.items.push(r);
        proof {
            assert(self@ =~= old(self)@.push(self.items@[n as int]@));
        }
    }

    /// The record stored under a proof identifier, or nothing.
    pub fn get(&self, proof_id: &str) -> (r: Option<VerificationResult>)
        ensures
            match r {
                Option::Some(v) => {
                    let i = spec_vr_index(self@, proof_id@);
                    &&& i >= 0
                    &&& v@ == self@[i]
                },
                Option::None => spec_vr_index(self@, proof_id@) < 0,
            },
    {
        let n = self.items.len();
        let mut i: usize = 0;
        while i < n
            invariant
                n == self.items@.len(),
                i <= n,
                forall|j: int| 0 <= j < i ==> #[trigger] self@[j].proof_id != proof_id@,
            decreases n - i,
        {
            if str_eq(self.items[i].proof_id.as_str(), proof_id) {
                proof {
                    lemma_vr_index_scan(self@, proof_id@, i as int);
                }
                return Option::Some(self.items[i].clone());
            }
            i += 1;
        }
        proof {
            lemma_vr_index_scan(self@, proof_id@, n as int);
        }
        Option::None
    }
}

/// The first position holding a balance-ownership proof with the given proof
/// identifier, or a negative value when none does.
pub open spec fn spec_tp_index(items: Seq<TokenProofView>, id: Seq<char>) -> int
    decreases items.len(),
{
    if items.len() == 0 {
        -1
    } else if items[0].proof_id == id {
        0
    } else {
        let r = spec_tp_index(items.drop_first(), id);
        if r < 0 {
            -1
        } else {
            1 + r
        }
    }
}

/// A scan that saw no match before `i` and a match at `i` pins the first
/// matching position; a scan that saw none at all pins absence.
pub proof fn lemma_tp_index_scan(items: Seq<TokenProofView>, id: Seq<char>, i: int)
    requires
        0 <= i <= items.len(),
        forall|j: int| 0 <= j < i ==> #[trigger] items[j].proof_id != id,
        i < items.len() ==> items[i].proof_id == id,
    ensures
        i < items.len() ==> spec_tp_index(items, id) == i,
        i == items.len() ==> spec_tp_index(items, id) == -1,
    decreases items.len(),
{
    if items.len() == 0 {
    } else if items[0].proof_id == id {
    } else {
        assert(forall|j: int|
            0 <= j < i - 1 ==> items.drop_first()[j] == items[j + 1] && #[trigger] items[j
                + 1].proof_id != id);
        lemma_tp_index_scan(items.drop_first(), id, i - 1);
    }
}

/// The durable collection of balance-ownership proofs.
pub struct TokenProofStore {
    items: Vec<TokenProofResult>,
}

impl View for TokenProofStore {
    type V = Seq<TokenProofView>;

    closed spec fn view(&self) -> Seq<TokenProofView> {
        Seq::new(self.items@.len(), |i: int| self.items@[i]@)
    }
}

impl TokenProofStore {
    /// An empty store.
    pub fn new() -> (s: Self)
        ensures
            s@ =~= Seq::<TokenProofView>::empty(),
    {
        TokenProofStore { items: Vec::new() }
    }

    /// Stores a record under its proof identifier: replaces the entry
    /// holding that identifier, or appends when none does.
    pub fn put(&mut self, r: TokenProofResult)
        ensures
            spec_tp_index(old(self)@, r@.proof_id) >= 0 ==> final(self)@ =~= old(self)@.update(
                spec_tp_index(old(self)@, r@.proof_id),
                r@,
            ),
            spec_tp_index(old(self)@, r@.proof_id) < 0 ==> final(self)@ =~= old(self)@.push(r@),
    {
        let n = self.items.len();
        let mut i: usize = 0;
        while i < n
            invariant
                n == self.items@.len(),
                self == old(self),
                i <= n,
                forall|j: int| 0 <= j < i ==> #[trigger] self@[j].proof_id != r@.proof_id,
            decreases n - i,
        {
            if str_eq(self.items[i].proof_id.as_str(), r.proof_id.as_str()) {
                proof {
                    lemma_tp_index_scan(self@, r@.proof_id, i as int);
                }
                vstd::pervasive::VecAdditionalExecFns::set(&mut self.items, i, r);
                proof {
                    assert(self@ =~= old(self)@.update(i as int, self.items@[i as int]@));
                }
                return ;
            }
            i += 1;
        }
        proof {
            lemma_tp_index_scan(self@, r@.proof_id, n as int);
        }
        self.items.push(r);
        proof {
            assert(self@ =~= old(self)@.push(self.items@[n as int]@));
        }
    }

    /// The record stored under a proof identifier, or nothing.
    pub fn get(&self, proof_id: &str) -> (r: Option<TokenProofResult>)
        ensures
            match r {
                Option::Some(v) => {
                    let i = spec_tp_index(self@, proof_id@);
                    &&& i >= 0
                    &&& v@ == self@[i]
                },
                Option::None => spec_tp_index(self@, proof_id@) < 0,
            },
    {
        let n = self.items.len();
        let mut i: usize = 0;
        while i < n
            invariant
                n == self.items@.len(),
                i <= n,
                forall|j: int| 0 <= j < i ==> #[trigger] self@[j].proof_id != proof_id@,
            decreases n - i,
        {
            if str_eq(self.items[i].proof_id.as_str(), proof_id) {
                proof {
                    lemma_tp_index_scan(self@, proof_id@, i as int);
                }
                return Option::Some(self.items[i].clone());
            }
            i += 1;
        }
        proof {
            lemma_tp_index_scan(self@, proof_id@, n as int);
        }
        Option::None
    }
}

} // verus!
