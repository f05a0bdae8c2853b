//! The proof orchestrator: validates a balance-proof request, snapshots the
//! ledger's root, refreshes the requesting identity's leaf, assembles the
//! proving-circuit input, and wraps the prover's reply into a persisted
//! record. The balance oracle and the prover are external collaborators:
//! their replies arrive as plain values, and every contract states what
//! holds for each possible reply.

use vstd::prelude::*;
use vstd::string::StringExecFns;

use crate::hashing::{hex_encode, sha256, sha256_of, spec_hex_of};
use crate::identity::{fresh_id, parse_principal, principal_bytes_of};
use crate::merkle::{
    lemma_key_index_absent, lemma_key_index_first, lemma_key_index_found, lemma_key_index_scan,
    spec_fold, spec_key_index, spec_key_matches, spec_leaf_hash, spec_root, spec_u64_be_bytes,
    u64_be_bytes, views_of, LeafView, MerkleTree,
};
use crate::proofstore::{
    spec_tp_index, spec_vr_index, TokenProofStore, VerificationStore,
};
use crate::records::{clone_bytes, TokenProofResult, VerificationResult};
use crate::reference::ReferenceView;
use crate::store::ReferenceStore;
use crate::strings::{
    lemma_encode_utf8_concat, push_str_bytes, str_starts_with_0x, string_from_utf8,
};
use crate::prover::{TokenMetadata, TokenOwnershipInput, TokenStandard};
use crate::tasks::{TaskConfig, TaskConfigView};
use crate::store::spec_new_task;
use crate::ProofError;
use vstd::utf8::{encode_utf8, encode_utf8_decode_utf8, encode_utf8_valid_utf8};

verus! {

/// The big-endian number in a hash's first eight bytes; zero when the hash
/// is shorter.
pub open spec fn spec_u64_of_prefix(h: Seq<u8>) -> u64 {
    if h.len() >= 8 {
        (((h[0] as u64) << 56) | ((h[1] as u64) << 48) | ((h[2] as u64) << 40) | ((h[3] as u64)
            << 32) | ((h[4] as u64) << 24) | ((h[5] as u64) << 16) | ((h[6] as u64) << 8) | (
        h[7] as u64))
    } else {
        0
    }
}

/// Reads the big-endian number in a hash's first eight bytes, zero when the
/// hash is shorter.
pub fn u64_of_prefix(h: &Vec<u8>) -> (x: u64)
    ensures
        x == spec_u64_of_prefix(h@),
{
    if h.len() >= 8 {
        (((h[0] as u64) << 56) | ((h[1] as u64) << 48) | ((h[2] as u64) << 40) | ((h[3] as u64)
            << 32) | ((h[4] as u64) << 24) | ((h[5] as u64) << 16) | ((h[6] as u64) << 8) | (
        h[7] as u64))
    } else {
        0
    }
}

/// A path of hashes reduced to the numbers in their leading bytes.
pub open spec fn spec_words_of(path: Seq<Seq<u8>>) -> Seq<u64> {
    Seq::new(path.len(), |i: int| spec_u64_of_prefix(path[i]))
}

/// Reduces a path of hashes to the numbers in their leading bytes.
pub fn path_to_words(path: &Vec<Vec<u8>>) -> (words: Vec<u64>)
    ensures
        words@ =~= spec_words_of(views_of(path@)),
{
    let n = path.len();
    let mut words: Vec<u64> = Vec::new();
    let mut i: usize = 0;
    while i < n
        invariant
            n == path@.len(),
            i <= n,
            words@.len() == i,
            forall|j: int| 0 <= j < i ==> words@[j] == spec_u64_of_prefix(#[trigger] path@[j]@),
        decreases n - i,
    {
        let w = u64_of_prefix(&path[i]);
        words.push(w);
        i += 1;
    }
    words
}

/// Renders path numbers back as eight-byte big-endian blocks.
pub fn words_to_path(words: &Vec<u64>) -> (path: Vec<Vec<u8>>)
    ensures
        views_of(path@) =~= Seq::new(words@.len(), |i: int| spec_u64_be_bytes(words@[i])),
{
    let n = words.len();
    let mut path: Vec<Vec<u8>> = Vec::new();
    let mut i: usize = 0;
    while i < n
        invariant
            n == words@.len(),
            i <= n,
            path@.len() == i,
            forall|j: int| 0 <= j < i ==> #[trigger] path@[j]@ == spec_u64_be_bytes(words@[j]),
        decreases n - i,
    {
        let block = u64_be_bytes(words[i]);
        path.push(block);
        i += 1;
    }
    path
}

/// Side indicators rendered as bytes, one when the folded hash stands left.
pub fn bools_to_bytes(v: &Vec<bool>) -> (r: Vec<u8>)
    ensures
        r@ =~= Seq::new(v@.len(), |i: int| if v@[i] {
            1u8
        } else {
            0u8
        }),
{
    let n = v.len();
    let mut r: Vec<u8> = Vec::new();
    let mut i: usize = 0;
    while i < n
        invariant
            n == v@.len(),
            i <= n,
            r@.len() == i,
            forall|j: int| 0 <= j < i ==> r@[j] == (if v@[j] {
                1u8
            } else {
                0u8
            }),
        decreases n - i,
    {
        r.push(if v[i] {
            1
        } else {
            0
        });
        i += 1;
    }
    r
}

/// The leaf list after an insert-or-update for a key: the first leaf holding
/// the key takes the new balance in place; an absent key appends a leaf.
pub open spec fn spec_upsert_leaf(
    leaves: Seq<LeafView>,
    identity: Seq<u8>,
    token_id: u64,
    balance: u64,
) -> Seq<LeafView> {
    let i = spec_key_index(leaves, identity, token_id);
    if i >= 0 {
        leaves.update(i, LeafView { identity, token_id, balance })
    } else {
        leaves.push(LeafView { identity, token_id, balance })
    }
}

/// The digest standing in for an identity in the proving circuit.
pub fn hash_principal(identity: &Vec<u8>) -> (h: Vec<u8>)
    ensures
        h@ == sha256_of(identity@),
        h@.len() == 32,
{
    sha256(identity.as_slice())
}

/// Refreshes the ledger's leaf for the identity under the native asset
/// identifier and returns the identity's inclusion-proof path reduced to
/// numbers: folding the leaf's hash through the underlying sibling hashes
/// reproduces the ledger's new root.
pub fn generate_merkle_path(tree: &mut MerkleTree, identity: &Vec<u8>, balance: u64) -> (words: Vec<
    u64,
>)
    requires
        old(tree).wf(),
    ensures
        final(tree).wf(),
        final(tree)@ =~= spec_upsert_leaf(old(tree)@, identity@, 1, balance),
        spec_key_index(final(tree)@, identity@, 1) >= 0,
        exists|sib: Seq<Seq<u8>>, sides: Seq<bool>|
            {
                &&& spec_root(final(tree)@) == Option::Some(
                    spec_fold(
                        spec_leaf_hash(
                            final(tree)@[spec_key_index(final(tree)@, identity@, 1)],
                        ),
                        sib,
                        sides,
                    ),
                )
                &&& words@ == spec_words_of(sib)
            },
{
    let updated = tree.update_balance(identity, 1, balance);
    if !updated {
        tree.add_balance(clone_bytes(identity), 1, balance);
    }
    proof {
        let before = old(tree)@;
        let idx = spec_key_index(before, identity@, 1);
        if updated {
            lemma_key_index_found(before, identity@, 1);
            lemma_key_index_first(before, identity@, 1);
            assert(spec_key_matches(tree@[idx], identity@, 1));
            lemma_key_index_scan(tree@, identity@, 1, idx);
        } else {
            lemma_key_index_absent(before, identity@, 1);
            assert(spec_key_matches(tree@[before.len() as int], identity@, 1));
            lemma_key_index_scan(tree@, identity@, 1, before.len() as int);
        }
    }
    match tree.generate_proof(identity, 1) {
        Option::Some(parts) => {
            let words = path_to_words(&parts.0);
            proof {
                let sib = views_of(parts.0@);
                let sides = parts.1@;
                let idx2 = spec_key_index(tree@, identity@, 1);
                assert(spec_root(tree@) == Option::Some(
                    spec_fold(spec_leaf_hash(tree@[idx2]), sib, sides),
                ) && words@ == spec_words_of(sib));
            }
            words
        },
        Option::None => {
            proof {
                assert(false);
            }
            Vec::new()
        },
    }
}

/// The side indicators of the first leaf's inclusion proof, as bytes: the
/// underlying sibling hashes fold that leaf's hash to the ledger's root. An
/// empty ledger yields no indicators.
pub fn generate_path_indices(tree: &MerkleTree) -> (indices: Vec<u8>)
    requires
        tree.wf(),
    ensures
        tree@.len() == 0 ==> indices@ =~= Seq::<u8>::empty(),
        tree@.len() > 0 ==> exists|sib: Seq<Seq<u8>>, sides: Seq<bool>|
            {
                &&& spec_root(tree@) == Option::Some(
                    spec_fold(spec_leaf_hash(tree@[0]), sib, sides),
                )
                &&& indices@ == Seq::new(sides.len(), |i: int| if sides[i] {
                    1u8
                } else {
                    0u8
                })
            },
{
    if tree.len() == 0 {
        return Vec::new();
    }
    let first = tree.leaf_at(0);
    proof {
        assert(spec_key_matches(tree@[0], first@.identity, first@.token_id));
        lemma_key_index_scan(tree@, first@.identity, first@.token_id, 0);
    }
    match tree.generate_proof(&first.identity, first.token_id) {
        Option::Some(parts) => {
            let indices = bools_to_bytes(&parts.1);
            proof {
                let sib = views_of(parts.0@);
                let sides = parts.1@;
                assert(spec_root(tree@) == Option::Some(
                    spec_fold(spec_leaf_hash(tree@[0]), sib, sides),
                ) && indices@ == Seq::new(sides.len(), |i: int| if sides[i] {
                    1u8
                } else {
                    0u8
                }));
            }
            indices
        },
        Option::None => {
            proof {
                assert(false);
            }
            Vec::new()
        },
    }
}

/// The hex rendering of a leaf list's root; empty text when there is none.
pub open spec fn spec_root_hex(leaves: Seq<LeafView>) -> Seq<char> {
    match spec_root(leaves) {
        Option::Some(h) => spec_hex_of(h),
        Option::None => Seq::<char>::empty(),
    }
}

/// A request to verify that a wallet owns an asset on some chain.
pub struct WalletVerificationRequest {
    pub wallet_address: String,
    pub nft_contract_address: Option<String>,
    pub chain_id: String,
}

/// The description attached to the task opened for a wallet verification.
pub open spec fn spec_nft_description(wallet: Seq<char>, chain: Seq<char>) -> Seq<char> {
    "NFT ownership verification for wallet "@ + wallet + " on chain "@ + chain
}

/// Renders the wallet-verification task description.
pub fn build_nft_description(wallet: &str, chain: &str) -> (s: String)
    ensures
        s@ == spec_nft_description(wallet@, chain@),
{
    let mut buf: Vec<u8> = Vec::new();
    push_str_bytes(&mut buf, "NFT ownership verification for wallet ");
    push_str_bytes(&mut buf, wallet);
    push_str_bytes(&mut buf, " on chain ");
    push_str_bytes(&mut buf, chain);
    proof {
        let a = "NFT ownership verification for wallet "@;
        let c = " on chain "@;
        lemma_encode_utf8_concat(a, wallet@);
        lemma_encode_utf8_concat(a + wallet@, c);
        lemma_encode_utf8_concat(a + wallet@ + c, chain@);
        assert(buf@ =~= encode_utf8(spec_nft_description(wallet@, chain@)));
        encode_utf8_valid_utf8(spec_nft_description(wallet@, chain@));
        encode_utf8_decode_utf8(spec_nft_description(wallet@, chain@));
    }
    match string_from_utf8(buf) {
        Option::Some(s) => s,
        Option::None => {
            proof {
                assert(false);
            }
            String::new()
        },
    }
}

/// The policy attached to the task opened for a wallet verification: high
/// priority, three retries, anonymous disclosure, on-chain storage.
pub open spec fn spec_nft_task_config() -> TaskConfigView {
    TaskConfigView {
        priority: "high"@,
        execution_delay: 0,
        retry_attempts: 3,
        disclosure_level: "anonymous"@,
        storage_type: "chain"@,
    }
}

/// The whole system's state: the reference store, the balance ledger, and
/// the two proof-record collections. The collections are independent; they
/// share identifiers only by copied text.
pub struct System {
    pub references: ReferenceStore,
    pub ledger: MerkleTree,
    pub verifications: VerificationStore,
    pub token_proofs: TokenProofStore,
}

impl System {
    /// A system with no references, no leaves and no stored proofs.
    pub fn new() -> (s: Self)
        ensures
            s.references@ =~= Seq::<ReferenceView>::empty(),
            s.ledger@ =~= Seq::<LeafView>::empty(),
            s.ledger.wf(),
            s.verifications@.len() == 0,
            s.token_proofs@.len() == 0,
    {
        System {
            references: ReferenceStore::new(),
            ledger: MerkleTree::new(),
            verifications: VerificationStore::new(),
            token_proofs: TokenProofStore::new(),
        }
    }

    /// The hex rendering of the ledger's current root, or the uninitialized
    /// failure while the ledger holds no leaves.
    pub fn get_merkle_root(&self) -> (r: Result<String, ProofError>)
        requires
            self.ledger.wf(),
        ensures
            match r {
                Result::Ok(h) => self.ledger@.len() > 0 && h@ == spec_root_hex(self.ledger@),
                Result::Err(e) => self.ledger@.len() == 0 && e == ProofError::Uninitialized,
            },
    {
        match self.ledger.root_hash() {
            Option::Some(h) => {
                proof {
                    assert(self.ledger@.len() > 0);
                }
                Result::Ok(hex_encode(h.as_slice()))
            },
            Option::None => Result::Err(ProofError::Uninitialized),
        }
    }

    /// The inclusion proof for a key, straight from the ledger.
    pub fn get_balance_proof(&self, identity: &Vec<u8>, token_id: u64) -> (r: Option<
        (Vec<Vec<u8>>, Vec<bool>),
    >)
        requires
            self.ledger.wf(),
        ensures
            match r {
                Option::Some(parts) => {
                    let idx = spec_key_index(self.ledger@, identity@, token_id);
                    &&& idx >= 0
                    &&& parts.0@.len() == parts.1@.len()
                    &&& spec_root(self.ledger@) == Option::Some(
                        spec_fold(
                            spec_leaf_hash(self.ledger@[idx]),
                            views_of(parts.0@),
                            parts.1@,
                        ),
                    )
                },
                Option::None => spec_key_index(self.ledger@, identity@, token_id) < 0,
            },
    {
        self.ledger.generate_proof(identity, token_id)
    }

    /// The stored verification result under a proof identifier.
    pub fn get_verification_proof(&self, proof_id: &str) -> (r: Option<VerificationResult>)
        ensures
            match r {
                Option::Some(v) => {
                    let i = spec_vr_index(self.verifications@, proof_id@);
                    &&& i >= 0
                    &&& v@ == self.verifications@[i]
                },
                Option::None => spec_vr_index(self.verifications@, proof_id@) < 0,
            },
    {
        self.verifications.get(proof_id)
    }

    /// The stored balance-ownership proof under a proof identifier.
    pub fn get_token_proof(&self, proof_id: &str) -> (r: Option<TokenProofResult>)
        ensures
            match r {
                Option::Some(v) => {
                    let i = spec_tp_index(self.token_proofs@, proof_id@);
                    &&& i >= 0
                    &&& v@ == self.token_proofs@[i]
                },
                Option::None => spec_tp_index(self.token_proofs@, proof_id@) < 0,
            },
    {
        self.token_proofs.get(proof_id)
    }

    /// Verifies a wallet's claim by the address's shape, stores the
    /// verification result, and opens a reference with one pending
    /// anonymous-disclosure task documenting the check.
    pub fn verify_nft_ownership(&mut self, request: WalletVerificationRequest, timestamp: u64) -> (r:
        VerificationResult)
        ensures
            r@.is_valid == (request.wallet_address@.len() >= 2 && request.wallet_address@[0] == '0'
                && request.wallet_address@[1] == 'x'),
            r@.timestamp == timestamp,
            r@.proof_id.len() == 36,
            spec_vr_index(old(self).verifications@, r@.proof_id) >= 0 ==> final(self).verifications@
                =~= old(self).verifications@.update(
                spec_vr_index(old(self).verifications@, r@.proof_id),
                r@,
            ),
            spec_vr_index(old(self).verifications@, r@.proof_id) < 0 ==> final(self).verifications@
                =~= old(self).verifications@.push(r@),
            final(self).ledger == old(self).ledger,
            final(self).token_proofs == old(self).token_proofs,
            exists|i: int, tid: Seq<char>|
                {
                    &&& 0 <= i < final(self).references@.len()
                    &&& tid.len() == 36
                    &&& final(self).references@[i].tasks.len() >= 1
                    &&& final(self).references@[i].tasks.last() == spec_new_task(
                        tid,
                        spec_nft_description(request.wallet_address@, request.chain_id@),
                        timestamp,
                        Option::Some(spec_nft_task_config()),
                    )
                },
    {
        let proof_id = fresh_id();
        let is_valid = str_starts_with_0x(request.wallet_address.as_str());
        let result = VerificationResult { proof_id, is_valid, timestamp };
        self.verifications.put(result.clone());

        let reference_id = self.references.open_reference();
        let description = build_nft_description(
            request.wallet_address.as_str(),
            request.chain_id.as_str(),
        );
        let config = TaskConfig {
            priority: String::from_str("high"),
            execution_delay: 0,
            retry_attempts: 3,
            disclosure_level: String::from_str("anonymous"),
            storage_type: String::from_str("chain"),
        };
        proof {
            assert(config@ =~= spec_nft_task_config());
            let rid = reference_id@;
            let oldrefs = old(self).references@;
            if crate::store::spec_ref_index(oldrefs, rid) >= 0 {
                crate::store::lemma_ref_index_found(oldrefs, rid);
                let k = crate::store::spec_ref_index(oldrefs, rid);
                assert(self.references@[k].id == rid);
                crate::store::lemma_ref_index_present(self.references@, rid, k);
            } else {
                assert(self.references@[oldrefs.len() as int].id == rid);
                crate::store::lemma_ref_index_present(
                    self.references@,
                    rid,
                    oldrefs.len() as int,
                );
            }
        }
        let ghost refs_after_open = self.references@;
        let assigned = self.references.assign_task(
            reference_id.as_str(),
            description,
            Option::Some(config),
            timestamp,
        );
        proof {
            match &assigned {
                Option::Some(tid) => {
                    let j = crate::store::spec_ref_index(refs_after_open, reference_id@);
                    crate::store::lemma_ref_index_found(refs_after_open, reference_id@);
                    assert(self.references@[j].tasks.last() == spec_new_task(
                        tid@,
                        spec_nft_description(request.wallet_address@, request.chain_id@),
                        timestamp,
                        Option::Some(spec_nft_task_config()),
                    ));
                    assert(0 <= j < self.references@.len());
                    assert(self.references@[j].tasks.len() >= 1);
                    assert(tid@.len() == 36);
                },
                Option::None => {
                    assert(false);
                },
            }
        }
        result
    }

    /// Validates a balance-proof request and assembles the proving-circuit
    /// input: rejects a zero minimum, an empty ledger, a malformed identity,
    /// a failed oracle call, and a balance below the minimum, in that order;
    /// otherwise snapshots the root's hex rendering, refreshes the
    /// identity's leaf with the oracle's balance, and bundles the circuit
    /// input with that snapshot. Only the ledger changes, and only on
    /// success.
    pub fn prepare_balance_proof(
        &mut self,
        min_balance: u64,
        wallet_address: &str,
        oracle_balance: &Result<u64, String>,
    ) -> (r: Result<(TokenOwnershipInput, String), ProofError>)
        requires
            old(self).ledger.wf(),
        ensures
            final(self).ledger.wf(),
            final(self).references == old(self).references,
            final(self).verifications == old(self).verifications,
            final(self).token_proofs == old(self).token_proofs,
            r is Err ==> final(self).ledger == old(self).ledger,
            min_balance == 0 ==> r == Result::<(TokenOwnershipInput, String), ProofError>::Err(
                ProofError::InvalidArgument,
            ),
            min_balance != 0 && old(self).ledger@.len() == 0 ==> r == Result::<
                (TokenOwnershipInput, String),
                ProofError,
            >::Err(ProofError::Uninitialized),
            min_balance != 0 && old(self).ledger@.len() > 0 && principal_bytes_of(wallet_address@)
                is None ==> r == Result::<(TokenOwnershipInput, String), ProofError>::Err(
                ProofError::InvalidArgument,
            ),
            min_balance != 0 && old(self).ledger@.len() > 0 && principal_bytes_of(wallet_address@)
                is Some && (*oracle_balance) is Err ==> r == Result::<
                (TokenOwnershipInput, String),
                ProofError,
            >::Err(ProofError::ExternalCallFailure),
            min_balance != 0 && old(self).ledger@.len() > 0 && principal_bytes_of(wallet_address@)
                is Some && (*oracle_balance) is Ok && (*oracle_balance)->Ok_0 < min_balance ==> r
                == Result::<(TokenOwnershipInput, String), ProofError>::Err(
                ProofError::InsufficientBalance,
            ),
            min_balance != 0 && old(self).ledger@.len() > 0 && principal_bytes_of(wallet_address@)
                is Some && (*oracle_balance) is Ok && (*oracle_balance)->Ok_0 >= min_balance ==> r
                is Ok,
            match r {
                Result::Ok(pending) => {
                    &&& principal_bytes_of(wallet_address@) matches Some(pb)
                    &&& (*oracle_balance) matches Ok(bal)
                    &&& bal >= min_balance
                    &&& pending.1@ == spec_root_hex(old(self).ledger@)
                    &&& final(self).ledger@ =~= spec_upsert_leaf(old(self).ledger@, pb, 1, bal)
                    &&& pending.0@.token_metadata.canister_id == "ryjl3-tyaaa-aaaaa-aaaba-cai"@
                    &&& pending.0@.token_metadata.token_standard == TokenStandard::ICP
                    &&& pending.0@.token_metadata.decimals == Option::Some(8u8)
                    &&& pending.0@.token_id == spec_u64_be_bytes(1)
                    &&& pending.0@.balance == spec_u64_be_bytes(bal)
                    &&& pending.0@.owner_hash == sha256_of(pb)
                    &&& pending.0@.token_specific_data is None
                    &&& (exists|sib: Seq<Seq<u8>>, sides: Seq<bool>|
                        {
                            &&& spec_root(final(self).ledger@) == Option::Some(
                                spec_fold(
                                    spec_leaf_hash(
                                        final(self).ledger@[spec_key_index(
                                            final(self).ledger@,
                                            pb,
                                            1,
                                        )],
                                    ),
                                    sib,
                                    sides,
                                ),
                            )
                            &&& pending.0@.merkle_path == Seq::new(
                                sib.len(),
                                |i: int| spec_u64_be_bytes(spec_u64_of_prefix(sib[i])),
                            )
                        })
                    &&& (exists|sib: Seq<Seq<u8>>, sides: Seq<bool>|
                        {
                            &&& spec_root(final(self).ledger@) == Option::Some(
                                spec_fold(spec_leaf_hash(final(self).ledger@[0]), sib, sides),
                            )
                            &&& pending.0@.path_indices == Seq::new(
                                sides.len(),
                                |i: int| if sides[i] {
                                    1u8
                                } else {
                                    0u8
                                },
                            )
                        })
                },
                Result::Err(_) => true,
            },
    {
        if min_balance == 0 {
            return Result::Err(ProofError::InvalidArgument);
        }
        let root = match self.ledger.root_hash() {
            Option::Some(h) => h,
            Option::None => {
                return Result::Err(ProofError::Uninitialized);
            },
        };
        let pb = match parse_principal(wallet_address) {
            Option::Some(b) => b,
            Option::None => {
                return Result::Err(ProofError::InvalidArgument);
            },
        };
        let bal: u64 = match oracle_balance {
            Result::Ok(b) => *b,
            Result::Err(_) => {
                return Result::Err(ProofError::ExternalCallFailure);
            },
        };
        if bal < min_balance {
            return Result::Err(ProofError::InsufficientBalance);
        }
        let root_hex = hex_encode(root.as_slice());
        let owner_hash = hash_principal(&pb);
        let words = generate_merkle_path(&mut self.ledger, &pb, bal);
        let ghost after = self.ledger@;
        let indices = generate_path_indices(&self.ledger);
        let merkle_path = words_to_path(&words);
        let input = TokenOwnershipInput {
            token_metadata: TokenMetadata {
                canister_id: String::from_str("ryjl3-tyaaa-aaaaa-aaaba-cai"),
                token_standard: TokenStandard::ICP,
                decimals: Option::Some(8),
            },
            token_id: u64_be_bytes(1),
            balance: u64_be_bytes(bal),
            owner_hash,
            merkle_path,
            path_indices: indices,
            token_specific_data: Option::None,
        };
        proof {
            let (sib, sides) = choose|sib: Seq<Seq<u8>>, sides: Seq<bool>|
                {
                    &&& spec_root(after) == Option::Some(
                        spec_fold(
                            spec_leaf_hash(after[spec_key_index(after, pb@, 1)]),
                            sib,
                            sides,
                        ),
                    )
                    &&& words@ == spec_words_of(sib)
                };
            assert(input@.merkle_path =~= Seq::new(
                sib.len(),
                |i: int| spec_u64_be_bytes(spec_u64_of_prefix(sib[i])),
            ));
            assert(after.len() > 0);
            let (sib2, sides2) = choose|sib2: Seq<Seq<u8>>, sides2: Seq<bool>|
                {
                    &&& spec_root(after) == Option::Some(
                        spec_fold(spec_leaf_hash(after[0]), sib2, sides2),
                    )
                    &&& indices@ == Seq::new(
                        sides2.len(),
                        |i: int| if sides2[i] {
                            1u8
                        } else {
                            0u8
                        },
                    )
                };
            assert(input@.path_indices == indices@);
        }
        Result::Ok((input, root_hex))
    }

    /// Wraps a prover's reply into a stored balance-ownership proof: a
    /// failed prover call is surfaced as an external-call failure; proof
    /// bytes are recorded under a fresh proof identifier together with a
    /// fresh unlinkable anonymized reference, the root snapshot, and the
    /// asset identifier, marked valid.
    pub fn finish_balance_proof(
        &mut self,
        token_id: String,
        merkle_root: String,
        prover_reply: Result<Vec<u8>, String>,
        timestamp: u64,
    ) -> (r: Result<TokenProofResult, ProofError>)
        ensures
            final(self).references == old(self).references,
            final(self).ledger == old(self).ledger,
            final(self).verifications == old(self).verifications,
            prover_reply is Err ==> r == Result::<TokenProofResult, ProofError>::Err(
                ProofError::ExternalCallFailure,
            ) && final(self).token_proofs == old(self).token_proofs,
            prover_reply matches Ok(bytes) ==> r matches Ok(res) && {
                &&& res@.token_id == token_id@
                &&& res@.merkle_root == merkle_root@
                &&& res@.proof_data == bytes@
                &&& res@.timestamp == timestamp
                &&& res@.is_valid == true
                &&& res@.proof_id.len() == 36
                &&& res@.anonymous_reference.len() == 36
                &&& (spec_tp_index(old(self).token_proofs@, res@.proof_id) >= 0 ==> final(self).token_proofs@ =~= old(self).token_proofs@.update(
                    spec_tp_index(old(self).token_proofs@, res@.proof_id),
                    res@,
                ))
                &&& (spec_tp_index(old(self).token_proofs@, res@.proof_id) < 0 ==> final(self).token_proofs@ =~= old(self).token_proofs@.push(res@))
            },
    {
        match prover_reply {
            Result::Ok(bytes) => {
                let proof_id = fresh_id();
                let anonymous_reference = fresh_id();
                let result = TokenProofResult {
                    proof_id,
                    token_id,
                    merkle_root,
                    proof_data: bytes,
                    anonymous_reference,
                    timestamp,
                    is_valid: true,
                };
                self.token_proofs.put(result.clone());
                Result::Ok(result)
            },
            Result::Err(_) => Result::Err(ProofError::ExternalCallFailure),
        }
    }

    /// Serves a balance-proof request end to end, the oracle's and the
    /// prover's replies arriving as plain values: validation and the ledger
    /// refresh as in preparing the proof, then the prover's reply wrapped
    /// and stored. A prover failure aborts after the ledger refresh: the
    /// refreshed leaf is not rolled back.
    pub fn request_balance_proof(
        &mut self,
        token_id: String,
        min_balance: u64,
        wallet_address: String,
        oracle_balance: Result<u64, String>,
        prover_reply: Result<Vec<u8>, String>,
        timestamp: u64,
    ) -> (r: Result<TokenProofResult, ProofError>)
        requires
            old(self).ledger.wf(),
        ensures
            final(self).ledger.wf(),
            final(self).references == old(self).references,
            final(self).verifications == old(self).verifications,
            min_balance == 0 ==> r == Result::<TokenProofResult, ProofError>::Err(
                ProofError::InvalidArgument,
            ) && final(self).ledger == old(self).ledger && final(self).token_proofs == old(
                self,
            ).token_proofs,
            min_balance != 0 && old(self).ledger@.len() == 0 ==> r == Result::<
                TokenProofResult,
                ProofError,
            >::Err(ProofError::Uninitialized) && final(self).ledger == old(self).ledger && final(self).token_proofs == old(self).token_proofs,
            min_balance != 0 && old(self).ledger@.len() > 0 && principal_bytes_of(wallet_address@)
                is None ==> r == Result::<TokenProofResult, ProofError>::Err(
                ProofError::InvalidArgument,
            ) && final(self).ledger == old(self).ledger,
            min_balance != 0 && old(self).ledger@.len() > 0 && principal_bytes_of(wallet_address@)
                is Some && oracle_balance is Err ==> r == Result::<TokenProofResult, ProofError>::Err(
                ProofError::ExternalCallFailure,
            ) && final(self).ledger == old(self).ledger,
            min_balance != 0 && old(self).ledger@.len() > 0 && principal_bytes_of(wallet_address@)
                is Some && oracle_balance is Ok && oracle_balance->Ok_0 < min_balance ==> r
                == Result::<TokenProofResult, ProofError>::Err(ProofError::InsufficientBalance)
                && final(self).ledger == old(self).ledger,
            min_balance != 0 && old(self).ledger@.len() > 0 && principal_bytes_of(wallet_address@)
                is Some && oracle_balance is Ok && oracle_balance->Ok_0 >= min_balance ==> final(self).ledger@ =~= spec_upsert_leaf(
                old(self).ledger@,
                principal_bytes_of(wallet_address@)->Some_0,
                1,
                oracle_balance->Ok_0,
            ) && (match prover_reply {
                Result::Ok(bytes) => r matches Ok(res) && {
                    &&& res@.token_id == token_id@
                    &&& res@.merkle_root == spec_root_hex(old(self).ledger@)
                    &&& res@.proof_data == bytes@
                    &&& res@.timestamp == timestamp
                    &&& res@.is_valid == true
                    &&& res@.proof_id.len() == 36
                    &&& res@.anonymous_reference.len() == 36
                    &&& (spec_tp_index(old(self).token_proofs@, res@.proof_id) >= 0 ==> final(self).token_proofs@ =~= old(self).token_proofs@.update(
                        spec_tp_index(old(self).token_proofs@, res@.proof_id),
                        res@,
                    ))
                    &&& (spec_tp_index(old(self).token_proofs@, res@.proof_id) < 0 ==> final(self).token_proofs@ =~= old(self).token_proofs@.push(res@))
                },
                Result::Err(_) => r == Result::<TokenProofResult, ProofError>::Err(
                    ProofError::ExternalCallFailure,
                ) && final(self).token_proofs == old(self).token_proofs,
            }),
    {
        match self.prepare_balance_proof(min_balance, wallet_address.as_str(), &oracle_balance) {
            Result::Ok(pending) => self.finish_balance_proof(
                token_id,
                pending.1,
                prover_reply,
                timestamp,
            ),
            Result::Err(e) => Result::Err(e),
        }
    }
}

/// Interprets a prover's verification reply: a transport failure or an
/// error reported by the prover is an external-call failure; otherwise the
/// prover's answer is passed through.
pub fn interpret_prover_verification(reply: &Result<Result<bool, String>, String>) -> (r: Result<
    bool,
    ProofError,
>)
    ensures
        match reply {
            Result::Ok(inner) => match inner {
                Result::Ok(v) => r == Result::<bool, ProofError>::Ok(*v),
                Result::Err(_) => r == Result::<bool, ProofError>::Err(
                    ProofError::ExternalCallFailure,
                ),
            },
            Result::Err(_) => r == Result::<bool, ProofError>::Err(
                ProofError::ExternalCallFailure,
            ),
        },
{
    match reply {
        Result::Ok(inner) => match inner {
            Result::Ok(v) => Result::Ok(*v),
            Result::Err(_) => Result::Err(ProofError::ExternalCallFailure),
        },
        Result::Err(_) => Result::Err(ProofError::ExternalCallFailure),
    }
}

} // verus!
