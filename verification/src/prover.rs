//! The proving side: a hash-based stand-in for a proving circuit. A proof is
//! the digest of the circuit input followed by three commitment digests
//! derived from it; the prover remembers the digests it issued, and
//! verification recognizes exactly those.

use vstd::prelude::*;
use vstd::string::StrSliceExecFns;
use vstd::string::StringExecFns;
use vstd::utf8::encode_utf8;

use crate::codec::push_bytes;
use crate::hashing::{hex_encode, sha256, sha256_of, spec_hex_of};
use crate::strings::str_eq;

verus! {

/// The token standards the prover knows how to describe.
#[derive(Clone, Copy, Debug, PartialEq, Eq, Structural)]
pub enum TokenStandard {
    ERC20,
    ERC721,
    ERC1155,
    ICRC1,
    ICRC2,
    ICP,
}

/// Which ledger a token lives on and how its amounts are scaled.
pub struct TokenMetadata {
    pub canister_id: String,
    pub token_standard: TokenStandard,
    pub decimals: Option<u8>,
}

/// The mathematical content of a [`TokenMetadata`].
#[verifier::ext_equal]
pub struct TokenMetadataView {
    pub canister_id: Seq<char>,
    pub token_standard: TokenStandard,
    pub decimals: Option<u8>,
}

impl View for TokenMetadata {
    type V = TokenMetadataView;

    open spec fn view(&self) -> TokenMetadataView {
        TokenMetadataView {
            canister_id: self.canister_id@,
            token_standard: self.token_standard,
            decimals: self.decimals,
        }
    }
}

/// The circuit input for an ownership proof: the token's metadata, the token
/// and balance encodings, the hash standing in for the owner, and the
/// ledger's inclusion proof.
pub struct TokenOwnershipInput {
    pub token_metadata: TokenMetadata,
    pub token_id: Vec<u8>,
    pub balance: Vec<u8>,
    pub owner_hash: Vec<u8>,
    pub merkle_path: Vec<Vec<u8>>,
    pub path_indices: Vec<u8>,
    pub token_specific_data: Option<Vec<u8>>,
}

/// The mathematical content of a [`TokenOwnershipInput`].
#[verifier::ext_equal]
pub struct TokenOwnershipView {
    pub token_metadata: TokenMetadataView,
    pub token_id: Seq<u8>,
    pub balance: Seq<u8>,
    pub owner_hash: Seq<u8>,
    pub merkle_path: Seq<Seq<u8>>,
    pub path_indices: Seq<u8>,
    pub token_specific_data: Option<Seq<u8>>,
}

impl View for TokenOwnershipInput {
    type V = TokenOwnershipView;

    open spec fn view(&self) -> TokenOwnershipView {
        TokenOwnershipView {
            token_metadata: self.token_metadata@,
            token_id: self.token_id@,
            balance: self.balance@,
            owner_hash: self.owner_hash@,
            merkle_path: Seq::new(self.merkle_path@.len(), |i: int| self.merkle_path@[i]@),
            path_indices: self.path_indices@,
            token_specific_data: match self.token_specific_data {
                Option::Some(ref d) => Option::Some(d@),
                Option::None => Option::None,
            },
        }
    }
}

/// A sequence of byte strings flattened in order.
pub open spec fn spec_concat_bytes(parts: Seq<Seq<u8>>) -> Seq<u8>
    decreases parts.len(),
{
    if parts.len() == 0 {
        Seq::<u8>::empty()
    } else {
        parts[0] + spec_concat_bytes(parts.drop_first())
    }
}

/// Appending one part appends its bytes.
pub proof fn lemma_concat_bytes_push(parts: Seq<Seq<u8>>, p: Seq<u8>)
    ensures
        spec_concat_bytes(parts.push(p)) == spec_concat_bytes(parts) + p,
    decreases parts.len(),
{
    if parts.len() == 0 {
        assert(parts.push(p)[0] == p);
        assert(parts.push(p).drop_first() =~= Seq::<Seq<u8>>::empty());
        assert(spec_concat_bytes(Seq::<Seq<u8>>::empty()) == Seq::<u8>::empty());
        assert(spec_concat_bytes(parts.push(p)) == p + Seq::<u8>::empty());
        assert(p + Seq::<u8>::empty() =~= p);
        assert(spec_concat_bytes(parts) + p =~= p);
    } else {
        assert(parts.push(p).drop_first() =~= parts.drop_first().push(p));
        lemma_concat_bytes_push(parts.drop_first(), p);
        assert(spec_concat_bytes(parts.push(p)) =~= spec_concat_bytes(parts) + p);
    }
}

/// Everything the prover feeds to the digest, in order: the token's ledger
/// identifier, the token and balance encodings, the owner hash, each
/// inclusion-proof node, the side indicators, the token-specific data when
/// present, and the circuit parameter identifier.
pub open spec fn spec_ownership_preimage(param_id: Seq<char>, input: TokenOwnershipView) -> Seq<
    u8,
> {
    encode_utf8(input.token_metadata.canister_id) + input.token_id + input.balance
        + input.owner_hash + spec_concat_bytes(input.merkle_path) + input.path_indices + (match input
        .token_specific_data {
        Option::Some(d) => d,
        Option::None => Seq::<u8>::empty(),
    }) + encode_utf8(param_id)
}

/// The digest the prover derives from a circuit input.
pub open spec fn spec_ownership_digest(param_id: Seq<char>, input: TokenOwnershipView) -> Seq<u8> {
    sha256_of(spec_ownership_preimage(param_id, input))
}

/// The proof bytes issued for a circuit input: the digest, then three
/// commitment digests, each hashing the digest and a counter byte.
pub open spec fn spec_ownership_proof_bytes(param_id: Seq<char>, input: TokenOwnershipView) -> Seq<
    u8,
> {
    let d = spec_ownership_digest(param_id, input);
    d + sha256_of(d + seq![0u8]) + sha256_of(d + seq![1u8]) + sha256_of(d + seq![2u8])
}

/// Whether an identifier is among the issued ones.
pub open spec fn spec_known(ids: Seq<Seq<char>>, id: Seq<char>) -> bool {
    exists|i: int| 0 <= i < ids.len() && ids[i] == id
}

/// The prover's memory of the proofs it has issued, as the hex renderings of
/// their digests.
pub struct ProverRegistry {
    proof_ids: Vec<String>,
}

impl View for ProverRegistry {
    type V = Seq<Seq<char>>;

    closed spec fn view(&self) -> Seq<Seq<char>> {
        Seq::new(self.proof_ids@.len(), |i: int| self.proof_ids@[i]@)
    }
}

impl ProverRegistry {
    /// A registry that has issued nothing.
    pub fn new() -> (r: Self)
        ensures
            r@ =~= Seq::<Seq<char>>::empty(),
    {
        ProverRegistry { proof_ids: Vec::new() }
    }

    /// Whether the registry has issued a proof under this identifier.
    pub fn contains(&self, id: &str) -> (r: bool)
        ensures
            r == spec_known(self@, id@),
    {
        let n = self.proof_ids.len();
        let mut i: usize = 0;
        while i < n
            invariant
                n == self.proof_ids@.len(),
                i <= n,
                forall|j: int| 0 <= j < i ==> self@[j] != id@,
            decreases n - i,
        {
            if str_eq(self.proof_ids[i].as_str(), id) {
                proof {
                    assert(self@[i as int] == id@);
                    assert(spec_known(self@, id@));
                }
                return true;
            }
            i += 1;
        }
        false
    }
}

/// Generates an ownership proof: digests the circuit input under the given
/// parameter identifier, issues the digest with its three commitments, and
/// remembers the digest's hex rendering as an issued proof.
pub fn prove_ownership(registry: &mut ProverRegistry, param_id: &str, input: &TokenOwnershipInput)
    -> (r: Result<Vec<u8>, String>)
    ensures
        r is Ok,
        r matches Ok(p) ==> p@ == spec_ownership_proof_bytes(param_id@, input@),
        final(registry)@ =~= old(registry)@.push(
            spec_hex_of(spec_ownership_digest(param_id@, input@)),
        ),
{
    let mut preimage: Vec<u8> = Vec::new();
    let cid = input.token_metadata.canister_id.as_str().as_bytes_vec();
    push_bytes(&mut preimage, &cid);
    push_bytes(&mut preimage, &input.token_id);
    push_bytes(&mut preimage, &input.balance);
    push_bytes(&mut preimage, &input.owner_hash);
    let ghost before_path = preimage@;
    let n = input.merkle_path.len();
    let mut i: usize = 0;
    while i < n
        invariant
            n == input.merkle_path@.len(),
            i <= n,
            preimage@ == before_path + spec_concat_bytes(input@.merkle_path.take(i as int)),
        decreases n - i,
    {
        push_bytes(&mut preimage, &input.merkle_path[i]);
        proof {
            lemma_concat_bytes_push(
                input@.merkle_path.take(i as int),
                input@.merkle_path[i as int],
            );
            assert(input@.merkle_path.take(i as int).push(input@.merkle_path[i as int])
                =~= input@.merkle_path.take(i + 1));
        }
        i += 1;
    }
    proof {
        assert(input@.merkle_path.take(n as int) =~= input@.merkle_path);
    }
    push_bytes(&mut preimage, &input.path_indices);
    match &input.token_specific_data {
        Option::Some(d) => push_bytes(&mut preimage, d),
        Option::None => {},
    }
    let pid = param_id.as_bytes_vec();
    push_bytes(&mut preimage, &pid);
    proof {
        assert(preimage@ =~= spec_ownership_preimage(param_id@, input@));
    }
    let digest = sha256(preimage.as_slice());

    let mut proof_bytes: Vec<u8> = Vec::new();
    push_bytes(&mut proof_bytes, &digest);
    let mut counter: u8 = 0;
    while counter < 3
        invariant
            counter <= 3,
            digest@ == spec_ownership_digest(param_id@, input@),
            proof_bytes@ == spec_commit_prefix(digest@, counter as int),
        decreases 3 - counter,
    {
        let mut commit_input: Vec<u8> = Vec::new();
        push_bytes(&mut commit_input, &digest);
        commit_input.push(counter);
        proof {
            assert(commit_input@ =~= digest@ + seq![counter]);
        }
        let commitment = sha256(commit_input.as_slice());
        push_bytes(&mut proof_bytes, &commitment);
        counter += 1;
    }

    let hex_id = hex_encode(digest.as_slice());
    registry.proof_ids.push(hex_id);
    proof {
        let d = spec_ownership_digest(param_id@, input@);
        assert(proof_bytes@ =~= spec_ownership_proof_bytes(param_id@, input@));
        assert(registry@ =~= old(registry)@.push(spec_hex_of(d)));
    }
    Result::Ok(proof_bytes)
}

/// The digest followed by the first `k` commitments.
pub open spec fn spec_commit_prefix(d: Seq<u8>, k: int) -> Seq<u8> {
    if k <= 0 {
        d
    } else if k == 1 {
        d + sha256_of(d + seq![0u8])
    } else if k == 2 {
        d + sha256_of(d + seq![0u8]) + sha256_of(d + seq![1u8])
    } else {
        d + sha256_of(d + seq![0u8]) + sha256_of(d + seq![1u8]) + sha256_of(d + seq![2u8])
    }
}

/// Verifies proof bytes: rejects anything shorter than a digest, and accepts
/// exactly the proofs whose leading digest this prover has issued.
pub fn verify_proof(registry: &ProverRegistry, proof_bytes: &Vec<u8>) -> (r: Result<bool, String>)
    ensures
        proof_bytes@.len() < 32 ==> r is Err,
        proof_bytes@.len() >= 32 ==> r == Result::<bool, String>::Ok(
            spec_known(registry@, spec_hex_of(proof_bytes@.subrange(0, 32))),
        ),
{
    if proof_bytes.len() < 32 {
        return Result::Err(String::from_str("Invalid proof format: too short"));
    }
    let head = vstd::slice::slice_subrange(proof_bytes.as_slice(), 0, 32);
    let proof_id = hex_encode(head);
    let known = registry.contains(proof_id.as_str());
    Result::Ok(known)
}

} // verus!
