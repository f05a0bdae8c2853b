use ghost_agent::orchestrator::interpret_prover_verification;
use ghost_agent::prover::{
    prove_ownership, verify_proof, ProverRegistry, TokenMetadata, TokenOwnershipInput,
    TokenStandard,
};
use ghost_agent::ProofError;
use sha2::{Digest, Sha256};

fn sample_input() -> TokenOwnershipInput {
    TokenOwnershipInput {
        token_metadata: TokenMetadata {
            canister_id: "ryjl3-tyaaa-aaaaa-aaaba-cai".to_string(),
            token_standard: TokenStandard::ICP,
            decimals: Some(8),
        },
        token_id: 1u64.to_be_bytes().to_vec(),
        balance: 500u64.to_be_bytes().to_vec(),
        owner_hash: vec![0xAA; 32],
        merkle_path: vec![vec![1; 32], vec![2; 32]],
        path_indices: vec![1, 0],
        token_specific_data: None,
    }
}

fn expected_digest(param_id: &str, input: &TokenOwnershipInput) -> Vec<u8> {
    let mut h = Sha256::new();
    h.update(input.token_metadata.canister_id.as_bytes());
    h.update(&input.token_id);
    h.update(&input.balance);
    h.update(&input.owner_hash);
    for node in &input.merkle_path {
        h.update(node);
    }
    h.update(&input.path_indices);
    if let Some(data) = &input.token_specific_data {
        h.update(data);
    }
    h.update(param_id.as_bytes());
    h.finalize().to_vec()
}

#[test]
fn proof_bytes_carry_digest_and_commitments() {
    let mut registry = ProverRegistry::new();
    let input = sample_input();
    let proof = prove_ownership(&mut registry, "params-v1", &input).unwrap();
    assert_eq!(proof.len(), 128);

    let digest = expected_digest("params-v1", &input);
    assert_eq!(&proof[0..32], digest.as_slice());
    for counter in 0u8..3 {
        let mut h = Sha256::new();
        h.update(&digest);
        h.update([counter]);
        let commitment = h.finalize().to_vec();
        let start = 32 * (1 + counter as usize);
        assert_eq!(&proof[start..start + 32], commitment.as_slice());
    }
}

#[test]
fn verification_recognizes_issued_proofs_only() {
    let mut registry = ProverRegistry::new();
    let proof = prove_ownership(&mut registry, "p", &sample_input()).unwrap();
    assert_eq!(verify_proof(&registry, &proof), Ok(true));

    // A well-formed proof this prover never issued is rejected as invalid.
    assert_eq!(verify_proof(&registry, &vec![0; 32]), Ok(false));

    // Anything shorter than a digest is a format error.
    assert!(verify_proof(&registry, &vec![1, 2, 3]).is_err());
}

#[test]
fn parameter_id_changes_the_proof() {
    let mut registry = ProverRegistry::new();
    let input = sample_input();
    let a = prove_ownership(&mut registry, "params-a", &input).unwrap();
    let b = prove_ownership(&mut registry, "params-b", &input).unwrap();
    assert_ne!(a, b);
    assert_eq!(verify_proof(&registry, &a), Ok(true));
    assert_eq!(verify_proof(&registry, &b), Ok(true));
}

#[test]
fn verification_replies_map_to_errors() {
    assert_eq!(interpret_prover_verification(&Ok(Ok(true))), Ok(true));
    assert_eq!(interpret_prover_verification(&Ok(Ok(false))), Ok(false));
    assert_eq!(
        interpret_prover_verification(&Ok(Err("bad proof".to_string()))),
        Err(ProofError::ExternalCallFailure)
    );
    assert_eq!(
        interpret_prover_verification(&Err("unreachable".to_string())),
        Err(ProofError::ExternalCallFailure)
    );
}
