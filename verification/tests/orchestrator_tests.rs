use ghost_agent::orchestrator::{
    generate_merkle_path, generate_path_indices, hash_principal, System, WalletVerificationRequest,
};
use ghost_agent::prover::{prove_ownership, verify_proof, ProverRegistry};
use ghost_agent::ProofError;
use sha2::{Digest, Sha256};

fn principal_bytes(text: &str) -> Vec<u8> {
    candid::Principal::from_text(text).unwrap().as_slice().to_vec()
}

#[test]
fn zero_minimum_is_invalid_argument_regardless_of_ledger() {
    let mut sys = System::new();
    let r = sys.request_balance_proof(
        "1".to_string(),
        0,
        "id".to_string(),
        Ok(100),
        Ok(vec![1]),
        5,
    );
    assert_eq!(r.unwrap_err(), ProofError::InvalidArgument);

    sys.ledger.add_balance(vec![1, 2, 3], 1, 50);
    let r = sys.request_balance_proof(
        "1".to_string(),
        0,
        "id".to_string(),
        Ok(100),
        Ok(vec![1]),
        5,
    );
    assert_eq!(r.unwrap_err(), ProofError::InvalidArgument);
}

#[test]
fn empty_ledger_is_uninitialized() {
    let mut sys = System::new();
    let r = sys.request_balance_proof(
        "1".to_string(),
        1,
        "2vxsx-fae".to_string(),
        Ok(100),
        Ok(vec![1]),
        5,
    );
    assert_eq!(r.unwrap_err(), ProofError::Uninitialized);
    assert_eq!(sys.get_merkle_root().unwrap_err(), ProofError::Uninitialized);
}

#[test]
fn malformed_identity_is_invalid_argument() {
    let mut sys = System::new();
    sys.ledger.add_balance(vec![9], 1, 10);
    let r = sys.request_balance_proof(
        "1".to_string(),
        1,
        "definitely not a principal".to_string(),
        Ok(100),
        Ok(vec![1]),
        5,
    );
    assert_eq!(r.unwrap_err(), ProofError::InvalidArgument);
}

#[test]
fn oracle_failures_and_low_balances_are_distinguished() {
    let mut sys = System::new();
    sys.ledger.add_balance(vec![9], 1, 10);
    let r = sys.request_balance_proof(
        "1".to_string(),
        100,
        "2vxsx-fae".to_string(),
        Err("ledger unreachable".to_string()),
        Ok(vec![1]),
        5,
    );
    assert_eq!(r.unwrap_err(), ProofError::ExternalCallFailure);

    let r = sys.request_balance_proof(
        "1".to_string(),
        100,
        "2vxsx-fae".to_string(),
        Ok(99),
        Ok(vec![1]),
        5,
    );
    assert_eq!(r.unwrap_err(), ProofError::InsufficientBalance);
}

#[test]
fn successful_request_snapshots_root_and_stores_proof() {
    let mut sys = System::new();
    sys.ledger.add_balance(vec![9], 1, 10);
    let root_before = sys.get_merkle_root().unwrap();

    let r = sys
        .request_balance_proof(
            "1".to_string(),
            100,
            "2vxsx-fae".to_string(),
            Ok(500),
            Ok(vec![7, 7, 7]),
            31337,
        )
        .unwrap();
    assert_eq!(r.token_id, "1");
    assert_eq!(r.merkle_root, root_before);
    assert_eq!(r.proof_data, vec![7, 7, 7]);
    assert!(r.is_valid);
    assert_eq!(r.timestamp, 31337);
    assert_eq!(r.proof_id.len(), 36);
    assert_eq!(r.anonymous_reference.len(), 36);
    assert_ne!(r.anonymous_reference, "2vxsx-fae");

    // The request refreshed the identity's leaf, so the root moved on.
    assert_ne!(sys.get_merkle_root().unwrap(), root_before);
    let identity = principal_bytes("2vxsx-fae");
    assert!(sys.get_balance_proof(&identity, 1).is_some());

    let stored = sys.get_token_proof(r.proof_id.as_str()).unwrap();
    assert_eq!(stored.proof_data, vec![7, 7, 7]);
    assert!(sys.get_token_proof("unknown-proof").is_none());
}

#[test]
fn prover_failure_aborts_after_ledger_refresh() {
    let mut sys = System::new();
    sys.ledger.add_balance(vec![9], 1, 10);
    let r = sys.request_balance_proof(
        "1".to_string(),
        100,
        "2vxsx-fae".to_string(),
        Ok(500),
        Err("prover offline".to_string()),
        5,
    );
    assert_eq!(r.unwrap_err(), ProofError::ExternalCallFailure);
    // No rollback: the leaf refreshed before the prover call stays.
    let identity = principal_bytes("2vxsx-fae");
    assert!(sys.get_balance_proof(&identity, 1).is_some());
}

#[test]
fn request_with_locally_proved_bytes_verifies() {
    let mut sys = System::new();
    sys.ledger.add_balance(vec![9], 1, 10);

    // Prepare the circuit input, run the prover on it, and finish the
    // request with the bytes it issued.
    let oracle: Result<u64, String> = Ok(500);
    let (input, root_hex) = sys
        .prepare_balance_proof(100, "2vxsx-fae", &oracle)
        .unwrap();
    assert_eq!(input.balance, 500u64.to_be_bytes().to_vec());
    assert_eq!(input.owner_hash, Sha256::digest(principal_bytes("2vxsx-fae")).to_vec());

    let mut registry = ProverRegistry::new();
    let proof = prove_ownership(&mut registry, "circuit-v1", &input).unwrap();
    let result = sys
        .finish_balance_proof("1".to_string(), root_hex, Ok(proof.clone()), 7)
        .unwrap();
    assert_eq!(result.proof_data, proof);
    assert_eq!(verify_proof(&registry, &result.proof_data), Ok(true));
}

#[test]
fn merkle_root_renders_as_hex() {
    let mut sys = System::new();
    sys.ledger.add_balance(vec![65], 1, 10);
    let mut h = Sha256::new();
    h.update([65]);
    h.update(1u64.to_be_bytes());
    h.update(10u64.to_be_bytes());
    assert_eq!(sys.get_merkle_root().unwrap(), hex::encode(h.finalize()));
}

#[test]
fn merkle_path_words_follow_sibling_hashes() {
    let mut tree = ghost_agent::merkle::MerkleTree::new();
    tree.add_balance(vec![65], 1, 10);
    tree.add_balance(vec![66], 1, 20);

    // Refreshing (A,1) rewrites its leaf and returns one word per sibling:
    // here the single sibling is B's leaf hash.
    let words = generate_merkle_path(&mut tree, &vec![65], 99);
    let mut hb = Sha256::new();
    hb.update([66]);
    hb.update(1u64.to_be_bytes());
    hb.update(20u64.to_be_bytes());
    let sibling = hb.finalize().to_vec();
    let expected = u64::from_be_bytes(sibling[0..8].try_into().unwrap());
    assert_eq!(words, vec![expected]);

    // An unknown identity is appended rather than rejected.
    let count_before = tree.len();
    generate_merkle_path(&mut tree, &vec![70], 5);
    assert_eq!(tree.len(), count_before + 1);

    let indices = generate_path_indices(&tree);
    assert_eq!(indices.len(), 2);
    assert!(indices.iter().all(|&b| b == 1));
}

#[test]
fn path_indices_of_empty_ledger_are_empty() {
    let tree = ghost_agent::merkle::MerkleTree::new();
    assert!(generate_path_indices(&tree).is_empty());
}

#[test]
fn principal_hash_matches_digest() {
    let identity = vec![1, 2, 3, 4];
    let expected = Sha256::digest(&identity).to_vec();
    assert_eq!(hash_principal(&identity), expected);
}

#[test]
fn wallet_verification_checks_address_shape() {
    let mut sys = System::new();
    let verified = sys.verify_nft_ownership(
        WalletVerificationRequest {
            wallet_address: "0xabc123".to_string(),
            nft_contract_address: None,
            chain_id: "1".to_string(),
        },
        444,
    );
    assert!(verified.is_valid);
    assert_eq!(verified.timestamp, 444);
    let stored = sys.get_verification_proof(verified.proof_id.as_str()).unwrap();
    assert!(stored.is_valid);

    let rejected = sys.verify_nft_ownership(
        WalletVerificationRequest {
            wallet_address: "abc123".to_string(),
            nft_contract_address: None,
            chain_id: "1".to_string(),
        },
        445,
    );
    assert!(!rejected.is_valid);
    assert_ne!(rejected.proof_id, verified.proof_id);
    assert!(sys.get_verification_proof("missing").is_none());
}
