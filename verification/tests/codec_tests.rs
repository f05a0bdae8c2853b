use ghost_agent::records::{TokenProofResult, VerificationResult};
use ghost_agent::reference::Reference;
use ghost_agent::tasks::{Task, TaskConfig, TaskStatus};

#[test]
fn verification_result_roundtrip() {
    let v = VerificationResult {
        proof_id: "abc".to_string(),
        is_valid: true,
        timestamp: 42,
    };
    let bytes = v.to_bytes();
    assert_eq!(bytes.len(), 41);
    // 32-byte identifier slot, zero padded.
    assert_eq!(&bytes[0..3], b"abc");
    assert!(bytes[3..32].iter().all(|&b| b == 0));
    assert_eq!(bytes[32], 1);
    assert_eq!(&bytes[33..41], &42u64.to_le_bytes());

    let back = VerificationResult::from_bytes(&bytes);
    assert_eq!(back.proof_id, "abc");
    assert!(back.is_valid);
    assert_eq!(back.timestamp, 42);
}

#[test]
fn verification_result_truncates_long_identifier() {
    let long_id = "a".repeat(40);
    let v = VerificationResult {
        proof_id: long_id.clone(),
        is_valid: false,
        timestamp: 7,
    };
    let back = VerificationResult::from_bytes(&v.to_bytes());
    // Decoding does not fail; it reproduces exactly the truncated prefix.
    assert_eq!(back.proof_id, long_id[..32]);
    assert!(!back.is_valid);
    assert_eq!(back.timestamp, 7);
}

#[test]
fn verification_result_tolerates_short_input() {
    let back = VerificationResult::from_bytes(&Vec::new());
    assert_eq!(back.proof_id, "");
    assert!(!back.is_valid);
    assert_eq!(back.timestamp, 0);

    let back = VerificationResult::from_bytes(&vec![65, 66]);
    assert_eq!(back.proof_id, "AB");
    assert!(!back.is_valid);
    assert_eq!(back.timestamp, 0);
}

#[test]
fn token_proof_roundtrip() {
    let p = TokenProofResult {
        proof_id: "proof-1".to_string(),
        token_id: "1".to_string(),
        merkle_root: "deadbeef".to_string(),
        proof_data: vec![1, 2, 3, 4, 5],
        anonymous_reference: "anon-1".to_string(),
        timestamp: 123456789,
        is_valid: true,
    };
    let bytes = p.to_bytes();
    assert_eq!(bytes.len(), 141 + 5);
    let back = TokenProofResult::from_bytes(&bytes);
    assert_eq!(back.proof_id, "proof-1");
    assert_eq!(back.token_id, "1");
    assert_eq!(back.merkle_root, "deadbeef");
    assert_eq!(back.proof_data, vec![1, 2, 3, 4, 5]);
    assert_eq!(back.anonymous_reference, "anon-1");
    assert_eq!(back.timestamp, 123456789);
    assert!(back.is_valid);
}

#[test]
fn token_proof_truncates_long_root() {
    // A 64-character hex root exceeds its 32-byte slot: identifiers that
    // collide after truncation are the documented hazard of this codec.
    let root = "ab".repeat(32);
    let p = TokenProofResult {
        proof_id: "p".to_string(),
        token_id: "t".to_string(),
        merkle_root: root.clone(),
        proof_data: Vec::new(),
        anonymous_reference: "a".to_string(),
        timestamp: 1,
        is_valid: true,
    };
    let back = TokenProofResult::from_bytes(&p.to_bytes());
    assert_eq!(back.merkle_root, root[..32]);
}

#[test]
fn token_proof_oversized_length_prefix_yields_empty_payload() {
    let p = TokenProofResult {
        proof_id: "p".to_string(),
        token_id: "t".to_string(),
        merkle_root: "r".to_string(),
        proof_data: vec![9, 9, 9],
        anonymous_reference: "a".to_string(),
        timestamp: 5,
        is_valid: true,
    };
    let mut bytes = p.to_bytes();
    // Advertise more payload bytes than the buffer holds.
    bytes[96] = 0xFF;
    bytes[97] = 0xFF;
    let back = TokenProofResult::from_bytes(&bytes);
    assert_eq!(back.proof_data, Vec::<u8>::new());
}

#[test]
fn token_proof_tolerates_short_input() {
    let back = TokenProofResult::from_bytes(&vec![65; 10]);
    assert_eq!(back.proof_id, "A".repeat(10));
    assert_eq!(back.token_id, "");
    assert_eq!(back.merkle_root, "");
    assert_eq!(back.proof_data, Vec::<u8>::new());
    assert_eq!(back.anonymous_reference, "");
    assert_eq!(back.timestamp, 0);
    assert!(!back.is_valid);
}

#[test]
fn reference_roundtrip_with_tasks_and_proof() {
    let configured = Task {
        id: "task-1".to_string(),
        description: "verify the wallet".to_string(),
        status: TaskStatus::Pending,
        timestamp: 11,
        config: Some(TaskConfig {
            priority: "high".to_string(),
            execution_delay: 250,
            retry_attempts: 3,
            disclosure_level: "anonymous".to_string(),
            storage_type: "ipfs".to_string(),
        }),
    };
    let bare = Task {
        id: "task-2".to_string(),
        description: String::new(),
        status: TaskStatus::Completed,
        timestamp: 12,
        config: None,
    };
    let r = Reference {
        id: "ref-1".to_string(),
        tasks: vec![configured, bare],
        zk_proof: Some("{\"reference_id\":\"ref-1\",\"timestamp\":99}".to_string()),
    };
    let back = Reference::from_bytes(&r.to_bytes());
    assert_eq!(back.id, "ref-1");
    assert_eq!(back.tasks.len(), 2);
    assert_eq!(back.tasks[0].id, "task-1");
    assert_eq!(back.tasks[0].description, "verify the wallet");
    assert_eq!(back.tasks[0].status, TaskStatus::Pending);
    assert_eq!(back.tasks[0].timestamp, 11);
    let cfg = back.tasks[0].config.as_ref().unwrap();
    assert_eq!(cfg.priority, "high");
    assert_eq!(cfg.execution_delay, 250);
    assert_eq!(cfg.retry_attempts, 3);
    assert_eq!(cfg.disclosure_level, "anonymous");
    assert_eq!(cfg.storage_type, "ipfs");
    assert_eq!(back.tasks[1].id, "task-2");
    assert_eq!(back.tasks[1].status, TaskStatus::Completed);
    assert!(back.tasks[1].config.is_none());
    assert_eq!(
        back.zk_proof.as_deref(),
        Some("{\"reference_id\":\"ref-1\",\"timestamp\":99}")
    );
}

#[test]
fn reference_without_tasks_or_proof_roundtrips() {
    let r = Reference {
        id: "empty".to_string(),
        tasks: Vec::new(),
        zk_proof: None,
    };
    let back = Reference::from_bytes(&r.to_bytes());
    assert_eq!(back.id, "empty");
    assert!(back.tasks.is_empty());
    assert!(back.zk_proof.is_none());
}

#[test]
fn reference_decode_tolerates_garbage() {
    let back = Reference::from_bytes(&vec![0xFF; 20]);
    assert_eq!(back.tasks.len(), 0);
    assert!(back.zk_proof.is_none());
}
