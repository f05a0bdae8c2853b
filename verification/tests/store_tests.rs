use ghost_agent::store::{build_summary, settlement_payload, ReferenceStore};
use ghost_agent::tasks::{TaskConfig, TaskStatus};

#[test]
fn open_assign_execute_lifecycle() {
    let mut store = ReferenceStore::new();
    let reference_id = store.open_reference();
    assert_eq!(reference_id.len(), 36);

    let task_id = store
        .assign_task(reference_id.as_str(), "x".to_string(), None, 1000)
        .unwrap();
    assert_eq!(task_id.len(), 36);

    let tasks = store.list_tasks(reference_id.as_str()).unwrap();
    assert_eq!(tasks.len(), 1);
    assert_eq!(tasks[0].id, task_id);
    assert_eq!(tasks[0].description, "x");
    assert_eq!(tasks[0].status, TaskStatus::Pending);
    assert_eq!(tasks[0].timestamp, 1000);

    // The execution result is the task list as it stood before completion
    // was applied: the task can still show as pending there.
    let returned = store
        .execute_tasks(reference_id.as_str(), 2000, &Vec::new())
        .unwrap();
    assert_eq!(returned.len(), 1);
    assert_eq!(returned[0].status, TaskStatus::Pending);

    // A later lookup sees it completed, and the aggregate proof recorded.
    let after = store.list_tasks(reference_id.as_str()).unwrap();
    assert_eq!(after[0].status, TaskStatus::Completed);
    let reference = store.get_reference(reference_id.as_str()).unwrap();
    assert_eq!(
        reference.zk_proof.unwrap(),
        format!("{{\"reference_id\":\"{}\",\"timestamp\":2000}}", reference_id)
    );
}

#[test]
fn assign_task_to_unknown_reference_is_none() {
    let mut store = ReferenceStore::new();
    assert!(store
        .assign_task("no-such-reference", "x".to_string(), None, 1)
        .is_none());
    assert!(store.list_tasks("no-such-reference").is_none());
    assert!(store.execute_tasks("no-such-reference", 1, &Vec::new()).is_none());
}

#[test]
fn execute_applies_retry_outcomes_per_task() {
    let mut store = ReferenceStore::new();
    let reference_id = store.open_reference();
    let config = TaskConfig {
        priority: "high".to_string(),
        execution_delay: 0,
        retry_attempts: 2,
        disclosure_level: "full".to_string(),
        storage_type: "chain".to_string(),
    };
    store
        .assign_task(reference_id.as_str(), "a".to_string(), Some(config), 1)
        .unwrap();
    store
        .assign_task(reference_id.as_str(), "b".to_string(), None, 2)
        .unwrap();

    let outcomes = vec![vec![false, false], vec![true]];
    store
        .execute_tasks(reference_id.as_str(), 3, &outcomes)
        .unwrap();
    let tasks = store.list_tasks(reference_id.as_str()).unwrap();
    assert!(tasks.iter().all(|t| t.status == TaskStatus::Completed));
}

#[test]
fn delete_reference_reports_existence() {
    let mut store = ReferenceStore::new();
    let reference_id = store.open_reference();
    assert!(store.delete_reference(reference_id.as_str()));
    assert!(!store.delete_reference(reference_id.as_str()));
    assert!(store.list_tasks(reference_id.as_str()).is_none());
}

#[test]
fn summary_renders_identifier_and_timestamp() {
    assert_eq!(
        build_summary("ref-1", 99),
        "{\"reference_id\":\"ref-1\",\"timestamp\":99}"
    );
    assert_eq!(
        build_summary("", 0),
        "{\"reference_id\":\"\",\"timestamp\":0}"
    );
}

#[test]
fn settlement_payload_renders_sorted_keys() {
    let payload = settlement_payload("Ethereum", "ref-9", 7);
    assert_eq!(
        payload,
        b"{\"action\":\"execute_task\",\"chain\":\"Ethereum\",\"reference_id\":\"ref-9\",\"timestamp\":7}".to_vec()
    );
}
