use ghost_agent::tasks::{
    execute_single_task, parse_disclosure, parse_storage, DisclosureLevel, StorageType, Task,
    TaskConfig, TaskStatus,
};

fn task_with_retries(retries: u8) -> Task {
    Task {
        id: "t".to_string(),
        description: "d".to_string(),
        status: TaskStatus::Pending,
        timestamp: 1,
        config: Some(TaskConfig {
            priority: "low".to_string(),
            execution_delay: 0,
            retry_attempts: retries,
            disclosure_level: "redacted".to_string(),
            storage_type: "encrypted".to_string(),
        }),
    }
}

#[test]
fn disclosure_labels_parse_with_full_fallback() {
    assert_eq!(parse_disclosure("anonymous"), DisclosureLevel::Anonymous);
    assert_eq!(parse_disclosure("redacted"), DisclosureLevel::Redacted);
    assert_eq!(parse_disclosure("full"), DisclosureLevel::Full);
    assert_eq!(parse_disclosure("something-else"), DisclosureLevel::Full);
    assert_eq!(parse_disclosure(""), DisclosureLevel::Full);
}

#[test]
fn storage_labels_parse_with_chain_fallback() {
    assert_eq!(parse_storage("chain"), StorageType::Chain);
    assert_eq!(parse_storage("ipfs"), StorageType::Ipfs);
    assert_eq!(parse_storage("encrypted"), StorageType::Encrypted);
    assert_eq!(parse_storage("cloud"), StorageType::Chain);
}

#[test]
fn retry_exhausts_bound_on_constant_failure() {
    // A task with retry_attempts = 3 whose operation always fails makes
    // exactly three attempts and still completes.
    let mut task = task_with_retries(3);
    let (attempts, storage) = execute_single_task(&mut task, &vec![false, false, false, false]);
    assert_eq!(attempts, 3);
    assert_eq!(task.status, TaskStatus::Completed);
    assert_eq!(storage, StorageType::Encrypted);
}

#[test]
fn retry_stops_at_first_success() {
    let mut task = task_with_retries(5);
    let (attempts, _) = execute_single_task(&mut task, &vec![false, true]);
    assert_eq!(attempts, 2);
    assert_eq!(task.status, TaskStatus::Completed);

    let mut eager = task_with_retries(5);
    let (attempts, _) = execute_single_task(&mut eager, &vec![true]);
    assert_eq!(attempts, 1);
}

#[test]
fn missing_outcomes_count_as_failures() {
    let mut task = task_with_retries(4);
    let (attempts, _) = execute_single_task(&mut task, &Vec::new());
    assert_eq!(attempts, 4);
    assert_eq!(task.status, TaskStatus::Completed);
}

#[test]
fn zero_retry_bound_makes_no_attempt() {
    let mut task = task_with_retries(0);
    let (attempts, _) = execute_single_task(&mut task, &vec![true]);
    assert_eq!(attempts, 0);
    assert_eq!(task.status, TaskStatus::Completed);
}

#[test]
fn task_without_config_runs_once_and_stores_on_chain() {
    let mut task = Task {
        id: "t".to_string(),
        description: "d".to_string(),
        status: TaskStatus::Pending,
        timestamp: 1,
        config: None,
    };
    let (attempts, storage) = execute_single_task(&mut task, &vec![false, false]);
    assert_eq!(attempts, 1);
    assert_eq!(storage, StorageType::Chain);
    assert_eq!(task.status, TaskStatus::Completed);
}
