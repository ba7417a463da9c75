use offloadmq::db::agent::CachedAgentStorage;
use offloadmq::db::apikeys::ApiKeysStorage;
use offloadmq::db::persistent_task_storage::{make_prefix, TaskStorage};
use offloadmq::db::tree::{has_prefix, rank_keys, Rank, Tree};
use offloadmq::error::AppError;
use offloadmq::models::{Agent, AssignedTask, ClientApiKey, UnassignedTask};
use offloadmq::schema::{
    AgentRegistrationRequest, SystemInfo, TaskId, TaskStatus, TaskSubmissionRequest,
};

const DAY: i64 = 86_400_000;

fn system_info() -> SystemInfo {
    SystemInfo {
        os: "linux".to_string(),
        client: "agent/1".to_string(),
        runtime: "native".to_string(),
        cpu_arch: "x86_64".to_string(),
        total_memory_mb: 1024,
        gpu: None,
    }
}

fn agent(uid: &str, caps: &[&str], tier: u8, last_contact: Option<i64>) -> Agent {
    Agent {
        uid: uid.to_string(),
        uid_short: uid.chars().take(8).collect(),
        personal_login_token: "token".to_string(),
        registered_at: 0,
        last_contact,
        capabilities: caps.iter().map(|c| c.to_string()).collect(),
        tier,
        capacity: 1,
        system_info: system_info(),
    }
}

fn task(cap: &str, id: &str, created_at: i64) -> UnassignedTask {
    UnassignedTask {
        id: TaskId { cap: cap.to_string(), id: id.to_string() },
        data: TaskSubmissionRequest {
            capability: cap.to_string(),
            urgent: false,
            restartable: false,
            payload: serde_json::Value::from(1),
            api_key: "client".to_string(),
        },
        created_at,
    }
}

fn pause() {
    let start = std::time::Instant::now();
    while start.elapsed() < std::time::Duration::from_millis(5) {
        std::hint::spin_loop();
    }
}

fn ids(tasks: &[UnassignedTask]) -> Vec<String> {
    tasks.iter().map(|t| t.id.to_string()).collect()
}

#[test]
fn keys_are_ordered_as_byte_strings() {
    assert_eq!(rank_keys(b"a", b"b"), Rank::Before);
    assert_eq!(rank_keys(b"b", b"a"), Rank::After);
    assert_eq!(rank_keys(b"ab", b"ab"), Rank::Same);
    assert_eq!(rank_keys(b"a", b"ab"), Rank::Before);
    assert_eq!(rank_keys(b"ab", b"a"), Rank::After);
    assert_eq!(rank_keys(b"", b""), Rank::Same);
    assert_eq!(rank_keys(b"", b"a"), Rank::Before);
    assert_eq!(rank_keys(&[0xff], &[0x00, 0x01]), Rank::After);
}

#[test]
fn has_prefix_compares_leading_bytes() {
    assert!(has_prefix(b"echo|1", b"echo|"));
    assert!(has_prefix(b"echo|1", b""));
    assert!(has_prefix(b"echo|", b"echo|"));
    assert!(!has_prefix(b"echo", b"echo|"));
    assert!(!has_prefix(b"ocr|1", b"echo|"));
}

#[test]
fn tree_keeps_records_in_key_order() {
    let mut tree: Tree<TaskId> = Tree::new();
    for key in ["m", "c", "x", "a", "mm"] {
        let previous =
            tree.insert(key.as_bytes().to_vec(), TaskId { cap: key.to_string(), id: String::new() });
        assert!(previous.is_none());
    }
    assert_eq!(tree.len(), 5);
    let keys: Vec<Vec<u8>> = (0..tree.len()).map(|i| tree.key_at(i).clone()).collect();
    assert_eq!(keys, vec![b"a".to_vec(), b"c".to_vec(), b"m".to_vec(), b"mm".to_vec(), b"x".to_vec()]);
    assert_eq!(tree.value_at(2).cap, "m");
    assert_eq!(tree.locate(b"mm"), Ok(3));
    assert_eq!(tree.locate(b"b"), Err(1));
    assert_eq!(tree.locate(b"z"), Err(5));
    assert!(tree.contains_key(b"x"));
    assert!(!tree.contains_key(b"y"));
}

#[test]
fn tree_insert_replaces_and_remove_takes_out() {
    let mut tree: Tree<TaskId> = Tree::new();
    tree.insert(b"k".to_vec(), TaskId { cap: "one".to_string(), id: String::new() });
    let previous = tree.insert(b"k".to_vec(), TaskId { cap: "two".to_string(), id: String::new() });
    assert_eq!(previous.unwrap().cap, "one");
    assert_eq!(tree.len(), 1);
    assert_eq!(tree.get(b"k").unwrap().cap, "two");
    assert!(tree.remove(b"missing").is_none());
    assert_eq!(tree.remove(b"k").unwrap().cap, "two");
    assert_eq!(tree.len(), 0);
    assert!(tree.get(b"k").is_none());
}

#[test]
fn tree_pop_at_shifts_the_rest() {
    let mut tree: Tree<TaskId> = Tree::new();
    for key in ["a", "b", "c"] {
        tree.insert(key.as_bytes().to_vec(), TaskId { cap: key.to_string(), id: String::new() });
    }
    let slot = tree.pop_at(1);
    assert_eq!(slot.key, b"b".to_vec());
    assert_eq!(slot.value.cap, "b");
    assert_eq!(tree.len(), 2);
    assert_eq!(tree.value_at(1).cap, "c");
}

#[test]
fn task_keys_join_capability_and_id_with_a_bar() {
    let id = TaskId { cap: "echo".to_string(), id: "01A".to_string() };
    assert_eq!(TaskStorage::make_key(&id), b"echo|01A".to_vec());
    assert_eq!(make_prefix("echo"), b"echo|".to_vec());
    let id = TaskId { cap: "é".to_string(), id: "".to_string() };
    assert_eq!(TaskStorage::make_key(&id), vec![0xc3, 0xa9, b'|']);
}

#[test]
fn added_tasks_wait_until_assigned() {
    let mut store = TaskStorage::new();
    let t = task("c", "01", 10);
    store.add_unassigned(&t);
    assert_eq!(store.get_unassigned(&t.id), Some(t.clone()));
    assert_eq!(store.get_assigned(&t.id), None);
    assert_eq!(ids(&store.list_unassigned_all()), vec!["c/01"]);
}

#[test]
fn add_unassigned_overwrites_a_task_of_the_same_name() {
    let mut store = TaskStorage::new();
    store.add_unassigned(&task("c", "01", 10));
    store.add_unassigned(&task("c", "01", 20));
    let all = store.list_unassigned_all();
    assert_eq!(all.len(), 1);
    assert_eq!(all[0].created_at, 20);
}

#[test]
fn assign_moves_the_task_in_one_step() {
    let mut store = TaskStorage::new();
    let t = task("c", "01", 10);
    store.add_unassigned(&t);
    let assigned = store.assign_task_at(&t.id, "agent-1", 50).unwrap();
    assert_eq!(assigned.id, t.id);
    assert_eq!(assigned.data, t.data);
    assert_eq!(assigned.agent_id, "agent-1");
    assert_eq!(assigned.status, TaskStatus::Queued);
    assert_eq!(assigned.created_at, 10);
    assert_eq!(assigned.assigned_at, 50);
    assert!(assigned.history.is_empty());
    assert_eq!(assigned.result, None);
    assert_eq!(assigned.stage, None);
    assert_eq!(assigned.log, "");
    assert_eq!(store.get_unassigned(&t.id), None);
    assert_eq!(store.get_assigned(&t.id), Some(assigned));
    assert!(store.list_unassigned_all().is_empty());
    assert_eq!(store.list_assigned_all().len(), 1);
}

#[test]
fn assign_never_stamps_a_time_before_creation() {
    let mut store = TaskStorage::new();
    let t = task("c", "01", 100);
    store.add_unassigned(&t);
    let assigned = store.assign_task_at(&t.id, "agent-1", 40).unwrap();
    assert_eq!(assigned.assigned_at, 100);
}

#[test]
fn assign_of_a_task_that_does_not_wait_is_a_conflict() {
    let mut store = TaskStorage::new();
    let t = task("c", "01", 10);
    assert!(matches!(store.assign_task_at(&t.id, "a", 1), Err(AppError::Conflict(_))));
    store.add_unassigned(&t);
    assert!(store.assign_task_at(&t.id, "a", 1).is_ok());
    let second = store.assign_task_at(&t.id, "b", 2);
    assert!(matches!(second, Err(AppError::Conflict(_))));
    assert_eq!(second.unwrap_err().to_string(), "Conflict: Unassigned task not found: c/01");
    assert_eq!(store.get_assigned(&t.id).unwrap().agent_id, "a");
}

#[test]
fn assign_with_the_clock_succeeds_exactly_when_the_task_waits() {
    let mut store = TaskStorage::new();
    let t = task("c", "01", 10);
    store.add_unassigned(&t);
    let assigned = store.assign_task(&t.id, "agent-1").unwrap();
    assert!(assigned.assigned_at >= assigned.created_at);
    assert_eq!(assigned.status, TaskStatus::Queued);
    assert!(matches!(store.assign_task(&t.id, "agent-2"), Err(AppError::Conflict(_))));
}

#[test]
fn scan_by_capability_lists_in_key_order() {
    let mut store = TaskStorage::new();
    for (cap, id) in [("b", "02"), ("a", "03"), ("b", "01"), ("ab", "00"), ("a", "01")] {
        store.add_unassigned(&task(cap, id, 0));
    }
    assert_eq!(ids(&store.list_unassigned_for_capability("a")), vec!["a/01", "a/03"]);
    assert_eq!(ids(&store.list_unassigned_for_capability("b")), vec!["b/01", "b/02"]);
    assert_eq!(ids(&store.list_unassigned_for_capability("ab")), vec!["ab/00"]);
    assert!(store.list_unassigned_for_capability("c").is_empty());
    assert_eq!(
        ids(&store.list_unassigned_all()),
        vec!["ab/00", "a/01", "a/03", "b/01", "b/02"]
    );
}

#[test]
fn scan_by_capability_goes_by_the_key_prefix() {
    let mut store = TaskStorage::new();
    store.add_unassigned(&task("a|b", "01", 0));
    store.add_unassigned(&task("a", "02", 0));
    assert_eq!(ids(&store.list_unassigned_for_capability("a")), vec!["a/02", "a|b/01"]);
}

#[test]
fn scan_with_capabilities_concatenates_the_scans() {
    let mut store = TaskStorage::new();
    for (cap, id) in [("a", "01"), ("b", "01"), ("c", "01"), ("a", "02")] {
        store.add_unassigned(&task(cap, id, 0));
    }
    let caps = vec!["b".to_string(), "a".to_string()];
    assert_eq!(ids(&store.list_unassigned_with_caps(&caps)), vec!["b/01", "a/01", "a/02"]);
    let twice = vec!["a".to_string(), "a".to_string()];
    assert_eq!(
        ids(&store.list_unassigned_with_caps(&twice)),
        vec!["a/01", "a/02", "a/01", "a/02"]
    );
    assert!(store.list_unassigned_with_caps(&Vec::new()).is_empty());
}

#[test]
fn update_assigned_files_the_record_under_its_name() {
    let mut store = TaskStorage::new();
    let t = task("c", "01", 10);
    store.add_unassigned(&t);
    let mut assigned = store.assign_task_at(&t.id, "a", 20).unwrap();
    assigned.status = TaskStatus::Running;
    assigned.stage = Some("half".to_string());
    store.update_assigned(&assigned);
    assert_eq!(store.get_assigned(&t.id), Some(assigned));
    assert_eq!(store.list_assigned_all().len(), 1);
}

#[test]
fn archival_moves_old_tasks_that_are_not_running() {
    let now = 100 * DAY;
    let mut store = TaskStorage::new();
    for n in 0..10 {
        let t = task("c", &format!("{:02}", n), now - 9 * DAY);
        store.add_unassigned(&t);
        let mut assigned = store.assign_task_at(&t.id, "a", now - 8 * DAY).unwrap();
        assigned.status = if n % 2 == 0 { TaskStatus::Completed } else { TaskStatus::Running };
        store.update_assigned(&assigned);
    }
    let moved = store.archive_stale_tasks_at(now);
    assert_eq!(moved.len(), 5);
    assert!(moved.iter().all(|t| t.status == TaskStatus::Completed));
    let moved_ids: Vec<String> = moved.iter().map(|t| t.id.id.clone()).collect();
    assert_eq!(moved_ids, vec!["00", "02", "04", "06", "08"]);
    let left = store.list_assigned_all();
    assert_eq!(left.len(), 5);
    assert!(left.iter().all(|t| t.status == TaskStatus::Running));
    let archived: Vec<AssignedTask> = store.list_archived_all();
    assert_eq!(archived, moved);
    let again = store.archive_stale_tasks_at(now);
    assert!(again.is_empty());
    assert_eq!(store.list_assigned_all(), left);
    assert_eq!(store.list_archived_all(), archived);
}

#[test]
fn archival_waits_for_more_than_seven_days() {
    let mut store = TaskStorage::new();
    let t = task("c", "01", 0);
    store.add_unassigned(&t);
    let mut assigned = store.assign_task_at(&t.id, "a", 1_000).unwrap();
    assigned.status = TaskStatus::Failed;
    store.update_assigned(&assigned);
    assert!(store.archive_stale_tasks_at(1_000 + 7 * DAY).is_empty());
    assert_eq!(store.archive_stale_tasks_at(1_000 + 7 * DAY + 1).len(), 1);
    assert!(store.list_assigned_all().is_empty());
}

#[test]
fn archival_with_the_clock_leaves_recent_tasks() {
    let mut store = TaskStorage::new();
    let t = task("c", "01", 0);
    store.add_unassigned(&t);
    let assigned = store.assign_task(&t.id, "a").unwrap();
    assert!(store.archive_stale_tasks().is_empty());
    assert_eq!(store.list_assigned_all(), vec![assigned]);
}

#[test]
fn stale_means_idle_for_over_a_week_and_not_running() {
    let t = task("c", "01", 0);
    let mut assigned = t.assign_to_at("a", 0);
    assert!(!assigned.is_stale_at(7 * DAY));
    assert!(assigned.is_stale_at(7 * DAY + 1));
    assigned.status = TaskStatus::Running;
    assert!(!assigned.is_stale_at(70 * DAY));
    assert!(!assigned.is_stale_at(i64::MAX));
    let mut far = t.assign_to_at("a", i64::MIN);
    far.status = TaskStatus::Completed;
    assert!(far.is_stale_at(i64::MAX));
}

#[test]
fn agent_registry_files_and_finds_agents() {
    let mut registry = CachedAgentStorage::new(Vec::new(), 120, 120);
    let mut a = agent("01ARZ3NDEKTSV4RRFFQ69G5FAV", &["echo"], 1, None);
    a.uid_short = String::new();
    registry.create_agent(&mut a).unwrap();
    assert_eq!(a.uid, "01ARZ3NDEKTSV4RRFFQ69G5FAV");
    assert_eq!(a.uid_short, "01ARZ3ND");
    assert_eq!(registry.get_agent("01ARZ3NDEKTSV4RRFFQ69G5FAV"), Some(a.clone()));
    assert_eq!(registry.get_agent("unknown"), None);
    assert_eq!(registry.list_all_agents(), vec![a]);
}

#[test]
fn create_agent_gives_a_fresh_uid_where_needed() {
    let mut registry = CachedAgentStorage::new(Vec::new(), 120, 120);
    let mut nameless = agent("", &["echo"], 1, None);
    registry.create_agent(&mut nameless).unwrap();
    assert_eq!(nameless.uid.len(), 26);
    assert_eq!(nameless.uid_short, &nameless.uid[..8]);
    let mut clash = agent(&nameless.uid, &["ocr"], 2, None);
    registry.create_agent(&mut clash).unwrap();
    assert_ne!(clash.uid, nameless.uid);
    assert_eq!(clash.uid.len(), 26);
    assert_eq!(registry.list_all_agents().len(), 2);
    assert_eq!(registry.get_agent(&nameless.uid).unwrap().capabilities, vec!["echo"]);
    assert_eq!(registry.get_agent(&clash.uid).unwrap().capabilities, vec!["ocr"]);
}

#[test]
fn registry_starts_with_the_given_agents() {
    let first = agent("b", &["x"], 1, None);
    let second = agent("a", &["y"], 2, None);
    let replaced = agent("b", &["z"], 3, None);
    let mut registry =
        CachedAgentStorage::new(vec![first, second.clone(), replaced.clone()], 120, 120);
    assert_eq!(registry.list_all_agents(), vec![second.clone(), replaced.clone()]);
    assert_eq!(registry.get_agent("b"), Some(replaced));
    assert_eq!(registry.get_agent("a"), Some(second));
}

#[test]
fn update_agent_needs_a_known_agent() {
    let mut registry = CachedAgentStorage::new(Vec::new(), 120, 120);
    let a = agent("a1", &["echo"], 1, None);
    let r = registry.update_agent(a.clone());
    assert!(matches!(r, Err(AppError::NotFound(_))));
    assert_eq!(r.unwrap_err().to_string(), "Not found: Agent a1 not found");
    assert!(registry.list_all_agents().is_empty());
    let mut filed = a.clone();
    registry.create_agent(&mut filed).unwrap();
    let mut changed = filed.clone();
    changed.tier = 9;
    registry.update_agent(changed.clone()).unwrap();
    assert_eq!(registry.get_agent("a1"), Some(changed));
}

#[test]
fn update_last_contact_stamps_the_record() {
    let mut registry = CachedAgentStorage::new(vec![agent("a1", &["echo"], 1, None)], 120, 120);
    let stamped =
        registry.update_agent_last_contact_at(registry.list_all_agents()[0].clone(), 777).unwrap();
    assert_eq!(stamped.last_contact, Some(777));
    assert_eq!(registry.get_agent("a1").unwrap().last_contact, Some(777));
    let stamped = registry.update_agent_last_contact(stamped).unwrap();
    assert!(stamped.last_contact.unwrap() > 777);
    assert!(stamped.is_online());
    let unknown = agent("zz", &[], 0, None);
    assert!(matches!(
        registry.update_agent_last_contact_at(unknown, 1),
        Err(AppError::NotFound(_))
    ));
}

#[test]
fn delete_agent_removes_it_from_table_and_cache() {
    let mut registry = CachedAgentStorage::new(vec![agent("a1", &["echo"], 1, None)], 120, 120);
    assert!(registry.get_agent("a1").is_some());
    registry.delete_agent("a1");
    assert_eq!(registry.get_agent("a1"), None);
    assert!(registry.list_all_agents().is_empty());
    registry.delete_agent("a1");
    assert!(registry.list_all_agents().is_empty());
}

#[test]
fn get_agent_survives_an_expired_cache() {
    let mut registry = CachedAgentStorage::new(vec![agent("a1", &["echo"], 1, None)], 0, 0);
    pause();
    registry.cleanup_expired();
    assert_eq!(registry.get_cache_stats(), (0, 0));
    assert!(registry.get_agent("a1").is_some());
    assert!(registry.get_agent("a1").is_some());
}

#[test]
fn tokens_are_remembered_until_removed() {
    let mut registry = CachedAgentStorage::new(Vec::new(), 120, 120);
    assert!(!registry.has_token("t1"));
    registry.insert_token("t1".to_string());
    registry.insert_token("t2".to_string());
    assert!(registry.has_token("t1"));
    assert!(registry.has_token("t2"));
    assert_eq!(registry.get_cache_stats().1, 2);
    registry.remove_token("t1");
    assert!(!registry.has_token("t1"));
    assert!(registry.has_token("t2"));
}

#[test]
fn tokens_expire() {
    let mut registry = CachedAgentStorage::new(Vec::new(), 0, 0);
    registry.insert_token("t1".to_string());
    pause();
    assert!(!registry.has_token("t1"));
}

#[test]
fn agent_from_registration_request() {
    let request = AgentRegistrationRequest {
        capabilities: vec!["echo".to_string()],
        tier: 3,
        capacity: 2,
        system_info: system_info(),
        api_key: "k".to_string(),
    };
    let a: Agent = request.into();
    assert_eq!(a.uid.len(), 26);
    assert_eq!(a.uid_short, "");
    assert_eq!(a.personal_login_token.len(), 36);
    assert_eq!(a.last_contact, None);
    assert_eq!(a.capabilities, vec!["echo"]);
    assert_eq!(a.tier, 3);
    assert_eq!(a.capacity, 2);
    assert_eq!(a.system_info, system_info());
    assert!(!a.is_online());
}

#[test]
fn online_means_heard_from_within_120_seconds() {
    let now = 1_000_000;
    assert!(!agent("a", &[], 0, None).is_online_at(now));
    assert!(agent("a", &[], 0, Some(now)).is_online_at(now));
    assert!(agent("a", &[], 0, Some(now - 120_000)).is_online_at(now));
    assert!(!agent("a", &[], 0, Some(now - 120_001)).is_online_at(now));
    assert!(agent("a", &[], 0, Some(now + 5_000)).is_online_at(now));
    assert!(!agent("a", &[], 0, Some(i64::MIN)).is_online_at(i64::MAX));
    assert!(agent("a", &[], 0, Some(i64::MAX)).is_online_at(i64::MIN));
}

#[test]
fn wildcard_key_match() {
    let star = vec!["*".to_string()];
    assert!(ApiKeysStorage::has_capability(&star, "anything"));
    assert!(ApiKeysStorage::has_capability(&star, ""));
    assert!(ApiKeysStorage::has_capability(&vec!["foo*".to_string()], "foobar"));
    assert!(ApiKeysStorage::has_capability(&vec!["foo*".to_string()], "foo"));
    assert!(!ApiKeysStorage::has_capability(&vec!["foo".to_string()], "foobar"));
    assert!(ApiKeysStorage::has_capability(&vec!["foo".to_string()], "foo"));
    assert!(!ApiKeysStorage::has_capability(&vec!["foo*".to_string()], "fo"));
    assert!(!ApiKeysStorage::has_capability(&vec!["foo*".to_string()], "xfoo"));
    assert!(ApiKeysStorage::has_capability(&vec!["foo*".to_string()], "foo*"));
    assert!(!ApiKeysStorage::has_capability(&Vec::new(), "foo"));
    assert!(ApiKeysStorage::has_capability(
        &vec!["a".to_string(), "LLM::*".to_string()],
        "LLM::mistral"
    ));
    assert!(ApiKeysStorage::has_capability(&vec!["é*".to_string()], "école"));
}

#[test]
fn verify_key_needs_an_active_key_with_the_capability() {
    let mut keys = ApiKeysStorage::new();
    let key = ClientApiKey {
        key: "k1".to_string(),
        capabilities: vec!["echo".to_string(), "img*".to_string()],
        is_predefined: false,
        created: 5,
        is_revoked: false,
    };
    keys.upsert_key("k1", &key);
    assert!(keys.verify_key("k1", "echo").is_ok());
    assert!(keys.verify_key("k1", "img.resize").is_ok());
    assert!(matches!(keys.verify_key("k1", "ocr"), Err(AppError::Authorization(_))));
    assert!(matches!(keys.verify_key("k2", "echo"), Err(AppError::Authorization(_))));
    assert!(keys.is_key_real_not_revoked("k1"));
    assert!(!keys.is_key_real_not_revoked("k2"));
    assert_eq!(keys.find_active("k1"), Some(key.clone()));
    assert_eq!(keys.list_all(), vec![key]);
}

#[test]
fn a_revoked_key_is_archived() {
    let mut keys = ApiKeysStorage::new();
    let mut key = ClientApiKey {
        key: "k1".to_string(),
        capabilities: vec!["*".to_string()],
        is_predefined: false,
        created: 5,
        is_revoked: false,
    };
    keys.upsert_key("k1", &key);
    key.capabilities = vec!["echo".to_string()];
    keys.update_key("k1", &key);
    assert_eq!(keys.find_active("k1"), Some(key.clone()));
    key.is_revoked = true;
    keys.update_key("k1", &key);
    assert_eq!(keys.find_active("k1"), None);
    assert!(keys.list_all().is_empty());
    assert!(!keys.is_key_real_not_revoked("k1"));
    assert!(matches!(keys.verify_key("k1", "echo"), Err(AppError::Authorization(_))));
}

#[test]
fn a_revoked_key_left_among_the_active_ones_entitles_to_nothing() {
    let mut keys = ApiKeysStorage::new();
    let key = ClientApiKey {
        key: "k1".to_string(),
        capabilities: vec!["*".to_string()],
        is_predefined: false,
        created: 5,
        is_revoked: true,
    };
    keys.upsert_key("k1", &key);
    assert!(!keys.is_key_real_not_revoked("k1"));
    assert!(matches!(keys.verify_key("k1", "echo"), Err(AppError::Authorization(_))));
}

#[test]
fn predefined_keys_entitle_to_everything() {
    let mut keys = ApiKeysStorage::new();
    keys.initialize_from_list_at(&vec!["c2".to_string(), "c1".to_string(), "c2".to_string()], 42);
    let all = keys.list_all();
    assert_eq!(all.len(), 2);
    assert_eq!(
        all[0],
        ClientApiKey {
            key: "c1".to_string(),
            capabilities: vec!["*".to_string()],
            is_predefined: true,
            created: 42,
            is_revoked: false,
        }
    );
    assert!(keys.verify_key("c1", "whatever").is_ok());
    assert!(keys.verify_key("c2", "echo").is_ok());
    assert!(keys.verify_key("c3", "echo").is_err());
    keys.initialize_from_list(&vec!["c3".to_string()]);
    assert!(keys.verify_key("c3", "echo").is_ok());
    assert!(keys.find_active("c3").unwrap().created > 42);
}

#[test]
fn task_store_opens_over_kept_records() {
    let waiting = vec![task("b", "02", 1), task("a", "01", 2), task("b", "02", 3)];
    let taken = vec![task("c", "03", 0).assign_to_at("agent", 5)];
    let aside = vec![task("d", "04", 0).assign_to_at("agent", 6)];
    let store = TaskStorage::open(waiting, taken.clone(), aside.clone());
    let listed = store.list_unassigned_all();
    assert_eq!(ids(&listed), vec!["a/01", "b/02"]);
    assert_eq!(listed[1].created_at, 3);
    assert_eq!(store.list_assigned_all(), taken);
    assert_eq!(store.list_archived_all(), aside);
}

#[test]
fn key_registry_opens_over_kept_records() {
    let key = |name: &str, revoked: bool| ClientApiKey {
        key: name.to_string(),
        capabilities: vec!["echo".to_string()],
        is_predefined: false,
        created: 1,
        is_revoked: revoked,
    };
    let keys = ApiKeysStorage::open(
        vec![("k2".to_string(), key("k2", false)), ("k1".to_string(), key("k1", false))],
        vec![("k0".to_string(), key("k0", true))],
    );
    let listed: Vec<String> = keys.list_all().iter().map(|k| k.key.clone()).collect();
    assert_eq!(listed, vec!["k1", "k2"]);
    assert!(keys.verify_key("k1", "echo").is_ok());
    assert!(keys.verify_key("k0", "echo").is_err());
}
