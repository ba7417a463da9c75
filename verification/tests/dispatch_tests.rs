use offloadmq::api::agent::{
    auth_agent, fetch_task_non_urgent_handler, fetch_task_urgent_handler, pick_random,
    post_task_progress_update, post_task_resolution, register_agent, try_take_task_handler,
    update_agent_info, validate_api_key,
};
use offloadmq::api::client::{
    capabilities_online, poll_task_status, submit_task, submit_task_blocking, Submission,
};
use offloadmq::api::mgmt::{
    add_client_api_key, check_management_token, client_api_keys, list_agents, list_agents_online,
    list_tasks, remove_agent, revoke_client_api_key,
};
use offloadmq::config::AppConfig;
use offloadmq::db::agent::CachedAgentStorage;
use offloadmq::db::app_storage::AppStorage;
use offloadmq::db::persistent_task_storage::TaskStorage;
use offloadmq::error::AppError;
use offloadmq::middleware::{
    authenticate_agent, authorize_client, bearer_token, is_open_path, AuthenticatedAgent,
};
use offloadmq::models::{Agent, UnassignedTask};
use offloadmq::mq::scheduler::{
    all_online_agents_for_at, any_agent_serves, conclude_urgent_task,
    find_assignable_non_urgent_tasks_with_capabilities_for_tier,
    find_assignable_non_urgent_tasks_with_capabilities_for_tier_at,
    find_urgent_tasks_with_capabilities, has_potential_agents_for, has_potential_agents_for_at,
    online_capabilities, report_non_urgent_task, report_urgent_task, select_assignable,
    submit_urgent_task, submit_urgent_task_at, tier_hides, top_online_tier_for,
    try_pick_up_non_urgent_task, try_pick_up_urgent_task, try_pick_up_urgent_task_at,
    update_non_urgent_task, update_urgent_task, UrgentOutcome,
};
use offloadmq::mq::urgent::UrgentTaskStore;
use offloadmq::preferences::{
    allow_assigning_to_same_top_tier, get_config, init_config, shuffle_queue, Config,
};
use offloadmq::schema::{
    AgentLoginRequest, AgentRegistrationRequest, AgentUpdateRequest, ApiKeyRequest,
    CreateApiKeyRequest, SystemInfo, TaskId, TaskResultReport, TaskResultStatus, TaskStatus,
    TaskSubmissionRequest, TaskUpdate,
};
use offloadmq::state::AppState;

fn system_info() -> SystemInfo {
    SystemInfo {
        os: "linux".to_string(),
        client: "agent/1".to_string(),
        runtime: "native".to_string(),
        cpu_arch: "x86_64".to_string(),
        total_memory_mb: 1024,
        gpu: None,
    }
}

fn agent(uid: &str, caps: &[&str], tier: u8, last_contact: Option<i64>) -> Agent {
    Agent {
        uid: uid.to_string(),
        uid_short: uid.chars().take(8).collect(),
        personal_login_token: format!("token-{}", uid),
        registered_at: 0,
        last_contact,
        capabilities: caps.iter().map(|c| c.to_string()).collect(),
        tier,
        capacity: 1,
        system_info: system_info(),
    }
}

fn payload_x1() -> serde_json::Value {
    let mut map = serde_json::Map::new();
    map.insert("x".to_string(), serde_json::Value::from(1));
    serde_json::Value::Object(map)
}

fn request(cap: &str, urgent: bool) -> TaskSubmissionRequest {
    TaskSubmissionRequest {
        capability: cap.to_string(),
        urgent,
        restartable: false,
        payload: payload_x1(),
        api_key: "client".to_string(),
    }
}

fn task(cap: &str, id: &str, created_at: i64) -> UnassignedTask {
    UnassignedTask {
        id: TaskId { cap: cap.to_string(), id: id.to_string() },
        data: request(cap, true),
        created_at,
    }
}

fn caps(list: &[&str]) -> Vec<String> {
    list.iter().map(|c| c.to_string()).collect()
}

fn success(id: &TaskId, output: Option<serde_json::Value>) -> TaskResultReport {
    TaskResultReport {
        id: id.clone(),
        capability: id.cap.clone(),
        status: TaskResultStatus::Success(10),
        output,
    }
}

fn state(agents: Vec<Agent>) -> AppState {
    let config = AppConfig::from_env(
        None,
        None,
        Some("agent-key".to_string()),
        Some("client".to_string()),
        None,
        None,
        Some("mgmt".to_string()),
    )
    .unwrap();
    let mut state = AppState::new(AppStorage::new(agents), config);
    state.storage.client_keys.initialize_from_list_at(&vec!["client".to_string()], 0);
    state
}

#[test]
fn preferences_are_set_and_read() {
    let mut config = Config::default();
    assert!(!shuffle_queue(&config));
    assert!(!allow_assigning_to_same_top_tier(&config));
    init_config(&mut config, true, false);
    assert!(shuffle_queue(&config));
    assert!(!allow_assigning_to_same_top_tier(&config));
    init_config(&mut config, false, true);
    assert_eq!(
        get_config(&config),
        Config { shuffle_queue: false, allow_assigning_to_same_top_tier: true }
    );
}

#[test]
fn urgent_store_offers_tasks_first_come_first_served() {
    let mut store = UrgentTaskStore::new();
    let t1 = task("echo", "01", 0);
    let t2 = task("echo", "02", 0);
    let t3 = task("ocr", "03", 0);
    store.add_task_at(t3.clone(), 60, 1).unwrap();
    store.add_task_at(t1.clone(), 60, 2).unwrap();
    store.add_task_at(t2.clone(), 60, 3).unwrap();
    assert_eq!(store.len(), 3);
    let echo = caps(&["x", "echo"]);
    assert_eq!(store.find_with_capabilities(&echo), Some(t1.clone()));
    assert_eq!(store.find_with_capabilities(&echo), Some(t1.clone()));
    assert_eq!(store.find_with_capabilities(&caps(&["ocr", "echo"])), Some(t3.clone()));
    assert_eq!(store.find_with_capabilities(&caps(&["none"])), None);
    assert_eq!(store.find_with_capabilities(&Vec::new()), None);
    assert!(store.assign_task_at(&t1.id, "a", 5));
    assert_eq!(store.find_with_capabilities(&echo), Some(t2.clone()));
    store.remove_task(&t2.id);
    assert_eq!(store.find_with_capabilities(&echo), None);
    assert_eq!(find_urgent_tasks_with_capabilities(&store, &caps(&["ocr"])), Some(t3));
}

#[test]
fn urgent_store_keeps_order_when_a_task_leaves() {
    let mut store = UrgentTaskStore::new();
    for id in ["01", "02", "03", "04"] {
        store.add_task_at(task("echo", id, 0), 60, 0).unwrap();
    }
    store.remove_task(&TaskId { cap: "echo".to_string(), id: "02".to_string() });
    let left: Vec<String> = store.list_unassigned().iter().map(|t| t.id.id.clone()).collect();
    assert_eq!(left, vec!["01", "03", "04"]);
    store.remove_task(&TaskId { cap: "echo".to_string(), id: "99".to_string() });
    assert_eq!(store.len(), 3);
}

#[test]
fn urgent_store_refuses_a_second_task_of_the_same_name() {
    let mut store = UrgentTaskStore::new();
    store.add_task_at(task("echo", "01", 0), 60, 0).unwrap();
    let again = store.add_task_at(task("echo", "01", 7), 60, 7);
    assert!(matches!(again, Err(AppError::Conflict(_))));
    assert_eq!(store.len(), 1);
    assert_eq!(store.list_unassigned()[0].created_at, 0);
    assert!(store.add_task(task("echo", "02", 0), 60).is_ok());
    assert!(matches!(store.add_task(task("echo", "02", 0), 60), Err(AppError::Conflict(_))));
}

#[test]
fn urgent_assignment_has_exactly_one_winner() {
    let mut store = UrgentTaskStore::new();
    let t = task("echo", "01", 0);
    let waiter = store.add_task_at(t.clone(), 60, 0).unwrap();
    assert_eq!(*waiter.borrow(), TaskStatus::Pending);
    let answers: Vec<bool> =
        (0..8).map(|n| store.assign_task_at(&t.id, &format!("agent-{}", n), 10 + n)).collect();
    assert_eq!(answers, vec![true, false, false, false, false, false, false, false]);
    let assigned = store.get_assigned_task(&t.id).unwrap();
    assert_eq!(assigned.agent_id, "agent-0");
    assert_eq!(assigned.assigned_at, 10);
    assert_eq!(assigned.status, TaskStatus::Assigned);
    assert_eq!(store.get_status(&t.id), Some(TaskStatus::Assigned));
    assert_eq!(*waiter.borrow(), TaskStatus::Assigned);
    assert!(waiter.has_changed().unwrap());
    assert!(!store.assign_task_at(&TaskId { cap: "echo".to_string(), id: "zz".to_string() }, "a", 1));
    assert!(!store.assign_task(&t.id, "late"));
}

#[test]
fn urgent_assignment_with_the_clock() {
    let mut store = UrgentTaskStore::new();
    let t = task("echo", "01", 0);
    store.add_task(t.clone(), 60).unwrap();
    assert!(store.assign_task(&t.id, "agent-1"));
    let assigned = store.get_assigned_task(&t.id).unwrap();
    assert_eq!(assigned.agent_id, "agent-1");
    assert!(assigned.assigned_at > 0);
}

#[test]
fn urgent_update_appends_log_and_sets_stage() {
    let mut store = UrgentTaskStore::new();
    let t = task("echo", "01", 0);
    store.add_task_at(t.clone(), 60, 0).unwrap();
    assert!(store.update_task(&t.id, Some("early"), Some("s0")));
    assert_eq!(store.get_assigned_task(&t.id), None);
    assert!(store.assign_task_at(&t.id, "a", 1));
    assert!(store.update_task(&t.id, Some("one "), None));
    assert!(store.update_task(&t.id, Some("two"), Some("half")));
    assert!(store.update_task(&t.id, None, None));
    let assigned = store.get_assigned_task(&t.id).unwrap();
    assert_eq!(assigned.log, "one two");
    assert_eq!(assigned.stage, Some("half".to_string()));
    assert_eq!(assigned.status, TaskStatus::Assigned);
    assert_eq!(store.complete_task(&t.id, true, payload_x1()).unwrap(), true);
    assert!(!store.update_task(&t.id, Some("late"), Some("late")));
    assert_eq!(store.get_assigned_task(&t.id).unwrap().log, "one two");
    assert!(!store.update_task(&task("echo", "zz", 0).id, Some("x"), None));
}

#[test]
fn urgent_completion_needs_an_agent_at_work() {
    let mut store = UrgentTaskStore::new();
    let t = task("echo", "01", 0);
    let waiter = store.add_task_at(t.clone(), 60, 0).unwrap();
    assert_eq!(store.complete_task(&task("echo", "zz", 0).id, true, payload_x1()).unwrap(), false);
    assert!(matches!(store.complete_task(&t.id, true, payload_x1()), Err(AppError::Conflict(_))));
    assert_eq!(store.get_status(&t.id), Some(TaskStatus::Pending));
    assert!(store.assign_task_at(&t.id, "a", 1));
    assert_eq!(store.complete_task(&t.id, false, serde_json::Value::from("boom")).unwrap(), true);
    assert_eq!(store.get_status(&t.id), Some(TaskStatus::Failed));
    assert_eq!(*waiter.borrow(), TaskStatus::Failed);
    let assigned = store.get_assigned_task(&t.id).unwrap();
    assert_eq!(assigned.status, TaskStatus::Failed);
    assert_eq!(assigned.result, Some(serde_json::Value::from("boom")));
    assert!(matches!(store.complete_task(&t.id, true, payload_x1()), Err(AppError::Conflict(_))));
    assert_eq!(store.get_assigned_task(&t.id).unwrap().status, TaskStatus::Failed);
    assert_eq!(
        store.get_assigned_task(&t.id).unwrap().result,
        Some(serde_json::Value::from("boom"))
    );
}

#[test]
fn urgent_tasks_expire_only_while_pending() {
    let mut store = UrgentTaskStore::new();
    let old = task("echo", "01", 0);
    let taken = task("echo", "02", 0);
    let young = task("echo", "03", 0);
    let old_waiter = store.add_task_at(old.clone(), 60, 1_000).unwrap();
    let taken_waiter = store.add_task_at(taken.clone(), 60, 1_000).unwrap();
    store.add_task_at(young.clone(), 60, 30_000).unwrap();
    assert!(store.assign_task_at(&taken.id, "a", 2_000));
    assert!(store.expire_tasks_at(61_000).is_empty());
    assert_eq!(store.len(), 3);
    let expired = store.expire_tasks_at(61_001);
    assert_eq!(expired, vec![old.id.clone()]);
    assert_eq!(*old_waiter.borrow(), TaskStatus::Failed);
    assert_eq!(*taken_waiter.borrow(), TaskStatus::Assigned);
    assert_eq!(store.get_status(&old.id), None);
    assert_eq!(store.get_status(&taken.id), Some(TaskStatus::Assigned));
    assert_eq!(store.get_status(&young.id), Some(TaskStatus::Pending));
    let expired = store.expire_tasks_at(i64::MAX);
    assert_eq!(expired, vec![young.id.clone()]);
    assert_eq!(store.len(), 1);
    assert!(store.expire_tasks_at(i64::MAX).is_empty());
}

#[test]
fn urgent_tasks_do_not_expire_at_once_under_the_clock() {
    let mut store = UrgentTaskStore::new();
    store.add_task(task("echo", "01", 0), 60).unwrap();
    assert!(store.expire_tasks().is_empty());
    assert_eq!(store.len(), 1);
    store.add_task(task("echo", "02", 0), -1).unwrap();
    assert_eq!(store.expire_tasks().len(), 1);
    assert_eq!(store.len(), 1);
}

#[test]
fn urgent_listings_split_by_assignment() {
    let mut store = UrgentTaskStore::new();
    for id in ["01", "02", "03"] {
        store.add_task_at(task("echo", id, 0), 60, 0).unwrap();
    }
    assert!(store.assign_task_at(&task("echo", "02", 0).id, "a", 1));
    let offered: Vec<String> = store.list_unassigned().iter().map(|t| t.id.id.clone()).collect();
    let taken: Vec<String> = store.list_assigned().iter().map(|t| t.id.id.clone()).collect();
    assert_eq!(offered, vec!["01", "03"]);
    assert_eq!(taken, vec!["02"]);
    assert_eq!(store.get_task(&task("echo", "02", 0).id), Some(task("echo", "02", 0)));
    assert_eq!(store.get_task(&task("echo", "09", 0).id), None);
}

#[test]
fn top_online_tier_is_the_best_tier_online() {
    let now = 1_000_000;
    let agents = vec![
        agent("a", &["t"], 1, Some(now)),
        agent("b", &["t", "u"], 5, Some(now)),
        agent("c", &["t"], 9, Some(now - 120_001)),
        agent("d", &["u"], 7, Some(now)),
        agent("e", &["t"], 200, None),
    ];
    assert_eq!(top_online_tier_for(&agents, "t", now), 5);
    assert_eq!(top_online_tier_for(&agents, "u", now), 7);
    assert_eq!(top_online_tier_for(&agents, "v", now), 0);
    assert_eq!(top_online_tier_for(&Vec::new(), "t", now), 0);
    assert!(any_agent_serves(&agents, "t", now));
    assert!(!any_agent_serves(&agents, "v", now));
    assert!(!any_agent_serves(&agents, "t", now + 200_000));
}

#[test]
fn tier_rule_hides_from_lower_tiers_only() {
    let strict = Config::default();
    assert!(tier_hides(5, 1, &strict));
    assert!(!tier_hides(5, 5, &strict));
    assert!(!tier_hides(5, 6, &strict));
    assert!(!tier_hides(0, 0, &strict));
    let wide = Config { shuffle_queue: false, allow_assigning_to_same_top_tier: true };
    assert!(tier_hides(5, 1, &wide));
    assert!(tier_hides(5, 5, &wide));
    assert!(!tier_hides(5, 6, &wide));
}

#[test]
fn tier_suppression() {
    let now = 1_000_000;
    let mut tasks = TaskStorage::new();
    let mut t = task("t", "01", 0);
    t.data.urgent = false;
    tasks.add_unassigned(&t);
    let low = agent("L", &["t"], 1, Some(now));
    let high = agent("H", &["t"], 5, Some(now));
    let agents = CachedAgentStorage::new(vec![low.clone(), high.clone()], 120, 120);
    let config = Config::default();
    let for_low = find_assignable_non_urgent_tasks_with_capabilities_for_tier_at(
        &tasks, &low.capabilities, low.tier, &agents, now, &config,
    );
    assert!(for_low.is_empty());
    let for_high = find_assignable_non_urgent_tasks_with_capabilities_for_tier_at(
        &tasks, &high.capabilities, high.tier, &agents, now, &config,
    );
    assert_eq!(for_high, vec![t.clone()]);
    let later = now + 200_000;
    let for_low_later = find_assignable_non_urgent_tasks_with_capabilities_for_tier_at(
        &tasks, &low.capabilities, low.tier, &agents, later, &config,
    );
    assert_eq!(for_low_later, vec![t.clone()]);
    let taken = try_pick_up_non_urgent_task(&mut tasks, &high, &t.id).unwrap();
    assert_eq!(taken.agent_id, "H");
    assert_eq!(taken.status, TaskStatus::Queued);
    let done = report_non_urgent_task(&mut tasks, success(&t.id, Some(payload_x1()))).unwrap();
    assert_eq!(done.status, TaskStatus::Completed);
    assert_eq!(done.result, Some(payload_x1()));
    assert_eq!(tasks.get_assigned(&t.id), Some(done));
}

#[test]
fn raising_a_tier_shrinks_what_lower_tiers_see() {
    let now = 1_000_000;
    let tasks = vec![task("c", "01", 0), task("d", "02", 0), task("c", "03", 0)];
    let config = Config::default();
    let mut seen_before: Option<usize> = None;
    for tier in [1u8, 2, 3, 4, 5, 200] {
        let agents = vec![agent("me", &["c", "d"], 3, Some(now)), agent("x", &["c"], tier, Some(now))];
        let seen = select_assignable(tasks.clone(), 3, &agents, now, &config);
        if let Some(before) = seen_before {
            assert!(seen.len() <= before);
        }
        assert!(seen.iter().all(|t| tasks.contains(t)));
        assert_eq!(seen.len(), if tier <= 3 { 3 } else { 1 });
        seen_before = Some(seen.len());
    }
}

#[test]
fn assignable_under_the_clock_sees_everything_without_agents() {
    let mut tasks = TaskStorage::new();
    tasks.add_unassigned(&task("c", "01", 0));
    let agents = CachedAgentStorage::new(Vec::new(), 120, 120);
    let seen = find_assignable_non_urgent_tasks_with_capabilities_for_tier(
        &tasks, &caps(&["c"]), 0, &agents, &Config::default(),
    );
    assert_eq!(seen.len(), 1);
}

#[test]
fn potential_agents_must_be_online_and_capable() {
    let now = 1_000_000;
    let agents = CachedAgentStorage::new(
        vec![agent("a", &["echo"], 1, Some(now)), agent("b", &["ocr"], 1, None)],
        120,
        120,
    );
    assert!(has_potential_agents_for_at("echo", &agents, now));
    assert!(!has_potential_agents_for_at("ocr", &agents, now));
    assert!(!has_potential_agents_for_at("echo", &agents, now + 120_001));
    assert!(!has_potential_agents_for("ocr", &agents));
    let online: Vec<String> =
        all_online_agents_for_at("echo", &agents, now).iter().map(|a| a.uid.clone()).collect();
    assert_eq!(online, vec!["a"]);
    assert!(all_online_agents_for_at("ocr", &agents, now).is_empty());
}

#[test]
fn online_capabilities_lists_each_once() {
    let now = 1_000_000;
    let agents = vec![
        agent("a", &["echo", "ocr", "echo"], 1, Some(now)),
        agent("b", &["img.resize", "ocr"], 1, Some(now)),
        agent("c", &["offline"], 1, None),
    ];
    assert_eq!(online_capabilities(&agents, now, None), vec!["echo", "ocr", "img.resize"]);
    assert_eq!(
        online_capabilities(&agents, now, Some(&caps(&["img*", "echo"]))),
        vec!["echo", "img.resize"]
    );
    assert!(online_capabilities(&agents, now, Some(&Vec::new())).is_empty());
    assert!(online_capabilities(&agents, now + 500_000, None).is_empty());
}

#[test]
fn pick_random_picks_one_of_the_tasks() {
    assert_eq!(pick_random(&Vec::new()), None);
    let tasks = vec![task("c", "01", 0), task("c", "02", 0), task("c", "03", 0)];
    let mut seen = std::collections::HashSet::new();
    for _ in 0..200 {
        let picked = pick_random(&tasks).unwrap();
        assert!(tasks.contains(&picked));
        seen.insert(picked.id.id);
    }
    assert_eq!(seen.len(), 3);
}

#[test]
fn urgent_happy_path() {
    let now = 1_000_000;
    let mut state = state(Vec::new());
    let registered = register_agent(
        &mut state,
        AgentRegistrationRequest {
            capabilities: caps(&["echo"]),
            tier: 1,
            capacity: 1,
            system_info: system_info(),
            api_key: "agent-key".to_string(),
        },
    )
    .unwrap();
    assert_eq!(registered.message, "Registered");
    let a = auth_agent(
        &mut state,
        &AgentLoginRequest { agent_id: registered.agent_id.clone(), key: registered.key.clone() },
    )
    .unwrap();
    assert_eq!(a.uid, registered.agent_id);
    assert_eq!(a.uid_short, &a.uid[..8]);
    assert_eq!(fetch_task_urgent_handler(&mut state, a.clone(), now).unwrap(), None);
    let submitted = submit_task_blocking(&mut state, request("echo", true), now + 1).unwrap();
    assert_eq!(submitted.id.cap, "echo");
    assert_eq!(*submitted.waiter.borrow(), TaskStatus::Pending);
    let seen = fetch_task_urgent_handler(&mut state, a.clone(), now + 2).unwrap().unwrap();
    assert_eq!(seen.id, submitted.id);
    assert_eq!(seen.data.payload, payload_x1());
    let taken = try_take_task_handler(
        &mut state,
        &a,
        submitted.id.cap.clone(),
        submitted.id.id.clone(),
        now + 3,
    )
    .unwrap();
    assert_eq!(taken.status, TaskStatus::Assigned);
    assert_eq!(taken.agent_id, a.uid);
    assert_eq!(*submitted.waiter.borrow(), TaskStatus::Assigned);
    let filed = post_task_resolution(
        &mut state,
        a.clone(),
        submitted.id.cap.clone(),
        submitted.id.id.clone(),
        success(&submitted.id, Some(payload_x1())),
        now + 4,
    )
    .unwrap();
    assert!(filed.is_none());
    let observed = submitted.waiter.borrow().clone();
    assert_eq!(observed, TaskStatus::Completed);
    assert!(observed.is_terminal());
    match conclude_urgent_task(&mut state.urgent, &submitted.id, observed) {
        UrgentOutcome::Finished(done) => {
            assert_eq!(done.status, TaskStatus::Completed);
            assert_eq!(done.result, Some(payload_x1()));
            assert_eq!(done.id, submitted.id);
        }
        UrgentOutcome::StatusOnly(_) => panic!("the agent's copy is missing"),
    }
    assert_eq!(state.urgent.len(), 0);
    assert_eq!(state.urgent.get_status(&submitted.id), None);
}

#[test]
fn urgent_ttl() {
    let now = 1_000_000;
    let mut state = state(Vec::new());
    let refused = submit_task_blocking(&mut state, request("ocr", true), now);
    assert!(matches!(refused, Err(AppError::SchedulingImpossible(_))));
    assert_eq!(state.urgent.len(), 0);
    let mut a = agent("", &["ocr"], 1, Some(now));
    state.storage.create_agent(&mut a).unwrap();
    let submitted = submit_task_blocking(&mut state, request("ocr", true), now).unwrap();
    assert_eq!(state.urgent.len(), 1);
    assert!(state.urgent.expire_tasks_at(now + 60_000).is_empty());
    assert_eq!(*submitted.waiter.borrow(), TaskStatus::Pending);
    let expired = state.urgent.expire_tasks_at(now + 70_000);
    assert_eq!(expired, vec![submitted.id.clone()]);
    let observed = submitted.waiter.borrow().clone();
    assert_eq!(observed, TaskStatus::Failed);
    match conclude_urgent_task(&mut state.urgent, &submitted.id, observed) {
        UrgentOutcome::StatusOnly(note) => {
            assert_eq!(note.id, submitted.id);
            assert_eq!(note.status, TaskStatus::Failed);
            assert_eq!(note.stage, None);
            assert_eq!(note.output, None);
        }
        UrgentOutcome::Finished(_) => panic!("nobody took the task"),
    }
    assert_eq!(state.urgent.len(), 0);
}

#[test]
fn race_on_pick_up() {
    let now = 1_000_000;
    let a = agent("A", &["echo"], 1, Some(now));
    let b = agent("B", &["echo"], 1, Some(now));
    let mut state = state(vec![a.clone(), b.clone()]);
    let submitted = submit_task_blocking(&mut state, request("echo", true), now).unwrap();
    let seen_a = fetch_task_urgent_handler(&mut state, a.clone(), now).unwrap().unwrap();
    let seen_b = fetch_task_urgent_handler(&mut state, b.clone(), now).unwrap().unwrap();
    assert_eq!(seen_a.id, submitted.id);
    assert_eq!(seen_b.id, submitted.id);
    let first = try_pick_up_urgent_task_at(&mut state.urgent, &b, &submitted.id, now + 1).unwrap();
    let second = try_pick_up_urgent_task_at(&mut state.urgent, &a, &submitted.id, now + 1).unwrap();
    assert_eq!(first.unwrap().agent_id, "B");
    assert_eq!(second, None);
    let loser = try_take_task_handler(
        &mut state,
        &a,
        submitted.id.cap.clone(),
        submitted.id.id.clone(),
        now + 2,
    );
    assert!(matches!(loser, Err(AppError::Conflict(_))));
    assert_eq!(fetch_task_urgent_handler(&mut state, a.clone(), now + 3).unwrap(), None);
    assert_eq!(fetch_task_non_urgent_handler(&mut state, a, now + 3).unwrap(), None);
    assert_eq!(state.urgent.get_assigned_task(&submitted.id).unwrap().agent_id, "B");
    assert_eq!(try_pick_up_urgent_task(&mut state.urgent, &b, &submitted.id).unwrap(), None);
}

#[test]
fn durable_promotion_atomicity() {
    let now = 1_000_000;
    let agents: Vec<Agent> =
        (0..10).map(|n| agent(&format!("agent-{}", n), &["c"], 1, Some(now))).collect();
    let mut state = state(agents.clone());
    let mut ids = Vec::new();
    for _ in 0..100 {
        match submit_task(&mut state, request("c", false), now).unwrap() {
            Submission::Queued(t) => ids.push(t.id),
            Submission::Urgent(_) => panic!("the task is not urgent"),
        }
    }
    assert_eq!(state.storage.tasks.list_unassigned_all().len(), 100);
    let mut wins = 0;
    for id in &ids {
        for a in &agents {
            let r = try_take_task_handler(&mut state, a, id.cap.clone(), id.id.clone(), now);
            match r {
                Ok(taken) => {
                    wins += 1;
                    assert_eq!(taken.agent_id, "agent-0");
                }
                Err(e) => assert!(matches!(e, AppError::Conflict(_))),
            }
        }
    }
    assert_eq!(wins, 100);
    assert!(state.storage.tasks.list_unassigned_all().is_empty());
    let assigned = state.storage.tasks.list_assigned_all();
    assert_eq!(assigned.len(), 100);
    for id in &ids {
        assert!(state.storage.tasks.get_unassigned(id).is_none());
        assert!(state.storage.tasks.get_assigned(id).is_some());
    }
}

#[test]
fn polling_prefers_urgent_work_and_respects_tiers() {
    let now = 1_000_000;
    let low = agent("L", &["t"], 1, Some(now));
    let high = agent("H", &["t"], 5, Some(now));
    let mut state = state(vec![low.clone(), high.clone()]);
    let queued = match submit_task(&mut state, request("t", false), now).unwrap() {
        Submission::Queued(t) => t,
        Submission::Urgent(_) => panic!("the task is not urgent"),
    };
    assert_eq!(fetch_task_non_urgent_handler(&mut state, low.clone(), now).unwrap(), None);
    assert_eq!(
        fetch_task_non_urgent_handler(&mut state, high.clone(), now).unwrap(),
        Some(queued.clone())
    );
    let urgent = match submit_task(&mut state, request("t", true), now).unwrap() {
        Submission::Urgent(u) => u,
        Submission::Queued(_) => panic!("the task is urgent"),
    };
    let seen = fetch_task_non_urgent_handler(&mut state, low.clone(), now).unwrap().unwrap();
    assert_eq!(seen.id, urgent.id);
    let seen = fetch_task_non_urgent_handler(&mut state, high.clone(), now).unwrap().unwrap();
    assert_eq!(seen.id, urgent.id);
    assert_eq!(state.storage.get_agent("L").unwrap().last_contact, Some(now));
    let stranger = agent("S", &["t"], 9, None);
    assert!(matches!(
        fetch_task_non_urgent_handler(&mut state, stranger.clone(), now),
        Err(AppError::NotFound(_))
    ));
    assert!(matches!(
        fetch_task_urgent_handler(&mut state, stranger, now),
        Err(AppError::NotFound(_))
    ));
}

#[test]
fn submissions_are_checked() {
    let now = 1_000_000;
    let mut state = state(vec![agent("A", &["echo"], 1, Some(now))]);
    let mut foreign = request("echo", true);
    foreign.api_key = "unknown".to_string();
    assert!(matches!(
        submit_task_blocking(&mut state, foreign.clone(), now),
        Err(AppError::Authorization(_))
    ));
    assert!(matches!(submit_task(&mut state, foreign, now), Err(AppError::Authorization(_))));
    assert!(matches!(
        submit_task_blocking(&mut state, request("echo", false), now),
        Err(AppError::BadRequest(_))
    ));
    assert!(matches!(
        submit_task(&mut state, request("ocr", true), now),
        Err(AppError::SchedulingImpossible(_))
    ));
    assert_eq!(state.urgent.len(), 0);
    assert!(state.storage.tasks.list_unassigned_all().is_empty());
}

#[test]
fn submit_urgent_task_is_the_gatekeeper() {
    let now = 1_000_000;
    let agents = CachedAgentStorage::new(vec![agent("A", &["echo"], 1, Some(now))], 120, 120);
    let mut store = UrgentTaskStore::new();
    assert!(matches!(
        submit_urgent_task_at(&mut store, &agents, task("ocr", "01", now), now),
        Err(AppError::SchedulingImpossible(_))
    ));
    assert!(submit_urgent_task_at(&mut store, &agents, task("echo", "01", now), now).is_ok());
    assert!(matches!(
        submit_urgent_task_at(&mut store, &agents, task("echo", "01", now), now),
        Err(AppError::Conflict(_))
    ));
    assert!(matches!(
        submit_urgent_task_at(&mut store, &agents, task("echo", "02", now), now + 120_001),
        Err(AppError::SchedulingImpossible(_))
    ));
    assert!(matches!(
        submit_urgent_task(&mut store, &agents, task("echo", "03", now)),
        Err(AppError::SchedulingImpossible(_))
    ));
    assert_eq!(store.len(), 1);
    assert_eq!(store.list_unassigned()[0].id.id, "01");
}

#[test]
fn reports_on_regular_tasks() {
    let now = 1_000_000;
    let a = agent("A", &["c"], 1, Some(now));
    let mut state = state(vec![a.clone()]);
    let queued = match submit_task(&mut state, request("c", false), now).unwrap() {
        Submission::Queued(t) => t,
        Submission::Urgent(_) => panic!("the task is not urgent"),
    };
    let id = queued.id.clone();
    let early = post_task_resolution(
        &mut state, a.clone(), id.cap.clone(), id.id.clone(), success(&id, None), now,
    );
    assert!(matches!(early, Err(AppError::NotFound(_))));
    try_take_task_handler(&mut state, &a, id.cap.clone(), id.id.clone(), now).unwrap();
    let note = TaskUpdate { id: id.clone(), log: Some("step 1\n".to_string()), stage: None };
    let noted = post_task_progress_update(
        &mut state, a.clone(), id.cap.clone(), id.id.clone(), note, now + 1,
    )
    .unwrap()
    .unwrap();
    assert_eq!(noted.status, TaskStatus::Running);
    assert_eq!(noted.log, "step 1\n");
    let note = TaskUpdate {
        id: id.clone(),
        log: Some("step 2\n".to_string()),
        stage: Some("late".to_string()),
    };
    let noted = update_non_urgent_task(&mut state.storage.tasks, note).unwrap();
    assert_eq!(noted.status, TaskStatus::Running);
    assert_eq!(noted.log, "step 1\nstep 2\n");
    assert_eq!(noted.stage, Some("late".to_string()));
    let wrong = post_task_resolution(
        &mut state, a.clone(), id.cap.clone(), "other".to_string(), success(&id, None), now,
    );
    assert!(matches!(wrong, Err(AppError::BadRequest(_))));
    let broken = post_task_resolution(
        &mut state, a.clone(), "%".to_string(), id.id.clone(), success(&id, None), now,
    );
    assert!(matches!(broken, Err(AppError::BadRequest(_))));
    let failure = TaskResultReport {
        id: id.clone(),
        capability: "c".to_string(),
        status: TaskResultStatus::Failure("exit 1".to_string(), 5),
        output: Some(serde_json::Value::from("stderr")),
    };
    let done = post_task_resolution(
        &mut state, a.clone(), id.cap.clone(), id.id.clone(), failure, now + 2,
    )
    .unwrap()
    .unwrap();
    assert_eq!(done.status, TaskStatus::Failed);
    assert_eq!(done.result, Some(serde_json::Value::from("stderr")));
    assert_eq!(done.log, "step 1\nstep 2\n");
    assert_eq!(state.storage.tasks.get_assigned(&id), Some(done));
    let missing = TaskUpdate { id: task("c", "zz", 0).id, log: None, stage: None };
    assert!(matches!(
        update_non_urgent_task(&mut state.storage.tasks, missing),
        Err(AppError::NotFound(_))
    ));
    let not_run = TaskResultReport {
        id: task("c", "zz", 0).id,
        capability: "c".to_string(),
        status: TaskResultStatus::NotExecuted("busy".to_string()),
        output: None,
    };
    assert!(matches!(
        report_non_urgent_task(&mut state.storage.tasks, not_run),
        Err(AppError::NotFound(_))
    ));
}

#[test]
fn reports_on_urgent_tasks() {
    let now = 1_000_000;
    let a = agent("A", &["echo"], 1, Some(now));
    let mut state = state(vec![a.clone()]);
    let submitted = submit_task_blocking(&mut state, request("echo", true), now).unwrap();
    let id = submitted.id.clone();
    assert!(matches!(
        report_urgent_task(&mut state.urgent, success(&id, None), &id),
        Err(AppError::Conflict(_))
    ));
    assert_eq!(
        report_urgent_task(&mut state.urgent, success(&id, None), &task("echo", "zz", 0).id)
            .unwrap(),
        false
    );
    try_take_task_handler(&mut state, &a, id.cap.clone(), id.id.clone(), now).unwrap();
    let note = TaskUpdate { id: id.clone(), log: Some("working".to_string()), stage: None };
    assert_eq!(update_urgent_task(&mut state.urgent, note.clone(), &id).unwrap(), true);
    let via_handler = post_task_progress_update(
        &mut state, a.clone(), id.cap.clone(), id.id.clone(), note, now,
    )
    .unwrap();
    assert!(via_handler.is_none());
    assert_eq!(state.urgent.get_assigned_task(&id).unwrap().log, "workingworking");
    let not_run = TaskResultReport {
        id: id.clone(),
        capability: "echo".to_string(),
        status: TaskResultStatus::NotExecuted("busy".to_string()),
        output: None,
    };
    assert_eq!(report_urgent_task(&mut state.urgent, not_run, &id).unwrap(), true);
    let done = state.urgent.get_assigned_task(&id).unwrap();
    assert_eq!(done.status, TaskStatus::Failed);
    assert_eq!(done.result, Some(serde_json::Value::Null));
    assert_eq!(*submitted.waiter.borrow(), TaskStatus::Failed);
    let note = TaskUpdate { id: id.clone(), log: Some("late".to_string()), stage: None };
    assert_eq!(update_urgent_task(&mut state.urgent, note, &id).unwrap(), false);
}

#[test]
fn status_polling() {
    let now = 1_000_000;
    let a = agent("A", &["c", "echo"], 1, Some(now));
    let mut state = state(vec![a.clone()]);
    let own = ApiKeyRequest { api_key: "client".to_string() };
    let other = ApiKeyRequest { api_key: "someone".to_string() };
    let queued = match submit_task(&mut state, request("c", false), now).unwrap() {
        Submission::Queued(t) => t,
        Submission::Urgent(_) => panic!("the task is not urgent"),
    };
    let id = queued.id.clone();
    let waiting = poll_task_status(&state, id.cap.clone(), id.id.clone(), &own).unwrap();
    assert_eq!(waiting.id, id);
    assert_eq!(waiting.status, TaskStatus::Pending);
    assert_eq!(waiting.stage, None);
    assert_eq!(waiting.output, None);
    assert!(matches!(
        poll_task_status(&state, id.cap.clone(), id.id.clone(), &other),
        Err(AppError::Authorization(_))
    ));
    try_take_task_handler(&mut state, &a, id.cap.clone(), id.id.clone(), now).unwrap();
    let taken = poll_task_status(&state, id.cap.clone(), id.id.clone(), &own).unwrap();
    assert_eq!(taken.status, TaskStatus::Queued);
    report_non_urgent_task(&mut state.storage.tasks, success(&id, Some(payload_x1()))).unwrap();
    let done = poll_task_status(&state, id.cap.clone(), id.id.clone(), &own).unwrap();
    assert_eq!(done.status, TaskStatus::Completed);
    assert_eq!(done.output, Some(payload_x1()));
    assert!(matches!(
        poll_task_status(&state, "c".to_string(), "missing".to_string(), &own),
        Err(AppError::NotFound(_))
    ));
    assert!(matches!(
        poll_task_status(&state, "c".to_string(), "%zz".to_string(), &own),
        Err(AppError::BadRequest(_))
    ));
    let urgent = submit_task_blocking(&mut state, request("echo", true), now).unwrap();
    let uid = urgent.id.clone();
    let offered = poll_task_status(&state, uid.cap.clone(), uid.id.clone(), &own).unwrap();
    assert_eq!(offered.status, TaskStatus::Pending);
    assert!(matches!(
        poll_task_status(&state, uid.cap.clone(), uid.id.clone(), &other),
        Err(AppError::Authorization(_))
    ));
    try_take_task_handler(&mut state, &a, uid.cap.clone(), uid.id.clone(), now).unwrap();
    state.urgent.update_task(&uid, None, Some("warming up"));
    let at_work = poll_task_status(&state, uid.cap.clone(), uid.id.clone(), &own).unwrap();
    assert_eq!(at_work.status, TaskStatus::Assigned);
    assert_eq!(at_work.stage, Some("warming up".to_string()));
}

#[test]
fn capabilities_on_offer_to_a_client() {
    let now = 1_000_000;
    let mut state = state(vec![
        agent("A", &["echo", "img.resize"], 1, Some(now)),
        agent("B", &["ocr"], 1, None),
    ]);
    let all = capabilities_online(&state, &ApiKeyRequest { api_key: "client".to_string() }, now)
        .unwrap();
    assert_eq!(all, vec!["echo", "img.resize"]);
    add_client_api_key(
        &mut state,
        CreateApiKeyRequest { key: "narrow".to_string(), capabilities: caps(&["img*", "ocr"]) },
        now,
    );
    let some = capabilities_online(&state, &ApiKeyRequest { api_key: "narrow".to_string() }, now)
        .unwrap();
    assert_eq!(some, vec!["img.resize"]);
    assert!(matches!(
        capabilities_online(&state, &ApiKeyRequest { api_key: "nobody".to_string() }, now),
        Err(AppError::Authorization(_))
    ));
    assert_eq!(offloadmq::api::mgmt::capabilities_online(&state, now), vec!["echo", "img.resize"]);
}

#[test]
fn management_of_agents_and_keys() {
    let now = 1_000_000;
    let mut state = state(vec![agent("A", &["echo"], 1, Some(now)), agent("B", &["ocr"], 1, None)]);
    assert_eq!(list_agents(&state).len(), 2);
    let online: Vec<String> = list_agents_online(&state, now).iter().map(|a| a.uid.clone()).collect();
    assert_eq!(online, vec!["A"]);
    remove_agent(&mut state, "A");
    assert_eq!(list_agents(&state).len(), 1);
    assert!(list_agents_online(&state, now).is_empty());
    assert_eq!(client_api_keys(&state).len(), 1);
    let key = add_client_api_key(
        &mut state,
        CreateApiKeyRequest { key: "k2".to_string(), capabilities: caps(&["echo"]) },
        now,
    );
    assert_eq!(key.created, now);
    assert!(!key.is_predefined);
    assert!(!key.is_revoked);
    assert_eq!(client_api_keys(&state).len(), 2);
    assert!(state.storage.client_keys.verify_key("k2", "echo").is_ok());
    let revoked = revoke_client_api_key(&mut state, "k2").unwrap();
    assert!(revoked.is_revoked);
    assert_eq!(revoked.key, "k2");
    assert_eq!(client_api_keys(&state).len(), 1);
    assert!(state.storage.client_keys.verify_key("k2", "echo").is_err());
    assert!(matches!(revoke_client_api_key(&mut state, "k2"), Err(AppError::NotFound(_))));
}

#[test]
fn management_token_must_match() {
    let state = state(Vec::new());
    assert!(check_management_token(&state.config, Some("mgmt")).is_ok());
    assert!(matches!(
        check_management_token(&state.config, Some("other")),
        Err(AppError::Authentication(_))
    ));
    assert!(matches!(check_management_token(&state.config, None), Err(AppError::Authentication(_))));
    let open = AppConfig::from_env(None, None, None, None, None, None, None).unwrap();
    assert!(check_management_token(&open, Some("")).is_err());
    assert!(check_management_token(&open, None).is_err());
}

#[test]
fn task_listing_covers_all_four_groups() {
    let now = 1_000_000;
    let a = agent("A", &["c", "echo"], 1, Some(now));
    let mut state = state(vec![a.clone()]);
    for _ in 0..2 {
        submit_task(&mut state, request("c", false), now).unwrap();
        submit_task(&mut state, request("echo", true), now).unwrap();
    }
    let first_regular = state.storage.tasks.list_unassigned_all()[0].id.clone();
    let first_urgent = state.urgent.list_unassigned()[0].id.clone();
    try_take_task_handler(&mut state, &a, first_regular.cap.clone(), first_regular.id.clone(), now)
        .unwrap();
    try_take_task_handler(&mut state, &a, first_urgent.cap.clone(), first_urgent.id.clone(), now)
        .unwrap();
    let listing = list_tasks(&state);
    assert_eq!(listing.urgent_assigned.len(), 1);
    assert_eq!(listing.urgent_unassigned.len(), 1);
    assert_eq!(listing.regular_assigned.len(), 1);
    assert_eq!(listing.regular_unassigned.len(), 1);
    assert_eq!(listing.urgent_assigned[0].id, first_urgent);
    assert_eq!(listing.regular_assigned[0].id, first_regular);
}

#[test]
fn registration_needs_a_registration_key() {
    let mut state = state(Vec::new());
    let r = register_agent(
        &mut state,
        AgentRegistrationRequest {
            capabilities: caps(&["echo"]),
            tier: 1,
            capacity: 1,
            system_info: system_info(),
            api_key: "wrong".to_string(),
        },
    );
    assert!(matches!(r, Err(AppError::Authorization(_))));
    assert!(list_agents(&state).is_empty());
    assert!(validate_api_key(&caps(&["a", "b"]), "b").is_ok());
    assert!(matches!(validate_api_key(&caps(&["a", "b"]), "c"), Err(AppError::Authorization(_))));
    assert!(validate_api_key(&Vec::new(), "").is_err());
}

#[test]
fn login_needs_the_agents_own_secret() {
    let mut state = state(vec![agent("A", &["echo"], 1, None)]);
    let good = AgentLoginRequest { agent_id: "A".to_string(), key: "token-A".to_string() };
    let bad = AgentLoginRequest { agent_id: "A".to_string(), key: "token-B".to_string() };
    let unknown = AgentLoginRequest { agent_id: "Z".to_string(), key: "token-A".to_string() };
    assert_eq!(auth_agent(&mut state, &good).unwrap().uid, "A");
    assert!(matches!(auth_agent(&mut state, &bad), Err(AppError::Authorization(_))));
    assert!(matches!(auth_agent(&mut state, &unknown), Err(AppError::Authorization(_))));
}

#[test]
fn agents_replace_what_they_advertise() {
    let now = 1_000_000;
    let a = agent("A", &["echo"], 1, None);
    let mut state = state(vec![a.clone()]);
    let info = AgentUpdateRequest {
        capabilities: caps(&["ocr", "echo"]),
        tier: 7,
        capacity: 4,
        system_info: system_info(),
    };
    let answer = update_agent_info(&mut state, a.clone(), info.clone(), now).unwrap();
    assert_eq!(answer.agent_id, "A");
    assert_eq!(answer.key, "token-A");
    assert_eq!(answer.message, "Updated");
    let filed = state.storage.get_agent("A").unwrap();
    assert_eq!(filed.capabilities, vec!["ocr", "echo"]);
    assert_eq!(filed.tier, 7);
    assert_eq!(filed.capacity, 4);
    assert_eq!(filed.last_contact, Some(now));
    assert_eq!(filed.personal_login_token, "token-A");
    let ghost = agent("G", &[], 0, None);
    assert!(matches!(update_agent_info(&mut state, ghost, info, now), Err(AppError::NotFound(_))));
}

#[test]
fn bearer_tokens_follow_the_prefix() {
    assert_eq!(bearer_token("Bearer abc.def"), Some("abc.def".to_string()));
    assert_eq!(bearer_token("Bearer "), Some(String::new()));
    assert_eq!(bearer_token("Bearer é☃"), Some("é☃".to_string()));
    assert_eq!(bearer_token("bearer abc"), None);
    assert_eq!(bearer_token("Bearer"), None);
    assert_eq!(bearer_token("Basic abc"), None);
    assert_eq!(bearer_token(""), None);
}

#[test]
fn callers_are_admitted_by_token_or_key() {
    let mut state = state(vec![agent("A", &["echo"], 1, None)]);
    assert!(is_open_path("/register"));
    assert!(is_open_path("/login"));
    assert!(!is_open_path("/task/poll"));
    assert!(!is_open_path(""));
    let AuthenticatedAgent(admitted) = authenticate_agent(&mut state, "A").unwrap();
    assert_eq!(admitted.uid, "A");
    assert!(matches!(authenticate_agent(&mut state, "Z"), Err(AppError::Authorization(_))));
    assert!(authorize_client(&state.config, "client").is_ok());
    assert!(matches!(authorize_client(&state.config, "other"), Err(AppError::Authorization(_))));
}

#[test]
fn storage_delegates_to_the_agent_registry() {
    let mut storage = AppStorage::with_ttl(Vec::new(), 1);
    let mut a = agent("A", &["echo"], 1, None);
    storage.create_agent(&mut a).unwrap();
    assert_eq!(storage.get_agent("A"), Some(a.clone()));
    a.tier = 3;
    storage.update_agent(a.clone()).unwrap();
    assert_eq!(storage.get_agent("A").unwrap().tier, 3);
    storage.agents.insert_token("t".to_string());
    assert_eq!(storage.get_agent_cache_stats(), (1, 1));
    storage.cleanup_expired();
    storage.delete_agent("A");
    assert_eq!(storage.get_agent("A"), None);
    assert!(matches!(storage.update_agent(a), Err(AppError::NotFound(_))));
}

#[test]
fn urgent_pick_up_returns_the_agents_copy() {
    let now = 1_000_000;
    let a = agent("A", &["echo"], 1, Some(now));
    let agents = CachedAgentStorage::new(vec![a.clone()], 120, 120);
    let mut store = UrgentTaskStore::new();
    let t = task("echo", "01", now);
    submit_urgent_task_at(&mut store, &agents, t.clone(), now).unwrap();
    let copy = try_pick_up_urgent_task(&mut store, &a, &t.id).unwrap().unwrap();
    assert_eq!(copy.id, t.id);
    assert_eq!(copy.data, t.data);
    assert_eq!(copy.agent_id, "A");
    assert_eq!(copy.status, TaskStatus::Assigned);
    assert_eq!(copy.result, None);
    assert_eq!(store.get_assigned_task(&t.id), Some(copy));
    assert_eq!(store.find_with_capabilities(&caps(&["echo"])), None);
}

#[test]
fn a_registry_without_agents_always_registers() {
    for _ in 0..20 {
        let mut state = state(Vec::new());
        let r = register_agent(
            &mut state,
            AgentRegistrationRequest {
                capabilities: caps(&["echo"]),
                tier: 1,
                capacity: 1,
                system_info: system_info(),
                api_key: "agent-key".to_string(),
            },
        );
        assert!(r.is_ok());
        assert_eq!(list_agents(&state).len(), 1);
    }
}

#[test]
fn a_store_without_tasks_always_accepts() {
    let now = 1_000_000;
    for _ in 0..20 {
        let mut state = state(vec![agent("A", &["echo"], 1, Some(now))]);
        assert!(submit_task_blocking(&mut state, request("echo", true), now).is_ok());
        assert_eq!(state.urgent.len(), 1);
    }
}
