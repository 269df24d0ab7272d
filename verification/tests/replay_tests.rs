use flux_core::json::Json;
use flux_core::payloads::{end_payload, init_payload, start_payload};
use flux_core::runner::ArcEnv;
use flux_core::signals::{FluxProject, Signal};
use flux_core::state::{Execution, FluxState};

fn obj(members: Vec<(&str, Json)>) -> Json {
    Json::Object(members.into_iter().map(|(k, v)| (k.to_string(), v)).collect())
}

fn text(s: &str) -> Json {
    Json::Str(s.to_string())
}

fn signal(id: &str, kind: &str, payload: Json, timestamp: &str) -> Signal {
    Signal {
        id: id.to_string(),
        r_type: kind.to_string(),
        payload,
        timestamp: timestamp.to_string(),
    }
}

fn start(id: &str, command: &str, at: &str) -> Signal {
    let args = ["a".to_string(), "b".to_string()];
    signal(id, "exec_start", start_payload(command, &args, "/w", ArcEnv::System), at)
}

fn end(id: &str, of: &str, code: i64, ok: bool, ms: u64, at: &str) -> Signal {
    signal(id, "exec_end", end_payload(of, code, ok, ms), at)
}

fn orphan_of(command: &str, at: &str, id: &str) -> Execution {
    Execution {
        command: command.to_string(),
        args: vec!["a".to_string(), "b".to_string()],
        cwd: "/w".to_string(),
        exit_code: None,
        success: false,
        duration_ms: None,
        started_at: at.to_string(),
        ended_at: None,
        start_id: id.to_string(),
    }
}

#[test]
fn empty_log_gives_the_empty_state() {
    let state = FluxState::from_signals(&[]);
    assert_eq!(state.project_path, None);
    assert_eq!(state.version, None);
    assert_eq!(state.initialized_at, None);
    assert!(state.executions.is_empty());
    assert_eq!(state.signal_count, 0);
    assert!(state.last_execution().is_none());
    assert!(state.failed_executions().is_empty());
    assert!(state.command_stats().is_empty());
}

#[test]
fn init_gives_path_version_and_time() {
    let t0 = "2026-02-18T16:21:00+09:00";
    let log = vec![signal("1", "init", init_payload("/proj", "1.0.0", "3.3.6"), t0)];
    let state = FluxState::from_signals(&log);
    assert_eq!(state.project_path.as_deref(), Some("/proj"));
    assert_eq!(state.version.as_deref(), Some("1.0.0"));
    assert_eq!(state.initialized_at.as_deref(), Some(t0));
    assert_eq!(state.signal_count, 1);
    assert!(state.executions.is_empty());
}

#[test]
fn the_last_init_wins() {
    let log = vec![
        signal("1", "init", init_payload("/old", "1.0.0", "3.3.6"), "t0"),
        start("2", "ls", "t1"),
        signal("3", "init", obj(vec![("path", text("/new"))]), "t2"),
    ];
    let state = FluxState::from_signals(&log);
    assert_eq!(state.project_path.as_deref(), Some("/new"));
    assert_eq!(state.version, None);
    assert_eq!(state.initialized_at.as_deref(), Some("t2"));
}

#[test]
fn start_and_end_give_one_execution() {
    let log = vec![start("A", "rspec", "t1"), end("B", "A", 3, false, 1500, "t2")];
    let state = FluxState::from_signals(&log);
    assert_eq!(
        state.executions,
        vec![Execution {
            command: "rspec".to_string(),
            args: vec!["a".to_string(), "b".to_string()],
            cwd: "/w".to_string(),
            exit_code: Some(3),
            success: false,
            duration_ms: Some(1500),
            started_at: "t1".to_string(),
            ended_at: Some("t2".to_string()),
            start_id: "A".to_string(),
        }]
    );
    assert_eq!(state.signal_count, 2);
}

#[test]
fn pairs_may_interleave() {
    let log = vec![
        start("A", "one", "t1"),
        start("B", "two", "t2"),
        signal("x", "note", Json::Null, "t3"),
        end("C", "B", 0, true, 5, "t4"),
        end("D", "A", 0, true, 9, "t5"),
    ];
    let state = FluxState::from_signals(&log);
    assert_eq!(state.executions.len(), 2);
    assert_eq!(state.executions[0].command, "two");
    assert_eq!(state.executions[0].start_id, "B");
    assert_eq!(state.executions[0].duration_ms, Some(5));
    assert_eq!(state.executions[1].command, "one");
    assert_eq!(state.executions[1].ended_at.as_deref(), Some("t5"));
    assert_eq!(state.last_execution().unwrap().command, "one");
}

#[test]
fn every_kind_of_start_and_end_pairs() {
    let args: [String; 0] = [];
    let log = vec![
        signal("1", "install_start", start_payload("bundle", &args, "/w", ArcEnv::Isolated), "t1"),
        signal("2", "run_end", end_payload("1", 0, true, 1), "t2"),
        signal("3", "run_start", start_payload("rake", &args, "/w", ArcEnv::Isolated), "t3"),
        signal("4", "install_end", end_payload("3", 0, true, 2), "t4"),
    ];
    let state = FluxState::from_signals(&log);
    assert_eq!(state.executions.len(), 2);
    assert_eq!(state.executions[0].command, "bundle");
    assert_eq!(state.executions[1].command, "rake");
    assert!(state.executions[0].args.is_empty());
}

#[test]
fn start_without_end_is_an_orphan() {
    let log = vec![start("A", "sleep", "t1")];
    let state = FluxState::from_signals(&log);
    assert_eq!(state.executions, vec![orphan_of("sleep", "t1", "A")]);
    assert_eq!(state.failed_executions().len(), 1);
}

#[test]
fn orphans_follow_the_ended_executions_in_log_order() {
    let log = vec![
        start("A", "first", "t1"),
        start("B", "second", "t2"),
        start("C", "third", "t3"),
        end("D", "B", 0, true, 1, "t4"),
    ];
    let state = FluxState::from_signals(&log);
    assert_eq!(state.executions.len(), 3);
    assert_eq!(state.executions[0].start_id, "B");
    assert_eq!(state.executions[1], orphan_of("first", "t1", "A"));
    assert_eq!(state.executions[2], orphan_of("third", "t3", "C"));
}

#[test]
fn end_without_start_still_counts() {
    let log = vec![end("B", "nowhere", 1, false, 7, "t2")];
    let state = FluxState::from_signals(&log);
    assert_eq!(
        state.executions,
        vec![Execution {
            command: "unknown".to_string(),
            args: vec![],
            cwd: String::new(),
            exit_code: Some(1),
            success: false,
            duration_ms: Some(7),
            started_at: String::new(),
            ended_at: Some("t2".to_string()),
            start_id: String::new(),
        }]
    );
}

#[test]
fn end_before_its_start_does_not_pair() {
    let log = vec![end("B", "A", 0, true, 7, "t1"), start("A", "ls", "t2")];
    let state = FluxState::from_signals(&log);
    assert_eq!(state.executions.len(), 2);
    assert_eq!(state.executions[0].command, "unknown");
    assert_eq!(state.executions[1], orphan_of("ls", "t2", "A"));
}

#[test]
fn a_start_is_taken_up_once() {
    let log = vec![
        start("A", "ls", "t1"),
        end("B", "A", 0, true, 1, "t2"),
        end("C", "A", 0, true, 2, "t3"),
    ];
    let state = FluxState::from_signals(&log);
    assert_eq!(state.executions.len(), 2);
    assert_eq!(state.executions[0].command, "ls");
    assert_eq!(state.executions[1].command, "unknown");
    assert_eq!(state.executions[1].duration_ms, Some(2));
}

#[test]
fn a_start_with_a_pending_identifier_takes_its_place() {
    let log = vec![start("A", "old", "t1"), start("B", "other", "t2"), start("A", "new", "t3")];
    let state = FluxState::from_signals(&log);
    assert_eq!(state.executions.len(), 2);
    assert_eq!(state.executions[0], orphan_of("other", "t2", "B"));
    assert_eq!(state.executions[1], orphan_of("new", "t3", "A"));
}

#[test]
fn end_without_members_has_defaults() {
    let log = vec![
        signal("A", "exec_start", Json::Null, "t1"),
        signal("B", "exec_end", obj(vec![("ref_id", text("A"))]), "t2"),
    ];
    let state = FluxState::from_signals(&log);
    assert_eq!(
        state.executions,
        vec![Execution {
            command: "unknown".to_string(),
            args: vec![],
            cwd: String::new(),
            exit_code: None,
            success: false,
            duration_ms: None,
            started_at: "t1".to_string(),
            ended_at: Some("t2".to_string()),
            start_id: "A".to_string(),
        }]
    );
}

#[test]
fn members_of_another_shape_are_not_read() {
    let odd_start = obj(vec![
        ("command", Json::UInt(1)),
        ("args", Json::Array(vec![text("x"), Json::UInt(2), Json::Null, text("y")])),
        ("cwd", Json::Bool(true)),
    ]);
    let odd_end = obj(vec![
        ("ref_id", text("A")),
        ("exit_code", text("0")),
        ("success", text("true")),
        ("duration_ms", Json::Int(-1)),
    ]);
    let log = vec![signal("A", "run_start", odd_start, "t1"), signal("B", "run_end", odd_end, "t2")];
    let e = &FluxState::from_signals(&log).executions[0];
    assert_eq!(e.command, "unknown");
    assert_eq!(e.args, vec!["x".to_string(), "y".to_string()]);
    assert_eq!(e.cwd, "");
    assert_eq!(e.exit_code, None);
    assert!(!e.success);
    assert_eq!(e.duration_ms, None);
}

#[test]
fn end_with_an_empty_reference_pairs_with_an_empty_identifier() {
    let log = vec![start("", "ls", "t1"), signal("B", "exec_end", Json::Null, "t2")];
    let state = FluxState::from_signals(&log);
    assert_eq!(state.executions.len(), 1);
    assert_eq!(state.executions[0].command, "ls");
}

#[test]
fn other_signals_change_nothing() {
    let base = vec![
        signal("1", "init", init_payload("/p", "1", "3"), "t0"),
        start("A", "ls", "t1"),
        end("B", "A", 0, true, 1, "t2"),
    ];
    let mut more = base.clone();
    more.insert(1, signal("x", "add", obj(vec![("gem", text("g"))]), "t"));
    more.insert(3, signal("y", "shell_enter", Json::Null, "t"));
    more.push(signal("z", "undo", Json::Null, "t"));
    let a = FluxState::from_signals(&base);
    let b = FluxState::from_signals(&more);
    assert_eq!(a.executions, b.executions);
    assert_eq!(a.project_path, b.project_path);
    assert_eq!(a.initialized_at, b.initialized_at);
    assert_eq!(b.signal_count, 6);
}

#[test]
fn replaying_a_log_twice_gives_the_same_state() {
    let project = FluxProject::at(".");
    let mut log = String::new();
    for s in [
        signal("1", "init", init_payload("/p", "1", "3"), "t0"),
        start("A", "ls", "t1"),
        start("B", "rspec", "t2"),
        end("C", "A", 0, true, 12, "t3"),
        end("D", "gone", 1, false, 3, "t4"),
    ] {
        log.push_str(&project.append(s).unwrap().line);
        log.push('\n');
    }
    let first = FluxState::from_signals(&FluxProject::read_signals(&log).unwrap());
    let second = FluxState::from_signals(&FluxProject::read_signals(&log).unwrap());
    assert_eq!(first, second);
    assert_eq!(first.executions.len(), 3);
    assert_eq!(first.executions[2].start_id, "B");
    assert_eq!(first.failed_executions().len(), 2);
}

#[test]
fn failed_executions_are_those_without_success() {
    let log = vec![
        start("A", "a", "t1"),
        end("B", "A", 0, true, 1, "t2"),
        start("C", "c", "t3"),
        end("D", "C", 2, false, 1, "t4"),
        start("E", "e", "t5"),
    ];
    let state = FluxState::from_signals(&log);
    let failed = state.failed_executions();
    assert_eq!(failed.len(), 2);
    assert_eq!(failed[0].command, "c");
    assert_eq!(failed[1].command, "e");
    assert_eq!(state.last_execution().unwrap().command, "e");
}

#[test]
fn executions_are_built_from_single_signals() {
    let s = start("A", "ls", "t1");
    let e = end("B", "A", 0, true, 4, "t2");
    assert_eq!(Execution::orphan(&s), orphan_of("ls", "t1", "A"));
    assert_eq!(Execution::paired(&s, &e).duration_ms, Some(4));
    assert_eq!(Execution::paired(&s, &e).start_id, "A");
    assert_eq!(Execution::unmatched(&e).command, "unknown");
    assert_eq!(Execution::unmatched(&e).ended_at.as_deref(), Some("t2"));
}
