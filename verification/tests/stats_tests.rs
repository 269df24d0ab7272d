use flux_core::state::{Execution, FluxState};
use flux_core::stats::CommandStats;

fn run(command: &str, success: bool, duration_ms: Option<u64>, started_at: &str) -> Execution {
    Execution {
        command: command.to_string(),
        args: vec![],
        cwd: String::new(),
        exit_code: None,
        success,
        duration_ms,
        started_at: started_at.to_string(),
        ended_at: None,
        start_id: String::new(),
    }
}

fn state(executions: Vec<Execution>) -> FluxState {
    FluxState {
        project_path: None,
        version: None,
        initialized_at: None,
        executions,
        signal_count: 0,
    }
}

#[test]
fn three_runs_of_one_command() {
    let s = state(vec![
        run("rspec", true, Some(100), "2026-01-01T10:00:00+00:00"),
        run("rspec", true, Some(200), "2026-01-01T11:00:00+00:00"),
        run("rspec", false, Some(300), "2026-01-01T09:00:00+00:00"),
    ]);
    assert_eq!(
        s.command_stats(),
        vec![CommandStats {
            command: "rspec".to_string(),
            total_runs: 3,
            successes: 2,
            failures: 1,
            avg_duration_ms: Some(200),
            last_run: "2026-01-01T11:00:00+00:00".to_string(),
        }]
    );
}

#[test]
fn runs_without_duration_count_but_are_not_averaged() {
    let s = state(vec![
        run("ls", true, Some(10), "t1"),
        run("ls", false, None, "t2"),
        run("ls", false, Some(15), "t0"),
    ]);
    let stats = s.command_stats();
    assert_eq!(stats.len(), 1);
    assert_eq!(stats[0].total_runs, 3);
    assert_eq!(stats[0].successes, 1);
    assert_eq!(stats[0].failures, 2);
    assert_eq!(stats[0].avg_duration_ms, Some(12));
    assert_eq!(stats[0].last_run, "t2");
}

#[test]
fn command_without_any_duration_has_no_average() {
    let stats = state(vec![run("ls", false, None, "t1")]).command_stats();
    assert_eq!(stats[0].avg_duration_ms, None);
    assert_eq!(stats[0].failures, 1);
}

#[test]
fn average_of_great_durations_does_not_overflow() {
    let s = state(vec![
        run("x", true, Some(u64::MAX), "t"),
        run("x", true, Some(u64::MAX), "t"),
        run("x", true, Some(u64::MAX - 3), "t"),
    ]);
    assert_eq!(s.command_stats()[0].avg_duration_ms, Some(u64::MAX - 1));
}

#[test]
fn the_most_recently_run_command_comes_first() {
    let s = state(vec![
        run("old", true, None, "2026-01-01T00:00:00+00:00"),
        run("new", true, None, "2026-03-01T00:00:00+00:00"),
        run("mid", true, None, "2026-02-01T00:00:00+00:00"),
        run("old", true, None, "2026-01-15T00:00:00+00:00"),
    ]);
    let stats = s.command_stats();
    let names: Vec<&str> = stats.iter().map(|c| c.command.as_str()).collect();
    assert_eq!(names, vec!["new", "mid", "old"]);
    assert_eq!(stats[2].total_runs, 2);
    assert_eq!(stats[2].last_run, "2026-01-15T00:00:00+00:00");
}

#[test]
fn commands_with_the_same_last_run_are_ordered_by_name() {
    let s = state(vec![
        run("zeta", true, None, "t"),
        run("alpha", true, None, "t"),
        run("beta", true, None, "t"),
        run("Beta", true, None, "t"),
    ]);
    let stats = s.command_stats();
    let names: Vec<&str> = stats.iter().map(|c| c.command.as_str()).collect();
    assert_eq!(names, vec!["Beta", "alpha", "beta", "zeta"]);
}

#[test]
fn commands_are_grouped_by_their_literal_text() {
    let s = state(vec![
        run("ls", true, None, "t1"),
        run("ls ", true, None, "t2"),
        run("LS", true, None, "t3"),
    ]);
    assert_eq!(s.command_stats().len(), 3);
}

#[test]
fn last_run_is_the_greatest_text() {
    let s = state(vec![
        run("c", true, None, "b"),
        run("c", true, None, "ab"),
        run("c", true, None, "b"),
        run("c", true, None, ""),
    ]);
    assert_eq!(s.command_stats()[0].last_run, "b");
    let empty = state(vec![run("c", true, None, "")]);
    assert_eq!(empty.command_stats()[0].last_run, "");
}
