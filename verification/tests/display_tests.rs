use flux_core::cli::{split_command, state_view, StateView};
use flux_core::display::{
    describe_change, filter_signals, fmt_cmd, fmt_timestamp, last_project_change, ProjectChange,
};
use flux_core::json::Json;
use flux_core::payloads::{
    add_payload, bootstrap_payload, end_payload, init_payload, remove_payload, shell_enter_payload,
    shell_exit_payload, start_payload,
};
use flux_core::runner::ArcEnv;
use flux_core::signals::Signal;

fn obj(members: Vec<(&str, Json)>) -> Json {
    Json::Object(members.into_iter().map(|(k, v)| (k.to_string(), v)).collect())
}

fn text(s: &str) -> Json {
    Json::Str(s.to_string())
}

fn signal(id: &str, kind: &str, payload: Json) -> Signal {
    Signal { id: id.to_string(), r_type: kind.to_string(), payload, timestamp: "t".to_string() }
}

#[test]
fn command_line_joins_with_blanks() {
    assert_eq!(fmt_cmd("ls", &[]), "ls");
    assert_eq!(fmt_cmd("ls", &["-l".to_string()]), "ls -l");
    assert_eq!(fmt_cmd("ls", &["-l".to_string(), "".to_string(), "a b".to_string()]), "ls -l  a b");
}

#[test]
fn timestamp_is_cut_to_the_minute() {
    assert_eq!(fmt_timestamp("2026-02-18T16:21:33.123+09:00"), "2026-02-18 16:21");
    assert_eq!(fmt_timestamp("2026-02-18T16:21"), "2026-02-18 16:21");
    assert_eq!(fmt_timestamp("2026-02-18T16:2"), "2026-02-18T16:2");
    assert_eq!(fmt_timestamp(""), "");
    assert_eq!(fmt_timestamp("TTTTTTTTTTTTTTTTTT"), "                ");
}

#[test]
fn timestamp_is_cut_at_sixteen_bytes() {
    let samples = [
        "",
        "short",
        "2026-02-18T16:21:33+09:00",
        "ééééééééT",
        "é2026-02-18T16:21:33",
        "日本2026-02-18T16:21",
        "😀😀😀😀T",
        "aééééééé",
        "abcdefghijklmnoT",
        "abcdefghijklmnoTq",
        "abcdefghijklmno",
    ];
    for ts in samples {
        let expected =
            if ts.len() >= 16 { ts[..16].replace('T', " ") } else { ts.to_string() };
        assert_eq!(fmt_timestamp(ts), expected, "{:?}", ts);
    }
    assert_eq!(fmt_timestamp("abcdefghijklmnoéT"), "abcdefghijklmnoé");
}

#[test]
fn last_change_of_the_project() {
    let log = vec![
        signal("1", "init", Json::Null),
        signal("2", "add", add_payload("a", None)),
        signal("3", "exec_start", Json::Null),
        signal("4", "exec_end", Json::Null),
    ];
    assert_eq!(last_project_change(&log), Some(1));
    assert_eq!(last_project_change(&log[2..]), None);
    assert_eq!(last_project_change(&log[..1]), Some(0));
    assert_eq!(last_project_change(&[]), None);
}

#[test]
fn changes_are_described_by_their_members() {
    assert_eq!(
        describe_change(&signal("1", "add", add_payload("json", Some("2.0")))),
        ProjectChange::Added { gem: Some("json".to_string()), version: Some("2.0".to_string()) }
    );
    assert_eq!(
        describe_change(&signal("1", "add", add_payload("json", None))),
        ProjectChange::Added { gem: Some("json".to_string()), version: None }
    );
    assert_eq!(
        describe_change(&signal("1", "remove", remove_payload("json"))),
        ProjectChange::Removed { gem: Some("json".to_string()) }
    );
    assert_eq!(
        describe_change(&signal("1", "remove", Json::Null)),
        ProjectChange::Removed { gem: None }
    );
    assert_eq!(
        describe_change(&signal(
            "1",
            "undo",
            obj(vec![("target_type", text("add")), ("gem", text("json"))])
        )),
        ProjectChange::Undone { target_type: Some("add".to_string()), gem: Some("json".to_string()) }
    );
    assert_eq!(
        describe_change(&signal("1", "bootstrap", bootstrap_payload("3.3.6", true, "/d"))),
        ProjectChange::Bootstrapped { ruby_version: Some("3.3.6".to_string()) }
    );
    assert_eq!(
        describe_change(&signal("1", "init", Json::Null)),
        ProjectChange::Other { kind: "init".to_string() }
    );
}

#[test]
fn signals_are_filtered_by_kind() {
    let log = vec![
        signal("1", "add", Json::Null),
        signal("2", "remove", Json::Null),
        signal("3", "add", Json::Null),
    ];
    let adds = filter_signals(&log, Some("add"));
    assert_eq!(adds.len(), 2);
    assert_eq!(adds[0].id, "1");
    assert_eq!(adds[1].id, "3");
    assert_eq!(filter_signals(&log, None).len(), 3);
    assert!(filter_signals(&log, Some("undo")).is_empty());
    assert!(filter_signals(&log, Some("")).is_empty());
}

#[test]
fn payloads_have_their_members() {
    assert_eq!(
        init_payload("/p", "0.1.0", "3.3.6").render().as_deref(),
        Some("{\"path\":\"/p\",\"ruby_version\":\"3.3.6\",\"version\":\"0.1.0\"}")
    );
    assert_eq!(
        start_payload("ls", &["-l".to_string()], "/w", ArcEnv::System).render().as_deref(),
        Some("{\"args\":[\"-l\"],\"command\":\"ls\",\"cwd\":\"/w\",\"env_context\":{\"mode\":\"system\"}}")
    );
    assert_eq!(
        start_payload("ls", &[], "/w", ArcEnv::Isolated).get("env_context"),
        Some(&obj(vec![("mode", text("isolated")), ("GEM_HOME", text(".arc/env"))]))
    );
    assert_eq!(
        end_payload("A", -1, false, 12).render().as_deref(),
        Some("{\"duration_ms\":12,\"exit_code\":-1,\"ref_id\":\"A\",\"success\":false}")
    );
    assert_eq!(add_payload("g", None).render().as_deref(), Some("{\"gem\":\"g\",\"version\":null}"));
    assert_eq!(
        add_payload("g", Some("1")).render().as_deref(),
        Some("{\"gem\":\"g\",\"version\":\"1\"}")
    );
    assert_eq!(remove_payload("g").render().as_deref(), Some("{\"gem\":\"g\"}"));
    assert_eq!(
        bootstrap_payload("3.3.6", false, "/d").render().as_deref(),
        Some("{\"cache_hit\":false,\"dest\":\"/d\",\"ruby_version\":\"3.3.6\"}")
    );
    assert_eq!(shell_enter_payload("/bin/sh").render().as_deref(), Some("{\"shell\":\"/bin/sh\"}"));
    assert_eq!(shell_exit_payload(2).render().as_deref(), Some("{\"exit_code\":2}"));
}

#[test]
fn state_is_shown_by_the_first_switch_that_is_set() {
    assert_eq!(state_view(true, true, true), StateView::Json);
    assert_eq!(state_view(false, true, true), StateView::Raw);
    assert_eq!(state_view(false, false, true), StateView::Diff);
    assert_eq!(state_view(false, false, false), StateView::Full);
}

#[test]
fn command_is_split_from_its_arguments() {
    let words = vec!["ls".to_string(), "-l".to_string(), "x".to_string()];
    let (command, args) = split_command(&words).unwrap();
    assert_eq!(command, "ls");
    assert_eq!(args, &["-l".to_string(), "x".to_string()][..]);
    assert_eq!(split_command(&words[..1]).unwrap().1.len(), 0);
    assert!(split_command(&[]).is_none());
}
