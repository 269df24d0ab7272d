use flux_core::json::Json;
use flux_core::signals::{
    append_line, is_single_line, join_path, truncate_display, FluxProject, Signal, SignalType,
    StoreError,
};

fn obj(members: Vec<(&str, Json)>) -> Json {
    Json::Object(members.into_iter().map(|(k, v)| (k.to_string(), v)).collect())
}

fn text(s: &str) -> Json {
    Json::Str(s.to_string())
}

fn signal(id: &str, kind: &str, payload: Json, timestamp: &str) -> Signal {
    Signal {
        id: id.to_string(),
        r_type: kind.to_string(),
        payload,
        timestamp: timestamp.to_string(),
    }
}

fn append_to(log: &mut String, project: &FluxProject, s: Signal) -> Signal {
    let recorded = project.append(s).unwrap();
    log.push_str(&recorded.line);
    log.push('\n');
    recorded.signal
}

#[test]
fn appended_signal_is_read_back() {
    let project = FluxProject::at("/proj");
    let first = signal("01", "init", obj(vec![("path", text("/proj"))]), "2026-01-01T00:00:00+00:00");
    let second = signal(
        "02",
        "exec_start",
        obj(vec![("args", Json::Array(vec![text("-l")])), ("command", text("ls")), ("n", Json::Int(-3))]),
        "2026-01-01T00:00:01+00:00",
    );
    let mut log = String::new();
    assert_eq!(append_to(&mut log, &project, first.clone()), first);
    let before = FluxProject::read_signals(&log).unwrap();
    assert_eq!(before, vec![first.clone()]);
    assert_eq!(append_to(&mut log, &project, second.clone()), second);
    let after = FluxProject::read_signals(&log).unwrap();
    assert_eq!(after, vec![first, second]);
}

#[test]
fn appends_are_read_in_their_order() {
    let project = FluxProject::at(".");
    let mut log = String::new();
    let mut written = Vec::new();
    for n in 0..20u64 {
        let s = signal(
            &format!("id-{}", 19 - n),
            "note",
            obj(vec![("n", Json::UInt(n))]),
            &format!("2026-01-01T00:00:{:02}+00:00", n),
        );
        written.push(append_to(&mut log, &project, s));
    }
    assert_eq!(FluxProject::read_signals(&log).unwrap(), written);
}

#[test]
fn line_has_the_members_in_their_order() {
    let s = signal("a", "add", obj(vec![("gem", text("json"))]), "t");
    assert_eq!(
        s.to_line().as_deref(),
        Ok("{\"id\":\"a\",\"type\":\"add\",\"payload\":{\"gem\":\"json\"},\"timestamp\":\"t\"}")
    );
}

#[test]
fn line_feeds_in_texts_do_not_break_the_line() {
    let s = signal("a\nb", "x\r", text("p\nq"), "t\r\n");
    let line = s.to_line().unwrap();
    assert!(is_single_line(&line));
    assert_eq!(Signal::from_line(&line), Some(s));
}

#[test]
fn a_payload_that_cannot_be_written_fails_the_append() {
    let s = signal("a", "add", Json::Float("x".to_string()), "t");
    assert_eq!(s.to_line(), Err(StoreError::IoFailure));
    assert_eq!(FluxProject::at(".").append(s).map(|r| r.line), Err(StoreError::IoFailure));
}

#[test]
fn record_assigns_identifier_and_time() {
    let project = FluxProject::at(".");
    let first = project.record(SignalType::Add, obj(vec![("gem", text("a"))])).unwrap();
    let second = project.record(SignalType::Custom("shell_enter".to_string()), Json::Null).unwrap();
    assert_eq!(first.signal.r_type, "add");
    assert_eq!(second.signal.r_type, "shell_enter");
    assert_eq!(first.signal.payload, obj(vec![("gem", text("a"))]));
    assert_eq!(first.signal.id.len(), 36);
    assert!(!first.signal.timestamp.is_empty());
    assert_ne!(first.signal.id, second.signal.id);
    assert!(first.signal.id < second.signal.id);
    assert_eq!(Signal::from_line(&first.line), Some(first.signal));
}

#[test]
fn append_keeps_what_is_set() {
    let project = FluxProject::at(".");
    let only_id = project.append(signal("mine", "add", Json::Null, "")).unwrap().signal;
    assert_eq!(only_id.id, "mine");
    assert!(!only_id.timestamp.is_empty());
    let only_time = project.append(signal("", "add", Json::Null, "then")).unwrap().signal;
    assert_eq!(only_time.timestamp, "then");
    assert_eq!(only_time.id.len(), 36);
}

#[test]
fn stamped_takes_the_token_of_the_tag() {
    let s = Signal::stamped("i".to_string(), "t".to_string(), &SignalType::RunEnd, Json::Null);
    assert_eq!(s, signal("i", "run_end", Json::Null, "t"));
}

#[test]
fn empty_log_has_no_signals() {
    assert_eq!(FluxProject::read_signals(""), Ok(vec![]));
}

#[test]
fn malformed_line_fails_the_whole_read() {
    let good = "{\"id\":\"a\",\"type\":\"add\",\"payload\":null,\"timestamp\":\"t\"}";
    let log = format!("{}\nnot json\n{}\n", good, good);
    assert_eq!(FluxProject::read_signals(&log), Err(StoreError::ParseFailure { line: 2 }));
    let first_bad = format!("{{\n{}\n", good);
    assert_eq!(FluxProject::read_signals(&first_bad), Err(StoreError::ParseFailure { line: 1 }));
    let two_bad = format!("{}\n{}\nx\ny\n", good, good);
    assert_eq!(FluxProject::read_signals(&two_bad), Err(StoreError::ParseFailure { line: 3 }));
}

#[test]
fn empty_line_is_malformed() {
    let good = "{\"id\":\"a\",\"type\":\"add\",\"payload\":null,\"timestamp\":\"t\"}";
    let log = format!("{}\n\n{}\n", good, good);
    assert_eq!(FluxProject::read_signals(&log), Err(StoreError::ParseFailure { line: 2 }));
    assert_eq!(FluxProject::read_signals("\n"), Err(StoreError::ParseFailure { line: 1 }));
}

#[test]
fn record_needs_its_four_members() {
    let whole = "{\"id\":\"a\",\"type\":\"add\",\"payload\":{\"k\":[1]},\"timestamp\":\"t\",\"more\":1}";
    assert_eq!(
        Signal::from_line(whole),
        Some(signal("a", "add", obj(vec![("k", Json::Array(vec![Json::UInt(1)]))]), "t"))
    );
    assert_eq!(Signal::from_line("{\"type\":\"add\",\"payload\":null,\"timestamp\":\"t\"}"), None);
    assert_eq!(Signal::from_line("{\"id\":\"a\",\"payload\":null,\"timestamp\":\"t\"}"), None);
    assert_eq!(Signal::from_line("{\"id\":\"a\",\"type\":\"add\",\"timestamp\":\"t\"}"), None);
    assert_eq!(Signal::from_line("{\"id\":\"a\",\"type\":\"add\",\"payload\":null}"), None);
    assert_eq!(Signal::from_line("{\"id\":1,\"type\":\"add\",\"payload\":null,\"timestamp\":\"t\"}"), None);
    assert_eq!(Signal::from_line("[\"a\",\"add\",null,\"t\"]"), None);
    assert_eq!(Signal::from_line("null"), None);
}

#[test]
fn lines_may_end_in_carriage_return_and_line_feed() {
    let good = "{\"id\":\"a\",\"type\":\"add\",\"payload\":null,\"timestamp\":\"t\"}";
    let log = format!("{}\r\n{}", good, good);
    let read = FluxProject::read_signals(&log).unwrap();
    assert_eq!(read.len(), 2);
    assert_eq!(read[0], signal("a", "add", Json::Null, "t"));
}

#[test]
fn unknown_tag_is_kept_as_custom() {
    assert_eq!(SignalType::from_token("deploy"), SignalType::Custom("deploy".to_string()));
    assert_eq!(SignalType::from_token(""), SignalType::Custom(String::new()));
    assert_eq!(SignalType::from_token("INIT"), SignalType::Custom("INIT".to_string()));
    assert_eq!(SignalType::from_token("deploy").to_string(), "deploy");
    let line = "{\"id\":\"a\",\"type\":\"deploy\",\"payload\":null,\"timestamp\":\"t\"}";
    assert_eq!(FluxProject::read_signals(line).unwrap()[0].r_type, "deploy");
}

#[test]
fn closed_tags_have_their_tokens() {
    let all = vec![
        (SignalType::Init, "init"),
        (SignalType::ExecStart, "exec_start"),
        (SignalType::ExecEnd, "exec_end"),
        (SignalType::InstallStart, "install_start"),
        (SignalType::InstallEnd, "install_end"),
        (SignalType::RunStart, "run_start"),
        (SignalType::RunEnd, "run_end"),
        (SignalType::Add, "add"),
        (SignalType::Remove, "remove"),
        (SignalType::Bootstrap, "bootstrap"),
        (SignalType::Undo, "undo"),
    ];
    for (tag, token) in all {
        assert_eq!(tag.to_string(), token);
        assert_eq!(SignalType::from_token(token), tag);
    }
}

#[test]
fn init_refuses_an_existing_log() {
    assert_eq!(FluxProject::init("/proj", true), Err(StoreError::AlreadyInitialized));
    let project = FluxProject::init("/proj", false).unwrap();
    assert_eq!(project.root, "/proj");
    assert_eq!(project.flux_dir, "/proj/.flux");
    assert_eq!(project.signal_file, "/proj/.flux/signals.jsonl");
}

#[test]
fn open_needs_a_log() {
    assert_eq!(FluxProject::open("/proj", false), Err(StoreError::NotInitialized));
    let project = FluxProject::open("rel/", true).unwrap();
    assert_eq!(project.flux_dir, "rel/.flux");
    assert_eq!(project.signal_file, "rel/.flux/signals.jsonl");
    assert_eq!(FluxProject::open(".", true).unwrap(), FluxProject::at("."));
}

#[test]
fn join_path_puts_one_separator() {
    assert_eq!(join_path("a", "b"), "a/b");
    assert_eq!(join_path("a/", "b"), "a/b");
    assert_eq!(join_path("", "b"), "b");
    assert_eq!(join_path("/", "b"), "/b");
}

#[test]
fn truncate_display_cuts_long_texts() {
    assert_eq!(truncate_display("hello world", 8), "hello...");
    assert_eq!(truncate_display("hello", 8), "hello");
    assert_eq!(truncate_display("12345678", 8), "12345678");
    assert_eq!(truncate_display("123456789", 8), "12345...");
    assert_eq!(truncate_display("abcdef", 2), "...");
    assert_eq!(truncate_display("abcdef", 3), "...");
    assert_eq!(truncate_display("abcdef", 0), "...");
    assert_eq!(truncate_display("", 0), "");
    assert_eq!(truncate_display("日本語のテキストです", 6), "日本語...");
}

#[test]
fn append_gives_the_signal_as_it_is_read_back() {
    let unordered = obj(vec![("b", Json::UInt(1)), ("a", Json::UInt(2)), ("b", Json::UInt(3))]);
    let rec = signal("i", "note", unordered, "t").into_record().unwrap();
    assert_eq!(rec.line, "{\"id\":\"i\",\"type\":\"note\",\"payload\":{\"a\":2,\"b\":3},\"timestamp\":\"t\"}");
    assert_eq!(
        rec.signal,
        signal("i", "note", obj(vec![("a", Json::UInt(2)), ("b", Json::UInt(3))]), "t")
    );
    assert_eq!(Signal::from_line(&rec.line), Some(rec.signal.clone()));
    let log = append_line("", &rec.line);
    assert_eq!(FluxProject::read_signals(&log), Ok(vec![rec.signal]));
}

#[test]
fn append_line_ends_the_line() {
    assert_eq!(append_line("", "x"), "x\n");
    assert_eq!(append_line("a\n", "b"), "a\nb\n");
    assert_eq!(append_line("a\n", ""), "a\n\n");
}

#[test]
fn a_float_is_kept_by_its_text() {
    let rec = signal("i", "note", Json::Float("2.50".to_string()), "t").into_record().unwrap();
    assert_eq!(rec.signal.payload, Json::Float("2.5".to_string()));
    let whole = signal("i", "note", Json::Float("7".to_string()), "t").into_record().unwrap();
    assert_eq!(whole.signal.payload, Json::UInt(7));
}
