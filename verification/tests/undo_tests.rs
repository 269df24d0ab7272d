use flux_core::json::Json;
use flux_core::payloads::{add_payload, remove_payload};
use flux_core::signals::Signal;
use flux_core::undo::{
    consumed_undo_ids, next_undo_candidate, plan_undo, GemChange, UndoError,
};

fn obj(members: Vec<(&str, Json)>) -> Json {
    Json::Object(members.into_iter().map(|(k, v)| (k.to_string(), v)).collect())
}

fn text(s: &str) -> Json {
    Json::Str(s.to_string())
}

fn signal(id: &str, kind: &str, payload: Json) -> Signal {
    Signal { id: id.to_string(), r_type: kind.to_string(), payload, timestamp: "t".to_string() }
}

fn undo_of(id: &str, target: &str) -> Signal {
    signal(id, "undo", obj(vec![("target_id", text(target))]))
}

#[test]
fn undo_skips_what_was_undone() {
    let log = vec![
        signal("1", "add", add_payload("A", None)),
        signal("2", "remove", remove_payload("B")),
        undo_of("3", "2"),
    ];
    assert_eq!(next_undo_candidate(&log), Some(0));
    assert_eq!(log[0].id, "1");
    assert_eq!(consumed_undo_ids(&log), vec!["2".to_string()]);
}

#[test]
fn the_last_reversible_signal_is_next() {
    let log = vec![
        signal("1", "add", add_payload("A", None)),
        signal("2", "exec_start", Json::Null),
        signal("3", "remove", remove_payload("B")),
        signal("4", "bootstrap", Json::Null),
    ];
    assert_eq!(next_undo_candidate(&log), Some(2));
}

#[test]
fn nothing_to_undo() {
    assert_eq!(next_undo_candidate(&[]), None);
    let log = vec![
        signal("1", "init", Json::Null),
        signal("2", "add", add_payload("A", None)),
        undo_of("3", "2"),
    ];
    assert_eq!(next_undo_candidate(&log), None);
    assert_eq!(plan_undo(&log), Err(UndoError::NothingToUndo));
}

#[test]
fn an_undo_may_stand_before_its_target() {
    let log = vec![undo_of("0", "1"), signal("1", "add", add_payload("A", None))];
    assert_eq!(next_undo_candidate(&log), None);
}

#[test]
fn only_undo_signals_consume() {
    let log = vec![
        signal("1", "add", add_payload("A", None)),
        signal("2", "note", obj(vec![("target_id", text("1"))])),
        signal("3", "undo", obj(vec![("target_id", Json::UInt(1))])),
        signal("4", "undo", Json::Null),
    ];
    assert!(consumed_undo_ids(&log).is_empty());
    assert_eq!(next_undo_candidate(&log), Some(0));
}

#[test]
fn undo_of_an_add_removes_the_gem() {
    let log = vec![signal("1", "add", add_payload("json", Some("~> 2.0")))];
    let plan = plan_undo(&log).unwrap();
    assert_eq!(plan.target, 0);
    assert_eq!(plan.change, GemChange::Remove { gem: "json".to_string() });
    assert_eq!(
        plan.payload,
        obj(vec![("target_id", text("1")), ("target_type", text("add")), ("gem", text("json"))])
    );
}

#[test]
fn undo_of_a_remove_restores_the_gem() {
    let log = vec![
        signal("1", "add", add_payload("json", None)),
        signal("2", "remove", obj(vec![("gem", text("rails")), ("version", text("7.0"))])),
    ];
    let plan = plan_undo(&log).unwrap();
    assert_eq!(plan.target, 1);
    assert_eq!(
        plan.change,
        GemChange::Restore { gem: "rails".to_string(), version: Some("7.0".to_string()) }
    );
    let plain = vec![signal("9", "remove", remove_payload("rake"))];
    assert_eq!(
        plan_undo(&plain).unwrap().change,
        GemChange::Restore { gem: "rake".to_string(), version: None }
    );
}

#[test]
fn undo_needs_the_name_of_the_gem() {
    let log = vec![signal("1", "add", add_payload("json", None)), signal("2", "remove", Json::Null)];
    assert_eq!(plan_undo(&log), Err(UndoError::MissingGem));
}

#[test]
fn recorded_undo_consumes_its_target() {
    let mut log = vec![
        signal("1", "add", add_payload("a", None)),
        signal("2", "add", add_payload("b", None)),
    ];
    let first = plan_undo(&log).unwrap();
    assert_eq!(first.target, 1);
    log.push(signal("3", "undo", first.payload));
    let second = plan_undo(&log).unwrap();
    assert_eq!(second.target, 0);
    log.push(signal("4", "undo", second.payload));
    assert_eq!(plan_undo(&log), Err(UndoError::NothingToUndo));
    assert_eq!(log.len(), 4);
}
