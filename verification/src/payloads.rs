//! The payloads of the signals that the commands record.

use vstd::prelude::*;
use vstd::string::StringExecFns;
use crate::json::{lemma_lookup_at, lemma_strings_of_strings, Json, JsonData};
use crate::runner::ArcEnv;
use crate::signals::ARC_ENV_DIR;
use crate::state::{
    end_duration,
    end_exit_code,
    end_success,
    ref_id,
    start_args,
    start_command,
    start_cwd,
};

verus! {

fn member(key: &str, value: Json) -> (r: (String, Json))
    ensures
        r.deep_view() == (key@, value.deep_view()),
{
    (String::from_str(key), value)
}

/// The payload of an `init` signal.
pub open spec fn init_payload_data(
    path: Seq<char>,
    version: Seq<char>,
    ruby_version: Seq<char>,
) -> JsonData {
    JsonData::Object(
        seq![
            ("path"@, JsonData::Str(path)),
            ("version"@, JsonData::Str(version)),
            ("ruby_version"@, JsonData::Str(ruby_version)),
        ],
    )
}

/// The payload of the signal that records the set-up of a project.
pub fn init_payload(path: &str, version: &str, ruby_version: &str) -> (r: Json)
    ensures
        r.deep_view() == init_payload_data(path@, version@, ruby_version@),
{
    let mut members: Vec<(String, Json)> = Vec::new();
    members.push(member("path", Json::string(path)));
    members.push(member("version", Json::string(version)));
    members.push(member("ruby_version", Json::string(ruby_version)));
    assert(members.deep_view() =~= init_payload_data(path@, version@, ruby_version@)->Object_0);
    Json::object(members)
}

/// What a start signal tells of the environment of its command.
pub open spec fn env_context_data(env: ArcEnv) -> JsonData {
    match env {
        ArcEnv::Isolated => JsonData::Object(
            seq![
                ("mode"@, JsonData::Str("isolated"@)),
                ("GEM_HOME"@, JsonData::Str(ARC_ENV_DIR@)),
            ],
        ),
        ArcEnv::System => JsonData::Object(seq![("mode"@, JsonData::Str("system"@))]),
    }
}

fn env_context(env: ArcEnv) -> (r: Json)
    ensures
        r.deep_view() == env_context_data(env),
{
    let mut members: Vec<(String, Json)> = Vec::new();
    match env {
        ArcEnv::Isolated => {
            members.push(member("mode", Json::string("isolated")));
            members.push(member("GEM_HOME", Json::string(ARC_ENV_DIR)));
        },
        ArcEnv::System => {
            members.push(member("mode", Json::string("system")));
        },
    }
    assert(members.deep_view() =~= env_context_data(env)->Object_0);
    Json::object(members)
}

/// The payload of a start signal.
pub open spec fn start_payload_data(
    command: Seq<char>,
    args: Seq<Seq<char>>,
    cwd: Seq<char>,
    env: ArcEnv,
) -> JsonData {
    JsonData::Object(
        seq![
            ("command"@, JsonData::Str(command)),
            ("args"@, JsonData::Array(args.map_values(|t: Seq<char>| JsonData::Str(t)))),
            ("cwd"@, JsonData::Str(cwd)),
            ("env_context"@, env_context_data(env)),
        ],
    )
}

/// The payload of the signal that is recorded before a command is launched.
pub fn start_payload(command: &str, args: &[String], cwd: &str, env: ArcEnv) -> (r: Json)
    ensures
        r.deep_view() == start_payload_data(command@, args.deep_view(), cwd@, env),
{
    let mut members: Vec<(String, Json)> = Vec::new();
    members.push(member("command", Json::string(command)));
    members.push(member("args", Json::string_array(args)));
    members.push(member("cwd", Json::string(cwd)));
    members.push(member("env_context", env_context(env)));
    assert(members.deep_view() =~= start_payload_data(
        command@,
        args.deep_view(),
        cwd@,
        env,
    )->Object_0);
    Json::object(members)
}

/// The payload of an end signal.
pub open spec fn end_payload_data(
    start_id: Seq<char>,
    exit_code: i64,
    success: bool,
    duration_ms: u64,
) -> JsonData {
    JsonData::Object(
        seq![
            ("ref_id"@, JsonData::Str(start_id)),
            ("exit_code"@, JsonData::Int(exit_code)),
            ("success"@, JsonData::Bool(success)),
            ("duration_ms"@, JsonData::UInt(duration_ms)),
        ],
    )
}

/// The payload of the signal that is recorded after a command has ended;
/// `start_id` is the identifier of the command's start signal.
pub fn end_payload(start_id: &str, exit_code: i64, success: bool, duration_ms: u64) -> (r: Json)
    ensures
        r.deep_view() == end_payload_data(start_id@, exit_code, success, duration_ms),
{
    let mut members: Vec<(String, Json)> = Vec::new();
    members.push(member("ref_id", Json::string(start_id)));
    members.push(member("exit_code", Json::Int(exit_code)));
    members.push(member("success", Json::Bool(success)));
    members.push(member("duration_ms", Json::UInt(duration_ms)));
    assert(members.deep_view() =~= end_payload_data(
        start_id@,
        exit_code,
        success,
        duration_ms,
    )->Object_0);
    Json::object(members)
}

/// The payload of an `add` signal.
pub open spec fn add_payload_data(gem: Seq<char>, version: Option<Seq<char>>) -> JsonData {
    JsonData::Object(
        seq![
            ("gem"@, JsonData::Str(gem)),
            (
                "version"@,
                match version {
                    Some(v) => JsonData::Str(v),
                    None => JsonData::Null,
                },
            ),
        ],
    )
}

/// The payload of the signal that records a declared dependency.
pub fn add_payload(gem: &str, version: Option<&str>) -> (r: Json)
    ensures
        r.deep_view() == add_payload_data(
            gem@,
            match version {
                Some(v) => Some(v@),
                None => None,
            },
        ),
{
    let mut members: Vec<(String, Json)> = Vec::new();
    members.push(member("gem", Json::string(gem)));
    let v = match version {
        Some(v) => Json::string(v),
        None => Json::Null,
    };
    members.push(member("version", v));
    assert(members.deep_view() =~= add_payload_data(
        gem@,
        match version {
            Some(v) => Some(v@),
            None => None,
        },
    )->Object_0);
    Json::object(members)
}

/// The payload of a `remove` signal.
pub open spec fn remove_payload_data(gem: Seq<char>) -> JsonData {
    JsonData::Object(seq![("gem"@, JsonData::Str(gem))])
}

/// The payload of the signal that records a removed declaration.
pub fn remove_payload(gem: &str) -> (r: Json)
    ensures
        r.deep_view() == remove_payload_data(gem@),
{
    let mut members: Vec<(String, Json)> = Vec::new();
    members.push(member("gem", Json::string(gem)));
    assert(members.deep_view() =~= remove_payload_data(gem@)->Object_0);
    Json::object(members)
}

/// The payload of a `bootstrap` signal.
pub open spec fn bootstrap_payload_data(
    ruby_version: Seq<char>,
    cache_hit: bool,
    dest: Seq<char>,
) -> JsonData {
    JsonData::Object(
        seq![
            ("ruby_version"@, JsonData::Str(ruby_version)),
            ("cache_hit"@, JsonData::Bool(cache_hit)),
            ("dest"@, JsonData::Str(dest)),
        ],
    )
}

/// The payload of the signal that records the runtime brought into the project.
pub fn bootstrap_payload(ruby_version: &str, cache_hit: bool, dest: &str) -> (r: Json)
    ensures
        r.deep_view() == bootstrap_payload_data(ruby_version@, cache_hit, dest@),
{
    let mut members: Vec<(String, Json)> = Vec::new();
    members.push(member("ruby_version", Json::string(ruby_version)));
    members.push(member("cache_hit", Json::Bool(cache_hit)));
    members.push(member("dest", Json::string(dest)));
    assert(members.deep_view() =~= bootstrap_payload_data(ruby_version@, cache_hit, dest@)->Object_0);
    Json::object(members)
}

/// The payload of the signal that records the start of a shell.
pub fn shell_enter_payload(shell: &str) -> (r: Json)
    ensures
        r.deep_view() == JsonData::Object(seq![("shell"@, JsonData::Str(shell@))]),
{
    let mut members: Vec<(String, Json)> = Vec::new();
    members.push(member("shell", Json::string(shell)));
    assert(members.deep_view() =~= seq![("shell"@, JsonData::Str(shell@))]);
    Json::object(members)
}

/// The payload of the signal that records the end of a shell.
pub fn shell_exit_payload(exit_code: i64) -> (r: Json)
    ensures
        r.deep_view() == JsonData::Object(seq![("exit_code"@, JsonData::Int(exit_code))]),
{
    let mut members: Vec<(String, Json)> = Vec::new();
    members.push(member("exit_code", Json::Int(exit_code)));
    assert(members.deep_view() =~= seq![("exit_code"@, JsonData::Int(exit_code))]);
    Json::object(members)
}

/// The replay reads from a start signal's payload what was written into it.
pub proof fn law_start_payload_read(
    command: Seq<char>,
    args: Seq<Seq<char>>,
    cwd: Seq<char>,
    env: ArcEnv,
)
    ensures
        start_command(start_payload_data(command, args, cwd, env)) == command,
        start_args(start_payload_data(command, args, cwd, env)) == args,
        start_cwd(start_payload_data(command, args, cwd, env)) == cwd,
{
    reveal_strlit("command");
    reveal_strlit("args");
    reveal_strlit("cwd");
    reveal_strlit("env_context");
    let members = start_payload_data(command, args, cwd, env)->Object_0;
    assert(members[0].0.len() == 7 && members[1].0.len() == 4 && members[2].0.len() == 3
        && members[3].0.len() == 11);
    lemma_lookup_at(members, 0);
    lemma_lookup_at(members, 1);
    lemma_lookup_at(members, 2);
    lemma_strings_of_strings(args);
}

/// The replay reads from an end signal's payload what was written into it.
pub proof fn law_end_payload_read(
    start_id: Seq<char>,
    exit_code: i64,
    success: bool,
    duration_ms: u64,
)
    ensures
        ref_id(end_payload_data(start_id, exit_code, success, duration_ms)) == start_id,
        end_exit_code(end_payload_data(start_id, exit_code, success, duration_ms)) == Some(
            exit_code,
        ),
        end_success(end_payload_data(start_id, exit_code, success, duration_ms)) == success,
        end_duration(end_payload_data(start_id, exit_code, success, duration_ms)) == Some(
            duration_ms,
        ),
{
    reveal_strlit("ref_id");
    reveal_strlit("exit_code");
    reveal_strlit("success");
    reveal_strlit("duration_ms");
    let members = end_payload_data(start_id, exit_code, success, duration_ms)->Object_0;
    assert(members[0].0.len() == 6 && members[1].0.len() == 9 && members[2].0.len() == 7
        && members[3].0.len() == 11);
    lemma_lookup_at(members, 0);
    lemma_lookup_at(members, 1);
    lemma_lookup_at(members, 2);
    lemma_lookup_at(members, 3);
}

/// The replay reads from an `init` signal's payload what was written into it.
pub proof fn law_init_payload_read(path: Seq<char>, version: Seq<char>, ruby_version: Seq<char>)
    ensures
        init_payload_data(path, version, ruby_version).str_field("path"@) == Some(path),
        init_payload_data(path, version, ruby_version).str_field("version"@) == Some(version),
{
    reveal_strlit("path");
    reveal_strlit("version");
    reveal_strlit("ruby_version");
    let members = init_payload_data(path, version, ruby_version)->Object_0;
    assert(members[0].0.len() == 4 && members[1].0.len() == 7 && members[2].0.len() == 12);
    lemma_lookup_at(members, 0);
    lemma_lookup_at(members, 1);
}

/// An undo reads from the payload of an `add` signal what was written into it.
pub proof fn law_add_payload_read(gem: Seq<char>, version: Option<Seq<char>>)
    ensures
        add_payload_data(gem, version).str_field("gem"@) == Some(gem),
        add_payload_data(gem, version).str_field("version"@) == version,
        remove_payload_data(gem).str_field("gem"@) == Some(gem),
        remove_payload_data(gem).str_field("version"@) is None,
{
    reveal_strlit("gem");
    reveal_strlit("version");
    let members = add_payload_data(gem, version)->Object_0;
    assert(members[0].0.len() == 3 && members[1].0.len() == 7);
    lemma_lookup_at(members, 0);
    lemma_lookup_at(members, 1);
    let single = remove_payload_data(gem)->Object_0;
    lemma_lookup_at(single, 0);
    crate::json::lemma_lookup_none(single, "version"@);
}

} // verus!
