//! The signal model and the log's text format.

use vstd::prelude::*;
use vstd::string::StringExecFns;
use crate::bridge::{fresh_id, json_text_value, now_rfc3339};
use crate::json::{rendered, Json, JsonData};
use crate::text::{chars_of, find_char, lines, split_lines, str_eq, string_of_range};

verus! {

broadcast use vstd::string::group_string_axioms;

/// The directory that holds the log, below the project root.
pub const FLUX_DIR: &'static str = ".flux";

/// The log's file name.
pub const SIGNAL_FILE: &'static str = "signals.jsonl";

/// The project's own environment directory, below the project root.
pub const ARC_ENV_DIR: &'static str = ".arc/env";

/// The cache root, below the home directory.
pub const ARC_CACHE_ROOT: &'static str = ".arc/cache";

/// The kind of a signal: a closed set of tags, and any other token as `Custom`.
#[derive(Debug, Clone, PartialEq)]
pub enum SignalType {
    Init,
    ExecStart,
    ExecEnd,
    InstallStart,
    InstallEnd,
    RunStart,
    RunEnd,
    Add,
    Remove,
    Bootstrap,
    Undo,
    /// A tag outside the closed set, kept as it was read.
    Custom(String),
}

/// Whether `t` is the token of one of the closed tags.
pub open spec fn is_closed_token(t: Seq<char>) -> bool {
    ||| t == "init"@
    ||| t == "exec_start"@
    ||| t == "exec_end"@
    ||| t == "install_start"@
    ||| t == "install_end"@
    ||| t == "run_start"@
    ||| t == "run_end"@
    ||| t == "add"@
    ||| t == "remove"@
    ||| t == "bootstrap"@
    ||| t == "undo"@
}

impl SignalType {
    /// The token that stands for the tag in a record.
    pub open spec fn token(self) -> Seq<char> {
        match self {
            SignalType::Init => "init"@,
            SignalType::ExecStart => "exec_start"@,
            SignalType::ExecEnd => "exec_end"@,
            SignalType::InstallStart => "install_start"@,
            SignalType::InstallEnd => "install_end"@,
            SignalType::RunStart => "run_start"@,
            SignalType::RunEnd => "run_end"@,
            SignalType::Add => "add"@,
            SignalType::Remove => "remove"@,
            SignalType::Bootstrap => "bootstrap"@,
            SignalType::Undo => "undo"@,
            SignalType::Custom(name) => name@,
        }
    }

    /// Whether reading the token `t` gives this tag: the token is kept, and only
    /// a token outside the closed set becomes `Custom`.
    pub open spec fn read_from(self, t: Seq<char>) -> bool {
        self.token() == t && (self is Custom <==> !is_closed_token(t))
    }

    /// Whether two tags are the same variant, with the same name where they are `Custom`.
    pub open spec fn same_as(self, other: SignalType) -> bool {
        match (self, other) {
            (SignalType::Custom(a), SignalType::Custom(b)) => a@ == b@,
            (SignalType::Custom(_), _) => false,
            (_, SignalType::Custom(_)) => false,
            (a, b) => a == b,
        }
    }

    /// The tag's token.
    pub fn to_string(&self) -> (r: String)
        ensures
            r@ == self.token(),
    {
        match self {
            SignalType::Init => String::from_str("init"),
            SignalType::ExecStart => String::from_str("exec_start"),
            SignalType::ExecEnd => String::from_str("exec_end"),
            SignalType::InstallStart => String::from_str("install_start"),
            SignalType::InstallEnd => String::from_str("install_end"),
            SignalType::RunStart => String::from_str("run_start"),
            SignalType::RunEnd => String::from_str("run_end"),
            SignalType::Add => String::from_str("add"),
            SignalType::Remove => String::from_str("remove"),
            SignalType::Bootstrap => String::from_str("bootstrap"),
            SignalType::Undo => String::from_str("undo"),
            SignalType::Custom(name) => name.clone(),
        }
    }

    /// Reads a tag from its token. No token is refused.
    pub fn from_token(t: &str) -> (r: SignalType)
        ensures
            r.read_from(t@),
    {
        proof {
            lemma_tokens_distinct();
        }
        if str_eq(t, "init") {
            SignalType::Init
        } else if str_eq(t, "exec_start") {
            SignalType::ExecStart
        } else if str_eq(t, "exec_end") {
            SignalType::ExecEnd
        } else if str_eq(t, "install_start") {
            SignalType::InstallStart
        } else if str_eq(t, "install_end") {
            SignalType::InstallEnd
        } else if str_eq(t, "run_start") {
            SignalType::RunStart
        } else if str_eq(t, "run_end") {
            SignalType::RunEnd
        } else if str_eq(t, "add") {
            SignalType::Add
        } else if str_eq(t, "remove") {
            SignalType::Remove
        } else if str_eq(t, "bootstrap") {
            SignalType::Bootstrap
        } else if str_eq(t, "undo") {
            SignalType::Undo
        } else {
            SignalType::Custom(String::from_str(t))
        }
    }
}

/// The tokens of the closed tags differ from each other.
pub proof fn lemma_tokens_distinct()
    ensures
        "init"@.len() == 4,
        "exec_start"@.len() == 10,
        "exec_end"@.len() == 8,
        "install_start"@.len() == 13,
        "install_end"@.len() == 11,
        "run_start"@.len() == 9,
        "run_end"@.len() == 7,
        "add"@.len() == 3,
        "remove"@.len() == 6,
        "bootstrap"@.len() == 9,
        "undo"@.len() == 4,
        "init"@[0] == 'i',
        "undo"@[0] == 'u',
        "run_start"@[0] == 'r',
        "bootstrap"@[0] == 'b',
{
    reveal_strlit("init");
    reveal_strlit("exec_start");
    reveal_strlit("exec_end");
    reveal_strlit("install_start");
    reveal_strlit("install_end");
    reveal_strlit("run_start");
    reveal_strlit("run_end");
    reveal_strlit("add");
    reveal_strlit("remove");
    reveal_strlit("bootstrap");
    reveal_strlit("undo");
}

/// Writing a tag and reading the token back gives the same tag, unless the tag is
/// a `Custom` that holds the token of a closed tag.
pub proof fn law_token_round_trip(tag: SignalType)
    requires
        tag is Custom ==> !is_closed_token(tag.token()),
    ensures
        tag.read_from(tag.token()),
        forall|other: SignalType| other.read_from(tag.token()) ==> other.same_as(tag),
{
    lemma_tokens_distinct();
}

/// Reading a token and writing the tag gives the token back, whatever the token.
pub proof fn law_token_kept(t: Seq<char>, tag: SignalType)
    requires
        tag.read_from(t),
    ensures
        tag.token() == t,
{
}

/// One record of the log.
#[derive(Debug, Clone, PartialEq)]
pub struct Signal {
    /// The record's identifier; empty while none is assigned.
    pub id: String,
    /// The token of the record's tag.
    pub r_type: String,
    pub payload: Json,
    /// The time of recording; empty while none is assigned.
    pub timestamp: String,
}

/// The mathematical model of a [`Signal`].
pub struct SignalData {
    pub id: Seq<char>,
    pub kind: Seq<char>,
    pub payload: JsonData,
    pub timestamp: Seq<char>,
}

impl DeepView for Signal {
    type V = SignalData;

    open spec fn deep_view(&self) -> SignalData {
        SignalData {
            id: self.id@,
            kind: self.r_type@,
            payload: self.payload.deep_view(),
            timestamp: self.timestamp@,
        }
    }
}

/// What can go wrong with the log.
#[derive(Debug, Clone, Copy, PartialEq, Eq, Structural)]
pub enum StoreError {
    /// The log was opened where none exists.
    NotInitialized,
    /// The log was created where one exists.
    AlreadyInitialized,
    /// A record could not be read or written.
    IoFailure,
    /// The line with this number, counted from 1, holds no record.
    ParseFailure { line: usize },
}

/// The record that a JSON value holds: an object with the strings `id`, `type`
/// and `timestamp` and with a `payload` of any shape.
pub open spec fn record_of(j: JsonData) -> Option<SignalData> {
    match (
        j.str_field("id"@),
        j.str_field("type"@),
        j.field("payload"@),
        j.str_field("timestamp"@),
    ) {
        (Some(id), Some(kind), Some(payload), Some(timestamp)) => Some(
            SignalData { id, kind, payload, timestamp },
        ),
        _ => None,
    }
}

/// The record that one line of the log holds.
pub open spec fn decoded_line(line: Seq<char>) -> Option<SignalData> {
    match json_text_value(line) {
        Some(j) => record_of(j),
        None => None,
    }
}

/// The first index at or after `i` of a line that holds no record; the number of
/// lines where there is none.
pub open spec fn first_bad(ls: Seq<Seq<char>>, i: int) -> int
    decreases ls.len() - i,
{
    if 0 <= i < ls.len() && decoded_line(ls[i]) is Some {
        first_bad(ls, i + 1)
    } else {
        i
    }
}

/// The records of the given lines, where each line holds one.
pub open spec fn records_of(ls: Seq<Seq<char>>) -> Seq<SignalData> {
    ls.map_values(|l: Seq<char>| decoded_line(l).unwrap())
}

/// What reading a log with this content gives: all its records in the order of
/// their lines, or the number of the first line that holds none.
pub open spec fn parsed_log(content: Seq<char>) -> Result<Seq<SignalData>, StoreError> {
    let ls = lines(content);
    let bad = first_bad(ls, 0);
    if bad < ls.len() {
        Err(StoreError::ParseFailure { line: (bad + 1) as usize })
    } else {
        Ok(records_of(ls))
    }
}

/// The line that stands for a record: its four members in the order `id`, `type`,
/// `payload`, `timestamp`, each written as JSON.
pub open spec fn record_text(s: SignalData) -> Option<Seq<char>> {
    match (
        rendered(JsonData::Str(s.id)),
        rendered(JsonData::Str(s.kind)),
        rendered(s.payload),
        rendered(JsonData::Str(s.timestamp)),
    ) {
        (Some(id), Some(kind), Some(payload), Some(timestamp)) => Some(
            "{\"id\":"@ + id + ",\"type\":"@ + kind + ",\"payload\":"@ + payload
                + ",\"timestamp\":"@ + timestamp + "}"@,
        ),
        _ => None,
    }
}

/// Whether the record `s` can be written to the log and read back: its line can
/// be written, is one line, and reads back as a record with the same identifier,
/// tag and time.
pub open spec fn recordable(s: SignalData) -> bool {
    match record_text(s) {
        Some(line) => single_line(line) && match decoded_line(line) {
            Some(back) => back.id == s.id && back.kind == s.kind && back.timestamp == s.timestamp,
            None => false,
        },
        None => false,
    }
}

/// Whether `line` can stand as one line of the log: it holds no line feed and
/// does not end in a carriage return.
pub open spec fn single_line(line: Seq<char>) -> bool {
    (forall|k: int| 0 <= k < line.len() ==> line[k] != '\n') && (line.len() == 0 || line.last()
        != '\r')
}

/// The log's content after `line` is appended to it.
pub open spec fn appended(log: Seq<char>, line: Seq<char>) -> Seq<char> {
    log + line + seq!['\n']
}

/// Whether a log's content is empty or ends with a line feed.
pub open spec fn well_terminated(log: Seq<char>) -> bool {
    log.len() == 0 || log.last() == '\n'
}

impl Signal {
    /// A signal of the given tag with the given identifier, time and payload.
    pub fn stamped(id: String, timestamp: String, signal_type: &SignalType, payload: Json) -> (r:
        Signal)
        ensures
            r.deep_view() == (SignalData {
                id: id@,
                kind: signal_type.token(),
                payload: payload.deep_view(),
                timestamp: timestamp@,
            }),
    {
        Signal { id, r_type: signal_type.to_string(), payload, timestamp }
    }

    /// Reads a record from a JSON value.
    pub fn from_json(j: &Json) -> (r: Option<Signal>)
        ensures
            match r {
                Some(s) => record_of(j.deep_view()) == Some(s.deep_view()),
                None => record_of(j.deep_view()) is None,
            },
    {
        let id = match j.get_str("id") {
            Some(v) => v,
            None => { return None; },
        };
        let kind = match j.get_str("type") {
            Some(v) => v,
            None => { return None; },
        };
        let payload = match j.get("payload") {
            Some(v) => v,
            None => { return None; },
        };
        let timestamp = match j.get_str("timestamp") {
            Some(v) => v,
            None => { return None; },
        };
        Some(
            Signal {
                id: String::from_str(id),
                r_type: String::from_str(kind),
                payload: payload.clone(),
                timestamp: String::from_str(timestamp),
            },
        )
    }

    /// Reads a record from one line of the log.
    pub fn from_line(line: &str) -> (r: Option<Signal>)
        ensures
            match r {
                Some(s) => decoded_line(line@) == Some(s.deep_view()),
                None => decoded_line(line@) is None,
            },
    {
        match Json::parse(line) {
            Some(j) => Signal::from_json(&j),
            None => None,
        }
    }

    /// Writes the record as one line of the log, without the line feed. It fails
    /// with `IoFailure` where a member cannot be written or the text would not be
    /// one line.
    pub fn to_line(&self) -> (r: Result<String, StoreError>)
        ensures
            match r {
                Ok(line) => record_text(self.deep_view()) == Some(line@) && single_line(line@),
                Err(e) => e == StoreError::IoFailure && match record_text(self.deep_view()) {
                    Some(text) => !single_line(text),
                    None => true,
                },
            },
    {
        let id = match Json::Str(self.id.clone()).render() {
            Some(t) => t,
            None => { return Err(StoreError::IoFailure); },
        };
        let kind = match Json::Str(self.r_type.clone()).render() {
            Some(t) => t,
            None => { return Err(StoreError::IoFailure); },
        };
        let payload = match self.payload.render() {
            Some(t) => t,
            None => { return Err(StoreError::IoFailure); },
        };
        let timestamp = match Json::Str(self.timestamp.clone()).render() {
            Some(t) => t,
            None => { return Err(StoreError::IoFailure); },
        };
        let mut line = String::from_str("{\"id\":");
        line.append(id.as_str());
        line.append(",\"type\":");
        line.append(kind.as_str());
        line.append(",\"payload\":");
        line.append(payload.as_str());
        line.append(",\"timestamp\":");
        line.append(timestamp.as_str());
        line.append("}");
        if is_single_line(line.as_str()) {
            Ok(line)
        } else {
            Err(StoreError::IoFailure)
        }
    }
}

impl Signal {
    /// Writes the record as a line of the log and reads the line back. The result
    /// holds the line and the record as the log will give it: with the same
    /// identifier, tag and time, and with the payload as it is read back. It fails
    /// with `IoFailure` where the record cannot be written and read back so.
    pub fn into_record(self) -> (r: Result<Recorded, StoreError>)
        ensures
            match r {
                Ok(rec) => {
                    &&& recordable(self.deep_view())
                    &&& record_text(self.deep_view()) == Some(rec.line@)
                    &&& single_line(rec.line@)
                    &&& decoded_line(rec.line@) == Some(rec.signal.deep_view())
                    &&& rec.signal.id@ == self.id@
                    &&& rec.signal.r_type@ == self.r_type@
                    &&& rec.signal.timestamp@ == self.timestamp@
                },
                Err(e) => e == StoreError::IoFailure && !recordable(self.deep_view()),
            },
    {
        let line = match self.to_line() {
            Ok(line) => line,
            Err(e) => { return Err(e); },
        };
        match Signal::from_line(line.as_str()) {
            Some(back) => {
                if str_eq(back.id.as_str(), self.id.as_str()) && str_eq(
                    back.r_type.as_str(),
                    self.r_type.as_str(),
                ) && str_eq(back.timestamp.as_str(), self.timestamp.as_str()) {
                    Ok(Recorded { signal: back, line })
                } else {
                    Err(StoreError::IoFailure)
                }
            },
            None => Err(StoreError::IoFailure),
        }
    }
}

/// A log's content with one more line at its end.
pub fn append_line(log: &str, line: &str) -> (r: String)
    ensures
        r@ == appended(log@, line@),
{
    let mut r = String::from_str(log);
    r.append(line);
    r.push('\n');
    r
}

/// Whether `line` can stand as one line of the log.
pub fn is_single_line(line: &str) -> (r: bool)
    ensures
        r == single_line(line@),
{
    let v = chars_of(line);
    let at = find_char(&v, '\n', 0);
    if at < v.len() {
        return false;
    }
    v.len() == 0 || v[v.len() - 1] != '\r'
}

/// A signal as the log will give it, together with the line that stands for it.
#[derive(Debug, Clone, PartialEq)]
pub struct Recorded {
    /// The signal as it is read back from the line.
    pub signal: Signal,
    /// The line to append to the log, without the line feed.
    pub line: String,
}

/// `base` and `name` as one path: `name` alone where it starts at the root, else
/// both with one `/` between them unless `base` is empty or ends with one.
pub open spec fn path_join(base: Seq<char>, name: Seq<char>) -> Seq<char> {
    if name.len() > 0 && name[0] == '/' {
        name
    } else if base.len() == 0 || base.last() == '/' {
        base + name
    } else {
        base + seq!['/'] + name
    }
}

/// Joins a directory and a name into one path, as paths are joined where `/`
/// separates their parts.
pub fn join_path(base: &str, name: &str) -> (r: String)
    ensures
        r@ == path_join(base@, name@),
{
    let n = chars_of(name);
    if n.len() > 0 && n[0] == '/' {
        return String::from_str(name);
    }
    let b = chars_of(base);
    let mut r = String::from_str(base);
    if b.len() > 0 && b[b.len() - 1] != '/' {
        r.push('/');
    }
    r.append(name);
    r
}

/// A project and the place of its log.
#[derive(Debug, Clone, PartialEq)]
pub struct FluxProject {
    /// The project's root directory.
    pub root: String,
    /// The directory that holds the log.
    pub flux_dir: String,
    /// The log file.
    pub signal_file: String,
}

impl FluxProject {
    /// Whether the project's paths are those that belong to its root.
    pub open spec fn wf(&self) -> bool {
        &&& self.flux_dir@ == path_join(self.root@, FLUX_DIR@)
        &&& self.signal_file@ == path_join(self.flux_dir@, SIGNAL_FILE@)
    }

    /// The project below `project_root`, whether or not it has a log yet.
    pub fn at(project_root: &str) -> (r: FluxProject)
        ensures
            r.wf(),
            r.root@ == project_root@,
    {
        let flux_dir = join_path(project_root, FLUX_DIR);
        let signal_file = join_path(flux_dir.as_str(), SIGNAL_FILE);
        FluxProject { root: String::from_str(project_root), flux_dir, signal_file }
    }

    /// Sets a project up below `project_root`. `log_exists` says whether the log
    /// file is there already: then nothing is set up.
    pub fn init(project_root: &str, log_exists: bool) -> (r: Result<FluxProject, StoreError>)
        ensures
            log_exists ==> r == Err::<FluxProject, StoreError>(StoreError::AlreadyInitialized),
            !log_exists ==> r is Ok && r->Ok_0.wf() && r->Ok_0.root@ == project_root@,
    {
        if log_exists {
            Err(StoreError::AlreadyInitialized)
        } else {
            Ok(FluxProject::at(project_root))
        }
    }

    /// Opens the project below `project_root`. `log_exists` says whether its log
    /// file is there.
    pub fn open(project_root: &str, log_exists: bool) -> (r: Result<FluxProject, StoreError>)
        ensures
            !log_exists ==> r == Err::<FluxProject, StoreError>(StoreError::NotInitialized),
            log_exists ==> r is Ok && r->Ok_0.wf() && r->Ok_0.root@ == project_root@,
    {
        if log_exists {
            Ok(FluxProject::at(project_root))
        } else {
            Err(StoreError::NotInitialized)
        }
    }

    /// Prepares `signal` for the log: an empty identifier or time is filled in,
    /// and the line that stands for the signal is written and read back. The
    /// result holds the signal as the log will give it.
    pub fn append(&self, signal: Signal) -> (r: Result<Recorded, StoreError>)
        ensures
            match r {
                Ok(rec) => {
                    &&& signal.id@.len() > 0 ==> rec.signal.id@ == signal.id@
                    &&& signal.timestamp@.len() > 0 ==> rec.signal.timestamp@ == signal.timestamp@
                    &&& rec.signal.r_type@ == signal.r_type@
                    &&& record_text(
                        SignalData {
                            id: rec.signal.id@,
                            kind: signal.r_type@,
                            payload: signal.payload.deep_view(),
                            timestamp: rec.signal.timestamp@,
                        },
                    ) == Some(rec.line@)
                    &&& single_line(rec.line@)
                    &&& decoded_line(rec.line@) == Some(rec.signal.deep_view())
                },
                Err(e) => e == StoreError::IoFailure,
            },
            signal.id@.len() > 0 && signal.timestamp@.len() > 0 ==> (r is Ok <==> recordable(
                signal.deep_view(),
            )),
    {
        let Signal { id, r_type, payload, timestamp } = signal;
        let id = if id.as_str().unicode_len() == 0 {
            fresh_id()
        } else {
            id
        };
        let timestamp = if timestamp.as_str().unicode_len() == 0 {
            now_rfc3339()
        } else {
            timestamp
        };
        let stamped = Signal { id, r_type, payload, timestamp };
        stamped.into_record()
    }

    /// Prepares a new signal of the given tag and payload for the log, with a
    /// fresh identifier and the current time.
    pub fn record(&self, signal_type: SignalType, payload: Json) -> (r: Result<
        Recorded,
        StoreError,
    >)
        ensures
            match r {
                Ok(rec) => {
                    &&& rec.signal.r_type@ == signal_type.token()
                    &&& record_text(
                        SignalData {
                            id: rec.signal.id@,
                            kind: signal_type.token(),
                            payload: payload.deep_view(),
                            timestamp: rec.signal.timestamp@,
                        },
                    ) == Some(rec.line@)
                    &&& single_line(rec.line@)
                    &&& decoded_line(rec.line@) == Some(rec.signal.deep_view())
                },
                Err(e) => e == StoreError::IoFailure,
            },
    {
        let signal = Signal::stamped(String::new(), String::new(), &signal_type, payload);
        self.append(signal)
    }

    /// Reads all the records of a log from its content, in the order of the lines.
    /// One line that holds no record fails the whole read.
    pub fn read_signals(content: &str) -> (r: Result<Vec<Signal>, StoreError>)
        ensures
            match r {
                Ok(signals) => parsed_log(content@) == Ok::<Seq<SignalData>, StoreError>(
                    signals.deep_view(),
                ),
                Err(e) => parsed_log(content@) == Err::<Seq<SignalData>, StoreError>(e),
            },
    {
        let ls = split_lines(content);
        let ghost all = lines(content@);
        let mut out: Vec<Signal> = Vec::new();
        let mut i: usize = 0;
        while i < ls.len()
            invariant
                i <= ls.len(),
                ls.deep_view() == all,
                all == lines(content@),
                first_bad(all, i as int) == first_bad(all, 0),
                out.len() == i,
                forall|k: int| 0 <= k < i ==> decoded_line(all[k]) == Some(out@[k].deep_view()),
            decreases ls.len() - i,
        {
            assert(all[i as int] == ls@[i as int]@);
            match Signal::from_line(ls[i].as_str()) {
                Some(s) => {
                    out.push(s);
                },
                None => {
                    assert(first_bad(all, i as int) == i);
                    return Err(StoreError::ParseFailure { line: i + 1 });
                },
            }
            i += 1;
        }
        assert(out.deep_view() =~= records_of(all));
        Ok(out)
    }
}

/// `s` cut to `max_chars` characters for display: a longer text keeps its first
/// `max_chars - 3` characters (none where that is negative) and ends in `...`.
pub open spec fn truncated(s: Seq<char>, max_chars: nat) -> Seq<char> {
    if s.len() > max_chars {
        let keep = if max_chars >= 3 {
            max_chars - 3
        } else {
            0
        };
        s.take(keep) + "..."@
    } else {
        s
    }
}

/// Cuts `s` to `max_chars` characters for display.
pub fn truncate_display(s: &str, max_chars: usize) -> (r: String)
    ensures
        r@ == truncated(s@, max_chars as nat),
{
    let v = chars_of(s);
    if v.len() > max_chars {
        let keep: usize = if max_chars >= 3 {
            max_chars - 3
        } else {
            0
        };
        let mut r = string_of_range(&v, 0, keep);
        r.append("...");
        r
    } else {
        String::from_str(s)
    }
}

} // verus!
