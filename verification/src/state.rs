//! Replay of the log into the project's state.

use vstd::prelude::*;
use vstd::string::StringExecFns;
use crate::json::{strings, Json, JsonData};
use crate::signals::{Signal, SignalData};
use crate::text::str_eq;

verus! {

broadcast use vstd::string::group_string_axioms;

/// One run of a command, as the log tells it.
#[derive(Debug, Clone, PartialEq)]
pub struct Execution {
    pub command: String,
    pub args: Vec<String>,
    pub cwd: String,
    pub exit_code: Option<i64>,
    pub success: bool,
    pub duration_ms: Option<u64>,
    pub started_at: String,
    pub ended_at: Option<String>,
    pub start_id: String,
}

/// The mathematical model of an [`Execution`].
pub struct ExecutionData {
    pub command: Seq<char>,
    pub args: Seq<Seq<char>>,
    pub cwd: Seq<char>,
    pub exit_code: Option<i64>,
    pub success: bool,
    pub duration_ms: Option<u64>,
    pub started_at: Seq<char>,
    pub ended_at: Option<Seq<char>>,
    pub start_id: Seq<char>,
}

impl DeepView for Execution {
    type V = ExecutionData;

    open spec fn deep_view(&self) -> ExecutionData {
        ExecutionData {
            command: self.command@,
            args: self.args.deep_view(),
            cwd: self.cwd@,
            exit_code: self.exit_code,
            success: self.success,
            duration_ms: self.duration_ms,
            started_at: self.started_at@,
            ended_at: self.ended_at.deep_view(),
            start_id: self.start_id@,
        }
    }
}

/// The project's state, as the log tells it.
#[derive(Debug, Clone, PartialEq)]
pub struct FluxState {
    pub project_path: Option<String>,
    pub version: Option<String>,
    pub initialized_at: Option<String>,
    /// The executions: first one for each end signal, in the order of the end
    /// signals, then one for each start signal that no end signal took up, in the
    /// order of the start signals.
    pub executions: Vec<Execution>,
    pub signal_count: usize,
}

/// The mathematical model of a [`FluxState`].
pub struct FluxStateData {
    pub project_path: Option<Seq<char>>,
    pub version: Option<Seq<char>>,
    pub initialized_at: Option<Seq<char>>,
    pub executions: Seq<ExecutionData>,
    pub signal_count: nat,
}

impl DeepView for FluxState {
    type V = FluxStateData;

    open spec fn deep_view(&self) -> FluxStateData {
        FluxStateData {
            project_path: self.project_path.deep_view(),
            version: self.version.deep_view(),
            initialized_at: self.initialized_at.deep_view(),
            executions: self.executions.deep_view(),
            signal_count: self.signal_count as nat,
        }
    }
}

/// Whether a signal of this kind sets the project up.
pub open spec fn is_init(kind: Seq<char>) -> bool {
    kind == "init"@
}

/// Whether a signal of this kind starts an execution.
pub open spec fn is_start(kind: Seq<char>) -> bool {
    kind == "exec_start"@ || kind == "install_start"@ || kind == "run_start"@
}

/// Whether a signal of this kind ends an execution.
pub open spec fn is_end(kind: Seq<char>) -> bool {
    kind == "exec_end"@ || kind == "install_end"@ || kind == "run_end"@
}

/// The command that a start signal names; `unknown` where it names none.
pub open spec fn start_command(payload: JsonData) -> Seq<char> {
    match payload.str_field("command"@) {
        Some(c) => c,
        None => "unknown"@,
    }
}

/// The arguments that a start signal names: the strings of its `args` array.
pub open spec fn start_args(payload: JsonData) -> Seq<Seq<char>> {
    match payload.field("args"@) {
        Some(v) => match v.as_array() {
            Some(items) => strings(items),
            None => Seq::empty(),
        },
        None => Seq::empty(),
    }
}

/// The directory that a start signal names; empty where it names none.
pub open spec fn start_cwd(payload: JsonData) -> Seq<char> {
    match payload.str_field("cwd"@) {
        Some(c) => c,
        None => Seq::empty(),
    }
}

/// The identifier of the start signal that an end signal refers to; empty where
/// it names none.
pub open spec fn ref_id(payload: JsonData) -> Seq<char> {
    match payload.str_field("ref_id"@) {
        Some(r) => r,
        None => Seq::empty(),
    }
}

/// The exit code that an end signal names.
pub open spec fn end_exit_code(payload: JsonData) -> Option<i64> {
    match payload.field("exit_code"@) {
        Some(v) => v.as_i64(),
        None => None,
    }
}

/// Whether an end signal tells of success; no success where it names none.
pub open spec fn end_success(payload: JsonData) -> bool {
    match payload.field("success"@) {
        Some(v) => v.as_bool() == Some(true),
        None => false,
    }
}

/// The duration in milliseconds that an end signal names.
pub open spec fn end_duration(payload: JsonData) -> Option<u64> {
    match payload.field("duration_ms"@) {
        Some(v) => v.as_u64(),
        None => None,
    }
}

/// The execution that a start signal and the end signal that refers to it tell of.
pub open spec fn paired(start: SignalData, end: SignalData) -> ExecutionData {
    ExecutionData {
        command: start_command(start.payload),
        args: start_args(start.payload),
        cwd: start_cwd(start.payload),
        exit_code: end_exit_code(end.payload),
        success: end_success(end.payload),
        duration_ms: end_duration(end.payload),
        started_at: start.timestamp,
        ended_at: Some(end.timestamp),
        start_id: start.id,
    }
}

/// The execution that an end signal without a start signal tells of.
pub open spec fn unmatched(end: SignalData) -> ExecutionData {
    ExecutionData {
        command: "unknown"@,
        args: Seq::empty(),
        cwd: Seq::empty(),
        exit_code: end_exit_code(end.payload),
        success: end_success(end.payload),
        duration_ms: end_duration(end.payload),
        started_at: Seq::empty(),
        ended_at: Some(end.timestamp),
        start_id: Seq::empty(),
    }
}

/// The execution that a start signal without an end signal tells of.
pub open spec fn orphan(start: SignalData) -> ExecutionData {
    ExecutionData {
        command: start_command(start.payload),
        args: start_args(start.payload),
        cwd: start_cwd(start.payload),
        exit_code: None,
        success: false,
        duration_ms: None,
        started_at: start.timestamp,
        ended_at: None,
        start_id: start.id,
    }
}

/// The first index at or after `i` of a pending start signal with the identifier
/// `id`; the number of pending signals where there is none.
pub open spec fn position(pending: Seq<SignalData>, id: Seq<char>, i: int) -> int
    decreases pending.len() - i,
{
    if 0 <= i < pending.len() && pending[i].id != id {
        position(pending, id, i + 1)
    } else {
        i
    }
}

/// The pending start signals without the one that has the identifier `id`.
pub open spec fn without(pending: Seq<SignalData>, id: Seq<char>) -> Seq<SignalData> {
    let at = position(pending, id, 0);
    if at < pending.len() {
        pending.remove(at)
    } else {
        pending
    }
}

/// What the replay holds after some signals.
pub struct ReplayData {
    pub project_path: Option<Seq<char>>,
    pub version: Option<Seq<char>>,
    pub initialized_at: Option<Seq<char>>,
    /// One execution for each end signal so far, in their order.
    pub executions: Seq<ExecutionData>,
    /// The start signals that no end signal has taken up so far, in their order.
    pub pending: Seq<SignalData>,
}

/// What the replay holds before the first signal.
pub open spec fn replay_start() -> ReplayData {
    ReplayData {
        project_path: None,
        version: None,
        initialized_at: None,
        executions: Seq::empty(),
        pending: Seq::empty(),
    }
}

/// What the replay holds after one more signal.
///
/// An `init` signal sets path, version and time anew. A start signal becomes
/// pending, in place of a pending one with the same identifier. An end signal
/// gives one execution: paired with the pending start signal that it refers to,
/// which is then no longer pending, or alone. Any other signal changes nothing.
pub open spec fn step(acc: ReplayData, s: SignalData) -> ReplayData {
    if is_init(s.kind) {
        ReplayData {
            project_path: s.payload.str_field("path"@),
            version: s.payload.str_field("version"@),
            initialized_at: Some(s.timestamp),
            ..acc
        }
    } else if is_start(s.kind) {
        ReplayData { pending: without(acc.pending, s.id).push(s), ..acc }
    } else if is_end(s.kind) {
        let at = position(acc.pending, ref_id(s.payload), 0);
        if at < acc.pending.len() {
            ReplayData {
                executions: acc.executions.push(paired(acc.pending[at], s)),
                pending: acc.pending.remove(at),
                ..acc
            }
        } else {
            ReplayData { executions: acc.executions.push(unmatched(s)), ..acc }
        }
    } else {
        acc
    }
}

/// What the replay holds after all of `signals`, taken in order.
pub open spec fn replay_fold(signals: Seq<SignalData>) -> ReplayData
    decreases signals.len(),
{
    if signals.len() == 0 {
        replay_start()
    } else {
        step(replay_fold(signals.drop_last()), signals.last())
    }
}

/// The executions of the start signals that are still pending at the end.
pub open spec fn orphans(pending: Seq<SignalData>) -> Seq<ExecutionData> {
    Seq::new(pending.len(), |k: int| orphan(pending[k]))
}

/// The state that the log `signals` tells of.
pub open spec fn replay(signals: Seq<SignalData>) -> FluxStateData {
    let acc = replay_fold(signals);
    FluxStateData {
        project_path: acc.project_path,
        version: acc.version,
        initialized_at: acc.initialized_at,
        executions: acc.executions + orphans(acc.pending),
        signal_count: signals.len(),
    }
}

/// Those of the first `n` executions that did not succeed, in order.
pub open spec fn failed(execs: Seq<ExecutionData>, n: int) -> Seq<ExecutionData>
    decreases n,
{
    if n <= 0 {
        Seq::empty()
    } else if !execs[n - 1].success {
        failed(execs, n - 1).push(execs[n - 1])
    } else {
        failed(execs, n - 1)
    }
}

/// The signals of `all` at the indices `idx`, in the order of `idx`.
pub open spec fn picked(all: Seq<SignalData>, idx: Seq<usize>) -> Seq<SignalData> {
    Seq::new(idx.len(), |k: int| all[idx[k] as int])
}

fn is_start_kind(kind: &str) -> (r: bool)
    ensures
        r == is_start(kind@),
{
    str_eq(kind, "exec_start") || str_eq(kind, "install_start") || str_eq(kind, "run_start")
}

fn is_end_kind(kind: &str) -> (r: bool)
    ensures
        r == is_end(kind@),
{
    str_eq(kind, "exec_end") || str_eq(kind, "install_end") || str_eq(kind, "run_end")
}

fn owned(s: Option<&str>) -> (r: Option<String>)
    ensures
        match s {
            Some(t) => r.deep_view() == Some(t@),
            None => r.deep_view() is None,
        },
{
    match s {
        Some(t) => Some(String::from_str(t)),
        None => None,
    }
}

fn command_of(start: &Signal) -> (r: String)
    ensures
        r@ == start_command(start.deep_view().payload),
{
    match start.payload.get_str("command") {
        Some(c) => String::from_str(c),
        None => String::from_str("unknown"),
    }
}

fn args_of(start: &Signal) -> (r: Vec<String>)
    ensures
        r.deep_view() == start_args(start.deep_view().payload),
{
    let none: Vec<String> = Vec::new();
    assert(none.deep_view() =~= Seq::<Seq<char>>::empty());
    match start.payload.get("args") {
        Some(v) => match v.as_array() {
            Some(items) => Json::strings(items),
            None => none,
        },
        None => none,
    }
}

fn cwd_of(start: &Signal) -> (r: String)
    ensures
        r@ == start_cwd(start.deep_view().payload),
{
    match start.payload.get_str("cwd") {
        Some(c) => String::from_str(c),
        None => String::new(),
    }
}

fn exit_code_of(end: &Signal) -> (r: Option<i64>)
    ensures
        r == end_exit_code(end.deep_view().payload),
{
    match end.payload.get("exit_code") {
        Some(v) => v.as_i64(),
        None => None,
    }
}

fn success_of(end: &Signal) -> (r: bool)
    ensures
        r == end_success(end.deep_view().payload),
{
    match end.payload.get("success") {
        Some(v) => match v.as_bool() {
            Some(b) => b,
            None => false,
        },
        None => false,
    }
}

fn duration_of(end: &Signal) -> (r: Option<u64>)
    ensures
        r == end_duration(end.deep_view().payload),
{
    match end.payload.get("duration_ms") {
        Some(v) => v.as_u64(),
        None => None,
    }
}

impl Execution {
    /// The execution that a start signal and its end signal tell of.
    pub fn paired(start: &Signal, end: &Signal) -> (r: Execution)
        ensures
            r.deep_view() == paired(start.deep_view(), end.deep_view()),
    {
        Execution {
            command: command_of(start),
            args: args_of(start),
            cwd: cwd_of(start),
            exit_code: exit_code_of(end),
            success: success_of(end),
            duration_ms: duration_of(end),
            started_at: start.timestamp.clone(),
            ended_at: Some(end.timestamp.clone()),
            start_id: start.id.clone(),
        }
    }

    /// The execution that an end signal without a start signal tells of.
    pub fn unmatched(end: &Signal) -> (r: Execution)
        ensures
            r.deep_view() == unmatched(end.deep_view()),
    {
        let args: Vec<String> = Vec::new();
        assert(args.deep_view() =~= Seq::<Seq<char>>::empty());
        Execution {
            command: String::from_str("unknown"),
            args,
            cwd: String::new(),
            exit_code: exit_code_of(end),
            success: success_of(end),
            duration_ms: duration_of(end),
            started_at: String::new(),
            ended_at: Some(end.timestamp.clone()),
            start_id: String::new(),
        }
    }

    /// The execution that a start signal without an end signal tells of.
    pub fn orphan(start: &Signal) -> (r: Execution)
        ensures
            r.deep_view() == orphan(start.deep_view()),
    {
        Execution {
            command: command_of(start),
            args: args_of(start),
            cwd: cwd_of(start),
            exit_code: None,
            success: false,
            duration_ms: None,
            started_at: start.timestamp.clone(),
            ended_at: None,
            start_id: start.id.clone(),
        }
    }
}

/// The place among the pending start signals of the one with the identifier `id`.
fn find_pending(signals: &[Signal], pending: &Vec<usize>, id: &str) -> (at: usize)
    requires
        forall|k: int| 0 <= k < pending@.len() ==> pending@[k] < signals@.len(),
    ensures
        at == position(picked(signals.deep_view(), pending@), id@, 0),
        at <= pending@.len(),
{
    let ghost p = picked(signals.deep_view(), pending@);
    let mut k: usize = 0;
    while k < pending.len()
        invariant
            k <= pending.len(),
            p == picked(signals.deep_view(), pending@),
            forall|j: int| 0 <= j < pending@.len() ==> pending@[j] < signals@.len(),
            position(p, id@, k as int) == position(p, id@, 0),
        decreases pending.len() - k,
    {
        assert(p[k as int] == signals@[pending@[k as int] as int].deep_view());
        if str_eq(signals[pending[k]].id.as_str(), id) {
            return k;
        }
        k += 1;
    }
    k
}

impl FluxState {
    /// The state that a log tells of, by one pass over its signals.
    pub fn from_signals(signals: &[Signal]) -> (state: FluxState)
        ensures
            state.deep_view() == replay(signals.deep_view()),
    {
        let ghost all = signals.deep_view();
        let mut project_path: Option<String> = None;
        let mut version: Option<String> = None;
        let mut initialized_at: Option<String> = None;
        let mut executions: Vec<Execution> = Vec::new();
        let mut pending: Vec<usize> = Vec::new();
        let empty = String::new();
        let mut i: usize = 0;
        proof {
            assert(all.take(0) =~= Seq::<SignalData>::empty());
            assert(executions.deep_view() =~= Seq::<ExecutionData>::empty());
            assert(picked(all, pending@) =~= Seq::<SignalData>::empty());
        }
        while i < signals.len()
            invariant
                i <= signals.len(),
                all == signals.deep_view(),
                empty@ == Seq::<char>::empty(),
                forall|k: int| 0 <= k < pending@.len() ==> pending@[k] < signals@.len(),
                project_path.deep_view() == replay_fold(all.take(i as int)).project_path,
                version.deep_view() == replay_fold(all.take(i as int)).version,
                initialized_at.deep_view() == replay_fold(all.take(i as int)).initialized_at,
                executions.deep_view() == replay_fold(all.take(i as int)).executions,
                picked(all, pending@) == replay_fold(all.take(i as int)).pending,
            decreases signals.len() - i,
        {
            let s = &signals[i];
            let ghost acc = replay_fold(all.take(i as int));
            proof {
                assert(all.take(i + 1).drop_last() =~= all.take(i as int));
                assert(all.take(i + 1).last() == s.deep_view());
                assert(replay_fold(all.take(i + 1)) == step(acc, s.deep_view()));
            }
            let kind = s.r_type.as_str();
            if str_eq(kind, "init") {
                project_path = owned(s.payload.get_str("path"));
                version = owned(s.payload.get_str("version"));
                initialized_at = Some(s.timestamp.clone());
            } else if is_start_kind(kind) {
                let at = find_pending(signals, &pending, s.id.as_str());
                let ghost before = pending@;
                if at < pending.len() {
                    pending.remove(at);
                    assert(picked(all, pending@) =~= picked(all, before).remove(at as int));
                }
                let ghost mid = pending@;
                pending.push(i);
                assert(picked(all, pending@) =~= picked(all, mid).push(s.deep_view()));
            } else if is_end_kind(kind) {
                let rid: &str = match s.payload.get_str("ref_id") {
                    Some(r) => r,
                    None => empty.as_str(),
                };
                let at = find_pending(signals, &pending, rid);
                let ghost before = pending@;
                let ghost execs = executions.deep_view();
                if at < pending.len() {
                    let from = pending.remove(at);
                    assert(picked(all, pending@) =~= picked(all, before).remove(at as int));
                    assert(picked(all, before)[at as int] == signals@[from as int].deep_view());
                    let e = Execution::paired(&signals[from], s);
                    executions.push(e);
                    assert(executions.deep_view() =~= execs.push(e.deep_view()));
                } else {
                    let e = Execution::unmatched(s);
                    executions.push(e);
                    assert(executions.deep_view() =~= execs.push(e.deep_view()));
                }
            }
            i += 1;
        }
        assert(all.take(i as int) =~= all);
        let ghost acc = replay_fold(all);
        let mut k: usize = 0;
        assert(executions.deep_view() =~= acc.executions + orphans(acc.pending).take(0));
        while k < pending.len()
            invariant
                k <= pending.len(),
                all == signals.deep_view(),
                acc == replay_fold(all),
                forall|j: int| 0 <= j < pending@.len() ==> pending@[j] < signals@.len(),
                picked(all, pending@) == acc.pending,
                executions.deep_view() == acc.executions + orphans(acc.pending).take(k as int),
            decreases pending.len() - k,
        {
            let ghost execs = executions.deep_view();
            assert(picked(all, pending@)[k as int] == signals@[pending@[k as int] as int].deep_view());
            let e = Execution::orphan(&signals[pending[k]]);
            executions.push(e);
            assert(executions.deep_view() =~= execs.push(e.deep_view()));
            assert(orphans(acc.pending).take(k + 1) =~= orphans(acc.pending).take(k as int).push(
                e.deep_view(),
            ));
            k += 1;
        }
        assert(orphans(acc.pending).take(k as int) =~= orphans(acc.pending));
        FluxState { project_path, version, initialized_at, executions, signal_count: signals.len() }
    }

    /// The executions that did not succeed, in order.
    pub fn failed_executions(&self) -> (r: Vec<&Execution>)
        ensures
            r.deep_view() == failed(
                self.deep_view().executions,
                self.deep_view().executions.len() as int,
            ),
    {
        let ghost execs = self.executions.deep_view();
        let mut r: Vec<&Execution> = Vec::new();
        let mut i: usize = 0;
        assert(r.deep_view() =~= Seq::<ExecutionData>::empty());
        while i < self.executions.len()
            invariant
                i <= self.executions.len(),
                execs == self.executions.deep_view(),
                r.deep_view() == failed(execs, i as int),
            decreases self.executions.len() - i,
        {
            let e = &self.executions[i];
            assert(execs[i as int] == e.deep_view());
            if !e.success {
                let ghost before = r.deep_view();
                r.push(e);
                assert(r.deep_view() =~= before.push(e.deep_view()));
            }
            i += 1;
        }
        r
    }

    /// The last execution of the state, where it has one.
    pub fn last_execution(&self) -> (r: Option<&Execution>)
        ensures
            match r {
                Some(e) => self.executions@.len() > 0 && *e == self.executions@.last(),
                None => self.executions@.len() == 0,
            },
    {
        if self.executions.len() == 0 {
            None
        } else {
            Some(&self.executions[self.executions.len() - 1])
        }
    }
}

} // verus!
