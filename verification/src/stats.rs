//! Statistics per command over the executions of a state.

use vstd::prelude::*;
use crate::state::{Execution, ExecutionData, FluxState};
use crate::text::{
    lemma_lex_antisym,
    lemma_lex_refl,
    lemma_lex_total,
    lemma_lex_trans,
    lex_le,
    str_eq,
    str_le,
};

verus! {

/// What is known of one command.
#[derive(Debug, Clone, PartialEq)]
pub struct CommandStats {
    pub command: String,
    pub total_runs: usize,
    pub successes: usize,
    pub failures: usize,
    /// The mean duration of the runs that have one, rounded down.
    pub avg_duration_ms: Option<u64>,
    /// The greatest start time of the runs, in the order of `str`.
    pub last_run: String,
}

/// The mathematical model of a [`CommandStats`].
pub struct CommandStatsData {
    pub command: Seq<char>,
    pub total_runs: nat,
    pub successes: nat,
    pub failures: nat,
    pub avg_duration_ms: Option<u64>,
    pub last_run: Seq<char>,
}

impl DeepView for CommandStats {
    type V = CommandStatsData;

    open spec fn deep_view(&self) -> CommandStatsData {
        CommandStatsData {
            command: self.command@,
            total_runs: self.total_runs as nat,
            successes: self.successes as nat,
            failures: self.failures as nat,
            avg_duration_ms: self.avg_duration_ms,
            last_run: self.last_run@,
        }
    }
}

/// How many of the first `n` executions run the command `c`.
pub open spec fn runs(execs: Seq<ExecutionData>, c: Seq<char>, n: int) -> nat
    decreases n,
{
    if n <= 0 {
        0
    } else if execs[n - 1].command == c {
        runs(execs, c, n - 1) + 1
    } else {
        runs(execs, c, n - 1)
    }
}

/// How many of the first `n` executions run the command `c` with success.
pub open spec fn wins(execs: Seq<ExecutionData>, c: Seq<char>, n: int) -> nat
    decreases n,
{
    if n <= 0 {
        0
    } else if execs[n - 1].command == c && execs[n - 1].success {
        wins(execs, c, n - 1) + 1
    } else {
        wins(execs, c, n - 1)
    }
}

/// How many of the first `n` executions run the command `c` and have a duration.
pub open spec fn timed(execs: Seq<ExecutionData>, c: Seq<char>, n: int) -> nat
    decreases n,
{
    if n <= 0 {
        0
    } else if execs[n - 1].command == c && execs[n - 1].duration_ms is Some {
        timed(execs, c, n - 1) + 1
    } else {
        timed(execs, c, n - 1)
    }
}

/// The sum of the durations of those of the first `n` executions that run the
/// command `c`.
pub open spec fn total_ms(execs: Seq<ExecutionData>, c: Seq<char>, n: int) -> nat
    decreases n,
{
    if n <= 0 {
        0
    } else if execs[n - 1].command == c && execs[n - 1].duration_ms is Some {
        total_ms(execs, c, n - 1) + execs[n - 1].duration_ms->Some_0 as nat
    } else {
        total_ms(execs, c, n - 1)
    }
}

/// The greatest start time among those of the first `n` executions that run the
/// command `c`; empty where there is none.
pub open spec fn latest(execs: Seq<ExecutionData>, c: Seq<char>, n: int) -> Seq<char>
    decreases n,
{
    if n <= 0 {
        Seq::empty()
    } else {
        let rest = latest(execs, c, n - 1);
        if execs[n - 1].command == c && !lex_le(execs[n - 1].started_at, rest) {
            execs[n - 1].started_at
        } else {
            rest
        }
    }
}

/// The statistics of the command `c` over `execs`.
pub open spec fn stats_for(execs: Seq<ExecutionData>, c: Seq<char>) -> CommandStatsData {
    let n = execs.len() as int;
    CommandStatsData {
        command: c,
        total_runs: runs(execs, c, n),
        successes: wins(execs, c, n),
        failures: (runs(execs, c, n) - wins(execs, c, n)) as nat,
        avg_duration_ms: if timed(execs, c, n) == 0 {
            None
        } else {
            Some((total_ms(execs, c, n) / timed(execs, c, n)) as u64)
        },
        last_run: latest(execs, c, n),
    }
}

/// Whether `a` stands before `b` in the list of statistics: the later last run
/// first, and of two with the same last run the command that comes first in the
/// order of `str`.
pub open spec fn before(a: CommandStatsData, b: CommandStatsData) -> bool {
    if a.last_run == b.last_run {
        lex_le(a.command, b.command) && a.command != b.command
    } else {
        lex_le(b.last_run, a.last_run)
    }
}

/// Of two statistics of different commands, one stands before the other.
pub proof fn lemma_before_total(a: CommandStatsData, b: CommandStatsData)
    requires
        a.command != b.command,
    ensures
        before(a, b) || before(b, a),
{
    lemma_lex_total(a.command, b.command);
    lemma_lex_total(a.last_run, b.last_run);
}

/// Standing before is transitive.
pub proof fn lemma_before_trans(a: CommandStatsData, b: CommandStatsData, c: CommandStatsData)
    requires
        before(a, b),
        before(b, c),
    ensures
        before(a, c),
{
    if a.last_run == b.last_run {
        if b.last_run == c.last_run {
            lemma_lex_trans(a.command, b.command, c.command);
            if a.command == c.command {
                lemma_lex_antisym(a.command, b.command);
            }
        }
    } else if b.last_run == c.last_run {
    } else {
        lemma_lex_trans(c.last_run, b.last_run, a.last_run);
        if a.last_run == c.last_run {
            lemma_lex_antisym(b.last_run, a.last_run);
        }
    }
}

/// No two statistics stand before each other, and none before itself.
pub proof fn lemma_before_asym(a: CommandStatsData, b: CommandStatsData)
    requires
        before(a, b),
    ensures
        !before(b, a),
{
    if a.last_run == b.last_run {
        if before(b, a) {
            lemma_lex_antisym(a.command, b.command);
        }
    } else {
        if before(b, a) {
            lemma_lex_antisym(a.last_run, b.last_run);
        }
    }
}

/// The counts of a command are bounded by the number of executions looked at, and
/// the sum of the durations by as many times the greatest duration.
pub proof fn lemma_counts_bounded(execs: Seq<ExecutionData>, c: Seq<char>, n: int)
    requires
        0 <= n <= execs.len(),
    ensures
        wins(execs, c, n) <= runs(execs, c, n) <= n,
        timed(execs, c, n) <= runs(execs, c, n),
        total_ms(execs, c, n) <= timed(execs, c, n) * u64::MAX,
    decreases n,
{
    if n > 0 {
        lemma_counts_bounded(execs, c, n - 1);
        assert((timed(execs, c, n - 1) + 1) * u64::MAX == timed(execs, c, n - 1) * u64::MAX
            + u64::MAX) by (nonlinear_arith);
    }
}

/// The last run of a command is the start time of one of its runs, and no run of
/// the command starts later.
pub proof fn law_last_run_is_greatest(execs: Seq<ExecutionData>, c: Seq<char>, n: int)
    requires
        0 <= n <= execs.len(),
    ensures
        forall|k: int|
            0 <= k < n && execs[k].command == c ==> lex_le(
                #[trigger] execs[k].started_at,
                latest(execs, c, n),
            ),
        runs(execs, c, n) > 0 ==> exists|k: int|
            0 <= k < n && execs[k].command == c && #[trigger] execs[k].started_at == latest(
                execs,
                c,
                n,
            ),
    decreases n,
{
    if n > 0 {
        law_last_run_is_greatest(execs, c, n - 1);
        let rest = latest(execs, c, n - 1);
        let cur = execs[n - 1].started_at;
        if execs[n - 1].command == c {
            if !lex_le(cur, rest) {
                lemma_lex_total(cur, rest);
                lemma_lex_refl(cur);
                assert forall|k: int| 0 <= k < n && execs[k].command == c implies lex_le(
                    #[trigger] execs[k].started_at,
                    cur,
                ) by {
                    if k < n - 1 {
                        lemma_lex_trans(execs[k].started_at, rest, cur);
                    }
                }
                assert(execs[n - 1].started_at == latest(execs, c, n));
            } else {
                if runs(execs, c, n - 1) == 0 {
                    lemma_no_runs_empty(execs, c, n - 1);
                    lemma_lex_antisym_empty(cur);
                    assert(execs[n - 1].started_at == latest(execs, c, n));
                } else {
                    let k = choose|k: int|
                        0 <= k < n - 1 && execs[k].command == c && #[trigger] execs[k].started_at
                            == rest;
                    assert(0 <= k < n && execs[k].command == c && execs[k].started_at == latest(
                        execs,
                        c,
                        n,
                    ));
                }
            }
        } else {
            if runs(execs, c, n) > 0 {
                let k = choose|k: int|
                    0 <= k < n - 1 && execs[k].command == c && #[trigger] execs[k].started_at
                        == rest;
                assert(0 <= k < n && execs[k].command == c && execs[k].started_at == latest(
                    execs,
                    c,
                    n,
                ));
            }
        }
    }
}

proof fn lemma_no_runs_empty(execs: Seq<ExecutionData>, c: Seq<char>, n: int)
    requires
        0 <= n <= execs.len(),
        runs(execs, c, n) == 0,
    ensures
        latest(execs, c, n) == Seq::<char>::empty(),
    decreases n,
{
    if n > 0 {
        lemma_no_runs_empty(execs, c, n - 1);
    }
}

proof fn lemma_lex_antisym_empty(a: Seq<char>)
    requires
        lex_le(a, Seq::<char>::empty()),
    ensures
        a == Seq::<char>::empty(),
{
    assert(a =~= Seq::<char>::empty());
}

/// The statistics of one command over `execs`.
fn stats_of(execs: &Vec<Execution>, command: &str) -> (r: CommandStats)
    ensures
        r.deep_view() == stats_for(execs.deep_view(), command@),
{
    let ghost all = execs.deep_view();
    let ghost c = command@;
    let mut total: usize = 0;
    let mut successes: usize = 0;
    let mut count: usize = 0;
    let mut sum: u128 = 0;
    let mut last_run = String::new();
    let mut i: usize = 0;
    while i < execs.len()
        invariant
            i <= execs.len(),
            all == execs.deep_view(),
            c == command@,
            total == runs(all, c, i as int),
            successes == wins(all, c, i as int),
            count == timed(all, c, i as int),
            sum == total_ms(all, c, i as int),
            last_run@ == latest(all, c, i as int),
        decreases execs.len() - i,
    {
        let e = &execs[i];
        proof {
            assert(all[i as int] == e.deep_view());
            lemma_counts_bounded(all, c, i as int);
            lemma_counts_bounded(all, c, i + 1);
            assert(timed(all, c, i + 1) * u64::MAX <= (i + 1) * u64::MAX) by (nonlinear_arith)
                requires
                    timed(all, c, i + 1) <= i + 1,
            ;
            assert((i + 1) * u64::MAX <= usize::MAX * u64::MAX) by (nonlinear_arith)
                requires
                    i + 1 <= usize::MAX,
            ;
            assert(usize::MAX * u64::MAX <= u64::MAX * u64::MAX) by (nonlinear_arith)
                requires
                    usize::MAX <= u64::MAX,
            ;
        }
        if str_eq(e.command.as_str(), command) {
            total += 1;
            if e.success {
                successes += 1;
            }
            match e.duration_ms {
                Some(d) => {
                    count += 1;
                    sum += d as u128;
                },
                None => {},
            }
            if !str_le(e.started_at.as_str(), last_run.as_str()) {
                last_run = e.started_at.clone();
            }
        }
        i += 1;
    }
    proof {
        lemma_counts_bounded(all, c, execs.len() as int);
    }
    let avg_duration_ms = if count == 0 {
        None
    } else {
        let mean: u128 = sum / (count as u128);
        assert(mean <= u64::MAX) by (nonlinear_arith)
            requires
                mean == sum / (count as u128),
                count > 0,
                sum <= count * u64::MAX,
        ;
        Some(mean as u64)
    };
    CommandStats {
        command: command.to_owned(),
        total_runs: total,
        successes,
        failures: total - successes,
        avg_duration_ms,
        last_run,
    }
}

/// Whether `a` stands before `b` in the list of statistics.
fn stands_before(a: &CommandStats, b: &CommandStats) -> (r: bool)
    ensures
        r == before(a.deep_view(), b.deep_view()),
{
    if str_eq(a.last_run.as_str(), b.last_run.as_str()) {
        str_le(a.command.as_str(), b.command.as_str()) && !str_eq(
            a.command.as_str(),
            b.command.as_str(),
        )
    } else {
        str_le(b.last_run.as_str(), a.last_run.as_str())
    }
}

/// Whether `out` holds the statistics of `command`.
fn has_command(out: &Vec<CommandStats>, command: &str) -> (r: bool)
    ensures
        r == exists|i: int| 0 <= i < out@.len() && #[trigger] out@[i].command@ == command@,
{
    let mut i: usize = 0;
    while i < out.len()
        invariant
            i <= out.len(),
            forall|k: int| 0 <= k < i ==> #[trigger] out@[k].command@ != command@,
        decreases out.len() - i,
    {
        if str_eq(out[i].command.as_str(), command) {
            return true;
        }
        i += 1;
    }
    false
}

/// Whether `list` has an entry for the command `c`.
pub open spec fn listed(list: Seq<CommandStatsData>, c: Seq<char>) -> bool {
    exists|i: int| 0 <= i < list.len() && #[trigger] list[i].command == c
}

/// Whether `list` is the list of statistics of `execs`: one entry for each command
/// that runs in `execs`, each with the statistics of its command, in the order
/// of [`before`].
pub open spec fn is_stats_of(list: Seq<CommandStatsData>, execs: Seq<ExecutionData>) -> bool {
    &&& forall|i: int|
        0 <= i < list.len() ==> #[trigger] list[i] == stats_for(execs, list[i].command)
            && list[i].total_runs > 0
    &&& forall|k: int| 0 <= k < execs.len() ==> listed(list, #[trigger] execs[k].command)
    &&& in_order(list)
}

/// A command that runs among the first `n` executions has a run.
proof fn lemma_runs_positive(execs: Seq<ExecutionData>, k: int, n: int)
    requires
        0 <= k < n <= execs.len(),
    ensures
        runs(execs, execs[k].command, n) > 0,
    decreases n,
{
    if k < n - 1 {
        lemma_runs_positive(execs, k, n - 1);
    }
}

/// Whether each entry of `list` stands before those after it.
pub open spec fn in_order(list: Seq<CommandStatsData>) -> bool {
    forall|i: int, j: int| 0 <= i < j < list.len() ==> before(#[trigger] list[i], #[trigger] list[j])
}

/// Two lists in order with the same entries are the same list.
proof fn lemma_in_order_same_entries(a: Seq<CommandStatsData>, b: Seq<CommandStatsData>)
    requires
        in_order(a),
        in_order(b),
        forall|i: int| 0 <= i < a.len() ==> b.contains(#[trigger] a[i]),
        forall|j: int| 0 <= j < b.len() ==> a.contains(#[trigger] b[j]),
    ensures
        a == b,
    decreases a.len(),
{
    if a.len() == 0 {
        if b.len() > 0 {
            assert(a.contains(b[0]));
        }
        assert(a =~= b);
    } else {
        assert(b.contains(a[0]));
        let j = choose|j: int| 0 <= j < b.len() && b[j] == a[0];
        assert(a.contains(b[0]));
        let i = choose|i: int| 0 <= i < a.len() && a[i] == b[0];
        if j > 0 {
            assert(before(b[0], b[j]));
            if i > 0 {
                assert(before(a[0], a[i]));
            }
            lemma_before_asym(b[0], b[j]);
        }
        assert(a[0] == b[0]);
        let ta = a.skip(1);
        let tb = b.skip(1);
        assert forall|x: int, y: int| 0 <= x < y < ta.len() implies before(
            #[trigger] ta[x],
            #[trigger] ta[y],
        ) by {
            assert(before(a[x + 1], a[y + 1]));
        }
        assert forall|x: int, y: int| 0 <= x < y < tb.len() implies before(
            #[trigger] tb[x],
            #[trigger] tb[y],
        ) by {
            assert(before(b[x + 1], b[y + 1]));
        }
        assert forall|x: int| 0 <= x < ta.len() implies tb.contains(#[trigger] ta[x]) by {
            assert(b.contains(a[x + 1]));
            let y = choose|y: int| 0 <= y < b.len() && b[y] == a[x + 1];
            if y == 0 {
                assert(before(a[0], a[x + 1]));
                lemma_before_asym(a[0], a[x + 1]);
            }
            assert(tb[y - 1] == ta[x]);
        }
        assert forall|y: int| 0 <= y < tb.len() implies ta.contains(#[trigger] tb[y]) by {
            assert(a.contains(b[y + 1]));
            let x = choose|x: int| 0 <= x < a.len() && a[x] == b[y + 1];
            if x == 0 {
                assert(before(b[0], b[y + 1]));
                lemma_before_asym(b[0], b[y + 1]);
            }
            assert(ta[x - 1] == tb[y]);
        }
        lemma_in_order_same_entries(ta, tb);
        assert(a =~= seq![a[0]] + ta);
        assert(b =~= seq![b[0]] + tb);
    }
}

/// A command with a run runs in one of the executions.
proof fn lemma_run_exists(execs: Seq<ExecutionData>, c: Seq<char>, n: int) -> (k: int)
    requires
        0 <= n <= execs.len(),
        runs(execs, c, n) > 0,
    ensures
        0 <= k < n,
        execs[k].command == c,
    decreases n,
{
    if execs[n - 1].command == c {
        n - 1
    } else {
        lemma_run_exists(execs, c, n - 1)
    }
}

/// The executions have one list of statistics only.
pub proof fn law_stats_unique(
    first: Seq<CommandStatsData>,
    second: Seq<CommandStatsData>,
    execs: Seq<ExecutionData>,
)
    requires
        is_stats_of(first, execs),
        is_stats_of(second, execs),
    ensures
        first == second,
{
    let n = execs.len() as int;
    assert forall|i: int| 0 <= i < first.len() implies second.contains(#[trigger] first[i]) by {
        let k = lemma_run_exists(execs, first[i].command, n);
        assert(listed(second, execs[k].command));
        let j = choose|j: int|
            0 <= j < second.len() && (#[trigger] second[j]).command == execs[k].command;
        assert(second[j] == first[i]);
    }
    assert forall|j: int| 0 <= j < second.len() implies first.contains(#[trigger] second[j]) by {
        let k = lemma_run_exists(execs, second[j].command, n);
        assert(listed(first, execs[k].command));
        let i = choose|i: int|
            0 <= i < first.len() && (#[trigger] first[i]).command == execs[k].command;
        assert(first[i] == second[j]);
    }
    lemma_in_order_same_entries(first, second);
}

/// The runs of each command are its successes and its failures, and each
/// execution is a run of its command.
pub proof fn law_runs_are_counted(execs: Seq<ExecutionData>, c: Seq<char>)
    ensures
        stats_for(execs, c).total_runs == stats_for(execs, c).successes + stats_for(
            execs,
            c,
        ).failures,
        stats_for(execs, c).total_runs <= execs.len(),
        forall|k: int|
            0 <= k < execs.len() && (#[trigger] execs[k]).command == c ==> stats_for(
                execs,
                c,
            ).total_runs > 0,
{
    lemma_counts_bounded(execs, c, execs.len() as int);
    assert forall|k: int| 0 <= k < execs.len() && (#[trigger] execs[k]).command == c implies stats_for(
        execs,
        c,
    ).total_runs > 0 by {
        lemma_runs_positive(execs, k, execs.len() as int);
    }
}

impl FluxState {
    /// The statistics of each command that the state's executions run, the most
    /// recently run command first.
    pub fn command_stats(&self) -> (r: Vec<CommandStats>)
        ensures
            is_stats_of(r.deep_view(), self.deep_view().executions),
    {
        let ghost execs = self.executions.deep_view();
        let mut out: Vec<CommandStats> = Vec::new();
        let mut k: usize = 0;
        while k < self.executions.len()
            invariant
                k <= self.executions.len(),
                execs == self.executions.deep_view(),
                forall|i: int|
                    0 <= i < out@.len() ==> #[trigger] out@[i].deep_view() == stats_for(
                        execs,
                        out@[i].command@,
                    ) && out@[i].total_runs > 0,
                forall|j: int| 0 <= j < k ==> listed(out.deep_view(), #[trigger] execs[j].command),
                forall|i: int, j: int|
                    0 <= i < j < out@.len() ==> before(
                        #[trigger] out@[i].deep_view(),
                        #[trigger] out@[j].deep_view(),
                    ),
            decreases self.executions.len() - k,
        {
            let command = self.executions[k].command.as_str();
            assert(execs[k as int] == self.executions@[k as int].deep_view());
            if has_command(&out, command) {
                proof {
                    let i0 = choose|i: int|
                        0 <= i < out@.len() && #[trigger] out@[i].command@ == command@;
                    assert(out.deep_view()[i0].command == execs[k as int].command);
                }
            } else {
                let st = stats_of(&self.executions, command);
                proof {
                    lemma_runs_positive(execs, k as int, execs.len() as int);
                }
                let mut p: usize = 0;
                while p < out.len() && stands_before(&out[p], &st)
                    invariant
                        p <= out.len(),
                        forall|i: int|
                            0 <= i < p ==> before(#[trigger] out@[i].deep_view(), st.deep_view()),
                    decreases out.len() - p,
                {
                    p += 1;
                }
                let ghost old_out = out@;
                let ghost old_list = out.deep_view();
                let ghost stv = st.deep_view();
                proof {
                    if p < out.len() {
                        lemma_before_total(out@[p as int].deep_view(), stv);
                        assert forall|j: int| p <= j < old_out.len() implies before(
                            stv,
                            #[trigger] old_out[j].deep_view(),
                        ) by {
                            if j > p {
                                lemma_before_trans(
                                    stv,
                                    old_out[p as int].deep_view(),
                                    old_out[j].deep_view(),
                                );
                            }
                        }
                    }
                }
                out.insert(p, st);
                proof {
                    assert forall|i: int, j: int| 0 <= i < j < out@.len() implies before(
                        #[trigger] out@[i].deep_view(),
                        #[trigger] out@[j].deep_view(),
                    ) by {
                        if i < p && j > p {
                            assert(out@[i] == old_out[i]);
                            assert(out@[j] == old_out[j - 1]);
                        } else if i < p && j == p {
                            assert(out@[i] == old_out[i]);
                        } else if i < p && j < p {
                            assert(out@[i] == old_out[i]);
                            assert(out@[j] == old_out[j]);
                        } else if i == p {
                            assert(out@[j] == old_out[j - 1]);
                        } else {
                            assert(out@[i] == old_out[i - 1]);
                            assert(out@[j] == old_out[j - 1]);
                        }
                    }
                    assert forall|i: int| 0 <= i < out@.len() implies #[trigger] out@[i].deep_view()
                        == stats_for(execs, out@[i].command@) && out@[i].total_runs > 0 by {
                        if i < p {
                            assert(out@[i] == old_out[i]);
                        } else if i > p {
                            assert(out@[i] == old_out[i - 1]);
                        }
                    }
                    let new_list = out.deep_view();
                    assert forall|j: int| 0 <= j <= k implies listed(
                        new_list,
                        #[trigger] execs[j].command,
                    ) by {
                        if j == k {
                            assert(new_list[p as int].command == execs[j].command);
                        } else {
                            let i0 = choose|i: int|
                                0 <= i < old_list.len() && #[trigger] old_list[i].command
                                    == execs[j].command;
                            if i0 < p {
                                assert(out@[i0] == old_out[i0]);
                                assert(new_list[i0].command == execs[j].command);
                            } else {
                                assert(out@[i0 + 1] == old_out[i0]);
                                assert(new_list[i0 + 1].command == execs[j].command);
                            }
                        }
                    }
                }
            }
            k += 1;
        }
        proof {
            let list = out.deep_view();
            assert forall|i: int| 0 <= i < list.len() implies #[trigger] list[i] == stats_for(
                execs,
                list[i].command,
            ) && list[i].total_runs > 0 by {
                assert(list[i] == out@[i].deep_view());
            }
            assert forall|i: int, j: int| 0 <= i < j < list.len() implies before(
                #[trigger] list[i],
                #[trigger] list[j],
            ) by {
                assert(before(out@[i].deep_view(), out@[j].deep_view()));
            }
        }
        out
    }
}

} // verus!
