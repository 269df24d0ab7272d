//! What holds of every replay.

use vstd::prelude::*;
use crate::signals::{parsed_log, SignalData};
use crate::state::{
    is_end,
    is_init,
    is_start,
    orphan,
    orphans,
    paired,
    position,
    ref_id,
    replay,
    replay_fold,
    step,
    unmatched,
    without,
};

verus! {

/// No tag is of two kinds at once.
pub proof fn lemma_kinds_disjoint(kind: Seq<char>)
    ensures
        !(is_init(kind) && is_start(kind)),
        !(is_init(kind) && is_end(kind)),
        !(is_start(kind) && is_end(kind)),
{
    reveal_strlit("init");
    reveal_strlit("exec_start");
    reveal_strlit("install_start");
    reveal_strlit("run_start");
    reveal_strlit("exec_end");
    reveal_strlit("install_end");
    reveal_strlit("run_end");
    if is_start(kind) && is_end(kind) {
        assert(kind.len() == 10 || kind.len() == 13 || kind.len() == 9);
        assert(kind.len() == 8 || kind.len() == 11 || kind.len() == 7);
    }
    if is_init(kind) {
        assert(kind.len() == 4);
    }
}

/// How many of the first `n` signals are end signals.
pub open spec fn ends_before(signals: Seq<SignalData>, n: int) -> nat
    decreases n,
{
    if n <= 0 {
        0
    } else if is_end(signals[n - 1].kind) {
        ends_before(signals, n - 1) + 1
    } else {
        ends_before(signals, n - 1)
    }
}

/// Whether the signal `s` takes the start signal with the identifier `id` out of
/// the pending ones: an end signal that refers to it, or a start signal with the
/// same identifier.
pub open spec fn takes_up(s: SignalData, id: Seq<char>) -> bool {
    (is_start(s.kind) && s.id == id) || (is_end(s.kind) && ref_id(s.payload) == id)
}

/// Whether `x` is a start signal among the first `n` signals.
pub open spec fn started_in(signals: Seq<SignalData>, n: int, x: SignalData) -> bool {
    exists|k: int| 0 <= k < n && #[trigger] signals[k] == x && is_start(signals[k].kind)
}

/// Whether the identifiers of `pending` differ from each other.
pub open spec fn distinct_ids(pending: Seq<SignalData>) -> bool {
    forall|a: int, b: int|
        0 <= a < b < pending.len() ==> (#[trigger] pending[a]).id != (#[trigger] pending[b]).id
}

proof fn lemma_fold_take(signals: Seq<SignalData>, n: int)
    requires
        0 <= n < signals.len(),
    ensures
        replay_fold(signals.take(n + 1)) == step(replay_fold(signals.take(n)), signals[n]),
{
    assert(signals.take(n + 1).drop_last() =~= signals.take(n));
}

proof fn lemma_position(pending: Seq<SignalData>, id: Seq<char>, i: int)
    requires
        0 <= i <= pending.len(),
    ensures
        i <= position(pending, id, i) <= pending.len(),
        forall|q: int| i <= q < position(pending, id, i) ==> (#[trigger] pending[q]).id != id,
        position(pending, id, i) < pending.len() ==> pending[position(pending, id, i)].id == id,
    decreases pending.len() - i,
{
    if i < pending.len() && pending[i].id != id {
        lemma_position(pending, id, i + 1);
    }
}

/// After `without`, what is left are the pending signals with another
/// identifier, in their order.
proof fn lemma_without(pending: Seq<SignalData>, id: Seq<char>)
    requires
        distinct_ids(pending),
    ensures
        distinct_ids(without(pending, id)),
        forall|q: int|
            0 <= q < without(pending, id).len() ==> (#[trigger] without(pending, id)[q]).id != id,
        forall|q: int|
            0 <= q < without(pending, id).len() ==> pending.contains(
                #[trigger] without(pending, id)[q],
            ),
        forall|o: int|
            0 <= o < pending.len() && pending[o].id != id ==> without(pending, id).contains(
                #[trigger] pending[o],
            ),
{
    lemma_position(pending, id, 0);
    let at = position(pending, id, 0);
    let rest = without(pending, id);
    if at < pending.len() {
        lemma_removed(pending, at);
        assert forall|q: int| 0 <= q < rest.len() implies (#[trigger] rest[q]).id != id by {
            if q < at {
                assert(rest[q] == pending[q]);
            } else {
                assert(rest[q] == pending[q + 1]);
                assert(pending[at].id != pending[q + 1].id);
            }
        }
    } else {
        assert forall|o: int| 0 <= o < pending.len() && pending[o].id != id implies rest.contains(
            #[trigger] pending[o],
        ) by {
            assert(rest[o] == pending[o]);
        }
        assert forall|q: int| 0 <= q < rest.len() implies pending.contains(#[trigger] rest[q]) by {
            assert(pending[q] == rest[q]);
        }
    }
}

/// Taking one signal out of the pending ones keeps the others, in their order.
proof fn lemma_removed(pending: Seq<SignalData>, at: int)
    requires
        0 <= at < pending.len(),
        distinct_ids(pending),
    ensures
        distinct_ids(pending.remove(at)),
        pending.remove(at).len() == pending.len() - 1,
        forall|q: int| 0 <= q < at ==> #[trigger] pending.remove(at)[q] == pending[q],
        forall|q: int|
            at <= q < pending.len() - 1 ==> #[trigger] pending.remove(at)[q] == pending[q + 1],
        forall|q: int|
            0 <= q < pending.remove(at).len() ==> pending.contains(
                #[trigger] pending.remove(at)[q],
            ),
        forall|o: int|
            0 <= o < pending.len() && o != at ==> pending.remove(at).contains(
                #[trigger] pending[o],
            ),
{
    let rest = pending.remove(at);
    assert forall|a: int, b: int| 0 <= a < b < rest.len() implies (#[trigger] rest[a]).id != (
    #[trigger] rest[b]).id by {
        let oa = if a < at {
            a
        } else {
            a + 1
        };
        let ob = if b < at {
            b
        } else {
            b + 1
        };
        assert(rest[a] == pending[oa]);
        assert(rest[b] == pending[ob]);
        assert(pending[oa].id != pending[ob].id);
    }
    assert forall|q: int| 0 <= q < rest.len() implies pending.contains(#[trigger] rest[q]) by {
        if q < at {
            assert(pending[q] == rest[q]);
        } else {
            assert(pending[q + 1] == rest[q]);
        }
    }
    assert forall|o: int| 0 <= o < pending.len() && o != at implies rest.contains(
        #[trigger] pending[o],
    ) by {
        if o < at {
            assert(rest[o] == pending[o]);
        } else {
            assert(rest[o - 1] == pending[o]);
        }
    }
}

/// After any number of signals, the pending start signals have identifiers that
/// differ from each other, each of them is a start signal of the log so far, and
/// there is one execution for each end signal so far.
pub proof fn lemma_replay_invariant(signals: Seq<SignalData>, n: int)
    requires
        0 <= n <= signals.len(),
    ensures
        distinct_ids(replay_fold(signals.take(n)).pending),
        forall|a: int|
            0 <= a < replay_fold(signals.take(n)).pending.len() ==> started_in(
                signals,
                n,
                #[trigger] replay_fold(signals.take(n)).pending[a],
            ),
        replay_fold(signals.take(n)).executions.len() == ends_before(signals, n),
    decreases n,
{
    if n > 0 {
        lemma_replay_invariant(signals, n - 1);
        lemma_fold_take(signals, n - 1);
        let acc = replay_fold(signals.take(n - 1));
        let s = signals[n - 1];
        let next = step(acc, s);
        lemma_kinds_disjoint(s.kind);
        assert forall|a: int| 0 <= a < acc.pending.len() implies started_in(
            signals,
            n,
            #[trigger] acc.pending[a],
        ) by {
            assert(started_in(signals, n - 1, acc.pending[a]));
            let k = choose|k: int|
                0 <= k < n - 1 && #[trigger] signals[k] == acc.pending[a] && is_start(
                    signals[k].kind,
                );
            assert(signals[k] == acc.pending[a]);
        }
        if is_init(s.kind) {
        } else if is_start(s.kind) {
            lemma_without(acc.pending, s.id);
            let rest = without(acc.pending, s.id);
            assert(next.pending == rest.push(s));
            assert(signals[n - 1] == s);
            assert(started_in(signals, n, s));
            assert forall|a: int| 0 <= a < next.pending.len() implies started_in(
                signals,
                n,
                #[trigger] next.pending[a],
            ) by {
                if a < rest.len() {
                    assert(acc.pending.contains(rest[a]));
                    let o = choose|o: int| 0 <= o < acc.pending.len() && acc.pending[o] == rest[a];
                    assert(started_in(signals, n, acc.pending[o]));
                }
            }
            assert forall|a: int, b: int| 0 <= a < b < next.pending.len() implies (
            #[trigger] next.pending[a]).id != (#[trigger] next.pending[b]).id by {
                if b < rest.len() {
                    assert(rest[a].id != rest[b].id);
                } else {
                    assert(rest[a].id != s.id);
                }
            }
        } else if is_end(s.kind) {
            lemma_position(acc.pending, ref_id(s.payload), 0);
            let at = position(acc.pending, ref_id(s.payload), 0);
            if at < acc.pending.len() {
                lemma_removed(acc.pending, at);
                let rest = acc.pending.remove(at);
                assert forall|a: int| 0 <= a < rest.len() implies started_in(
                    signals,
                    n,
                    #[trigger] rest[a],
                ) by {
                    assert(acc.pending.contains(rest[a]));
                    let o = choose|o: int| 0 <= o < acc.pending.len() && acc.pending[o] == rest[a];
                    assert(started_in(signals, n, acc.pending[o]));
                }
            }
        } else {
        }
    } else {
        assert(signals.take(0) =~= Seq::<SignalData>::empty());
    }
}

/// The executions that the replay holds after some signals are still there, at
/// the same places, after more signals.
pub proof fn lemma_executions_kept(signals: Seq<SignalData>, n: int, m: int)
    requires
        0 <= n <= m <= signals.len(),
    ensures
        replay_fold(signals.take(n)).executions.len() <= replay_fold(
            signals.take(m),
        ).executions.len(),
        forall|q: int|
            0 <= q < replay_fold(signals.take(n)).executions.len() ==> #[trigger] replay_fold(
                signals.take(m),
            ).executions[q] == replay_fold(signals.take(n)).executions[q],
    decreases m - n,
{
    if n < m {
        lemma_executions_kept(signals, n, m - 1);
        lemma_fold_take(signals, m - 1);
    }
}

/// A start signal stays pending as long as no signal takes it up.
proof fn lemma_stays_pending(signals: Seq<SignalData>, i: int, n: int) -> (idx: int)
    requires
        0 <= i < n <= signals.len(),
        is_start(signals[i].kind),
        forall|k: int| i < k < n ==> !takes_up(#[trigger] signals[k], signals[i].id),
    ensures
        0 <= idx < replay_fold(signals.take(n)).pending.len(),
        replay_fold(signals.take(n)).pending[idx] == signals[i],
    decreases n,
{
    lemma_fold_take(signals, n - 1);
    lemma_replay_invariant(signals, n - 1);
    let acc = replay_fold(signals.take(n - 1));
    let s = signals[n - 1];
    lemma_kinds_disjoint(s.kind);
    if n == i + 1 {
        without(acc.pending, s.id).len() as int
    } else {
        let idx0 = lemma_stays_pending(signals, i, n - 1);
        assert(!takes_up(signals[n - 1], signals[i].id));
        if is_init(s.kind) {
            idx0
        } else if is_start(s.kind) {
            lemma_position(acc.pending, s.id, 0);
            let at = position(acc.pending, s.id, 0);
            if at < acc.pending.len() {
                lemma_removed(acc.pending, at);
                if idx0 < at {
                    idx0
                } else {
                    idx0 - 1
                }
            } else {
                idx0
            }
        } else if is_end(s.kind) {
            lemma_position(acc.pending, ref_id(s.payload), 0);
            let at = position(acc.pending, ref_id(s.payload), 0);
            if at < acc.pending.len() {
                lemma_removed(acc.pending, at);
                if idx0 < at {
                    idx0
                } else {
                    idx0 - 1
                }
            } else {
                idx0
            }
        } else {
            idx0
        }
    }
}

/// Each end signal gives exactly one execution, at the place that is the number of
/// end signals before it; the executions of the start signals that are left over
/// follow those of the end signals.
pub proof fn law_one_execution_per_end(signals: Seq<SignalData>)
    ensures
        replay(signals).executions.len() == ends_before(signals, signals.len() as int)
            + replay_fold(signals).pending.len(),
        replay(signals).signal_count == signals.len(),
{
    lemma_replay_invariant(signals, signals.len() as int);
    assert(signals.take(signals.len() as int) =~= signals);
}

/// A start signal and the first end signal after it that refers to its identifier
/// give one execution, which combines the members of both, provided that no start
/// signal between the two has the same identifier.
pub proof fn law_pairing(signals: Seq<SignalData>, i: int, j: int)
    requires
        0 <= i < j < signals.len(),
        is_start(signals[i].kind),
        is_end(signals[j].kind),
        ref_id(signals[j].payload) == signals[i].id,
        forall|k: int| i < k < j ==> !takes_up(#[trigger] signals[k], signals[i].id),
    ensures
        ends_before(signals, j) < replay(signals).executions.len(),
        replay(signals).executions[ends_before(signals, j) as int] == paired(
            signals[i],
            signals[j],
        ),
{
    let idx = lemma_stays_pending(signals, i, j);
    lemma_replay_invariant(signals, j);
    lemma_fold_take(signals, j);
    let acc = replay_fold(signals.take(j));
    let s = signals[j];
    lemma_kinds_disjoint(s.kind);
    lemma_position(acc.pending, signals[i].id, 0);
    let at = position(acc.pending, signals[i].id, 0);
    assert(at == idx) by {
        if at < idx {
            assert(acc.pending[at].id != acc.pending[idx].id);
        }
    }
    let next = replay_fold(signals.take(j + 1));
    assert(next.executions == acc.executions.push(paired(signals[i], s)));
    lemma_executions_kept(signals, j + 1, signals.len() as int);
    assert(signals.take(signals.len() as int) =~= signals);
    assert(next.executions[ends_before(signals, j) as int] == paired(signals[i], s));
}

/// A start signal that no later signal takes up gives exactly one execution,
/// after those of the end signals: without success, exit code, duration and end
/// time. No other execution there has its identifier.
pub proof fn law_orphan(signals: Seq<SignalData>, i: int) -> (at: int)
    requires
        0 <= i < signals.len(),
        is_start(signals[i].kind),
        forall|k: int| i < k < signals.len() ==> !takes_up(#[trigger] signals[k], signals[i].id),
    ensures
        ends_before(signals, signals.len() as int) <= at < replay(signals).executions.len(),
        replay(signals).executions[at] == orphan(signals[i]),
        !replay(signals).executions[at].success,
        replay(signals).executions[at].exit_code is None,
        replay(signals).executions[at].duration_ms is None,
        replay(signals).executions[at].ended_at is None,
        forall|other: int|
            ends_before(signals, signals.len() as int) <= other < replay(signals).executions.len()
                && other != at ==> (#[trigger] replay(signals).executions[other]).start_id
                != signals[i].id,
{
    let n = signals.len() as int;
    let idx = lemma_stays_pending(signals, i, n);
    lemma_replay_invariant(signals, n);
    assert(signals.take(n) =~= signals);
    let acc = replay_fold(signals);
    let ends = acc.executions.len() as int;
    let all = replay(signals).executions;
    assert forall|other: int| ends <= other < all.len() && other != ends + idx implies (
    #[trigger] all[other]).start_id != signals[i].id by {
        let o = other - ends;
        assert(all[other] == orphans(acc.pending)[o]);
        if o < idx {
            assert(acc.pending[o].id != acc.pending[idx].id);
        } else {
            assert(acc.pending[idx].id != acc.pending[o].id);
        }
    }
    assert(all[ends + idx] == orphans(acc.pending)[idx]);
    ends + idx
}

/// An end signal that refers to no start signal before it still gives one
/// execution, with the command `unknown` and without arguments, directory, start
/// time and start identifier.
pub proof fn law_unmatched_end(signals: Seq<SignalData>, j: int)
    requires
        0 <= j < signals.len(),
        is_end(signals[j].kind),
        forall|k: int|
            0 <= k < j ==> !(is_start((#[trigger] signals[k]).kind) && signals[k].id == ref_id(
                signals[j].payload,
            )),
    ensures
        ends_before(signals, j) < replay(signals).executions.len(),
        replay(signals).executions[ends_before(signals, j) as int] == unmatched(signals[j]),
{
    lemma_replay_invariant(signals, j);
    lemma_fold_take(signals, j);
    let acc = replay_fold(signals.take(j));
    let s = signals[j];
    let id = ref_id(s.payload);
    lemma_kinds_disjoint(s.kind);
    lemma_position(acc.pending, id, 0);
    let at = position(acc.pending, id, 0);
    if at < acc.pending.len() {
        assert(started_in(signals, j, acc.pending[at]));
        let k = choose|k: int|
            0 <= k < j && #[trigger] signals[k] == acc.pending[at] && is_start(signals[k].kind);
        assert(signals[k].id == id);
        assert(false);
    }
    let next = replay_fold(signals.take(j + 1));
    assert(next.executions == acc.executions.push(unmatched(s)));
    lemma_executions_kept(signals, j + 1, signals.len() as int);
    assert(signals.take(signals.len() as int) =~= signals);
    assert(next.executions[ends_before(signals, j) as int] == unmatched(s));
}

proof fn lemma_init_kept(signals: Seq<SignalData>, i: int, n: int)
    requires
        0 <= i < n <= signals.len(),
        is_init(signals[i].kind),
        forall|k: int| i < k < n ==> !is_init((#[trigger] signals[k]).kind),
    ensures
        replay_fold(signals.take(n)).project_path == signals[i].payload.str_field("path"@),
        replay_fold(signals.take(n)).version == signals[i].payload.str_field("version"@),
        replay_fold(signals.take(n)).initialized_at == Some(signals[i].timestamp),
    decreases n,
{
    lemma_fold_take(signals, n - 1);
    if n > i + 1 {
        lemma_init_kept(signals, i, n - 1);
        assert(!is_init(signals[n - 1].kind));
    }
}

/// The last `init` signal of the log gives the state its path, version and time
/// of initialisation.
pub proof fn law_last_init_wins(signals: Seq<SignalData>, i: int)
    requires
        0 <= i < signals.len(),
        is_init(signals[i].kind),
        forall|k: int| i < k < signals.len() ==> !is_init((#[trigger] signals[k]).kind),
    ensures
        replay(signals).project_path == signals[i].payload.str_field("path"@),
        replay(signals).version == signals[i].payload.str_field("version"@),
        replay(signals).initialized_at == Some(signals[i].timestamp),
{
    lemma_init_kept(signals, i, signals.len() as int);
    assert(signals.take(signals.len() as int) =~= signals);
}

/// A signal that is neither `init` nor a start nor an end signal changes nothing
/// of the state but the number of signals.
pub proof fn law_other_signals_inert(signals: Seq<SignalData>, s: SignalData)
    requires
        !is_init(s.kind),
        !is_start(s.kind),
        !is_end(s.kind),
    ensures
        replay(signals.push(s)).project_path == replay(signals).project_path,
        replay(signals.push(s)).version == replay(signals).version,
        replay(signals.push(s)).initialized_at == replay(signals).initialized_at,
        replay(signals.push(s)).executions == replay(signals).executions,
        replay(signals.push(s)).signal_count == replay(signals).signal_count + 1,
{
    assert(signals.push(s).drop_last() =~= signals);
}

/// The same log gives the same records and the same state, however often it is
/// read and replayed.
pub proof fn law_replay_pure(first: Seq<char>, second: Seq<char>)
    requires
        first == second,
    ensures
        parsed_log(first) == parsed_log(second),
        parsed_log(first) is Ok ==> replay(parsed_log(first)->Ok_0) == replay(
            parsed_log(second)->Ok_0,
        ),
{
}

} // verus!
