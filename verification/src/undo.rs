//! Which operation an undo takes back.

use vstd::prelude::*;
use vstd::string::StringExecFns;
use crate::json::{lookup, Json, JsonData};
use crate::signals::{Signal, SignalData};
use crate::text::str_eq;

verus! {

broadcast use vstd::string::group_string_axioms;

/// Whether a signal of this kind takes another one back.
pub open spec fn is_undo(kind: Seq<char>) -> bool {
    kind == "undo"@
}

/// Whether a signal of this kind can be taken back.
pub open spec fn is_reversible(kind: Seq<char>) -> bool {
    kind == "add"@ || kind == "remove"@
}

/// The identifier that an undo signal takes back; `None` for any other signal
/// and for an undo signal that names none.
pub open spec fn undo_target(s: SignalData) -> Option<Seq<char>> {
    if is_undo(s.kind) {
        s.payload.str_field("target_id"@)
    } else {
        None
    }
}

/// Whether some undo signal of the log has taken back the signal with the
/// identifier `id`.
pub open spec fn consumed(signals: Seq<SignalData>, id: Seq<char>) -> bool {
    exists|k: int| 0 <= k < signals.len() && undo_target(#[trigger] signals[k]) == Some(id)
}

/// Whether the signal at `i` can still be taken back: it adds or removes a
/// dependency, and no undo signal of the log names it.
pub open spec fn is_candidate(signals: Seq<SignalData>, i: int) -> bool {
    0 <= i < signals.len() && is_reversible(signals[i].kind) && !consumed(signals, signals[i].id)
}

/// The identifiers that the undo signals among the first `n` signals name, in
/// the order of the log.
pub open spec fn undo_targets(signals: Seq<SignalData>, n: int) -> Seq<Seq<char>>
    decreases n,
{
    if n <= 0 {
        Seq::empty()
    } else {
        match undo_target(signals[n - 1]) {
            Some(t) => undo_targets(signals, n - 1).push(t),
            None => undo_targets(signals, n - 1),
        }
    }
}

/// The identifiers that the undo signals name are those that are consumed.
pub proof fn lemma_targets_are_consumed(signals: Seq<SignalData>, n: int)
    requires
        0 <= n <= signals.len(),
    ensures
        forall|id: Seq<char>| #[trigger]
            undo_targets(signals, n).contains(id) <==> consumed(signals.take(n), id),
    decreases n,
{
    let now = undo_targets(signals, n);
    let next = signals.take(n);
    if n == 0 {
        assert forall|id: Seq<char>| #[trigger] now.contains(id) <==> consumed(next, id) by {}
    } else {
        lemma_targets_are_consumed(signals, n - 1);
        let before = undo_targets(signals, n - 1);
        let prefix = signals.take(n - 1);
        assert forall|id: Seq<char>| #[trigger] now.contains(id) <==> consumed(next, id) by {
            if now.contains(id) {
                let k = choose|k: int| 0 <= k < now.len() && now[k] == id;
                if k < before.len() {
                    assert(before[k] == id);
                    assert(before.contains(id));
                    let j = choose|j: int|
                        0 <= j < prefix.len() && undo_target(#[trigger] prefix[j]) == Some(id);
                    assert(undo_target(next[j]) == Some(id));
                } else {
                    assert(undo_target(next[n - 1]) == Some(id));
                }
            }
            if consumed(next, id) {
                let j = choose|j: int|
                    0 <= j < next.len() && undo_target(#[trigger] next[j]) == Some(id);
                if j < n - 1 {
                    assert(undo_target(prefix[j]) == Some(id));
                    assert(before.contains(id));
                    let k = choose|k: int| 0 <= k < before.len() && before[k] == id;
                    assert(now[k] == id);
                } else {
                    assert(now[now.len() - 1] == id);
                }
            }
        }
    }
}

/// The identifiers that the undo signals of the log name, in the order of the log.
pub fn consumed_undo_ids(signals: &[Signal]) -> (r: Vec<String>)
    ensures
        r.deep_view() == undo_targets(signals.deep_view(), signals@.len() as int),
        forall|id: Seq<char>| #[trigger]
            r.deep_view().contains(id) <==> consumed(signals.deep_view(), id),
{
    let ghost all = signals.deep_view();
    let mut r: Vec<String> = Vec::new();
    let mut i: usize = 0;
    assert(r.deep_view() =~= Seq::<Seq<char>>::empty());
    while i < signals.len()
        invariant
            i <= signals.len(),
            all == signals.deep_view(),
            r.deep_view() == undo_targets(all, i as int),
        decreases signals.len() - i,
    {
        let s = &signals[i];
        let ghost before = r.deep_view();
        assert(all[i as int] == s.deep_view());
        if str_eq(s.r_type.as_str(), "undo") {
            match s.payload.get_str("target_id") {
                Some(t) => {
                    r.push(String::from_str(t));
                    assert(r.deep_view() =~= before.push(t@));
                },
                None => {},
            }
        }
        i += 1;
    }
    proof {
        lemma_targets_are_consumed(all, all.len() as int);
        assert(all.take(all.len() as int) =~= all);
    }
    r
}

fn holds(ids: &Vec<String>, id: &str) -> (r: bool)
    ensures
        r == ids.deep_view().contains(id@),
{
    let mut k: usize = 0;
    while k < ids.len()
        invariant
            k <= ids.len(),
            forall|j: int| 0 <= j < k ==> ids.deep_view()[j] != id@,
        decreases ids.len() - k,
    {
        assert(ids.deep_view()[k as int] == ids@[k as int]@);
        if str_eq(ids[k].as_str(), id) {
            return true;
        }
        k += 1;
    }
    false
}

fn is_reversible_kind(kind: &str) -> (r: bool)
    ensures
        r == is_reversible(kind@),
{
    str_eq(kind, "add") || str_eq(kind, "remove")
}

/// The place of the signal that the next undo takes back: the last signal of the
/// log that adds or removes a dependency and that no undo signal names. `None`
/// where there is none.
pub fn next_undo_candidate(signals: &[Signal]) -> (r: Option<usize>)
    ensures
        match r {
            Some(i) => is_candidate(signals.deep_view(), i as int) && forall|j: int|
                i < j < signals@.len() ==> !is_candidate(signals.deep_view(), j),
            None => forall|j: int| 0 <= j < signals@.len() ==> !is_candidate(signals.deep_view(), j),
        },
{
    let ids = consumed_undo_ids(signals);
    let ghost all = signals.deep_view();
    let mut i: usize = signals.len();
    while i > 0
        invariant
            i <= signals.len(),
            all == signals.deep_view(),
            forall|id: Seq<char>| #[trigger] ids.deep_view().contains(id) <==> consumed(all, id),
            forall|j: int| i <= j < signals@.len() ==> !is_candidate(all, j),
        decreases i,
    {
        i -= 1;
        let s = &signals[i];
        assert(all[i as int] == s.deep_view());
        if is_reversible_kind(s.r_type.as_str()) && !holds(&ids, s.id.as_str()) {
            return Some(i);
        }
    }
    None
}

/// Why an undo cannot be planned.
#[derive(Debug, Clone, Copy, PartialEq, Eq, Structural)]
pub enum UndoError {
    /// No signal of the log can be taken back.
    NothingToUndo,
    /// The signal to take back names no dependency.
    MissingGem,
}

/// What an undo does to the list of dependencies.
#[derive(Debug, Clone, PartialEq)]
pub enum GemChange {
    /// Take the dependency out again.
    Remove { gem: String },
    /// Put the dependency back, with the version that the removed one named.
    Restore { gem: String, version: Option<String> },
}

/// The mathematical model of a [`GemChange`].
pub enum GemChangeData {
    Remove { gem: Seq<char> },
    Restore { gem: Seq<char>, version: Option<Seq<char>> },
}

impl DeepView for GemChange {
    type V = GemChangeData;

    open spec fn deep_view(&self) -> GemChangeData {
        match self {
            GemChange::Remove { gem } => GemChangeData::Remove { gem: gem@ },
            GemChange::Restore { gem, version } => GemChangeData::Restore {
                gem: gem@,
                version: version.deep_view(),
            },
        }
    }
}

/// An undo that is ready to be carried out and recorded.
#[derive(Debug, Clone, PartialEq)]
pub struct UndoPlan {
    /// The place in the log of the signal that is taken back.
    pub target: usize,
    pub change: GemChange,
    /// The payload of the undo signal to record.
    pub payload: Json,
}

/// The payload of the undo signal that takes back `target`, which names the
/// dependency `gem`.
pub open spec fn undo_payload(target: SignalData, gem: Seq<char>) -> JsonData {
    JsonData::Object(
        seq![
            ("target_id"@, JsonData::Str(target.id)),
            ("target_type"@, JsonData::Str(target.kind)),
            ("gem"@, JsonData::Str(gem)),
        ],
    )
}

/// What taking back `target` does to the list of dependencies.
pub open spec fn undo_change(target: SignalData, gem: Seq<char>) -> GemChangeData {
    if target.kind == "add"@ {
        GemChangeData::Remove { gem }
    } else {
        GemChangeData::Restore { gem, version: target.payload.str_field("version"@) }
    }
}

/// Plans the next undo: which signal it takes back, what that does to the list of
/// dependencies, and the payload of the undo signal to record afterwards.
pub fn plan_undo(signals: &[Signal]) -> (r: Result<UndoPlan, UndoError>)
    ensures
        match r {
            Ok(plan) => {
                let target = signals.deep_view()[plan.target as int];
                &&& is_candidate(signals.deep_view(), plan.target as int)
                &&& forall|j: int|
                    plan.target < j < signals@.len() ==> !is_candidate(signals.deep_view(), j)
                &&& target.payload.str_field("gem"@) is Some
                &&& plan.change.deep_view() == undo_change(
                    target,
                    target.payload.str_field("gem"@)->Some_0,
                )
                &&& plan.payload.deep_view() == undo_payload(
                    target,
                    target.payload.str_field("gem"@)->Some_0,
                )
            },
            Err(UndoError::NothingToUndo) => forall|j: int|
                0 <= j < signals@.len() ==> !is_candidate(signals.deep_view(), j),
            Err(UndoError::MissingGem) => exists|i: int|
                is_candidate(signals.deep_view(), i) && (forall|j: int|
                    i < j < signals@.len() ==> !is_candidate(signals.deep_view(), j))
                    && (#[trigger] signals.deep_view()[i]).payload.str_field("gem"@) is None,
        },
{
    let at = match next_undo_candidate(signals) {
        Some(i) => i,
        None => { return Err(UndoError::NothingToUndo); },
    };
    let target = &signals[at];
    assert(signals.deep_view()[at as int] == target.deep_view());
    let gem = match target.payload.get_str("gem") {
        Some(g) => g,
        None => { return Err(UndoError::MissingGem); },
    };
    let change = if str_eq(target.r_type.as_str(), "add") {
        GemChange::Remove { gem: String::from_str(gem) }
    } else {
        let version = match target.payload.get_str("version") {
            Some(v) => Some(String::from_str(v)),
            None => None,
        };
        GemChange::Restore { gem: String::from_str(gem), version }
    };
    let mut members: Vec<(String, Json)> = Vec::new();
    members.push((String::from_str("target_id"), Json::Str(target.id.clone())));
    members.push((String::from_str("target_type"), Json::Str(target.r_type.clone())));
    members.push((String::from_str("gem"), Json::Str(String::from_str(gem))));
    proof {
        crate::json::lemma_object_view(members);
        assert(members.deep_view() =~= undo_payload(target.deep_view(), gem@)->Object_0);
    }
    Ok(UndoPlan { target: at, change, payload: Json::Object(members) })
}

/// An undo signal with the payload of [`undo_payload`] names its target.
pub proof fn lemma_undo_payload_names_target(target: SignalData, gem: Seq<char>)
    ensures
        undo_payload(target, gem).str_field("target_id"@) == Some(target.id),
        undo_payload(target, gem).str_field("target_type"@) == Some(target.kind),
        undo_payload(target, gem).str_field("gem"@) == Some(gem),
{
    reveal_strlit("target_id");
    reveal_strlit("target_type");
    reveal_strlit("gem");
    let members = undo_payload(target, gem)->Object_0;
    assert("target_id"@ != "gem"@) by {
        assert("target_id"@.len() != "gem"@.len());
    }
    assert("target_id"@ != "target_type"@) by {
        assert("target_id"@.len() != "target_type"@.len());
    }
    assert("target_type"@ != "gem"@) by {
        assert("target_type"@.len() != "gem"@.len());
    }
    reveal_with_fuel(lookup, 4);
    assert(members.drop_last() =~= seq![
        ("target_id"@, JsonData::Str(target.id)),
        ("target_type"@, JsonData::Str(target.kind)),
    ]);
    assert(members.drop_last().drop_last() =~= seq![("target_id"@, JsonData::Str(target.id))]);
}

/// Once the undo signal for a signal is in the log, that signal cannot be taken
/// back again, and the signals with other identifiers can be taken back as
/// before.
pub proof fn law_undo_consumes(signals: Seq<SignalData>, i: int, gem: Seq<char>, u: SignalData)
    requires
        is_candidate(signals, i),
        is_undo(u.kind),
        u.payload == undo_payload(signals[i], gem),
    ensures
        !is_candidate(signals.push(u), i),
        !is_candidate(signals.push(u), signals.len() as int),
        forall|j: int|
            0 <= j < signals.len() && signals[j].id != signals[i].id ==> (is_candidate(
                signals.push(u),
                j,
            ) <==> is_candidate(signals, j)),
{
    lemma_undo_payload_names_target(signals[i], gem);
    let more = signals.push(u);
    assert(undo_target(more[signals.len() as int]) == Some(signals[i].id));
    reveal_strlit("undo");
    reveal_strlit("add");
    reveal_strlit("remove");
    assert(!is_reversible(u.kind)) by {
        assert("undo"@.len() == 4);
        assert("add"@.len() == 3);
        assert("remove"@.len() == 6);
    }
    assert forall|j: int| 0 <= j < signals.len() && signals[j].id != signals[i].id implies (
    is_candidate(more, j) <==> is_candidate(signals, j)) by {
        assert(more[j] == signals[j]);
        let id = signals[j].id;
        if consumed(signals, id) {
            let k = choose|k: int|
                0 <= k < signals.len() && undo_target(#[trigger] signals[k]) == Some(id);
            assert(undo_target(more[k]) == Some(id));
        }
        if consumed(more, id) {
            let k = choose|k: int| 0 <= k < more.len() && undo_target(#[trigger] more[k]) == Some(id);
            if k < signals.len() {
                assert(undo_target(signals[k]) == Some(id));
            }
        }
    }
}

} // verus!
