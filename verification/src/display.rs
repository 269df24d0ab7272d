//! What the views of the state are made of.

use vstd::prelude::*;
use vstd::string::StringExecFns;
use crate::signals::{Signal, SignalData};
use crate::text::{chars_of, join, join_strings, str_eq};

verus! {

broadcast use vstd::string::group_string_axioms;

/// A command and its arguments in one line, with a blank between each two.
pub open spec fn command_line(cmd: Seq<char>, args: Seq<Seq<char>>) -> Seq<char> {
    if args.len() == 0 {
        cmd
    } else {
        cmd + seq![' '] + join(args, seq![' '])
    }
}

/// A command and its arguments in one line.
pub fn fmt_cmd(cmd: &str, args: &[String]) -> (r: String)
    ensures
        r@ == command_line(cmd@, args.deep_view()),
{
    if args.len() == 0 {
        String::from_str(cmd)
    } else {
        let mut r = String::from_str(cmd);
        r.push(' ');
        let blank = String::from_str(" ");
        proof {
            reveal_strlit(" ");
            assert(blank@ =~= seq![' ']);
        }
        let rest = join_strings(args, blank.as_str());
        r.append(rest.as_str());
        r
    }
}

/// How many bytes a character takes in a `str`.
pub open spec fn utf8_width(c: char) -> nat {
    if c <= '\u{7f}' {
        1
    } else if c <= '\u{7ff}' {
        2
    } else if c <= '\u{ffff}' {
        3
    } else {
        4
    }
}

/// How many bytes the first `n` characters of `s` take in a `str`.
pub open spec fn utf8_len(s: Seq<char>, n: int) -> nat
    decreases n,
{
    if n <= 0 {
        0
    } else {
        utf8_len(s, n - 1) + utf8_width(s[n - 1])
    }
}

/// The least number of characters from the start of `s`, counted from `i` on,
/// that take 16 bytes or more; the length of `s` where all its characters take
/// fewer.
pub open spec fn minute_end(s: Seq<char>, i: int) -> int
    decreases s.len() - i,
{
    if 0 <= i < s.len() && utf8_len(s, i) < 16 {
        minute_end(s, i + 1)
    } else {
        i
    }
}

/// `s` with a blank in place of each `T`.
pub open spec fn blank_for_t(s: Seq<char>) -> Seq<char> {
    Seq::new(
        s.len(),
        |i: int|
            if s[i] == 'T' {
                ' '
            } else {
                s[i]
            },
    )
}

/// A time cut to the minute: of a text of 16 bytes or more the characters of the
/// first 16 bytes, with a blank in place of each `T`; a shorter text as it is.
/// Where a character lies across the sixteenth byte, it is kept whole.
pub open spec fn short_timestamp(ts: Seq<char>) -> Seq<char> {
    let end = minute_end(ts, 0);
    if utf8_len(ts, end) >= 16 {
        blank_for_t(ts.take(end))
    } else {
        ts
    }
}

fn width_of(c: char) -> (r: usize)
    ensures
        r == utf8_width(c),
        1 <= r <= 4,
{
    if c <= '\u{7f}' {
        1
    } else if c <= '\u{7ff}' {
        2
    } else if c <= '\u{ffff}' {
        3
    } else {
        4
    }
}

/// A time cut to the minute, such as `2026-02-18 16:21`.
pub fn fmt_timestamp(ts: &str) -> (r: String)
    ensures
        r@ == short_timestamp(ts@),
{
    let v = chars_of(ts);
    let mut end: usize = 0;
    let mut bytes: usize = 0;
    while end < v.len() && bytes < 16
        invariant
            end <= v.len(),
            bytes == utf8_len(v@, end as int),
            bytes < 20,
            minute_end(v@, end as int) == minute_end(v@, 0),
        decreases v.len() - end,
    {
        bytes = bytes + width_of(v[end]);
        end += 1;
    }
    if bytes >= 16 {
        let mut r = String::new();
        let mut i: usize = 0;
        while i < end
            invariant
                i <= end <= v.len(),
                r@.len() == i,
                forall|k: int|
                    0 <= k < i ==> r@[k] == if v@[k] == 'T' {
                        ' '
                    } else {
                        v@[k]
                    },
            decreases end - i,
        {
            if v[i] == 'T' {
                r.push(' ');
            } else {
                r.push(v[i]);
            }
            i += 1;
        }
        assert(r@ =~= blank_for_t(v@.take(end as int)));
        r
    } else {
        String::from_str(ts)
    }
}

/// Whether a signal of this kind changes the project itself.
pub open spec fn is_project_change(kind: Seq<char>) -> bool {
    ||| kind == "add"@
    ||| kind == "remove"@
    ||| kind == "undo"@
    ||| kind == "bootstrap"@
    ||| kind == "init"@
}

fn is_project_change_kind(kind: &str) -> (r: bool)
    ensures
        r == is_project_change(kind@),
{
    str_eq(kind, "add") || str_eq(kind, "remove") || str_eq(kind, "undo") || str_eq(
        kind,
        "bootstrap",
    ) || str_eq(kind, "init")
}

/// The place of the last signal that changes the project itself; `None` where
/// the log holds none.
pub fn last_project_change(signals: &[Signal]) -> (r: Option<usize>)
    ensures
        match r {
            Some(i) => i < signals@.len() && is_project_change(signals.deep_view()[i as int].kind)
                && forall|j: int|
                i < j < signals@.len() ==> !is_project_change(
                    (#[trigger] signals.deep_view()[j]).kind,
                ),
            None => forall|j: int|
                0 <= j < signals@.len() ==> !is_project_change(
                    (#[trigger] signals.deep_view()[j]).kind,
                ),
        },
{
    let ghost all = signals.deep_view();
    let mut i: usize = signals.len();
    while i > 0
        invariant
            i <= signals.len(),
            all == signals.deep_view(),
            forall|j: int| i <= j < signals@.len() ==> !is_project_change((#[trigger] all[j]).kind),
        decreases i,
    {
        i -= 1;
        assert(all[i as int] == signals@[i as int].deep_view());
        if is_project_change_kind(signals[i].r_type.as_str()) {
            return Some(i);
        }
    }
    None
}

/// Those of the first `n` signals that have the kind `kind`, in order.
pub open spec fn of_kind(signals: Seq<SignalData>, kind: Seq<char>, n: int) -> Seq<SignalData>
    decreases n,
{
    if n <= 0 {
        Seq::empty()
    } else if signals[n - 1].kind == kind {
        of_kind(signals, kind, n - 1).push(signals[n - 1])
    } else {
        of_kind(signals, kind, n - 1)
    }
}

/// The signals of the kind `type_filter`, in order; all the signals where no kind
/// is given.
pub fn filter_signals<'a>(signals: &'a [Signal], type_filter: Option<&str>) -> (r: Vec<
    &'a Signal,
>)
    ensures
        r.deep_view() == match type_filter {
            Some(kind) => of_kind(signals.deep_view(), kind@, signals@.len() as int),
            None => signals.deep_view(),
        },
{
    let ghost all = signals.deep_view();
    let mut r: Vec<&'a Signal> = Vec::new();
    let mut i: usize = 0;
    assert(r.deep_view() =~= Seq::<SignalData>::empty());
    assert(all.take(0) =~= Seq::<SignalData>::empty());
    while i < signals.len()
        invariant
            i <= signals.len(),
            all == signals.deep_view(),
            r.deep_view() == match type_filter {
                Some(kind) => of_kind(all, kind@, i as int),
                None => all.take(i as int),
            },
        decreases signals.len() - i,
    {
        let s = &signals[i];
        assert(all[i as int] == s.deep_view());
        let keep = match type_filter {
            Some(kind) => str_eq(s.r_type.as_str(), kind),
            None => true,
        };
        if keep {
            let ghost before = r.deep_view();
            r.push(s);
            assert(r.deep_view() =~= before.push(s.deep_view()));
            assert(all.take(i + 1) =~= all.take(i as int).push(s.deep_view()));
        }
        i += 1;
    }
    assert(all.take(i as int) =~= all);
    r
}

/// What a signal that changes the project tells of the change.
#[derive(Debug, Clone, PartialEq)]
pub enum ProjectChange {
    Added { gem: Option<String>, version: Option<String> },
    Removed { gem: Option<String> },
    Undone { target_type: Option<String>, gem: Option<String> },
    Bootstrapped { ruby_version: Option<String> },
    /// A signal of another kind, with its kind.
    Other { kind: String },
}

/// The mathematical model of a [`ProjectChange`].
pub enum ProjectChangeData {
    Added { gem: Option<Seq<char>>, version: Option<Seq<char>> },
    Removed { gem: Option<Seq<char>> },
    Undone { target_type: Option<Seq<char>>, gem: Option<Seq<char>> },
    Bootstrapped { ruby_version: Option<Seq<char>> },
    Other { kind: Seq<char> },
}

impl DeepView for ProjectChange {
    type V = ProjectChangeData;

    open spec fn deep_view(&self) -> ProjectChangeData {
        match self {
            ProjectChange::Added { gem, version } => ProjectChangeData::Added {
                gem: gem.deep_view(),
                version: version.deep_view(),
            },
            ProjectChange::Removed { gem } => ProjectChangeData::Removed { gem: gem.deep_view() },
            ProjectChange::Undone { target_type, gem } => ProjectChangeData::Undone {
                target_type: target_type.deep_view(),
                gem: gem.deep_view(),
            },
            ProjectChange::Bootstrapped { ruby_version } => ProjectChangeData::Bootstrapped {
                ruby_version: ruby_version.deep_view(),
            },
            ProjectChange::Other { kind } => ProjectChangeData::Other { kind: kind@ },
        }
    }
}

/// What the signal `s` tells of a change of the project.
pub open spec fn change_of(s: SignalData) -> ProjectChangeData {
    if s.kind == "add"@ {
        ProjectChangeData::Added {
            gem: s.payload.str_field("gem"@),
            version: s.payload.str_field("version"@),
        }
    } else if s.kind == "remove"@ {
        ProjectChangeData::Removed { gem: s.payload.str_field("gem"@) }
    } else if s.kind == "undo"@ {
        ProjectChangeData::Undone {
            target_type: s.payload.str_field("target_type"@),
            gem: s.payload.str_field("gem"@),
        }
    } else if s.kind == "bootstrap"@ {
        ProjectChangeData::Bootstrapped { ruby_version: s.payload.str_field("ruby_version"@) }
    } else {
        ProjectChangeData::Other { kind: s.kind }
    }
}

fn text_of(s: Option<&str>) -> (r: Option<String>)
    ensures
        r.deep_view() == match s {
            Some(t) => Some(t@),
            None => None,
        },
{
    match s {
        Some(t) => Some(String::from_str(t)),
        None => None,
    }
}

/// What a signal tells of a change of the project.
pub fn describe_change(s: &Signal) -> (r: ProjectChange)
    ensures
        r.deep_view() == change_of(s.deep_view()),
{
    let kind = s.r_type.as_str();
    if str_eq(kind, "add") {
        ProjectChange::Added {
            gem: text_of(s.payload.get_str("gem")),
            version: text_of(s.payload.get_str("version")),
        }
    } else if str_eq(kind, "remove") {
        ProjectChange::Removed { gem: text_of(s.payload.get_str("gem")) }
    } else if str_eq(kind, "undo") {
        ProjectChange::Undone {
            target_type: text_of(s.payload.get_str("target_type")),
            gem: text_of(s.payload.get_str("gem")),
        }
    } else if str_eq(kind, "bootstrap") {
        ProjectChange::Bootstrapped { ruby_version: text_of(s.payload.get_str("ruby_version")) }
    } else {
        ProjectChange::Other { kind: String::from_str(kind) }
    }
}

} // verus!
