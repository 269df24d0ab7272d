//! What holds of every log that is only appended to.

use vstd::prelude::*;
use crate::signals::{
    appended,
    decoded_line,
    first_bad,
    parsed_log,
    records_of,
    single_line,
    well_terminated,
    SignalData,
    StoreError,
};
use crate::text::{lines, lines_scan, strip_cr};

verus! {

proof fn lemma_scan_shift(a: Seq<char>, b: Seq<char>, start: int, i: int)
    requires
        0 <= start <= i <= b.len(),
    ensures
        lines_scan(a + b, a.len() + start, a.len() + i) == lines_scan(b, start, i),
    decreases b.len() - i,
{
    let s = a + b;
    if i >= b.len() {
        if start < b.len() {
            assert(s.subrange(a.len() + start, s.len() as int) =~= b.subrange(
                start,
                b.len() as int,
            ));
        }
    } else {
        assert(s[a.len() + i] == b[i]);
        if b[i] == '\n' {
            assert(s.subrange(a.len() + start, a.len() + i) =~= b.subrange(start, i));
            lemma_scan_shift(a, b, i + 1, i + 1);
        } else {
            lemma_scan_shift(a, b, start, i + 1);
        }
    }
}

proof fn lemma_scan_prefix(a: Seq<char>, b: Seq<char>, start: int, i: int)
    requires
        0 <= start <= i <= a.len(),
        well_terminated(a),
        i < a.len() || start == a.len(),
    ensures
        lines_scan(a + b, start, i) == lines_scan(a, start, i) + lines_scan(b, 0, 0),
    decreases a.len() - i,
{
    let s = a + b;
    if i == a.len() {
        lemma_scan_shift(a, b, 0, 0);
        assert(lines_scan(a, start, i) =~= Seq::<Seq<char>>::empty());
        assert(lines_scan(a, start, i) + lines_scan(b, 0, 0) =~= lines_scan(b, 0, 0));
    } else {
        assert(s[i] == a[i]);
        if a[i] == '\n' {
            assert(s.subrange(start, i) =~= a.subrange(start, i));
            lemma_scan_prefix(a, b, i + 1, i + 1);
            assert(seq![strip_cr(a.subrange(start, i))] + (lines_scan(a, i + 1, i + 1)
                + lines_scan(b, 0, 0)) =~= seq![strip_cr(a.subrange(start, i))] + lines_scan(
                a,
                i + 1,
                i + 1,
            ) + lines_scan(b, 0, 0));
        } else {
            if i + 1 == a.len() {
                assert(a.last() == a[i]);
            }
            lemma_scan_prefix(a, b, start, i + 1);
        }
    }
}

proof fn lemma_scan_one(line: Seq<char>, i: int)
    requires
        single_line(line),
        0 <= i <= line.len(),
    ensures
        lines_scan(line + seq!['\n'], 0, i) == seq![line],
    decreases line.len() - i,
{
    let s = line + seq!['\n'];
    if i == line.len() {
        assert(s[i] == '\n');
        assert(s.subrange(0, i) =~= line);
        assert(lines_scan(s, i + 1, i + 1) =~= Seq::<Seq<char>>::empty());
        assert(seq![strip_cr(line)] + Seq::<Seq<char>>::empty() =~= seq![line]);
    } else {
        assert(s[i] == line[i]);
        lemma_scan_one(line, i + 1);
    }
}

/// A log that is empty or ends with a line feed, with one more line appended,
/// has the lines that it had and then the new line.
pub proof fn lemma_lines_appended(log: Seq<char>, line: Seq<char>)
    requires
        well_terminated(log),
        single_line(line),
    ensures
        lines(appended(log, line)) == lines(log).push(line),
        well_terminated(appended(log, line)),
{
    let tail = line + seq!['\n'];
    assert(appended(log, line) =~= log + tail);
    lemma_scan_prefix(log, tail, 0, 0);
    lemma_scan_one(line, 0);
    assert(lines(log) + seq![line] =~= lines(log).push(line));
}

proof fn lemma_first_bad(ls: Seq<Seq<char>>, i: int)
    requires
        0 <= i <= ls.len(),
    ensures
        i <= first_bad(ls, i) <= ls.len(),
        forall|k: int| i <= k < first_bad(ls, i) ==> decoded_line(#[trigger] ls[k]) is Some,
        first_bad(ls, i) < ls.len() ==> decoded_line(ls[first_bad(ls, i)]) is None,
    decreases ls.len() - i,
{
    if i < ls.len() && decoded_line(ls[i]) is Some {
        lemma_first_bad(ls, i + 1);
    }
}

/// Reading fails at the first line that holds no record, with that line's number,
/// and succeeds where each line holds one.
pub proof fn law_first_bad_line_fails(content: Seq<char>)
    ensures
        match parsed_log(content) {
            Ok(records) => {
                &&& records.len() == lines(content).len()
                &&& forall|k: int|
                    0 <= k < records.len() ==> decoded_line(#[trigger] lines(content)[k]) == Some(
                        records[k],
                    )
            },
            Err(e) => exists|n: int|
                {
                    &&& 0 <= n < lines(content).len()
                    &&& decoded_line(#[trigger] lines(content)[n]) is None
                    &&& forall|k: int| 0 <= k < n ==> decoded_line(#[trigger] lines(content)[k]) is Some
                    &&& e == StoreError::ParseFailure { line: (n + 1) as usize }
                },
        },
{
    let ls = lines(content);
    lemma_first_bad(ls, 0);
    let bad = first_bad(ls, 0);
    if bad < ls.len() {
        assert(decoded_line(ls[bad]) is None);
    }
}

/// Round trip: where a log reads as `prior`, the log with one more line appended
/// reads as `prior` and then the signal that the line holds. An append gives
/// such a line together with that signal.
pub proof fn law_append_then_read(
    log: Seq<char>,
    prior: Seq<SignalData>,
    s: SignalData,
    line: Seq<char>,
)
    requires
        well_terminated(log),
        parsed_log(log) == Ok::<Seq<SignalData>, StoreError>(prior),
        single_line(line),
        decoded_line(line) == Some(s),
    ensures
        parsed_log(appended(log, line)) == Ok::<Seq<SignalData>, StoreError>(prior.push(s)),
        well_terminated(appended(log, line)),
{
    lemma_lines_appended(log, line);
    let ls = lines(log);
    let more = ls.push(line);
    lemma_first_bad(ls, 0);
    lemma_first_bad(more, 0);
    let bad = first_bad(more, 0);
    if bad < more.len() {
        if bad < ls.len() {
            assert(more[bad] == ls[bad]);
            assert(decoded_line(ls[bad]) is Some);
        }
        assert(false);
    }
    assert(records_of(more) =~= records_of(ls).push(s));
}

/// The content of a log to which the given lines were appended, one after the
/// other, from the empty log.
pub open spec fn log_of(ls: Seq<Seq<char>>) -> Seq<char>
    decreases ls.len(),
{
    if ls.len() == 0 {
        Seq::empty()
    } else {
        appended(log_of(ls.drop_last()), ls.last())
    }
}

/// Order: a log to which the lines of some appends were appended, one after the
/// other, reads as the signals of those appends in that order.
pub proof fn law_order_preserved(signals: Seq<SignalData>, ls: Seq<Seq<char>>)
    requires
        ls.len() == signals.len(),
        forall|k: int|
            0 <= k < ls.len() ==> single_line(#[trigger] ls[k]) && decoded_line(ls[k]) == Some(
                signals[k],
            ),
    ensures
        parsed_log(log_of(ls)) == Ok::<Seq<SignalData>, StoreError>(signals),
        well_terminated(log_of(ls)),
    decreases ls.len(),
{
    if ls.len() == 0 {
        assert(lines(log_of(ls)) =~= Seq::<Seq<char>>::empty());
        assert(records_of(lines(log_of(ls))) =~= signals);
    } else {
        let n = ls.len() - 1;
        assert forall|k: int| 0 <= k < ls.drop_last().len() implies single_line(
            #[trigger] ls.drop_last()[k],
        ) && decoded_line(ls.drop_last()[k]) == Some(signals.drop_last()[k]) by {
            assert(ls.drop_last()[k] == ls[k]);
        }
        law_order_preserved(signals.drop_last(), ls.drop_last());
        assert(ls.last() == ls[n]);
        law_append_then_read(log_of(ls.drop_last()), signals.drop_last(), signals[n], ls[n]);
        assert(signals.drop_last().push(signals[n]) =~= signals);
    }
}

} // verus!
