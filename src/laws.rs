//! Properties of the fold over a history.

use vstd::prelude::*;
use crate::calendar::CalendarDate;
use crate::hours::snapshot_nanos;
use crate::report::{round_hundredths, run, step, trim_newlines, CommitRecord, Progress, SessionModel};

verus! {

/// The counter that the tracked file of `rec` records (meaningful when it parses).
pub open spec fn recorded_nanos(rec: CommitRecord) -> int {
    snapshot_nanos(rec.snapshot->Some_0@)->Ok_0
}

/// Whether `rec` predates the tracked file and carries a message.
pub open spec fn is_untracked_note(rec: CommitRecord) -> bool {
    rec.snapshot is None && trim_newlines(rec.message@).len() > 0
}

/// The sum of the hours of the sessions, in hundredths.
pub open spec fn total_hundredths(bs: Seq<SessionModel>) -> int
    decreases bs.len(),
{
    if bs.len() == 0 {
        0
    } else {
        total_hundredths(bs.drop_last()) + bs.last().hundredths
    }
}

/// Whether, among the first `i` commits, some commit with a message comes after the
/// last tracked one.
pub open spec fn note_since_tracked(recs: Seq<CommitRecord>, i: int) -> bool {
    exists|j: int|
        0 <= j < i && is_untracked_note(#[trigger] recs[j]) && forall|m: int|
            j < m < i ==> (#[trigger] recs[m]).snapshot is None
}

/// A history whose counter only rises: every tracked commit records a positive counter
/// above all earlier ones, and a commit with a message lies between it and the tracked
/// commit before it.
pub open spec fn steadily_rising(recs: Seq<CommitRecord>) -> bool {
    &&& forall|i: int|
        0 <= i < recs.len() && (#[trigger] recs[i]).snapshot is Some ==> {
            &&& snapshot_nanos(recs[i].snapshot->Some_0@) is Ok
            &&& recorded_nanos(recs[i]) > 0
            &&& note_since_tracked(recs, i)
        }
    &&& forall|i: int, j: int|
        0 <= i < j < recs.len() && (#[trigger] recs[i]).snapshot is Some && (#[trigger] recs[
            j]).snapshot is Some ==> recorded_nanos(recs[i]) < recorded_nanos(recs[j])
}

/// The counter of the last tracked commit of `recs`, or zero when there is none.
pub open spec fn last_recorded(recs: Seq<CommitRecord>) -> int
    decreases recs.len(),
{
    if recs.len() == 0 {
        0
    } else if recs.last().snapshot is Some {
        recorded_nanos(recs.last())
    } else {
        last_recorded(recs.drop_last())
    }
}

proof fn lemma_round_close(d: int)
    requires
        d > 0,
    ensures
        -5_000_000 <= round_hundredths(d) * 10_000_000 - d <= 5_000_000,
{
    let q = (d + 5_000_000) / 10_000_000;
    let r = (d + 5_000_000) % 10_000_000;
    assert(d + 5_000_000 == q * 10_000_000 + r && 0 <= r < 10_000_000);
}

proof fn lemma_rising_prefix(recs: Seq<CommitRecord>)
    requires
        recs.len() > 0,
        steadily_rising(recs),
    ensures
        steadily_rising(recs.drop_last()),
{
    let p = recs.drop_last();
    assert forall|i: int| 0 <= i < p.len() && (#[trigger] p[i]).snapshot is Some implies note_since_tracked(p, i) by {
        assert(recs[i] == p[i]);
        assert(note_since_tracked(recs, i));
        let j = choose|j: int|
            0 <= j < i && is_untracked_note(#[trigger] recs[j]) && forall|m: int|
                j < m < i ==> (#[trigger] recs[m]).snapshot is None;
        assert(p[j] == recs[j]);
        assert forall|m: int| j < m < i implies (#[trigger] p[m]).snapshot is None by {
            assert(p[m] == recs[m]);
        }
    }
}

/// What holds of the state after a steadily rising history `recs`.
pub open spec fn rising_facts(recs: Seq<CommitRecord>, st: Progress) -> bool {
    &&& -5_000_000 * st.blocks.len() <= total_hundredths(st.blocks) * 10_000_000 - st.total
        <= 5_000_000 * st.blocks.len()
    &&& st.total == last_recorded(recs)
    &&& last_recorded(recs) == 0 || exists|j: int|
        0 <= j < recs.len() && (#[trigger] recs[j]).snapshot is Some && recorded_nanos(recs[j])
            == last_recorded(recs)
    &&& note_since_tracked(recs, recs.len() as int) ==> st.pending.len() > 0
}

proof fn lemma_last_recorded_below(recs: Seq<CommitRecord>)
    requires
        recs.len() > 0,
        steadily_rising(recs),
        recs.last().snapshot is Some,
        last_recorded(recs.drop_last()) == 0 || exists|j: int|
            0 <= j < recs.len() - 1 && (#[trigger] recs.drop_last()[j]).snapshot is Some
                && recorded_nanos(recs.drop_last()[j]) == last_recorded(recs.drop_last()),
    ensures
        last_recorded(recs.drop_last()) < recorded_nanos(recs.last()),
{
    let p = recs.drop_last();
    let n = recs.len() - 1;
    assert(recs[n] == recs.last());
    if last_recorded(p) != 0 {
        let j = choose|j: int|
            0 <= j < recs.len() - 1 && (#[trigger] p[j]).snapshot is Some && recorded_nanos(p[j])
                == last_recorded(p);
        assert(p[j] == recs[j]);
    }
}

proof fn lemma_closing_step(st: Progress, rec: CommitRecord, date: Option<CalendarDate>, i: int)
    requires
        rec.snapshot is Some,
        snapshot_nanos(rec.snapshot->Some_0@) is Ok,
        recorded_nanos(rec) > st.total,
        st.pending.len() > 0,
        step(st, rec, date, i) is Ok,
    ensures
        ({
            let fin = step(st, rec, date, i)->Ok_0;
            &&& fin.total == recorded_nanos(rec)
            &&& fin.blocks.len() == st.blocks.len() + 1
            &&& total_hundredths(fin.blocks) == total_hundredths(st.blocks) + round_hundredths(
                recorded_nanos(rec) - st.total,
            )
        }),
{
    reveal(step);
    let fin = step(st, rec, date, i)->Ok_0;
    assert(fin.blocks.drop_last() =~= st.blocks);
}

proof fn lemma_note_before_tracked(recs: Seq<CommitRecord>)
    requires
        recs.len() > 0,
        steadily_rising(recs),
        recs.last().snapshot is Some,
    ensures
        note_since_tracked(recs.drop_last(), recs.len() - 1),
        !note_since_tracked(recs, recs.len() as int),
{
    let p = recs.drop_last();
    let n = recs.len() - 1;
    assert(recs[n] == recs.last());
    assert(note_since_tracked(recs, n));
    let j = choose|j: int|
        0 <= j < n && is_untracked_note(#[trigger] recs[j]) && forall|m: int|
            j < m < n ==> (#[trigger] recs[m]).snapshot is None;
    assert(p[j] == recs[j]);
    assert forall|m: int| j < m < n implies (#[trigger] p[m]).snapshot is None by {
        assert(p[m] == recs[m]);
    }
    if note_since_tracked(recs, recs.len() as int) {
        let k = choose|k: int|
            0 <= k < recs.len() && is_untracked_note(#[trigger] recs[k]) && forall|m: int|
                k < m < recs.len() ==> (#[trigger] recs[m]).snapshot is None;
        assert(k != n);
        assert(recs[n].snapshot is None);
    }
}

#[verifier::rlimit(40)]
proof fn lemma_rising_tracked(recs: Seq<CommitRecord>, dates: Seq<Option<CalendarDate>>)
    requires
        recs.len() > 0,
        dates.len() == recs.len(),
        steadily_rising(recs),
        recs.last().snapshot is Some,
        run(recs, dates) is Ok,
        run(recs.drop_last(), dates.take(recs.len() - 1)) is Ok,
        rising_facts(recs.drop_last(), run(recs.drop_last(), dates.take(recs.len() - 1))->Ok_0),
    ensures
        rising_facts(recs, run(recs, dates)->Ok_0),
{
    let p = recs.drop_last();
    let st = run(p, dates.take(recs.len() - 1))->Ok_0;
    let n = recs.len() - 1;
    let rec = recs.last();
    assert(recs[n] == rec);
    let h = recorded_nanos(rec);
    lemma_note_before_tracked(recs);
    lemma_last_recorded_below(recs);
    lemma_round_close(h - st.total);
    assert(run(recs, dates) == step(st, rec, dates[n], n));
    lemma_closing_step(st, rec, dates[n], n);
    assert(recs[n].snapshot is Some);
}

#[verifier::rlimit(40)]
proof fn lemma_rising_untracked(recs: Seq<CommitRecord>, dates: Seq<Option<CalendarDate>>)
    requires
        recs.len() > 0,
        dates.len() == recs.len(),
        recs.last().snapshot is None,
        run(recs, dates) is Ok,
        run(recs.drop_last(), dates.take(recs.len() - 1)) is Ok,
        rising_facts(recs.drop_last(), run(recs.drop_last(), dates.take(recs.len() - 1))->Ok_0),
    ensures
        rising_facts(recs, run(recs, dates)->Ok_0),
{
    let p = recs.drop_last();
    let n = recs.len() - 1;
    assert(recs[n] == recs.last());
    reveal(step);
    if note_since_tracked(recs, recs.len() as int) && !is_untracked_note(recs.last()) {
        let j = choose|j: int|
            0 <= j < recs.len() && is_untracked_note(#[trigger] recs[j]) && forall|m: int|
                j < m < recs.len() ==> (#[trigger] recs[m]).snapshot is None;
        assert(j != n);
        assert(p[j] == recs[j]);
        assert forall|m: int| j < m < n implies (#[trigger] p[m]).snapshot is None by {
            assert(p[m] == recs[m]);
        }
        assert(note_since_tracked(p, p.len() as int));
    }
    if last_recorded(p) != 0 {
        let j = choose|j: int|
            0 <= j < p.len() && (#[trigger] p[j]).snapshot is Some && recorded_nanos(p[j])
                == last_recorded(p);
        assert(p[j] == recs[j]);
    }
}

#[verifier::rlimit(40)]
proof fn lemma_rising_run(recs: Seq<CommitRecord>, dates: Seq<Option<CalendarDate>>)
    requires
        dates.len() == recs.len(),
        steadily_rising(recs),
        run(recs, dates) is Ok,
    ensures
        rising_facts(recs, run(recs, dates)->Ok_0),
    decreases recs.len(),
{
    if recs.len() > 0 {
        let p = recs.drop_last();
        let pd = dates.take(recs.len() - 1);
        lemma_rising_prefix(recs);
        lemma_rising_run(p, pd);
        if recs.last().snapshot is Some {
            lemma_rising_tracked(recs, dates);
        } else {
            lemma_rising_untracked(recs, dates);
        }
    } else {
        assert(run(recs, dates)->Ok_0.blocks.len() == 0);
    }
}

/// In a history whose counter only rises, the sessions' hours add up to the final
/// total, each within half a hundredth of an hour of rounding.
pub proof fn lemma_rising_sessions_sum_to_total(
    recs: Seq<CommitRecord>,
    dates: Seq<Option<CalendarDate>>,
)
    requires
        dates.len() == recs.len(),
        steadily_rising(recs),
        run(recs, dates) is Ok,
    ensures
        ({
            let st = run(recs, dates)->Ok_0;
            -5_000_000 * st.blocks.len() <= total_hundredths(st.blocks) * 10_000_000 - st.total
                <= 5_000_000 * st.blocks.len()
        }),
{
    lemma_rising_run(recs, dates);
}

proof fn lemma_quiet_step(st: Progress, rec: CommitRecord, date: Option<CalendarDate>, i: int)
    requires
        rec.snapshot is Some,
        snapshot_nanos(rec.snapshot->Some_0@) is Ok,
        recorded_nanos(rec) <= st.total,
        trim_newlines(rec.message@).len() == 0,
    ensures
        step(st, rec, date, i) == Ok::<Progress, crate::report::ReportError>(
            (Progress { total: recorded_nanos(rec), ..st }),
        ),
{
    reveal(step);
}

/// A commit whose counter does not rise and whose message is empty neither keeps a
/// message nor closes a session: only the total takes its counter.
#[verifier::rlimit(40)]
pub proof fn lemma_quiet_commit_changes_nothing(
    recs: Seq<CommitRecord>,
    dates: Seq<Option<CalendarDate>>,
    rec: CommitRecord,
    date: Option<CalendarDate>,
)
    requires
        dates.len() == recs.len(),
        run(recs, dates) is Ok,
        rec.snapshot is Some,
        snapshot_nanos(rec.snapshot->Some_0@) is Ok,
        recorded_nanos(rec) <= run(recs, dates)->Ok_0.total,
        trim_newlines(rec.message@).len() == 0,
    ensures
        run(recs.push(rec), dates.push(date)) == Ok::<Progress, crate::report::ReportError>(
            (Progress { total: recorded_nanos(rec), ..run(recs, dates)->Ok_0 }),
        ),
{
    assert(recs.push(rec).drop_last() =~= recs);
    assert(dates.push(date).take(recs.len() as int) =~= dates);
    lemma_quiet_step(run(recs, dates)->Ok_0, rec, date, recs.len() as int);
}

} // verus!
