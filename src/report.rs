//! Folding a commit history into dated work sessions.

use vstd::prelude::*;
use crate::calendar::{date_of_timestamp, timestamp_date, CalendarDate};
use crate::hours::{lemma_snapshot_bounded, snapshot_hours, snapshot_nanos, HoursError, MAX_NANOS};
use crate::text::{chars_of, string_of};

verus! {

/// One commit of the history, as the walk hands it over.
pub struct CommitRecord {
    /// The commit message; an absent message is empty.
    pub message: String,
    /// Seconds since the Unix epoch.
    pub timestamp: i64,
    /// The tracked file's contents at this commit, if the file exists there.
    pub snapshot: Option<String>,
}

/// One reported work session.
pub struct SessionBlock {
    /// The hours of the session, rounded to hundredths of an hour.
    pub hundredths: i64,
    pub date: CalendarDate,
    /// Whether the session also holds the history from before hours were tracked.
    pub up_until: bool,
    /// The messages of the session, oldest first.
    pub messages: Vec<String>,
}

/// The sessions of a history and its final total.
pub struct Report {
    pub blocks: Vec<SessionBlock>,
    /// The last recorded counter, in billionths of an hour.
    pub total_nanos: i64,
    /// Whether some commits came before the tracked file existed.
    pub has_prehistory: bool,
}

/// Why a history could not be reported.
#[derive(PartialEq, Eq, Structural, Clone, Copy, Debug)]
pub enum ReportError {
    /// The tracked file of the commit at `index` does not hold an hours value.
    MalformedHours { index: usize, reason: HoursError },
    /// The commit at `index` closes a session but its timestamp has no calendar date.
    DateOutOfRange { index: usize },
}

pub struct SessionModel {
    pub hundredths: int,
    pub date: CalendarDate,
    pub up_until: bool,
    pub messages: Seq<Seq<char>>,
}

pub struct ReportModel {
    pub blocks: Seq<SessionModel>,
    pub total: int,
    pub has_prehistory: bool,
}

/// The running state of the fold over a history.
pub struct Progress {
    pub total: int,
    pub pending: Seq<Seq<char>>,
    pub has_prehistory: bool,
    pub prehistory_reported: bool,
    pub blocks: Seq<SessionModel>,
}

impl View for SessionBlock {
    type V = SessionModel;

    open spec fn view(&self) -> SessionModel {
        SessionModel {
            hundredths: self.hundredths as int,
            date: self.date,
            up_until: self.up_until,
            messages: self.messages@.map_values(|m: String| m@),
        }
    }
}

impl View for Report {
    type V = ReportModel;

    open spec fn view(&self) -> ReportModel {
        ReportModel {
            blocks: self.blocks@.map_values(|b: SessionBlock| b@),
            total: self.total_nanos as int,
            has_prehistory: self.has_prehistory,
        }
    }
}

/// `s` without its trailing newlines.
pub open spec fn trim_newlines(s: Seq<char>) -> Seq<char>
    decreases s.len(),
{
    if s.len() > 0 && s.last() == '\n' {
        trim_newlines(s.drop_last())
    } else {
        s
    }
}

/// A billionths-of-an-hour amount rounded to hundredths, halves away from zero.
pub open spec fn round_hundredths(nanos: int) -> int {
    if nanos >= 0 {
        (nanos + 5_000_000) / 10_000_000
    } else {
        -((-nanos + 5_000_000) / 10_000_000)
    }
}

pub open spec fn initial_progress() -> Progress {
    Progress {
        total: 0,
        pending: Seq::empty(),
        has_prehistory: false,
        prehistory_reported: false,
        blocks: Seq::empty(),
    }
}

/// `pending` with `msg` added, unless `msg` is empty.
pub open spec fn with_message(pending: Seq<Seq<char>>, msg: Seq<char>) -> Seq<Seq<char>> {
    if msg.len() > 0 {
        pending.push(msg)
    } else {
        pending
    }
}

/// The state after the commit `rec`, found at `index`, whose timestamp falls on `date`.
#[verifier::opaque]
pub open spec fn step(st: Progress, rec: CommitRecord, date: Option<CalendarDate>, index: int) -> Result<
    Progress,
    ReportError,
> {
    let msg = trim_newlines(rec.message@);
    match rec.snapshot {
        None => Ok(Progress { pending: with_message(st.pending, msg), has_prehistory: true, ..st }),
        Some(content) => match snapshot_nanos(content@) {
            Err(e) => Err(ReportError::MalformedHours { index: index as usize, reason: e }),
            Ok(h) => {
                let delta = h - st.total;
                if delta <= 0 {
                    Ok(Progress { total: h, pending: with_message(st.pending, msg), ..st })
                } else if st.pending.len() == 0 {
                    Ok(Progress { total: h, ..st })
                } else {
                    match date {
                        None => Err(ReportError::DateOutOfRange { index: index as usize }),
                        Some(d) => Ok(
                            Progress {
                                total: h,
                                pending: Seq::empty(),
                                prehistory_reported: st.prehistory_reported || st.has_prehistory,
                                blocks: st.blocks.push(
                                    SessionModel {
                                        hundredths: round_hundredths(delta),
                                        date: d,
                                        up_until: st.has_prehistory && !st.prehistory_reported,
                                        messages: st.pending,
                                    },
                                ),
                                ..st
                            },
                        ),
                    }
                }
            },
        },
    }
}

/// The state after the commits `recs`, oldest first, whose dates are `dates`.
pub open spec fn run(recs: Seq<CommitRecord>, dates: Seq<Option<CalendarDate>>) -> Result<
    Progress,
    ReportError,
>
    decreases recs.len(),
{
    if recs.len() == 0 {
        Ok(initial_progress())
    } else {
        match run(recs.drop_last(), dates.take(recs.len() - 1)) {
            Err(e) => Err(e),
            Ok(st) => step(st, recs.last(), dates[recs.len() - 1], recs.len() - 1),
        }
    }
}

/// The report of the commits `recs`, oldest first, whose dates are `dates`.
pub open spec fn report_of(recs: Seq<CommitRecord>, dates: Seq<Option<CalendarDate>>) -> Result<
    ReportModel,
    ReportError,
> {
    match run(recs, dates) {
        Err(e) => Err(e),
        Ok(st) => Ok(
            ReportModel { blocks: st.blocks, total: st.total, has_prehistory: st.has_prehistory },
        ),
    }
}

/// The dates of the commits' timestamps.
pub open spec fn commit_dates(recs: Seq<CommitRecord>) -> Seq<Option<CalendarDate>> {
    recs.map_values(|r: CommitRecord| date_of_timestamp(r.timestamp as int))
}

/// The message without its trailing newlines.
pub fn trimmed_message(m: &String) -> (r: String)
    ensures
        r@ == trim_newlines(m@),
{
    let v = chars_of(m.as_str());
    let mut n: usize = v.len();
    assert(v@ =~= v@.take(v.len() as int));
    while n > 0 && v[n - 1] == '\n'
        invariant
            n <= v.len(),
            trim_newlines(v@.take(n as int)) == trim_newlines(v@),
        decreases n,
    {
        assert(v@.take(n as int).drop_last() =~= v@.take(n - 1));
        n = n - 1;
    }
    let mut t: Vec<char> = Vec::new();
    let mut i: usize = 0;
    while i < n
        invariant
            i <= n <= v.len(),
            t@ == v@.take(i as int),
        decreases n - i,
    {
        t.push(v[i]);
        i = i + 1;
        assert(t@ =~= v@.take(i as int));
    }
    string_of(&t)
}

/// A billionths-of-an-hour amount rounded to hundredths, halves away from zero.
pub fn to_hundredths(nanos: i64) -> (r: i64)
    requires
        -2 * MAX_NANOS <= nanos <= 2 * MAX_NANOS,
    ensures
        r == round_hundredths(nanos as int),
{
    if nanos >= 0 {
        (nanos + 5_000_000) / 10_000_000
    } else {
        -((-nanos + 5_000_000) / 10_000_000)
    }
}

/// The running state of the fold, as the executable code holds it.
struct Fold {
    total: i64,
    pending: Vec<String>,
    has_prehistory: bool,
    reported: bool,
    blocks: Vec<SessionBlock>,
}

impl View for Fold {
    type V = Progress;

    closed spec fn view(&self) -> Progress {
        Progress {
            total: self.total as int,
            pending: self.pending@.map_values(|m: String| m@),
            has_prehistory: self.has_prehistory,
            prehistory_reported: self.reported,
            blocks: self.blocks@.map_values(|b: SessionBlock| b@),
        }
    }
}

/// Adds a message to the pending ones, unless it is empty.
fn add_message(pending: &mut Vec<String>, msg: String)
    ensures
        final(pending)@.map_values(|m: String| m@) == with_message(
            old(pending)@.map_values(|m: String| m@),
            msg@,
        ),
{
    if !msg.as_str().is_empty() {
        pending.push(msg);
    }
    assert(final(pending)@.map_values(|m: String| m@) =~= with_message(
        old(pending)@.map_values(|m: String| m@),
        msg@,
    ));
}

/// Applies the commit `rec`, found at `index` and dated `date`, to the state `st`.
#[verifier::rlimit(40)]
fn advance(st: &mut Fold, rec: &CommitRecord, date: Option<CalendarDate>, index: usize) -> (r:
    Result<(), ReportError>)
    requires
        -MAX_NANOS <= old(st).total <= MAX_NANOS,
    ensures
        match r {
            Ok(()) => step(old(st)@, *rec, date, index as int) == Ok::<Progress, ReportError>(
                final(st)@,
            ),
            Err(e) => step(old(st)@, *rec, date, index as int) == Err::<Progress, ReportError>(
                e,
            ),
        },
        -MAX_NANOS <= final(st).total <= MAX_NANOS,
{
    reveal(step);
    let msg = trimmed_message(&rec.message);
    match &rec.snapshot {
        None => {
            add_message(&mut st.pending, msg);
            st.has_prehistory = true;
            Ok(())
        },
        Some(content) => {
            proof {
                lemma_snapshot_bounded(content@);
            }
            match snapshot_hours(content.as_str()) {
                Err(e) => Err(ReportError::MalformedHours { index: index, reason: e }),
                Ok(h) => {
                    let delta = h - st.total;
                    if delta <= 0 {
                        add_message(&mut st.pending, msg);
                        st.total = h;
                        Ok(())
                    } else if st.pending.len() == 0 {
                        st.total = h;
                        Ok(())
                    } else {
                        match date {
                            None => Err(ReportError::DateOutOfRange { index: index }),
                            Some(d) => {
                                let ghost before = st.blocks@.map_values(|b: SessionBlock| b@);
                                let mut messages: Vec<String> = Vec::new();
                                std::mem::swap(&mut messages, &mut st.pending);
                                let block = SessionBlock {
                                    hundredths: to_hundredths(delta),
                                    date: d,
                                    up_until: st.has_prehistory && !st.reported,
                                    messages: messages,
                                };
                                st.blocks.push(block);
                                st.reported = st.reported || st.has_prehistory;
                                st.total = h;
                                assert(st.blocks@.map_values(|b: SessionBlock| b@) =~= before.push(
                                    block@,
                                ));
                                assert(st.pending@.map_values(|m: String| m@) =~= Seq::<
                                    Seq<char>,
                                >::empty());
                                Ok(())
                            },
                        }
                    }
                },
            }
        },
    }
}

proof fn lemma_run_next(recs: Seq<CommitRecord>, dates: Seq<Option<CalendarDate>>, i: int)
    requires
        0 <= i < recs.len(),
        dates.len() == recs.len(),
    ensures
        run(recs.take(i + 1), dates.take(i + 1)) == match run(recs.take(i), dates.take(i)) {
            Err(e) => Err(e),
            Ok(st) => step(st, recs[i], dates[i], i),
        },
{
    assert(recs.take(i + 1).drop_last() =~= recs.take(i));
    assert(dates.take(i + 1).take(i) =~= dates.take(i));
    assert(recs.take(i + 1).last() == recs[i]);
}

proof fn lemma_run_err_persists(
    recs: Seq<CommitRecord>,
    dates: Seq<Option<CalendarDate>>,
    i: int,
    n: int,
)
    requires
        0 <= i <= n <= recs.len(),
        dates.len() == recs.len(),
        run(recs.take(i), dates.take(i)) is Err,
    ensures
        run(recs.take(n), dates.take(n)) == run(recs.take(i), dates.take(i)),
    decreases n - i,
{
    if n > i {
        lemma_run_err_persists(recs, dates, i, n - 1);
        lemma_run_next(recs, dates, n - 1);
    }
}

/// Folds a history, oldest commit first, into its sessions and total, where `dates[i]`
/// is the calendar date of `records[i]`.
#[verifier::rlimit(40)]
pub fn build_report_dated(records: &Vec<CommitRecord>, dates: &Vec<Option<CalendarDate>>) -> (r:
    Result<Report, ReportError>)
    requires
        dates.len() == records.len(),
    ensures
        match r {
            Ok(rep) => report_of(records@, dates@) == Ok::<ReportModel, ReportError>(rep@),
            Err(e) => report_of(records@, dates@) == Err::<ReportModel, ReportError>(e),
        },
{
    let mut st = Fold {
        total: 0,
        pending: Vec::new(),
        has_prehistory: false,
        reported: false,
        blocks: Vec::new(),
    };
    assert(st@.pending =~= Seq::<Seq<char>>::empty());
    assert(st@.blocks =~= Seq::<SessionModel>::empty());
    assert(records@.take(0) =~= Seq::<CommitRecord>::empty());
    let mut i: usize = 0;
    while i < records.len()
        invariant
            i <= records.len(),
            dates.len() == records.len(),
            -MAX_NANOS <= st.total <= MAX_NANOS,
            run(records@.take(i as int), dates@.take(i as int)) == Ok::<Progress, ReportError>(
                st@,
            ),
        decreases records.len() - i,
    {
        proof {
            lemma_run_next(records@, dates@, i as int);
        }
        match advance(&mut st, &records[i], dates[i], i) {
            Err(e) => {
                proof {
                    lemma_run_err_persists(records@, dates@, i + 1, records.len() as int);
                    assert(records@.take(records.len() as int) =~= records@);
                    assert(dates@.take(records.len() as int) =~= dates@);
                }
                return Err(e);
            },
            Ok(()) => {},
        }
        i = i + 1;
    }
    assert(records@.take(i as int) =~= records@);
    assert(dates@.take(i as int) =~= dates@);
    Ok(Report { blocks: st.blocks, total_nanos: st.total, has_prehistory: st.has_prehistory })
}

/// Folds a history, oldest commit first, into its sessions and total. The date of a
/// session is the UTC date of the commit that closes it.
pub fn build_report(records: &Vec<CommitRecord>) -> (r: Result<Report, ReportError>)
    ensures
        match r {
            Ok(rep) => report_of(records@, commit_dates(records@)) == Ok::<
                ReportModel,
                ReportError,
            >(rep@),
            Err(e) => report_of(records@, commit_dates(records@)) == Err::<
                ReportModel,
                ReportError,
            >(e),
        },
{
    let mut dates: Vec<Option<CalendarDate>> = Vec::new();
    let mut i: usize = 0;
    while i < records.len()
        invariant
            i <= records.len(),
            dates@ == commit_dates(records@).take(i as int),
        decreases records.len() - i,
    {
        dates.push(timestamp_date(records[i].timestamp));
        i = i + 1;
        assert(dates@ =~= commit_dates(records@).take(i as int));
    }
    assert(dates@ =~= commit_dates(records@));
    build_report_dated(records, &dates)
}

} // verus!
