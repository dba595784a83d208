//! The printed form of a report.

use vstd::prelude::*;
use vstd::string::*;
use crate::calendar::date_text;
use crate::numeral::{decimal_string, decimal_text};
use crate::report::{Report, ReportModel, SessionBlock, SessionModel};

verus! {

/// The lines of the messages of a session, each indented and led by a dash.
pub open spec fn messages_text(ms: Seq<Seq<char>>) -> Seq<char>
    decreases ms.len(),
{
    if ms.len() == 0 {
        Seq::empty()
    } else {
        messages_text(ms.drop_last()) + "\t- "@ + ms.last() + "\n"@
    }
}

/// A session: a blank line, its hours and date, then its messages.
pub open spec fn block_text(b: SessionModel) -> Seq<char> {
    "\n"@ + decimal_text(b.hundredths, 2) + (if b.up_until {
        " hours worked up until "@
    } else {
        " hours worked on "@
    }) + date_text(b.date) + ":\n"@ + messages_text(b.messages)
}

pub open spec fn blocks_text(bs: Seq<SessionModel>) -> Seq<char>
    decreases bs.len(),
{
    if bs.len() == 0 {
        Seq::empty()
    } else {
        blocks_text(bs.drop_last()) + block_text(bs.last())
    }
}

/// The note printed when some history predates the tracked file.
pub open spec fn prehistory_note() -> Seq<char> {
    "Note: Work on this repository began before hour tracking was implemented per-push.\n\t\t\tThat history has been consolidated into the initial entry.\n"@
}

/// The whole report for `name` on the repository `repo`, compiled on `compiled_on`.
pub open spec fn report_text(
    name: Seq<char>,
    repo: Seq<char>,
    compiled_on: Seq<char>,
    r: ReportModel,
) -> Seq<char> {
    name + "'s Volunteer Hours for "@ + repo + "\n"@ + "Compiled by hack.place() on "@
        + compiled_on + "\n"@ + blocks_text(r.blocks) + "\nTotal hours: "@ + decimal_text(
        r.total,
        9,
    ) + "\n"@ + if r.has_prehistory {
        prehistory_note()
    } else {
        Seq::empty()
    }
}

#[verifier::rlimit(40)]
fn write_block(out: &mut String, b: &SessionBlock)
    ensures
        final(out)@ == old(out)@ + block_text(b@),
{
    out.append("\n");
    let h = decimal_string(b.hundredths, 2);
    out.append(h.as_str());
    if b.up_until {
        out.append(" hours worked up until ");
    } else {
        out.append(" hours worked on ");
    }
    let d = b.date.to_text();
    out.append(d.as_str());
    out.append(":\n");
    let ghost head = out@;
    let mut i: usize = 0;
    while i < b.messages.len()
        invariant
            i <= b.messages.len(),
            out@ == head + messages_text(b@.messages.take(i as int)),
        decreases b.messages.len() - i,
    {
        assert(b@.messages.take(i + 1).drop_last() =~= b@.messages.take(i as int));
        out.append("\t- ");
        out.append(b.messages[i].as_str());
        out.append("\n");
        i = i + 1;
        assert(out@ =~= head + messages_text(b@.messages.take(i as int)));
    }
    assert(b@.messages.take(i as int) =~= b@.messages);
    assert(final(out)@ =~= old(out)@ + block_text(b@));
}

/// The printed report for `name` on the repository `repo`, compiled on `compiled_on`.
#[verifier::rlimit(40)]
pub fn render_report(name: &str, repo: &str, compiled_on: &str, report: &Report) -> (s: String)
    ensures
        s@ == report_text(name@, repo@, compiled_on@, report@),
{
    let mut s = String::new();
    s.append(name);
    s.append("'s Volunteer Hours for ");
    s.append(repo);
    s.append("\n");
    s.append("Compiled by hack.place() on ");
    s.append(compiled_on);
    s.append("\n");
    let ghost head = s@;
    let mut i: usize = 0;
    while i < report.blocks.len()
        invariant
            i <= report.blocks.len(),
            s@ == head + blocks_text(report@.blocks.take(i as int)),
        decreases report.blocks.len() - i,
    {
        assert(report@.blocks.take(i + 1).drop_last() =~= report@.blocks.take(i as int));
        write_block(&mut s, &report.blocks[i]);
        i = i + 1;
        assert(s@ =~= head + blocks_text(report@.blocks.take(i as int)));
    }
    assert(report@.blocks.take(i as int) =~= report@.blocks);
    s.append("\nTotal hours: ");
    let t = decimal_string(report.total_nanos, 9);
    s.append(t.as_str());
    s.append("\n");
    if report.has_prehistory {
        s.append(
            "Note: Work on this repository began before hour tracking was implemented per-push.\n\t\t\tThat history has been consolidated into the initial entry.\n",
        );
    }
    assert(s@ =~= report_text(name@, repo@, compiled_on@, report@));
    s
}

} // verus!
