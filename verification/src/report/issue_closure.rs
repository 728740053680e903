//! The issues opened and closed in each repository, as a table.

use crate::report::repo_info::{repo_views, RepoInfo, RepoInfoView};
use crate::report::ReportData;
use crate::text::{decimal, decimal_string, join, joined, push_decimal, signed_decimal, texts};
use vstd::prelude::*;
use vstd::string::*;

verus! {

/// The first line of the table.
pub open spec fn closures_heading() -> Seq<char> {
    "Organization,Repo,Opened,Closed,Delta,Time Period\n"@
}

/// The fields of the line of one repository: what was opened, what was
/// closed, by how much the open issues grew, and the period.
pub open spec fn closures_fields(info: RepoInfoView) -> Seq<Seq<char>> {
    seq![
        info.org,
        info.repo,
        decimal(info.num_opened),
        decimal(info.num_closed),
        signed_decimal(info.num_opened - info.num_closed),
        info.start + "<>"@ + info.end,
    ]
}

/// The line of one repository: its fields with commas between them.
pub open spec fn closures_line(info: RepoInfoView) -> Seq<char> {
    joined(closures_fields(info), ","@) + "\n"@
}

/// The lines of the repositories, one after another.
pub open spec fn closures_lines(infos: Seq<RepoInfoView>) -> Seq<char>
    decreases infos.len(),
{
    if infos.len() == 0 {
        Seq::empty()
    } else {
        closures_lines(infos.drop_last()) + closures_line(infos.last())
    }
}

fn delta_text(opened: u64, closed: u64) -> (text: String)
    ensures
        text@ == signed_decimal(opened - closed),
{
    let mut text = String::new();
    if opened >= closed {
        push_decimal(&mut text, opened - closed);
    } else {
        text.push('-');
        push_decimal(&mut text, closed - opened);
        assert(text@ =~= signed_decimal(opened - closed));
    }
    text
}

fn period_text(start: &str, end: &str) -> (text: String)
    ensures
        text@ == start@ + "<>"@ + end@,
{
    let mut text = start.to_owned();
    text.append("<>");
    text.append(end);
    text
}

fn push_line(out: &mut String, info: &RepoInfo)
    ensures
        final(out)@ == old(out)@ + closures_line(info@),
{
    let mut fields: Vec<String> = Vec::new();
    fields.push(info.org.clone());
    fields.push(info.repo.clone());
    fields.push(decimal_string(info.num_opened));
    fields.push(decimal_string(info.num_closed));
    fields.push(delta_text(info.num_opened, info.num_closed));
    fields.push(period_text(info.start.as_str(), info.end.as_str()));
    assert(texts(fields@) =~= closures_fields(info@));
    let line = join(&fields, ",");
    out.append(line.as_str());
    out.append("\n");
    assert(out@ =~= old(out)@ + closures_line(info@));
}

/// Writes the table of issue closures: a heading, then one line for each
/// repository, in the order in which the repositories are kept.
pub fn write_issue_closures(data: &ReportData) -> (text: String)
    ensures
        text@ == closures_heading() + closures_lines(data.repo_infos@),
{
    let ghost all = data.repo_infos@;
    let mut text = "Organization,Repo,Opened,Closed,Delta,Time Period\n".to_owned();
    let mut i: usize = 0;
    assert(all.take(0) =~= Seq::empty());
    assert(text@ =~= closures_heading() + closures_lines(all.take(0)));
    while i < data.repo_infos.repos.len()
        invariant
            i <= data.repo_infos.repos.len(),
            all == data.repo_infos@,
            text@ == closures_heading() + closures_lines(all.take(i as int)),
        decreases data.repo_infos.repos.len() - i,
    {
        proof {
            assert(all.take(i + 1).drop_last() == all.take(i as int));
            assert(all.take(i + 1).last() == data.repo_infos.repos[i as int]@);
        }
        push_line(&mut text, &data.repo_infos.repos[i]);
        i += 1;
    }
    assert(all.take(i as int) == all);
    text
}

} // verus!
