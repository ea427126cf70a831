//! The shapes exchanged with the issue and work-log collaborators: the
//! issue record the route layer echoes, and the work-log entry built from
//! a finished tracker for submission.
use vstd::prelude::*;

use crate::dur::NANOS_PER_SEC;
use crate::tracker::{InfoModel, TrackerInformation};
use crate::wall::{date_chars, date_string, time_chars, time_string};

verus! {

/// The summary fields of one issue.
#[derive(Debug)]
pub struct IssueFields {
    pub summary: String,
}

/// One issue as the issue collaborator reports it.
#[derive(Debug)]
pub struct JiraIssue {
    pub id: String,
    pub key: String,
    pub fields: IssueFields,
}

/// Spec-level image of a work-log entry.
pub ghost struct WorklogModel {
    pub issue_key: Seq<char>,
    pub time_spent_seconds: u64,
    pub start_date: Seq<char>,
    pub start_time: Seq<char>,
    pub description: Option<Seq<char>>,
    pub author_account_id: Seq<char>,
}

/// One finished tracker, shaped for the work-log collaborator: whole
/// seconds spent, and the start stamp split into local date and time.
#[derive(Debug)]
pub struct WorklogEntry {
    pub issue_key: String,
    pub time_spent_seconds: u64,
    pub start_date: String,
    pub start_time: String,
    pub description: Option<String>,
    pub author_account_id: String,
}

impl View for WorklogEntry {
    type V = WorklogModel;

    open spec fn view(&self) -> WorklogModel {
        WorklogModel {
            issue_key: self.issue_key@,
            time_spent_seconds: self.time_spent_seconds,
            start_date: self.start_date@,
            start_time: self.start_time@,
            description: match self.description {
                Some(ref s) => Some(s@),
                None => None,
            },
            author_account_id: self.author_account_id@,
        }
    }
}

/// What a tracker's record becomes as a work-log entry.
pub open spec fn worklog_of(m: InfoModel, account: Seq<char>) -> WorklogModel {
    WorklogModel {
        issue_key: m.key,
        time_spent_seconds: (m.duration_nanos / NANOS_PER_SEC) as u64,
        start_date: date_chars(m.start_time),
        start_time: time_chars(m.start_time),
        description: m.description,
        author_account_id: account,
    }
}

/// Builds the work-log entry for one tracker.
pub fn worklog_entry(t: &TrackerInformation, account_id: &str) -> (r: WorklogEntry)
    requires
        t.start_time.wf(),
    ensures
        r@ == worklog_of(t@, account_id@),
{
    WorklogEntry {
        issue_key: t.key.clone(),
        time_spent_seconds: t.duration.as_secs(),
        start_date: date_string(&t.start_time),
        start_time: time_string(&t.start_time),
        description: match &t.description {
            Some(s) => Some(s.clone()),
            None => None,
        },
        author_account_id: account_id.to_owned(),
    }
}

/// Only trackers with at least one minute of reported time are submitted.
pub open spec fn eligible(m: InfoModel) -> bool {
    m.duration_nanos >= 60 * NANOS_PER_SEC
}

/// The records of a list of trackers.
pub open spec fn info_views(v: Seq<TrackerInformation>) -> Seq<InfoModel> {
    Seq::new(v.len(), |i: int| v[i]@)
}

/// Builds the work-log entries for every tracker with at least a minute of
/// reported time, preserving order.
pub fn worklogs_to_submit(trackers: &Vec<TrackerInformation>, account_id: &str) -> (r: Vec<
    WorklogEntry,
>)
    requires
        forall|i: int| 0 <= i < trackers@.len() ==> (#[trigger] trackers@[i]).start_time.wf(),
    ensures
        r@.len() == info_views(trackers@).filter(|m: InfoModel| eligible(m)).len(),
        forall|i: int|
            0 <= i < r@.len() ==> (#[trigger] r@[i])@ == worklog_of(
                info_views(trackers@).filter(|m: InfoModel| eligible(m))[i],
                account_id@,
            ),
{
    let ghost views = info_views(trackers@);
    let ghost pred = |m: InfoModel| eligible(m);
    let n = trackers.len();
    let mut out: Vec<WorklogEntry> = Vec::new();
    let mut i: usize = 0;
    proof {
        reveal(Seq::filter);
        assert(views.subrange(0, 0) =~= Seq::<InfoModel>::empty());
        assert(views.subrange(0, 0).filter(pred) =~= Seq::<InfoModel>::empty());
    }
    while i < n
        invariant
            i <= n,
            n == trackers@.len(),
            views == info_views(trackers@),
            forall|q: int| 0 <= q < trackers@.len() ==> (#[trigger] trackers@[q]).start_time.wf(),
            out@.len() == views.subrange(0, i as int).filter(pred).len(),
            forall|q: int|
                0 <= q < out@.len() ==> (#[trigger] out@[q])@ == worklog_of(
                    views.subrange(0, i as int).filter(pred)[q],
                    account_id@,
                ),
            pred == (|m: InfoModel| eligible(m)),
        decreases n - i,
    {
        let ghost pre = views.subrange(0, i as int);
        proof {
            reveal(Seq::filter);
            assert(views.subrange(0, i + 1 as int).drop_last() =~= pre);
            assert(views.subrange(0, i + 1 as int).last() == views[i as int]);
            assert(views[i as int] == trackers@[i as int]@);
        }
        let keep = trackers[i].duration.nanos / NANOS_PER_SEC >= 60;
        proof {
            assert(keep == pred(views[i as int])) by {
                assert(trackers@[i as int]@.duration_nanos == trackers@[i as int].duration.nanos);
                assert(eligible(views[i as int]) == (views[i as int].duration_nanos >= 60
                    * NANOS_PER_SEC));
                assert((trackers@[i as int].duration.nanos / NANOS_PER_SEC >= 60) == (
                trackers@[i as int].duration.nanos >= 60 * NANOS_PER_SEC)) by {
                    vstd::arithmetic::div_mod::lemma_fundamental_div_mod(
                        trackers@[i as int].duration.nanos as int,
                        NANOS_PER_SEC as int,
                    );
                }
            }
        }
        if keep {
            let entry = worklog_entry(&trackers[i], account_id);
            out.push(entry);
        }
        i += 1;
    }
    proof {
        assert(views.subrange(0, n as int) =~= views);
    }
    out
}

} // verus!
