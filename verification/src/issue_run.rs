//! Keeping only the issues that lie in changed lines, one issue after the other.
use crate::commit::{change_of, CommitFile};
use crate::fix::{touches_any, ChangeType};
use crate::merge::LineRange;
use crate::path_key::PathKey;
use vstd::prelude::*;

verus! {

/// Where an issue is.
#[derive(Debug)]
pub struct Place {
    /// The path of the file in the workspace.
    pub path: PathKey,
    /// The first line of the issue.
    pub start_line: u32,
    /// The last line of the issue.
    pub end_line: u32,
}

/// Which lines count as changed.
#[derive(Debug)]
pub enum Changes {
    /// The staged lines.
    Staged,
    /// The lines that the last commit changed in its files at these positions.
    Commit(Vec<CommitFile>, Vec<usize>),
}

/// What a run waits for with respect to the issue it is at.
#[derive(Debug)]
pub enum IssueStage {
    /// Where the issue is.
    Place,
    /// The changed lines of the file that has the issue between these lines.
    Ranges(u32, u32),
    /// Nothing: all issues are done.
    Over,
}

/// What a run wants to be done. Issues are named by their position.
#[derive(Debug, Clone, Copy, PartialEq, Eq, Structural)]
pub enum IssueAction {
    /// Find the place of the issue.
    Locate(usize),
    /// Find the changed lines of the file that has the issue.
    GetRanges(usize),
    /// Nothing more.
    Finish,
}

/// How an action went.
#[derive(Debug)]
pub enum IssueEvent {
    /// The issue has no place in a file of the workspace.
    Nowhere,
    /// The issue is here.
    Located(Place),
    /// The changed lines.
    Ranges(Vec<LineRange>),
    /// The changed lines could not be found out.
    NoRanges,
}

/// A run over several issues.
#[derive(Debug)]
pub struct IssueRun {
    /// How many issues there are.
    pub total: usize,
    /// Which lines count as changed.
    pub changes: Changes,
    /// Whether each issue that is done is kept. The run is at the issue behind them.
    pub kept: Vec<bool>,
    /// What the run waits for.
    pub stage: IssueStage,
}

/// What follows an event.
#[derive(Debug)]
pub struct IssueStep {
    /// The run after the event.
    pub run: IssueRun,
    /// What it wants to be done.
    pub action: IssueAction,
}

/// All lines of the file count as changed, for the last commit added it.
pub open spec fn is_new(changes: Changes, path: Seq<Seq<u8>>) -> bool {
    match changes {
        Changes::Staged => false,
        Changes::Commit(files, kept) => crate::commit::change_at(files@, kept@, path)
            == ChangeType::Added,
    }
}

/// The run turns to the issue behind those that are done, if there is one.
pub open spec fn begins_issue(run: IssueRun, action: IssueAction) -> bool {
    if run.kept@.len() >= run.total {
        run.stage is Over && action is Finish
    } else {
        run.stage is Place && action == IssueAction::Locate(run.kept@.len() as usize)
    }
}

/// The issue is done, and the run turns to the next.
pub open spec fn issue_done(run: IssueRun, keep: bool, step: IssueStep) -> bool {
    &&& step.run.total == run.total
    &&& step.run.changes == run.changes
    &&& step.run.kept@ == run.kept@.push(keep)
    &&& begins_issue(step.run, step.action)
}

/// The event is what the run waits for.
pub open spec fn issue_answers(run: IssueRun, event: IssueEvent) -> bool {
    match run.stage {
        IssueStage::Place => event is Nowhere || event is Located,
        IssueStage::Ranges(_, _) => event is Ranges || event is NoRanges,
        IssueStage::Over => false,
    }
}

/// What follows an event that the run waits for. An issue in a new file is kept, and one in
/// another file if it touches the changed lines.
pub open spec fn issue_follows(run: IssueRun, event: IssueEvent, step: IssueStep) -> bool {
    match (run.stage, event) {
        (IssueStage::Place, IssueEvent::Nowhere) => issue_done(run, false, step),
        (IssueStage::Place, IssueEvent::Located(place)) => if is_new(run.changes, place.path@) {
            issue_done(run, true, step)
        } else {
            &&& step.run == (IssueRun {
                stage: IssueStage::Ranges(place.start_line, place.end_line),
                ..run
            })
            &&& step.action == IssueAction::GetRanges(run.kept@.len() as usize)
        },
        (IssueStage::Ranges(start_line, end_line), IssueEvent::Ranges(ranges)) => issue_done(
            run,
            crate::fix::touched(ranges@, start_line, end_line),
            step,
        ),
        (IssueStage::Ranges(_, _), IssueEvent::NoRanges) => issue_done(run, false, step),
        _ => false,
    }
}

/// The positions name files.
pub open spec fn changes_wf(changes: Changes) -> bool {
    match changes {
        Changes::Staged => true,
        Changes::Commit(files, kept) => forall|k: int|
            0 <= k < kept@.len() ==> (#[trigger] kept@[k]) < files@.len(),
    }
}

impl IssueRun {
    /// The run is at one of its issues, or is over.
    pub open spec fn wf(self) -> bool {
        &&& self.kept@.len() <= self.total
        &&& self.stage is Over <==> self.kept@.len() == self.total
        &&& changes_wf(self.changes)
    }

    /// A run over so many issues.
    pub fn start(total: usize, changes: Changes) -> (r: IssueStep)
        requires
            changes_wf(changes),
        ensures
            r.run.wf(),
            r.run.total == total,
            r.run.changes == changes,
            r.run.kept@.len() == 0,
            begins_issue(r.run, r.action),
    {
        turn_to_issue(total, changes, Vec::new())
    }

    /// Goes on after an event. Nothing follows an event that the run does not wait for.
    pub fn step(self, event: IssueEvent) -> (r: Option<IssueStep>)
        requires
            self.wf(),
        ensures
            r is Some <==> issue_answers(self, event),
            r matches Some(step) ==> step.run.wf() && issue_follows(self, event, step),
    {
        let IssueRun { total, changes, kept, stage } = self;
        match (stage, event) {
            (IssueStage::Place, IssueEvent::Nowhere) => {
                Some(finish_issue(total, changes, kept, false))
            },
            (IssueStage::Place, IssueEvent::Located(place)) => {
                let new = match &changes {
                    Changes::Staged => false,
                    Changes::Commit(files, positions) => {
                        change_of(files, positions, &place.path) == ChangeType::Added
                    },
                };
                if new {
                    Some(finish_issue(total, changes, kept, true))
                } else {
                    let action = IssueAction::GetRanges(kept.len());
                    let stage = IssueStage::Ranges(place.start_line, place.end_line);
                    Some(IssueStep { run: IssueRun { total, changes, kept, stage }, action })
                }
            },
            (IssueStage::Ranges(start_line, end_line), IssueEvent::Ranges(ranges)) => {
                let keep = touches_any(ranges.as_slice(), start_line, end_line);
                Some(finish_issue(total, changes, kept, keep))
            },
            (IssueStage::Ranges(_, _), IssueEvent::NoRanges) => {
                Some(finish_issue(total, changes, kept, false))
            },
            _ => None,
        }
    }
}

/// Turns to the issue behind those that are done.
fn turn_to_issue(total: usize, changes: Changes, kept: Vec<bool>) -> (r: IssueStep)
    requires
        kept@.len() <= total,
        changes_wf(changes),
    ensures
        r.run.wf(),
        r.run.total == total,
        r.run.changes == changes,
        r.run.kept == kept,
        begins_issue(r.run, r.action),
{
    let at = kept.len();
    let (stage, action) = if at >= total {
        (IssueStage::Over, IssueAction::Finish)
    } else {
        (IssueStage::Place, IssueAction::Locate(at))
    };
    IssueStep { run: IssueRun { total, changes, kept, stage }, action }
}

/// Notes whether the issue is kept, and turns to the next.
fn finish_issue(total: usize, changes: Changes, kept: Vec<bool>, keep: bool) -> (r: IssueStep)
    requires
        kept@.len() < total,
        changes_wf(changes),
    ensures
        r.run.wf(),
        r.run.total == total,
        r.run.changes == changes,
        r.run.kept@ == kept@.push(keep),
        begins_issue(r.run, r.action),
{
    let mut kept = kept;
    kept.push(keep);
    turn_to_issue(total, changes, kept)
}

/// The positions of the issues that are kept.
pub fn kept_issues(kept: &Vec<bool>) -> (r: Vec<usize>)
    ensures
        crate::fix::lists_positions(r@, kept@.len(), |i: int| kept@[i]),
{
    let mut r: Vec<usize> = Vec::new();
    let mut i: usize = 0;
    let ghost chosen = |i: int| kept@[i];
    while i < kept.len()
        invariant
            i <= kept@.len(),
            chosen == |i: int| kept@[i],
            crate::fix::lists_positions(r@, i as nat, chosen),
        decreases kept@.len() - i,
    {
        assert(chosen(i as int) == kept@[i as int]);
        proof {
            crate::fix::lemma_lists_next(r@, i, chosen);
        }
        if kept[i] {
            r.push(i);
        }
        i += 1;
    }
    r
}

/// A bound on the events that the run can still take.
pub open spec fn issue_events_left(run: IssueRun) -> int {
    2 * (run.total - run.kept@.len()) - (if run.stage is Ranges {
        1int
    } else {
        0int
    })
}

/// Every run comes to an end: it takes at most two events for each issue.
pub proof fn issue_runs_come_to_an_end(run: IssueRun, event: IssueEvent, step: IssueStep)
    requires
        run.wf(),
        step.run.wf(),
        issue_follows(run, event, step),
    ensures
        0 <= issue_events_left(step.run) < issue_events_left(run) <= 2 * run.total,
{
}

} // verus!
