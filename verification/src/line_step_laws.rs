//! What a run over files does about each of them, event by event.
use crate::fix::{ChangeType, FixScope, FoundIssue};
use crate::format_run::{
    FormatFileAction, FormatFileEvent, FormatFileStep, FormatRun, FormatStage,
};
use crate::line_run::{FileAction, FileEvent, FileStage, FileStep, LineRun};
use crate::merge::LineRange;
use crate::verdict::FileVerdict;
use vstd::prelude::*;

verus! {

/// How often a verdict occurs.
pub open spec fn tally(verdicts: Seq<FileVerdict>, verdict: FileVerdict) -> nat
    decreases verdicts.len(),
{
    if verdicts.len() == 0 {
        0
    } else {
        tally(verdicts.drop_last(), verdict) + (if verdicts[verdicts.len() - 1] == verdict {
            1nat
        } else {
            0nat
        })
    }
}

/// As many positions are listed as files changed, and as many files are counted as were
/// skipped.
pub proof fn verdicts_are_tallied(verdicts: Seq<FileVerdict>)
    ensures
        crate::verdict::changed(verdicts).len() == tally(verdicts, FileVerdict::Changed),
        crate::verdict::skipped(verdicts) == tally(verdicts, FileVerdict::Skipped),
        tally(verdicts, FileVerdict::Changed) <= verdicts.len(),
        tally(verdicts, FileVerdict::Skipped) <= verdicts.len(),
    decreases verdicts.len(),
{
    if verdicts.len() > 0 {
        verdicts_are_tallied(verdicts.drop_last());
    }
}

/// The positions of the files that changed, and of no others, in order.
pub open spec fn names_the_changed(files: Seq<usize>, verdicts: Seq<FileVerdict>) -> bool {
    &&& forall|k: int, l: int|
        0 <= k < l < files.len() ==> (#[trigger] files[k]) < (#[trigger] files[l])
    &&& forall|i: usize| #[trigger] files.contains(i) <==> i < verdicts.len() && verdicts[i as int]
        == FileVerdict::Changed
}

pub proof fn lemma_names_the_changed(files: Seq<usize>, verdicts: Seq<FileVerdict>)
    requires
        verdicts.len() <= usize::MAX,
        crate::verdict::positions(files) == crate::verdict::changed(verdicts),
    ensures
        names_the_changed(files, verdicts),
        files.len() == tally(verdicts, FileVerdict::Changed),
{
    let changed = crate::verdict::changed(verdicts);
    crate::verdict::changed_lists_the_changed_files(verdicts);
    verdicts_are_tallied(verdicts);
    assert(crate::verdict::positions(files).len() == files.len());
    assert forall|k: int, l: int| 0 <= k < l < files.len() implies (#[trigger] files[k]) < (
    #[trigger] files[l]) by {
        assert(changed[k] == files[k] && changed[l] == files[l]);
    }
    assert forall|i: usize| #[trigger] files.contains(i) <==> i < verdicts.len()
        && verdicts[i as int] == FileVerdict::Changed by {
        if files.contains(i) {
            let k = choose|k: int| 0 <= k < files.len() && files[k] == i;
            assert(changed[k] == i as int);
            assert(changed.contains(i as int));
            assert(verdicts[i as int] == FileVerdict::Changed);
        }
        if i < verdicts.len() && verdicts[i as int] == FileVerdict::Changed {
            assert(changed.contains(i as int));
            let k = choose|k: int| 0 <= k < changed.len() && changed[k] == i as int;
            assert(files[k] == i);
        }
    }
}

/// A run goes through its files in turn: a new file is read at once, to be fixed as a whole,
/// and of another the lines are asked for. Behind the last file the run is over.
pub proof fn files_are_taken_in_turn(run: LineRun, action: FileAction)
    requires
        crate::line_run::begins_file(run, action),
    ensures
        run.verdicts@.len() >= run.files@.len() ==> run.stage is Over && action is Finish,
        run.verdicts@.len() < run.files@.len() && run.files@[run.verdicts@.len() as int]
            == ChangeType::Added ==> run.stage == FileStage::Contents(FixScope::WholeFile)
            && action == FileAction::Read(run.verdicts@.len() as usize),
        run.verdicts@.len() < run.files@.len() && run.files@[run.verdicts@.len() as int]
            == ChangeType::Modified ==> run.stage is Ranges && action == FileAction::GetRanges(
            run.verdicts@.len() as usize,
        ),
{
}

/// The run has a verdict on the file it was at, and turns to the next.
pub open spec fn gives_verdict(run: LineRun, verdict: FileVerdict, step: FileStep) -> bool {
    &&& step.run.verdicts@ == run.verdicts@.push(verdict)
    &&& crate::line_run::begins_file(step.run, step.action)
}

/// The run stays at its file, and does this next.
pub open spec fn stays(run: LineRun, action: FileAction, step: FileStep) -> bool {
    &&& step.run.verdicts@ == run.verdicts@
    &&& step.action == action
    &&& step.refused is None
}

/// Every event is about the file that the run is at; its other files and what was asked for
/// stay as they are.
pub proof fn runs_keep_to_their_plan(run: LineRun, event: FileEvent, step: FileStep)
    requires
        crate::line_run::follows(run, event, step),
    ensures
        step.run.files == run.files,
        step.run.plan == run.plan,
        step.run.verdicts@.len() <= run.verdicts@.len() + 1,
        step.run.verdicts@.take(run.verdicts@.len() as int) == run.verdicts@,
        step.refused is Some ==> event is Edited,
{
    assert(step.run.verdicts@.take(run.verdicts@.len() as int) == run.verdicts@);
}

/// A file without changed lines is skipped. Otherwise it is read, to be fixed in those lines.
pub proof fn files_without_lines_are_skipped(run: LineRun, ranges: Vec<LineRange>, step: FileStep)
    requires
        run.stage is Ranges,
        crate::line_run::follows(run, FileEvent::Ranges(ranges), step),
    ensures
        ranges@.len() == 0 ==> gives_verdict(run, FileVerdict::Skipped, step),
        ranges@.len() > 0 ==> stays(run, FileAction::Read(run.verdicts@.len() as usize), step)
            && step.run.stage == FileStage::Contents(FixScope::Lines(ranges)),
{
}

/// A file that is missing is skipped. Otherwise it is linted, in the mode and with the rules
/// that the run was given.
pub proof fn files_are_linted_as_planned(
    run: LineRun,
    scope: FixScope,
    contents: String,
    step: FileStep,
)
    requires
        run.stage == FileStage::Contents(scope),
    ensures
        crate::line_run::follows(run, FileEvent::Missing, step) ==> gives_verdict(
            run,
            FileVerdict::Skipped,
            step,
        ) && step.refused is None,
        crate::line_run::follows(run, FileEvent::Contents(contents), step) ==> stays(
            run,
            FileAction::Lint {
                file: run.verdicts@.len() as usize,
                mode: run.plan.mode,
                filtered: run.plan.filtered,
            },
            step,
        ) && step.run.stage == FileStage::Issues(scope, contents),
{
}

/// The edits of exactly the issues that are to be fixed are applied, and those that stay
/// within the ranges are kept in mind.
pub open spec fn applies_edits(
    run: LineRun,
    scope: FixScope,
    contents: String,
    issues: Seq<FoundIssue>,
    step: FileStep,
) -> bool {
    &&& step.run.verdicts@ == run.verdicts@
    &&& step.run.stage matches FileStage::Edits(same, text, within) && {
        &&& same == scope
        &&& text == contents
        &&& forall|i: usize| #[trigger]
            within@.contains(i) <==> i < issues.len() && crate::fix::is_fixed_within(
                scope,
                issues[i as int],
            )
    }
    &&& step.action matches FileAction::ApplyBatches { file, batches, safety } && {
        &&& file == run.verdicts@.len() as usize
        &&& safety == run.plan.safety
        &&& forall|i: usize| #[trigger]
            batches@.contains(i) <==> i < issues.len() && crate::fix::is_fixed(
                scope,
                issues[i as int],
            )
    }
}

/// A file none of whose issues is to be fixed is skipped. Otherwise the edits of exactly the
/// issues that are to be fixed are applied, as far as they are safe enough.
pub proof fn issues_to_fix_have_their_edits_applied(
    run: LineRun,
    scope: FixScope,
    contents: String,
    issues: Vec<FoundIssue>,
    step: FileStep,
)
    requires
        issues@.len() <= usize::MAX,
        run.stage == FileStage::Issues(scope, contents),
        crate::line_run::follows(run, FileEvent::Issues(issues), step),
    ensures
        step.refused is None,
        (forall|i: int|
            0 <= i < issues@.len() ==> !crate::fix::is_fixed(scope, #[trigger] issues@[i]))
            ==> gives_verdict(run, FileVerdict::Skipped, step),
        (exists|i: int|
            0 <= i < issues@.len() && crate::fix::is_fixed(scope, #[trigger] issues@[i]))
            ==> applies_edits(run, scope, contents, issues@, step),
{
    if crate::line_run::any_fixed(scope, issues@) {
        let within = step.run.stage->Edits_2@;
        let batches = step.action->ApplyBatches_batches@;
        let kept = |i: int| crate::fix::is_fixed_within(scope, issues@[i]);
        let fixed = |i: int| crate::fix::is_fixed(scope, issues@[i]);
        crate::select_laws::lists_name_what_was_chosen(within, issues@.len(), kept);
        crate::select_laws::lists_name_what_was_chosen(batches, issues@.len(), fixed);
        assert forall|i: usize| #[trigger] within.contains(i) <==> i < issues@.len()
            && crate::fix::is_fixed_within(scope, issues@[i as int]) by {
            assert(kept(i as int) == crate::fix::is_fixed_within(scope, issues@[i as int]));
        }
        assert forall|i: usize| #[trigger] batches.contains(i) <==> i < issues@.len()
            && crate::fix::is_fixed(scope, issues@[i as int]) by {
            assert(fixed(i as int) == crate::fix::is_fixed(scope, issues@[i as int]));
        }
    }
}

/// What the edits made of a file decides what is done: it is written, skipped, or, where it
/// is unclear which lines belong to the ranges, edited once more with those edits that stay
/// within them, if there are any and this was not done already.
pub proof fn edited_files_are_written_or_skipped(
    run: LineRun,
    scope: FixScope,
    contents: String,
    within: Vec<usize>,
    applied: Vec<bool>,
    content: String,
    step: FileStep,
)
    requires
        run.stage == FileStage::Edits(scope, contents, within),
        crate::line_run::follows(run, FileEvent::Edited { applied, content }, step),
    ensures
        ({
            let at = run.verdicts@.len() as usize;
            let result = crate::fix::fix_result(contents@, scope, applied@, content@);
            &&& result is Skip ==> gives_verdict(run, FileVerdict::Skipped, step)
                && step.refused is None
            &&& result is Refused ==> gives_verdict(run, FileVerdict::Skipped, step)
                && step.refused == Some(result->Refused_0)
            &&& result is Write ==> step.run.verdicts@ == run.verdicts@ && step.run.stage is Write
                && (step.action matches FileAction::Write { file, content: new } && file == at
                && new@ == result->Write_0) && step.refused is None
            &&& result is Unclear && within@.len() == 0 ==> gives_verdict(
                run,
                FileVerdict::Skipped,
                step,
            ) && step.refused is None
            &&& result is Unclear && within@.len() > 0 ==> stays(
                run,
                FileAction::ApplyBatches { file: at, batches: within, safety: run.plan.safety },
                step,
            ) && (step.run.stage matches FileStage::Edits(same, text, none) && same == scope
                && text == contents && none@.len() == 0)
        }),
{
}

/// A file counts as changed exactly if it was written.
pub proof fn written_files_count_as_changed(run: LineRun, ok: bool, step: FileStep)
    requires
        run.stage is Write,
        crate::line_run::follows(run, FileEvent::Written(ok), step),
    ensures
        ok ==> gives_verdict(run, FileVerdict::Changed, step),
        !ok ==> gives_verdict(run, FileVerdict::Left, step),
        step.refused is None,
{
}

/// What a run waits for at each stage, and nothing else, is an answer.
pub proof fn runs_wait_for_what_they_asked(run: LineRun, event: FileEvent)
    ensures
        run.stage is Ranges ==> (crate::line_run::answers(run, event) <==> event is Ranges),
        run.stage is Contents ==> (crate::line_run::answers(run, event) <==> event is Missing
            || event is Contents),
        run.stage is Issues ==> (crate::line_run::answers(run, event) <==> event is Issues),
        run.stage is Edits ==> (crate::line_run::answers(run, event) <==> event is Edited),
        run.stage is Write ==> (crate::line_run::answers(run, event) <==> event is Written),
        run.stage is Over ==> !crate::line_run::answers(run, event),
{
}

/// A run of formatting goes through its files in turn, and is over behind the last.
pub proof fn formatted_files_are_taken_in_turn(run: FormatRun, action: FormatFileAction)
    requires
        crate::format_run::begins_format(run, action),
    ensures
        run.verdicts@.len() >= run.total ==> run.stage is Over && action is Finish,
        run.verdicts@.len() < run.total ==> run.stage is Ranges && action
            == FormatFileAction::GetRanges(run.verdicts@.len() as usize),
{
}

/// The run of formatting has a verdict on its file, and turns to the next.
pub open spec fn gives_format_verdict(
    run: FormatRun,
    verdict: FileVerdict,
    step: FormatFileStep,
) -> bool {
    &&& step.run.verdicts@ == run.verdicts@.push(verdict)
    &&& crate::format_run::begins_format(step.run, step.action)
}

/// A file is formatted in its changed lines, if it has any and is found, and then written if
/// that changed it. It counts as changed exactly if it was written, and as skipped exactly if
/// it has no changed lines or is not found.
pub proof fn files_are_formatted_in_their_lines(
    run: FormatRun,
    event: FormatFileEvent,
    step: FormatFileStep,
)
    requires
        crate::format_run::format_file_answers(run, event),
        crate::format_run::format_file_follows(run, event, step),
    ensures
        step.run.total == run.total,
        ({
            let at = run.verdicts@.len() as usize;
            &&& event matches FormatFileEvent::Ranges(ranges) ==> {
                &&& ranges@.len() == 0 ==> gives_format_verdict(run, FileVerdict::Skipped, step)
                &&& ranges@.len() > 0 ==> step.run.verdicts == run.verdicts && step.run.stage
                    == FormatStage::File(ranges) && step.action == FormatFileAction::Find(at)
            }
            &&& event is Missing ==> gives_format_verdict(run, FileVerdict::Skipped, step)
            &&& event is Found ==> step.run.verdicts == run.verdicts && step.run.stage is Formatting
                && step.action == (FormatFileAction::FormatLines {
                file: at,
                ranges: run.stage->File_0,
            })
            &&& event matches FormatFileEvent::Changed(content) ==> step.run.verdicts
                == run.verdicts && step.run.stage is Write && step.action
                == (FormatFileAction::Write { file: at, content })
            &&& event is Unchanged || event is FailedToParse || event is Failed
                ==> gives_format_verdict(run, FileVerdict::Left, step)
            &&& event matches FormatFileEvent::Written(ok) ==> gives_format_verdict(
                run,
                if ok {
                    FileVerdict::Changed
                } else {
                    FileVerdict::Left
                },
                step,
            )
        }),
{
}

/// What a run of formatting waits for at each stage, and nothing else, is an answer.
pub proof fn format_runs_wait_for_what_they_asked(run: FormatRun, event: FormatFileEvent)
    ensures
        run.stage is Ranges ==> (crate::format_run::format_file_answers(run, event) <==> event
            is Ranges),
        run.stage is File ==> (crate::format_run::format_file_answers(run, event) <==> event
            is Missing || event is Found),
        run.stage is Formatting ==> (crate::format_run::format_file_answers(run, event) <==> event
            is Changed || event is Unchanged || event is FailedToParse || event is Failed),
        run.stage is Write ==> (crate::format_run::format_file_answers(run, event) <==> event
            is Written),
        run.stage is Over ==> !crate::format_run::format_file_answers(run, event),
{
}

/// A run has at most as many verdicts as files, and is over exactly if it has as many.
pub proof fn runs_are_over_with_their_last_file(run: LineRun, formatting: FormatRun)
    ensures
        run.wf() <==> run.verdicts@.len() <= run.files@.len() && (run.stage is Over
            <==> run.verdicts@.len() == run.files@.len()),
        formatting.wf() <==> formatting.verdicts@.len() <= formatting.total && (
        formatting.stage is Over <==> formatting.verdicts@.len() == formatting.total),
{
}

} // verus!
