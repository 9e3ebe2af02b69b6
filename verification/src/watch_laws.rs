//! When a watch starts the analysis again, and what it does next, event by event.
use crate::analyze::AnalyzeCommand;
use crate::lint::Sources;
use crate::notice::Notice;
use crate::path_key::PathKey;
use crate::watch::{
    ChangeKind, ChangedPath, Target, WatchAction, WatchEvent, WatchFile, WatchState, WatchStep,
    WatchTarget, WatchedFile,
};
use vstd::prelude::*;

verus! {

/// The file with this name in the workspace.
pub open spec fn named(name: Seq<char>, label: Seq<char>) -> (Target, Seq<char>) {
    (Target::Named(name), label)
}

/// What is watched ends with the two files of Composer, and before them stands the baseline
/// if there is one.
pub proof fn composer_and_baseline_are_watched_last(has_config: bool, has_baseline: bool)
    ensures
        ({
            let list = crate::watch::watched(has_config, has_baseline);
            let n = list.len() as int;
            &&& n == (if has_config {
                1
            } else {
                8int
            }) + (if has_baseline {
                1
            } else {
                0int
            }) + 2
            &&& list[n - 2] == named("composer.json"@, "composer.json"@)
            &&& list[n - 1] == named("composer.lock"@, "composer.lock"@)
            &&& has_baseline ==> list[n - 3] == (Target::Baseline, "baseline file"@)
        }),
{
}

/// What is watched begins with the configuration file, if one was given, and otherwise with
/// every name that it can have.
pub proof fn configuration_files_are_watched_first(has_config: bool, has_baseline: bool)
    ensures
        ({
            let list = crate::watch::watched(has_config, has_baseline);
            let label = "configuration file"@;
            &&& has_config ==> list[0] == (Target::Config, label)
            &&& !has_config ==> list.take(8) == seq![
                named("mago.toml"@, label),
                named("mago.yaml"@, label),
                named("mago.yml"@, label),
                named("mago.json"@, label),
                named("mago.dist.toml"@, label),
                named("mago.dist.yaml"@, label),
                named("mago.dist.yml"@, label),
                named("mago.dist.json"@, label),
            ]
        }),
{
    let list = crate::watch::watched(has_config, has_baseline);
    let label = "configuration file"@;
    if !has_config {
        assert(list.take(8) == seq![
            named("mago.toml"@, label),
            named("mago.yaml"@, label),
            named("mago.yml"@, label),
            named("mago.json"@, label),
            named("mago.dist.toml"@, label),
            named("mago.dist.yaml"@, label),
            named("mago.dist.yml"@, label),
            named("mago.dist.json"@, label),
        ]);
    }
}

/// Each target of a list stands for its file and label.
pub proof fn targets_name_their_files(list: Seq<WatchTarget>)
    ensures
        crate::watch::targets(list).len() == list.len(),
        forall|i: int|
            0 <= i < list.len() ==> {
                let t = #[trigger] crate::watch::targets(list)[i];
                &&& t.1 == list[i].label@
                &&& list[i].file is Config ==> t.0 == Target::Config
                &&& list[i].file is Baseline ==> t.0 == Target::Baseline
                &&& list[i].file matches WatchFile::InWorkspace(name) ==> t.0 == Target::Named(name@)
            },
{
}

/// A change is about a watched file exactly if their canonical paths are the same, or, where
/// one of them has none, their paths as they were given.
pub proof fn changes_are_about_the_file_they_name(path: ChangedPath, file: WatchedFile)
    ensures
        path.canonical is Some && file.canonical is Some ==> (crate::watch::is_about(path, file)
            <==> path.canonical->Some_0@ == file.canonical->Some_0@),
        path.canonical is None || file.canonical is None ==> (crate::watch::is_about(path, file)
            <==> path.raw@ == file.raw@),
{
}

/// The changed path at `i` is the first about a watched file, and that at `k` the first file
/// that it is about.
pub open spec fn is_first_change(
    paths: Seq<ChangedPath>,
    files: Seq<WatchedFile>,
    i: int,
    k: int,
) -> bool {
    &&& 0 <= i < paths.len()
    &&& 0 <= k < files.len()
    &&& crate::watch::is_about(paths[i], files[k])
    &&& forall|l: int| 0 <= l < k ==> !crate::watch::is_about(paths[i], #[trigger] files[l])
    &&& forall|j: int, l: int|
        0 <= j < i && 0 <= l < files.len() ==> !#[trigger] crate::watch::is_about(
            paths[j],
            files[l],
        )
}

/// The reason to start again names the first changed path about a watched file, and the
/// label of that file. Where no path is about one, there is no reason.
pub proof fn reasons_name_the_first_change(
    paths: Seq<ChangedPath>,
    files: Seq<WatchedFile>,
    i: int,
    k: int,
)
    ensures
        is_first_change(paths, files, i, k) ==> crate::watch::reason(paths, files) == Some(
            files[k].label@ + " changed ("@ + paths[i].display@ + ")"@,
        ),
        (forall|j: int, l: int|
            0 <= j < paths.len() && 0 <= l < files.len() ==> !#[trigger] crate::watch::is_about(
                paths[j],
                files[l],
            )) ==> crate::watch::reason(paths, files) is None,
    decreases paths.len(),
{
    if paths.len() > 0 {
        crate::watch::lemma_first_file(paths[0], files);
        let first = crate::watch::first_file(paths[0], files);
        let rest = paths.skip(1);
        if is_first_change(paths, files, i, k) {
            if i == 0 {
                assert(first == k) by {
                    if first < k {
                        assert(!crate::watch::is_about(paths[0], files[first]));
                    }
                    if k < first {
                        assert(!crate::watch::is_about(paths[0], files[k]));
                    }
                }
            } else {
                if first < files.len() {
                    assert(!crate::watch::is_about(paths[0], files[first]));
                }
                assert forall|j: int, l: int|
                    0 <= j < i - 1 && 0 <= l < files.len() implies !#[trigger]
                crate::watch::is_about(rest[j], files[l]) by {
                    assert(!crate::watch::is_about(paths[j + 1], files[l]));
                }
                assert(rest[i - 1] == paths[i]);
                assert(is_first_change(rest, files, i - 1, k));
                reasons_name_the_first_change(rest, files, i - 1, k);
            }
        }
        if forall|j: int, l: int|
            0 <= j < paths.len() && 0 <= l < files.len() ==> !#[trigger] crate::watch::is_about(
                paths[j],
                files[l],
            ) {
            if first < files.len() {
                assert(!crate::watch::is_about(paths[0], files[first]));
            }
            assert forall|j: int, l: int|
                0 <= j < rest.len() && 0 <= l < files.len() implies !#[trigger]
            crate::watch::is_about(rest[j], files[l]) by {
                assert(!crate::watch::is_about(paths[j + 1], files[l]));
            }
            reasons_name_the_first_change(rest, files, i, k);
        }
    }
}

/// The analysis starts again when a watched file is created, modified or removed, for a reason
/// that does not depend on which of these it was, and at no other kind of change.
pub proof fn watched_files_start_the_analysis_again(
    paths: Seq<ChangedPath>,
    files: Seq<WatchedFile>,
    kind: ChangeKind,
)
    ensures
        kind is Create || kind is Modify || kind is Remove ==> crate::watch::restart_text(
            kind,
            paths,
            files,
        ) == crate::watch::reason(paths, files),
        kind is Other ==> crate::watch::restart_text(kind, paths, files) is None,
{
}

/// No directory is watched twice, and each at its first place.
pub proof fn directories_are_watched_once(dirs: Seq<PathKey>, chosen: Seq<usize>)
    requires
        dirs.len() <= usize::MAX,
        crate::fix::lists_positions(
            chosen,
            dirs.len(),
            |i: int| crate::watch::is_first_time(dirs, i),
        ),
    ensures
        forall|i: usize| #[trigger]
            chosen.contains(i) <==> i < dirs.len() && forall|j: int|
                0 <= j < i ==> (#[trigger] dirs[j])@ != dirs[i as int]@,
{
    let first = |i: int| crate::watch::is_first_time(dirs, i);
    crate::select_laws::lists_name_what_was_chosen(chosen, dirs.len(), first);
    assert forall|i: usize| #[trigger] chosen.contains(i) <==> i < dirs.len() && forall|j: int|
        0 <= j < i ==> (#[trigger] dirs[j])@ != dirs[i as int]@ by {
        assert(first(i as int) == crate::watch::is_first_time(dirs, i as int));
    }
}

/// A watch begins, and begins again after a restart, by loading the given files if any are
/// given, and the configured ones otherwise.
pub proof fn watches_begin_by_loading(command: AnalyzeCommand, step: WatchStep)
    ensures
        crate::watch::watch_begins(command, step) || crate::watch::watch_follows(
            command,
            WatchState::Reloading,
            WatchEvent::Reloaded,
            step,
        ) ==> step.state is Loading && step.action == (WatchAction::Load {
            sources: if command.path@.len() > 0 {
                Sources::Given
            } else {
                Sources::Configured
            },
            stubs: !command.no_stubs,
        }),
{
}

/// Loaded files are watched and then analyzed, and after each analysis it is checked whether
/// to start again before anything is waited for.
pub proof fn watched_files_are_analyzed(command: AnalyzeCommand, step: WatchStep)
    ensures
        crate::watch::watch_follows(command, WatchState::Loading, WatchEvent::Loaded, step)
            ==> step.state is Starting && step.action is WatchFiles,
        crate::watch::watch_follows(command, WatchState::Starting, WatchEvent::Watching, step)
            ==> step.state is Analyzing && step.action is Analyze,
        crate::watch::watch_follows(command, WatchState::Analyzing, WatchEvent::Analyzed, step)
            ==> step.state is Checking && step.action is CheckRestart,
        crate::watch::watch_follows(command, WatchState::Reanalyzing, WatchEvent::Analyzed, step)
            ==> step.state is Checking && step.action is CheckRestart,
        crate::watch::watch_follows(command, WatchState::Checking, WatchEvent::NoRestart, step)
            ==> step.state is Waiting && step.action is Wait,
{
}

/// A restart tells its reason, and pins the configuration file exactly if it was given.
pub proof fn restarts_tell_their_reason(
    command: AnalyzeCommand,
    reason: String,
    explicit: bool,
    step: WatchStep,
)
    requires
        crate::watch::watch_follows(
            command,
            WatchState::Checking,
            WatchEvent::Restart { reason, explicit },
            step,
        ),
    ensures
        step.state is Reloading,
        step.action matches WatchAction::Reload { notice, pinned } && notice@
            == "Restarting analysis: "@ + reason@ && pinned == explicit,
{
}

/// Files that changed are analyzed again, and their number is told. If none did, it is
/// checked once more whether to start again.
pub proof fn changed_files_are_analyzed_again(command: AnalyzeCommand, n: usize, step: WatchStep)
    requires
        crate::watch::watch_follows(command, WatchState::Waiting, WatchEvent::Changed(n), step),
    ensures
        n > 0 ==> step.state is Reanalyzing && step.action == WatchAction::Reanalyze(
            Notice::Reanalyzing(n),
        ),
        n == 0 ==> step.state is Checking && step.action is CheckRestart,
{
}

/// A watch waits for what it asked, and never ends.
pub proof fn watches_wait_for_what_they_asked(state: WatchState, event: WatchEvent)
    ensures
        ({
            let answers = crate::watch::watch_answers(state, event);
            &&& state is Loading ==> (answers <==> event is Loaded)
            &&& state is Starting ==> (answers <==> event is Watching)
            &&& state is Analyzing || state is Reanalyzing ==> (answers <==> event is Analyzed)
            &&& state is Checking ==> (answers <==> event is NoRestart || event is Restart)
            &&& state is Waiting ==> (answers <==> event is Changed)
            &&& state is Reloading ==> (answers <==> event is Reloaded)
        }),
{
}

} // verus!
