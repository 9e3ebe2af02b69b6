//! Watch mode of the analyze command: what is watched, what makes it start over, and which
//! steps it takes.
use crate::analyze::AnalyzeCommand;
use crate::lint::Sources;
use crate::notice::Notice;
use crate::path_key::PathKey;
use vstd::prelude::*;

verus! {

/// A file whose change makes the analysis start over.
#[derive(Debug)]
pub enum WatchFile {
    /// The configuration file in use.
    Config,
    /// The baseline file.
    Baseline,
    /// The file of this name in the workspace.
    InWorkspace(String),
}

/// A file to watch, and what it is called when it changes.
#[derive(Debug)]
pub struct WatchTarget {
    pub file: WatchFile,
    pub label: String,
}

/// What a file to watch is, with its name if it is in the workspace.
pub enum Target {
    Config,
    Baseline,
    Named(Seq<char>),
}

/// A file to watch and its label.
pub open spec fn target(t: WatchTarget) -> (Target, Seq<char>) {
    (
        match t.file {
            WatchFile::Config => Target::Config,
            WatchFile::Baseline => Target::Baseline,
            WatchFile::InWorkspace(name) => Target::Named(name@),
        },
        t.label@,
    )
}

/// Files to watch and their labels.
pub open spec fn targets(list: Seq<WatchTarget>) -> Seq<(Target, Seq<char>)> {
    list.map_values(|t: WatchTarget| target(t))
}

/// A file in the workspace that may hold the configuration.
pub open spec fn config_target(name: Seq<char>) -> (Target, Seq<char>) {
    (Target::Named(name), "configuration file"@)
}

/// The files whose change makes the analysis start over. Where no configuration file was
/// found, all places where one may appear are watched.
pub open spec fn watched(has_config: bool, has_baseline: bool) -> Seq<(Target, Seq<char>)> {
    let config = if has_config {
        seq![(Target::Config, "configuration file"@)]
    } else {
        seq![
            config_target("mago.toml"@),
            config_target("mago.yaml"@),
            config_target("mago.yml"@),
            config_target("mago.json"@),
            config_target("mago.dist.toml"@),
            config_target("mago.dist.yaml"@),
            config_target("mago.dist.yml"@),
            config_target("mago.dist.json"@),
        ]
    };
    let baseline = if has_baseline {
        seq![(Target::Baseline, "baseline file"@)]
    } else {
        seq![]
    };
    config + baseline + seq![
        (Target::Named("composer.json"@), "composer.json"@),
        (Target::Named("composer.lock"@), "composer.lock"@),
    ]
}

/// A file to watch.
fn watch(file: WatchFile, label: &str) -> (r: WatchTarget)
    ensures
        r.file == file,
        r.label@ == label@,
{
    WatchTarget { file, label: label.to_owned() }
}

/// A file in the workspace to watch.
fn watch_named(name: &str, label: &str) -> (r: WatchTarget)
    ensures
        target(r) == (Target::Named(name@), label@),
{
    watch(WatchFile::InWorkspace(name.to_owned()), label)
}

/// The files whose change makes the analysis start over.
pub fn restart_watch_list(has_config: bool, has_baseline: bool) -> (r: Vec<WatchTarget>)
    ensures
        targets(r@) == watched(has_config, has_baseline),
{
    let mut r: Vec<WatchTarget> = if has_config {
        vec![watch(WatchFile::Config, "configuration file")]
    } else {
        vec![
            watch_named("mago.toml", "configuration file"),
            watch_named("mago.yaml", "configuration file"),
            watch_named("mago.yml", "configuration file"),
            watch_named("mago.json", "configuration file"),
            watch_named("mago.dist.toml", "configuration file"),
            watch_named("mago.dist.yaml", "configuration file"),
            watch_named("mago.dist.yml", "configuration file"),
            watch_named("mago.dist.json", "configuration file"),
        ]
    };
    if has_baseline {
        r.push(watch(WatchFile::Baseline, "baseline file"));
    }
    r.push(watch_named("composer.json", "composer.json"));
    r.push(watch_named("composer.lock", "composer.lock"));
    assert(targets(r@) == watched(has_config, has_baseline));
    r
}

/// What happened to files.
#[derive(Debug, Clone, Copy, PartialEq, Eq, Structural)]
pub enum ChangeKind {
    Create,
    Modify,
    Remove,
    /// Something that changes no file.
    Other,
}

/// A path that a change is about.
#[derive(Debug)]
pub struct ChangedPath {
    /// The path as it was reported.
    pub raw: PathKey,
    /// The canonical path, if there is one.
    pub canonical: Option<PathKey>,
    /// The path as it is shown.
    pub display: String,
}

/// A file that is watched.
#[derive(Debug)]
pub struct WatchedFile {
    /// The absolute path of the file.
    pub raw: PathKey,
    /// The canonical path, if there is one.
    pub canonical: Option<PathKey>,
    /// What the file is called when it changes.
    pub label: String,
}

/// The change is about the file: their canonical paths are the same, or their paths if one
/// has no canonical path.
pub open spec fn is_about(path: ChangedPath, file: WatchedFile) -> bool {
    match (path.canonical, file.canonical) {
        (Some(a), Some(b)) => a@ == b@,
        _ => path.raw@ == file.raw@,
    }
}

/// The position of the first watched file that the path is about, or their number.
pub open spec fn first_file(path: ChangedPath, files: Seq<WatchedFile>) -> int
    decreases files.len(),
{
    if files.len() == 0 || is_about(path, files[0]) {
        0
    } else {
        1 + first_file(path, files.skip(1))
    }
}

/// Why the analysis starts over after a change to these paths: the first path that is about
/// a watched file counts.
pub open spec fn reason(paths: Seq<ChangedPath>, files: Seq<WatchedFile>) -> Option<Seq<char>>
    decreases paths.len(),
{
    if paths.len() == 0 {
        None
    } else {
        let k = first_file(paths[0], files);
        if k < files.len() {
            Some(files[k].label@ + " changed ("@ + paths[0].display@ + ")"@)
        } else {
            reason(paths.skip(1), files)
        }
    }
}

/// Whether the change is about the file.
fn concerns(path: &ChangedPath, file: &WatchedFile) -> (r: bool)
    ensures
        r == is_about(*path, *file),
{
    match (&path.canonical, &file.canonical) {
        (Some(a), Some(b)) => a.same(b),
        _ => path.raw.same(&file.raw),
    }
}

pub proof fn lemma_first_file(path: ChangedPath, files: Seq<WatchedFile>)
    ensures
        0 <= first_file(path, files) <= files.len(),
        forall|i: int| 0 <= i < first_file(path, files) ==> !is_about(path, #[trigger] files[i]),
        first_file(path, files) < files.len() ==> is_about(path, files[first_file(path, files)]),
    decreases files.len(),
{
    if files.len() > 0 && !is_about(path, files[0]) {
        lemma_first_file(path, files.skip(1));
        assert forall|i: int| 0 <= i < first_file(path, files) implies !is_about(
            path,
            #[trigger] files[i],
        ) by {
            if i > 0 {
                assert(files.skip(1)[i - 1] == files[i]);
            }
        }
    }
}

/// The position of the first watched file that the path is about, or their number.
fn find_file(path: &ChangedPath, files: &Vec<WatchedFile>) -> (r: usize)
    ensures
        r == first_file(*path, files@),
        r <= files@.len(),
{
    proof {
        lemma_first_file(*path, files@);
    }
    let mut i: usize = 0;
    while i < files.len()
        invariant
            i <= first_file(*path, files@) <= files@.len(),
            first_file(*path, files@) < files@.len() ==> is_about(
                *path,
                files@[first_file(*path, files@)],
            ),
            forall|j: int|
                0 <= j < first_file(*path, files@) ==> !is_about(*path, #[trigger] files@[j]),
        decreases files@.len() - i,
    {
        if concerns(path, &files[i]) {
            return i;
        }
        i += 1;
    }
    i
}

/// Why a change of this kind to these paths makes the analysis start again, if it does.
pub open spec fn restart_text(
    kind: ChangeKind,
    paths: Seq<ChangedPath>,
    files: Seq<WatchedFile>,
) -> Option<Seq<char>> {
    if kind == ChangeKind::Other {
        None
    } else {
        reason(paths, files)
    }
}

/// Why the analysis starts over after a change, if it does: files were created, modified or
/// removed, and one of them is watched.
pub fn restart_reason(
    kind: ChangeKind,
    paths: &Vec<ChangedPath>,
    files: &Vec<WatchedFile>,
) -> (r: Option<String>)
    ensures
        match r {
            Some(text) => kind != ChangeKind::Other && reason(paths@, files@) == Some(text@),
            None => kind == ChangeKind::Other || reason(paths@, files@) is None,
        },
        match r {
            Some(text) => restart_text(kind, paths@, files@) == Some(text@),
            None => restart_text(kind, paths@, files@) is None,
        },
{
    if kind == ChangeKind::Other {
        return None;
    }
    let mut i: usize = 0;
    assert(paths@.skip(0) == paths@);
    while i < paths.len()
        invariant
            i <= paths@.len(),
            kind != ChangeKind::Other,
            reason(paths@, files@) == reason(paths@.skip(i as int), files@),
        decreases paths@.len() - i,
    {
        let path = &paths[i];
        let k = find_file(path, files);
        assert(paths@.skip(i as int)[0] == *path);
        assert(paths@.skip(i as int).skip(1) == paths@.skip(i + 1));
        if k < files.len() {
            let mut text = files[k].label.as_str().to_owned();
            text.append(" changed (");
            text.append(path.display.as_str());
            text.append(")");
            return Some(text);
        }
        i += 1;
    }
    None
}

/// The analysis starts over exactly if one of the paths is about a watched file.
pub proof fn watched_changes_restart(paths: Seq<ChangedPath>, files: Seq<WatchedFile>)
    ensures
        reason(paths, files) is Some <==> exists|i: int, k: int|
            0 <= i < paths.len() && 0 <= k < files.len() && #[trigger] is_about(
                paths[i],
                files[k],
            ),
    decreases paths.len(),
{
    if paths.len() > 0 {
        let rest = paths.skip(1);
        lemma_first_file(paths[0], files);
        watched_changes_restart(rest, files);
        if first_file(paths[0], files) == files.len() {
            if exists|i: int, k: int|
                0 <= i < paths.len() && 0 <= k < files.len() && #[trigger] is_about(
                    paths[i],
                    files[k],
                ) {
                let (i, k) = choose|i: int, k: int|
                    0 <= i < paths.len() && 0 <= k < files.len() && #[trigger] is_about(
                        paths[i],
                        files[k],
                    );
                assert(i > 0);
                assert(is_about(rest[i - 1], files[k]));
            }
            if exists|i: int, k: int|
                0 <= i < rest.len() && 0 <= k < files.len() && #[trigger] is_about(
                    rest[i],
                    files[k],
                ) {
                let (i, k) = choose|i: int, k: int|
                    0 <= i < rest.len() && 0 <= k < files.len() && #[trigger] is_about(
                        rest[i],
                        files[k],
                    );
                assert(is_about(paths[i + 1], files[k]));
            }
        }
    }
}

/// No directory before position `i` is the same as the one there.
pub open spec fn is_first_time(dirs: Seq<PathKey>, i: int) -> bool {
    forall|j: int| 0 <= j < i ==> (#[trigger] dirs[j])@ != dirs[i]@
}

/// The positions of the directories to watch, so that none is watched twice.
pub fn distinct_dirs(dirs: &Vec<PathKey>) -> (r: Vec<usize>)
    ensures
        crate::fix::lists_positions(r@, dirs@.len(), |i: int| is_first_time(dirs@, i)),
{
    let mut r: Vec<usize> = Vec::new();
    let mut i: usize = 0;
    let ghost chosen = |i: int| is_first_time(dirs@, i);
    while i < dirs.len()
        invariant
            i <= dirs@.len(),
            chosen == |i: int| is_first_time(dirs@, i),
            crate::fix::lists_positions(r@, i as nat, chosen),
        decreases dirs@.len() - i,
    {
        let mut j: usize = 0;
        while j < i && !dirs[j].same(&dirs[i])
            invariant
                j <= i < dirs@.len(),
                forall|k: int| 0 <= k < j ==> (#[trigger] dirs@[k])@ != dirs@[i as int]@,
            decreases i - j,
        {
            j += 1;
        }
        assert(chosen(i as int) == (j == i));
        proof {
            crate::fix::lemma_lists_next(r@, i, chosen);
        }
        if j == i {
            r.push(i);
        }
        i += 1;
    }
    r
}

/// Every directory is watched: it is one of those chosen, or the same as one.
pub proof fn every_dir_is_watched(dirs: Seq<PathKey>, chosen: Seq<usize>, i: int)
    requires
        crate::fix::lists_positions(chosen, dirs.len(), |i: int| is_first_time(dirs, i)),
        0 <= i < dirs.len() <= usize::MAX,
    ensures
        exists|k: int| 0 <= k < chosen.len() && dirs[(#[trigger] chosen[k]) as int]@ == dirs[i]@,
    decreases i,
{
    let first = |i: int| is_first_time(dirs, i);
    if first(i) {
        assert(chosen.contains(i as usize));
        let k = choose|k: int| 0 <= k < chosen.len() && chosen[k] == i as usize;
        assert(dirs[chosen[k] as int]@ == dirs[i]@);
    } else {
        let j = choose|j: int| 0 <= j < i && (#[trigger] dirs[j])@ == dirs[i]@;
        every_dir_is_watched(dirs, chosen, j);
    }
}

/// What watch mode waits for.
#[derive(Debug)]
pub enum WatchState {
    /// That the files are loaded.
    Loading,
    /// That the files are watched.
    Starting,
    /// That the first analysis is done.
    Analyzing,
    /// Whether the analysis has to start over.
    Checking,
    /// Changes to the files.
    Waiting,
    /// That the changed files are analyzed again.
    Reanalyzing,
    /// That the configuration is read again.
    Reloading,
}

/// What watch mode wants to be done.
#[derive(Debug)]
pub enum WatchAction {
    /// Load the files, and the built-in stubs if `stubs`.
    Load { sources: Sources, stubs: bool },
    /// Watch the files, and those whose change makes the analysis start over.
    WatchFiles,
    /// Analyze the files, and report the issues that are not to be ignored.
    Analyze,
    /// Look whether the analysis has to start over.
    CheckRestart,
    /// Wait a while for changes.
    Wait,
    /// Tell the user, analyze the changed files again, and report as before.
    Reanalyze(Notice),
    /// Tell the user, and read the configuration again, from the same file if `pinned`.
    Reload { notice: String, pinned: bool },
}

/// How an action went.
#[derive(Debug)]
pub enum WatchEvent {
    /// The files are loaded.
    Loaded,
    /// The files are watched.
    Watching,
    /// The files are analyzed.
    Analyzed,
    /// Nothing makes the analysis start over.
    NoRestart,
    /// The analysis has to start over. The configuration file was named by the user if
    /// `explicit`.
    Restart { reason: String, explicit: bool },
    /// So many files changed.
    Changed(usize),
    /// The configuration was read again, or could not be.
    Reloaded,
}

/// What follows an event.
#[derive(Debug)]
pub struct WatchStep {
    /// What watch mode now waits for.
    pub state: WatchState,
    /// What it wants to be done.
    pub action: WatchAction,
}

/// What watch mode begins with, and begins with again when it starts over.
pub open spec fn watch_begins(command: AnalyzeCommand, step: WatchStep) -> bool {
    &&& step.state is Loading
    &&& step.action == (WatchAction::Load {
        sources: if command.path@.len() > 0 {
            Sources::Given
        } else {
            Sources::Configured
        },
        stubs: !command.no_stubs,
    })
}

/// The event is what watch mode waits for.
pub open spec fn watch_answers(state: WatchState, event: WatchEvent) -> bool {
    match state {
        WatchState::Loading => event is Loaded,
        WatchState::Starting => event is Watching,
        WatchState::Analyzing | WatchState::Reanalyzing => event is Analyzed,
        WatchState::Checking => event is NoRestart || event is Restart,
        WatchState::Waiting => event is Changed,
        WatchState::Reloading => event is Reloaded,
    }
}

/// What follows an event that watch mode waits for. A configuration file that the user named
/// is read again; another is looked for again, as it may have moved. If it cannot be read,
/// the configuration stays as it was.
pub open spec fn watch_follows(
    command: AnalyzeCommand,
    state: WatchState,
    event: WatchEvent,
    step: WatchStep,
) -> bool {
    match (state, event) {
        (WatchState::Loading, WatchEvent::Loaded) => {
            step.state is Starting && step.action is WatchFiles
        },
        (WatchState::Starting, WatchEvent::Watching) => {
            step.state is Analyzing && step.action is Analyze
        },
        (WatchState::Analyzing, WatchEvent::Analyzed) => {
            step.state is Checking && step.action is CheckRestart
        },
        (WatchState::Reanalyzing, WatchEvent::Analyzed) => {
            step.state is Checking && step.action is CheckRestart
        },
        (WatchState::Checking, WatchEvent::NoRestart) => {
            step.state is Waiting && step.action is Wait
        },
        (WatchState::Checking, WatchEvent::Restart { reason, explicit }) => {
            &&& step.state is Reloading
            &&& step.action matches WatchAction::Reload { notice, pinned }
            &&& notice@ == "Restarting analysis: "@ + reason@
            &&& pinned == explicit
        },
        (WatchState::Waiting, WatchEvent::Changed(n)) => if n == 0 {
            step.state is Checking && step.action is CheckRestart
        } else {
            &&& step.state is Reanalyzing
            &&& step.action == WatchAction::Reanalyze(Notice::Reanalyzing(n))
        },
        (WatchState::Reloading, WatchEvent::Reloaded) => watch_begins(command, step),
        _ => false,
    }
}

impl AnalyzeCommand {
    /// Begins watch mode.
    pub fn watch_start(&self) -> (r: WatchStep)
        ensures
            watch_begins(*self, r),
    {
        let sources = if self.path.len() > 0 {
            Sources::Given
        } else {
            Sources::Configured
        };
        let action = WatchAction::Load { sources, stubs: !self.no_stubs };
        WatchStep { state: WatchState::Loading, action }
    }

    /// Goes on after an event. Nothing follows an event that watch mode does not wait for.
    pub fn watch_resume(&self, state: WatchState, event: WatchEvent) -> (r: Option<WatchStep>)
        ensures
            r is Some <==> watch_answers(state, event),
            r matches Some(step) ==> watch_follows(*self, state, event, step),
    {
        match (state, event) {
            (WatchState::Loading, WatchEvent::Loaded) => {
                Some(WatchStep { state: WatchState::Starting, action: WatchAction::WatchFiles })
            },
            (WatchState::Starting, WatchEvent::Watching) => {
                Some(WatchStep { state: WatchState::Analyzing, action: WatchAction::Analyze })
            },
            (WatchState::Analyzing, WatchEvent::Analyzed) | (
                WatchState::Reanalyzing,
                WatchEvent::Analyzed,
            ) => {
                Some(WatchStep { state: WatchState::Checking, action: WatchAction::CheckRestart })
            },
            (WatchState::Checking, WatchEvent::NoRestart) => {
                Some(WatchStep { state: WatchState::Waiting, action: WatchAction::Wait })
            },
            (WatchState::Checking, WatchEvent::Restart { reason, explicit }) => {
                let mut notice = "Restarting analysis: ".to_owned();
                notice.append(reason.as_str());
                let action = WatchAction::Reload { notice, pinned: explicit };
                Some(WatchStep { state: WatchState::Reloading, action })
            },
            (WatchState::Waiting, WatchEvent::Changed(n)) => {
                if n == 0 {
                    let action = WatchAction::CheckRestart;
                    Some(WatchStep { state: WatchState::Checking, action })
                } else {
                    let action = WatchAction::Reanalyze(Notice::Reanalyzing(n));
                    Some(WatchStep { state: WatchState::Reanalyzing, action })
                }
            },
            (WatchState::Reloading, WatchEvent::Reloaded) => Some(self.watch_start()),
            _ => None,
        }
    }
}

/// The configuration to go on with: the one just read, or the current one where none could
/// be read.
pub fn adopt_reloaded<C>(current: C, reloaded: Option<C>) -> (r: C)
    ensures
        r == (match reloaded {
            Some(new) => new,
            None => current,
        }),
{
    match reloaded {
        Some(new) => new,
        None => current,
    }
}

/// Before every wait for changes it is looked whether the analysis has to start over, and
/// files are analyzed again only if some changed.
pub proof fn restarts_are_noticed_before_waiting(
    command: AnalyzeCommand,
    state: WatchState,
    event: WatchEvent,
    step: WatchStep,
)
    requires
        watch_follows(command, state, event, step),
    ensures
        step.action is Wait ==> event is NoRestart,
        step.action is Reload ==> event is Restart,
        step.action is Reanalyze ==> event is Changed && event->Changed_0 > 0,
        event is Restart ==> step.action is Reload,
{
}

} // verus!
