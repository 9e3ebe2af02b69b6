//! The linting pipeline: what is found in each file, and in all of them together.
use crate::lint::LintMode;
use vstd::prelude::*;

verus! {

/// What the checks of a file found, with issues of type `T`.
#[derive(Debug)]
pub struct Findings<T> {
    /// The errors of the parser.
    pub parse_errors: Vec<T>,
    /// The issues of the semantic checks.
    pub semantic: Vec<T>,
    /// The issues of the rules. They only run where `runs_rules` says so.
    pub rules: Vec<T>,
}

/// Service that runs the linting pipeline on the files of a database `D`, with linter
/// settings `S` and parser settings `P`.
#[derive(Debug)]
pub struct LintService<D, S, P> {
    /// The files to lint.
    pub database: D,
    /// The settings of the linter.
    pub settings: S,
    /// The settings of the parser.
    pub parser_settings: P,
    /// Whether to show progress bars.
    pub use_progress_bars: bool,
}

/// The issues of a file: the errors of the parser, then the semantic issues, and in full
/// mode the issues of the rules.
pub open spec fn file_issues<T>(mode: LintMode, findings: Findings<T>) -> Seq<T> {
    findings.parse_errors@ + findings.semantic@ + (if mode == LintMode::Full {
        findings.rules@
    } else {
        seq![]
    })
}

/// The issues of all files, in the order of the files.
pub open spec fn all_issues<T>(mode: LintMode, files: Seq<Findings<T>>) -> Seq<T>
    decreases files.len(),
{
    if files.len() == 0 {
        seq![]
    } else {
        all_issues(mode, files.drop_last()) + file_issues(mode, files.last())
    }
}

/// The lists one after the other.
pub open spec fn concatenated<T>(lists: Seq<Vec<T>>) -> Seq<T>
    decreases lists.len(),
{
    if lists.len() == 0 {
        seq![]
    } else {
        concatenated(lists.drop_last()) + lists.last()@
    }
}

/// Whether rules run in this mode.
pub fn runs_rules(mode: LintMode) -> (r: bool)
    ensures
        r == (mode == LintMode::Full),
{
    match mode {
        LintMode::SemanticsOnly => false,
        LintMode::Full => true,
    }
}

/// Puts the issues of all files together, in the order of the files.
pub fn reduce<T>(results: Vec<Vec<T>>) -> (r: Vec<T>)
    ensures
        r@ == concatenated(results@),
{
    let ghost all = results@;
    let mut r: Vec<T> = Vec::new();
    for list in it: results.into_iter()
        invariant
            it.seq() == all,
            r@ == concatenated(all.take(it.index() as int)),
    {
        let mut list = list;
        assert(all.take(it.index() + 1).drop_last() == all.take(it.index() as int));
        r.append(&mut list);
    }
    assert(all.take(all.len() as int) == all);
    r
}

impl<D, S, P> LintService<D, S, P> {
    /// A service with these settings.
    pub fn new(database: D, settings: S, parser_settings: P, use_progress_bars: bool) -> (r: Self)
        ensures
            r == (LintService { database, settings, parser_settings, use_progress_bars }),
    {
        LintService { database, settings, parser_settings, use_progress_bars }
    }

    /// The issues of one file.
    pub fn lint_file<T>(&self, mode: LintMode, findings: Findings<T>) -> (r: Vec<T>)
        ensures
            r@ == file_issues(mode, findings),
    {
        let Findings { parse_errors, semantic, rules } = findings;
        let mut r = parse_errors;
        let mut semantic = semantic;
        let mut rules = rules;
        r.append(&mut semantic);
        if runs_rules(mode) {
            r.append(&mut rules);
        }
        r
    }

    /// The issues of all files.
    pub fn lint<T>(self, mode: LintMode, files: Vec<Findings<T>>) -> (r: Vec<T>)
        ensures
            r@ == all_issues(mode, files@),
    {
        let ghost all = files@;
        let mut results: Vec<Vec<T>> = Vec::new();
        for findings in it: files.into_iter()
            invariant
                it.seq() == all,
                all_issues(mode, all.take(it.index() as int)) == concatenated(results@),
        {
            let ghost before = results@;
            let issues = self.lint_file(mode, findings);
            results.push(issues);
            assert(all.take(it.index() + 1).drop_last() == all.take(it.index() as int));
            assert(results@.drop_last() == before);
        }
        assert(all.take(all.len() as int) == all);
        reduce(results)
    }
}

/// Linting all files finds in each what linting that file alone finds.
pub proof fn files_are_linted_one_by_one<T>(mode: LintMode, files: Seq<Findings<T>>, more: Seq<Findings<T>>)
    ensures
        all_issues(mode, files + more) == all_issues(mode, files) + all_issues(mode, more),
        files.len() == 1 ==> all_issues(mode, files) == file_issues(mode, files[0]),
    decreases more.len(),
{
    if files.len() == 1 {
        assert(files.drop_last() == Seq::<Findings<T>>::empty());
        assert(all_issues(mode, files.drop_last()) == Seq::<T>::empty());
    }
    if more.len() == 0 {
        assert(files + more == files);
        assert(all_issues(mode, files) + all_issues(mode, more) == all_issues(mode, files));
    } else {
        files_are_linted_one_by_one(mode, files, more.drop_last());
        assert((files + more).drop_last() == files + more.drop_last());
        assert(all_issues(mode, files) + all_issues(mode, more.drop_last()) + file_issues(
            mode,
            more.last(),
        ) == all_issues(mode, files) + all_issues(mode, more));
    }
}

/// In full mode a file has all issues that it has in the other mode, and first.
pub proof fn full_mode_only_adds_issues<T>(findings: Findings<T>)
    ensures
        file_issues(LintMode::Full, findings) == file_issues(LintMode::SemanticsOnly, findings)
            + findings.rules@,
{
    assert(file_issues(LintMode::Full, findings) == file_issues(LintMode::SemanticsOnly, findings)
        + findings.rules@);
}

} // verus!
