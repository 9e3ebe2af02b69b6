//! What a command tells its user.
use crate::text::decimal_of;
use vstd::prelude::*;

verus! {

/// Something a command tells its user.
#[derive(Debug, Clone, Copy, PartialEq, Eq, Structural)]
pub enum Notice {
    /// Nothing is staged, so nothing is linted.
    NoStagedFilesToLint,
    /// No file was found to lint.
    NoFilesToLint,
    /// Nothing is staged, so nothing is analyzed.
    NoStagedFilesToAnalyze,
    /// No file was found to analyze.
    NoFilesToAnalyze,
    /// Nothing is staged, so nothing is formatted.
    NoStagedFilesToFormat,
    /// The last commit has no files.
    NoCommitFiles,
    /// The last commit has no files with a known extension.
    NoPhpCommitFiles,
    /// Files were fixed and staged again.
    FixedAndRestaged(usize),
    /// Files were fixed and not staged again.
    FixedUnstaged(usize),
    /// No staged line was fixed; some files were skipped.
    StagedLinesChecked(usize),
    /// No staged line was fixed and no file was skipped.
    StagedLinesClean,
    /// No staged line was fixed.
    NoStagedLineFixes,
    /// Files of the last commit were fixed.
    FixedFromCommit(usize),
    /// No line of the last commit was fixed; some files were skipped.
    CommitLinesChecked(usize),
    /// No line of the last commit was fixed and no file was skipped.
    CommitLinesClean,
    /// No line of the last commit was fixed.
    NoCommitLineFixes,
    /// Changed lines are only worked on to fix them.
    FixRequired,
    /// No file needs formatting.
    AllFormatted,
    /// A check found files that are not formatted.
    NeedFormatting(usize),
    /// A dry run found files that are not formatted.
    WouldFormat(usize),
    /// Files were formatted.
    Formatted(usize),
    /// No staged file needs formatting.
    AllStagedFormatted,
    /// Files were formatted and staged again.
    FormattedAndRestaged(usize),
    /// Files were formatted and not staged again.
    FormattedUnstaged(usize),
    /// No staged line was formatted; some files were skipped.
    StagedFormatChecked(usize),
    /// No staged line was formatted and no file was skipped.
    StagedLinesFormatted,
    /// Files changed and are analyzed again.
    Reanalyzing(usize),
}

/// The words before the number of a notice, the number, and the words behind it. A notice
/// without a number has all its words in front.
pub open spec fn notice_parts(notice: Notice) -> (Seq<char>, Option<usize>, Seq<char>) {
    match notice {
        Notice::NoStagedFilesToLint => ("No staged files to lint."@, None, ""@),
        Notice::NoFilesToLint => ("No files found to lint."@, None, ""@),
        Notice::NoStagedFilesToAnalyze => ("No staged files to analyze."@, None, ""@),
        Notice::NoFilesToAnalyze => ("No files found to analyze."@, None, ""@),
        Notice::NoStagedFilesToFormat => ("No staged files to format."@, None, ""@),
        Notice::NoCommitFiles => ("No files found in the last commit."@, None, ""@),
        Notice::NoPhpCommitFiles => ("No PHP files found in the last commit."@, None, ""@),
        Notice::FixedAndRestaged(n) => ("Fixed and re-staged "@, Some(n), " file(s)."@),
        Notice::FixedUnstaged(n) => ("Fixed "@, Some(n), " file(s). Changes are unstaged (use 'git add' to stage)."@),
        Notice::StagedLinesChecked(n) => ("No staged line fixes needed ("@, Some(n), " file(s) checked)."@),
        Notice::StagedLinesClean => ("All staged lines are already lint-free."@, None, ""@),
        Notice::NoStagedLineFixes => ("No staged line fixes needed."@, None, ""@),
        Notice::FixedFromCommit(n) => ("Fixed "@, Some(n), " file(s) from the last commit."@),
        Notice::CommitLinesChecked(n) => ("No lines from the last commit needed fixing ("@, Some(n), " file(s) checked)."@),
        Notice::CommitLinesClean => ("All lines from the last commit are already lint-free."@, None, ""@),
        Notice::NoCommitLineFixes => ("No lines from the last commit needed fixing."@, None, ""@),
        Notice::FixRequired => ("Working on changed lines requires --fix."@, None, ""@),
        Notice::AllFormatted => ("All files are already formatted."@, None, ""@),
        Notice::NeedFormatting(n) => ("Found "@, Some(n), " file(s) need formatting. Run the command without '--check' to format them."@),
        Notice::WouldFormat(n) => ("Found "@, Some(n), " file(s) that need formatting."@),
        Notice::Formatted(n) => ("Formatted "@, Some(n), " file(s) successfully."@),
        Notice::AllStagedFormatted => ("All staged files are already formatted."@, None, ""@),
        Notice::FormattedAndRestaged(n) => ("Formatted and re-staged "@, Some(n), " file(s)."@),
        Notice::FormattedUnstaged(n) => ("Formatted "@, Some(n), " file(s). Changes are unstaged (use 'git add' to stage)."@),
        Notice::StagedFormatChecked(n) => ("No staged lines needed formatting ("@, Some(n), " file(s) checked)."@),
        Notice::StagedLinesFormatted => ("All staged lines are already formatted."@, None, ""@),
        Notice::Reanalyzing(n) => ("Detected "@, Some(n), " file change(s), re-analyzing..."@),
    }
}

/// The notice in words.
pub open spec fn notice_text(notice: Notice) -> Seq<char> {
    let (before, number, behind) = notice_parts(notice);
    match number {
        Some(n) => before + crate::text::decimal(n as nat) + behind,
        None => before,
    }
}

impl Notice {
    /// The parts of the notice.
    fn parts(self) -> (r: (&'static str, Option<usize>, &'static str))
        ensures
            (r.0@, r.1, r.2@) == notice_parts(self),
    {
        match self {
            Notice::NoStagedFilesToLint => ("No staged files to lint.", None, ""),
            Notice::NoFilesToLint => ("No files found to lint.", None, ""),
            Notice::NoStagedFilesToAnalyze => ("No staged files to analyze.", None, ""),
            Notice::NoFilesToAnalyze => ("No files found to analyze.", None, ""),
            Notice::NoStagedFilesToFormat => ("No staged files to format.", None, ""),
            Notice::NoCommitFiles => ("No files found in the last commit.", None, ""),
            Notice::NoPhpCommitFiles => ("No PHP files found in the last commit.", None, ""),
            Notice::FixedAndRestaged(n) => ("Fixed and re-staged ", Some(n), " file(s)."),
            Notice::FixedUnstaged(n) => ("Fixed ", Some(n), " file(s). Changes are unstaged (use 'git add' to stage)."),
            Notice::StagedLinesChecked(n) => ("No staged line fixes needed (", Some(n), " file(s) checked)."),
            Notice::StagedLinesClean => ("All staged lines are already lint-free.", None, ""),
            Notice::NoStagedLineFixes => ("No staged line fixes needed.", None, ""),
            Notice::FixedFromCommit(n) => ("Fixed ", Some(n), " file(s) from the last commit."),
            Notice::CommitLinesChecked(n) => ("No lines from the last commit needed fixing (", Some(n), " file(s) checked)."),
            Notice::CommitLinesClean => ("All lines from the last commit are already lint-free.", None, ""),
            Notice::NoCommitLineFixes => ("No lines from the last commit needed fixing.", None, ""),
            Notice::FixRequired => ("Working on changed lines requires --fix.", None, ""),
            Notice::AllFormatted => ("All files are already formatted.", None, ""),
            Notice::NeedFormatting(n) => ("Found ", Some(n), " file(s) need formatting. Run the command without '--check' to format them."),
            Notice::WouldFormat(n) => ("Found ", Some(n), " file(s) that need formatting."),
            Notice::Formatted(n) => ("Formatted ", Some(n), " file(s) successfully."),
            Notice::AllStagedFormatted => ("All staged files are already formatted.", None, ""),
            Notice::FormattedAndRestaged(n) => ("Formatted and re-staged ", Some(n), " file(s)."),
            Notice::FormattedUnstaged(n) => ("Formatted ", Some(n), " file(s). Changes are unstaged (use 'git add' to stage)."),
            Notice::StagedFormatChecked(n) => ("No staged lines needed formatting (", Some(n), " file(s) checked)."),
            Notice::StagedLinesFormatted => ("All staged lines are already formatted.", None, ""),
            Notice::Reanalyzing(n) => ("Detected ", Some(n), " file change(s), re-analyzing..."),
        }
    }

    /// The notice in words.
    pub fn text(self) -> (r: String)
        ensures
            r@ == notice_text(self),
    {
        let (before, number, behind) = self.parts();
        let mut r = before.to_owned();
        match number {
            Some(n) => {
                r.append(decimal_of(n).as_str());
                r.append(behind);
            },
            None => {},
        }
        r
    }
}

} // verus!
