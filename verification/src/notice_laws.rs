//! What each notice says.
use crate::notice::Notice;
use vstd::prelude::*;

verus! {

/// What the linter and the analyzer tell their user, with the number that they found.
pub proof fn linters_tell_what_was_found(n: usize)
    ensures
        crate::notice::notice_text(Notice::NoStagedFilesToLint) == "No staged files to lint."@,
        crate::notice::notice_text(Notice::NoFilesToLint) == "No files found to lint."@,
        crate::notice::notice_text(Notice::NoStagedFilesToAnalyze) == "No staged files to analyze."@,
        crate::notice::notice_text(Notice::NoFilesToAnalyze) == "No files found to analyze."@,
        crate::notice::notice_text(Notice::NoCommitFiles) == "No files found in the last commit."@,
        crate::notice::notice_text(Notice::NoPhpCommitFiles) == "No PHP files found in the last commit."@,
        crate::notice::notice_text(Notice::FixedAndRestaged(n)) == "Fixed and re-staged "@
            + crate::text::decimal(n as nat) + " file(s)."@,
        crate::notice::notice_text(Notice::FixedUnstaged(n)) == "Fixed "@
            + crate::text::decimal(n as nat) + " file(s). Changes are unstaged (use 'git add' to stage)."@,
        crate::notice::notice_text(Notice::StagedLinesChecked(n)) == "No staged line fixes needed ("@
            + crate::text::decimal(n as nat) + " file(s) checked)."@,
        crate::notice::notice_text(Notice::StagedLinesClean) == "All staged lines are already lint-free."@,
        crate::notice::notice_text(Notice::NoStagedLineFixes) == "No staged line fixes needed."@,
        crate::notice::notice_text(Notice::FixedFromCommit(n)) == "Fixed "@
            + crate::text::decimal(n as nat) + " file(s) from the last commit."@,
        crate::notice::notice_text(Notice::CommitLinesChecked(n)) == "No lines from the last commit needed fixing ("@
            + crate::text::decimal(n as nat) + " file(s) checked)."@,
        crate::notice::notice_text(Notice::CommitLinesClean) == "All lines from the last commit are already lint-free."@,
        crate::notice::notice_text(Notice::NoCommitLineFixes) == "No lines from the last commit needed fixing."@,
        crate::notice::notice_text(Notice::FixRequired) == "Working on changed lines requires --fix."@,
        crate::notice::notice_text(Notice::Reanalyzing(n)) == "Detected "@
            + crate::text::decimal(n as nat) + " file change(s), re-analyzing..."@,
{
}

/// What the formatter tells its user, with the number that it found.
pub proof fn formatters_tell_what_was_found(n: usize)
    ensures
        crate::notice::notice_text(Notice::NoStagedFilesToFormat) == "No staged files to format."@,
        crate::notice::notice_text(Notice::AllFormatted) == "All files are already formatted."@,
        crate::notice::notice_text(Notice::NeedFormatting(n)) == "Found "@
            + crate::text::decimal(n as nat) + " file(s) need formatting. Run the command without '--check' to format them."@,
        crate::notice::notice_text(Notice::WouldFormat(n)) == "Found "@
            + crate::text::decimal(n as nat) + " file(s) that need formatting."@,
        crate::notice::notice_text(Notice::Formatted(n)) == "Formatted "@
            + crate::text::decimal(n as nat) + " file(s) successfully."@,
        crate::notice::notice_text(Notice::AllStagedFormatted) == "All staged files are already formatted."@,
        crate::notice::notice_text(Notice::FormattedAndRestaged(n)) == "Formatted and re-staged "@
            + crate::text::decimal(n as nat) + " file(s)."@,
        crate::notice::notice_text(Notice::FormattedUnstaged(n)) == "Formatted "@
            + crate::text::decimal(n as nat) + " file(s). Changes are unstaged (use 'git add' to stage)."@,
        crate::notice::notice_text(Notice::StagedFormatChecked(n)) == "No staged lines needed formatting ("@
            + crate::text::decimal(n as nat) + " file(s) checked)."@,
        crate::notice::notice_text(Notice::StagedLinesFormatted) == "All staged lines are already formatted."@,
{
}

} // verus!
