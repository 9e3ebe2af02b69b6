//! Line-level fixing, formatting and reporting for source files.
//!
//! The library holds what a linter, an analyzer and a formatter decide and compute: which
//! lines to merge, which issues to fix, what to show of a rule, and which steps a command
//! takes. It reads and writes nothing itself.

// Text.
pub mod text;
pub mod text_laws;
pub mod words;
pub mod word_laws;
pub mod wrap;
pub mod wrap_laws;

// Merging of lines.
pub mod expand;
pub mod expand_laws;
pub mod context_laws;
pub mod order_laws;
pub mod merge;
pub mod merge_laws;
pub mod splice_laws;
pub mod undo_laws;

// What is shown.
pub mod document;
pub mod document_laws;
pub mod json;
pub mod notice;
pub mod notice_laws;
pub mod paint;
pub mod paint_laws;
pub mod rules;
pub mod rules_laws;
pub mod explain_laws;

// Fixing of lines.
pub mod commit;
pub mod fix;
pub mod fix_laws;
pub mod select_laws;
pub mod cut_laws;
pub mod inside;
pub mod issue_run;
pub mod line_laws;
pub mod line_run;
pub mod line_step_laws;
pub mod path_key;
pub mod verdict;

// The commands.
pub mod analyze;
pub mod analyze_laws;
pub mod analyze_step_laws;
pub mod format;
pub mod format_laws;
pub mod format_step_laws;
pub mod format_run;
pub mod sift_laws;
pub mod lint;
pub mod lint_laws;
pub mod lint_step_laws;
pub mod service;
pub mod count_laws;
pub mod status;
pub mod watch;
pub mod watch_laws;
