//! What is shown where the terminal takes no colours. The switch of `colored` is one for the
//! process, so every test here that sets it sets it to the same value.
use colored::control::set_override;
use mago_lines::document::{
    code_pieces, colorize_code_block, column_piece, plain_piece, render, styled_piece, Piece,
};
use mago_lines::json::json_list;
use mago_lines::notice::Notice;
use mago_lines::paint::{pad, paint, Style};
use mago_lines::rules::{explain_rule, list_rules, Level, RuleEntry, RuleListing, RuleMeta};
use mago_lines::status::ExitStatus;

fn meta(name: &str, code: &str) -> RuleMeta {
    RuleMeta {
        name: name.to_string(),
        code: code.to_string(),
        description: "Finds things.\n\nAnd more things.".to_string(),
        category: "Clarity".to_string(),
        good_example: "\n<?php\n\n    echo 1;\n".to_string(),
        bad_example: "  \n".to_string(),
    }
}

fn entry(name: &str, code: &str, level: Level) -> RuleEntry {
    RuleEntry { meta: meta(name, code), level }
}

fn document(listing: RuleListing) -> Vec<Piece> {
    match listing {
        RuleListing::Document(pieces) => pieces,
        RuleListing::Json(_) => panic!("no document"),
    }
}

#[test]
fn styles_can_be_switched_off() {
    set_override(false);
    for style in [Style::Bold, Style::Cyan, Style::RedBold, Style::BoldUnderline] {
        assert_eq!(paint("text", style, 0), "text");
        assert_eq!(paint("text", style, 6), "text  ");
        assert_eq!(paint("ää", style, 4), "ää  ");
    }
}

#[test]
fn padding_counts_characters() {
    assert_eq!(pad("ää", 4), "ää  ");
    assert_eq!(pad("long", 2), "long");
}

#[test]
fn a_code_block_is_made_of_styled_pieces() {
    let pieces = code_pieces("\n <?php\n\n  echo 1;  \n?> \n");
    let said: Vec<(&str, Style, usize)> =
        pieces.iter().map(|p| (p.text.as_str(), p.style, p.width)).collect();
    assert_eq!(
        said,
        vec![
            ("  │    ", Style::Plain, 0),
            ("", Style::BrightBlack, 0),
            ("<?php", Style::YellowBold, 0),
            ("\n", Style::Plain, 0),
            ("  │    ", Style::Plain, 0),
            ("", Style::BrightBlack, 0),
            ("", Style::Plain, 0),
            ("\n", Style::Plain, 0),
            ("  │    ", Style::Plain, 0),
            ("  ", Style::BrightBlack, 0),
            ("echo 1;  ", Style::Plain, 0),
            ("\n", Style::Plain, 0),
            ("  │    ", Style::Plain, 0),
            ("", Style::BrightBlack, 0),
            ("?>", Style::YellowBold, 0),
        ]
    );
    assert!(code_pieces(" \n ").is_empty());
}

#[test]
fn code_is_shown_without_colours() {
    set_override(false);
    assert_eq!(
        colorize_code_block("\n<?php\n\n    echo 1;\n?>\n"),
        "  │    <?php\n  │    \n  │        echo 1;\n  │    ?>"
    );
    assert_eq!(colorize_code_block(" \n "), "");
}

#[test]
fn a_document_is_its_pieces() {
    set_override(false);
    let pieces = vec![
        plain_piece("a "),
        styled_piece("b", Style::Bold),
        column_piece("c", Style::Cyan, 3),
        plain_piece("|"),
    ];
    assert_eq!(render(&pieces), "a bc  |");
    assert_eq!(render(&Vec::new()), "");
}

#[test]
fn a_rule_is_explained() {
    set_override(false);
    let rules = vec![meta("No Empty", "no-empty"), meta("Other", "other")];
    let (status, pieces) = explain_rule(&rules, "no-empty");
    assert_eq!(status, ExitStatus::Success);
    assert_eq!(
        render(&pieces),
        "\n  ╭─ Rule No Empty\n  │\n  │  Finds things.\n  │  \n  │  And more things.\n  │\n\
         \u{20} │  Code: no-empty\n  │  Category: Clarity\n  │\n  │  ✅ Good Example\n  │\n\
         \u{20} │    <?php\n  │    \n  │        echo 1;\n  │\n  │  Try it out!\n\
         \u{20} │    mago lint --only no-empty\n  ╰─\n\n"
    );
}

#[test]
fn the_first_rule_with_the_code_is_explained() {
    set_override(false);
    let rules = vec![meta("A", "x"), meta("B", "same"), meta("C", "same")];
    let (_, pieces) = explain_rule(&rules, "same");
    assert!(render(&pieces).contains("Rule B\n"));
}

#[test]
fn an_unknown_rule_is_an_error() {
    set_override(false);
    let (status, pieces) = explain_rule(&vec![meta("A", "a")], "b");
    assert_eq!(status, ExitStatus::Failure);
    assert_eq!(
        render(&pieces),
        "\n  Error: Rule not found\n  Could not find a rule with the code 'b'.\n\
         \u{20} Please check the spelling and try again.\n\n"
    );
}

#[test]
fn rules_are_listed_in_columns() {
    set_override(false);
    let rules = vec![
        entry("No Empty", "no-empty", Level::Error),
        entry("X", "a-long-code", Level::Help),
    ];
    assert_eq!(
        render(&document(list_rules(rules, false))),
        "\n  Name       Code          Level      Category\n\n\
         \u{20} No Empty   no-empty      Error      Clarity\n\
         \u{20} X          a-long-code   Help       Clarity\n\n\
         \u{20} Run mago lint --explain <CODE> to see more information about a specific rule.\n\n"
    );
}

#[test]
fn no_rules_are_a_sentence() {
    set_override(false);
    assert_eq!(
        render(&document(list_rules(Vec::new(), false))),
        "No rules are currently enabled.\n"
    );
}

#[test]
fn rules_can_be_listed_as_json() {
    let codes = |rules: Vec<RuleEntry>| match list_rules(rules, true) {
        RuleListing::Json(rules) => rules.into_iter().map(|r| r.meta.code).collect::<Vec<String>>(),
        RuleListing::Document(_) => panic!("no list"),
    };
    assert_eq!(codes(Vec::new()), Vec::<String>::new());
    let rules = vec![entry("B", "b", Level::Note), entry("A", "a", Level::Error)];
    assert_eq!(codes(rules), vec!["b".to_string(), "a".to_string()]);
}

#[test]
fn lists_are_printed_as_json() {
    let list = vec!["no-empty".to_string(), "ä".to_string()];
    assert_eq!(json_list(&list), "[\n  \"no-empty\",\n  \"ä\"\n]");
    assert_eq!(json_list(&Vec::new()), "[]");
    assert_eq!(json_list(&vec!["a\"\\\n".to_string()]), "[\n  \"a\\\"\\\\\\n\"\n]");
}

#[test]
fn notices_are_sentences() {
    assert_eq!(Notice::FixRequired.text(), "Working on changed lines requires --fix.");
    assert_eq!(Notice::NoFilesToLint.text(), "No files found to lint.");
    assert_eq!(Notice::FixedAndRestaged(12).text(), "Fixed and re-staged 12 file(s).");
    assert_eq!(
        Notice::FixedUnstaged(1).text(),
        "Fixed 1 file(s). Changes are unstaged (use 'git add' to stage)."
    );
    assert_eq!(
        Notice::NeedFormatting(3).text(),
        "Found 3 file(s) need formatting. Run the command without '--check' to format them."
    );
    assert_eq!(Notice::Reanalyzing(2).text(), "Detected 2 file change(s), re-analyzing...");
    assert_eq!(
        Notice::CommitLinesChecked(0).text(),
        "No lines from the last commit needed fixing (0 file(s) checked)."
    );
}
