//! What is shown where the terminal takes colours. The switch of `colored` is one for the
//! process, so every test here sets it to the same value.
use colored::control::set_override;
use mago_lines::document::{colorize_code_block, render, Piece};
use mago_lines::paint::{paint, Style};
use mago_lines::rules::{explain_rule, list_rules, Level, RuleEntry, RuleListing, RuleMeta};

fn meta(name: &str, code: &str) -> RuleMeta {
    RuleMeta {
        name: name.to_string(),
        code: code.to_string(),
        description: "Finds things.\n\nAnd more things.".to_string(),
        category: "Clarity".to_string(),
        good_example: "\n<?php\n\n    echo 1;\n".to_string(),
        bad_example: "  \n".to_string(),
    }
}

fn entry(name: &str, code: &str, level: Level) -> RuleEntry {
    RuleEntry { meta: meta(name, code), level }
}

fn document(listing: RuleListing) -> Vec<Piece> {
    match listing {
        RuleListing::Document(pieces) => pieces,
        RuleListing::Json(_) => panic!("no document"),
    }
}

#[test]
fn styles_have_their_codes() {
    set_override(true);
    let styles = [
        (Style::Bold, "1"),
        (Style::BoldUnderline, "1;4"),
        (Style::BrightBlack, "90"),
        (Style::Yellow, "33"),
        (Style::Magenta, "35"),
        (Style::Cyan, "36"),
        (Style::RedBold, "1;31"),
        (Style::GreenBold, "1;32"),
        (Style::YellowBold, "1;33"),
        (Style::BlueBold, "1;34"),
        (Style::CyanBold, "1;36"),
    ];
    for (style, codes) in styles {
        assert_eq!(paint("text", style, 0), format!("\u{1b}[{codes}mtext\u{1b}[0m"));
        assert_eq!(paint("text", style, 6), format!("\u{1b}[{codes}mtext  \u{1b}[0m"));
        assert_eq!(paint("", style, 0), format!("\u{1b}[{codes}m\u{1b}[0m"));
        assert_eq!(
            paint("a\u{1b}[0mb", style, 0),
            format!("\u{1b}[{codes}ma\u{1b}[0m\u{1b}[{codes}mb\u{1b}[0m")
        );
    }
    assert_eq!(paint("text", Style::Plain, 6), "text  ");
}

#[test]
fn php_tags_are_shown_in_colour() {
    set_override(true);
    assert_eq!(
        colorize_code_block("<?php\n  echo 1;\n <?= 2\n"),
        "  │    \u{1b}[90m\u{1b}[0m\u{1b}[1;33m<?php\u{1b}[0m\n\
         \u{20} │    \u{1b}[90m  \u{1b}[0mecho 1;\n\
         \u{20} │    \u{1b}[90m \u{1b}[0m\u{1b}[1;33m<?= 2\u{1b}[0m"
    );
}

#[test]
fn bad_examples_are_shown_too() {
    set_override(true);
    let mut rule = meta("A", "a");
    rule.bad_example = "x".to_string();
    rule.good_example = String::new();
    let (_, pieces) = explain_rule(&vec![rule], "a");
    let text = render(&pieces);
    assert!(text.contains("  │\n  │  \u{1b}[1;31m🚫 Bad Example\u{1b}[0m\n  │\n  │    "));
    assert!(!text.contains("Good Example"));
    assert!(text.contains("  ╭─ \u{1b}[1mRule\u{1b}[0m \u{1b}[1;36mA\u{1b}[0m\n"));
}

#[test]
fn levels_have_colours() {
    set_override(true);
    for (level, codes, name) in [
        (Level::Error, "1;31", "Error   "),
        (Level::Warning, "1;33", "Warning "),
        (Level::Help, "1;32", "Help    "),
        (Level::Note, "1;34", "Note    "),
    ] {
        let text = render(&document(list_rules(vec![entry("A", "a", level)], false)));
        assert!(text.contains(&format!("\u{1b}[{codes}m{name}\u{1b}[0m")));
    }
}
