//! Documentation of linter rules: the explanation of one rule and the table of all.
use crate::document::{code_pieces, column_piece, plain_piece, styled_piece, Piece};
use crate::paint::Style;
use crate::status::ExitStatus;
use crate::text::byte_len_of;
use crate::words::trim_of;
use crate::wrap::wrap_and_prefix;
use vstd::prelude::*;

verus! {

/// What is known of a rule.
#[derive(Debug, Clone)]
pub struct RuleMeta {
    pub name: String,
    pub code: String,
    pub description: String,
    pub category: String,
    pub good_example: String,
    pub bad_example: String,
}

/// How severe the findings of a rule are.
#[derive(Debug, Clone, Copy, PartialEq, Eq, Structural)]
pub enum Level {
    Error,
    Warning,
    Help,
    Note,
}

/// A rule with its default level.
#[derive(Debug, Clone)]
pub struct RuleEntry {
    pub meta: RuleMeta,
    pub level: Level,
}

/// The list of rules as it is to be shown.
#[derive(Debug, Clone)]
pub enum RuleListing {
    /// These rules, as JSON.
    Json(Vec<RuleEntry>),
    /// As a document.
    Document(Vec<Piece>),
}

/// The width to which an explanation is wrapped.
pub const EXPLANATION_WIDTH: usize = 80;

/// The width of the column of levels.
pub const LEVEL_WIDTH: usize = 8;

/// The position of the first rule with a code, or the number of rules.
pub open spec fn rule_with_code(rules: Seq<RuleMeta>, code: Seq<char>) -> int
    decreases rules.len(),
{
    if rules.len() == 0 || rules[0].code@ == code {
        0
    } else {
        1 + rule_with_code(rules.skip(1), code)
    }
}

/// What is shown where no rule has the code.
pub open spec fn not_found_document(code: Seq<char>) -> Seq<crate::document::Fragment> {
    seq![
        crate::document::plain("\n  "@),
        crate::document::styled("Error: Rule not found"@, Style::RedBold),
        crate::document::plain("\n  "@),
        crate::document::styled(
            "Could not find a rule with the code '"@ + code + "'."@,
            Style::BrightBlack,
        ),
        crate::document::plain("\n  "@),
        crate::document::styled("Please check the spelling and try again."@, Style::BrightBlack),
        crate::document::plain("\n\n"@),
    ]
}

/// The part of an explanation that describes the rule.
pub open spec fn description_part(meta: RuleMeta) -> Seq<crate::document::Fragment> {
    seq![
        crate::document::plain("\n  ╭─ "@),
        crate::document::styled("Rule"@, Style::Bold),
        crate::document::plain(" "@),
        crate::document::styled(meta.name@, Style::CyanBold),
        crate::document::plain("\n  │\n"@),
        crate::document::plain(
            crate::wrap::wrapped_text(meta.description@, "  │  "@, EXPLANATION_WIDTH as int),
        ),
        crate::document::plain("\n  │\n  │  "@),
        crate::document::styled("Code"@, Style::Bold),
        crate::document::plain(": "@),
        crate::document::styled(meta.code@, Style::Yellow),
        crate::document::plain("\n  │  "@),
        crate::document::styled("Category"@, Style::Bold),
        crate::document::plain(": "@),
        crate::document::styled(meta.category@, Style::Magenta),
        crate::document::plain("\n"@),
    ]
}

/// The part of an explanation that shows an example, if there is one.
pub open spec fn example_part(
    title: Seq<char>,
    style: Style,
    example: Seq<char>,
) -> Seq<crate::document::Fragment> {
    if crate::words::trim(example).len() == 0 {
        seq![]
    } else {
        seq![
            crate::document::plain("  │\n  │  "@),
            crate::document::styled(title, style),
            crate::document::plain("\n  │\n"@),
        ] + crate::document::code_fragments(example) + seq![crate::document::plain("\n"@)]
    }
}

/// The part of an explanation that suggests a command.
pub open spec fn try_part(meta: RuleMeta) -> Seq<crate::document::Fragment> {
    seq![
        crate::document::plain("  │\n  │  "@),
        crate::document::styled("Try it out!"@, Style::Bold),
        crate::document::plain("\n  │    "@),
        crate::document::styled("mago lint --only "@ + meta.code@, Style::BrightBlack),
        crate::document::plain("\n  ╰─\n\n"@),
    ]
}

/// The explanation of a rule.
pub open spec fn explanation(meta: RuleMeta) -> Seq<crate::document::Fragment> {
    description_part(meta) + example_part("✅ Good Example"@, Style::GreenBold, meta.good_example@)
        + example_part("🚫 Bad Example"@, Style::RedBold, meta.bad_example@) + try_part(meta)
}

proof fn lemma_rule_with_code(rules: Seq<RuleMeta>, code: Seq<char>, k: int)
    requires
        0 <= k <= rules.len(),
        forall|i: int| 0 <= i < k ==> (#[trigger] rules[i]).code@ != code,
        k < rules.len() ==> rules[k].code@ == code,
    ensures
        rule_with_code(rules, code) == k,
    decreases rules.len(),
{
    if k > 0 {
        let rest = rules.skip(1);
        assert(rules[0].code@ != code);
        assert forall|i: int| 0 <= i < k - 1 implies (#[trigger] rest[i]).code@ != code by {
            assert(rest[i] == rules[i + 1]);
        }
        lemma_rule_with_code(rest, code, k - 1);
    }
}

/// The position of the first rule with a code, or the number of rules.
fn find_rule(rules: &Vec<RuleMeta>, code: &str) -> (r: usize)
    ensures
        r == rule_with_code(rules@, code@),
        r <= rules@.len(),
{
    let wanted = code.to_owned();
    let mut i: usize = 0;
    while i < rules.len()
        invariant
            i <= rules@.len(),
            wanted@ == code@,
            forall|j: int| 0 <= j < i ==> (#[trigger] rules@[j]).code@ != code@,
        decreases rules@.len() - i,
    {
        if rules[i].code == wanted {
            proof {
                lemma_rule_with_code(rules@, code@, i as int);
            }
            return i;
        }
        i += 1;
    }
    proof {
        lemma_rule_with_code(rules@, code@, i as int);
    }
    i
}

fn describe(meta: &RuleMeta) -> (r: Vec<Piece>)
    ensures
        crate::document::fragments(r@) == description_part(*meta),
{
    let description = wrap_and_prefix(meta.description.as_str(), "  │  ", EXPLANATION_WIDTH);
    vec![
        plain_piece("\n  ╭─ "),
        styled_piece("Rule", Style::Bold),
        plain_piece(" "),
        styled_piece(meta.name.as_str(), Style::CyanBold),
        plain_piece("\n  │\n"),
        plain_piece(description.as_str()),
        plain_piece("\n  │\n  │  "),
        styled_piece("Code", Style::Bold),
        plain_piece(": "),
        styled_piece(meta.code.as_str(), Style::Yellow),
        plain_piece("\n  │  "),
        styled_piece("Category", Style::Bold),
        plain_piece(": "),
        styled_piece(meta.category.as_str(), Style::Magenta),
        plain_piece("\n"),
    ]
}

fn show_example(title: &str, style: Style, example: &String) -> (r: Vec<Piece>)
    ensures
        crate::document::fragments(r@) == example_part(title@, style, example@),
{
    if trim_of(example.as_str()).as_str().is_empty() {
        let r: Vec<Piece> = Vec::new();
        assert(crate::document::fragments(r@) == Seq::<crate::document::Fragment>::empty());
        r
    } else {
        let mut r = vec![
            plain_piece("  │\n  │  "),
            styled_piece(title, style),
            plain_piece("\n  │\n"),
        ];
        let ghost head = r@;
        let mut code = code_pieces(example.as_str());
        let ghost middle = code@;
        r.append(&mut code);
        r.push(plain_piece("\n"));
        assert(crate::document::fragments(r@) == crate::document::fragments(head)
            + crate::document::fragments(middle) + seq![crate::document::plain("\n"@)]);
        r
    }
}

fn suggest(meta: &RuleMeta) -> (r: Vec<Piece>)
    ensures
        crate::document::fragments(r@) == try_part(*meta),
{
    let mut command = "mago lint --only ".to_owned();
    command.append(meta.code.as_str());
    vec![
        plain_piece("  │\n  │  "),
        styled_piece("Try it out!", Style::Bold),
        plain_piece("\n  │    "),
        styled_piece(command.as_str(), Style::BrightBlack),
        plain_piece("\n  ╰─\n\n"),
    ]
}

/// Explains the first rule with the given code, or says that there is none.
pub fn explain_rule(rules: &Vec<RuleMeta>, code: &str) -> (r: (ExitStatus, Vec<Piece>))
    ensures
        ({
            let k = rule_with_code(rules@, code@);
            if k < rules@.len() {
                r.0 == ExitStatus::Success && crate::document::fragments(r.1@) == explanation(
                    rules@[k],
                )
            } else {
                r.0 == ExitStatus::Failure && crate::document::fragments(r.1@)
                    == not_found_document(code@)
            }
        }),
{
    let k = find_rule(rules, code);
    if k < rules.len() {
        let meta = &rules[k];
        let mut pieces = describe(meta);
        let ghost a = pieces@;
        let mut good = show_example("✅ Good Example", Style::GreenBold, &meta.good_example);
        let ghost b = good@;
        let mut bad = show_example("🚫 Bad Example", Style::RedBold, &meta.bad_example);
        let ghost c = bad@;
        let mut last = suggest(meta);
        let ghost d = last@;
        pieces.append(&mut good);
        pieces.append(&mut bad);
        pieces.append(&mut last);
        assert(crate::document::fragments(pieces@) == crate::document::fragments(a)
            + crate::document::fragments(b) + crate::document::fragments(c)
            + crate::document::fragments(d));
        (ExitStatus::Success, pieces)
    } else {
        let mut sentence = "Could not find a rule with the code '".to_owned();
        sentence.append(code);
        sentence.append("'.");
        let pieces = vec![
            plain_piece("\n  "),
            styled_piece("Error: Rule not found", Style::RedBold),
            plain_piece("\n  "),
            styled_piece(sentence.as_str(), Style::BrightBlack),
            plain_piece("\n  "),
            styled_piece("Please check the spelling and try again.", Style::BrightBlack),
            plain_piece("\n\n"),
        ];
        assert(crate::document::fragments(pieces@) == not_found_document(code@));
        (ExitStatus::Failure, pieces)
    }
}

/// The name of a level.
pub open spec fn level_name(level: Level) -> Seq<char> {
    match level {
        Level::Error => "Error"@,
        Level::Warning => "Warning"@,
        Level::Help => "Help"@,
        Level::Note => "Note"@,
    }
}

/// The colour of a level.
pub open spec fn level_style(level: Level) -> Style {
    match level {
        Level::Error => Style::RedBold,
        Level::Warning => Style::YellowBold,
        Level::Help => Style::GreenBold,
        Level::Note => Style::BlueBold,
    }
}

/// The largest number of bytes of a rule's name.
pub open spec fn name_width(rules: Seq<RuleEntry>) -> nat
    decreases rules.len(),
{
    if rules.len() == 0 {
        0
    } else {
        let before = name_width(rules.drop_last());
        let here = crate::text::byte_len(rules.last().meta.name@);
        if here > before {
            here
        } else {
            before
        }
    }
}

/// The largest number of bytes of a rule's code.
pub open spec fn code_width(rules: Seq<RuleEntry>) -> nat
    decreases rules.len(),
{
    if rules.len() == 0 {
        0
    } else {
        let before = code_width(rules.drop_last());
        let here = crate::text::byte_len(rules.last().meta.code@);
        if here > before {
            here
        } else {
            before
        }
    }
}

/// The head of the table.
pub open spec fn table_head(names: int, codes: int) -> Seq<crate::document::Fragment> {
    seq![
        crate::document::plain("\n  "@),
        crate::document::column("Name"@, Style::BoldUnderline, names),
        crate::document::plain("   "@),
        crate::document::column("Code"@, Style::BoldUnderline, codes),
        crate::document::plain("   "@),
        crate::document::column("Level"@, Style::BoldUnderline, LEVEL_WIDTH as int),
        crate::document::plain("   "@),
        crate::document::styled("Category"@, Style::BoldUnderline),
        crate::document::plain("\n\n"@),
    ]
}

/// The row of a rule.
pub open spec fn table_row(rule: RuleEntry, names: int, codes: int) -> Seq<
    crate::document::Fragment,
> {
    seq![
        crate::document::plain("  "@),
        crate::document::column(rule.meta.name@, Style::Cyan, names),
        crate::document::plain("   "@),
        crate::document::column(rule.meta.code@, Style::BrightBlack, codes),
        crate::document::plain("   "@),
        crate::document::column(
            level_name(rule.level),
            level_style(rule.level),
            LEVEL_WIDTH as int,
        ),
        crate::document::plain("   "@),
        crate::document::styled(rule.meta.category@, Style::Magenta),
        crate::document::plain("\n"@),
    ]
}

/// The rows of all rules, in their order.
pub open spec fn table_rows(rules: Seq<RuleEntry>, names: int, codes: int) -> Seq<
    crate::document::Fragment,
>
    decreases rules.len(),
{
    if rules.len() == 0 {
        seq![]
    } else {
        table_rows(rules.drop_last(), names, codes) + table_row(rules.last(), names, codes)
    }
}

/// What stands below the table.
pub open spec fn table_foot() -> Seq<crate::document::Fragment> {
    seq![
        crate::document::plain("\n  Run "@),
        crate::document::styled("mago lint --explain <CODE>"@, Style::Bold),
        crate::document::plain(" to see more information about a specific rule.\n\n"@),
    ]
}

/// The table of rules, or a sentence where there are none.
pub open spec fn rule_document(rules: Seq<RuleEntry>) -> Seq<crate::document::Fragment> {
    let names = name_width(rules) as int;
    let codes = code_width(rules) as int;
    if rules.len() == 0 {
        seq![
            crate::document::styled("No rules are currently enabled."@, Style::Yellow),
            crate::document::plain("\n"@),
        ]
    } else {
        table_head(names, codes) + table_rows(rules, names, codes) + table_foot()
    }
}

/// The widths of the columns of names and codes.
fn column_widths(rules: &Vec<RuleEntry>) -> (r: (usize, usize))
    ensures
        r.0 == name_width(rules@),
        r.1 == code_width(rules@),
{
    let mut names: usize = 0;
    let mut codes: usize = 0;
    let mut i: usize = 0;
    assert(rules@.take(0) == Seq::<RuleEntry>::empty());
    while i < rules.len()
        invariant
            i <= rules@.len(),
            names == name_width(rules@.take(i as int)),
            codes == code_width(rules@.take(i as int)),
        decreases rules@.len() - i,
    {
        let name = byte_len_of(rules[i].meta.name.as_str());
        let code = byte_len_of(rules[i].meta.code.as_str());
        assert(rules@.take(i + 1).drop_last() == rules@.take(i as int));
        if name > names {
            names = name;
        }
        if code > codes {
            codes = code;
        }
        i += 1;
    }
    assert(rules@.take(rules@.len() as int) == rules@);
    (names, codes)
}

fn row(rule: &RuleEntry, names: usize, codes: usize) -> (r: Vec<Piece>)
    ensures
        crate::document::fragments(r@) == table_row(*rule, names as int, codes as int),
{
    let level = match rule.level {
        Level::Error => column_piece("Error", Style::RedBold, LEVEL_WIDTH),
        Level::Warning => column_piece("Warning", Style::YellowBold, LEVEL_WIDTH),
        Level::Help => column_piece("Help", Style::GreenBold, LEVEL_WIDTH),
        Level::Note => column_piece("Note", Style::BlueBold, LEVEL_WIDTH),
    };
    vec![
        plain_piece("  "),
        column_piece(rule.meta.name.as_str(), Style::Cyan, names),
        plain_piece("   "),
        column_piece(rule.meta.code.as_str(), Style::BrightBlack, codes),
        plain_piece("   "),
        level,
        plain_piece("   "),
        styled_piece(rule.meta.category.as_str(), Style::Magenta),
        plain_piece("\n"),
    ]
}

/// Lists the rules, as JSON or as a table.
pub fn list_rules(rules: Vec<RuleEntry>, json: bool) -> (r: RuleListing)
    ensures
        match r {
            RuleListing::Json(entries) => json && entries@ == rules@,
            RuleListing::Document(pieces) => !json && crate::document::fragments(pieces@)
                == rule_document(rules@),
        },
{
    if json {
        return RuleListing::Json(rules);
    }
    if rules.len() == 0 {
        let pieces = vec![
            styled_piece("No rules are currently enabled.", Style::Yellow),
            plain_piece("\n"),
        ];
        assert(crate::document::fragments(pieces@) == rule_document(rules@));
        return RuleListing::Document(pieces);
    }
    let (names, codes) = column_widths(&rules);
    let mut pieces = vec![
        plain_piece("\n  "),
        column_piece("Name", Style::BoldUnderline, names),
        plain_piece("   "),
        column_piece("Code", Style::BoldUnderline, codes),
        plain_piece("   "),
        column_piece("Level", Style::BoldUnderline, LEVEL_WIDTH),
        plain_piece("   "),
        styled_piece("Category", Style::BoldUnderline),
        plain_piece("\n\n"),
    ];
    let ghost head = table_head(names as int, codes as int);
    proof {
        assert(crate::document::fragments(pieces@) == head);
        assert(rules@.take(0) == Seq::<RuleEntry>::empty());
        assert(head + table_rows(rules@.take(0), names as int, codes as int) == head);
    }
    let mut i: usize = 0;
    while i < rules.len()
        invariant
            i <= rules@.len(),
            crate::document::fragments(pieces@) == head + table_rows(
                rules@.take(i as int),
                names as int,
                codes as int,
            ),
        decreases rules@.len() - i,
    {
        let ghost before = pieces@;
        let mut next = row(&rules[i], names, codes);
        let ghost added = next@;
        pieces.append(&mut next);
        proof {
            assert(rules@.take(i + 1).drop_last() == rules@.take(i as int));
            assert(crate::document::fragments(pieces@) == crate::document::fragments(before)
                + crate::document::fragments(added));
            assert(head + table_rows(rules@.take(i + 1), names as int, codes as int) == head
                + table_rows(rules@.take(i as int), names as int, codes as int) + table_row(
                rules@[i as int],
                names as int,
                codes as int,
            ));
        }
        i += 1;
    }
    assert(rules@.take(rules@.len() as int) == rules@);
    let ghost before = pieces@;
    let mut foot = vec![
        plain_piece("\n  Run "),
        styled_piece("mago lint --explain <CODE>", Style::Bold),
        plain_piece(" to see more information about a specific rule.\n\n"),
    ];
    let ghost added = foot@;
    assert(crate::document::fragments(added) == table_foot());
    pieces.append(&mut foot);
    assert(crate::document::fragments(pieces@) == crate::document::fragments(before)
        + crate::document::fragments(added));
    RuleListing::Document(pieces)
}

} // verus!
