//! What an explanation of a rule, and a table of rules, show of each rule.
use crate::document::Fragment;
use crate::paint::Style;
use crate::rules::{Level, RuleEntry, RuleMeta};
use vstd::prelude::*;

verus! {

/// Text without a style.
pub open spec fn bare(text: Seq<char>) -> Fragment {
    Fragment { text, style: Style::Plain, width: 0 }
}

/// Text in a style.
pub open spec fn inked(text: Seq<char>, style: Style) -> Fragment {
    Fragment { text, style, width: 0 }
}

pub proof fn lemma_blank(text: Seq<char>)
    ensures
        crate::word_laws::all_white(text) <==> crate::words::trim(text).len() == 0,
{
    crate::word_laws::trimming_takes_white_space_off_both_ends(text);
    let (before, after) = crate::word_laws::trimmed_off(text);
    let kept = crate::words::trim(text);
    if crate::word_laws::all_white(text) && kept.len() > 0 {
        assert(text[before.len() as int] == kept[0]);
    }
    if kept.len() == 0 {
        assert forall|i: int| 0 <= i < text.len() implies crate::words::is_white_space(
            #[trigger] text[i],
        ) by {
            if i < before.len() {
                assert(text[i] == before[i]);
            } else {
                assert(text[i] == after[i - before.len()]);
            }
        }
    }
}

/// A line of code in a block at fragment `at`: behind the gutter its indentation, which is
/// white space, and then its code, which begins with none and is set off if it begins with a
/// tag.
pub open spec fn shows_line(block: Seq<Fragment>, at: int, line: Seq<char>) -> bool {
    let indent = block[at + 1].text;
    let code = block[at + 2].text;
    &&& block[at] == bare("  │    "@)
    &&& block[at + 1] == inked(indent, Style::BrightBlack)
    &&& block[at + 2] == inked(
        code,
        if code.len() >= 2 && ((code[0] == '<' && code[1] == '?') || (code[0] == '?' && code[1]
            == '>')) {
            Style::YellowBold
        } else {
            Style::Plain
        },
    )
    &&& line == indent + code
    &&& crate::word_laws::all_white(indent)
    &&& code.len() > 0 ==> !crate::words::is_white_space(code[0])
}

/// A block shows these lines, one below the other.
pub open spec fn shows_lines(block: Seq<Fragment>, lines: Seq<Seq<char>>) -> bool {
    &&& block.len() == (if lines.len() == 0 {
        0
    } else {
        4 * lines.len() - 1
    })
    &&& forall|i: int|
        0 <= i < lines.len() ==> shows_line(block, 4 * i, #[trigger] lines[i]) && (i < lines.len()
            - 1 ==> block[4 * i + 3] == bare("\n"@))
}

proof fn lemma_line_shown(line: Seq<char>)
    ensures
        crate::document::line_fragments(line).len() == 3,
        shows_line(crate::document::line_fragments(line), 0, line),
{
    crate::word_laws::trimming_the_start(line);
    let code = crate::words::trim_start(line);
    let indent = crate::document::indentation(line);
    assert(line == indent + code);
}

proof fn lemma_block_shown(lines: Seq<Seq<char>>)
    ensures
        shows_lines(crate::document::block_fragments(lines), lines),
    decreases lines.len(),
{
    let block = crate::document::block_fragments(lines);
    if lines.len() == 1 {
        lemma_line_shown(lines[0]);
    } else if lines.len() > 1 {
        let init = lines.drop_last();
        let before = crate::document::block_fragments(init);
        let last = crate::document::line_fragments(lines.last());
        lemma_block_shown(init);
        lemma_line_shown(lines.last());
        let n = lines.len() - 1;
        assert(block == before + seq![crate::document::plain("\n"@)] + last);
        assert(before.len() == 4 * n - 1);
        assert forall|i: int| 0 <= i < lines.len() implies shows_line(
            block,
            4 * i,
            #[trigger] lines[i],
        ) && (i < lines.len() - 1 ==> block[4 * i + 3] == bare("\n"@)) by {
            if i < n {
                assert(shows_line(before, 4 * i, init[i]));
                assert(block[4 * i] == before[4 * i]);
                assert(block[4 * i + 1] == before[4 * i + 1]);
                assert(block[4 * i + 2] == before[4 * i + 2]);
                if i < n - 1 {
                    assert(block[4 * i + 3] == before[4 * i + 3]);
                }
            } else {
                assert(block[4 * n] == last[0]);
                assert(block[4 * n + 1] == last[1]);
                assert(block[4 * n + 2] == last[2]);
            }
        }
    }
}

/// A block of code shows the lines of the code without the white space around it: each
/// behind the gutter, with its indentation, and set off if it begins with a tag.
pub proof fn blocks_show_each_line(code: Seq<char>)
    ensures
        shows_lines(
            crate::document::code_fragments(code),
            crate::text::lines(crate::words::trim(code)),
        ),
{
    lemma_block_shown(crate::text::lines(crate::words::trim(code)));
}

/// What is shown of an example under its title, if it is not blank.
pub open spec fn shows_example(
    list: Seq<Fragment>,
    at: int,
    title: Fragment,
    example: Seq<char>,
) -> bool {
    let block = crate::document::code_fragments(example);
    &&& list[at] == bare("  │\n  │  "@)
    &&& list[at + 1] == title
    &&& list[at + 2] == bare("\n  │\n"@)
    &&& list.subrange(at + 3, at + 3 + block.len()) == block
    &&& list[at + 3 + block.len()] == bare("\n"@)
}

/// How many fragments an example takes.
pub open spec fn example_len(example: Seq<char>) -> int {
    if crate::word_laws::all_white(example) {
        0
    } else {
        4 + crate::document::code_fragments(example).len() as int
    }
}

proof fn lemma_code_styles(example: Seq<char>, k: int)
    requires
        0 <= k < crate::document::code_fragments(example).len(),
    ensures
        ({
            let style = crate::document::code_fragments(example)[k].style;
            style == Style::Plain || style == Style::BrightBlack || style == Style::YellowBold
        }),
{
    let block = crate::document::code_fragments(example);
    let lines = crate::text::lines(crate::words::trim(example));
    blocks_show_each_line(example);
    let i = k / 4;
    assert(shows_line(block, 4 * i, lines[i]));
}

/// The good example is shown under its title exactly if it is not blank, whatever the bad
/// example is, and the bad example behind it exactly if that is not blank, whatever the good
/// one is. Each is shown as a block of code.
pub proof fn examples_are_shown_unless_blank(meta: RuleMeta)
    ensures
        ({
            let list = crate::rules::explanation(meta);
            let good = example_len(meta.good_example@);
            let bad = example_len(meta.bad_example@);
            &&& list.len() == 15 + good + bad + 5
            &&& !crate::word_laws::all_white(meta.good_example@) ==> shows_example(
                list,
                15,
                inked("✅ Good Example"@, Style::GreenBold),
                meta.good_example@,
            )
            &&& !crate::word_laws::all_white(meta.bad_example@) ==> shows_example(
                list,
                15 + good,
                inked("🚫 Bad Example"@, Style::RedBold),
                meta.bad_example@,
            )
            &&& list.contains(inked("✅ Good Example"@, Style::GreenBold))
                <==> !crate::word_laws::all_white(meta.good_example@)
            &&& list.contains(inked("🚫 Bad Example"@, Style::RedBold))
                <==> !crate::word_laws::all_white(meta.bad_example@)
        }),
{
    let list = crate::rules::explanation(meta);
    let good_title = inked("✅ Good Example"@, Style::GreenBold);
    let bad_title = inked("🚫 Bad Example"@, Style::RedBold);
    let good = example_len(meta.good_example@);
    let bad = example_len(meta.bad_example@);
    lemma_blank(meta.good_example@);
    lemma_blank(meta.bad_example@);
    let a = crate::rules::description_part(meta);
    let b = crate::rules::example_part("✅ Good Example"@, Style::GreenBold, meta.good_example@);
    let c = crate::rules::example_part("🚫 Bad Example"@, Style::RedBold, meta.bad_example@);
    let d = crate::rules::try_part(meta);
    assert(list == a + b + c + d);
    assert(b.len() == good && c.len() == bad);
    let good_block = crate::document::code_fragments(meta.good_example@);
    let bad_block = crate::document::code_fragments(meta.bad_example@);
    if !crate::word_laws::all_white(meta.good_example@) {
        assert(list[15] == b[0] && list[16] == b[1] && list[17] == b[2]);
        assert(list.subrange(18, 18 + good_block.len() as int) == good_block);
        assert(list[18 + good_block.len() as int] == b[3 + good_block.len() as int]);
        assert(list[16] == good_title);
    }
    if !crate::word_laws::all_white(meta.bad_example@) {
        assert(list[15 + good] == c[0] && list[16 + good] == c[1] && list[17 + good] == c[2]);
        assert(list.subrange(18 + good, 18 + good + bad_block.len()) == bad_block);
        assert(list[18 + good + bad_block.len()] == c[3 + bad_block.len() as int]);
        assert(list[16 + good] == bad_title);
    }
    assert forall|k: int| 0 <= k < list.len() && (#[trigger] list[k]).style
        == Style::GreenBold implies !crate::word_laws::all_white(meta.good_example@) by {
        if k < 15 {
            assert(list[k] == a[k]);
        } else if 15 + good <= k < 15 + good + bad {
            assert(list[k] == c[k - 15 - good]);
            if 18 + good <= k < 18 + good + bad_block.len() {
                lemma_code_styles(meta.bad_example@, k - 18 - good);
                assert(list[k] == bad_block[k - 18 - good]);
            }
        } else if 15 + good + bad <= k {
            assert(list[k] == d[k - 15 - good - bad]);
        }
    }
    assert forall|k: int| 0 <= k < list.len() && (#[trigger] list[k]).style
        == Style::RedBold implies !crate::word_laws::all_white(meta.bad_example@) by {
        if k < 15 {
            assert(list[k] == a[k]);
        } else if k < 15 + good {
            assert(list[k] == b[k - 15]);
            if 18 <= k < 18 + good_block.len() {
                lemma_code_styles(meta.good_example@, k - 18);
                assert(list[k] == good_block[k - 18]);
            }
        } else if 15 + good + bad <= k {
            assert(list[k] == d[k - 15 - good - bad]);
        }
    }
}

/// Every explanation begins with the name of the rule, its description, wrapped to eighty
/// columns, its code and its category, and ends with the command that runs the rule alone.
pub proof fn explanations_tell_what_the_rule_is(meta: RuleMeta)
    ensures
        ({
            let list = crate::rules::explanation(meta);
            &&& list.len() >= 20
            &&& list.take(15) == seq![
                bare("\n  ╭─ "@),
                inked("Rule"@, Style::Bold),
                bare(" "@),
                inked(meta.name@, Style::CyanBold),
                bare("\n  │\n"@),
                bare(crate::wrap::wrapped_text(meta.description@, "  │  "@, 80)),
                bare("\n  │\n  │  "@),
                inked("Code"@, Style::Bold),
                bare(": "@),
                inked(meta.code@, Style::Yellow),
                bare("\n  │  "@),
                inked("Category"@, Style::Bold),
                bare(": "@),
                inked(meta.category@, Style::Magenta),
                bare("\n"@),
            ]
            &&& list.skip(list.len() - 5) == seq![
                bare("  │\n  │  "@),
                inked("Try it out!"@, Style::Bold),
                bare("\n  │    "@),
                inked("mago lint --only "@ + meta.code@, Style::BrightBlack),
                bare("\n  ╰─\n\n"@),
            ]
        }),
{
    let list = crate::rules::explanation(meta);
    assert(list.take(15) == crate::rules::description_part(meta));
    assert(list.skip(list.len() - 5) == crate::rules::try_part(meta));
}

/// Two rules that differ in an example only are explained alike but for that example.
pub proof fn examples_are_independent(one: RuleMeta, other: RuleMeta)
    requires
        one.name == other.name,
        one.code == other.code,
        one.description == other.description,
        one.category == other.category,
        one.good_example == other.good_example,
    ensures
        ({
            let n = 15 + example_len(one.good_example@);
            &&& crate::rules::explanation(one).take(n) == crate::rules::explanation(other).take(n)
            &&& crate::rules::explanation(one).skip(n + example_len(one.bad_example@))
                == crate::rules::explanation(other).skip(n + example_len(other.bad_example@))
        }),
{
    let n = 15 + example_len(one.good_example@);
    lemma_blank(one.good_example@);
    lemma_blank(one.bad_example@);
    lemma_blank(other.bad_example@);
    let head = crate::rules::description_part(one) + crate::rules::example_part(
        "✅ Good Example"@,
        Style::GreenBold,
        one.good_example@,
    );
    assert(head.len() == n);
    assert(crate::rules::explanation(one).take(n) == head);
    assert(crate::rules::explanation(other).take(n) == head);
    assert(crate::rules::explanation(one).skip(n + example_len(one.bad_example@))
        == crate::rules::try_part(one));
    assert(crate::rules::explanation(other).skip(n + example_len(other.bad_example@))
        == crate::rules::try_part(one));
}

/// A code that no rule has is named in the complaint.
pub proof fn unknown_codes_are_named(code: Seq<char>)
    ensures
        crate::rules::not_found_document(code) == seq![
            bare("\n  "@),
            inked("Error: Rule not found"@, Style::RedBold),
            bare("\n  "@),
            inked("Could not find a rule with the code '"@ + code + "'."@, Style::BrightBlack),
            bare("\n  "@),
            inked("Please check the spelling and try again."@, Style::BrightBlack),
            bare("\n\n"@),
        ],
{
}

proof fn lemma_names_reach(rules: Seq<RuleEntry>)
    requires
        rules.len() > 0,
    ensures
        exists|i: int|
            0 <= i < rules.len() && crate::text::byte_len((#[trigger] rules[i]).meta.name@)
                == crate::rules::name_width(rules),
    decreases rules.len(),
{
    let init = rules.drop_last();
    let last = rules.len() - 1;
    assert(rules[last] == rules.last());
    assert(init.len() == 0 ==> crate::rules::name_width(init) == 0);
    if crate::text::byte_len(rules.last().meta.name@) != crate::rules::name_width(rules) {
        lemma_names_reach(init);
        let i = choose|i: int|
            0 <= i < init.len() && crate::text::byte_len((#[trigger] init[i]).meta.name@)
                == crate::rules::name_width(init);
        assert(rules[i] == init[i]);
    } else {
        assert(crate::text::byte_len(rules[last].meta.name@) == crate::rules::name_width(rules));
    }
}

proof fn lemma_codes_reach(rules: Seq<RuleEntry>)
    requires
        rules.len() > 0,
    ensures
        exists|i: int|
            0 <= i < rules.len() && crate::text::byte_len((#[trigger] rules[i]).meta.code@)
                == crate::rules::code_width(rules),
    decreases rules.len(),
{
    let init = rules.drop_last();
    let last = rules.len() - 1;
    assert(rules[last] == rules.last());
    assert(init.len() == 0 ==> crate::rules::code_width(init) == 0);
    if crate::text::byte_len(rules.last().meta.code@) != crate::rules::code_width(rules) {
        lemma_codes_reach(init);
        let i = choose|i: int|
            0 <= i < init.len() && crate::text::byte_len((#[trigger] init[i]).meta.code@)
                == crate::rules::code_width(init);
        assert(rules[i] == init[i]);
    } else {
        assert(crate::text::byte_len(rules[last].meta.code@) == crate::rules::code_width(rules));
    }
}

/// The largest number of bytes that one of the texts takes.
pub open spec fn is_largest_len(texts: Seq<Seq<char>>, width: int) -> bool {
    &&& exists|i: int|
        0 <= i < texts.len() && vstd::utf8::encode_utf8(#[trigger] texts[i]).len() == width
    &&& forall|i: int|
        0 <= i < texts.len() ==> vstd::utf8::encode_utf8(#[trigger] texts[i]).len() <= width
}

/// The name and the style of a level.
pub open spec fn level_cell(level: Level) -> Fragment {
    match level {
        Level::Error => Fragment { text: "Error"@, style: Style::RedBold, width: 8 },
        Level::Warning => Fragment { text: "Warning"@, style: Style::YellowBold, width: 8 },
        Level::Help => Fragment { text: "Help"@, style: Style::GreenBold, width: 8 },
        Level::Note => Fragment { text: "Note"@, style: Style::BlueBold, width: 8 },
    }
}

/// The row of a rule in a table with columns of these widths.
pub open spec fn row_of(rule: RuleEntry, names: int, codes: int) -> Seq<Fragment> {
    seq![
        bare("  "@),
        Fragment { text: rule.meta.name@, style: Style::Cyan, width: names },
        bare("   "@),
        Fragment { text: rule.meta.code@, style: Style::BrightBlack, width: codes },
        bare("   "@),
        level_cell(rule.level),
        bare("   "@),
        inked(rule.meta.category@, Style::Magenta),
        bare("\n"@),
    ]
}

proof fn lemma_rows(rules: Seq<RuleEntry>, names: int, codes: int)
    ensures
        crate::rules::table_rows(rules, names, codes).len() == 9 * rules.len(),
        forall|i: int|
            0 <= i < rules.len() ==> crate::rules::table_rows(rules, names, codes).subrange(
                9 * i,
                9 * i + 9,
            ) == row_of(#[trigger] rules[i], names, codes),
    decreases rules.len(),
{
    let rows = crate::rules::table_rows(rules, names, codes);
    if rules.len() > 0 {
        let init = rules.drop_last();
        let before = crate::rules::table_rows(init, names, codes);
        lemma_rows(init, names, codes);
        assert forall|i: int| 0 <= i < rules.len() implies rows.subrange(9 * i, 9 * i + 9)
            == row_of(#[trigger] rules[i], names, codes) by {
            if i < init.len() {
                assert(before.subrange(9 * i, 9 * i + 9) == row_of(init[i], names, codes));
                assert(rows.subrange(9 * i, 9 * i + 9) == before.subrange(9 * i, 9 * i + 9));
            } else {
                assert(rows.subrange(9 * i, 9 * i + 9) == crate::rules::table_row(
                    rules[i],
                    names,
                    codes,
                ));
                assert(crate::rules::table_row(rules[i], names, codes) == row_of(
                    rules[i],
                    names,
                    codes,
                ));
            }
        }
    }
}

/// The table has a head, one row for each rule, in the order of the rules, and a foot. The
/// columns of names and codes are as wide as the longest name and the longest code.
pub proof fn tables_have_a_row_for_each_rule(rules: Seq<RuleEntry>) -> (widths: (int, int))
    requires
        rules.len() > 0,
    ensures
        is_largest_len(Seq::new(rules.len(), |i: int| rules[i].meta.name@), widths.0),
        is_largest_len(Seq::new(rules.len(), |i: int| rules[i].meta.code@), widths.1),
        ({
            let list = crate::rules::rule_document(rules);
            &&& list.len() == 9 + 9 * rules.len() + 3
            &&& list.take(9) == seq![
                bare("\n  "@),
                Fragment { text: "Name"@, style: Style::BoldUnderline, width: widths.0 },
                bare("   "@),
                Fragment { text: "Code"@, style: Style::BoldUnderline, width: widths.1 },
                bare("   "@),
                Fragment { text: "Level"@, style: Style::BoldUnderline, width: 8 },
                bare("   "@),
                inked("Category"@, Style::BoldUnderline),
                bare("\n\n"@),
            ]
            &&& forall|i: int|
                0 <= i < rules.len() ==> list.subrange(9 + 9 * i, 18 + 9 * i) == row_of(
                    #[trigger] rules[i],
                    widths.0,
                    widths.1,
                )
            &&& list.skip(list.len() - 3) == seq![
                bare("\n  Run "@),
                inked("mago lint --explain <CODE>"@, Style::Bold),
                bare(" to see more information about a specific rule.\n\n"@),
            ]
        }),
{
    let list = crate::rules::rule_document(rules);
    let names = crate::rules::name_width(rules) as int;
    let codes = crate::rules::code_width(rules) as int;
    lemma_names_reach(rules);
    lemma_codes_reach(rules);
    let all_names = Seq::new(rules.len(), |i: int| rules[i].meta.name@);
    let all_codes = Seq::new(rules.len(), |i: int| rules[i].meta.code@);
    let i = choose|i: int|
        0 <= i < rules.len() && crate::text::byte_len((#[trigger] rules[i]).meta.name@) == names;
    assert(crate::text::byte_len(all_names[i]) == names);
    let j = choose|j: int|
        0 <= j < rules.len() && crate::text::byte_len((#[trigger] rules[j]).meta.code@) == codes;
    assert(crate::text::byte_len(all_codes[j]) == codes);
    assert forall|i: int| 0 <= i < rules.len() implies crate::text::byte_len(
        #[trigger] all_names[i],
    ) <= names && crate::text::byte_len(all_codes[i]) <= codes by {
        crate::rules_laws::lemma_widths_cover(rules, i);
    }
    assert forall|i: int| 0 <= i < rules.len() implies crate::text::byte_len(
        #[trigger] all_codes[i],
    ) <= codes by {
        crate::rules_laws::lemma_widths_cover(rules, i);
    }
    lemma_rows(rules, names, codes);
    let rows = crate::rules::table_rows(rules, names, codes);
    assert(list.take(9) == crate::rules::table_head(names, codes));
    assert(list.skip(list.len() - 3) == crate::rules::table_foot());
    assert forall|i: int| 0 <= i < rules.len() implies list.subrange(9 + 9 * i, 18 + 9 * i)
        == row_of(#[trigger] rules[i], names, codes) by {
        assert(list.subrange(9 + 9 * i, 18 + 9 * i) == rows.subrange(9 * i, 9 * i + 9));
    }
    (names, codes)
}

/// Where no rules are enabled, that is what is shown.
pub proof fn no_rules_are_said_to_be_none(rules: Seq<RuleEntry>)
    requires
        rules.len() == 0,
    ensures
        crate::rules::rule_document(rules) == seq![
            inked("No rules are currently enabled."@, Style::Yellow),
            bare("\n"@),
        ],
{
}

} // verus!
