//! What holds of explanations and of the table of rules.
use crate::rules::{RuleEntry, RuleMeta};
use vstd::prelude::*;

verus! {

/// A rule is explained exactly if there is one with the code, and then the first such rule.
pub proof fn explained_if_there_is_such_a_rule(rules: Seq<RuleMeta>, code: Seq<char>)
    ensures
        0 <= crate::rules::rule_with_code(rules, code) <= rules.len(),
        crate::rules::rule_with_code(rules, code) < rules.len() <==> exists|i: int|
            0 <= i < rules.len() && (#[trigger] rules[i]).code@ == code,
        crate::rules::rule_with_code(rules, code) < rules.len()
            ==> rules[crate::rules::rule_with_code(rules, code)].code@ == code,
        forall|i: int|
            0 <= i < crate::rules::rule_with_code(rules, code) ==> (#[trigger] rules[i]).code@
                != code,
    decreases rules.len(),
{
    if rules.len() > 0 && rules[0].code@ != code {
        let rest = rules.skip(1);
        explained_if_there_is_such_a_rule(rest, code);
        assert forall|i: int|
            0 <= i < crate::rules::rule_with_code(rules, code) implies (#[trigger] rules[i]).code@
            != code by {
            if i > 0 {
                assert(rest[i - 1] == rules[i]);
            }
        }
        if exists|i: int| 0 <= i < rules.len() && (#[trigger] rules[i]).code@ == code {
            let i = choose|i: int| 0 <= i < rules.len() && (#[trigger] rules[i]).code@ == code;
            assert(rest[i - 1].code@ == code);
        }
    }
}

proof fn lemma_no_more_chars_than_bytes(s: Seq<char>)
    ensures
        s.len() <= crate::text::byte_len(s),
    decreases s.len(),
{
    if s.len() > 0 {
        lemma_no_more_chars_than_bytes(s.drop_first());
        assert(s == seq![s[0]] + s.drop_first());
        crate::text::lemma_byte_len_add(seq![s[0]], s.drop_first());
        assert(seq![s[0]].drop_first() == Seq::<char>::empty());
    }
}

proof fn lemma_padded_len(text: Seq<char>, width: int)
    requires
        text.len() <= width,
    ensures
        crate::paint::padded(text, width).len() == width,
    decreases width - text.len(),
{
    if text.len() < width {
        lemma_padded_len(text.push(' '), width);
    }
}

pub proof fn lemma_widths_cover(rules: Seq<RuleEntry>, i: int)
    requires
        0 <= i < rules.len(),
    ensures
        crate::text::byte_len(rules[i].meta.name@) <= crate::rules::name_width(rules),
        crate::text::byte_len(rules[i].meta.code@) <= crate::rules::code_width(rules),
    decreases rules.len(),
{
    if i < rules.len() - 1 {
        lemma_widths_cover(rules.drop_last(), i);
    }
}

/// In the table of rules each column is as wide in one row as in another.
pub proof fn columns_are_aligned(rules: Seq<RuleEntry>, i: int)
    requires
        0 <= i < rules.len(),
    ensures
        crate::paint::padded(
            rules[i].meta.name@,
            crate::rules::name_width(rules) as int,
        ).len() == crate::rules::name_width(rules),
        crate::paint::padded(
            rules[i].meta.code@,
            crate::rules::code_width(rules) as int,
        ).len() == crate::rules::code_width(rules),
        crate::paint::padded(
            crate::rules::level_name(rules[i].level),
            crate::rules::LEVEL_WIDTH as int,
        ).len() == crate::rules::LEVEL_WIDTH,
{
    lemma_widths_cover(rules, i);
    lemma_no_more_chars_than_bytes(rules[i].meta.name@);
    lemma_no_more_chars_than_bytes(rules[i].meta.code@);
    lemma_padded_len(rules[i].meta.name@, crate::rules::name_width(rules) as int);
    lemma_padded_len(rules[i].meta.code@, crate::rules::code_width(rules) as int);
    reveal_strlit("Error");
    reveal_strlit("Warning");
    reveal_strlit("Help");
    reveal_strlit("Note");
    lemma_padded_len(
        crate::rules::level_name(rules[i].level),
        crate::rules::LEVEL_WIDTH as int,
    );
}

} // verus!
