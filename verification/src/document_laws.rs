//! What holds of blocks of source code.
use crate::document::Fragment;
use vstd::prelude::*;

verus! {

/// What fragments say without their styles.
pub open spec fn plain_text(list: Seq<Fragment>) -> Seq<char>
    decreases list.len(),
{
    if list.len() == 0 {
        seq![]
    } else {
        plain_text(list.drop_last()) + list.last().text
    }
}

/// Each line behind the gutter.
pub open spec fn behind_the_gutter(lines: Seq<Seq<char>>) -> Seq<Seq<char>> {
    lines.map_values(|line: Seq<char>| crate::document::gutter() + line)
}

proof fn lemma_plain_text_adds(a: Seq<Fragment>, b: Seq<Fragment>)
    ensures
        plain_text(a + b) == plain_text(a) + plain_text(b),
    decreases b.len(),
{
    if b.len() == 0 {
        assert(a + b == a);
    } else {
        lemma_plain_text_adds(a, b.drop_last());
        assert((a + b).drop_last() == a + b.drop_last());
    }
}

proof fn lemma_line(line: Seq<char>)
    ensures
        plain_text(crate::document::line_fragments(line)) == crate::document::gutter() + line,
{
    let list = crate::document::line_fragments(line);
    crate::words::lemma_trim_start(line);
    reveal_with_fuel(plain_text, 4);
    let rest = crate::words::trim_start(line);
    assert(list.drop_last().drop_last().drop_last() == Seq::<Fragment>::empty());
    assert(crate::document::indentation(line) + rest == line);
    assert(plain_text(list) == crate::document::gutter() + crate::document::indentation(line)
        + rest);
}

proof fn lemma_block(lines: Seq<Seq<char>>)
    ensures
        plain_text(crate::document::block_fragments(lines)) == crate::text::join(
            behind_the_gutter(lines),
            seq!['\n'],
        ),
    decreases lines.len(),
{
    let shown = behind_the_gutter(lines);
    if lines.len() == 1 {
        lemma_line(lines[0]);
    } else if lines.len() > 1 {
        let init = lines.drop_last();
        lemma_block(init);
        lemma_line(lines.last());
        let newline = seq![crate::document::plain("\n"@)];
        reveal_strlit("\n");
        assert("\n"@ == seq!['\n']);
        assert(newline.drop_last() == Seq::<Fragment>::empty());
        assert(plain_text(newline.drop_last()) == Seq::<char>::empty());
        assert(plain_text(newline) == seq!['\n']);
        let head = crate::document::block_fragments(init);
        lemma_plain_text_adds(head, newline);
        lemma_plain_text_adds(head + newline, crate::document::line_fragments(lines.last()));
        crate::text::lemma_join_push(
            behind_the_gutter(init),
            seq!['\n'],
            crate::document::gutter() + lines.last(),
        );
        assert(shown == behind_the_gutter(init).push(crate::document::gutter() + lines.last()));
    }
}

/// Without its styles, a block is the lines of the code, each behind the gutter: none is
/// lost, and indentation and blank lines are kept.
pub proof fn blocks_show_the_code(code: Seq<char>)
    ensures
        plain_text(crate::document::code_fragments(code)) == crate::text::join(
            behind_the_gutter(crate::text::lines(crate::words::trim(code))),
            seq!['\n'],
        ),
{
    lemma_block(crate::text::lines(crate::words::trim(code)));
}

proof fn lemma_trim_end(s: Seq<char>)
    ensures
        crate::words::trim_end(s).len() > 0 ==> !crate::words::is_white_space(
            crate::words::trim_end(s).last(),
        ),
    decreases s.len(),
{
    if s.len() > 0 && crate::words::is_white_space(s.last()) {
        lemma_trim_end(s.drop_last());
    }
}

/// A block ends with the code itself, and with no white space behind it.
pub proof fn blocks_end_with_the_code(code: Seq<char>)
    requires
        crate::words::trim(code).len() > 0,
    ensures
        crate::document::code_fragments(code).len() > 0,
        crate::document::code_fragments(code).last().text.len() > 0,
        crate::document::code_fragments(code).last().text.last() == crate::words::trim(
            code,
        ).last(),
        !crate::words::is_white_space(crate::words::trim(code).last()),
{
    let trimmed = crate::words::trim(code);
    let lines = crate::text::lines(trimmed);
    lemma_trim_end(crate::words::trim_start(code));
    crate::text::lemma_last_line(trimmed);
    let line = lines.last();
    crate::words::lemma_trim_start(line);
    let rest = crate::words::trim_start(line);
    lemma_trim_start_keeps_the_end(line);
    assert(crate::document::block_fragments(lines).last() == crate::document::styled(
        rest,
        crate::document::code_style(line),
    ));
}

proof fn lemma_trim_start_keeps_the_end(s: Seq<char>)
    requires
        s.len() > 0,
        !crate::words::is_white_space(s.last()),
    ensures
        crate::words::trim_start(s).len() > 0,
        crate::words::trim_start(s).last() == s.last(),
    decreases s.len(),
{
    if crate::words::is_white_space(s[0]) {
        let rest = s.skip(1);
        assert(s.len() > 1);
        assert(rest.last() == s.last());
        lemma_trim_start_keeps_the_end(rest);
    }
}

} // verus!
