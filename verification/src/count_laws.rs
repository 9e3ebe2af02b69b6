//! How files and issues are counted and put together, and how paths are compared.
use crate::lint::LintMode;
use crate::path_key::PathKey;
use crate::service::Findings;
use crate::verdict::FileVerdict;
use vstd::prelude::*;

verus! {

/// Files that were skipped are counted one by one: one file counts if it was skipped, and
/// the counts of two lists of files add up.
pub proof fn skipped_files_are_counted_one_by_one(
    one: Seq<FileVerdict>,
    other: Seq<FileVerdict>,
    verdict: FileVerdict,
)
    ensures
        crate::verdict::skipped(seq![]) == 0,
        crate::verdict::skipped(seq![verdict]) == (if verdict == FileVerdict::Skipped {
            1nat
        } else {
            0nat
        }),
        crate::verdict::skipped(one + other) == crate::verdict::skipped(one)
            + crate::verdict::skipped(other),
    decreases other.len(),
{
    assert(seq![verdict].drop_last() == Seq::<FileVerdict>::empty());
    assert(crate::verdict::skipped(seq![verdict].drop_last()) == 0);
    if other.len() == 0 {
        assert(one + other == one);
    } else {
        skipped_files_are_counted_one_by_one(one, other.drop_last(), verdict);
        assert((one + other).drop_last() == one + other.drop_last());
    }
}

/// A list of positions has the same numbers in the same places.
pub proof fn positions_are_kept(list: Seq<usize>)
    ensures
        crate::verdict::positions(list).len() == list.len(),
        forall|k: int|
            0 <= k < list.len() ==> #[trigger] crate::verdict::positions(list)[k] == list[k],
{
}

/// Of a file come first the errors of parsing it, then what checking it found, and then, in
/// full mode only, what the rules found. Nothing is left out and nothing is added.
pub proof fn issues_of_a_file_come_in_order<T>(findings: Findings<T>, mode: LintMode)
    ensures
        ({
            let all = crate::service::file_issues(mode, findings);
            let errors = findings.parse_errors@.len() as int;
            let checked = errors + findings.semantic@.len();
            &&& all.take(errors) == findings.parse_errors@
            &&& all.subrange(errors, checked) == findings.semantic@
            &&& mode == LintMode::Full ==> all.skip(checked) == findings.rules@
            &&& mode == LintMode::SemanticsOnly ==> all.len() == checked
        }),
{
    let all = crate::service::file_issues(mode, findings);
    let errors = findings.parse_errors@.len() as int;
    let checked = errors + findings.semantic@.len();
    assert(all.take(errors) == findings.parse_errors@);
    assert(all.subrange(errors, checked) == findings.semantic@);
    if mode == LintMode::Full {
        assert(all.skip(checked) == findings.rules@);
    }
}

/// Results are put one behind the other: none give no issues, one gives its own, and two
/// lists of results can be reduced apart.
pub proof fn results_are_put_one_behind_the_other<T>(
    one: Seq<Vec<T>>,
    other: Seq<Vec<T>>,
    list: Vec<T>,
)
    ensures
        crate::service::concatenated(Seq::<Vec<T>>::empty()) == Seq::<T>::empty(),
        crate::service::concatenated(seq![list]) == list@,
        crate::service::concatenated(one + other) == crate::service::concatenated(one)
            + crate::service::concatenated(other),
    decreases other.len(),
{
    assert(seq![list].drop_last() == Seq::<Vec<T>>::empty());
    assert(crate::service::concatenated(seq![list].drop_last()) == Seq::<T>::empty());
    assert(crate::service::concatenated(seq![list]) == list@);
    if other.len() == 0 {
        assert(one + other == one);
        assert(crate::service::concatenated(one) + crate::service::concatenated(other)
            == crate::service::concatenated(one));
    } else {
        results_are_put_one_behind_the_other(one, other.drop_last(), list);
        assert((one + other).drop_last() == one + other.drop_last());
        assert(crate::service::concatenated(one) + crate::service::concatenated(other.drop_last())
            + other.last()@ == crate::service::concatenated(one) + crate::service::concatenated(
            other,
        ));
    }
}

/// Two paths are the same exactly if they have the same components, byte for byte.
pub proof fn paths_are_compared_by_their_components(one: PathKey, other: PathKey)
    ensures
        one@ == other@ <==> one.parts@.len() == other.parts@.len() && forall|i: int|
            0 <= i < one.parts@.len() ==> (#[trigger] one.parts@[i])@ == other.parts@[i]@,
{
    if one@ == other@ {
        assert(one@.len() == one.parts@.len());
        assert forall|i: int| 0 <= i < one.parts@.len() implies (#[trigger] one.parts@[i])@
            == other.parts@[i]@ by {
            assert(one@[i] == one.parts@[i]@);
            assert(other@[i] == other.parts@[i]@);
        }
    }
    if one.parts@.len() == other.parts@.len() && forall|i: int|
        0 <= i < one.parts@.len() ==> (#[trigger] one.parts@[i])@ == other.parts@[i]@ {
        assert(one@ == other@);
    }
}

} // verus!
