//! What became of the files of a run, and how a run counts them.
use vstd::prelude::*;

verus! {

/// What became of a file.
#[derive(Debug, Clone, Copy, PartialEq, Eq, Structural)]
pub enum FileVerdict {
    /// There was nothing to do in it.
    Skipped,
    /// It was written.
    Changed,
    /// It stays as it is for another reason, and is not counted.
    Left,
}

/// The positions of the changed files, in ascending order.
pub open spec fn changed(verdicts: Seq<FileVerdict>) -> Seq<int>
    decreases verdicts.len(),
{
    if verdicts.len() == 0 {
        seq![]
    } else if verdicts.last() == FileVerdict::Changed {
        changed(verdicts.drop_last()).push(verdicts.len() - 1)
    } else {
        changed(verdicts.drop_last())
    }
}

/// How many files were skipped.
pub open spec fn skipped(verdicts: Seq<FileVerdict>) -> nat
    decreases verdicts.len(),
{
    if verdicts.len() == 0 {
        0
    } else if verdicts.last() == FileVerdict::Skipped {
        skipped(verdicts.drop_last()) + 1
    } else {
        skipped(verdicts.drop_last())
    }
}

/// The positions in `list` as mathematical integers.
pub open spec fn positions(list: Seq<usize>) -> Seq<int> {
    list.map_values(|i: usize| i as int)
}

/// The positions of the changed files, in ascending order.
pub fn changed_files(verdicts: &Vec<FileVerdict>) -> (r: Vec<usize>)
    ensures
        positions(r@) == changed(verdicts@),
{
    let mut r: Vec<usize> = Vec::new();
    let mut i: usize = 0;
    assert(positions(r@) == changed(verdicts@.take(0)));
    while i < verdicts.len()
        invariant
            i <= verdicts@.len(),
            positions(r@) == changed(verdicts@.take(i as int)),
        decreases verdicts@.len() - i,
    {
        assert(verdicts@.take(i + 1).drop_last() == verdicts@.take(i as int));
        if verdicts[i] == FileVerdict::Changed {
            assert(positions(r@.push(i)) == positions(r@).push(i as int));
            r.push(i);
        }
        i += 1;
    }
    assert(verdicts@.take(verdicts@.len() as int) == verdicts@);
    r
}

/// How many files were skipped.
pub fn skipped_files(verdicts: &Vec<FileVerdict>) -> (r: usize)
    ensures
        r == skipped(verdicts@),
{
    let mut n: usize = 0;
    let mut i: usize = 0;
    while i < verdicts.len()
        invariant
            n <= i <= verdicts@.len(),
            n == skipped(verdicts@.take(i as int)),
        decreases verdicts@.len() - i,
    {
        assert(verdicts@.take(i + 1).drop_last() == verdicts@.take(i as int));
        if verdicts[i] == FileVerdict::Skipped {
            n += 1;
        }
        i += 1;
    }
    assert(verdicts@.take(verdicts@.len() as int) == verdicts@);
    n
}

/// The changed files are those whose verdict says so, each once and in their order.
pub proof fn changed_lists_the_changed_files(verdicts: Seq<FileVerdict>)
    ensures
        forall|k: int, l: int|
            0 <= k < l < changed(verdicts).len() ==> (#[trigger] changed(verdicts)[k])
                < #[trigger] changed(verdicts)[l],
        forall|i: int|
            changed(verdicts).contains(i) <==> (0 <= i < verdicts.len() && #[trigger] verdicts[i]
                == FileVerdict::Changed),
    decreases verdicts.len(),
{
    if verdicts.len() > 0 {
        let before = verdicts.drop_last();
        let n = verdicts.len() - 1;
        changed_lists_the_changed_files(before);
        assert forall|k: int| 0 <= k < changed(before).len() implies #[trigger] changed(before)[k]
            < n by {
            assert(changed(before).contains(changed(before)[k]));
            let i = changed(before)[k];
            assert(0 <= i < before.len() && before[i] == FileVerdict::Changed);
        }
        assert forall|i: int|
            changed(verdicts).contains(i) <==> (0 <= i < verdicts.len() && #[trigger] verdicts[i]
                == FileVerdict::Changed) by {
            assert(before[i] == before[i]);
            assert(0 <= i < n ==> verdicts[i] == before[i]);
            if changed(verdicts).contains(i) {
                let k = choose|k: int|
                    0 <= k < changed(verdicts).len() && changed(verdicts)[k] == i;
                if k < changed(before).len() {
                    assert(changed(before)[k] == i);
                    assert(changed(before).contains(i));
                }
            }
            if 0 <= i < n && verdicts[i] == FileVerdict::Changed {
                assert(changed(before).contains(i));
                let k = choose|k: int| 0 <= k < changed(before).len() && changed(before)[k] == i;
                assert(changed(verdicts)[k] == i);
            }
            if i == n && verdicts[i] == FileVerdict::Changed {
                assert(changed(verdicts)[changed(before).len() as int] == i);
            }
        }
    }
}

/// No file is counted both as changed and as skipped.
pub proof fn counts_do_not_exceed_the_files(verdicts: Seq<FileVerdict>)
    ensures
        changed(verdicts).len() + skipped(verdicts) <= verdicts.len(),
    decreases verdicts.len(),
{
    if verdicts.len() > 0 {
        counts_do_not_exceed_the_files(verdicts.drop_last());
    }
}

} // verus!
