//! The files of a commit.
use crate::fix::ChangeType;
use crate::path_key::PathKey;
use vstd::prelude::*;

verus! {

/// A file of a commit.
#[derive(Debug)]
pub struct CommitFile {
    /// Its path in the workspace.
    pub path: PathKey,
    /// The extension of its name, if it has one.
    pub extension: Option<String>,
    /// How the commit changed it.
    pub change: ChangeType,
}

/// The file has one of the extensions.
pub open spec fn is_source(file: CommitFile, extensions: Seq<String>) -> bool {
    match file.extension {
        Some(extension) => crate::text::views(extensions).contains(extension@),
        None => false,
    }
}

/// How each of the files at these positions changed.
pub open spec fn changes(files: Seq<CommitFile>, kept: Seq<usize>) -> Seq<ChangeType> {
    Seq::new(kept.len(), |k: int| files[kept[k] as int].change)
}

/// Whether a text is in a list.
pub fn is_listed(text: &String, list: &Vec<String>) -> (r: bool)
    ensures
        r == crate::text::views(list@).contains(text@),
{
    let mut i: usize = 0;
    let ghost all = crate::text::views(list@);
    while i < list.len()
        invariant
            i <= list@.len(),
            all == crate::text::views(list@),
            forall|j: int| 0 <= j < i ==> (#[trigger] all[j]) != text@,
        decreases list@.len() - i,
    {
        if list[i] == *text {
            assert(all[i as int] == text@);
            return true;
        }
        i += 1;
    }
    false
}

/// The positions of the files that have one of the extensions.
pub fn source_files(files: &Vec<CommitFile>, extensions: &Vec<String>) -> (r: Vec<usize>)
    ensures
        crate::fix::lists_positions(
            r@,
            files@.len(),
            |i: int| is_source(files@[i], extensions@),
        ),
{
    let mut r: Vec<usize> = Vec::new();
    let mut i: usize = 0;
    let ghost chosen = |i: int| is_source(files@[i], extensions@);
    while i < files.len()
        invariant
            i <= files@.len(),
            chosen == |i: int| is_source(files@[i], extensions@),
            crate::fix::lists_positions(r@, i as nat, chosen),
        decreases files@.len() - i,
    {
        let keep = match &files[i].extension {
            Some(extension) => is_listed(extension, extensions),
            None => false,
        };
        assert(keep == chosen(i as int));
        proof {
            crate::fix::lemma_lists_next(r@, i, chosen);
        }
        if keep {
            r.push(i);
        }
        i += 1;
    }
    r
}

/// How each of the files at these positions changed.
pub fn changes_of(files: &Vec<CommitFile>, kept: &Vec<usize>) -> (r: Vec<ChangeType>)
    requires
        forall|k: int| 0 <= k < kept@.len() ==> (#[trigger] kept@[k]) < files@.len(),
    ensures
        r@ == changes(files@, kept@),
{
    let mut r: Vec<ChangeType> = Vec::new();
    let mut k: usize = 0;
    while k < kept.len()
        invariant
            k <= kept@.len(),
            r@ == changes(files@, kept@.take(k as int)),
            forall|l: int| 0 <= l < kept@.len() ==> (#[trigger] kept@[l]) < files@.len(),
        decreases kept@.len() - k,
    {
        r.push(files[kept[k]].change);
        k += 1;
        assert(r@ == changes(files@, kept@.take(k as int)));
    }
    assert(kept@.take(kept@.len() as int) == kept@);
    r
}

/// How the file with this path changed, going by the first of the files at these positions
/// that has it. A file that is not among them was there before.
pub open spec fn change_at(files: Seq<CommitFile>, kept: Seq<usize>, path: Seq<Seq<u8>>) -> ChangeType
    decreases kept.len(),
{
    if kept.len() == 0 {
        ChangeType::Modified
    } else if files[kept[0] as int].path@ == path {
        files[kept[0] as int].change
    } else {
        change_at(files, kept.skip(1), path)
    }
}

/// How the file with this path changed.
pub fn change_of(files: &Vec<CommitFile>, kept: &Vec<usize>, path: &PathKey) -> (r: ChangeType)
    requires
        forall|k: int| 0 <= k < kept@.len() ==> (#[trigger] kept@[k]) < files@.len(),
    ensures
        r == change_at(files@, kept@, path@),
{
    let mut k: usize = 0;
    assert(kept@.skip(0) == kept@);
    while k < kept.len()
        invariant
            k <= kept@.len(),
            change_at(files@, kept@, path@) == change_at(files@, kept@.skip(k as int), path@),
            forall|l: int| 0 <= l < kept@.len() ==> (#[trigger] kept@[l]) < files@.len(),
        decreases kept@.len() - k,
    {
        assert(kept@.skip(k as int)[0] == kept@[k as int]);
        let file = &files[kept[k]];
        if file.path.same(path) {
            return file.change;
        }
        assert(kept@.skip(k as int).skip(1) == kept@.skip(k + 1));
        k += 1;
    }
    ChangeType::Modified
}

} // verus!
