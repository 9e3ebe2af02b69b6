//! Paths as lists of components.
use vstd::prelude::*;

verus! {

/// A path, as the list of its components. Two paths are the same if their components are.
#[derive(Debug, Clone)]
pub struct PathKey {
    pub parts: Vec<Vec<u8>>,
}

impl View for PathKey {
    type V = Seq<Seq<u8>>;

    open spec fn view(&self) -> Seq<Seq<u8>> {
        self.parts@.map_values(|part: Vec<u8>| part@)
    }
}

/// Whether two lists of bytes are the same.
fn same_bytes(a: &Vec<u8>, b: &Vec<u8>) -> (r: bool)
    ensures
        r == (a@ == b@),
{
    if a.len() != b.len() {
        return false;
    }
    let mut i: usize = 0;
    while i < a.len()
        invariant
            i <= a@.len() == b@.len(),
            a@.take(i as int) == b@.take(i as int),
        decreases a@.len() - i,
    {
        if a[i] != b[i] {
            assert(a@[i as int] != b@[i as int]);
            return false;
        }
        i += 1;
        assert(a@.take(i as int) == a@.take(i - 1).push(a@[i - 1]));
        assert(b@.take(i as int) == b@.take(i - 1).push(b@[i - 1]));
    }
    assert(a@.take(a@.len() as int) == a@);
    assert(b@.take(b@.len() as int) == b@);
    true
}

impl PathKey {
    /// Whether two paths are the same.
    pub fn same(&self, other: &PathKey) -> (r: bool)
        ensures
            r == (self@ == other@),
    {
        if self.parts.len() != other.parts.len() {
            assert(self@.len() != other@.len());
            return false;
        }
        let mut i: usize = 0;
        while i < self.parts.len()
            invariant
                i <= self@.len() == other@.len(),
                self.parts@.len() == self@.len(),
                other.parts@.len() == other@.len(),
                forall|j: int| 0 <= j < i ==> (#[trigger] self@[j]) == other@[j],
            decreases self@.len() - i,
        {
            assert(self@[i as int] == self.parts@[i as int]@);
            assert(other@[i as int] == other.parts@[i as int]@);
            if !same_bytes(&self.parts[i], &other.parts[i]) {
                return false;
            }
            i += 1;
        }
        assert(self@ == other@);
        true
    }
}

} // verus!
