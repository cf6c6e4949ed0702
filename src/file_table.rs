//! A registry of source file paths under stable integer keys.
use vstd::prelude::*;

verus! {

/// Paths in insertion order; a path's key is its index.
pub struct FileTable {
    paths: Vec<String>,
}

impl View for FileTable {
    type V = Seq<Seq<char>>;

    closed spec fn view(&self) -> Seq<Seq<char>> {
        self.paths@.map_values(|p: String| p@)
    }
}

impl FileTable {
    /// No path is held under two keys.
    pub open spec fn wf(&self) -> bool {
        forall|i: int, j: int| 0 <= i < j < self@.len() ==> #[trigger] self@[i] != #[trigger] self@[j]
    }

    pub fn new() -> (r: FileTable)
        ensures
            r@ == Seq::<Seq<char>>::empty(),
            r.wf(),
    {
        let r = FileTable { paths: Vec::new() };
        assert(r@ =~= Seq::<Seq<char>>::empty());
        r
    }

    pub fn len(&self) -> (r: usize)
        ensures
            r == self@.len(),
    {
        self.paths.len()
    }

    /// The key of `path`: its existing key, or the next key with the path added.
    pub fn insert(&mut self, path: String) -> (r: usize)
        requires
            old(self).wf(),
        ensures
            final(self).wf(),
            old(self)@.contains(path@) ==> final(self)@ == old(self)@ && r < old(self)@.len() && old(self)@[r as int] == path@,
            !old(self)@.contains(path@) ==> final(self)@ == old(self)@.push(path@) && r == old(self)@.len(),
    {
        let mut i: usize = 0;
        while i < self.paths.len()
            invariant
                i <= self@.len(),
                self@.len() == self.paths@.len(),
                self@ == old(self)@,
                self.wf(),
                forall|j: int| 0 <= j < i ==> self@[j] != path@,
            decreases self.paths@.len() - i,
        {
            if self.paths[i] == path {
                assert(self@[i as int] == self.paths@[i as int]@);
                return i;
            }
            assert(self@[i as int] == self.paths@[i as int]@);
            i += 1;
        }
        assert(!self@.contains(path@));
        let ghost p = path@;
        let key = self.paths.len();
        self.paths.push(path);
        assert(self@ =~= old(self)@.push(p));
        assert forall|a: int, b: int| 0 <= a < b < self@.len() implies #[trigger] self@[a] != #[trigger] self@[b] by {
            if b == key as int {
                assert(self@[a] == old(self)@[a]);
            } else {
                assert(self@[a] == old(self)@[a]);
                assert(self@[b] == old(self)@[b]);
            }
        }
        key
    }

    /// The path under `key`, if there is one.
    pub fn get(&self, key: usize) -> (r: Option<&String>)
        ensures
            r is Some <==> key < self@.len(),
            r matches Some(p) ==> p@ == self@[key as int],
    {
        if key < self.paths.len() {
            Some(&self.paths[key])
        } else {
            None
        }
    }
}

} // verus!
