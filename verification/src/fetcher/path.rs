//! Paths below the folder that browsers are installed in.

use vstd::prelude::*;

use crate::text::{file_stem, with_extension};

verus! {

/// A path made of a root folder and the components that are pushed onto it,
/// in order. Each component is one plain name: no separator is in it.
#[derive(Clone, Debug)]
pub struct InstallPath {
    /// The folder that the path starts from.
    pub root: String,
    /// The names below the root, outermost first.
    pub parts: Vec<String>,
}

impl InstallPath {
    /// The names below the root, outermost first.
    pub open spec fn components(self) -> Seq<Seq<char>> {
        self.parts@.map_values(|p: String| p@)
    }

    /// The root folder itself.
    pub fn new(root: &str) -> (r: Self)
        ensures
            r.root@ == root@,
            r.components() == Seq::<Seq<char>>::empty(),
    {
        let r = Self { root: String::from_str(root), parts: Vec::new() };
        assert(r.components() =~= Seq::<Seq<char>>::empty());
        r
    }

    /// Goes one level down, into `part`.
    pub fn push(&mut self, part: String)
        ensures
            final(self).root == old(self).root,
            final(self).components() == old(self).components().push(part@),
    {
        self.parts.push(part);
        assert(self.components() =~= old(self).components().push(part@));
    }

    /// A copy of the path.
    pub fn duplicate(&self) -> (r: Self)
        ensures
            r.root == self.root,
            r.components() == self.components(),
    {
        let mut parts: Vec<String> = Vec::new();
        let mut i: usize = 0;
        while i < self.parts.len()
            invariant
                i <= self.parts.len(),
                parts@.len() == i,
                forall|j: int| 0 <= j < i ==> parts@[j] == self.parts@[j],
            decreases self.parts.len() - i,
        {
            parts.push(self.parts[i].clone());
            i += 1;
        }
        let r = Self { root: self.root.clone(), parts };
        assert(r.components() =~= self.components());
        r
    }

    /// The path with the extension of its last component replaced by
    /// `ext`. A path without components stays as it is.
    pub fn with_extension(&self, ext: &str) -> (r: Self)
        ensures
            r.root == self.root,
            r.components() == if self.components().len() == 0 {
                self.components()
            } else {
                self.components().drop_last().push(
                    file_stem(self.components().last()) + seq!['.'] + ext@,
                )
            },
    {
        let mut r = self.duplicate();
        match r.parts.pop() {
            Some(last) => {
                let ghost rest = r.components();
                assert(rest =~= self.components().drop_last());
                assert(last@ == self.components().last());
                r.push(with_extension(last.as_str(), ext));
            },
            None => {},
        }
        r
    }
}

} // verus!
