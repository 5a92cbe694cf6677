//! A filesystem location, modeled as its sequence of name components.
//! The view of a path is the sequence of its components' character
//! sequences; the last component is the entry's own name.

use vstd::prelude::*;

verus! {

/// A path, as the list of its name components from the root of the
/// walked tree down to the entry itself.
pub struct FsPath {
    pub components: Vec<String>,
}

impl View for FsPath {
    type V = Seq<Seq<char>>;

    open spec fn view(&self) -> Seq<Seq<char>> {
        self.components@.map_values(|s: String| s@)
    }
}

impl FsPath {
    /// Builds a path from its components.
    pub fn new(components: Vec<String>) -> (r: FsPath)
        ensures
            r@ == components@.map_values(|s: String| s@),
    {
        FsPath { components }
    }

    /// A copy of this path with the same components.
    pub fn duplicated(&self) -> (r: FsPath)
        ensures
            r@ == self@,
    {
        let mut components: Vec<String> = Vec::new();
        let mut i: usize = 0;
        while i < self.components.len()
            invariant
                i <= self.components@.len(),
                components@.len() == i,
                forall|j: int| 0 <= j < i ==> components@[j] == self.components@[j],
            decreases self.components@.len() - i,
        {
            components.push(self.components[i].clone());
            i += 1;
        }
        proof {
            assert(components@ =~= self.components@);
        }
        FsPath { components }
    }

    /// The final name component, if the path has one.
    pub fn file_name(&self) -> (r: Option<&String>)
        ensures
            match r {
                Some(name) => self@.len() > 0 && name@ == self@.last(),
                None => self@.len() == 0,
            },
    {
        if self.components.len() == 0 {
            None
        } else {
            Some(&self.components[self.components.len() - 1])
        }
    }

    /// This path extended by one more component.
    pub fn child(&self, name: String) -> (r: FsPath)
        ensures
            r@ == self@.push(name@),
    {
        let mut r = self.duplicated();
        r.components.push(name);
        proof {
            assert(r@ =~= self@.push(name@));
        }
        r
    }

    /// The sibling path with the final component replaced by `name`.
    pub fn with_last(&self, name: String) -> (r: FsPath)
        requires
            self@.len() > 0,
        ensures
            r@ == self@.update(self@.len() - 1, name@),
    {
        let mut components: Vec<String> = Vec::new();
        let mut i: usize = 0;
        while i < self.components.len() - 1
            invariant
                self.components@.len() > 0,
                i <= self.components@.len() - 1,
                components@.len() == i,
                forall|j: int| 0 <= j < i ==> components@[j] == self.components@[j],
            decreases self.components@.len() - i,
        {
            components.push(self.components[i].clone());
            i += 1;
        }
        components.push(name);
        proof {
            assert(components@.map_values(|s: String| s@) =~= self@.update(
                self@.len() - 1,
                name@,
            ));
        }
        FsPath { components }
    }
}

} // verus!
