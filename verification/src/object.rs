//! Objects: bags of stored tags.
use crate::strmap::StrMap;
use crate::tag::{clone_value, TagDict, TagValue};
use vstd::prelude::*;

verus! {

/// An entity whose whole state is a mapping from tag names to stored tag values.
#[derive(Debug)]
pub struct Object {
    pub tags: TagDict,
}

impl Object {
    /// An object without tags.
    pub fn new() -> (r: Self)
        ensures
            r.tags@ == Map::<Seq<char>, crate::tag::TagValueView>::empty(),
    {
        Object { tags: StrMap::new() }
    }

    /// A copy of the object, as it stands now.
    pub fn snapshot(&self) -> (r: Self)
        ensures
            r.tags@ == self.tags@,
    {
        let mut tags: TagDict = StrMap::new();
        let n = self.tags.len();
        let mut i: usize = 0;
        proof {
            self.tags.lemma_view();
        }
        while i < n
            invariant
                n == self.tags.entries().len(),
                i <= n,
                tags@ == self.tags.prefix(i as int),
            decreases n - i,
        {
            let k = self.tags.key_at(i).clone();
            let v = self.tags.value_at(i);
            let copy = TagValue::new(clone_value(&v.value), v.updated);
            proof {
                self.tags.lemma_prefix_step(i as int);
            }
            tags.insert(k, copy);
            i += 1;
        }
        Object { tags }
    }
}

} // verus!
