//! References to objects in the store.

use vstd::prelude::*;

verus! {

/// One version of an object: its name and the generation that pins the
/// bytes behind the name. A reference is never changed once it is made; a
/// later write to the same name yields a new reference.
#[derive(Debug, PartialEq, Eq)]
pub struct ObjectRef {
    /// The object's name within its bucket.
    pub name: String,
    /// The generation that the store gave to this version.
    pub generation: i64,
}

/// An object reference as plain values.
pub struct ObjectId {
    pub name: Seq<char>,
    pub generation: int,
}

impl View for ObjectRef {
    type V = ObjectId;

    open spec fn view(&self) -> ObjectId {
        ObjectId { name: self.name@, generation: self.generation as int }
    }
}

impl Clone for ObjectRef {
    fn clone(&self) -> (copy: Self)
        ensures
            copy@ == self@,
    {
        ObjectRef { name: self.name.clone(), generation: self.generation }
    }
}

impl ObjectRef {
    /// A reference to the given generation of the object with the given
    /// name.
    pub fn new(name: &str, generation: i64) -> (object: Self)
        ensures
            object@ == (ObjectId { name: name@, generation: generation as int }),
    {
        ObjectRef { name: name.to_owned(), generation }
    }

    /// Whether two references name the same version of the same object.
    pub fn same(&self, other: &ObjectRef) -> (same: bool)
        ensures
            same == (self@ == other@),
    {
        let same_name = self.name == other.name;
        assert(same_name == (self.name@ == other.name@));
        assert(self@ == other@ <==> (self.name@ == other.name@ && self.generation
            == other.generation)) by {
            if self.name@ == other.name@ && self.generation == other.generation {
                assert(self@.name =~= other@.name);
            }
        }
        same_name && self.generation == other.generation
    }
}

} // verus!
