use vstd::prelude::*;

verus! {

/// A stored record: an id that the store assigns, and a name and an email that
/// the store keeps exactly as given.
#[derive(Debug, PartialEq, Eq)]
pub struct Contact {
    pub id: i32,
    pub name: String,
    pub email: String,
}

/// What a `Contact` holds, as mathematical values.
pub struct ContactView {
    pub id: i32,
    pub name: Seq<char>,
    pub email: Seq<char>,
}

impl View for Contact {
    type V = ContactView;

    open spec fn view(&self) -> ContactView {
        ContactView { id: self.id, name: self.name@, email: self.email@ }
    }
}

impl Clone for Contact {
    fn clone(&self) -> (r: Self)
        ensures
            r == *self,
    {
        Contact { id: self.id, name: self.name.clone(), email: self.email.clone() }
    }
}

/// The one way an operation of the store fails: no record has the given id.
#[derive(Debug, Clone, Copy, PartialEq, Eq, Structural)]
pub enum StoreError {
    NotFound,
}

} // verus!
