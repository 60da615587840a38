use crate::contact::{Contact, ContactView, StoreError};
use std::collections::HashMap;
use vstd::prelude::*;

verus! {

broadcast use vstd::std_specs::hash::group_hash_axioms;

/// The records that a store may hold: finitely many, each filed under its own
/// id, and every id positive.
pub open spec fn well_formed(m: Map<i32, ContactView>) -> bool {
    &&& m.dom().finite()
    &&& forall|k: i32| #[trigger] m.contains_key(k) ==> m[k].id == k && k >= 1
}

/// What reading `id` from the records `m` gives.
pub open spec fn lookup(m: Map<i32, ContactView>, id: i32) -> Result<ContactView, StoreError> {
    if m.contains_key(id) {
        Ok(m[id])
    } else {
        Err(StoreError::NotFound)
    }
}

/// What deleting `id` from the records `m` reports.
pub open spec fn removal(m: Map<i32, ContactView>, id: i32) -> Result<(), StoreError> {
    if m.contains_key(id) {
        Ok(())
    } else {
        Err(StoreError::NotFound)
    }
}

/// True when `k` is an id of `m` and no id of `m` is larger.
pub open spec fn is_largest_id(m: Map<i32, ContactView>, k: i32) -> bool {
    m.contains_key(k) && forall|j: i32| m.contains_key(j) ==> j <= k
}

/// The id that a new record receives: one past the largest id present, or 1
/// when there is none. Ids are not kept apart from the records, so once the
/// record with the largest id is deleted its id is handed out again.
pub open spec fn next_id(m: Map<i32, ContactView>) -> int {
    if m.dom().is_empty() {
        1
    } else {
        (choose|k: i32| is_largest_id(m, k)) + 1
    }
}

/// A create on the records `pre` returns `c` and leaves the records `post`.
pub open spec fn create_step(pre: Map<i32, ContactView>, c: ContactView, post: Map<i32, ContactView>) -> bool {
    &&& c.id == next_id(pre)
    &&& post == pre.insert(c.id, c)
}

/// The largest id is unique, so `next_id` is one past any id that is largest.
pub proof fn lemma_next_id_after_largest(m: Map<i32, ContactView>, k: i32)
    requires
        is_largest_id(m, k),
    ensures
        next_id(m) == k + 1,
{
    assert(m.dom().contains(k));
    let c = choose|c: i32| is_largest_id(m, c);
    assert(is_largest_id(m, c));
    assert(c <= k && k <= c);
}

/// Finitely many ids always include a largest one.
pub proof fn lemma_largest_id_exists(m: Map<i32, ContactView>)
    requires
        m.dom().finite(),
        !m.dom().is_empty(),
    ensures
        exists|k: i32| is_largest_id(m, k),
    decreases m.dom().len(),
{
    let k0 = m.dom().choose();
    let rest = m.remove(k0);
    assert(rest.dom() =~= m.dom().remove(k0));
    if rest.dom().is_empty() {
        assert forall|j: i32| m.contains_key(j) implies j <= k0 by {
            if j != k0 {
                assert(rest.dom().contains(j));
            }
        }
        assert(is_largest_id(m, k0));
    } else {
        lemma_largest_id_exists(rest);
        let k1 = choose|k: i32| is_largest_id(rest, k);
        if k1 <= k0 {
            assert(is_largest_id(m, k0));
        } else {
            assert(is_largest_id(m, k1));
        }
    }
}

/// One create on well-formed records: the new id was free, the records stay
/// well formed and gain one, and the new id is now the largest.
pub proof fn lemma_create_step(pre: Map<i32, ContactView>, c: ContactView, post: Map<i32, ContactView>)
    requires
        well_formed(pre),
        create_step(pre, c, post),
    ensures
        !pre.contains_key(c.id),
        well_formed(post),
        post.len() == pre.len() + 1,
        is_largest_id(post, c.id),
        next_id(post) == c.id + 1,
{
    if !pre.dom().is_empty() {
        lemma_largest_id_exists(pre);
        let k = choose|k: i32| is_largest_id(pre, k);
        lemma_next_id_after_largest(pre, k);
        assert(pre.contains_key(k));
    }
    assert(is_largest_id(post, c.id));
    lemma_next_id_after_largest(post, c.id);
}

/// The store of contact records. Each operation takes the whole store, so a
/// caller that shares it between threads serialises them behind one lock.
pub struct ContactsStore {
    contacts: HashMap<i32, Contact>,
}

impl View for ContactsStore {
    type V = Map<i32, ContactView>;

    closed spec fn view(&self) -> Map<i32, ContactView> {
        self.contacts@.map_values(|c: Contact| c@)
    }
}

impl ContactsStore {
    /// The store's records are well formed.
    pub open spec fn wf(&self) -> bool {
        well_formed(self@)
    }

    /// An empty store.
    pub fn new() -> (r: ContactsStore)
        ensures
            r.wf(),
            r@ == Map::<i32, ContactView>::empty(),
    {
        let r = ContactsStore { contacts: HashMap::new() };
        assert(r@ =~= Map::<i32, ContactView>::empty());
        r
    }

    /// A copy of the record filed under `id`, or `NotFound`.
    pub fn contact_from_id(&self, id: i32) -> (r: Result<Contact, StoreError>)
        ensures
            match r {
                Ok(c) => lookup(self@, id) == Ok::<ContactView, StoreError>(c@),
                Err(e) => lookup(self@, id) == Err::<ContactView, StoreError>(e),
            },
    {
        match self.contacts.get(&id) {
            Some(c) => Ok(c.clone()),
            None => Err(StoreError::NotFound),
        }
    }

    /// Files a new record with the given name and email under `next_id` of
    /// the records present, and returns a copy of it. The id must fit in an
    /// `i32`: no record may already hold `i32::MAX`.
    pub fn add_contact(&mut self, name: String, email: String) -> (r: Contact)
        requires
            old(self).wf(),
            !old(self)@.contains_key(i32::MAX),
        ensures
            final(self).wf(),
            r.name == name,
            r.email == email,
            create_step(old(self)@, r@, final(self)@),
    {
        let mut largest: Option<i32> = None;
        let ghost mut seen: Set<i32> = Set::empty();
        for k in it: self.contacts.keys()
            invariant
                self.wf(),
                it.seq().unref().to_set() == self.contacts@.dom(),
                forall|n: int| 0 <= n < it.index() ==> seen.contains(*it.seq()[n]),
                seen.subset_of(self.contacts@.dom()),
                it.index() == it.seq().len() ==> self.contacts@.dom().subset_of(seen),
                largest is None ==> seen.is_empty(),
                largest matches Some(l) ==> seen.contains(l) && forall|j: i32| seen.contains(j) ==> j <= l,
        {
            match largest {
                Some(l) if l >= *k => {},
                _ => {
                    largest = Some(*k);
                },
            }
            proof {
                seen = seen.insert(*k);
            }
            assert(it.index() == it.seq().len() ==> self.contacts@.dom().subset_of(seen)) by {
                if it.index() == it.seq().len() {
                    assert forall|j: i32| self.contacts@.contains_key(j) implies seen.contains(j) by {
                        assert(it.seq().unref().to_set().contains(j));
                        let n = choose|n: int| 0 <= n < it.seq().unref().len() && it.seq().unref()[n] == j;
                        assert(*it.seq()[n] == j);
                    }
                }
            }
        }
        let new_id: i32 = match largest {
            Some(l) => {
                proof {
                    assert(is_largest_id(self@, l));
                    lemma_next_id_after_largest(self@, l);
                }
                l + 1
            },
            None => {
                assert(self@.dom() =~= Set::<i32>::empty());
                1
            },
        };
        let contact = Contact { id: new_id, name, email };
        self.contacts.insert(new_id, contact.clone());
        assert(self@ =~= old(self)@.insert(new_id, contact@));
        contact
    }

    /// Deletes the record filed under `id`; `NotFound`, with nothing changed,
    /// when there is none.
    pub fn remove_contact(&mut self, id: i32) -> (r: Result<(), StoreError>)
        requires
            old(self).wf(),
        ensures
            final(self).wf(),
            r == removal(old(self)@, id),
            final(self)@ == old(self)@.remove(id),
    {
        let removed = self.contacts.remove(&id);
        assert(self@ =~= old(self)@.remove(id));
        match removed {
            Some(_) => Ok(()),
            None => Err(StoreError::NotFound),
        }
    }
}

} // verus!
