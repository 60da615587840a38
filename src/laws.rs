use crate::contact::{ContactView, StoreError};
use crate::store::{create_step, lemma_create_step, lookup, next_id, removal, well_formed};
use vstd::prelude::*;

verus! {

/// `made[i]` is what the `i`-th of a run of creates returned, and `states[i]`
/// the records before it; no delete comes between them. Creates issued from
/// several threads form such a run, since the store takes them one at a time.
pub open spec fn create_run(states: Seq<Map<i32, ContactView>>, made: Seq<ContactView>) -> bool {
    &&& states.len() == made.len() + 1
    &&& forall|i: int| 0 <= i < made.len() ==> create_step(states[i], #[trigger] made[i], states[i + 1])
}

/// After the first `n` creates of a run: the records are well formed and have
/// gained `n`, each created record is still filed under its id, and the ids
/// were handed out one after another.
proof fn lemma_run_prefix(states: Seq<Map<i32, ContactView>>, made: Seq<ContactView>, n: int)
    requires
        create_run(states, made),
        well_formed(states[0]),
        0 <= n <= made.len(),
    ensures
        well_formed(states[n]),
        states[n].len() == states[0].len() + n,
        forall|i: int| 0 <= i < n ==> #[trigger] made[i].id + (n - i) == next_id(states[n]),
        forall|i: int|
            0 <= i < n ==> states[n].contains_key(#[trigger] made[i].id) && states[n][made[i].id]
                == made[i],
    decreases n,
{
    if n > 0 {
        lemma_run_prefix(states, made, n - 1);
        assert(create_step(states[n - 1], made[n - 1], states[n]));
        lemma_create_step(states[n - 1], made[n - 1], states[n]);
        assert forall|i: int| 0 <= i < n implies #[trigger] made[i].id + (n - i) == next_id(
            states[n],
        ) by {
            if i < n - 1 {
                assert(made[i].id + (n - 1 - i) == next_id(states[n - 1]));
            }
        }
        assert forall|i: int| 0 <= i < n implies states[n].contains_key(#[trigger] made[i].id)
            && states[n][made[i].id] == made[i] by {
            if i < n - 1 {
                assert(made[i].id + (n - 1 - i) == next_id(states[n - 1]));
                assert(states[n - 1].contains_key(made[i].id));
            }
        }
    }
}

/// Along a run of creates with no delete between them, every id returned is
/// larger than each id returned before it, so no two of them are equal.
pub proof fn lemma_create_ids_increase(states: Seq<Map<i32, ContactView>>, made: Seq<ContactView>)
    requires
        create_run(states, made),
        well_formed(states[0]),
    ensures
        forall|i: int, j: int| 0 <= i < j < made.len() ==> made[i].id < made[j].id,
{
    let n = made.len() as int;
    lemma_run_prefix(states, made, n);
    assert forall|i: int, j: int| 0 <= i < j < made.len() implies made[i].id < made[j].id by {
        assert(made[i].id + (n - i) == next_id(states[n]));
        assert(made[j].id + (n - j) == next_id(states[n]));
    }
}

/// Creates, however many and in whatever order the store serialises them, lose
/// nothing: after `N` of them the store holds `N` more records, each created
/// record is read back unchanged under its id, and the ids are pairwise distinct.
pub proof fn lemma_creates_lose_nothing(states: Seq<Map<i32, ContactView>>, made: Seq<ContactView>)
    requires
        create_run(states, made),
        well_formed(states[0]),
    ensures
        states.last().len() == states[0].len() + made.len(),
        forall|i: int|
            0 <= i < made.len() ==> lookup(states.last(), #[trigger] made[i].id) == Ok::<
                ContactView,
                StoreError,
            >(made[i]),
        forall|i: int, j: int| 0 <= i < made.len() && 0 <= j < made.len() && i != j ==> made[i].id != made[j].id,
{
    lemma_run_prefix(states, made, made.len() as int);
    lemma_create_ids_increase(states, made);
    assert forall|i: int, j: int|
        0 <= i < made.len() && 0 <= j < made.len() && i != j implies made[i].id != made[j].id by {
        if i < j {
            assert(made[i].id < made[j].id);
        } else {
            assert(made[j].id < made[i].id);
        }
    }
}

/// Reading the id that a create returned gives back the record it returned.
pub proof fn lemma_created_record_reads_back(
    pre: Map<i32, ContactView>,
    c: ContactView,
    post: Map<i32, ContactView>,
)
    requires
        well_formed(pre),
        create_step(pre, c, post),
    ensures
        lookup(post, c.id) == Ok::<ContactView, StoreError>(c),
{
}

/// On an empty store every read and every delete reports `NotFound`.
pub proof fn lemma_empty_store_has_nothing(id: i32)
    ensures
        lookup(Map::empty(), id) == Err::<ContactView, StoreError>(StoreError::NotFound),
        removal(Map::empty(), id) == Err::<(), StoreError>(StoreError::NotFound),
{
}

/// Once a delete of `id` has succeeded, reading `id` reports `NotFound`.
pub proof fn lemma_deleted_record_is_gone(m: Map<i32, ContactView>, id: i32)
    requires
        removal(m, id) == Ok::<(), StoreError>(()),
    ensures
        lookup(m.remove(id), id) == Err::<ContactView, StoreError>(StoreError::NotFound),
{
}

/// Deleting a present id twice in a row succeeds and then reports `NotFound`.
pub proof fn lemma_second_delete_not_found(m: Map<i32, ContactView>, id: i32)
    requires
        m.contains_key(id),
    ensures
        removal(m, id) == Ok::<(), StoreError>(()),
        removal(m.remove(id), id) == Err::<(), StoreError>(StoreError::NotFound),
{
}

} // verus!
