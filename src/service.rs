use candid::Principal;
use vstd::prelude::*;

use crate::codec::encode_spec;
use crate::errors::Error;
use crate::paginator::{limit_of, window, Paginator, DEFAULT_PAGE_SIZE};
use crate::store::{record_changed, todos_view, TodoStore};
use crate::todo::{fresh_record, without_tag, Priority, Todo, TodoId, TodoView};

verus! {

/// The priority a new record gets: the one asked for, else `Medium`.
pub open spec fn priority_or_default(priority: Option<Priority>) -> Priority {
    match priority {
        Some(p) => p,
        None => Priority::Medium,
    }
}

/// Creates a record for `owner` under a newly issued id and returns that id:
/// one more than the last id issued. `None`, with nothing changed, only when
/// the id space is used up. Where every stored id is within the counter, the
/// new id is fresh for every owner, and that stays so.
pub fn add_todo_item(
    store: &mut TodoStore,
    owner: Principal,
    description: String,
    priority: Option<Priority>,
) -> (r: Option<TodoId>)
    ensures
        old(store).last_id() == u32::MAX ==> r is None,
        old(store).last_id() < u32::MAX ==> r == Some((old(store).last_id() + 1) as u32),
        old(store).ids_within_counter() ==> final(store).ids_within_counter(),
        r matches Some(id) ==> old(store).ids_within_counter() ==> forall|o: Principal|
            !old(store).entries().contains_key((o, id)),
        match r {
            Some(id) => id == old(store).last_id() + 1 && final(store).last_id() == id
                && final(store).entries() == old(store).entries().insert(
                (owner, id),
                encode_spec(fresh_record(id, description@, priority_or_default(priority))),
            ) && final(store).record(owner, id) == Some(
                fresh_record(id, description@, priority_or_default(priority)),
            ),
            None => final(store).entries() == old(store).entries() && final(store).last_id()
                == old(store).last_id(),
        },
{
    let id = match store.generate_next_id() {
        Some(id) => id,
        None => return None,
    };
    let priority = match priority {
        Some(p) => p,
        None => Priority::Medium,
    };
    let ghost before = *store;
    store.add_todo(owner, id, description, priority);
    assert forall|o: Principal, i: u32| #[trigger]
        store.entries().contains_key((o, i)) && before.ids_within_counter() implies i
        <= store.last_id() by {
        if (o, i) != (owner, id) {
            assert(before.entries().contains_key((o, i)));
        }
    }
    Some(id)
}

/// The record of `owner` under `id`, or `NotFound`.
pub fn get_todo_item(store: &TodoStore, owner: Principal, id: TodoId) -> (r: Result<Todo, Error>)
    ensures
        match store.record(owner, id) {
            Some(v) => r matches Ok(t) && t@ == v,
            None => r == Err::<Todo, Error>(Error::NotFound),
        },
{
    match store.get_todo(owner, id) {
        Some(t) => Ok(t),
        None => Err(Error::NotFound),
    }
}

/// A page of `owner`'s records in ascending id; without a paginator, the
/// first page of the default size.
pub fn list_todo_items(
    store: &TodoStore,
    owner: Principal,
    paginator: Option<Paginator>,
) -> (r: Vec<Todo>)
    ensures
        todos_view(r@) == window(
            store.owner_records(owner),
            match paginator {
                Some(p) => p.spec_skip(),
                None => 0,
            },
            match paginator {
                Some(p) => p.spec_limit(),
                None => DEFAULT_PAGE_SIZE as nat,
            },
        ),
{
    let chosen = match paginator {
        Some(p) => p,
        None => Paginator::default(),
    };
    proof {
        if paginator is None {
            assert(0 * limit_of(chosen.limit) == 0) by (nonlinear_arith);
        }
    }
    store.list_todos(owner, chosen)
}

/// Removes the record of `owner` under `id`, if there is one.
pub fn delete_todo_item(store: &mut TodoStore, owner: Principal, id: TodoId)
    ensures
        final(store).entries() == old(store).entries().remove((owner, id)),
        final(store).last_id() == old(store).last_id(),
        final(store).record(owner, id) is None,
{
    store.remove_todo(owner, id);
}

/// Replaces the description of `owner`'s record `id`; an empty text is refused.
pub fn update_todo_item(
    store: &mut TodoStore,
    owner: Principal,
    id: TodoId,
    text: String,
) -> (r: Result<(), Error>)
    ensures
        final(store).last_id() == old(store).last_id(),
        text@.len() == 0 ==> (r matches Err(Error::InvalidInput(_))) && final(store).entries()
            == old(store).entries(),
        text@.len() > 0 ==> match old(store).record(owner, id) {
            None => r == Err::<(), Error>(Error::NotFound) && final(store).entries()
                == old(store).entries(),
            Some(v) => r == Ok::<(), Error>(()) && final(store).entries()
                == old(store).entries().insert(
                (owner, id),
                encode_spec(TodoView { description: text@, ..v }),
            ) && final(store).record(owner, id) == Some(TodoView { description: text@, ..v }),
        },
{
    store.update_todo(owner, id, text)
}

/// Flips the completion flag of `owner`'s record `id`.
pub fn toggle_todo_complete(
    store: &mut TodoStore,
    owner: Principal,
    id: TodoId,
) -> (r: Result<(), Error>)
    ensures
        record_changed(
            *old(store),
            *final(store),
            owner,
            id,
            r,
            (|v: TodoView| TodoView { is_completed: !v.is_completed, ..v }),
        ),
{
    store.toggle_todo_complete(owner, id)
}

/// Sets the priority of `owner`'s record `id`.
pub fn modify_todo_priority(
    store: &mut TodoStore,
    owner: Principal,
    id: TodoId,
    priority: Priority,
) -> (r: Result<(), Error>)
    ensures
        record_changed(
            *old(store),
            *final(store),
            owner,
            id,
            r,
            (|v: TodoView| TodoView { priority, ..v }),
        ),
{
    store.modify_todo_priority(owner, id, priority)
}

/// Appends `tag` to the tags of `owner`'s record `id`.
pub fn add_tag_to_todo_item(
    store: &mut TodoStore,
    owner: Principal,
    id: TodoId,
    tag: String,
) -> (r: Result<(), Error>)
    ensures
        record_changed(
            *old(store),
            *final(store),
            owner,
            id,
            r,
            (|v: TodoView| TodoView { tags: v.tags.push(tag@), ..v }),
        ),
{
    store.add_tag_to_todo(owner, id, tag)
}

/// Removes every occurrence of `tag` from the tags of `owner`'s record `id`.
pub fn remove_tag_from_todo_item(
    store: &mut TodoStore,
    owner: Principal,
    id: TodoId,
    tag: &str,
) -> (r: Result<(), Error>)
    ensures
        record_changed(
            *old(store),
            *final(store),
            owner,
            id,
            r,
            (|v: TodoView| TodoView { tags: without_tag(v.tags, tag@), ..v }),
        ),
{
    store.remove_tag_from_todo(owner, id, tag)
}

} // verus!
