use candid::Principal;
use ic_stable_structures::DefaultMemoryImpl;
use vstd::prelude::*;
use vstd::string::*;

use crate::codec::{decode, encode, encode_spec, lemma_round_trip, parse_spec};
use crate::errors::Error;
use crate::paginator::{limit_of, skip_of, window, Paginator};
use crate::stable::{
    cell_get, cell_init, cell_set, cell_value, map_entries, map_get, map_init, map_insert,
    map_new, map_owner_range, map_remove, memories_get, memories_init, cell_new, IdCell,
    RecordMap,
};
use crate::todo::{fresh_record, without_tag, Priority, Todo, TodoId, TodoView};

verus! {

/// The region that holds the last issued id.
pub const LAST_TODO_ID_REGION: u8 = 0;

/// The region that holds the records.
pub const TODO_STORE_REGION: u8 = 1;

/// Number of distinct ids.
pub open spec fn id_space() -> nat {
    0x1_0000_0000
}

/// The views of a sequence of records.
pub open spec fn todos_view(v: Seq<Todo>) -> Seq<TodoView> {
    v.map_values(|t: Todo| t@)
}

/// The durable store: a counter of issued ids and an ordered map from
/// (owner, id) to encoded records.
pub struct TodoStore {
    last_id: IdCell,
    records: RecordMap,
}

/// The outcome of a change to one record: `NotFound`, with nothing changed,
/// when `owner` has no record `id`; otherwise success, with that record
/// replaced by `change` of it and every other entry as it was. The counter of
/// ids is left alone either way.
pub open spec fn record_changed(
    before: TodoStore,
    after: TodoStore,
    owner: Principal,
    id: TodoId,
    r: Result<(), Error>,
    change: spec_fn(TodoView) -> TodoView,
) -> bool {
    &&& after.last_id() == before.last_id()
    &&& match before.record(owner, id) {
        None => r == Err::<(), Error>(Error::NotFound) && after.entries() == before.entries(),
        Some(v) => r == Ok::<(), Error>(()) && after.entries() == before.entries().insert(
            (owner, id),
            encode_spec(change(v)),
        ) && after.record(owner, id) == Some(change(v)),
    }
}

impl TodoStore {
    /// The stored entries, by (owner, id).
    pub closed spec fn entries(&self) -> Map<(Principal, u32), Seq<u8>> {
        map_entries(self.records)
    }

    /// The last id issued.
    pub closed spec fn last_id(&self) -> u32 {
        cell_value(self.last_id)
    }

    /// The record of `owner` under `id`; an entry that does not decode counts
    /// as absent.
    pub open spec fn record(&self, owner: Principal, id: u32) -> Option<TodoView> {
        if self.entries().contains_key((owner, id)) {
            parse_spec(self.entries()[(owner, id)])
        } else {
            None
        }
    }

    /// The records of `owner` with an id below `n`, in ascending id.
    pub open spec fn records_below(&self, owner: Principal, n: nat) -> Seq<TodoView>
        decreases n,
    {
        if n == 0 {
            Seq::empty()
        } else {
            let prev = self.records_below(owner, (n - 1) as nat);
            match self.record(owner, (n - 1) as u32) {
                Some(v) => prev.push(v),
                None => prev,
            }
        }
    }

    /// All records of `owner`, in ascending id.
    pub open spec fn owner_records(&self, owner: Principal) -> Seq<TodoView> {
        self.records_below(owner, id_space())
    }

    /// Every stored key's id is at most the last id issued, so that ids
    /// issued from now on are fresh in every owner's partition.
    pub open spec fn ids_within_counter(&self) -> bool {
        forall|o: Principal, i: u32|
            #[trigger] self.entries().contains_key((o, i)) ==> i <= self.last_id()
    }

    /// Makes an empty store in `memory`, with the counter at 0, discarding any
    /// store kept there. `None` when the memory cannot grow to hold the
    /// counter. A memory must back only one store at a time.
    pub fn new(memory: DefaultMemoryImpl) -> (r: Option<Self>)
        ensures
            r matches Some(s) ==> s.entries() == Map::<(Principal, u32), Seq<u8>>::empty()
                && s.last_id() == 0 && s.ids_within_counter(),
    {
        let memories = memories_init(memory);
        let cell = match cell_new(memories_get(&memories, LAST_TODO_ID_REGION), 0) {
            Ok(c) => c,
            Err(_) => return None,
        };
        let records = map_new(memories_get(&memories, TODO_STORE_REGION));
        Some(TodoStore { last_id: cell, records })
    }

    /// Reopens the store kept in `memory`: the counter in one region and the
    /// records in another, each made empty (the counter at 0) where the region
    /// holds none yet. Their contents are whatever was stored before, so
    /// nothing is promised of them. `None` when the counter's region holds a
    /// layout version this library cannot read. Memory whose layout is damaged
    /// in other ways aborts the process, as a fatal persistence failure. A
    /// memory must back only one store at a time.
    pub fn init(memory: DefaultMemoryImpl) -> (r: Option<Self>) {
        let memories = memories_init(memory);
        let cell = match cell_init(memories_get(&memories, LAST_TODO_ID_REGION), 0) {
            Ok(c) => c,
            Err(_) => return None,
        };
        let records = map_init(memories_get(&memories, TODO_STORE_REGION));
        Some(TodoStore { last_id: cell, records })
    }

    /// Issues the next id: one more than the last one issued, which is then
    /// the last one. `None`, with nothing changed, only when the id space is
    /// used up. The ids issued only grow, whatever records are deleted.
    pub fn generate_next_id(&mut self) -> (r: Option<TodoId>)
        ensures
            final(self).entries() == old(self).entries(),
            old(self).last_id() < u32::MAX ==> r == Some((old(self).last_id() + 1) as u32)
                && final(self).last_id() == old(self).last_id() + 1,
            old(self).last_id() == u32::MAX ==> r is None && final(self).last_id()
                == old(self).last_id(),
            old(self).ids_within_counter() ==> final(self).ids_within_counter(),
            r matches Some(id) ==> old(self).ids_within_counter() ==> forall|o: Principal|
                !old(self).entries().contains_key((o, id)),
    {
        let last = cell_get(&self.last_id);
        if last == u32::MAX {
            return None;
        }
        let next = last + 1;
        let ghost before = *self;
        let set = cell_set(&mut self.last_id, next);
        assert forall|o: Principal, i: u32| #[trigger]
            self.entries().contains_key((o, i)) && before.ids_within_counter() implies i
            <= self.last_id() by {
            assert(before.entries().contains_key((o, i)));
        }
        match set {
            Ok(_) => Some(next),
            Err(_) => None,
        }
    }

    /// Stores `todo` under (`owner`, `id`), replacing what was there.
    pub fn put(&mut self, owner: Principal, id: TodoId, todo: &Todo)
        ensures
            final(self).entries() == old(self).entries().insert((owner, id), encode_spec(todo@)),
            final(self).last_id() == old(self).last_id(),
            final(self).record(owner, id) == Some(todo@),
    {
        let bytes = encode(todo);
        map_insert(&mut self.records, owner, id, bytes);
        proof {
            lemma_round_trip(*todo);
        }
    }

    /// Creates a record under (`owner`, `id`) with the given description and
    /// priority.
    pub fn add_todo(
        &mut self,
        owner: Principal,
        id: TodoId,
        description: String,
        priority: Priority,
    )
        ensures
            final(self).entries() == old(self).entries().insert(
                (owner, id),
                encode_spec(fresh_record(id, description@, priority)),
            ),
            final(self).last_id() == old(self).last_id(),
            final(self).record(owner, id) == Some(fresh_record(id, description@, priority)),
    {
        let todo = Todo::new(id, description, priority);
        self.put(owner, id, &todo);
    }

    /// The record of `owner` under `id`, if there is one.
    pub fn get_todo(&self, owner: Principal, id: TodoId) -> (r: Option<Todo>)
        ensures
            match self.record(owner, id) {
                Some(v) => r matches Some(t) && t@ == v,
                None => r is None,
            },
    {
        match map_get(&self.records, owner, id) {
            Some(bytes) => decode(&bytes),
            None => None,
        }
    }

    /// Removes the record of `owner` under `id`; nothing happens when there is none.
    pub fn remove_todo(&mut self, owner: Principal, id: TodoId)
        ensures
            final(self).entries() == old(self).entries().remove((owner, id)),
            final(self).last_id() == old(self).last_id(),
            final(self).record(owner, id) is None,
    {
        map_remove(&mut self.records, owner, id);
    }

    proof fn lemma_no_records_between(&self, owner: Principal, a: nat, b: nat)
        requires
            a <= b <= id_space(),
            forall|x: u32| a <= x < b ==> !self.entries().contains_key((owner, x)),
        ensures
            self.records_below(owner, b) == self.records_below(owner, a),
        decreases b - a,
    {
        if b > a {
            assert(!self.entries().contains_key((owner, (b - 1) as u32)));
            self.lemma_no_records_between(owner, a, (b - 1) as nat);
        }
    }

    proof fn lemma_records_below_prefix(&self, owner: Principal, m: nat, n: nat)
        requires
            m <= n,
        ensures
            self.records_below(owner, m).len() <= self.records_below(owner, n).len(),
            self.records_below(owner, n).subrange(0, self.records_below(owner, m).len() as int)
                == self.records_below(owner, m),
        decreases n - m,
    {
        if m < n {
            self.lemma_records_below_prefix(owner, m, (n - 1) as nat);
            let a = self.records_below(owner, m);
            let b = self.records_below(owner, (n - 1) as nat);
            let c = self.records_below(owner, n);
            assert(c.subrange(0, a.len() as int) =~= b.subrange(0, a.len() as int));
        } else {
            let c = self.records_below(owner, n);
            assert(c.subrange(0, c.len() as int) =~= c);
        }
    }

    /// The page of `owner`'s records that `paginator` asks for, in ascending id.
    pub fn list_todos(&self, owner: Principal, paginator: Paginator) -> (r: Vec<Todo>)
        ensures
            todos_view(r@) == window(
                self.owner_records(owner),
                paginator.spec_skip(),
                paginator.spec_limit(),
            ),
    {
        let skip = paginator.skip();
        let limit = paginator.limit();
        let entries = map_owner_range(&self.records, owner);
        let mut out: Vec<Todo> = Vec::new();
        let mut seen: usize = 0;
        let ghost mut all: Seq<TodoView> = Seq::empty();
        let mut i: usize = 0;
        while i < entries.len() && out.len() < limit
            invariant
                i <= entries.len(),
                i > 0 ==> entries@[i - 1].0 < id_space(),
                seen <= i,
                seen == all.len(),
                limit == limit_of(paginator.limit),
                skip == (if skip_of(paginator.page, paginator.limit) <= usize::MAX {
                    skip_of(paginator.page, paginator.limit)
                } else {
                    usize::MAX as nat
                }),
                forall|a: int, b: int|
                    0 <= a < b < entries@.len() ==> entries@[a].0 < entries@[b].0,
                forall|a: int|
                    0 <= a < entries@.len() ==> self.entries().contains_key(
                        (owner, #[trigger] entries@[a].0),
                    ) && self.entries()[(owner, entries@[a].0)] == entries@[a].1@,
                forall|id: u32|
                    self.entries().contains_key((owner, id)) ==> exists|a: int|
                        0 <= a < entries@.len() && #[trigger] entries@[a].0 == id,
                all == self.records_below(
                    owner,
                    if i == 0 { 0 } else { (entries@[i - 1].0 + 1) as nat },
                ),
                todos_view(out@) == window(all, skip as nat, limit as nat),
            decreases entries.len() - i,
        {
            let id = entries[i].0;
            let bytes = &entries[i].1;
            proof {
                let lo: nat = if i == 0 { 0 } else { (entries@[i - 1].0 + 1) as nat };
                assert forall|x: u32| lo <= x < id implies !self.entries().contains_key(
                    (owner, x),
                ) by {
                    if self.entries().contains_key((owner, x)) {
                        let a = choose|a: int|
                            0 <= a < entries@.len() && #[trigger] entries@[a].0 == x;
                        if a < i {
                            assert(entries@[a].0 <= entries@[i - 1].0);
                        } else if a > i {
                            assert(entries@[i as int].0 < entries@[a].0);
                        }
                    }
                }
                self.lemma_no_records_between(owner, lo, id as nat);
            }
            let decoded = decode(bytes);
            match decoded {
                Some(t) => {
                    let ghost v = t@;
                    let ghost before = out@;
                    if seen >= skip && seen - skip < limit {
                        out.push(t);
                        assert(todos_view(out@) =~= todos_view(before).push(v));
                    }
                    proof {
                        assert(window(all.push(v), skip as nat, limit as nat) =~= todos_view(out@));
                        all = all.push(v);
                    }
                    seen = seen + 1;
                },
                None => {},
            }
            i = i + 1;
        }
        proof {
            let lo: nat = if i == 0 { 0 } else { (entries@[i - 1].0 + 1) as nat };
            let full = self.owner_records(owner);
            let s = skip_of(paginator.page, paginator.limit);
            if i == entries.len() {
                assert forall|x: u32| lo <= x < id_space() implies !self.entries().contains_key(
                    (owner, x),
                ) by {
                    if self.entries().contains_key((owner, x)) {
                        let a = choose|a: int|
                            0 <= a < entries@.len() && #[trigger] entries@[a].0 == x;
                        assert(entries@[a].0 <= entries@[i - 1].0);
                    }
                }
                self.lemma_no_records_between(owner, lo, id_space());
                assert(window(all, skip as nat, limit as nat) =~= window(all, s, limit as nat));
            } else {
                // The page is full: what follows cannot change it.
                self.lemma_records_below_prefix(owner, lo, id_space());
                if limit == 0 {
                    assert(window(full, s, 0) =~= Seq::<TodoView>::empty());
                    assert(todos_view(out@) =~= Seq::<TodoView>::empty());
                } else {
                    assert(todos_view(out@).len() == out@.len());
                    assert(all.len() >= skip + limit);
                    assert(s == skip);
                    assert(window(full, s, limit as nat) =~= window(all, s, limit as nat));
                }
            }
        }
        out
    }

    /// Flips the completion flag of the record.
    pub fn toggle_todo_complete(&mut self, owner: Principal, id: TodoId) -> (r: Result<(), Error>)
        ensures
            record_changed(
                *old(self),
                *final(self),
                owner,
                id,
                r,
                (|v: TodoView| TodoView { is_completed: !v.is_completed, ..v }),
            ),
    {
        match self.get_todo(owner, id) {
            Some(mut todo) => {
                todo.is_completed = !todo.is_completed;
                self.put(owner, id, &todo);
                Ok(())
            },
            None => Err(Error::NotFound),
        }
    }

    /// Sets the priority of the record.
    pub fn modify_todo_priority(
        &mut self,
        owner: Principal,
        id: TodoId,
        priority: Priority,
    ) -> (r: Result<(), Error>)
        ensures
            record_changed(
                *old(self),
                *final(self),
                owner,
                id,
                r,
                (|v: TodoView| TodoView { priority, ..v }),
            ),
    {
        match self.get_todo(owner, id) {
            Some(mut todo) => {
                todo.priority = priority;
                self.put(owner, id, &todo);
                Ok(())
            },
            None => Err(Error::NotFound),
        }
    }

    /// Appends `tag` to the tags of the record.
    pub fn add_tag_to_todo(
        &mut self,
        owner: Principal,
        id: TodoId,
        tag: String,
    ) -> (r: Result<(), Error>)
        ensures
            record_changed(
                *old(self),
                *final(self),
                owner,
                id,
                r,
                (|v: TodoView| TodoView { tags: v.tags.push(tag@), ..v }),
            ),
    {
        match self.get_todo(owner, id) {
            Some(mut todo) => {
                todo.add_tag(tag);
                self.put(owner, id, &todo);
                Ok(())
            },
            None => Err(Error::NotFound),
        }
    }

    /// Removes every occurrence of `tag` from the tags of the record; a
    /// tag that is not there is no error.
    pub fn remove_tag_from_todo(
        &mut self,
        owner: Principal,
        id: TodoId,
        tag: &str,
    ) -> (r: Result<(), Error>)
        ensures
            record_changed(
                *old(self),
                *final(self),
                owner,
                id,
                r,
                (|v: TodoView| TodoView { tags: without_tag(v.tags, tag@), ..v }),
            ),
    {
        match self.get_todo(owner, id) {
            Some(mut todo) => {
                todo.remove_tag(tag);
                self.put(owner, id, &todo);
                Ok(())
            },
            None => Err(Error::NotFound),
        }
    }

    /// Replaces the description of the record. An empty text is refused with
    /// `InvalidInput`, whether or not the record exists.
    pub fn update_todo(
        &mut self,
        owner: Principal,
        id: TodoId,
        text: String,
    ) -> (r: Result<(), Error>)
        ensures
            final(self).last_id() == old(self).last_id(),
            text@.len() == 0 ==> (r matches Err(Error::InvalidInput(_))) && final(self).entries()
                == old(self).entries(),
            text@.len() > 0 ==> match old(self).record(owner, id) {
                None => r == Err::<(), Error>(Error::NotFound) && final(self).entries()
                    == old(self).entries(),
                Some(v) => r == Ok::<(), Error>(()) && final(self).entries()
                    == old(self).entries().insert(
                    (owner, id),
                    encode_spec(TodoView { description: text@, ..v }),
                ) && final(self).record(owner, id) == Some(TodoView { description: text@, ..v }),
            },
    {
        if text.as_str().is_empty() {
            return Err(Error::InvalidInput(String::from_str("Text cannot be empty")));
        }
        match self.get_todo(owner, id) {
            Some(mut todo) => {
                todo.description = text;
                self.put(owner, id, &todo);
                Ok(())
            },
            None => Err(Error::NotFound),
        }
    }
}

/// Deleting the same record twice leaves the same store as deleting it once,
/// and the record is absent after each of the two.
pub proof fn lemma_delete_idempotent(
    s0: TodoStore,
    s1: TodoStore,
    s2: TodoStore,
    owner: Principal,
    id: TodoId,
)
    requires
        s1.entries() == s0.entries().remove((owner, id)),
        s2.entries() == s1.entries().remove((owner, id)),
    ensures
        s2.entries() == s1.entries(),
        s1.record(owner, id) is None,
        s2.record(owner, id) is None,
{
    assert(s2.entries() =~= s1.entries());
}

proof fn lemma_same_records_below(s: TodoStore, t: TodoStore, owner: Principal, n: nat)
    requires
        forall|x: u32| #[trigger] s.record(owner, x) == t.record(owner, x),
    ensures
        s.records_below(owner, n) == t.records_below(owner, n),
    decreases n,
{
    if n > 0 {
        lemma_same_records_below(s, t, owner, (n - 1) as nat);
        assert(s.record(owner, (n - 1) as u32) == t.record(owner, (n - 1) as u32));
    }
}

/// Writing or removing a record of owner `a` changes no record of any other
/// owner `b`, nor the list of `b`'s records, even where the ids coincide.
pub proof fn lemma_partition_isolation(
    before: TodoStore,
    after: TodoStore,
    a: Principal,
    b: Principal,
    id: TodoId,
    written: Option<Seq<u8>>,
)
    requires
        a != b,
        after.entries() == match written {
            Some(v) => before.entries().insert((a, id), v),
            None => before.entries().remove((a, id)),
        },
    ensures
        forall|x: u32| #[trigger] after.record(b, x) == before.record(b, x),
        after.owner_records(b) == before.owner_records(b),
{
    assert forall|x: u32| #[trigger] after.record(b, x) == before.record(b, x) by {
        assert((b, x) != (a, id));
    }
    lemma_same_records_below(after, before, b, id_space());
}

/// Two stores with the same entries give the same page for the same owner
/// and the same request.
pub proof fn lemma_list_deterministic(s: TodoStore, t: TodoStore, owner: Principal, p: Paginator)
    requires
        s.entries() == t.entries(),
    ensures
        window(s.owner_records(owner), p.spec_skip(), p.spec_limit()) == window(
            t.owner_records(owner),
            p.spec_skip(),
            p.spec_limit(),
        ),
{
    lemma_same_records_below(s, t, owner, id_space());
}

/// Changing, deleting or listing records never issues an id, so the stored
/// ids stay within the counter: a change to one record keeps its key, and a
/// deletion only takes keys away.
pub proof fn lemma_ids_within_counter_kept(
    before: TodoStore,
    after: TodoStore,
    owner: Principal,
    id: TodoId,
    written: Option<Seq<u8>>,
)
    requires
        before.ids_within_counter(),
        after.last_id() == before.last_id(),
        after.entries() == match written {
            Some(v) => before.entries().insert((owner, id), v),
            None => before.entries().remove((owner, id)),
        },
        written is Some ==> before.entries().contains_key((owner, id)),
    ensures
        after.ids_within_counter(),
{
    assert forall|o: Principal, i: u32| #[trigger] after.entries().contains_key((o, i)) implies i
        <= after.last_id() by {
        assert(before.entries().contains_key((o, i)));
    }
}

} // verus!
