use vstd::prelude::*;
use vstd::string::*;

verus! {

/// Identifier of a task, unique within its owner's partition.
pub type TodoId = u32;

/// Priority level of a task.
#[derive(Clone, Copy, Debug, PartialEq, Eq, Structural)]
pub enum Priority {
    Low,
    Medium,
    High,
}

impl Default for Priority {
    fn default() -> (r: Self)
        ensures
            r == Priority::Medium,
    {
        Priority::Medium
    }
}

/// A task: identifier, description, completion flag, priority and tags.
#[derive(Clone, Debug, PartialEq)]
pub struct Todo {
    pub id: TodoId,
    pub description: String,
    pub is_completed: bool,
    pub priority: Priority,
    pub tags: Vec<String>,
}

/// The mathematical content of a task record.
pub struct TodoView {
    pub id: TodoId,
    pub description: Seq<char>,
    pub is_completed: bool,
    pub priority: Priority,
    pub tags: Seq<Seq<char>>,
}

/// The views of a sequence of strings.
pub open spec fn strings_view(v: Seq<String>) -> Seq<Seq<char>> {
    v.map_values(|s: String| s@)
}

impl View for Todo {
    type V = TodoView;

    open spec fn view(&self) -> TodoView {
        TodoView {
            id: self.id,
            description: self.description@,
            is_completed: self.is_completed,
            priority: self.priority,
            tags: strings_view(self.tags@),
        }
    }
}

/// A new record: not completed, without tags.
pub open spec fn fresh_record(id: TodoId, description: Seq<char>, priority: Priority) -> TodoView {
    TodoView { id, description, is_completed: false, priority, tags: Seq::empty() }
}

/// The tags left after every occurrence of `tag` is taken out.
pub open spec fn without_tag(tags: Seq<Seq<char>>, tag: Seq<char>) -> Seq<Seq<char>> {
    tags.filter(|t: Seq<char>| t != tag)
}

impl Todo {
    /// A new, not completed task with no tags.
    pub fn new(id: TodoId, description: String, priority: Priority) -> (r: Self)
        ensures
            r@ == fresh_record(id, description@, priority),
    {
        let r = Todo { id, description, is_completed: false, priority, tags: Vec::new() };
        assert(r@.tags =~= Seq::<Seq<char>>::empty());
        r
    }

    /// Appends `tag` to the tags; duplicates are kept.
    pub fn add_tag(&mut self, tag: String)
        ensures
            final(self)@ == (TodoView { tags: old(self)@.tags.push(tag@), ..old(self)@ }),
    {
        self.tags.push(tag);
        assert(self@.tags =~= old(self)@.tags.push(tag@));
    }

    /// Removes every tag equal to `tag`, keeping the order of the others.
    pub fn remove_tag(&mut self, tag: &str)
        ensures
            final(self)@ == (TodoView { tags: without_tag(old(self)@.tags, tag@), ..old(self)@ }),
    {
        let target = String::from_str(tag);
        let ghost old_tags = strings_view(self.tags@);
        let mut kept: Vec<String> = Vec::new();
        let n = self.tags.len();
        let mut i: usize = 0;
        while i < n
            invariant
                n == self.tags.len(),
                i <= n,
                old_tags == strings_view(self.tags@),
                target@ == tag@,
                strings_view(kept@) == without_tag(old_tags.subrange(0, i as int), tag@),
            decreases n - i,
        {
            let t = &self.tags[i];
            proof {
                reveal(Seq::filter);
                assert(old_tags.subrange(0, i + 1).drop_last() =~= old_tags.subrange(0, i as int));
            }
            if *t != target {
                kept.push(t.clone());
                assert(strings_view(kept@) =~= without_tag(old_tags.subrange(0, i + 1), tag@));
            } else {
                assert(strings_view(kept@) =~= without_tag(old_tags.subrange(0, i + 1), tag@));
            }
            i = i + 1;
        }
        assert(old_tags.subrange(0, n as int) =~= old_tags);
        self.tags = kept;
    }
}

} // verus!
