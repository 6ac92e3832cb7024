//! The in-memory task store: insertion order kept, ids assigned as one more
//! than the largest id present.
use vstd::prelude::*;

use crate::task::{Task, TaskInput, TaskSpec};

verus! {

/// The largest id in `s`, or 0 when `s` is empty.
pub open spec fn max_id(s: Seq<TaskSpec>) -> nat
    decreases s.len(),
{
    if s.len() == 0 {
        0
    } else {
        let m = max_id(s.drop_last());
        if s.last().id > m {
            s.last().id as nat
        } else {
            m
        }
    }
}

/// No two tasks of `s` share an id.
pub open spec fn ids_unique(s: Seq<TaskSpec>) -> bool {
    forall|i: int, j: int| 0 <= i < j < s.len() ==> s[i].id != s[j].id
}

/// The task that `add` appends to `s` for a name and an owner.
pub open spec fn added_task(s: Seq<TaskSpec>, name: Seq<char>, owner: Seq<char>) -> TaskSpec {
    TaskSpec { id: (max_id(s) + 1) as u32, name, owner }
}

/// The store after `add`.
pub open spec fn add_spec(s: Seq<TaskSpec>, name: Seq<char>, owner: Seq<char>) -> Seq<TaskSpec> {
    s.push(added_task(s, name, owner))
}

/// The store after `remove_by_id`: every task with that id left out.
pub open spec fn remove_spec(s: Seq<TaskSpec>, id: u32) -> Seq<TaskSpec> {
    s.filter(|t: TaskSpec| t.id != id)
}

/// The first task of `s` with the given id.
pub open spec fn lookup(s: Seq<TaskSpec>, id: u32) -> Option<TaskSpec>
    decreases s.len(),
{
    if s.len() == 0 {
        None
    } else if s[0].id == id {
        Some(s[0])
    } else {
        lookup(s.drop_first(), id)
    }
}

/// Every id in `s` is at most `max_id(s)`, and `max_id(s)` is 0 or an id of `s`.
pub proof fn lemma_max_id(s: Seq<TaskSpec>)
    ensures
        forall|i: int| 0 <= i < s.len() ==> s[i].id <= max_id(s),
        max_id(s) == 0 || exists|i: int| 0 <= i < s.len() && s[i].id == max_id(s),
    decreases s.len(),
{
    if s.len() > 0 {
        lemma_max_id(s.drop_last());
        if max_id(s.drop_last()) != 0 && max_id(s) == max_id(s.drop_last()) {
            let k = choose|k: int|
                0 <= k < s.drop_last().len() && s.drop_last()[k].id == max_id(s.drop_last());
            assert(s[k].id == max_id(s));
        }
        assert forall|i: int| 0 <= i < s.len() implies s[i].id <= max_id(s) by {
            if i < s.len() - 1 {
                assert(s[i] == s.drop_last()[i]);
            }
        }
    }
}

/// Looking an id up in `s.subrange(i, n)` where `s[i]` does not carry it is
/// looking it up from `i + 1` on.
proof fn lemma_lookup_step(s: Seq<TaskSpec>, i: int, id: u32)
    requires
        0 <= i < s.len(),
    ensures
        lookup(s.subrange(i, s.len() as int), id) == (if s[i].id == id {
            Some(s[i])
        } else {
            lookup(s.subrange(i + 1, s.len() as int), id)
        }),
{
    assert(s.subrange(i, s.len() as int).drop_first() =~= s.subrange(i + 1, s.len() as int));
}

/// The value of an optional task.
pub open spec fn task_opt_view(r: Option<Task>) -> Option<TaskSpec> {
    match r {
        Some(t) => Some(t@),
        None => None,
    }
}

/// An ordered list of tasks.
#[derive(Debug)]
pub struct TaskList {
    pub tasks: Vec<Task>,
}

impl View for TaskList {
    type V = Seq<TaskSpec>;

    open spec fn view(&self) -> Seq<TaskSpec> {
        self.tasks@.map_values(|t: Task| t@)
    }
}

impl TaskList {
    /// The well-formed stores: ids are unique.
    pub open spec fn wf(&self) -> bool {
        ids_unique(self@)
    }

    /// An empty store.
    pub fn new() -> (r: Self)
        ensures
            r@ == Seq::<TaskSpec>::empty(),
            r.wf(),
    {
        TaskList { tasks: Vec::new() }
    }

    /// The id the next added task gets: one more than the largest id, or 1
    /// when the store is empty.
    pub fn next_id(&self) -> (r: u32)
        requires
            max_id(self@) < u32::MAX,
        ensures
            r == max_id(self@) + 1,
    {
        let mut m: u32 = 0;
        let mut i: usize = 0;
        while i < self.tasks.len()
            invariant
                i <= self.tasks.len(),
                m == max_id(self@.take(i as int)),
            decreases self.tasks.len() - i,
        {
            assert(self@.take(i as int + 1).drop_last() =~= self@.take(i as int));
            if self.tasks[i].id > m {
                m = self.tasks[i].id;
            }
            i = i + 1;
        }
        assert(self@.take(i as int) =~= self@);
        m + 1
    }

    /// Whether `add` can assign a fresh id: the largest id is below `u32::MAX`.
    pub fn can_add(&self) -> (r: bool)
        ensures
            r == (max_id(self@) < u32::MAX),
    {
        let mut i: usize = 0;
        let mut room = true;
        while i < self.tasks.len()
            invariant
                i <= self.tasks.len(),
                room == (max_id(self@.take(i as int)) < u32::MAX),
            decreases self.tasks.len() - i,
        {
            assert(self@.take(i as int + 1).drop_last() =~= self@.take(i as int));
            if self.tasks[i].id == u32::MAX {
                room = false;
            }
            i = i + 1;
        }
        assert(self@.take(i as int) =~= self@);
        room
    }

    /// Appends a task with the given name and owner under the next id, and
    /// returns it.
    pub fn add(&mut self, task: TaskInput) -> (r: Task)
        requires
            max_id(old(self)@) < u32::MAX,
        ensures
            final(self)@ == add_spec(old(self)@, task.name@, task.owner@),
            r@ == added_task(old(self)@, task.name@, task.owner@),
            max_id(final(self)@) == max_id(old(self)@) + 1,
            old(self).wf() ==> final(self).wf(),
    {
        let id = self.next_id();
        let t = Task { id, name: task.name, owner: task.owner };
        let r = t.copied();
        proof {
            lemma_max_id(self@);
        }
        self.tasks.push(t);
        assert(self@ =~= add_spec(old(self)@, task.name@, task.owner@));
        assert(self@.drop_last() =~= old(self)@);
        r
    }

    /// Removes every task with the given id; a missing id changes nothing.
    pub fn remove_by_id(&mut self, id: u32)
        ensures
            final(self)@ == remove_spec(old(self)@, id),
            old(self).wf() ==> final(self).wf(),
    {
        let mut kept: Vec<Task> = Vec::new();
        let mut i: usize = 0;
        let ghost s = self@;
        while i < self.tasks.len()
            invariant
                s == self@,
                i <= self.tasks.len(),
                kept@.map_values(|t: Task| t@) == remove_spec(s.take(i as int), id),
            decreases self.tasks.len() - i,
        {
            assert(s.take(i as int + 1).drop_last() =~= s.take(i as int));
            let t = self.tasks[i].copied();
            if t.id != id {
                kept.push(t);
            }
            proof {
                lemma_remove_push(s.take(i as int), s[i as int], id);
                assert(s.take(i as int + 1) =~= s.take(i as int).push(s[i as int]));
            }
            assert(kept@.map_values(|t: Task| t@) =~= remove_spec(s.take(i as int + 1), id));
            i = i + 1;
        }
        assert(s.take(i as int) =~= s);
        self.tasks = kept;
        proof {
            if ids_unique(s) {
                lemma_filter_keeps_unique(s, id);
            }
        }
    }

    /// The first task with the given id, if there is one.
    pub fn get_by_id(&self, id: u32) -> (r: Option<Task>)
        ensures
            task_opt_view(r) == lookup(self@, id),
    {
        let mut i: usize = 0;
        assert(self@.subrange(0, self@.len() as int) =~= self@);
        while i < self.tasks.len()
            invariant
                i <= self.tasks.len(),
                lookup(self@, id) == lookup(self@.subrange(i as int, self@.len() as int), id),
            decreases self.tasks.len() - i,
        {
            proof {
                lemma_lookup_step(self@, i as int, id);
            }
            if self.tasks[i].id == id {
                return Some(self.tasks[i].copied());
            }
            i = i + 1;
        }
        None
    }
}

/// Removing from a list with one more task at its end.
proof fn lemma_remove_push(s: Seq<TaskSpec>, t: TaskSpec, id: u32)
    ensures
        remove_spec(s.push(t), id) == (if t.id != id {
            remove_spec(s, id).push(t)
        } else {
            remove_spec(s, id)
        }),
{
    reveal(Seq::filter);
    assert(s.push(t).drop_last() =~= s);
}

/// Filtering a list with unique ids keeps its ids unique.
proof fn lemma_filter_keeps_unique(s: Seq<TaskSpec>, id: u32)
    requires
        ids_unique(s),
    ensures
        ids_unique(remove_spec(s, id)),
    decreases s.len(),
{
    broadcast use vstd::seq_lib::group_filter_ensures;

    if s.len() > 0 {
        let p = s.drop_last();
        assert(ids_unique(p));
        lemma_filter_keeps_unique(p, id);
        assert(s =~= p.push(s.last()));
        lemma_remove_push(p, s.last(), id);
        let q = remove_spec(p, id);
        if s.last().id != id {
            assert forall|i: int| 0 <= i < q.len() implies q[i].id != s.last().id by {
                let x = q[i];
                assert(q.contains(x));
                p.lemma_filter_contains_rev(|t: TaskSpec| t.id != id, x);
                let k = choose|k: int| 0 <= k < p.len() && p[k] == x;
                assert(s[k] == x);
            }
        }
    }
}

/// The store after adding each (name, owner) pair of `inputs` in turn.
pub open spec fn add_all(s: Seq<TaskSpec>, inputs: Seq<(Seq<char>, Seq<char>)>) -> Seq<TaskSpec>
    decreases inputs.len(),
{
    if inputs.len() == 0 {
        s
    } else {
        let before = add_all(s, inputs.drop_last());
        add_spec(before, inputs.last().0, inputs.last().1)
    }
}

/// Adding tasks one after another to an empty store numbers them 1, 2, 3, ...
/// in order, so the assigned ids are strictly increasing and start at 1.
pub proof fn lemma_ids_from_empty(inputs: Seq<(Seq<char>, Seq<char>)>)
    requires
        inputs.len() < u32::MAX,
    ensures
        add_all(Seq::empty(), inputs).len() == inputs.len(),
        max_id(add_all(Seq::empty(), inputs)) == inputs.len(),
        forall|i: int|
            0 <= i < inputs.len() ==> #[trigger] add_all(Seq::empty(), inputs)[i].id == i + 1,
        forall|i: int, j: int|
            0 <= i < j < inputs.len() ==> add_all(Seq::empty(), inputs)[i].id < add_all(
                Seq::empty(),
                inputs,
            )[j].id,
    decreases inputs.len(),
{
    if inputs.len() > 0 {
        lemma_ids_from_empty(inputs.drop_last());
        let before = add_all(Seq::empty(), inputs.drop_last());
        let after = add_all(Seq::empty(), inputs);
        assert(after.drop_last() =~= before);
        assert forall|i: int| 0 <= i < inputs.len() implies #[trigger] after[i].id == i + 1 by {
            if i < inputs.len() - 1 {
                assert(after[i] == before[i]);
            }
        }
    }
}

/// Removing an id that no task carries leaves the store as it was.
pub proof fn lemma_remove_absent(s: Seq<TaskSpec>, id: u32)
    requires
        forall|i: int| 0 <= i < s.len() ==> s[i].id != id,
    ensures
        remove_spec(s, id) == s,
    decreases s.len(),
{
    if s.len() > 0 {
        let p = s.drop_last();
        lemma_remove_absent(p, id);
        lemma_remove_push(p, s.last(), id);
        assert(p.push(s.last()) =~= s);
    }
}

/// Looking up the id of a task appended after tasks that do not carry it
/// finds that task.
proof fn lemma_lookup_push(s: Seq<TaskSpec>, t: TaskSpec)
    requires
        forall|i: int| 0 <= i < s.len() ==> s[i].id != t.id,
    ensures
        lookup(s.push(t), t.id) == Some(t),
    decreases s.len(),
{
    if s.len() > 0 {
        assert(s.push(t).drop_first() =~= s.drop_first().push(t));
        lemma_lookup_push(s.drop_first(), t);
    }
}

/// Looking up the id that `add` assigned gives back exactly the submitted
/// name and owner under that id.
pub proof fn lemma_get_after_add(s: Seq<TaskSpec>, name: Seq<char>, owner: Seq<char>)
    requires
        max_id(s) < u32::MAX,
    ensures
        lookup(add_spec(s, name, owner), (max_id(s) + 1) as u32) == Some(
            TaskSpec { id: (max_id(s) + 1) as u32, name, owner },
        ),
{
    lemma_max_id(s);
    lemma_lookup_push(s, added_task(s, name, owner));
}

} // verus!
