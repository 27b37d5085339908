//! The todo store: the canonical, index-ordered collection of todo records,
//! together with the monotonic counter from which new indices are assigned.

use vstd::prelude::*;
use vstd::string::StringExecFns;
use crate::todo::{Todo, TodoError, TodoView};

verus! {

/// The mathematical value of a [`TodoStore`]: the record values in storage
/// order, and the index the next created todo will take.
#[verifier::ext_equal]
pub ghost struct StoreView {
    pub todos: Seq<TodoView>,
    pub next: int,
}

/// The canonical collection of todos. Records are kept in ascending index
/// order; `next_index` stays above every stored index, so indices are unique
/// and never reused.
#[derive(Debug)]
pub struct TodoStore {
    todos: Vec<Todo>,
    next_index: i32,
}

/// The views of the records of a sequence of todos, in the same order.
pub open spec fn seq_views(s: Seq<Todo>) -> Seq<TodoView> {
    Seq::new(s.len(), |i: int| s[i]@)
}

/// Whether `s` holds some record carrying index `idx`.
pub open spec fn has_index(s: Seq<TodoView>, idx: int) -> bool {
    exists|i: int| 0 <= i < s.len() && s[i].index == idx
}

/// The position of a record carrying index `idx` (unique when indices are
/// sorted).
pub open spec fn index_pos(s: Seq<TodoView>, idx: int) -> int {
    choose|i: int| 0 <= i < s.len() && s[i].index == idx
}

/// Indices strictly ascend, so in particular each index occurs at most once.
pub open spec fn sorted_by_index(s: Seq<TodoView>) -> bool {
    forall|i: int, j: int| 0 <= i < j < s.len() ==> s[i].index < s[j].index
}

/// What every reachable store state satisfies: indices strictly ascend and
/// each lies between 1 (inclusive) and the next index to be handed out.
pub open spec fn wf_view(v: StoreView) -> bool {
    &&& 1 <= v.next <= i32::MAX
    &&& sorted_by_index(v.todos)
    &&& forall|i: int| 0 <= i < v.todos.len() ==> 1 <= #[trigger] v.todos[i].index < v.next
}

impl View for TodoStore {
    type V = StoreView;

    closed spec fn view(&self) -> StoreView {
        StoreView { todos: seq_views(self.todos@), next: self.next_index as int }
    }
}

/// What completing index `idx` leaves behind: the same records, with the one
/// carrying `idx` (if any) marked completed.
pub open spec fn spec_complete(s: Seq<TodoView>, idx: int) -> Seq<TodoView> {
    if has_index(s, idx) {
        let p = index_pos(s, idx);
        s.update(p, TodoView { completed: true, ..s[p] })
    } else {
        s
    }
}

/// The position at which a record with index `idx` belongs in `s`: the first
/// position whose record's index is not below `idx`.
pub open spec fn insert_pos(s: Seq<TodoView>, idx: int) -> int
    decreases s.len(),
{
    if s.len() == 0 {
        0
    } else if s[0].index >= idx {
        0
    } else {
        1 + insert_pos(s.skip(1), idx)
    }
}

/// What writing record `t` leaves behind: the record with the same index is
/// replaced, or `t` is inserted at its ordered position.
pub open spec fn spec_upsert(s: Seq<TodoView>, t: TodoView) -> Seq<TodoView> {
    if has_index(s, t.index) {
        s.update(index_pos(s, t.index), t)
    } else {
        s.insert(insert_pos(s, t.index), t)
    }
}

/// When indices are sorted, any position holding `idx` is the position
/// `index_pos` names.
pub proof fn lemma_index_pos_unique(s: Seq<TodoView>, idx: int, p: int)
    requires
        sorted_by_index(s),
        0 <= p < s.len(),
        s[p].index == idx,
    ensures
        has_index(s, idx),
        index_pos(s, idx) == p,
{
    assert(has_index(s, idx));
    let q = index_pos(s, idx);
    assert(0 <= q < s.len() && s[q].index == idx);
    if q < p {
        assert(s[q].index < s[p].index);
    } else if p < q {
        assert(s[p].index < s[q].index);
    }
}

/// `insert_pos` is the first position whose index is not below `idx`:
/// everything before it is smaller, and the position itself (when it exists)
/// is not.
pub proof fn lemma_insert_pos(s: Seq<TodoView>, idx: int)
    ensures
        0 <= insert_pos(s, idx) <= s.len(),
        forall|k: int| 0 <= k < insert_pos(s, idx) ==> #[trigger] s[k].index < idx,
        insert_pos(s, idx) < s.len() ==> s[insert_pos(s, idx)].index >= idx,
    decreases s.len(),
{
    if s.len() != 0 && s[0].index < idx {
        lemma_insert_pos(s.skip(1), idx);
        assert forall|k: int| 0 <= k < insert_pos(s, idx) implies #[trigger] s[k].index < idx by {
            if k > 0 {
                assert(s.skip(1)[k - 1] == s[k]);
            }
        }
        if insert_pos(s, idx) < s.len() {
            assert(s.skip(1)[insert_pos(s, idx) - 1] == s[insert_pos(s, idx)]);
        }
    }
}

impl TodoStore {
    /// Every public operation preserves this shape.
    pub open spec fn wf(&self) -> bool {
        wf_view(self@)
    }

    /// The empty store: no records, first index 1. An absent storage file
    /// loads as this state.
    pub fn new() -> (s: TodoStore)
        ensures
            s.wf(),
            s@.todos.len() == 0,
            s@.next == 1,
    {
        TodoStore { todos: Vec::new(), next_index: 1 }
    }

    /// The position of the record carrying `index`, scanning in order.
    fn position_of(&self, index: i32) -> (r: Option<usize>)
        ensures
            match r {
                Some(p) => p < self@.todos.len() && self@.todos[p as int].index == index as int,
                None => !has_index(self@.todos, index as int),
            },
    {
        let mut i: usize = 0;
        while i < self.todos.len()
            invariant
                i <= self.todos.len(),
                forall|k: int| 0 <= k < i ==> #[trigger] self@.todos[k].index != index as int,
            decreases self.todos.len() - i,
        {
            if self.todos[i].index == index {
                return Some(i);
            }
            i = i + 1;
        }
        None
    }

    /// Allocates the next unused index, stores a new incomplete todo with the
    /// given title, and returns a copy of the stored record.
    pub fn create(&mut self, title: String) -> (t: Todo)
        requires
            old(self).wf(),
            old(self)@.next < i32::MAX,
        ensures
            final(self).wf(),
            final(self)@.next == old(self)@.next + 1,
            final(self)@.todos == old(self)@.todos.push(
                TodoView { index: old(self)@.next, title: title@, completed: false },
            ),
            t@ == (TodoView { index: old(self)@.next, title: title@, completed: false }),
    {
        let t = Todo::new(self.next_index, title);
        let stored = t.duplicate();
        self.todos.push(stored);
        self.next_index = self.next_index + 1;
        proof {
            assert(self@.todos =~= old(self)@.todos.push(t@));
        }
        t
    }

    /// Marks the record carrying the given index as completed and returns a
    /// copy of the updated record. When no record carries that index, fails
    /// with `NotFound` and leaves the store exactly as it was.
    pub fn complete(&mut self, index: i32) -> (r: Result<Todo, TodoError>)
        requires
            old(self).wf(),
        ensures
            final(self).wf(),
            final(self)@.next == old(self)@.next,
            final(self)@.todos == spec_complete(old(self)@.todos, index as int),
            r is Ok <==> has_index(old(self)@.todos, index as int),
            (r matches Ok(t) ==> t@ == (TodoView {
                completed: true,
                ..old(self)@.todos[index_pos(old(self)@.todos, index as int)]
            })),
            (r matches Err(e) ==> e == TodoError::NotFound && final(self)@ == old(self)@),
    {
        match self.position_of(index) {
            None => Err(TodoError::NotFound),
            Some(p) => {
                proof {
                    lemma_index_pos_unique(self@.todos, index as int, p as int);
                }
                let mut t = self.todos.remove(p);
                t.mark_as_completed();
                let copy = t.duplicate();
                self.todos.insert(p, t);
                proof {
                    let s0 = old(self)@.todos;
                    let pi = p as int;
                    assert(self@.todos =~= s0.update(pi, TodoView { completed: true, ..s0[pi] }));
                    assert forall|i: int, j: int| 0 <= i < j < self@.todos.len()
                        implies self@.todos[i].index < self@.todos[j].index by {
                        assert(s0[i].index < s0[j].index);
                    }
                }
                Ok(copy)
            },
        }
    }

    /// All records, as copies, in storage (ascending index) order.
    pub fn list(&self) -> (r: Vec<Todo>)
        ensures
            seq_views(r@) == self@.todos,
    {
        let mut r: Vec<Todo> = Vec::new();
        let mut i: usize = 0;
        while i < self.todos.len()
            invariant
                i <= self.todos.len(),
                r@.len() == i,
                forall|k: int| 0 <= k < i ==> #[trigger] r@[k]@ == self@.todos[k],
            decreases self.todos.len() - i,
        {
            r.push(self.todos[i].duplicate());
            i = i + 1;
        }
        proof {
            assert(seq_views(r@) =~= self@.todos);
        }
        r
    }
}

/// Looks up the stored todo carrying the supplied index; fails with
/// `NotFound` when no record carries it.
pub fn get_todo(store: &TodoStore, index: i32) -> (r: Result<Todo, TodoError>)
    requires
        store.wf(),
    ensures
        r is Ok <==> has_index(store@.todos, index as int),
        (r matches Ok(t) ==> has_index(store@.todos, index as int)
            && t@ == store@.todos[index_pos(store@.todos, index as int)]),
        (r matches Err(e) ==> e == TodoError::NotFound),
{
    match store.position_of(index) {
        None => Err(TodoError::NotFound),
        Some(p) => {
            proof {
                lemma_index_pos_unique(store@.todos, index as int, p as int);
            }
            Ok(store.todos_at(p))
        },
    }
}

/// Writes the given record into the store: the record with the same index is
/// replaced, or the new record is inserted at its ordered position; the
/// next-index counter is raised past the written index when needed.
pub fn write_todo(store: &mut TodoStore, todo: Todo)
    requires
        old(store).wf(),
        1 <= todo@.index,
        todo@.index < i32::MAX,
    ensures
        final(store).wf(),
        final(store)@.todos == spec_upsert(old(store)@.todos, todo@),
        final(store)@.next == (if todo@.index + 1 > old(store)@.next {
            todo@.index + 1
        } else {
            old(store)@.next
        }),
{
    let ghost s0 = old(store)@.todos;
    let ghost idx = todo@.index;
    let mut p: usize = 0;
    while p < store.todos.len() && store.todos[p].index < todo.index
        invariant
            store == old(store),
            s0 == store@.todos,
            idx == todo@.index,
            p <= store.todos.len(),
            forall|k: int| 0 <= k < p ==> #[trigger] s0[k].index < idx,
        decreases store.todos.len() - p,
    {
        proof {
            assert(s0[p as int] == store@.todos[p as int]);
            assert(store@.todos[p as int].index < idx);
        }
        p = p + 1;
    }
    proof {
        lemma_insert_pos(s0, idx);
        let ip = insert_pos(s0, idx);
        if ip < p {
            assert(s0[ip].index < idx);
        } else if p < ip {
            assert(s0[p as int].index < idx);
        }
        assert(p as int == ip);
    }
    let new_index = todo.index;
    let found = p < store.todos.len() && store.todos[p].index == todo.index;
    proof {
        let pi = p as int;
        if found {
            lemma_index_pos_unique(s0, idx, pi);
        } else {
            assert forall|k: int| 0 <= k < s0.len() implies #[trigger] s0[k].index != idx by {
                if k >= pi {
                    if pi < s0.len() {
                        if k > pi {
                            assert(s0[pi].index < s0[k].index);
                        }
                    }
                }
            }
            assert(!has_index(s0, idx));
        }
    }
    if found {
        let _replaced = store.todos.remove(p);
        store.todos.insert(p, todo);
        proof {
            assert(store@.todos =~= s0.update(p as int, todo@));
        }
    } else {
        store.todos.insert(p, todo);
        proof {
            assert(store@.todos =~= s0.insert(p as int, todo@));
        }
    }
    if new_index >= store.next_index {
        store.next_index = new_index + 1;
    }
    proof {
        let s1 = store@.todos;
        let pi = p as int;
        assert forall|i: int, j: int| 0 <= i < j < s1.len()
            implies s1[i].index < s1[j].index by {
            if found {
                assert(s0[i].index <= s1[i].index || i == pi);
                assert(s0[i].index < s0[j].index);
            } else {
                lemma_insert_pos(s0, idx);
                if i < pi && j == pi {
                    assert(s0[i].index < idx);
                } else if i == pi && j > pi {
                    assert(s1[j] == s0[j - 1]);
                    assert(s0[j - 1].index >= idx);
                    assert(s0[j - 1].index != idx);
                } else if i < pi && j > pi {
                    assert(s1[i] == s0[i] && s1[j] == s0[j - 1]);
                    if i < j - 1 {
                        assert(s0[i].index < s0[j - 1].index);
                    } else {
                        assert(s0[i].index < idx && s0[j - 1].index >= idx);
                    }
                } else if i > pi {
                    assert(s1[i] == s0[i - 1] && s1[j] == s0[j - 1]);
                    assert(s0[i - 1].index < s0[j - 1].index);
                } else if j < pi {
                    assert(s1[i] == s0[i] && s1[j] == s0[j]);
                }
            }
        }
    }
}

impl TodoStore {
    /// The index the next created todo will take.
    pub fn next_index(&self) -> (r: i32)
        ensures
            r as int == self@.next,
    {
        self.next_index
    }

    /// A borrowed look at the stored records, in storage order.
    pub fn records(&self) -> (r: &Vec<Todo>)
        ensures
            seq_views(r@) == self@.todos,
    {
        &self.todos
    }

    /// A store built from already-validated parts.
    pub(crate) fn assemble(todos: Vec<Todo>, next_index: i32) -> (s: TodoStore)
        requires
            wf_view(StoreView { todos: seq_views(todos@), next: next_index as int }),
        ensures
            s.wf(),
            s@ == (StoreView { todos: seq_views(todos@), next: next_index as int }),
    {
        TodoStore { todos, next_index }
    }

    /// A copy of the record at storage position `p`.
    fn todos_at(&self, p: usize) -> (t: Todo)
        requires
            p < self@.todos.len(),
        ensures
            t@ == self@.todos[p as int],
    {
        self.todos[p].duplicate()
    }
}

/// The built-in sample records, in ascending index order.
pub open spec fn sample_todos() -> Seq<TodoView> {
    seq![
        TodoView { index: 1, title: "Wash dishes"@, completed: false },
        TodoView { index: 2, title: "Fetch laundry in"@, completed: true },
        TodoView { index: 3, title: "Make dinner"@, completed: false },
    ]
}

/// Returns the built-in sample todos, sorted by (ascending) index.
pub fn get_all_todos() -> (r: Vec<Todo>)
    ensures
        seq_views(r@) == sample_todos(),
{
    let mut r: Vec<Todo> = Vec::new();
    r.push(Todo { index: 1, title: String::from_str("Wash dishes"), completed: false });
    r.push(Todo { index: 2, title: String::from_str("Fetch laundry in"), completed: true });
    r.push(Todo::new(3, String::from_str("Make dinner")));
    proof {
        assert(seq_views(r@) =~= sample_todos());
    }
    r
}

/// The effective storage location: the caller's choice when one is given,
/// else the default storage file name.
pub fn setup_todos_storage(path: Option<String>) -> (r: String)
    ensures
        r@ == (match path {
            Some(p) => p@,
            None => "todos.txt"@,
        }),
{
    match path {
        Some(p) => p,
        None => String::from_str("todos.txt"),
    }
}

/// Completing is idempotent: completing the same index a second time leaves
/// the records exactly as the first completion left them. (Sorted indices
/// make the completed position unique; every well-formed store is sorted.)
pub proof fn lemma_complete_idempotent(s: Seq<TodoView>, idx: int)
    requires
        sorted_by_index(s),
    ensures
        spec_complete(spec_complete(s, idx), idx) == spec_complete(s, idx),
{
    if has_index(s, idx) {
        let p = index_pos(s, idx);
        assert(0 <= p < s.len() && s[p].index == idx);
        let s1 = spec_complete(s, idx);
        assert(s1 == s.update(p, TodoView { completed: true, ..s[p] }));
        assert forall|i: int, j: int| 0 <= i < j < s1.len()
            implies s1[i].index < s1[j].index by {
            assert(s[i].index < s[j].index);
        }
        lemma_index_pos_unique(s1, idx, p);
        assert(spec_complete(s1, idx) == s1.update(p, TodoView { completed: true, ..s1[p] }));
        assert(s1.update(p, TodoView { completed: true, ..s1[p] }) =~= s1);
    }
}

/// A sequence of records whose indices strictly ascend within `[1, bound)`
/// cannot hold more than `bound - 1` records.
pub proof fn lemma_sorted_len_bound(s: Seq<TodoView>, bound: int)
    requires
        sorted_by_index(s),
        bound >= 1,
        forall|i: int| 0 <= i < s.len() ==> 1 <= #[trigger] s[i].index < bound,
    ensures
        s.len() <= bound - 1,
    decreases s.len(),
{
    if s.len() > 0 {
        let t = s.drop_last();
        assert forall|i: int| 0 <= i < t.len() implies 1 <= #[trigger] t[i].index
            < s.last().index by {
            assert(t[i] == s[i]);
            assert(s[i].index < s[s.len() - 1].index);
        }
        lemma_sorted_len_bound(t, s.last().index);
    }
}

/// A well-formed store holds fewer records than its next index.
pub proof fn lemma_store_len_bound(v: StoreView)
    requires
        wf_view(v),
    ensures
        v.todos.len() < v.next,
{
    lemma_sorted_len_bound(v.todos, v.next);
}

/// Creating a todo and then listing shows exactly one new record at the end:
/// it carries a fresh index that no record already stored carries, it is not
/// completed, and every earlier record is untouched.
pub proof fn lemma_create_new_record(v: StoreView, title: Seq<char>)
    requires
        wf_view(v),
    ensures
        ({
            let w = v.todos.push(TodoView { index: v.next, title, completed: false });
            &&& w.len() == v.todos.len() + 1
            &&& !w.last().completed
            &&& w.last().index == v.next
            &&& !has_index(v.todos, v.next)
            &&& forall|k: int| 0 <= k < v.todos.len() ==> w[k] == v.todos[k]
        }),
{
}

} // verus!
