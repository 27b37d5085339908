use todos::get_all_todos;
use todos::get_todo;
use todos::setup_todos_storage;
use todos::write_todo;
use todos::Todo;
use todos::TodoError;
use todos::TodoStore;

fn assert_records(list: &[Todo], expected: &[(i32, &str, bool)]) {
    assert_eq!(list.len(), expected.len());
    for (t, (index, title, completed)) in list.iter().zip(expected.iter()) {
        assert_eq!(t.index, *index);
        assert_eq!(t.title, *title);
        assert_eq!(t.completed, *completed);
    }
}

#[test]
fn todo_new_starts_incomplete() {
    let t = Todo::new(7, String::from("Water plants"));
    assert_eq!(t.index, 7);
    assert_eq!(t.title, "Water plants");
    assert!(!t.completed);
}

#[test]
fn mark_as_completed_only_flips_the_flag() {
    let mut t = Todo::new(2, String::from("Call back"));
    t.mark_as_completed();
    assert_eq!(t.index, 2);
    assert_eq!(t.title, "Call back");
    assert!(t.completed);
}

#[test]
fn create_assigns_fresh_ascending_indices() {
    let mut st = TodoStore::new();
    let a = st.create(String::from("first"));
    let b = st.create(String::from("second"));
    assert_eq!(a.index, 1);
    assert_eq!(b.index, 2);
    assert!(!a.completed && !b.completed);
    assert_records(&st.list(), &[(1, "first", false), (2, "second", false)]);
    assert_eq!(st.next_index(), 3);
}

#[test]
fn complete_unknown_index_fails_and_changes_nothing() {
    let mut st = TodoStore::new();
    st.create(String::from("only one"));
    let before = st.list();
    let before_next = st.next_index();
    let r = st.complete(42);
    assert_eq!(r.unwrap_err(), TodoError::NotFound);
    let after = st.list();
    assert_eq!(st.next_index(), before_next);
    assert_records(
        &after,
        &[(before[0].index, &before[0].title, before[0].completed)],
    );
}

#[test]
fn complete_marks_exactly_the_requested_record() {
    let mut st = TodoStore::new();
    st.create(String::from("one"));
    st.create(String::from("two"));
    let done = st.complete(1).unwrap();
    assert_eq!(done.index, 1);
    assert!(done.completed);
    assert_records(&st.list(), &[(1, "one", true), (2, "two", false)]);
}

#[test]
fn completing_twice_leaves_state_as_after_the_first_call() {
    let mut st = TodoStore::new();
    st.create(String::from("repeat"));
    st.create(String::from("other"));
    st.complete(1).unwrap();
    let once = st.list();
    let once_next = st.next_index();
    let again = st.complete(1).unwrap();
    assert!(again.completed);
    assert_eq!(st.next_index(), once_next);
    let twice = st.list();
    assert_eq!(once.len(), twice.len());
    for (a, b) in once.iter().zip(twice.iter()) {
        assert_eq!(a.index, b.index);
        assert_eq!(a.title, b.title);
        assert_eq!(a.completed, b.completed);
    }
}

#[test]
fn get_todo_finds_by_index() {
    let mut st = TodoStore::new();
    st.create(String::from("alpha"));
    st.create(String::from("beta"));
    let t = get_todo(&st, 2).unwrap();
    assert_eq!(t.index, 2);
    assert_eq!(t.title, "beta");
    assert!(!t.completed);
    assert_eq!(get_todo(&st, 3).unwrap_err(), TodoError::NotFound);
}

#[test]
fn write_todo_replaces_the_record_with_the_same_index() {
    let mut st = TodoStore::new();
    st.create(String::from("old title"));
    st.create(String::from("keep me"));
    write_todo(&mut st, Todo { index: 1, title: String::from("new title"), completed: true });
    assert_records(&st.list(), &[(1, "new title", true), (2, "keep me", false)]);
    assert_eq!(st.next_index(), 3);
}

#[test]
fn write_todo_inserts_in_index_order_and_raises_the_counter() {
    let mut st = TodoStore::new();
    write_todo(&mut st, Todo::new(5, String::from("late")));
    write_todo(&mut st, Todo::new(2, String::from("early")));
    assert_records(&st.list(), &[(2, "early", false), (5, "late", false)]);
    assert_eq!(st.next_index(), 6);
    let fresh = st.create(String::from("next"));
    assert_eq!(fresh.index, 6);
}

#[test]
fn get_all_todos_returns_the_sample_in_order() {
    let todos = get_all_todos();
    assert_records(
        &todos,
        &[
            (1, "Wash dishes", false),
            (2, "Fetch laundry in", true),
            (3, "Make dinner", false),
        ],
    );
}

#[test]
fn setup_todos_storage_prefers_the_given_path() {
    assert_eq!(setup_todos_storage(Some(String::from("elsewhere.db"))), "elsewhere.db");
    assert_eq!(setup_todos_storage(None), "todos.txt");
}

#[test]
fn error_messages_name_each_failure() {
    assert_eq!(TodoError::NotFound.message(), "todo not found");
    assert_eq!(TodoError::CorruptState.message(), "stored todos are corrupt");
    assert_eq!(TodoError::IoFailure.message(), "could not access todo storage");
}
