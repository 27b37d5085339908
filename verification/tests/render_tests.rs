use todos::command::dispatch;
use todos::command::Command;
use todos::render::center;
use todos::render::completed_label;
use todos::render::dashes;
use todos::render::index_label;
use todos::render::render_home_page;
use todos::render::render_row;
use todos::render::render_table;
use todos::Todo;
use todos::TodoError;
use todos::TodoStore;

#[test]
fn two_todos_render_in_ascending_order_with_their_flags() {
    let todos = vec![
        Todo { index: 1, title: String::from("Wash dishes"), completed: false },
        Todo { index: 2, title: String::from("Fetch laundry in"), completed: true },
    ];
    let table = render_table(&todos);
    assert_eq!(
        table,
        "Index\tCompleted\tTodo\n[1]\tno\t\tWash dishes\n[2]\tyes\t\tFetch laundry in\n"
    );
    let rows: Vec<&str> = table.lines().collect();
    assert!(rows[1].ends_with("Wash dishes") && rows[1].contains("no"));
    assert!(rows[2].ends_with("Fetch laundry in") && rows[2].contains("yes"));
}

#[test]
fn empty_list_renders_the_header_alone() {
    let table = render_table(&Vec::new());
    assert_eq!(table, "Index\tCompleted\tTodo\n");
}

#[test]
fn row_pieces_match_the_original_layout() {
    assert_eq!(index_label(12), "[12]");
    assert_eq!(completed_label(true), "yes");
    assert_eq!(completed_label(false), "no");
    let row = render_row(&Todo { index: 3, title: String::from("Make dinner"), completed: false });
    assert_eq!(row, "[3]\tno\t\tMake dinner\n");
}

#[test]
fn home_page_with_a_width_centers_the_title_and_draws_dividers() {
    let todos = vec![Todo::new(1, String::from("x"))];
    let page = render_home_page(&todos, Some(8));
    assert_eq!(
        page,
        "  Home  \n--------\nIndex\tCompleted\tTodo\n[1]\tno\t\tx\n--------\n"
    );
}

#[test]
fn home_page_without_a_width_degrades_to_blank_dividers() {
    let page = render_home_page(&Vec::new(), None);
    assert_eq!(page, "\nIndex\tCompleted\tTodo\n\n");
}

#[test]
fn centering_and_dividers_compute_exact_padding() {
    assert_eq!(center("Home", 9), "  Home   ");
    assert_eq!(center("Home", 3), "Home");
    assert_eq!(dashes(4), "----");
    assert_eq!(dashes(0), "");
}

#[test]
fn new_todo_command_stores_the_record_and_confirms_it() {
    let mut st = TodoStore::new();
    let msg = dispatch(&mut st, Command::TodoNew { name: String::from("X") }).unwrap();
    assert_eq!(msg, "Creating new todo \"X\"");
    let list = st.list();
    assert_eq!(list.len(), 1);
    assert_eq!(list[0].index, 1);
    assert_eq!(list[0].title, "X");
    assert!(!list[0].completed);
}

#[test]
fn do_command_completes_or_reports_not_found() {
    let mut st = TodoStore::new();
    dispatch(&mut st, Command::TodoNew { name: String::from("task") }).unwrap();
    let quiet = dispatch(&mut st, Command::TodoDo { index: 1 }).unwrap();
    assert_eq!(quiet, "");
    assert!(st.list()[0].completed);
    let missing = dispatch(&mut st, Command::TodoDo { index: 9 });
    assert_eq!(missing.unwrap_err(), TodoError::NotFound);
}

#[test]
fn note_command_only_prints_a_placeholder() {
    let mut st = TodoStore::new();
    let named = dispatch(&mut st, Command::NoteNew { name: Some(String::from("plan")) }).unwrap();
    assert_eq!(named, "Creating note with title: plan");
    let unnamed = dispatch(&mut st, Command::NoteNew { name: None }).unwrap();
    assert_eq!(unnamed, "Creating note with default title");
    assert!(st.list().is_empty());
}
