use todos::codec::encode_store;
use todos::codec::parse_store;
use todos::write_todo;
use todos::Todo;
use todos::TodoError;
use todos::TodoStore;

fn same_store(a: &TodoStore, b: &TodoStore) {
    assert_eq!(a.next_index(), b.next_index());
    let la = a.list();
    let lb = b.list();
    assert_eq!(la.len(), lb.len());
    for (x, y) in la.iter().zip(lb.iter()) {
        assert_eq!(x.index, y.index);
        assert_eq!(x.title, y.title);
        assert_eq!(x.completed, y.completed);
    }
}

#[test]
fn empty_store_encodes_to_counter_and_count() {
    let st = TodoStore::new();
    assert_eq!(encode_store(&st), "1\n0\n");
}

#[test]
fn encode_writes_each_record_field_on_its_own_line() {
    let mut st = TodoStore::new();
    st.create(String::from("a"));
    st.create(String::from("bb"));
    st.complete(2).unwrap();
    assert_eq!(encode_store(&st), "3\n2\n1\n0\n1\na\n2\n1\n2\nbb\n");
}

#[test]
fn parse_reads_back_what_encode_wrote() {
    let mut st = TodoStore::new();
    st.create(String::from("wash dishes"));
    st.create(String::from("fetch laundry"));
    st.create(String::from("make dinner"));
    st.complete(2).unwrap();
    let text = encode_store(&st);
    let back = parse_store(&text).unwrap();
    same_store(&st, &back);
}

#[test]
fn round_trip_keeps_titles_that_hold_newlines_and_digits() {
    let mut st = TodoStore::new();
    write_todo(&mut st, Todo::new(3, String::from("line one\nline two")));
    write_todo(&mut st, Todo::new(8, String::from("42\n7\n")));
    let text = encode_store(&st);
    let back = parse_store(&text).unwrap();
    same_store(&st, &back);
}

#[test]
fn round_trip_keeps_the_empty_store() {
    let st = TodoStore::new();
    let back = parse_store(&encode_store(&st)).unwrap();
    same_store(&st, &back);
}

#[test]
fn parse_accepts_a_bare_counter_and_count() {
    let st = parse_store("5\n0\n").unwrap();
    assert_eq!(st.next_index(), 5);
    assert!(st.list().is_empty());
}

#[test]
fn parse_accepts_redundant_leading_zeros() {
    let st = parse_store("01\n0\n").unwrap();
    assert_eq!(st.next_index(), 1);
}

#[test]
fn parse_rejects_empty_text() {
    assert_eq!(parse_store("").unwrap_err(), TodoError::CorruptState);
}

#[test]
fn parse_rejects_a_zero_counter() {
    assert_eq!(parse_store("0\n0\n").unwrap_err(), TodoError::CorruptState);
}

#[test]
fn parse_rejects_a_missing_record() {
    assert_eq!(parse_store("1\n1\n").unwrap_err(), TodoError::CorruptState);
}

#[test]
fn parse_rejects_an_index_at_or_above_the_counter() {
    assert_eq!(parse_store("2\n1\n5\n0\n0\n\n").unwrap_err(), TodoError::CorruptState);
}

#[test]
fn parse_rejects_a_completion_flag_above_one() {
    assert_eq!(parse_store("3\n1\n1\n2\n0\n\n").unwrap_err(), TodoError::CorruptState);
}

#[test]
fn parse_rejects_records_out_of_index_order() {
    let text = "4\n2\n2\n0\n0\n\n1\n0\n0\n\n";
    assert_eq!(parse_store(text).unwrap_err(), TodoError::CorruptState);
}

#[test]
fn parse_rejects_trailing_text() {
    assert_eq!(parse_store("1\n0\nx").unwrap_err(), TodoError::CorruptState);
}

#[test]
fn parse_rejects_an_oversized_number() {
    assert_eq!(
        parse_store("99999999999999999999\n0\n").unwrap_err(),
        TodoError::CorruptState
    );
}

#[test]
fn parse_rejects_a_wrong_title_length() {
    assert_eq!(parse_store("2\n1\n1\n0\n9\nab\n").unwrap_err(), TodoError::CorruptState);
}
