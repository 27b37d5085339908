//! The storage codec: the plain-text form of a whole store, and its reader.
//!
//! The format is a sequence of newline-terminated fields: the next-index
//! counter, the record count, then for each record its index, its completion
//! flag (0 or 1), its title's character count, and the title itself. The
//! count in front of the title lets titles hold newlines of their own.

use vstd::prelude::*;
use vstd::string::StrSliceExecFns;
use vstd::string::StringExecFns;
use crate::num::digits_val;
use crate::num::is_digit;
use crate::num::lemma_digits_end_at;
use crate::num::lemma_digits_val_of_spec_digits;
use crate::num::lemma_spec_digits_chars;
use crate::num::num_cap;
use crate::num::parse_num;
use crate::num::push_newline;
use crate::num::spec_digits;
use crate::num::spec_parse_num;
use crate::num::u64_to_string;
use crate::store::lemma_store_len_bound;
use crate::store::seq_views;
use crate::store::wf_view;
use crate::store::StoreView;
use crate::store::TodoStore;
use crate::todo::Todo;
use crate::todo::TodoError;
use crate::todo::TodoView;

verus! {

/// One newline-terminated field.
pub open spec fn spec_field(x: Seq<char>) -> Seq<char> {
    x + seq!['\n']
}

/// One record's text: index, completion flag, title length, title.
pub open spec fn spec_encode_todo(t: TodoView) -> Seq<char> {
    spec_field(spec_digits(t.index as nat)) + spec_field(
        spec_digits(if t.completed {
            1
        } else {
            0
        }),
    ) + spec_field(spec_digits(t.title.len())) + spec_field(t.title)
}

/// The records' text, one record after another.
pub open spec fn spec_encode_todos(ts: Seq<TodoView>) -> Seq<char>
    decreases ts.len(),
{
    if ts.len() == 0 {
        Seq::<char>::empty()
    } else {
        spec_encode_todo(ts[0]) + spec_encode_todos(ts.skip(1))
    }
}

/// Appending a record extends the records' text at its end.
pub proof fn lemma_encode_todos_push(ts: Seq<TodoView>, t: TodoView)
    ensures
        spec_encode_todos(ts.push(t)) == spec_encode_todos(ts) + spec_encode_todo(t),
    decreases ts.len(),
{
    if ts.len() == 0 {
        assert(ts.push(t).skip(1) =~= Seq::<TodoView>::empty());
        assert(ts.push(t)[0] == t);
        assert(spec_encode_todos(Seq::<TodoView>::empty()) == Seq::<char>::empty());
        assert(spec_encode_todo(t) + Seq::<char>::empty() =~= spec_encode_todo(t));
        assert(Seq::<char>::empty() + spec_encode_todo(t) =~= spec_encode_todo(t));
    } else {
        lemma_encode_todos_push(ts.skip(1), t);
        assert(ts.push(t).skip(1) =~= ts.skip(1).push(t));
        assert(ts.push(t)[0] == ts[0]);
        assert(spec_encode_todo(ts[0]) + (spec_encode_todos(ts.skip(1)) + spec_encode_todo(t))
            =~= (spec_encode_todo(ts[0]) + spec_encode_todos(ts.skip(1))) + spec_encode_todo(t));
    }
}

/// A whole store's text: counter, count, then the records.
pub open spec fn spec_encode_store(v: StoreView) -> Seq<char> {
    spec_field(spec_digits(v.next as nat)) + spec_field(spec_digits(v.todos.len()))
        + spec_encode_todos(v.todos)
}

/// Renders the store into its storage text.
pub fn encode_store(store: &TodoStore) -> (r: String)
    requires
        store.wf(),
    ensures
        r@ == spec_encode_store(store@),
{
    let mut r = u64_to_string(store.next_index() as u64);
    push_newline(&mut r);
    let todos = store.records();
    let count_digits = u64_to_string(todos.len() as u64);
    r.append(count_digits.as_str());
    push_newline(&mut r);
    proof {
        assert(r@ =~= spec_field(spec_digits(store@.next as nat)) + spec_field(
            spec_digits(store@.todos.len()),
        ));
    }
    let ghost vs = store@.todos;
    let ghost head = r@;
    let mut i: usize = 0;
    while i < todos.len()
        invariant
            store.wf(),
            i <= todos@.len(),
            vs == store@.todos,
            vs == seq_views(todos@),
            head == spec_field(spec_digits(store@.next as nat)) + spec_field(
                spec_digits(vs.len()),
            ),
            r@ == head + spec_encode_todos(vs.take(i as int)),
        decreases todos@.len() - i,
    {
        let t = &todos[i];
        proof {
            assert(t@ == vs[i as int]);
            assert(1 <= vs[i as int].index < store@.next);
        }
        let idx_digits = u64_to_string(t.index as u64);
        r.append(idx_digits.as_str());
        push_newline(&mut r);
        if t.completed {
            let one = u64_to_string(1);
            r.append(one.as_str());
        } else {
            let zero = u64_to_string(0);
            r.append(zero.as_str());
        }
        push_newline(&mut r);
        let len_digits = u64_to_string(t.title.as_str().unicode_len() as u64);
        r.append(len_digits.as_str());
        push_newline(&mut r);
        r.append(t.title.as_str());
        push_newline(&mut r);
        proof {
            assert(r@ =~= head + spec_encode_todos(vs.take(i as int)) + spec_encode_todo(
                vs[i as int],
            ));
            assert(vs.take(i + 1 as int) =~= vs.take(i as int).push(vs[i as int]));
            lemma_encode_todos_push(vs.take(i as int), vs[i as int]);
            assert(r@ =~= head + spec_encode_todos(vs.take(i + 1 as int)));
        }
        i = i + 1;
    }
    proof {
        assert(vs.take(vs.len() as int) =~= vs);
        assert(r@ =~= spec_encode_store(store@));
    }
    r
}

/// Reading one record at position `i`: index, completion flag (at most 1),
/// title length, then exactly that many title characters and a final
/// newline. Yields the record and the position after it.
pub open spec fn spec_parse_todo(s: Seq<char>, i: int) -> Option<(TodoView, int)> {
    match spec_parse_num(s, i) {
        None => None,
        Some((idx, i1)) => match spec_parse_num(s, i1) {
            None => None,
            Some((flag, i2)) => if flag > 1 {
                None
            } else {
                match spec_parse_num(s, i2) {
                    None => None,
                    Some((tl, i3)) => if i3 + tl >= s.len() {
                        None
                    } else if s[i3 + tl] != '\n' {
                        None
                    } else {
                        Some(
                            (
                                TodoView {
                                    index: idx as int,
                                    title: s.subrange(i3, i3 + tl),
                                    completed: flag == 1,
                                },
                                i3 + tl + 1,
                            ),
                        )
                    },
                }
            },
        },
    }
}

/// Reading `k` records one after another from position `i`.
pub open spec fn spec_parse_todos(s: Seq<char>, i: int, k: nat) -> Option<(Seq<TodoView>, int)>
    decreases k,
{
    if k == 0 {
        Some((Seq::<TodoView>::empty(), i))
    } else {
        match spec_parse_todo(s, i) {
            None => None,
            Some((t, i1)) => match spec_parse_todos(s, i1, (k - 1) as nat) {
                None => None,
                Some((ts, i2)) => Some((seq![t] + ts, i2)),
            },
        }
    }
}

/// Reading a whole storage text: counter (at least 1), count, that many
/// records, nothing after them; the result must be well-formed.
pub open spec fn spec_parse_store(s: Seq<char>) -> Option<StoreView> {
    match spec_parse_num(s, 0) {
        None => None,
        Some((next, i1)) => if next < 1 {
            None
        } else {
            match spec_parse_num(s, i1) {
                None => None,
                Some((cnt, i2)) => match spec_parse_todos(s, i2, cnt) {
                    None => None,
                    Some((ts, i3)) => if i3 != s.len() {
                        None
                    } else if !wf_view(StoreView { todos: ts, next: next as int }) {
                        None
                    } else {
                        Some(StoreView { todos: ts, next: next as int })
                    },
                },
            }
        },
    }
}

/// Reads one record at position `i` of `s`, exactly as [`spec_parse_todo`]
/// describes.
fn parse_todo(s: &str, i: usize) -> (r: Option<(Todo, usize)>)
    requires
        i <= s@.len(),
    ensures
        r is Some <==> spec_parse_todo(s@, i as int) is Some,
        (r matches Some(p) ==> {
            &&& spec_parse_todo(s@, i as int) == Some((p.0@, p.1 as int))
            &&& i < p.1 <= s@.len()
        }),
{
    let (idx, i1) = match parse_num(s, i) {
        None => {
            return None;
        },
        Some(p) => p,
    };
    let (flag, i2) = match parse_num(s, i1) {
        None => {
            return None;
        },
        Some(p) => p,
    };
    if flag > 1 {
        return None;
    }
    let (tl, i3) = match parse_num(s, i2) {
        None => {
            return None;
        },
        Some(p) => p,
    };
    let n = s.unicode_len();
    let tlu = tl as usize;
    if tlu >= n - i3 {
        return None;
    }
    let title_slice = s.substring_char(i3, i3 + tlu);
    if s.get_char(i3 + tlu) != '\n' {
        return None;
    }
    let title = String::from_str(title_slice);
    let t = Todo { index: idx, title, completed: flag == 1 };
    Some((t, i3 + tlu + 1))
}

/// Whether the parts form a well-formed store value.
fn check_wf(todos: &Vec<Todo>, next: i32) -> (b: bool)
    ensures
        b == wf_view(StoreView { todos: seq_views(todos@), next: next as int }),
{
    let ghost vs = seq_views(todos@);
    if next < 1 {
        return false;
    }
    let mut i: usize = 0;
    while i < todos.len()
        invariant
            i <= todos@.len(),
            vs == seq_views(todos@),
            1 <= next,
            forall|k: int| 0 <= k < i ==> 1 <= #[trigger] vs[k].index < next as int,
            forall|k: int, l: int| 0 <= k < l < i ==> vs[k].index < vs[l].index,
        decreases todos@.len() - i,
    {
        if todos[i].index < 1 || todos[i].index >= next {
            proof {
                assert(!(1 <= vs[i as int].index < next as int));
            }
            return false;
        }
        if i > 0 && todos[i - 1].index >= todos[i].index {
            proof {
                assert(!(vs[i - 1].index < vs[i as int].index));
            }
            return false;
        }
        proof {
            assert forall|k: int, l: int| 0 <= k < l < i + 1 implies vs[k].index
                < vs[l].index by {
                if l == i {
                    if k < i - 1 {
                        assert(vs[k].index < vs[i - 1].index);
                    }
                }
            }
        }
        i = i + 1;
    }
    true
}

/// Reads a storage text back into a store, exactly as [`spec_parse_store`]
/// describes; any text that does not read back is reported as corrupt.
#[verifier::loop_isolation(false)]
pub fn parse_store(s: &str) -> (r: Result<TodoStore, TodoError>)
    ensures
        r is Ok <==> spec_parse_store(s@) is Some,
        (r matches Ok(st) ==> spec_parse_store(s@) == Some(st@) && st.wf()),
        (r matches Err(e) ==> e == TodoError::CorruptState),
{
    let (next, i1) = match parse_num(s, 0) {
        None => {
            return Err(TodoError::CorruptState);
        },
        Some(p) => p,
    };
    if next < 1 {
        return Err(TodoError::CorruptState);
    }
    let (cnt, i2) = match parse_num(s, i1) {
        None => {
            return Err(TodoError::CorruptState);
        },
        Some(p) => p,
    };
    let ghost cnt0: nat = cnt as nat;
    let mut todos: Vec<Todo> = Vec::new();
    let mut pos: usize = i2;
    let mut k: i32 = 0;
    while k < cnt
        invariant
            0 <= k <= cnt,
            pos <= s@.len(),
            cnt0 == cnt as nat,
            (spec_parse_todos(s@, i2 as int, cnt0) == (match spec_parse_todos(
                s@,
                pos as int,
                (cnt - k) as nat,
            ) {
                None => None::<(Seq<TodoView>, int)>,
                Some((ts, e)) => Some((seq_views(todos@) + ts, e)),
            })),
        decreases cnt - k,
    {
        match parse_todo(s, pos) {
            None => {
                proof {
                    assert(spec_parse_todos(s@, pos as int, (cnt - k) as nat) is None);
                }
                return Err(TodoError::CorruptState);
            },
            Some((t, p2)) => {
                proof {
                    let rest = (cnt - k - 1) as nat;
                    assert(spec_parse_todos(s@, pos as int, (cnt - k) as nat) == (
                    match spec_parse_todos(s@, p2 as int, rest) {
                        None => None::<(Seq<TodoView>, int)>,
                        Some((ts, e)) => Some((seq![t@] + ts, e)),
                    }));
                    if spec_parse_todos(s@, p2 as int, rest) is Some {
                        let (ts, e) = spec_parse_todos(s@, p2 as int, rest).unwrap();
                        assert(seq_views(todos@.push(t)) + ts =~= seq_views(todos@) + (seq![t@]
                            + ts));
                    }
                }
                todos.push(t);
                pos = p2;
                k = k + 1;
            },
        }
    }
    proof {
        assert(spec_parse_todos(s@, pos as int, 0) == Some((Seq::<TodoView>::empty(), pos as int)));
        assert(seq_views(todos@) + Seq::<TodoView>::empty() =~= seq_views(todos@));
        assert(spec_parse_todos(s@, i2 as int, cnt0) == Some((seq_views(todos@), pos as int)));
    }
    let n = s.unicode_len();
    if pos != n {
        return Err(TodoError::CorruptState);
    }
    if !check_wf(&todos, next) {
        return Err(TodoError::CorruptState);
    }
    Ok(TodoStore::assemble(todos, next))
}

/// Where `s` holds `a + b` from position `i`, it holds `a` there and `b`
/// right after.
proof fn lemma_split_at(s: Seq<char>, i: int, a: Seq<char>, b: Seq<char>)
    requires
        0 <= i,
        i + a.len() + b.len() <= s.len(),
        s.subrange(i, i + a.len() + b.len()) == a + b,
    ensures
        s.subrange(i, i + a.len()) == a,
        s.subrange(i + a.len(), i + a.len() + b.len()) == b,
{
    assert forall|k: int| 0 <= k < a.len() implies s.subrange(i, i + a.len())[k] == a[k] by {
        assert(s.subrange(i, i + a.len() + b.len())[k] == (a + b)[k]);
    }
    assert(s.subrange(i, i + a.len()) =~= a);
    assert forall|k: int| 0 <= k < b.len() implies s.subrange(
        i + a.len(),
        i + a.len() + b.len(),
    )[k] == b[k] by {
        assert(s.subrange(i + a.len(), i + a.len() + b.len())[k] == s[i + a.len() + k]);
        assert(s.subrange(i, i + a.len() + b.len())[a.len() + k] == s[i + a.len() + k]);
        assert((a + b)[a.len() + k] == b[k]);
    }
    assert(s.subrange(i + a.len(), i + a.len() + b.len()) =~= b);
}

/// Reading a number field laid out at `i` yields exactly its value, ending
/// after the field's newline.
proof fn lemma_parse_num_field(s: Seq<char>, i: int, n: nat)
    requires
        0 <= i,
        i + spec_digits(n).len() + 1 <= s.len(),
        s.subrange(i, i + spec_digits(n).len() + 1) == spec_field(spec_digits(n)),
        n <= num_cap(),
    ensures
        spec_parse_num(s, i) == Some((n, i + spec_digits(n).len() + 1)),
{
    let d = spec_digits(n);
    let j = i + d.len();
    lemma_spec_digits_chars(n);
    lemma_split_at(s, i, d, seq!['\n']);
    assert(s[j] == s.subrange(j, j + 1)[0]);
    assert(s[j] == '\n');
    assert forall|k: int| i <= k < j implies is_digit(#[trigger] s[k]) by {
        assert(s[k] == s.subrange(i, j)[k - i]);
        assert(is_digit(d[k - i]));
    }
    assert(!is_digit('\n'));
    lemma_digits_end_at(s, i, j);
    lemma_digits_val_of_spec_digits(n);
    assert(digits_val(s.subrange(i, j)) == n);
}

/// Reading a record laid out at `i` yields exactly that record.
proof fn lemma_parse_todo_encoded(s: Seq<char>, i: int, t: TodoView)
    requires
        0 <= i,
        i + spec_encode_todo(t).len() <= s.len(),
        s.subrange(i, i + spec_encode_todo(t).len()) == spec_encode_todo(t),
        1 <= t.index <= num_cap(),
        t.title.len() <= num_cap(),
    ensures
        spec_parse_todo(s, i) == Some((t, i + spec_encode_todo(t).len())),
{
    let flag: nat = if t.completed {
        1
    } else {
        0
    };
    let f1 = spec_field(spec_digits(t.index as nat));
    let f2 = spec_field(spec_digits(flag));
    let f3 = spec_field(spec_digits(t.title.len()));
    let f4 = spec_field(t.title);
    let enc = spec_encode_todo(t);
    assert(enc == f1 + f2 + f3 + f4);
    assert(f1 + f2 + f3 + f4 =~= f1 + (f2 + (f3 + f4)));
    lemma_split_at(s, i, f1, f2 + (f3 + f4));
    let i1 = i + f1.len();
    assert(f2 + (f3 + f4) =~= f2 + f3 + f4);
    assert(f2 + f3 + f4 =~= f2 + (f3 + f4));
    lemma_split_at(s, i1, f2, f3 + f4);
    let i2 = i1 + f2.len();
    lemma_split_at(s, i2, f3, f4);
    let i3 = i2 + f3.len();
    lemma_parse_num_field(s, i, t.index as nat);
    lemma_parse_num_field(s, i1, flag);
    lemma_parse_num_field(s, i2, t.title.len());
    lemma_split_at(s, i3, t.title, seq!['\n']);
    assert(s[i3 + t.title.len()] == s.subrange(
        i3 + t.title.len(),
        i3 + t.title.len() + 1,
    )[0]);
    assert(s[i3 + t.title.len()] == '\n');
    assert(spec_parse_num(s, i) == Some((t.index as nat, i1)));
    assert(spec_parse_num(s, i1) == Some((flag, i2)));
    assert(spec_parse_num(s, i2) == Some((t.title.len(), i3)));
    assert(s.subrange(i3, i3 + t.title.len()) == t.title);
    assert((TodoView {
        index: (t.index as nat) as int,
        title: s.subrange(i3, i3 + t.title.len()),
        completed: flag == 1,
    }) == t);
    assert(i3 + t.title.len() + 1 == i + enc.len());
}

/// Reading `ts.len()` records laid out at `i` yields exactly `ts`.
proof fn lemma_parse_todos_encoded(s: Seq<char>, i: int, ts: Seq<TodoView>)
    requires
        0 <= i,
        i + spec_encode_todos(ts).len() <= s.len(),
        s.subrange(i, i + spec_encode_todos(ts).len()) == spec_encode_todos(ts),
        forall|k: int| 0 <= k < ts.len() ==> 1 <= (#[trigger] ts[k]).index <= num_cap(),
        forall|k: int| 0 <= k < ts.len() ==> (#[trigger] ts[k]).title.len() <= num_cap(),
    ensures
        spec_parse_todos(s, i, ts.len()) == Some((ts, i + spec_encode_todos(ts).len())),
    decreases ts.len(),
{
    if ts.len() == 0 {
        assert(ts =~= Seq::<TodoView>::empty());
    } else {
        let e0 = spec_encode_todo(ts[0]);
        let rest = spec_encode_todos(ts.skip(1));
        assert(spec_encode_todos(ts) == e0 + rest);
        lemma_split_at(s, i, e0, rest);
        lemma_parse_todo_encoded(s, i, ts[0]);
        let i1 = i + e0.len();
        assert forall|k: int| 0 <= k < ts.skip(1).len() implies 1 <= (#[trigger] ts.skip(
            1,
        )[k]).index <= num_cap() && ts.skip(1)[k].title.len() <= num_cap() by {
            assert(ts.skip(1)[k] == ts[k + 1]);
        }
        lemma_parse_todos_encoded(s, i1, ts.skip(1));
        assert(ts.skip(1).len() == (ts.len() - 1) as nat);
        assert(seq![ts[0]] + ts.skip(1) =~= ts);
        assert(i1 + rest.len() == i + spec_encode_todos(ts).len());
    }
}

/// Loading what was saved: the storage text of a well-formed store reads
/// back to exactly that store. (Each title must fit the length field.)
#[verifier::rlimit(100)]
pub proof fn lemma_store_round_trip(v: StoreView)
    requires
        wf_view(v),
        forall|k: int| 0 <= k < v.todos.len() ==> (#[trigger] v.todos[k]).title.len()
            <= num_cap(),
    ensures
        spec_parse_store(spec_encode_store(v)) == Some(v),
{
    let s = spec_encode_store(v);
    let f1 = spec_field(spec_digits(v.next as nat));
    let f2 = spec_field(spec_digits(v.todos.len()));
    let body = spec_encode_todos(v.todos);
    assert(s == f1 + f2 + body);
    assert(s.subrange(0, s.len() as int) =~= s);
    assert(f1 + f2 + body =~= f1 + (f2 + body));
    lemma_split_at(s, 0, f1, f2 + body);
    let i1 = f1.len() as int;
    lemma_split_at(s, i1, f2, body);
    let i2 = i1 + f2.len();
    lemma_store_len_bound(v);
    lemma_parse_num_field(s, 0, v.next as nat);
    lemma_parse_num_field(s, i1, v.todos.len());
    assert forall|k: int| 0 <= k < v.todos.len() implies 1 <= (#[trigger] v.todos[k]).index
        <= num_cap() by {
        assert(1 <= v.todos[k].index < v.next);
    }
    lemma_parse_todos_encoded(s, i2, v.todos);
    assert(i2 + body.len() == s.len());
    assert((StoreView { todos: v.todos, next: (v.next as nat) as int }) == v);
}

} // verus!
