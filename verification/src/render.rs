//! The presentation layer: a fixed-width, three-column text table of todos,
//! and the home page text built around it.

use vstd::prelude::*;
use vstd::string::StrSliceExecFns;
use vstd::string::StringExecFns;
use crate::num::spec_digits;
use crate::num::u64_to_string;
use crate::store::seq_views;
use crate::todo::Todo;
use crate::todo::TodoView;

verus! {

/// The completion column's wording.
pub open spec fn spec_completed_label(completed: bool) -> Seq<char> {
    if completed {
        "yes"@
    } else {
        "no"@
    }
}

/// The index column: the index in decimal, between square brackets.
pub open spec fn spec_index_label(index: int) -> Seq<char> {
    "["@ + spec_digits(index as nat) + "]"@
}

/// One data row: bracketed index, completion, title, separated by tabs.
pub open spec fn spec_row(t: TodoView) -> Seq<char> {
    spec_index_label(t.index) + "\t"@ + spec_completed_label(t.completed) + "\t\t"@ + t.title
        + "\n"@
}

/// The header row naming the three columns.
pub open spec fn spec_header() -> Seq<char> {
    "Index\tCompleted\tTodo\n"@
}

/// The data rows of the given records, in the order given.
pub open spec fn spec_rows(ts: Seq<TodoView>) -> Seq<char>
    decreases ts.len(),
{
    if ts.len() == 0 {
        Seq::<char>::empty()
    } else {
        spec_rows(ts.drop_last()) + spec_row(ts.last())
    }
}

/// The whole table: the header, then one row per record.
pub open spec fn spec_table(ts: Seq<TodoView>) -> Seq<char> {
    spec_header() + spec_rows(ts)
}

/// A run of `n` copies of `c`.
pub open spec fn char_repeat(c: char, n: nat) -> Seq<char>
    decreases n,
{
    if n == 0 {
        Seq::<char>::empty()
    } else {
        char_repeat(c, (n - 1) as nat).push(c)
    }
}

/// Text padded with spaces on both sides to width `w`, the left side taking
/// the smaller half; text already at least `w` wide stays as it is.
pub open spec fn spec_center(s: Seq<char>, w: nat) -> Seq<char> {
    if s.len() >= w {
        s
    } else {
        char_repeat(' ', ((w - s.len()) / 2) as nat) + s + char_repeat(
            ' ',
            ((w - s.len()) - (w - s.len()) / 2) as nat,
        )
    }
}

/// The home page: when the terminal width is known, a centered page title and
/// full-width dividers around the table; without it the dividers degrade to
/// blank lines.
pub open spec fn spec_home_page(ts: Seq<TodoView>, width: Option<usize>) -> Seq<char> {
    match width {
        Some(w) => spec_center("Home"@, w as nat) + "\n"@ + char_repeat('-', w as nat) + "\n"@
            + spec_table(ts) + char_repeat('-', w as nat) + "\n"@,
        None => "\n"@ + spec_table(ts) + "\n"@,
    }
}

/// The completion column entry of a record with the given flag.
pub fn completed_label(completed: bool) -> (r: &'static str)
    ensures
        r@ == spec_completed_label(completed),
{
    if completed {
        "yes"
    } else {
        "no"
    }
}

/// The index column entry of a record with the given index.
pub fn index_label(index: i32) -> (r: String)
    requires
        0 <= index,
    ensures
        r@ == spec_index_label(index as int),
{
    let mut r = String::from_str("[");
    let digits = u64_to_string(index as u64);
    r.append(digits.as_str());
    r.append("]");
    r
}

/// One data row of the table, including its line break.
pub fn render_row(t: &Todo) -> (r: String)
    requires
        0 <= t@.index,
    ensures
        r@ == spec_row(t@),
{
    let mut r = index_label(t.index);
    r.append("\t");
    r.append(completed_label(t.completed));
    r.append("\t\t");
    r.append(t.title.as_str());
    r.append("\n");
    r
}

/// The table of the given records: the header, then one row per record in
/// the order given. An empty collection renders as the header alone.
pub fn render_table(todos: &Vec<Todo>) -> (r: String)
    requires
        forall|k: int| 0 <= k < todos@.len() ==> 0 <= (#[trigger] todos@[k]@).index,
    ensures
        r@ == spec_table(seq_views(todos@)),
{
    let ghost vs = seq_views(todos@);
    let mut r = String::from_str("Index\tCompleted\tTodo\n");
    let mut i: usize = 0;
    while i < todos.len()
        invariant
            i <= todos@.len(),
            vs == seq_views(todos@),
            forall|k: int| 0 <= k < todos@.len() ==> 0 <= (#[trigger] todos@[k]@).index,
            r@ == spec_header() + spec_rows(vs.take(i as int)),
        decreases todos@.len() - i,
    {
        let row = render_row(&todos[i]);
        r.append(row.as_str());
        proof {
            assert(vs.take(i + 1 as int).drop_last() =~= vs.take(i as int));
            assert(vs.take(i + 1 as int).last() == vs[i as int]);
            assert(r@ =~= spec_header() + spec_rows(vs.take(i + 1 as int)));
        }
        i = i + 1;
    }
    proof {
        assert(vs.take(todos@.len() as int) =~= vs);
    }
    r
}

/// A run of `n` spaces.
fn spaces(n: usize) -> (r: String)
    ensures
        r@ == char_repeat(' ', n as nat),
{
    proof {
        reveal_strlit(" ");
    }
    let mut r = String::new();
    let mut i: usize = 0;
    while i < n
        invariant
            i <= n,
            r@ == char_repeat(' ', i as nat),
        decreases n - i,
    {
        proof {
            reveal_strlit(" ");
        }
        r.append(" ");
        proof {
            assert(r@ =~= char_repeat(' ', (i + 1) as nat));
        }
        i = i + 1;
    }
    r
}

/// A horizontal divider of `n` dashes.
pub fn dashes(n: usize) -> (r: String)
    ensures
        r@ == char_repeat('-', n as nat),
{
    let mut r = String::new();
    let mut i: usize = 0;
    while i < n
        invariant
            i <= n,
            r@ == char_repeat('-', i as nat),
        decreases n - i,
    {
        proof {
            reveal_strlit("-");
        }
        r.append("-");
        proof {
            assert(r@ =~= char_repeat('-', (i + 1) as nat));
        }
        i = i + 1;
    }
    r
}

/// `s` centered to width `w` with spaces on both sides.
pub fn center(s: &str, w: usize) -> (r: String)
    ensures
        r@ == spec_center(s@, w as nat),
{
    let len = s.unicode_len();
    if len >= w {
        return String::from_str(s);
    }
    let total = w - len;
    let left = total / 2;
    let right = total - left;
    let mut r = spaces(left);
    r.append(s);
    let tail = spaces(right);
    r.append(tail.as_str());
    r
}

/// The home page text around the given records: centered page title and
/// dividers when the terminal width is known, blank divider lines when not.
pub fn render_home_page(todos: &Vec<Todo>, width: Option<usize>) -> (r: String)
    requires
        forall|k: int| 0 <= k < todos@.len() ==> 0 <= (#[trigger] todos@[k]@).index,
    ensures
        r@ == spec_home_page(seq_views(todos@), width),
{
    let table = render_table(todos);
    match width {
        Some(w) => {
            let mut r = center("Home", w);
            r.append("\n");
            let divider = dashes(w);
            r.append(divider.as_str());
            r.append("\n");
            r.append(table.as_str());
            r.append(divider.as_str());
            r.append("\n");
            r
        },
        None => {
            let mut r = String::from_str("\n");
            r.append(table.as_str());
            r.append("\n");
            r
        },
    }
}

} // verus!
