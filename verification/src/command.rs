//! The command dispatcher: what each parsed command does to the store and
//! what it asks the caller to print.

use vstd::prelude::*;
use vstd::string::StringExecFns;
use crate::store::has_index;
use crate::store::spec_complete;
use crate::store::TodoStore;
use crate::todo::TodoError;
use crate::todo::TodoView;

verus! {

/// A parsed command line.
#[allow(inconsistent_fields)]
pub enum Command {
    /// Add a new todo with the given name.
    TodoNew { name: String },
    /// Mark the todo carrying the given index as completed.
    TodoDo { index: i32 },
    /// Create a new note, optionally named.
    NoteNew { name: Option<String> },
}

/// The confirmation a new todo gets.
pub open spec fn spec_new_todo_message(name: Seq<char>) -> Seq<char> {
    "Creating new todo \""@ + name + "\""@
}

/// The placeholder message the note command prints.
pub open spec fn spec_note_message(name: Option<String>) -> Seq<char> {
    match name {
        Some(n) => "Creating note with title: "@ + n@,
        None => "Creating note with default title"@,
    }
}

/// Routes one command to the store and yields the text to print: creating a
/// todo appends a fresh incomplete record and confirms it; completing one
/// marks it (and says nothing); the note command only prints a placeholder.
/// Completing an unknown index fails with `NotFound` and changes nothing.
pub fn dispatch(store: &mut TodoStore, cmd: Command) -> (r: Result<String, TodoError>)
    requires
        old(store).wf(),
        cmd is TodoNew ==> old(store)@.next < i32::MAX,
    ensures
        final(store).wf(),
        (cmd matches Command::TodoNew { name } ==> {
            &&& final(store)@.next == old(store)@.next + 1
            &&& final(store)@.todos == old(store)@.todos.push(
                TodoView { index: old(store)@.next, title: name@, completed: false },
            )
            &&& r is Ok
            &&& (r matches Ok(m) ==> m@ == spec_new_todo_message(name@))
        }),
        (cmd matches Command::TodoDo { index } ==> {
            &&& final(store)@.next == old(store)@.next
            &&& final(store)@.todos == spec_complete(old(store)@.todos, index as int)
            &&& (r is Ok <==> has_index(old(store)@.todos, index as int))
            &&& (r matches Err(e) ==> e == TodoError::NotFound && final(store)@ == old(store)@)
            &&& (r matches Ok(m) ==> m@ == Seq::<char>::empty())
        }),
        (cmd matches Command::NoteNew { name } ==> {
            &&& final(store)@ == old(store)@
            &&& r is Ok
            &&& (r matches Ok(m) ==> m@ == spec_note_message(name))
        }),
{
    match cmd {
        Command::TodoNew { name } => {
            let mut msg = String::from_str("Creating new todo \"");
            msg.append(name.as_str());
            msg.append("\"");
            let _created = store.create(name);
            Ok(msg)
        },
        Command::TodoDo { index } => match store.complete(index) {
            Ok(_) => Ok(String::new()),
            Err(e) => Err(e),
        },
        Command::NoteNew { name } => match name {
            Some(n) => {
                let mut msg = String::from_str("Creating note with title: ");
                msg.append(n.as_str());
                Ok(msg)
            },
            None => Ok(String::from_str("Creating note with default title")),
        },
    }
}

} // verus!
