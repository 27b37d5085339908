//! The todo record itself and the errors the store can report.

use vstd::prelude::*;

verus! {

/// A single task record: a stable index, a title, and a completion flag.
#[derive(Debug, Clone)]
pub struct Todo {
    pub index: i32,
    pub title: String,
    pub completed: bool,
}

/// The mathematical value of a [`Todo`].
#[verifier::ext_equal]
pub ghost struct TodoView {
    pub index: int,
    pub title: Seq<char>,
    pub completed: bool,
}

impl View for Todo {
    type V = TodoView;

    open spec fn view(&self) -> TodoView {
        TodoView { index: self.index as int, title: self.title@, completed: self.completed }
    }
}

impl Todo {
    /// Creates an incomplete todo carrying the given index and title.
    pub fn new(index: i32, title: String) -> (t: Todo)
        ensures
            t@ == (TodoView { index: index as int, title: title@, completed: false }),
    {
        Todo { index, title, completed: false }
    }

    /// Marks the todo as completed; index and title stay as they were.
    pub fn mark_as_completed(&mut self)
        ensures
            final(self)@ == (TodoView { completed: true, ..old(self)@ }),
    {
        self.completed = true;
    }

    /// An exact copy of the record.
    pub fn duplicate(&self) -> (t: Todo)
        ensures
            t@ == self@,
    {
        Todo { index: self.index, title: self.title.clone(), completed: self.completed }
    }
}

/// Why a store operation failed.
#[derive(Debug, Clone, Copy, PartialEq, Eq, Structural)]
pub enum TodoError {
    /// No stored todo carries the requested index.
    NotFound,
    /// The storage text does not parse back into a todo store.
    CorruptState,
    /// Reading or writing the backing storage failed.
    IoFailure,
}

impl TodoError {
    /// The wording of each error, for callers that print one.
    pub open spec fn spec_message(self) -> Seq<char> {
        match self {
            TodoError::NotFound => "todo not found"@,
            TodoError::CorruptState => "stored todos are corrupt"@,
            TodoError::IoFailure => "could not access todo storage"@,
        }
    }

    /// A human-readable description of the error.
    pub fn message(&self) -> (r: &'static str)
        ensures
            r@ == self.spec_message(),
    {
        match self {
            TodoError::NotFound => "todo not found",
            TodoError::CorruptState => "stored todos are corrupt",
            TodoError::IoFailure => "could not access todo storage",
        }
    }
}

} // verus!
