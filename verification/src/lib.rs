//! A small single-user task manager.
//!
//! The library keeps a collection of todo records with stable, unique,
//! monotonically assigned indices, renders them as a fixed-width text table,
//! and encodes the whole store to and from a plain-text storage format.
//! File handling, terminal styling and argument parsing live outside the
//! library; everything here is plain data in, plain data out.

pub mod codec;
pub mod command;
pub mod num;
pub mod render;
pub mod store;
pub mod todo;

pub use store::TodoStore;
pub use store::get_all_todos;
pub use store::get_todo;
pub use store::setup_todos_storage;
pub use store::write_todo;
pub use todo::Todo;
pub use todo::TodoError;
