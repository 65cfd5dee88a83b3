//! Todo list domain (create, list, complete, delete with pluggable storage) and the
//! path / configuration logic of the devshell workspace.

pub mod devshell;
mod error;
mod id;
pub mod laws;
mod list;
mod model;
mod priority;
mod query;
mod repeat;
mod store;
pub mod text;

pub use error::TodoError;
pub use id::TodoId;
pub use list::TodoList;
pub use model::{ListFilter, ListOptions, ListSort, Timestamp, Todo, TodoModel, TodoPatch};
pub use priority::Priority;
pub use repeat::RepeatRule;
pub use store::{InMemoryStore, Store};
