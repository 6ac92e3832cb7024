//! A small task store: an ordered list of tasks with automatic id assignment,
//! its JSON file format, and the policy for loading and saving that file.
pub mod task;
pub mod task_list;
pub mod backend;
pub mod json;
pub mod json_parse;
pub mod json_round_trip;

pub use task::{BackendError, Task, TaskInput, TaskSpec};
pub use task_list::TaskList;
pub use backend::{DataHandler, JSONHandler};
