//! The records the store holds, and the errors the service reports.
use vstd::prelude::*;

verus! {

/// The errors the service reports to its clients.
#[derive(Debug, PartialEq, Eq, Structural, Clone, Copy)]
pub enum BackendError {
    InternalError,
    BadClientData,
    Timeout,
}

impl BackendError {
    /// The message shown for the error.
    pub fn message(&self) -> (r: &'static str)
        ensures
            r@ == error_message(*self),
    {
        match self {
            BackendError::InternalError => "internal error",
            BackendError::BadClientData => "bad request",
            BackendError::Timeout => "timeout",
        }
    }
}

/// The message of each error.
pub open spec fn error_message(e: BackendError) -> Seq<char> {
    match e {
        BackendError::InternalError => "internal error"@,
        BackendError::BadClientData => "bad request"@,
        BackendError::Timeout => "timeout"@,
    }
}

/// What a client submits to create a task: everything but the id.
#[derive(Debug)]
pub struct TaskInput {
    pub name: String,
    pub owner: String,
}

/// A task as the store holds it.
#[derive(Debug, Clone)]
pub struct Task {
    pub id: u32,
    pub name: String,
    pub owner: String,
}

/// The mathematical value of a task.
pub struct TaskSpec {
    pub id: u32,
    pub name: Seq<char>,
    pub owner: Seq<char>,
}

impl View for Task {
    type V = TaskSpec;

    open spec fn view(&self) -> TaskSpec {
        TaskSpec { id: self.id, name: self.name@, owner: self.owner@ }
    }
}

impl Task {
    /// A copy of the task with the same id, name and owner.
    pub fn copied(&self) -> (r: Task)
        ensures
            r@ == self@,
    {
        Task { id: self.id, name: self.name.clone(), owner: self.owner.clone() }
    }
}

} // verus!
