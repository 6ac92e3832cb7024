//! Keeping a task list in a JSON file: what a load makes of the file's text,
//! and what a save writes.
use vstd::prelude::*;

use crate::json::{list_json, parse_list};
use crate::json_round_trip::lemma_list_round_trip;
use crate::task::{BackendError, TaskSpec};
use crate::task_list::TaskList;

verus! {

/// The tasks a load gives: those of the file when it was read and holds a
/// task-list document, none otherwise.
pub open spec fn load_spec(contents: Option<Seq<char>>) -> Seq<TaskSpec> {
    match contents {
        Some(text) => match parse_list(text) {
            Some(ts) => ts,
            None => Seq::empty(),
        },
        None => Seq::empty(),
    }
}

pub open spec fn contents_view(contents: Option<String>) -> Option<Seq<char>> {
    match contents {
        Some(text) => Some(text@),
        None => None,
    }
}

/// Loading and saving a task list. The caller reads and writes the storage:
/// `load` takes what was read (`None` when nothing could be read), `save`
/// gives the text to write.
pub trait DataHandler {
    fn load(&self, contents: Option<String>) -> TaskList;

    fn save(&self, task_list: &TaskList) -> Result<String, BackendError>;
}

/// A task list kept as a JSON document in the file at `path`.
pub struct JSONHandler {
    pub path: String,
}

impl JSONHandler {
    pub fn new(filepath: &str) -> (r: Self)
        ensures
            r.path@ == filepath@,
    {
        JSONHandler { path: filepath.to_owned() }
    }
}

impl DataHandler for JSONHandler {
    /// A file that could not be read, or does not hold a task-list document,
    /// counts as an empty list.
    fn load(&self, contents: Option<String>) -> (r: TaskList)
        ensures
            r@ == load_spec(contents_view(contents)),
    {
        match contents {
            None => TaskList::new(),
            Some(text) => match TaskList::from_json(text.as_str()) {
                Some(l) => l,
                None => TaskList::new(),
            },
        }
    }

    /// The whole document of the list, to replace the file's contents; it
    /// never fails.
    fn save(&self, task_list: &TaskList) -> (r: Result<String, BackendError>)
        ensures
            r is Ok,
            r->Ok_0@ == list_json(task_list@),
    {
        task_list.to_string()
    }
}

/// Loading what a save wrote gives back the same tasks, in the same order.
pub proof fn lemma_load_after_save(ts: Seq<TaskSpec>)
    ensures
        load_spec(Some(list_json(ts))) == ts,
{
    lemma_list_round_trip(ts);
}

/// A file that could not be read loads as an empty list.
pub proof fn lemma_load_unreadable()
    ensures
        load_spec(None) == Seq::<TaskSpec>::empty(),
{
}

/// A file whose text is not a task-list document loads as an empty list.
pub proof fn lemma_load_invalid(text: Seq<char>)
    requires
        parse_list(text) is None,
    ensures
        load_spec(Some(text)) == Seq::<TaskSpec>::empty(),
{
}

} // verus!
