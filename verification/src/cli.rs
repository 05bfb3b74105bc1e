//! The parsed command surface: one field per command-line flag. The
//! terminal layer parses the raw arguments and hands this structure over.
use vstd::prelude::*;

verus! {

/// One invocation's flags and values, already parsed.
pub struct Cli {
    pub list: bool,
    pub export: bool,
    pub add: Option<Vec<String>>,
    pub desc: Option<Vec<String>>,
    pub topic: Option<String>,
    pub priority: Option<String>,
    pub print: bool,
    pub delete: Option<i32>,
    pub update_id: Option<i32>,
    pub status: Option<String>,
    pub done: Option<i32>,
    pub clear: bool,
    pub show: bool,
    pub owner: Option<String>,
    pub due: Option<String>,
    pub apikey: Option<String>,
    pub gemini: Option<String>,
    pub release: bool,
    pub flush: bool,
    pub import: Option<String>,
    pub github: bool,
    pub sub: Option<Vec<String>>,
    pub subtasks: Vec<(i32, String)>,
}

impl Default for Cli {
    /// An invocation with no flags at all.
    fn default() -> (r: Cli)
        ensures
            !r.list && !r.export && !r.print && !r.clear && !r.show && !r.release && !r.flush
                && !r.github,
            r.add is None,
            r.desc is None,
            r.topic is None,
            r.priority is None,
            r.delete is None,
            r.update_id is None,
            r.status is None,
            r.done is None,
            r.owner is None,
            r.due is None,
            r.apikey is None,
            r.gemini is None,
            r.import is None,
            r.sub is None,
            r.subtasks@.len() == 0,
    {
        Cli {
            list: false,
            export: false,
            add: None,
            desc: None,
            topic: None,
            priority: None,
            print: false,
            delete: None,
            update_id: None,
            status: None,
            done: None,
            clear: false,
            show: false,
            owner: None,
            due: None,
            apikey: None,
            gemini: None,
            release: false,
            flush: false,
            import: None,
            github: false,
            sub: None,
            subtasks: Vec::new(),
        }
    }
}

} // verus!
