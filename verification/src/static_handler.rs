//! The handler that serves the files of a directory.

use crate::files::{answer, file_answer, file_for, file_of, Plan, PlanView};
use crate::http::request::Request;
use crate::http::response::Response;
use vstd::prelude::*;

verus! {

/// Serves the files under a root directory. Reading them is the caller's part:
/// the handler says which file it needs and what to answer with its contents.
#[derive(Debug)]
pub struct StaticHandler {
    public_path: String,
}

impl View for StaticHandler {
    type V = Seq<char>;

    closed spec fn view(&self) -> Seq<char> {
        self.public_path@
    }
}

impl StaticHandler {
    /// A handler for the files under `public_path`.
    pub fn new(public_path: String) -> (handler: StaticHandler)
        ensures
            handler@ == public_path@,
    {
        StaticHandler { public_path }
    }

    /// The root directory.
    pub fn public_path(&self) -> (root: &str)
        ensures
            root@ == self@,
    {
        self.public_path.as_str()
    }

    /// What to do with a request: read the file that its path names, the index
    /// page for the root path.
    pub fn plan<'a>(&self, request: &Request<'a>) -> (plan: Plan<'a>)
        ensures
            plan@ == PlanView::Read(file_of(request@.path)),
    {
        Plan::Read(file_for(request.path()))
    }

    /// The answer to a request, once its file was read or could not be read:
    /// the file's contents, or not found, whichever path the request names.
    pub fn respond(&self, request: &Request, contents: Option<String>) -> (r: Response)
        ensures
            r@ == file_answer(
                match contents {
                    Some(text) => Some(text@),
                    None => None,
                },
            ),
    {
        answer(contents)
    }
}

} // verus!
