//! The handler of a small website: a greeting, and the files of a directory,
//! for GET alone.

use crate::files::{file_for, file_of, Plan, PlanView};
use crate::http::method::Method;
use crate::http::request::Request;
use crate::http::response::{Response, ResponseView};
use crate::http::status_code::StatusCode;
use crate::text::same_text;
use vstd::prelude::*;

verus! {

/// What the website does with a request: any method but GET is not found, the
/// path `/hello` is greeted, and every other path names a file.
pub open spec fn website_plan(method: Method, path: Seq<char>) -> PlanView {
    if method != Method::GET {
        PlanView::Respond(ResponseView { status_code: StatusCode::NotFound, body: None })
    } else if path == "/hello"@ {
        PlanView::Respond(
            ResponseView { status_code: StatusCode::OK, body: Some("Hello World!"@) },
        )
    } else {
        PlanView::Read(file_of(path))
    }
}

/// The website's answer to a request for a file, once its contents are there
/// or are known to be missing. The root path is answered with success in either
/// case, without a body where the index page is missing; any other path is not
/// found where the contents are missing.
pub open spec fn website_answer(path: Seq<char>, contents: Option<Seq<char>>) -> ResponseView {
    if path == "/"@ || contents is Some {
        ResponseView { status_code: StatusCode::OK, body: contents }
    } else {
        ResponseView { status_code: StatusCode::NotFound, body: None }
    }
}

/// Serves a greeting and the files under a root directory. Reading them is
/// the caller's part.
#[derive(Debug)]
pub struct WebsiteHandler {
    public_path: String,
}

impl View for WebsiteHandler {
    type V = Seq<char>;

    closed spec fn view(&self) -> Seq<char> {
        self.public_path@
    }
}

impl WebsiteHandler {
    /// A handler for the files under `public_path`.
    pub fn new(public_path: String) -> (handler: WebsiteHandler)
        ensures
            handler@ == public_path@,
    {
        WebsiteHandler { public_path }
    }

    /// The root directory.
    pub fn public_path(&self) -> (root: &str)
        ensures
            root@ == self@,
    {
        self.public_path.as_str()
    }

    /// What to do with a request: answer it at once, or read a file first.
    pub fn plan<'a>(&self, request: &Request<'a>) -> (plan: Plan<'a>)
        ensures
            plan@ == website_plan(request@.method, request@.path),
    {
        match request.method() {
            Method::GET => {
                let path = request.path();
                if same_text(path, "/hello") {
                    Plan::Respond(Response::new(StatusCode::OK, Some("Hello World!".to_owned())))
                } else {
                    Plan::Read(file_for(path))
                }
            },
            _ => Plan::Respond(Response::new(StatusCode::NotFound, None)),
        }
    }

    /// The answer to a request, once its file was read or could not be read.
    pub fn respond(&self, request: &Request, contents: Option<String>) -> (r: Response)
        ensures
            r@ == website_answer(
                request@.path,
                match contents {
                    Some(text) => Some(text@),
                    None => None,
                },
            ),
    {
        if same_text(request.path(), "/") {
            Response::new(StatusCode::OK, contents)
        } else {
            match contents {
                Some(text) => Response::new(StatusCode::OK, Some(text)),
                None => Response::new(StatusCode::NotFound, None),
            }
        }
    }
}

} // verus!
