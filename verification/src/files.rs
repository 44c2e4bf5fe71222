//! What the file handlers share: where a file is looked for under a root
//! directory, which resolved paths may be served, and what is answered once the
//! file was read or could not be read. Reading is left to the caller.

use crate::http::response::{Response, ResponseView};
use crate::http::status_code::StatusCode;
use crate::text::same_text;
use std::path::PathBuf;
use vstd::prelude::*;
use vstd::string::*;

verus! {

/// `std::path::PathBuf`, a path as the file system gives it. It is carried
/// through, and nothing is read from it.
#[verifier::external_type_specification]
#[verifier::external_body]
pub struct ExPathBuf(std::path::PathBuf);

/// What a handler does with a request: it answers at once, or it needs a file,
/// named relative to its root, before it can answer.
#[derive(Debug)]
pub enum Plan<'a> {
    Respond(Response),
    Read(&'a str),
}

/// A `Plan`, as the text it holds.
pub enum PlanView {
    Respond(ResponseView),
    Read(Seq<char>),
}

impl<'a> View for Plan<'a> {
    type V = PlanView;

    open spec fn view(&self) -> PlanView {
        match self {
            Plan::Respond(response) => PlanView::Respond(response@),
            Plan::Read(file) => PlanView::Read(file@),
        }
    }
}

/// The file that answers a request path: the index page for the root path,
/// else the path itself.
pub open spec fn file_of(path: Seq<char>) -> Seq<char> {
    if path == "/"@ {
        "index.html"@
    } else {
        path
    }
}

/// Where a file is looked for: under the root, after a slash.
pub open spec fn location(root: Seq<char>, file: Seq<char>) -> Seq<char> {
    root + "/"@ + file
}

/// The answer to a request for a file, once its contents are there or are known
/// to be missing: success with the contents as the body, or not found with no
/// body. The index page is a file like any other.
pub open spec fn file_answer(contents: Option<Seq<char>>) -> ResponseView {
    match contents {
        Some(text) => ResponseView { status_code: StatusCode::OK, body: Some(text) },
        None => ResponseView { status_code: StatusCode::NotFound, body: None },
    }
}

/// The file that answers a request path.
pub fn file_for<'a>(path: &'a str) -> (file: &'a str)
    ensures
        file@ == file_of(path@),
{
    if same_text(path, "/") {
        "index.html"
    } else {
        path
    }
}

/// The path at which `file` is looked for under `root`.
pub fn locate(root: &str, file: &str) -> (path: String)
    ensures
        path@ == location(root@, file@),
{
    let mut path = root.to_owned();
    path.append("/");
    path.append(file);
    path
}

/// Whether `path` lies under the directory that `base` names: what
/// `Path::starts_with` returns for the two. It compares whole components, so
/// `/srv/public` is no start of `/srv/publicity`; how a path falls into
/// components is the platform's matter and is not written out here.
pub uninterp spec fn lies_under(path: PathBuf, base: Seq<char>) -> bool;

/// `Path::starts_with`: whether `base` is a prefix of `path`, component by
/// component. The call reads its two arguments and nothing else, so its result
/// is a function of them; that is all the contract claims.
#[verifier::external_body]
fn path_starts_with(path: &PathBuf, base: &str) -> (r: bool)
    ensures
        r == lies_under(*path, base@),
{
    path.starts_with(base)
}

/// What becomes of a resolved path once it is known whether it lies under the
/// root: it is handed on where it does, and dropped where it does not.
pub fn hand_on(resolved: PathBuf, under_root: bool) -> (r: Option<PathBuf>)
    ensures
        r == if under_root {
            Some(resolved)
        } else {
            None
        },
{
    if under_root {
        Some(resolved)
    } else {
        None
    }
}

/// The guard against leaving the root: a path as the file system resolved it
/// is handed on where it lies under `root`, and dropped where it does not. A
/// path that could not be resolved is none.
pub fn guard(root: &str, resolved: Option<PathBuf>) -> (r: Option<PathBuf>)
    ensures
        r == match resolved {
            Some(path) => if lies_under(path, root@) {
                Some(path)
            } else {
                None
            },
            None => None,
        },
{
    match resolved {
        Some(path) => {
            let under_root = path_starts_with(&path, root);
            hand_on(path, under_root)
        },
        None => None,
    }
}

/// The answer to a request for a file, once it was read or could not be read.
pub fn answer(contents: Option<String>) -> (r: Response)
    ensures
        r@ == file_answer(
            match contents {
                Some(text) => Some(text@),
                None => None,
            },
        ),
{
    match contents {
        Some(text) => Response::new(StatusCode::OK, Some(text)),
        None => Response::new(StatusCode::NotFound, None),
    }
}

} // verus!
