//! The request methods.

use crate::text::same_text;
use vstd::prelude::*;

verus! {

/// The verbs of HTTP/1.1.
#[derive(Clone, Copy, PartialEq, Eq, Debug, Structural)]
pub enum Method {
    GET,
    POST,
    PUT,
    DELETE,
    PATCH,
    HEAD,
    OPTIONS,
    CONNECT,
    TRACE,
}

/// A token that names no method.
#[derive(Clone, Copy, PartialEq, Eq, Debug)]
pub struct MethodError;

impl Method {
    /// The token that names this method in a request line.
    pub open spec fn token(self) -> Seq<char> {
        match self {
            Method::GET => "GET"@,
            Method::POST => "POST"@,
            Method::PUT => "PUT"@,
            Method::DELETE => "DELETE"@,
            Method::PATCH => "PATCH"@,
            Method::HEAD => "HEAD"@,
            Method::OPTIONS => "OPTIONS"@,
            Method::CONNECT => "CONNECT"@,
            Method::TRACE => "TRACE"@,
        }
    }

    /// The method that `token` names, letter for letter and in upper case.
    pub open spec fn from_token(token: Seq<char>) -> Option<Method> {
        if token == "GET"@ {
            Some(Method::GET)
        } else if token == "POST"@ {
            Some(Method::POST)
        } else if token == "PUT"@ {
            Some(Method::PUT)
        } else if token == "DELETE"@ {
            Some(Method::DELETE)
        } else if token == "PATCH"@ {
            Some(Method::PATCH)
        } else if token == "HEAD"@ {
            Some(Method::HEAD)
        } else if token == "OPTIONS"@ {
            Some(Method::OPTIONS)
        } else if token == "CONNECT"@ {
            Some(Method::CONNECT)
        } else if token == "TRACE"@ {
            Some(Method::TRACE)
        } else {
            None
        }
    }

    /// A token names a method exactly when it is that method's token: each of
    /// the nine tokens gives its own method, and every other text gives none.
    pub proof fn lemma_from_token(token: Seq<char>, method: Method)
        ensures
            Method::from_token(token) == Some(method) <==> token == method.token(),
            Method::from_token(method.token()) == Some(method),
    {
        reveal_strlit("GET");
        reveal_strlit("POST");
        reveal_strlit("PUT");
        reveal_strlit("DELETE");
        reveal_strlit("PATCH");
        reveal_strlit("HEAD");
        reveal_strlit("OPTIONS");
        reveal_strlit("CONNECT");
        reveal_strlit("TRACE");
        assert("GET"@.len() == 3 && "PUT"@.len() == 3);
        assert("POST"@.len() == 4 && "HEAD"@.len() == 4);
        assert("PATCH"@.len() == 5 && "TRACE"@.len() == 5);
        assert("OPTIONS"@.len() == 7 && "CONNECT"@.len() == 7);
        assert("DELETE"@.len() == 6);
        assert("GET"@[0] != "PUT"@[0]);
        assert("POST"@[0] != "HEAD"@[0]);
        assert("PATCH"@[0] != "TRACE"@[0]);
        assert("OPTIONS"@[0] != "CONNECT"@[0]);
    }

    /// Reads a method token. The match is exact: no other case, no blanks.
    pub fn parse(token: &str) -> (r: Result<Method, MethodError>)
        ensures
            match r {
                Ok(method) => Method::from_token(token@) == Some(method),
                Err(_) => Method::from_token(token@) is None,
            },
            forall|method: Method|
                token@ == #[trigger] method.token() ==> r == Ok::<Method, MethodError>(method),
            (forall|method: Method| token@ != #[trigger] method.token()) ==> r is Err,
    {
        proof {
            assert forall|method: Method| token@ == #[trigger] method.token() implies 
                Method::from_token(token@) == Some(method) by {
                Method::lemma_from_token(token@, method);
            }
            if let Some(method) = Method::from_token(token@) {
                Method::lemma_from_token(token@, method);
            }
        }
        if same_text(token, "GET") {
            Ok(Method::GET)
        } else if same_text(token, "POST") {
            Ok(Method::POST)
        } else if same_text(token, "PUT") {
            Ok(Method::PUT)
        } else if same_text(token, "DELETE") {
            Ok(Method::DELETE)
        } else if same_text(token, "PATCH") {
            Ok(Method::PATCH)
        } else if same_text(token, "HEAD") {
            Ok(Method::HEAD)
        } else if same_text(token, "OPTIONS") {
            Ok(Method::OPTIONS)
        } else if same_text(token, "CONNECT") {
            Ok(Method::CONNECT)
        } else if same_text(token, "TRACE") {
            Ok(Method::TRACE)
        } else {
            Err(MethodError)
        }
    }
}

impl core::str::FromStr for Method {
    type Err = MethodError;

    /// Reads a method token, as `Method::parse` does.
    fn from_str(token: &str) -> (r: Result<Method, MethodError>)
        ensures
            match r {
                Ok(method) => Method::from_token(token@) == Some(method),
                Err(_) => Method::from_token(token@) is None,
            },
    {
        Method::parse(token)
    }
}

} // verus!
