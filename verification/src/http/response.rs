//! Responses, and the text that goes out on the wire for one.

use super::request::ParseError;
use super::status_code::StatusCode;
use vstd::prelude::*;
use vstd::string::*;

verus! {

/// The character of a decimal digit.
pub open spec fn digit(d: nat) -> char
    recommends
        d < 10,
{
    if d == 0 {
        '0'
    } else if d == 1 {
        '1'
    } else if d == 2 {
        '2'
    } else if d == 3 {
        '3'
    } else if d == 4 {
        '4'
    } else if d == 5 {
        '5'
    } else if d == 6 {
        '6'
    } else if d == 7 {
        '7'
    } else if d == 8 {
        '8'
    } else {
        '9'
    }
}

/// A number in decimal, without leading zeros.
pub open spec fn decimal(n: nat) -> Seq<char>
    decreases n,
{
    if n < 10 {
        seq![digit(n)]
    } else {
        decimal(n / 10).push(digit(n % 10))
    }
}

/// A response, as the text it holds.
pub struct ResponseView {
    pub status_code: StatusCode,
    pub body: Option<Seq<char>>,
}

impl ResponseView {
    /// The text that goes out for this response: the status line, an empty
    /// line, and the body where there is one. No header line is sent.
    pub open spec fn wire(self) -> Seq<char> {
        "HTTP/1.1 "@ + decimal(self.status_code.number()) + " "@ + self.status_code.phrase()
            + "\r\n\r\n"@ + match self.body {
            Some(body) => body,
            None => Seq::empty(),
        }
    }
}

/// What a handler answers: a status, and a body or none.
#[derive(Debug)]
pub struct Response {
    pub status_code: StatusCode,
    body: Option<String>,
}

impl View for Response {
    type V = ResponseView;

    closed spec fn view(&self) -> ResponseView {
        ResponseView {
            status_code: self.status_code,
            body: match self.body {
                Some(body) => Some(body@),
                None => None,
            },
        }
    }
}

fn digit_text(d: u16) -> (r: &'static str)
    requires
        d < 10,
    ensures
        r@ == seq![digit(d as nat)],
{
    proof {
        reveal_strlit("0");
        reveal_strlit("1");
        reveal_strlit("2");
        reveal_strlit("3");
        reveal_strlit("4");
        reveal_strlit("5");
        reveal_strlit("6");
        reveal_strlit("7");
        reveal_strlit("8");
        reveal_strlit("9");
    }
    let r = if d == 0 {
        "0"
    } else if d == 1 {
        "1"
    } else if d == 2 {
        "2"
    } else if d == 3 {
        "3"
    } else if d == 4 {
        "4"
    } else if d == 5 {
        "5"
    } else if d == 6 {
        "6"
    } else if d == 7 {
        "7"
    } else if d == 8 {
        "8"
    } else {
        "9"
    };
    proof {
        assert(r@ =~= seq![digit(d as nat)]);
    }
    r
}

/// Writes `n` in decimal at the end of `out`.
fn push_decimal(out: &mut String, n: u16)
    ensures
        final(out)@ == old(out)@ + decimal(n as nat),
    decreases n,
{
    if n >= 10 {
        push_decimal(out, n / 10);
    }
    out.append(digit_text(n % 10));
    proof {
        if n >= 10 {
            assert(old(out)@ + decimal(n as nat / 10) + seq![digit(n as nat % 10)] =~= old(out)@
                + decimal(n as nat));
        }
    }
}

impl Response {
    /// A response with this status and this body.
    pub fn new(status_code: StatusCode, body: Option<String>) -> (r: Response)
        ensures
            r@.status_code == status_code,
            r@.body == match body {
                Some(text) => Some(text@),
                None => None,
            },
    {
        Response { status_code, body }
    }

    /// The answer to a buffer that is no request: a bad request, with the
    /// error's message as its body.
    pub fn bad_request(error: ParseError) -> (r: Response)
        ensures
            r@ == (ResponseView {
                status_code: StatusCode::BadRequest,
                body: Some(error.text()),
            }),
    {
        Response::new(StatusCode::BadRequest, Some(error.to_string()))
    }

    /// The status.
    pub fn status_code(&self) -> (r: StatusCode)
        ensures
            r == self@.status_code,
    {
        self.status_code
    }

    /// The body, where there is one.
    pub fn body(&self) -> (r: Option<&str>)
        ensures
            match r {
                Some(text) => self@.body == Some(text@),
                None => self@.body is None,
            },
    {
        match &self.body {
            Some(text) => Some(text.as_str()),
            None => None,
        }
    }

    /// The text that goes out on the wire for this response.
    pub fn serialize(&self) -> (r: String)
        ensures
            r@ == self@.wire(),
    {
        let mut out = "HTTP/1.1 ".to_owned();
        push_decimal(&mut out, self.status_code.code());
        out.append(" ");
        out.append(self.status_code.reason_phrase());
        out.append("\r\n\r\n");
        match &self.body {
            Some(text) => {
                out.append(text.as_str());
            },
            None => {
                proof {
                    assert(out@ + Seq::<char>::empty() =~= out@);
                }
            },
        }
        out
    }
}

} // verus!
