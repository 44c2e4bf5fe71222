//! Requests, and the parser that reads one from the bytes of a connection.

use super::headers::{headers_of, parse_headers, Headers};
use super::method::{Method, MethodError};
use super::query::{query_map, Query, ValueView};
use crate::encoding::{
    lemma_byte_offset_increases, lemma_encode_ascii, lemma_occurrence_in_bytes,
    lemma_occurrence_in_text,
};
use crate::search::{least, lemma_least, lemma_least_is, split_at_first, without_prefix};
use crate::text::{same_text, split_once, strip_prefix};
use vstd::prelude::*;
use vstd::std_specs::convert::{FromSpecImpl, TryFromSpecImpl};
use vstd::string::*;
use vstd::utf8::*;

verus! {

/// Why a buffer is no request.
#[derive(Clone, Copy, PartialEq, Eq, Debug, Structural)]
pub enum ParseError {
    /// The request line lacks one of its three tokens, or a header line lacks
    /// its separator.
    InvalidRequest,
    /// The buffer is not UTF-8.
    InvalidEncoding,
    /// The protocol is neither HTTP/1.1 nor HTTP/1.0.
    InvalidProtocol,
    /// The method token names no method.
    InvalidMethod,
}

impl ParseError {
    /// The words that describe this error.
    pub open spec fn text(self) -> Seq<char> {
        match self {
            ParseError::InvalidRequest => "Invalid Request"@,
            ParseError::InvalidEncoding => "Invalid Encoding"@,
            ParseError::InvalidProtocol => "Invalid Protocol"@,
            ParseError::InvalidMethod => "Invalid Method"@,
        }
    }

    /// The words that describe this error.
    pub fn message(&self) -> (r: &'static str)
        ensures
            r@ == self.text(),
    {
        match self {
            ParseError::InvalidRequest => "Invalid Request",
            ParseError::InvalidEncoding => "Invalid Encoding",
            ParseError::InvalidProtocol => "Invalid Protocol",
            ParseError::InvalidMethod => "Invalid Method",
        }
    }

    /// The message, as a string of its own.
    pub fn to_string(&self) -> (r: String)
        ensures
            r@ == self.text(),
    {
        self.message().to_owned()
    }
}

impl From<core::str::Utf8Error> for ParseError {
    fn from(error: core::str::Utf8Error) -> (r: ParseError) {
        ParseError::InvalidEncoding
    }
}

impl FromSpecImpl<core::str::Utf8Error> for ParseError {
    open spec fn obeys_from_spec() -> bool {
        true
    }

    open spec fn from_spec(error: core::str::Utf8Error) -> ParseError {
        ParseError::InvalidEncoding
    }
}

impl From<MethodError> for ParseError {
    fn from(error: MethodError) -> (r: ParseError) {
        ParseError::InvalidMethod
    }
}

impl FromSpecImpl<MethodError> for ParseError {
    open spec fn obeys_from_spec() -> bool {
        true
    }

    open spec fn from_spec(error: MethodError) -> ParseError {
        ParseError::InvalidMethod
    }
}

/// The characters that end a token of the request line: the blank and the
/// carriage return.
pub open spec fn is_delimiter(c: char) -> bool {
    c == ' ' || c == '\r'
}

/// The predicate "a delimiter stands in `text` here", as a function of the
/// index.
pub open spec fn delimiters(text: Seq<char>) -> spec_fn(int) -> bool {
    |i: int| 0 <= i < text.len() && is_delimiter(text[i])
}

/// The token before the first delimiter of `text`, and what follows that
/// delimiter. A text without a delimiter holds no token.
pub open spec fn next_word(text: Seq<char>) -> Option<(Seq<char>, Seq<char>)> {
    match least(delimiters(text)) {
        Some(i) => Some((text.subrange(0, i), text.subrange(i + 1, text.len() as int))),
        None => None,
    }
}

/// The path of a request target: what stands before its first `?`.
pub open spec fn target_path(target: Seq<char>) -> Seq<char> {
    match split_at_first(target, "?"@) {
        Some((path, fragment)) => path,
        None => target,
    }
}

/// The query of a request target: what stands after its first `?`, read as a
/// query string.
pub open spec fn target_query(target: Seq<char>) -> Option<Map<Seq<char>, ValueView>> {
    match split_at_first(target, "?"@) {
        Some((path, fragment)) => Some(query_map(fragment)),
        None => None,
    }
}

/// The header block: what follows the delimiter that ends the protocol token,
/// less the line feed that completes the line end.
pub open spec fn header_block(rest: Seq<char>) -> Seq<char> {
    match without_prefix(rest, "\n"@) {
        Some(block) => block,
        None => rest,
    }
}

/// The protocols that are served.
pub open spec fn is_protocol(token: Seq<char>) -> bool {
    token == "HTTP/1.1"@ || token == "HTTP/1.0"@
}

/// A request, as the text it holds.
pub struct RequestView {
    pub path: Seq<char>,
    pub query: Option<Map<Seq<char>, ValueView>>,
    pub method: Method,
    pub headers: Map<Seq<char>, Seq<char>>,
}

/// The request that a text stands for. The checks come in this order: the
/// three tokens of the request line, the protocol, the method, the header
/// lines.
pub open spec fn parse_text(text: Seq<char>) -> Result<RequestView, ParseError> {
    match next_word(text) {
        None => Err(ParseError::InvalidRequest),
        Some((method, rest)) => match next_word(rest) {
            None => Err(ParseError::InvalidRequest),
            Some((target, rest)) => match next_word(rest) {
                None => Err(ParseError::InvalidRequest),
                Some((protocol, rest)) => if !is_protocol(protocol) {
                    Err(ParseError::InvalidProtocol)
                } else {
                    match (Method::from_token(method), headers_of(header_block(rest))) {
                        (None, _) => Err(ParseError::InvalidMethod),
                        (Some(method), None) => Err(ParseError::InvalidRequest),
                        (Some(method), Some(headers)) => Ok(
                            RequestView {
                                path: target_path(target),
                                query: target_query(target),
                                method,
                                headers,
                            },
                        ),
                    }
                },
            },
        },
    }
}

/// The request that the bytes of a buffer stand for: they are UTF-8, and the
/// text they encode is a request.
pub open spec fn parse_bytes(bytes: Seq<u8>) -> Result<RequestView, ParseError> {
    if valid_utf8(bytes) {
        parse_text(decode_utf8(bytes))
    } else {
        Err(ParseError::InvalidEncoding)
    }
}

/// A buffer that is not UTF-8 is refused for its encoding, whatever it holds.
pub proof fn lemma_invalid_encoding(bytes: Seq<u8>)
    requires
        !valid_utf8(bytes),
    ensures
        parse_bytes(bytes) == Err::<RequestView, ParseError>(ParseError::InvalidEncoding),
{
}

/// A request line whose third token is neither of the two protocols is refused
/// for its protocol, whatever the method token and the header lines are.
pub proof fn lemma_unknown_protocol(
    text: Seq<char>,
    method: Seq<char>,
    target: Seq<char>,
    protocol: Seq<char>,
    after_method: Seq<char>,
    after_target: Seq<char>,
    after_protocol: Seq<char>,
)
    requires
        next_word(text) == Some((method, after_method)),
        next_word(after_method) == Some((target, after_target)),
        next_word(after_target) == Some((protocol, after_protocol)),
        !is_protocol(protocol),
    ensures
        parse_text(text) == Err::<RequestView, ParseError>(ParseError::InvalidProtocol),
{
}

/// A parsed request. Its texts are slices of the buffer it was parsed from.
#[derive(Debug)]
pub struct Request<'buf> {
    path: &'buf str,
    query: Option<Query<'buf>>,
    method: Method,
    headers: Headers<'buf>,
}

impl<'buf> View for Request<'buf> {
    type V = RequestView;

    closed spec fn view(&self) -> RequestView {
        RequestView {
            path: self.path@,
            query: match self.query {
                Some(query) => Some(query@),
                None => None,
            },
            method: self.method,
            headers: self.headers@,
        }
    }
}

/// Splits off the first token of `text`: what stands before the first blank or
/// carriage return, and what stands after it.
pub fn get_next_word(text: &str) -> (r: Option<(&str, &str)>)
    ensures
        match r {
            Some((word, rest)) => next_word(text@) == Some((word@, rest@)),
            None => next_word(text@) is None,
        },
{
    let bytes = text.as_bytes();
    let mut i: usize = 0;
    while i < bytes.len()
        invariant
            0 <= i <= bytes@.len(),
            bytes@ == text.spec_bytes(),
            forall|j: int| 0 <= j < i ==> bytes@[j] != 0x20 && bytes@[j] != 0x0d,
        decreases bytes@.len() - i,
    {
        let byte = bytes[i];
        if byte == 0x20 || byte == 0x0d {
            proof {
                let c = if byte == 0x20 {
                    ' '
                } else {
                    '\r'
                };
                lemma_encode_ascii(c);
                assert(bytes@.subrange(i as int, i + 1) =~= seq![byte]);
                let k = lemma_occurrence_in_text(text@, seq![c], i as int);
                assert(text@[k] == text@.subrange(k, k + 1)[0]);
                assert forall|j: int| 0 <= j < k implies !#[trigger] delimiters(text@)(j) by {
                    if is_delimiter(text@[j]) {
                        lemma_delimiter_in_bytes(text@, j);
                        lemma_byte_offset_increases(text@, j, k);
                    }
                }
                lemma_least_is(delimiters(text@), k);
                encode_utf8_decode_utf8(text@.subrange(0, k));
                encode_utf8_decode_utf8(text@.subrange(k + 1, text@.len() as int));
            }
            let (word, tail) = text.split_at(i);
            let (_, rest) = tail.split_at(1);
            proof {
                encode_utf8_decode_utf8(word@);
                encode_utf8_decode_utf8(rest@);
                assert(rest.spec_bytes() =~= bytes@.subrange(i + 1, bytes@.len() as int));
            }
            return Some((word, rest));
        }
        i += 1;
    }
    proof {
        assert forall|j: int| 0 <= j implies !#[trigger] delimiters(text@)(j) by {
            if j < text@.len() && is_delimiter(text@[j]) {
                lemma_delimiter_in_bytes(text@, j);
            }
        }
        lemma_least(delimiters(text@));
    }
    None
}

/// A delimiter in a text is a delimiter byte in its encoding, at the byte
/// offset of its place.
proof fn lemma_delimiter_in_bytes(text: Seq<char>, j: int)
    requires
        0 <= j < text.len(),
        is_delimiter(text[j]),
    ensures
        0 <= crate::encoding::byte_offset(text, j) < encode_utf8(text).len(),
        encode_utf8(text)[crate::encoding::byte_offset(text, j)] == 0x20 || encode_utf8(
            text,
        )[crate::encoding::byte_offset(text, j)] == 0x0d,
{
    let c = text[j];
    assert(text.subrange(j, j + 1) =~= seq![c]);
    lemma_encode_ascii(c);
    lemma_occurrence_in_bytes(text, seq![c], j);
    let at = crate::encoding::byte_offset(text, j);
    assert(encode_utf8(text)[at] == encode_utf8(text).subrange(at, at + 1)[0]);
}

impl<'buf> Request<'buf> {
    /// The path of the request target, without the query.
    pub fn path(&self) -> (r: &'buf str)
        ensures
            r@ == self@.path,
    {
        self.path
    }

    /// The method.
    pub fn method(&self) -> (r: &Method)
        ensures
            *r == self@.method,
    {
        &self.method
    }

    /// The query of the request target, where it has one.
    pub fn query(&self) -> (r: Option<&Query<'buf>>)
        ensures
            match r {
                Some(query) => self@.query == Some(query@),
                None => self@.query is None,
            },
    {
        self.query.as_ref()
    }

    /// The header fields.
    pub fn headers(&self) -> (r: &Headers<'buf>)
        ensures
            r@ == self@.headers,
    {
        &self.headers
    }

    /// Reads a request from the bytes of a buffer: the request line and the
    /// header lines. What follows the empty line is not read.
    pub fn parse(buffer: &'buf [u8]) -> (r: Result<Request<'buf>, ParseError>)
        ensures
            match r {
                Ok(request) => parse_bytes(buffer@) == Ok::<RequestView, ParseError>(request@),
                Err(error) => parse_bytes(buffer@) == Err::<RequestView, ParseError>(error),
            },
            !valid_utf8(buffer@) ==> r matches Err(ParseError::InvalidEncoding),
    {
        let text = match core::str::from_utf8(buffer) {
            Ok(text) => text,
            Err(error) => {
                return Err(ParseError::from(error));
            },
        };
        proof {
            encode_utf8_decode_utf8(text@);
        }
        let (method, rest) = match get_next_word(text) {
            Some(found) => found,
            None => {
                return Err(ParseError::InvalidRequest);
            },
        };
        let (target, rest) = match get_next_word(rest) {
            Some(found) => found,
            None => {
                return Err(ParseError::InvalidRequest);
            },
        };
        let (protocol, rest) = match get_next_word(rest) {
            Some(found) => found,
            None => {
                return Err(ParseError::InvalidRequest);
            },
        };
        if !(same_text(protocol, "HTTP/1.1") || same_text(protocol, "HTTP/1.0")) {
            return Err(ParseError::InvalidProtocol);
        }
        let method = match Method::parse(method) {
            Ok(method) => method,
            Err(error) => {
                return Err(ParseError::from(error));
            },
        };
        let (path, query) = match split_once(target, "?") {
            Some((path, fragment)) => (path, Some(Query::parse(fragment))),
            None => (target, None),
        };
        let block = match strip_prefix(rest, "\n") {
            Some(block) => block,
            None => rest,
        };
        let headers = match parse_headers(block) {
            Some(headers) => headers,
            None => {
                return Err(ParseError::InvalidRequest);
            },
        };
        Ok(Request { path, query, method, headers })
    }
}

impl<'buf> TryFrom<&'buf [u8]> for Request<'buf> {
    type Error = ParseError;

    /// Reads a request from the bytes of a buffer, as `Request::parse` does.
    fn try_from(buffer: &'buf [u8]) -> (r: Result<Request<'buf>, ParseError>)
        ensures
            match r {
                Ok(request) => parse_bytes(buffer@) == Ok::<RequestView, ParseError>(request@),
                Err(error) => parse_bytes(buffer@) == Err::<RequestView, ParseError>(error),
            },
    {
        Request::parse(buffer)
    }
}

/// A request is known by its view, and no spec function builds one: what
/// `try_from` returns is stated in its own contract, above.
impl<'buf> TryFromSpecImpl<&'buf [u8]> for Request<'buf> {
    open spec fn obeys_try_from_spec() -> bool {
        false
    }

    open spec fn try_from_spec(buffer: &'buf [u8]) -> Result<Request<'buf>, ParseError> {
        arbitrary()
    }
}

} // verus!
