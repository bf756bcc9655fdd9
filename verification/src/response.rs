//! Responses and their text on the wire: a status line, a `Server` header, a
//! `Content-Length` header with the byte length of the body, a blank line and
//! the body.

use vstd::prelude::*;
use vstd::string::StringExecFns;
use vstd::utf8::encode_utf8;

verus! {

/// The status of a response.
#[derive(Debug, Clone, Copy, PartialEq, Eq)]
pub enum Status {
    /// 200: the request was understood, whatever the store answered.
    Success,
    /// 400: the request line could not be parsed.
    BadRequest,
    /// 404: the path names no operation.
    NotFound,
}

impl Status {
    /// The status as it stands in the status line, code and reason.
    pub open spec fn text(self) -> Seq<char> {
        match self {
            Status::Success => "200 OK"@,
            Status::BadRequest => "400 Bad Request"@,
            Status::NotFound => "404 Not Found"@,
        }
    }

    /// The numeric code of the status.
    pub open spec fn number(self) -> nat {
        match self {
            Status::Success => 200,
            Status::BadRequest => 400,
            Status::NotFound => 404,
        }
    }

    /// The status as it stands in the status line, code and reason.
    pub fn as_str(&self) -> (s: &'static str)
        ensures
            s@ == self.text(),
    {
        match self {
            Status::Success => "200 OK",
            Status::BadRequest => "400 Bad Request",
            Status::NotFound => "404 Not Found",
        }
    }

    /// The numeric code of the status.
    pub fn code(&self) -> (n: u16)
        ensures
            n == self.number(),
    {
        match self {
            Status::Success => 200,
            Status::BadRequest => 400,
            Status::NotFound => 404,
        }
    }
}

/// The character for one decimal digit.
pub open spec fn digit_char(d: nat) -> char {
    if d == 0 {
        '0'
    } else if d == 1 {
        '1'
    } else if d == 2 {
        '2'
    } else if d == 3 {
        '3'
    } else if d == 4 {
        '4'
    } else if d == 5 {
        '5'
    } else if d == 6 {
        '6'
    } else if d == 7 {
        '7'
    } else if d == 8 {
        '8'
    } else {
        '9'
    }
}

/// A number in decimal, without sign or leading zeros.
pub open spec fn decimal(n: nat) -> Seq<char>
    decreases n,
{
    if n < 10 {
        seq![digit_char(n)]
    } else {
        decimal(n / 10).push(digit_char(n % 10))
    }
}

/// The number of bytes that a text takes on the wire.
pub open spec fn byte_len(text: Seq<char>) -> nat {
    encode_utf8(text).len()
}

/// The character for one decimal digit.
fn digit(d: usize) -> (c: char)
    requires
        d < 10,
    ensures
        c == digit_char(d as nat),
{
    if d == 0 {
        '0'
    } else if d == 1 {
        '1'
    } else if d == 2 {
        '2'
    } else if d == 3 {
        '3'
    } else if d == 4 {
        '4'
    } else if d == 5 {
        '5'
    } else if d == 6 {
        '6'
    } else if d == 7 {
        '7'
    } else if d == 8 {
        '8'
    } else {
        '9'
    }
}

/// Writes a number in decimal.
pub fn decimal_string(n: usize) -> (s: String)
    ensures
        s@ == decimal(n as nat),
{
    let mut low: Vec<char> = Vec::new();
    let mut m: usize = n;
    while m >= 10
        invariant
            decimal(n as nat) == decimal(m as nat) + low@.reverse(),
        decreases m,
    {
        let ghost before = low@;
        low.push(digit(m % 10));
        proof {
            assert(low@.reverse() =~= seq![digit_char((m % 10) as nat)] + before.reverse());
            assert(decimal(m as nat) + before.reverse() =~= decimal((m / 10) as nat)
                + low@.reverse());
        }
        m = m / 10;
    }
    let mut s = String::new();
    s.push(digit(m));
    let mut i: usize = low.len();
    while i > 0
        invariant
            i <= low.len(),
            s@ == decimal(m as nat) + low@.reverse().take(low.len() - i),
        decreases i,
    {
        i -= 1;
        let ghost sofar = s@;
        s.push(low[i]);
        assert(s@ =~= decimal(m as nat) + low@.reverse().take(low.len() - i));
    }
    assert(low@.reverse().take(low.len() as int) =~= low@.reverse());
    s
}

/// A response: a status and a body.
#[derive(Debug, PartialEq, Eq)]
pub struct Response {
    pub status: Status,
    pub body: String,
}

/// What a `Response` holds, as mathematical values.
pub struct ResponseView {
    pub status: Status,
    pub body: Seq<char>,
}

impl View for Response {
    type V = ResponseView;

    open spec fn view(&self) -> ResponseView {
        ResponseView { status: self.status, body: self.body@ }
    }
}

impl ResponseView {
    /// The text of the response on the wire.
    pub open spec fn rendered(self) -> Seq<char> {
        "HTTP/1.0 "@ + self.status.text() + "\r\nServer: HTTPQ\r\nContent-Length: "@ + decimal(
            byte_len(self.body),
        ) + "\r\n\r\n"@ + self.body
    }
}

impl Response {
    /// A response with the given status and body.
    pub fn new(status: Status, body: String) -> (response: Response)
        ensures
            response@ == (ResponseView { status, body: body@ }),
    {
        Response { status, body }
    }

    /// The text of the response on the wire.
    pub fn render(&self) -> (text: String)
        ensures
            text@ == self@.rendered(),
    {
        let length = decimal_string(self.body.as_str().as_bytes().len());
        let mut text = String::from_str("HTTP/1.0 ");
        text.append(self.status.as_str());
        text.append("\r\nServer: HTTPQ\r\nContent-Length: ");
        text.append(length.as_str());
        text.append("\r\n\r\n");
        text.append(self.body.as_str());
        text
    }

    /// The bytes of the response on the wire.
    pub fn to_bytes(&self) -> (bytes: Vec<u8>)
        ensures
            bytes@ == encode_utf8(self@.rendered()),
    {
        self.render().as_str().as_bytes_vec()
    }
}

} // verus!
