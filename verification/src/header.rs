//! The header section of a request: a fixed set of recognised headers, each
//! with the value of its last occurrence. Other headers are ignored.

use crate::text::{after, before, find, range_is, string_of, to_chars};
use vstd::prelude::*;

verus! {

/// The headers that are recognised.
#[derive(Debug, Clone, Copy, PartialEq, Eq)]
pub enum HeaderKind {
    UserAgent,
    Host,
    Accept,
}

/// The values of the recognised headers; empty where a header was not sent.
#[derive(Debug, PartialEq, Eq)]
pub struct RequestHeader {
    pub user_agent: String,
    pub host: String,
    pub accept: String,
}

/// What a `RequestHeader` holds, as mathematical values.
pub struct HeaderView {
    pub user_agent: Seq<char>,
    pub host: Seq<char>,
    pub accept: Seq<char>,
}

impl View for RequestHeader {
    type V = HeaderView;

    open spec fn view(&self) -> HeaderView {
        HeaderView { user_agent: self.user_agent@, host: self.host@, accept: self.accept@ }
    }
}

/// The header that a name token stands for. The token includes the colon.
pub open spec fn header_kind_of(name: Seq<char>) -> Option<HeaderKind> {
    if name == "User-Agent:"@ {
        Some(HeaderKind::UserAgent)
    } else if name == "Host:"@ {
        Some(HeaderKind::Host)
    } else if name == "Accept:"@ {
        Some(HeaderKind::Accept)
    } else {
        None
    }
}

impl HeaderView {
    /// No header sent yet.
    pub open spec fn blank() -> HeaderView {
        HeaderView { user_agent: Seq::empty(), host: Seq::empty(), accept: Seq::empty() }
    }

    /// The value of one header.
    pub open spec fn value(self, kind: HeaderKind) -> Seq<char> {
        match kind {
            HeaderKind::UserAgent => self.user_agent,
            HeaderKind::Host => self.host,
            HeaderKind::Accept => self.accept,
        }
    }

    /// The headers with the value of one of them replaced.
    pub open spec fn with_value(self, kind: HeaderKind, value: Seq<char>) -> HeaderView {
        match kind {
            HeaderKind::UserAgent => HeaderView { user_agent: value, ..self },
            HeaderKind::Host => HeaderView { host: value, ..self },
            HeaderKind::Accept => HeaderView { accept: value, ..self },
        }
    }

    /// The headers after one header line. The name is what stands before the
    /// line's first space, the value all that stands after it (nothing where
    /// the line has no space). A line with another name changes nothing.
    pub open spec fn with_line(self, line: Seq<char>) -> HeaderView {
        match header_kind_of(before(line, ' ')) {
            Some(kind) => self.with_value(kind, after(line, ' ')),
            None => self,
        }
    }

    /// The headers after each of `lines`, first to last.
    pub open spec fn with_lines(self, lines: Seq<Seq<char>>) -> HeaderView
        decreases lines.len(),
    {
        if lines.len() == 0 {
            self
        } else {
            self.with_lines(lines.drop_last()).with_line(lines.last())
        }
    }
}

/// The header that the name token `v[0..to]` stands for.
fn header_kind(v: &Vec<char>, to: usize) -> (kind: Option<HeaderKind>)
    requires
        to <= v.len(),
    ensures
        kind == header_kind_of(v@.subrange(0, to as int)),
{
    if range_is(v, 0, to, "User-Agent:") {
        Some(HeaderKind::UserAgent)
    } else if range_is(v, 0, to, "Host:") {
        Some(HeaderKind::Host)
    } else if range_is(v, 0, to, "Accept:") {
        Some(HeaderKind::Accept)
    } else {
        None
    }
}

impl RequestHeader {
    /// No header sent yet: every value is empty.
    pub fn new() -> (header: RequestHeader)
        ensures
            header@ == HeaderView::blank(),
    {
        RequestHeader { user_agent: String::new(), host: String::new(), accept: String::new() }
    }

    /// The value of one header.
    pub fn get(&self, kind: HeaderKind) -> (value: &String)
        ensures
            value@ == self@.value(kind),
    {
        match kind {
            HeaderKind::UserAgent => &self.user_agent,
            HeaderKind::Host => &self.host,
            HeaderKind::Accept => &self.accept,
        }
    }

    /// Replaces the value of one header.
    pub fn set(&mut self, kind: HeaderKind, value: String)
        ensures
            final(self)@ == old(self)@.with_value(kind, value@),
    {
        match kind {
            HeaderKind::UserAgent => {
                self.user_agent = value;
            },
            HeaderKind::Host => {
                self.host = value;
            },
            HeaderKind::Accept => {
                self.accept = value;
            },
        }
    }

    /// Takes in one header line.
    pub fn apply_line(&mut self, line: &str)
        ensures
            final(self)@ == old(self)@.with_line(line@),
    {
        let v = to_chars(line);
        let n = v.len();
        assert(v@.subrange(0, n as int) =~= line@);
        let space = find(&v, ' ', 0, n);
        match header_kind(&v, space) {
            Some(kind) => {
                let value = if space < n {
                    string_of(&v, space + 1, n)
                } else {
                    String::new()
                };
                self.set(kind, value);
            },
            None => {},
        }
    }
}

} // verus!
