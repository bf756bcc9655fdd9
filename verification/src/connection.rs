//! The life of one connection: the request is parsed byte by byte, then
//! dispatched to the store, then the response is sent, and the connection is
//! closed. One connection carries one request.
//!
//! The connection does no reading or writing of its own. Its stage says what
//! the server is to do next, and the server reports back what happened. Only
//! `dispatch` touches the store, so a server that shares the store needs to
//! hold its lock for that one call and not while it waits for the peer.

use crate::handler::{answer_to, respond, store_after_answer};
use crate::parser::{lemma_parser_reads_lines, lines_of, request_of, ParserView, RequestParser};
use crate::remote::RemoteAddr;
use crate::request::ParseError;
use crate::response::{Response, ResponseView};
use crate::store::{Queue, TaskStore};
use vstd::prelude::*;
use vstd::utf8::encode_utf8;

verus! {

/// Where a connection stands.
#[derive(Debug, Clone, Copy, PartialEq, Eq)]
pub enum Stage {
    /// The request is being read.
    Parsing,
    /// The request was read and waits for the store.
    Dispatching,
    /// The response waits to be sent.
    Responding,
    /// Nothing more happens on this connection.
    Closed,
}

/// The state of a connection, as mathematical values.
pub struct ConnectionView {
    pub stage: Stage,
    pub parser: ParserView,
    pub response: Option<ResponseView>,
}

impl ConnectionView {
    /// A connection that was just accepted.
    pub open spec fn opened() -> ConnectionView {
        ConnectionView { stage: Stage::Parsing, parser: ParserView::start(), response: None }
    }

    /// The connection after one byte came in. Only a connection that is
    /// parsing takes it; it goes on to dispatching once the parser is done.
    pub open spec fn received(self, byte: u8) -> ConnectionView {
        if self.stage == Stage::Parsing {
            let parser = self.parser.fed(byte);
            ConnectionView {
                stage: if parser.is_done() {
                    Stage::Dispatching
                } else {
                    Stage::Parsing
                },
                parser,
                response: self.response,
            }
        } else {
            self
        }
    }

    /// The connection after each of `bytes` came in, first to last.
    pub open spec fn received_all(self, bytes: Seq<u8>) -> ConnectionView
        decreases bytes.len(),
    {
        if bytes.len() == 0 {
            self
        } else {
            self.received_all(bytes.drop_last()).received(bytes.last())
        }
    }

    /// The connection after its request was put to a store in state `q`: it
    /// holds the response and goes on to responding, or it is closed where
    /// there is nothing to answer.
    pub open spec fn dispatched(self, q: Queue) -> ConnectionView {
        if self.stage == Stage::Dispatching {
            match answer_to(self.parser.outcome(), q) {
                Some(response) => ConnectionView {
                    stage: Stage::Responding,
                    parser: ParserView::start(),
                    response: Some(response),
                },
                None => ConnectionView {
                    stage: Stage::Closed,
                    parser: ParserView::start(),
                    response: None,
                },
            }
        } else {
            self
        }
    }

    /// The store after the request of this connection was put to it in state
    /// `q`.
    pub open spec fn store_dispatched(self, q: Queue) -> Queue {
        if self.stage == Stage::Dispatching {
            store_after_answer(self.parser.outcome(), q)
        } else {
            q
        }
    }

    /// The bytes to send: those of the response, while the connection is
    /// responding.
    pub open spec fn outgoing(self) -> Option<Seq<u8>> {
        match self.response {
            Some(response) => if self.stage == Stage::Responding {
                Some(encode_utf8(response.rendered()))
            } else {
                None
            },
            None => None,
        }
    }

    /// The connection after its response was sent.
    pub open spec fn sent(self) -> ConnectionView {
        if self.stage == Stage::Responding {
            ConnectionView { stage: Stage::Closed, ..self }
        } else {
            self
        }
    }

    /// The connection after it was given up.
    pub open spec fn abandoned(self) -> ConnectionView {
        ConnectionView { stage: Stage::Closed, ..self }
    }
}

/// One connection.
pub struct Connection {
    stage: Stage,
    parser: RequestParser,
    response: Option<Response>,
}

impl View for Connection {
    type V = ConnectionView;

    closed spec fn view(&self) -> ConnectionView {
        ConnectionView {
            stage: self.stage,
            parser: self.parser@,
            response: match self.response {
                Some(response) => Some(response@),
                None => None,
            },
        }
    }
}

impl Connection {
    /// A connection that was just accepted.
    pub fn new() -> (connection: Connection)
        ensures
            connection@ == ConnectionView::opened(),
    {
        Connection { stage: Stage::Parsing, parser: RequestParser::new(), response: None }
    }

    /// Where the connection stands, which says what is to be done next: read
    /// a byte and hand it to `receive`, call `dispatch`, send the bytes of
    /// `outgoing` and call `sent`, or close.
    pub fn stage(&self) -> (stage: Stage)
        ensures
            stage == self@.stage,
    {
        self.stage
    }

    /// Takes in one byte that came in.
    pub fn receive(&mut self, byte: u8)
        ensures
            final(self)@ == old(self)@.received(byte),
    {
        match self.stage {
            Stage::Parsing => {
                self.parser.feed(byte);
                if self.parser.is_done() {
                    self.stage = Stage::Dispatching;
                }
            },
            _ => {},
        }
    }

    /// Puts the request to the store, and keeps the response.
    pub fn dispatch(&mut self, remote: RemoteAddr, store: &mut TaskStore)
        ensures
            final(self)@ == old(self)@.dispatched(old(store)@),
            final(store)@ == old(self)@.store_dispatched(old(store)@),
    {
        match self.stage {
            Stage::Dispatching => {
                let mut parser = RequestParser::new();
                core::mem::swap(&mut self.parser, &mut parser);
                let response = respond(parser.finish(remote), store);
                self.stage = match response {
                    Some(_) => Stage::Responding,
                    None => Stage::Closed,
                };
                self.response = response;
            },
            _ => {},
        }
    }

    /// The bytes to send, while the connection is responding.
    pub fn outgoing(&self) -> (bytes: Option<Vec<u8>>)
        ensures
            match bytes {
                Some(b) => self@.outgoing() == Some(b@),
                None => self@.outgoing() is None,
            },
    {
        match self.stage {
            Stage::Responding => match &self.response {
                Some(response) => Some(response.to_bytes()),
                None => None,
            },
            _ => None,
        }
    }

    /// Records that the response was sent, which closes the connection.
    pub fn sent(&mut self)
        ensures
            final(self)@ == old(self)@.sent(),
    {
        match self.stage {
            Stage::Responding => {
                self.stage = Stage::Closed;
            },
            _ => {},
        }
    }

    /// Gives the connection up, as after a failure to read or to write.
    pub fn abandon(&mut self)
        ensures
            final(self)@ == old(self)@.abandoned(),
    {
        self.stage = Stage::Closed;
    }
}

/// While a connection takes in bytes, its parser is where those bytes take a
/// parser, and the connection goes on to dispatching exactly when the parser
/// is done.
pub proof fn lemma_received_all(bytes: Seq<u8>)
    ensures
        ConnectionView::opened().received_all(bytes).parser == ParserView::start().fed_all(bytes),
        ConnectionView::opened().received_all(bytes).response is None,
        ConnectionView::opened().received_all(bytes).stage == if ParserView::start().fed_all(
            bytes,
        ).is_done() {
            Stage::Dispatching
        } else {
            Stage::Parsing
        },
    decreases bytes.len(),
{
    if bytes.len() > 0 {
        lemma_received_all(bytes.drop_last());
    }
}

/// A connection that took in bytes which hold a request, or a request line
/// that cannot be parsed, answers as the handler does on those bytes, and
/// leaves the store as the handler does. A connection whose bytes end before
/// the request does is still parsing.
pub proof fn lemma_connection_serves(bytes: Seq<u8>, q: Queue)
    ensures
        (request_of(lines_of(bytes)) matches Err(ParseError::Incomplete))
            ==> ConnectionView::opened().received_all(bytes).stage == Stage::Parsing,
        !(request_of(lines_of(bytes)) matches Err(ParseError::Incomplete)) ==> {
            let connection = ConnectionView::opened().received_all(bytes);
            &&& connection.stage == Stage::Dispatching
            &&& connection.dispatched(q).stage == Stage::Responding
            &&& connection.dispatched(q).response == answer_to(request_of(lines_of(bytes)), q)
            &&& connection.store_dispatched(q) == store_after_answer(
                request_of(lines_of(bytes)),
                q,
            )
            &&& connection.dispatched(q).sent().stage == Stage::Closed
        },
{
    lemma_received_all(bytes);
    lemma_parser_reads_lines(bytes);
}

} // verus!
