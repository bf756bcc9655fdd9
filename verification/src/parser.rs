//! The request parser. It is handed the bytes of a connection one at a time,
//! reads the request line and then header lines up to the first empty line,
//! and stops there. What it arrives at is the meaning of the lines that the
//! bytes hold.

use crate::header::{HeaderView, RequestHeader};
use crate::line::{line_text, pending_after, lemma_line_text_push, LineReader, CR};
use crate::remote::RemoteAddr;
use crate::request::{
    parse_request_line, parsed_view, request_line_of, ParseError, RequestInfo, RequestLine,
    RequestLineView,
};
use crate::text::{
    before, index_of, lemma_index_of, lemma_index_of_unique, lemma_split_first,
    lemma_split_push_other, lemma_split_push_same, occurs, split,
};
use vstd::prelude::*;

verus! {

/// How far the parser has come.
#[derive(Debug, Clone, Copy, PartialEq, Eq)]
pub enum Phase {
    /// In the request line.
    RequestLine,
    /// In the header section.
    Headers,
    /// The empty line that ends the header section was read.
    Complete,
    /// The request line could not be parsed.
    Failed,
}

/// The finished lines that a run of bytes holds: the text of each piece that
/// a carriage return ends.
pub open spec fn lines_of(bytes: Seq<u8>) -> Seq<Seq<char>> {
    split(bytes, CR).drop_last().map_values(|piece: Seq<u8>| line_text(piece))
}

/// The text of the unfinished line at the end of a run of bytes.
pub open spec fn pending_of(bytes: Seq<u8>) -> Seq<char> {
    line_text(split(bytes, CR).last())
}

/// The request that a sequence of lines holds. The first line is the request
/// line; the lines after it, up to the first empty one, are header lines.
/// Without a first line, or without an empty line after it, the request is
/// incomplete.
pub open spec fn request_of(lines: Seq<Seq<char>>) -> Result<
    (RequestLineView, HeaderView),
    ParseError,
> {
    if lines.len() == 0 {
        Err(ParseError::Incomplete)
    } else {
        match request_line_of(lines[0]) {
            None => Err(ParseError::MalformedRequestLine),
            Some(line) => {
                let rest = lines.drop_first();
                if occurs(rest, Seq::<char>::empty()) {
                    Ok((line, HeaderView::blank().with_lines(before(rest, Seq::<char>::empty()))))
                } else {
                    Err(ParseError::Incomplete)
                }
            },
        }
    }
}

/// The state of a parser, as mathematical values.
pub struct ParserView {
    pub phase: Phase,
    /// The text of the line that is not finished yet.
    pub pending: Seq<char>,
    /// The request line, once it was read.
    pub line: Option<RequestLineView>,
    /// The headers read so far.
    pub header: HeaderView,
}

impl ParserView {
    /// The state before any byte.
    pub open spec fn start() -> ParserView {
        ParserView {
            phase: Phase::RequestLine,
            pending: Seq::empty(),
            line: None,
            header: HeaderView::blank(),
        }
    }

    /// Whether the parser takes no further byte.
    pub open spec fn is_done(self) -> bool {
        self.phase == Phase::Complete || self.phase == Phase::Failed
    }

    /// The state after a carriage return, which finishes the pending line.
    pub open spec fn line_finished(self) -> ParserView {
        match self.phase {
            Phase::RequestLine => match request_line_of(self.pending) {
                Some(line) => ParserView {
                    phase: Phase::Headers,
                    pending: Seq::empty(),
                    line: Some(line),
                    header: self.header,
                },
                None => ParserView { phase: Phase::Failed, pending: Seq::empty(), ..self },
            },
            Phase::Headers => if self.pending.len() == 0 {
                ParserView { phase: Phase::Complete, ..self }
            } else {
                ParserView {
                    pending: Seq::empty(),
                    header: self.header.with_line(self.pending),
                    ..self
                }
            },
            _ => self,
        }
    }

    /// The state after one more byte. A parser that is done ignores it.
    pub open spec fn fed(self, byte: u8) -> ParserView {
        if self.is_done() {
            self
        } else if byte == CR {
            self.line_finished()
        } else {
            ParserView { pending: pending_after(self.pending, byte), ..self }
        }
    }

    /// The state after each of `bytes`, first to last.
    pub open spec fn fed_all(self, bytes: Seq<u8>) -> ParserView
        decreases bytes.len(),
    {
        if bytes.len() == 0 {
            self
        } else {
            self.fed_all(bytes.drop_last()).fed(bytes.last())
        }
    }

    /// What the parser has arrived at.
    pub open spec fn outcome(self) -> Result<(RequestLineView, HeaderView), ParseError> {
        match self.phase {
            Phase::Complete => match self.line {
                Some(line) => Ok((line, self.header)),
                None => Err(ParseError::Incomplete),
            },
            Phase::Failed => Err(ParseError::MalformedRequestLine),
            _ => Err(ParseError::Incomplete),
        }
    }
}

/// A request parser that is handed one byte at a time.
pub struct RequestParser {
    phase: Phase,
    reader: LineReader,
    line: Option<RequestLine>,
    header: RequestHeader,
}

impl View for RequestParser {
    type V = ParserView;

    closed spec fn view(&self) -> ParserView {
        ParserView {
            phase: self.phase,
            pending: self.reader@,
            line: match self.line {
                Some(line) => Some(line@),
                None => None,
            },
            header: self.header@,
        }
    }
}

impl RequestParser {
    /// A parser before any byte.
    pub fn new() -> (parser: RequestParser)
        ensures
            parser@ == ParserView::start(),
    {
        RequestParser {
            phase: Phase::RequestLine,
            reader: LineReader::new(),
            line: None,
            header: RequestHeader::new(),
        }
    }

    /// How far the parser has come.
    pub fn phase(&self) -> (phase: Phase)
        ensures
            phase == self@.phase,
    {
        self.phase
    }

    /// Whether the parser takes no further byte: the request is complete, or
    /// its request line could not be parsed.
    pub fn is_done(&self) -> (done: bool)
        ensures
            done == self@.is_done(),
    {
        match self.phase {
            Phase::Complete => true,
            Phase::Failed => true,
            _ => false,
        }
    }

    /// Takes in one byte.
    pub fn feed(&mut self, byte: u8)
        ensures
            final(self)@ == old(self)@.fed(byte),
    {
        match self.phase {
            Phase::RequestLine => {
                match self.reader.push(byte) {
                    Some(text) => {
                        match parse_request_line(text.as_str()) {
                            Ok(line) => {
                                self.line = Some(line);
                                self.phase = Phase::Headers;
                            },
                            Err(_) => {
                                self.phase = Phase::Failed;
                            },
                        }
                    },
                    None => {},
                }
            },
            Phase::Headers => {
                match self.reader.push(byte) {
                    Some(text) => {
                        if text.as_str().is_empty() {
                            self.phase = Phase::Complete;
                            assert(self@.pending =~= old(self)@.pending);
                        } else {
                            self.header.apply_line(text.as_str());
                        }
                    },
                    None => {},
                }
            },
            _ => {},
        }
    }

    /// Hands out what the parser has arrived at: the request, with the
    /// address of the peer added, or the reason why there is none.
    pub fn finish(self, remote: RemoteAddr) -> (r: Result<RequestInfo, ParseError>)
        ensures
            parsed_view(r) == self@.outcome(),
            r matches Ok(info) ==> info@.remote == remote@,
    {
        match self.phase {
            Phase::Complete => match self.line {
                Some(line) => Ok(RequestInfo::new(remote, line, self.header)),
                None => Err(ParseError::Incomplete),
            },
            Phase::Failed => Err(ParseError::MalformedRequestLine),
            _ => Err(ParseError::Incomplete),
        }
    }
}

/// The state that a parser is in after the bytes `bytes`, told from the lines
/// that they hold.
pub open spec fn state_of(bytes: Seq<u8>) -> ParserView {
    let lines = lines_of(bytes);
    if lines.len() == 0 {
        ParserView {
            phase: Phase::RequestLine,
            pending: pending_of(bytes),
            line: None,
            header: HeaderView::blank(),
        }
    } else {
        match request_line_of(lines[0]) {
            None => ParserView {
                phase: Phase::Failed,
                pending: Seq::empty(),
                line: None,
                header: HeaderView::blank(),
            },
            Some(line) => {
                let rest = lines.drop_first();
                if occurs(rest, Seq::<char>::empty()) {
                    ParserView {
                        phase: Phase::Complete,
                        pending: Seq::empty(),
                        line: Some(line),
                        header: HeaderView::blank().with_lines(before(rest, Seq::<char>::empty())),
                    }
                } else {
                    ParserView {
                        phase: Phase::Headers,
                        pending: pending_of(bytes),
                        line: Some(line),
                        header: HeaderView::blank().with_lines(rest),
                    }
                }
            },
        }
    }
}

/// A carriage return adds the pending line to the finished ones; any other
/// byte leaves the finished lines as they are and goes to the pending one.
pub proof fn lemma_lines_push(bytes: Seq<u8>, byte: u8)
    ensures
        byte == CR ==> lines_of(bytes.push(byte)) == lines_of(bytes).push(pending_of(bytes))
            && pending_of(bytes.push(byte)) == Seq::<char>::empty(),
        byte != CR ==> lines_of(bytes.push(byte)) == lines_of(bytes) && pending_of(
            bytes.push(byte),
        ) == pending_after(pending_of(bytes), byte),
{
    let pieces = split(bytes, CR);
    lemma_split_first(bytes, CR);
    if byte == CR {
        lemma_split_push_same(bytes, CR);
        assert(pieces.push(Seq::empty()).drop_last() =~= pieces);
        assert(lines_of(bytes.push(byte)) =~= lines_of(bytes).push(pending_of(bytes)));
    } else {
        lemma_split_push_other(bytes, CR, byte);
        let longer = pieces.drop_last().push(pieces.last().push(byte));
        assert(longer.drop_last() =~= pieces.drop_last());
        lemma_line_text_push(pieces.last(), byte);
    }
}

/// The first finished line is the text of what stands before the first
/// carriage return; bytes without a carriage return hold no finished line.
pub proof fn lemma_first_line(bytes: Seq<u8>)
    ensures
        occurs(bytes, CR) ==> lines_of(bytes).len() >= 1 && lines_of(bytes)[0] == line_text(
            before(bytes, CR),
        ),
        !occurs(bytes, CR) ==> lines_of(bytes).len() == 0 && pending_of(bytes) == line_text(bytes),
{
    lemma_split_first(bytes, CR);
}

/// Where the first empty line stands after one more line.
proof fn lemma_first_empty_push(rest: Seq<Seq<char>>, line: Seq<char>)
    ensures
        occurs(rest, Seq::<char>::empty()) ==> occurs(rest.push(line), Seq::<char>::empty())
            && before(rest.push(line), Seq::<char>::empty()) == before(
            rest,
            Seq::<char>::empty(),
        ),
        !occurs(rest, Seq::<char>::empty()) && line.len() == 0 ==> occurs(
            rest.push(line),
            Seq::<char>::empty(),
        ) && before(rest.push(line), Seq::<char>::empty()) == rest,
        !occurs(rest, Seq::<char>::empty()) && line.len() != 0 ==> !occurs(
            rest.push(line),
            Seq::<char>::empty(),
        ),
{
    let blank = Seq::<char>::empty();
    let longer = rest.push(line);
    lemma_index_of(rest, blank);
    if occurs(rest, blank) {
        lemma_index_of_unique(longer, blank, index_of(rest, blank));
        assert(before(longer, blank) =~= before(rest, blank));
    } else if line.len() == 0 {
        assert(line =~= blank);
        lemma_index_of_unique(longer, blank, rest.len() as int);
        assert(before(longer, blank) =~= rest);
    } else {
        lemma_index_of_unique(longer, blank, longer.len() as int);
    }
}

/// One more byte takes the state told from the lines where it takes the
/// parser.
pub proof fn lemma_state_step(bytes: Seq<u8>, byte: u8)
    ensures
        state_of(bytes.push(byte)) == state_of(bytes).fed(byte),
{
    lemma_lines_push(bytes, byte);
    if byte == CR {
        let blank = Seq::<char>::empty();
        let lines = lines_of(bytes);
        let line = pending_of(bytes);
        let longer = lines.push(line);
        if lines.len() == 0 {
            assert(longer[0] == line);
            assert(longer.drop_first() =~= Seq::<Seq<char>>::empty());
            lemma_index_of(longer.drop_first(), blank);
        } else {
            let rest = lines.drop_first();
            assert(longer[0] == lines[0]);
            assert(longer.drop_first() =~= rest.push(line));
            assert(rest.push(line).drop_last() =~= rest);
            lemma_first_empty_push(rest, line);
            if line.len() == 0 {
                assert(line =~= blank);
            }
        }
    }
}

/// Handing the parser a run of bytes one at a time brings it to the state
/// that the lines of the run tell, and so to the request that they hold.
pub proof fn lemma_parser_reads_lines(bytes: Seq<u8>)
    ensures
        ParserView::start().fed_all(bytes) == state_of(bytes),
        ParserView::start().fed_all(bytes).outcome() == request_of(lines_of(bytes)),
    decreases bytes.len(),
{
    if bytes.len() == 0 {
        assert(split(bytes, CR) =~= seq![bytes]);
        assert(lines_of(bytes) =~= Seq::<Seq<char>>::empty());
    } else {
        lemma_parser_reads_lines(bytes.drop_last());
        lemma_state_step(bytes.drop_last(), bytes.last());
        assert(bytes.drop_last().push(bytes.last()) =~= bytes);
    }
}

/// A parser that is done stays as it is, whatever bytes follow.
pub proof fn lemma_done_stays(state: ParserView, bytes: Seq<u8>)
    requires
        state.is_done(),
    ensures
        state.fed_all(bytes) == state,
    decreases bytes.len(),
{
    if bytes.len() > 0 {
        lemma_done_stays(state, bytes.drop_last());
    }
}

/// Handing over two runs of bytes one after the other is handing over both
/// as one.
pub proof fn lemma_fed_all_concat(state: ParserView, first: Seq<u8>, second: Seq<u8>)
    ensures
        state.fed_all(first + second) == state.fed_all(first).fed_all(second),
    decreases second.len(),
{
    if second.len() == 0 {
        assert(first + second =~= first);
    } else {
        lemma_fed_all_concat(state, first, second.drop_last());
        assert((first + second).drop_last() =~= first + second.drop_last());
    }
}

/// Parses the request that `input` holds, and adds the address of the peer.
/// Bytes after the end of the request are ignored.
pub fn parse_request(input: &[u8], remote: RemoteAddr) -> (r: Result<RequestInfo, ParseError>)
    ensures
        parsed_view(r) == request_of(lines_of(input@)),
        r matches Ok(info) ==> info@.remote == remote@,
{
    let mut parser = RequestParser::new();
    let mut i: usize = 0;
    assert(input@.take(0) =~= Seq::<u8>::empty());
    while i < input.len() && !parser.is_done()
        invariant
            i <= input.len(),
            parser@ == ParserView::start().fed_all(input@.take(i as int)),
        decreases input.len() - i,
    {
        parser.feed(input[i]);
        assert(input@.take(i + 1).drop_last() =~= input@.take(i as int));
        i += 1;
    }
    proof {
        let head = input@.take(i as int);
        let tail = input@.skip(i as int);
        assert(head + tail =~= input@);
        lemma_fed_all_concat(ParserView::start(), head, tail);
        if parser@.is_done() {
            lemma_done_stays(parser@, tail);
        } else {
            assert(tail =~= Seq::<u8>::empty());
        }
        lemma_parser_reads_lines(input@);
    }
    parser.finish(remote)
}

} // verus!
