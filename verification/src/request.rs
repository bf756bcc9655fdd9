//! Requests. The request line of an HTTP/1.0-style request holds method,
//! request target and protocol version; the target is taken apart into path,
//! query string and query parameters. A whole request is its request line
//! together with the recognised headers and the address of the peer.

use crate::header::{HeaderView, RequestHeader};
use crate::remote::{RemoteAddr, RemoteAddrView};
use crate::text::{
    after, before, find, lemma_split_first, lemma_split_some, occurs, split, string_of, to_chars,
};
use vstd::hash_map::StringHashMap;
use vstd::prelude::*;

verus! {

/// Why a request could not be parsed.
#[derive(Debug, Clone, Copy, PartialEq, Eq)]
pub enum ParseError {
    /// The request line holds fewer than three tokens.
    MalformedRequestLine,
    /// The input ends before the empty line that closes the header section,
    /// as when the peer goes away in the middle of a request.
    Incomplete,
}

/// A parsed request line.
pub struct RequestLine {
    pub method: String,
    pub request_uri: String,
    pub protocol_version: String,
    /// The request target up to its first `?`.
    pub request_script: String,
    /// The request target after its first `?`.
    pub query_string: String,
    /// The query parameters, by key.
    pub get_argv: StringHashMap<String>,
}

/// What a `RequestLine` holds, as mathematical values.
pub struct RequestLineView {
    pub method: Seq<char>,
    pub request_uri: Seq<char>,
    pub protocol_version: Seq<char>,
    pub request_script: Seq<char>,
    pub query_string: Seq<char>,
    pub get_argv: Map<Seq<char>, Seq<char>>,
}

/// The parameters that a map holds, each value as its characters.
pub open spec fn params_view(m: StringHashMap<String>) -> Map<Seq<char>, Seq<char>> {
    Map::new(|k: Seq<char>| m@.contains_key(k), |k: Seq<char>| m@[k]@)
}

impl View for RequestLine {
    type V = RequestLineView;

    open spec fn view(&self) -> RequestLineView {
        RequestLineView {
            method: self.method@,
            request_uri: self.request_uri@,
            protocol_version: self.protocol_version@,
            request_script: self.request_script@,
            query_string: self.query_string@,
            get_argv: params_view(self.get_argv),
        }
    }
}

/// The key of one `key=value` segment: what stands before its first `=`.
pub open spec fn pair_key(segment: Seq<char>) -> Seq<char> {
    before(segment, '=')
}

/// The value of one `key=value` segment: what stands after its first `=`,
/// and nothing where the segment holds no `=`.
pub open spec fn pair_value(segment: Seq<char>) -> Seq<char> {
    after(segment, '=')
}

/// `acc` after the segments were entered into it one by one, first to last,
/// so that a later segment replaces an earlier one with the same key.
pub open spec fn collect_pairs(segments: Seq<Seq<char>>, acc: Map<Seq<char>, Seq<char>>) -> Map<
    Seq<char>,
    Seq<char>,
>
    decreases segments.len(),
{
    if segments.len() == 0 {
        acc
    } else {
        collect_pairs(
            segments.drop_first(),
            acc.insert(pair_key(segments[0]), pair_value(segments[0])),
        )
    }
}

/// The parameters of a query string: its `&`-separated segments, each entered
/// under its key.
pub open spec fn query_map(query: Seq<char>) -> Map<Seq<char>, Seq<char>> {
    collect_pairs(split(query, '&'), Map::empty())
}

/// The parameters of a request target: those of its query string where it has
/// a `?`, none where it has not.
pub open spec fn target_params(target: Seq<char>) -> Map<Seq<char>, Seq<char>> {
    if occurs(target, '?') {
        query_map(after(target, '?'))
    } else {
        Map::empty()
    }
}

/// What a request line means: its first three space-separated tokens are
/// method, request target and protocol version; a line with fewer has no
/// meaning.
pub open spec fn request_line_of(line: Seq<char>) -> Option<RequestLineView> {
    let tokens = split(line, ' ');
    if tokens.len() < 3 {
        None
    } else {
        Some(
            RequestLineView {
                method: tokens[0],
                request_uri: tokens[1],
                protocol_version: tokens[2],
                request_script: before(tokens[1], '?'),
                query_string: after(tokens[1], '?'),
                get_argv: target_params(tokens[1]),
            },
        )
    }
}

/// Segments leave alone what stands under a key that none of them has.
pub proof fn lemma_other_keys_stay(
    segments: Seq<Seq<char>>,
    acc: Map<Seq<char>, Seq<char>>,
    key: Seq<char>,
)
    requires
        forall|j: int| 0 <= j < segments.len() ==> pair_key(#[trigger] segments[j]) != key,
    ensures
        collect_pairs(segments, acc).contains_key(key) == acc.contains_key(key),
        collect_pairs(segments, acc)[key] == acc[key],
    decreases segments.len(),
{
    if segments.len() > 0 {
        let rest = segments.drop_first();
        assert(pair_key(segments[0]) != key);
        assert forall|j: int| 0 <= j < rest.len() implies pair_key(#[trigger] rest[j]) != key by {
            assert(rest[j] == segments[j + 1]);
        }
        lemma_other_keys_stay(rest, acc.insert(pair_key(segments[0]), pair_value(segments[0])), key);
    }
}

/// The last segment with a key wins: the parameters hold under the key of a
/// segment the value of that segment, unless a later segment has the same
/// key.
pub proof fn lemma_last_segment_wins(
    segments: Seq<Seq<char>>,
    acc: Map<Seq<char>, Seq<char>>,
    i: int,
)
    requires
        0 <= i < segments.len(),
        forall|j: int|
            i < j < segments.len() ==> pair_key(#[trigger] segments[j]) != pair_key(segments[i]),
    ensures
        collect_pairs(segments, acc).contains_key(pair_key(segments[i])),
        collect_pairs(segments, acc)[pair_key(segments[i])] == pair_value(segments[i]),
    decreases segments.len(),
{
    let rest = segments.drop_first();
    let entered = acc.insert(pair_key(segments[0]), pair_value(segments[0]));
    if i == 0 {
        assert forall|j: int| 0 <= j < rest.len() implies pair_key(#[trigger] rest[j])
            != pair_key(segments[0]) by {
            assert(rest[j] == segments[j + 1]);
        }
        lemma_other_keys_stay(rest, entered, pair_key(segments[0]));
    } else {
        assert(rest[i - 1] == segments[i]);
        assert forall|j: int| i - 1 < j < rest.len() implies pair_key(#[trigger] rest[j])
            != pair_key(rest[i - 1]) by {
            assert(rest[j] == segments[j + 1]);
        }
        lemma_last_segment_wins(rest, entered, i - 1);
    }
}

/// Enters the segments of the query string `v[from..to]` into a fresh map.
fn query_params(v: &Vec<char>, from: usize, to: usize) -> (params: StringHashMap<String>)
    requires
        from <= to <= v.len(),
    ensures
        params_view(params) == query_map(v@.subrange(from as int, to as int)),
{
    let mut params: StringHashMap<String> = StringHashMap::new();
    let mut pos: usize = from;
    assert(params_view(params) =~= Map::empty());
    loop
        invariant_except_break
            collect_pairs(split(v@.subrange(pos as int, to as int), '&'), params_view(params))
                == query_map(v@.subrange(from as int, to as int)),
        invariant
            from <= pos <= to <= v.len(),
        ensures
            params_view(params) == query_map(v@.subrange(from as int, to as int)),
        decreases to - pos,
    {
        let ghost rest = v@.subrange(pos as int, to as int);
        let ghost acc = params_view(params);
        let amp = find(v, '&', pos, to);
        let eq = find(v, '=', pos, amp);
        let key = string_of(v, pos, eq);
        let value = if eq < amp {
            string_of(v, eq + 1, amp)
        } else {
            String::new()
        };
        proof {
            lemma_split_first(rest, '&');
            assert(key@ == pair_key(before(rest, '&')));
            assert(value@ == pair_value(before(rest, '&')));
        }
        params.insert(key, value);
        assert(params_view(params) =~= acc.insert(key@, value@));
        if amp >= to {
            proof {
                let last = split(rest, '&');
                assert(last =~= seq![rest]);
                assert(before(rest, '&') =~= rest);
                assert(last.drop_first().len() == 0);
                assert(collect_pairs(last, acc) == collect_pairs(
                    last.drop_first(),
                    acc.insert(key@, value@),
                ));
            }
            break ;
        }
        proof {
            lemma_split_some(rest, '&');
        }
        pos = amp + 1;
    }
    params
}

/// Parses a query string into its parameters.
pub fn parse_query(query: &str) -> (params: StringHashMap<String>)
    ensures
        params_view(params) == query_map(query@),
{
    let v = to_chars(query);
    assert(v@.subrange(0, v@.len() as int) =~= v@);
    query_params(&v, 0, v.len())
}

/// Parses a request line.
pub fn parse_request_line(line: &str) -> (r: Result<RequestLine, ParseError>)
    ensures
        match r {
            Ok(parsed) => request_line_of(line@) == Some(parsed@),
            Err(e) => e == ParseError::MalformedRequestLine && request_line_of(line@) is None,
        },
{
    let v = to_chars(line);
    let n = v.len();
    let ghost rest1 = after(line@, ' ');
    let ghost rest2 = after(rest1, ' ');
    proof {
        assert(v@.subrange(0, n as int) =~= line@);
        lemma_split_first(line@, ' ');
        lemma_split_first(rest1, ' ');
        lemma_split_first(rest2, ' ');
        if occurs(line@, ' ') {
            lemma_split_some(line@, ' ');
            if occurs(rest1, ' ') {
                lemma_split_some(rest1, ' ');
            }
        }
    }
    let method_end = find(&v, ' ', 0, n);
    if method_end >= n {
        return Err(ParseError::MalformedRequestLine);
    }
    let target_end = find(&v, ' ', method_end + 1, n);
    if target_end >= n {
        return Err(ParseError::MalformedRequestLine);
    }
    let version_end = find(&v, ' ', target_end + 1, n);
    let path_end = find(&v, '?', method_end + 1, target_end);
    let method = string_of(&v, 0, method_end);
    let request_uri = string_of(&v, method_end + 1, target_end);
    let protocol_version = string_of(&v, target_end + 1, version_end);
    let request_script = string_of(&v, method_end + 1, path_end);
    let parsed = if path_end < target_end {
        RequestLine {
            method,
            request_uri,
            protocol_version,
            request_script,
            query_string: string_of(&v, path_end + 1, target_end),
            get_argv: query_params(&v, path_end + 1, target_end),
        }
    } else {
        let get_argv: StringHashMap<String> = StringHashMap::new();
        assert(params_view(get_argv) =~= Map::empty());
        RequestLine {
            method,
            request_uri,
            protocol_version,
            request_script,
            query_string: String::new(),
            get_argv,
        }
    };
    proof {
        let tokens = split(line@, ' ');
        assert(tokens[1] == split(rest1, ' ')[0]);
        assert(tokens[2] == split(rest2, ' ')[0]);
        assert(request_line_of(line@)->0 == parsed@);
    }
    Ok(parsed)
}

/// A request as the handler sees it.
pub struct RequestInfo {
    pub remote_ip: String,
    pub remote_port: u16,
    pub method: String,
    pub request_uri: String,
    pub protocol_version: String,
    /// The request target up to its first `?`.
    pub request_script: String,
    /// The request target after its first `?`.
    pub query_string: String,
    /// The query parameters, by key.
    pub get_argv: StringHashMap<String>,
    pub header: RequestHeader,
}

/// What a `RequestInfo` holds, as mathematical values.
pub struct RequestInfoView {
    pub remote: RemoteAddrView,
    pub line: RequestLineView,
    pub header: HeaderView,
}

impl View for RequestInfo {
    type V = RequestInfoView;

    open spec fn view(&self) -> RequestInfoView {
        RequestInfoView {
            remote: RemoteAddrView { ip: self.remote_ip@, port: self.remote_port },
            line: RequestLineView {
                method: self.method@,
                request_uri: self.request_uri@,
                protocol_version: self.protocol_version@,
                request_script: self.request_script@,
                query_string: self.query_string@,
                get_argv: params_view(self.get_argv),
            },
            header: self.header@,
        }
    }
}

impl RequestInfo {
    /// Puts a request together from its parts.
    pub fn new(remote: RemoteAddr, line: RequestLine, header: RequestHeader) -> (info: RequestInfo)
        ensures
            info@ == (RequestInfoView { remote: remote@, line: line@, header: header@ }),
    {
        RequestInfo {
            remote_ip: remote.ip,
            remote_port: remote.port,
            method: line.method,
            request_uri: line.request_uri,
            protocol_version: line.protocol_version,
            request_script: line.request_script,
            query_string: line.query_string,
            get_argv: line.get_argv,
            header,
        }
    }
}

/// What came of parsing a request, as mathematical values.
pub open spec fn parsed_view(parsed: Result<RequestInfo, ParseError>) -> Result<
    (RequestLineView, HeaderView),
    ParseError,
> {
    match parsed {
        Ok(info) => Ok((info@.line, info@.header)),
        Err(e) => Err(e),
    }
}

} // verus!
