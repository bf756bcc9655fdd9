//! The address of the peer of a connection, read from its textual form
//! `ip:port`.

use crate::text::{find, lemma_split_first, lemma_split_some, after, split, string_of, to_chars};
use vstd::prelude::*;

verus! {

/// The address of a peer.
#[derive(Debug, PartialEq, Eq)]
pub struct RemoteAddr {
    pub ip: String,
    pub port: u16,
}

/// What a `RemoteAddr` holds, as mathematical values.
pub struct RemoteAddrView {
    pub ip: Seq<char>,
    pub port: u16,
}

impl View for RemoteAddr {
    type V = RemoteAddrView;

    open spec fn view(&self) -> RemoteAddrView {
        RemoteAddrView { ip: self.ip@, port: self.port }
    }
}

/// Whether a character is a decimal digit.
pub open spec fn is_digit(c: char) -> bool {
    '0' <= c <= '9'
}

/// The number that a run of decimal digits stands for.
pub open spec fn number_of(digits: Seq<char>) -> nat
    decreases digits.len(),
{
    if digits.len() == 0 {
        0
    } else {
        (number_of(digits.drop_last()) * 10 + (digits.last() as u32 - '0' as u32)) as nat
    }
}

/// Whether a text consists of decimal digits only.
pub open spec fn all_digits(text: Seq<char>) -> bool {
    forall|i: int| 0 <= i < text.len() ==> is_digit(#[trigger] text[i])
}

/// The port that a text stands for: one or more decimal digits, after an
/// optional `+`, that make a number of at most 65535.
pub open spec fn port_of(text: Seq<char>) -> Option<u16> {
    let digits = if text.len() > 0 && text[0] == '+' {
        text.skip(1)
    } else {
        text
    };
    if digits.len() > 0 && all_digits(digits) && number_of(digits) <= 65535 {
        Some(number_of(digits) as u16)
    } else {
        None
    }
}

/// The address that a text stands for: its first two `:`-separated tokens
/// are the ip and the port. A text with one token, or with a second token
/// that is no port, stands for none.
pub open spec fn remote_addr_of(peer: Seq<char>) -> Option<RemoteAddrView> {
    let tokens = split(peer, ':');
    if tokens.len() < 2 {
        None
    } else {
        match port_of(tokens[1]) {
            Some(port) => Some(RemoteAddrView { ip: tokens[0], port }),
            None => None,
        }
    }
}

/// Digits that follow can only make a number larger.
proof fn lemma_number_grows(digits: Seq<char>, k: int)
    requires
        0 <= k <= digits.len(),
        all_digits(digits),
    ensures
        number_of(digits.take(k)) <= number_of(digits),
    decreases digits.len(),
{
    if k == digits.len() {
        assert(digits.take(k) =~= digits);
    } else {
        let shorter = digits.drop_last();
        assert(is_digit(digits.last()));
        assert forall|i: int| 0 <= i < shorter.len() implies is_digit(#[trigger] shorter[i]) by {
            assert(shorter[i] == digits[i]);
        }
        lemma_number_grows(shorter, k);
        assert(shorter.take(k) =~= digits.take(k));
    }
}

/// Reads the port that `v[from..to]` stands for.
fn port(v: &Vec<char>, from: usize, to: usize) -> (r: Option<u16>)
    requires
        from <= to <= v.len(),
    ensures
        r == port_of(v@.subrange(from as int, to as int)),
{
    let ghost text = v@.subrange(from as int, to as int);
    let start: usize = if from < to && v[from] == '+' {
        from + 1
    } else {
        from
    };
    let ghost digits = v@.subrange(start as int, to as int);
    assert(digits =~= if text.len() > 0 && text[0] == '+' {
        text.skip(1)
    } else {
        text
    });
    if start == to {
        return None;
    }
    let mut value: u32 = 0;
    let mut i: usize = start;
    while i < to
        invariant
            from <= start <= i <= to <= v.len(),
            text == v@.subrange(from as int, to as int),
            digits == v@.subrange(start as int, to as int),
            digits == if text.len() > 0 && text[0] == '+' {
                text.skip(1)
            } else {
                text
            },
            value <= 65535,
            value == number_of(digits.take(i - start)),
            forall|j: int| 0 <= j < i - start ==> is_digit(#[trigger] digits[j]),
        decreases to - i,
    {
        let c = v[i];
        if c < '0' || c > '9' {
            assert(!is_digit(digits[i - start]));
            return None;
        }
        let d: u32 = c as u32 - '0' as u32;
        let next: u32 = value * 10 + d;
        proof {
            let longer = digits.take(i + 1 - start);
            assert(longer.drop_last() =~= digits.take(i - start));
            assert(longer.last() == c);
            assert(next == number_of(longer));
            if next > 65535 && all_digits(digits) {
                lemma_number_grows(digits, i + 1 - start);
            }
        }
        if next > 65535 {
            return None;
        }
        value = next;
        i += 1;
    }
    assert(digits.take(to - start) =~= digits);
    Some(value as u16)
}

/// Reads the address of a peer from its textual form.
pub fn parse_remote_addr(peer: &str) -> (r: Option<RemoteAddr>)
    ensures
        match r {
            Some(addr) => remote_addr_of(peer@) == Some(addr@),
            None => remote_addr_of(peer@) is None,
        },
{
    let v = to_chars(peer);
    let n = v.len();
    proof {
        assert(v@.subrange(0, n as int) =~= peer@);
        lemma_split_first(peer@, ':');
        lemma_split_first(after(peer@, ':'), ':');
        if split(peer@, ':').len() >= 2 {
            lemma_split_some(peer@, ':');
        }
    }
    let colon = find(&v, ':', 0, n);
    if colon >= n {
        return None;
    }
    let end = find(&v, ':', colon + 1, n);
    match port(&v, colon + 1, end) {
        Some(port) => Some(RemoteAddr { ip: string_of(&v, 0, colon), port }),
        None => None,
    }
}

} // verus!
