//! The line reader. A line ends at a carriage return, which is not part of
//! it; line feeds are dropped wherever they stand; every other byte stands
//! for the character with its code.

use crate::text::{before, index_of, lemma_index_of_unique, occurs};
use vstd::prelude::*;

verus! {

/// Carriage return, the byte that ends a line.
pub const CR: u8 = 13;

/// Line feed, the byte that a line never holds.
pub const LF: u8 = 10;

/// The text of a run of bytes: its line feeds dropped, every other byte as
/// the character with its code.
pub open spec fn line_text(bytes: Seq<u8>) -> Seq<char>
    decreases bytes.len(),
{
    if bytes.len() == 0 {
        Seq::empty()
    } else if bytes.last() == LF {
        line_text(bytes.drop_last())
    } else {
        line_text(bytes.drop_last()).push(bytes.last() as char)
    }
}

/// The unfinished line after one more byte.
pub open spec fn pending_after(pending: Seq<char>, byte: u8) -> Seq<char> {
    if byte == CR {
        Seq::empty()
    } else if byte == LF {
        pending
    } else {
        pending.push(byte as char)
    }
}

/// One more byte at the end of a run that is no carriage return changes the
/// text of the run as it changes an unfinished line.
pub proof fn lemma_line_text_push(bytes: Seq<u8>, byte: u8)
    requires
        byte != CR,
    ensures
        line_text(bytes.push(byte)) == pending_after(line_text(bytes), byte),
{
    assert(bytes.push(byte).drop_last() =~= bytes);
}

/// A line reader that is handed one byte at a time. Its view is the text of
/// the line that is not finished yet.
pub struct LineReader {
    pending: String,
}

impl View for LineReader {
    type V = Seq<char>;

    closed spec fn view(&self) -> Seq<char> {
        self.pending@
    }
}

impl LineReader {
    /// A reader at the start of a line.
    pub fn new() -> (reader: LineReader)
        ensures
            reader@ == Seq::<char>::empty(),
    {
        LineReader { pending: String::new() }
    }

    /// Takes in one byte. A carriage return finishes the line, which is
    /// handed out; any other byte hands out nothing.
    pub fn push(&mut self, byte: u8) -> (line: Option<String>)
        ensures
            final(self)@ == pending_after(old(self)@, byte),
            match line {
                Some(text) => byte == CR && text@ == old(self)@,
                None => byte != CR,
            },
    {
        if byte == CR {
            let mut line = String::new();
            core::mem::swap(&mut self.pending, &mut line);
            Some(line)
        } else {
            if byte != LF {
                self.pending.push(byte as char);
            }
            None
        }
    }
}

/// Reads the first line of `input`: the text of what stands before the first
/// carriage return, and the number of bytes up to and including it. There is
/// no line where `input` holds no carriage return.
pub fn read_line(input: &[u8]) -> (r: Option<(String, usize)>)
    ensures
        match r {
            Some((line, used)) => {
                &&& occurs(input@, CR)
                &&& line@ == line_text(before(input@, CR))
                &&& used == index_of(input@, CR) + 1
            },
            None => !occurs(input@, CR),
        },
{
    let mut line = String::new();
    let mut i: usize = 0;
    while i < input.len()
        invariant
            i <= input.len(),
            line@ == line_text(input@.take(i as int)),
            forall|j: int| 0 <= j < i ==> input@[j] != CR,
        decreases input.len() - i,
    {
        let byte = input[i];
        if byte == CR {
            proof {
                lemma_index_of_unique(input@, CR, i as int);
            }
            return Some((line, i + 1));
        }
        if byte != LF {
            line.push(byte as char);
        }
        proof {
            assert(input@.take(i + 1) =~= input@.take(i as int).push(byte));
            lemma_line_text_push(input@.take(i as int), byte);
        }
        i += 1;
    }
    proof {
        lemma_index_of_unique(input@, CR, input@.len() as int);
    }
    None
}

} // verus!
