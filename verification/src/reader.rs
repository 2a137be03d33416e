//! Reading a request line by line from a buffer of bytes, and then the rest
//! of the buffer as it is.

use crate::error::{ParseError, ParseErrorView};
use crate::text::{find_byte, first_index_of, lemma_first_index_of, lemma_first_index_of_unique};
use vstd::prelude::*;
use vstd::utf8::{decode_utf8, valid_utf8};

verus! {

/// The byte that ends a line.
pub const LINE_FEED: u8 = 0x0A;

/// Length of the first line of `rest`, its terminator not counted.
pub open spec fn line_end(rest: Seq<u8>) -> int {
    first_index_of(rest, LINE_FEED)
}

/// The first line of `rest`: the bytes up to the first line feed, or all of
/// `rest` when it holds none.
pub open spec fn first_line(rest: Seq<u8>) -> Seq<u8> {
    rest.take(line_end(rest))
}

/// What is left of `rest` once its first line and that line's terminator, if
/// there is one, are taken away.
pub open spec fn after_first_line(rest: Seq<u8>) -> Seq<u8> {
    if 0 <= line_end(rest) < rest.len() {
        rest.skip(line_end(rest) + 1)
    } else {
        Seq::empty()
    }
}

/// The text that a line's bytes stand for. Bytes that are not UTF-8 cannot be
/// read as text.
pub open spec fn text_of(line: Seq<u8>) -> Result<Seq<char>, ParseErrorView> {
    if valid_utf8(line) {
        Ok(decode_utf8(line))
    } else {
        Err(ParseErrorView::IoFailure)
    }
}

/// A line that is followed by a line feed is the first line of the whole,
/// and what follows the line feed is what is left after it.
pub proof fn lemma_first_line_of_lines(line: Seq<u8>, rest: Seq<u8>)
    requires
        !line.contains(LINE_FEED),
    ensures
        first_line(line + seq![LINE_FEED] + rest) == line,
        after_first_line(line + seq![LINE_FEED] + rest) == rest,
{
    let all = line + seq![LINE_FEED] + rest;
    assert forall|j: int| 0 <= j < line.len() implies all[j] != LINE_FEED by {
        assert(all[j] == line[j]);
        if line[j] == LINE_FEED {
            assert(line.contains(LINE_FEED));
        }
    }
    assert(all[line.len() as int] == LINE_FEED);
    lemma_first_index_of_unique(all, LINE_FEED, line.len() as int);
    assert(all.take(line.len() as int) =~= line);
    assert(all.skip(line.len() as int + 1) =~= rest);
}

/// A last line without a line feed is the first line of itself, and nothing
/// is left after it.
pub proof fn lemma_first_line_of_last_line(line: Seq<u8>)
    requires
        !line.contains(LINE_FEED),
    ensures
        first_line(line) == line,
        after_first_line(line) == Seq::<u8>::empty(),
{
    lemma_first_index_of(line, LINE_FEED);
    assert(line.take(line.len() as int) =~= line);
}

/// Decodes `bytes` with `String::from_utf8` of the standard library. The
/// contract claims what its documentation says: the call succeeds exactly on
/// valid UTF-8, and the string then holds the characters that the bytes
/// encode.
#[verifier::external_body]
fn decode_text(bytes: Vec<u8>) -> (r: Option<String>)
    ensures
        match r {
            Some(s) => valid_utf8(bytes@) && s@ == decode_utf8(bytes@),
            None => !valid_utf8(bytes@),
        },
{
    String::from_utf8(bytes).ok()
}

/// A cursor over a buffer of bytes. Lines are read first; what is left is
/// then read in one piece.
#[derive(Debug)]
pub struct LineReader {
    data: Vec<u8>,
    pos: usize,
}

impl LineReader {
    #[verifier::type_invariant]
    spec fn well_formed(self) -> bool {
        self.pos <= self.data.len()
    }

    /// The bytes that have not been read yet.
    pub closed spec fn remaining(self) -> Seq<u8> {
        self.data@.skip(self.pos as int)
    }

    /// A reader at the start of `data`.
    pub fn new(data: Vec<u8>) -> (r: LineReader)
        ensures
            r.remaining() == data@,
    {
        proof {
            assert(data@.skip(0) =~= data@);
        }
        LineReader { data, pos: 0 }
    }

    /// Whether everything has been read.
    pub fn at_end(&self) -> (r: bool)
        ensures
            r == (self.remaining().len() == 0),
    {
        proof {
            use_type_invariant(self);
        }
        self.pos == self.data.len()
    }

    fn copy_range(&self, from: usize, to: usize) -> (out: Vec<u8>)
        requires
            from <= to <= self.data.len(),
        ensures
            out@ == self.data@.subrange(from as int, to as int),
    {
        let mut out: Vec<u8> = Vec::new();
        let mut i: usize = from;
        while i < to
            invariant
                from <= i <= to <= self.data.len(),
                out@ == self.data@.subrange(from as int, i as int),
            decreases to - i,
        {
            out.push(self.data[i]);
            proof {
                assert(out@ =~= self.data@.subrange(from as int, i + 1));
            }
            i = i + 1;
        }
        out
    }

    /// Reads one line and moves past it. The line comes without its
    /// terminator; a last line that has none is returned whole. At the end of
    /// the buffer the line is empty.
    pub fn read_line(&mut self) -> (r: Result<String, ParseError>)
        ensures
            final(self).remaining() == after_first_line(old(self).remaining()),
            match r {
                Ok(line) => text_of(first_line(old(self).remaining())) == Ok::<
                    Seq<char>,
                    ParseErrorView,
                >(line@),
                Err(e) => text_of(first_line(old(self).remaining())) == Err::<
                    Seq<char>,
                    ParseErrorView,
                >(e@),
            },
    {
        proof {
            use_type_invariant(&*self);
            lemma_first_index_of(self.remaining(), LINE_FEED);
        }
        let start: usize = self.pos;
        let end: usize = find_byte(&self.data, start, LINE_FEED);
        let bytes = self.copy_range(start, end);
        let next: usize = if end < self.data.len() {
            end + 1
        } else {
            end
        };
        proof {
            assert(bytes@ =~= first_line(self.remaining()));
            assert(self.data@.skip(next as int) =~= after_first_line(self.remaining()));
        }
        self.pos = next;
        match decode_text(bytes) {
            Some(line) => Ok(line),
            None => Err(ParseError::IoFailure),
        }
    }

    /// Reads everything that is left.
    pub fn read_to_end(&mut self) -> (r: Vec<u8>)
        ensures
            r@ == old(self).remaining(),
            final(self).remaining() == Seq::<u8>::empty(),
    {
        proof {
            use_type_invariant(&*self);
        }
        let out = self.copy_range(self.pos, self.data.len());
        self.pos = self.data.len();
        proof {
            assert(self.data@.skip(self.pos as int) =~= Seq::<u8>::empty());
        }
        out
    }
}

} // verus!
