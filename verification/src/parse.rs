//! The whole pipeline: request line, header block, body, and resolution of
//! the target.

use crate::error::{ParseError, ParseErrorView};
use crate::header_block::{
    after_header_block,
    collect_headers,
    header_lines,
    header_of_bytes,
    parse_headers,
};
use crate::method_line::{method_line_of_bytes, parse_method_line};
use crate::reader::{
    after_first_line,
    first_line,
    lemma_first_line_of_last_line,
    lemma_first_line_of_lines,
    LineReader,
    LINE_FEED,
};
use crate::request::{view_of, HttpRequest, HttpRequestView};
use crate::target::{resolved, with_meta};
use vstd::prelude::*;

verus! {

/// The bytes that follow the request line and the header block of `input`:
/// the body, as it is.
pub open spec fn body_of(input: Seq<u8>) -> Seq<u8> {
    after_header_block(after_first_line(input))
}

/// The request that `input` holds, before its target is resolved. The first
/// line is the request line, the header block follows, and everything after
/// the header block is the body.
pub open spec fn unresolved_request_of(input: Seq<u8>) -> Result<HttpRequestView, ParseErrorView> {
    match method_line_of_bytes(first_line(input)) {
        Ok(method_line) => match collect_headers(
            header_lines(after_first_line(input)),
            Map::<Seq<char>, Seq<char>>::empty(),
        ) {
            Ok(headers) => Ok(
                HttpRequestView { method_line, headers, body: body_of(input), meta: None },
            ),
            Err(e) => Err(e),
        },
        Err(e) => Err(e),
    }
}

/// The request that `input` holds, with its target resolved.
pub open spec fn request_of(input: Seq<u8>) -> Result<HttpRequestView, ParseErrorView> {
    match unresolved_request_of(input) {
        Ok(req) => resolved(req),
        Err(e) => Err(e),
    }
}

/// The bytes of a header block that consists of `lines`: each line, followed
/// by a line feed.
pub open spec fn header_block_bytes(lines: Seq<Seq<u8>>) -> Seq<u8>
    decreases lines.len(),
{
    if lines.len() == 0 {
        Seq::empty()
    } else {
        lines[0] + seq![LINE_FEED] + header_block_bytes(lines.drop_first())
    }
}

/// Whether `lines` can be the lines of a header block: none is empty, none
/// holds a line feed, and each stands for a header.
pub open spec fn are_header_lines(lines: Seq<Seq<u8>>) -> bool {
    forall|i: int|
        0 <= i < lines.len() ==> (#[trigger] lines[i]).len() > 0 && !lines[i].contains(LINE_FEED)
            && header_of_bytes(lines[i]) is Ok
}

/// The layout of a header block: where header lines are followed by an empty
/// line, the block consists of exactly those lines, and what follows the
/// empty line is left for the body, byte for byte. Where they run up to the
/// end of the input, the block consists of those lines and nothing is left.
pub proof fn law_header_block_layout(lines: Seq<Seq<u8>>, body: Seq<u8>)
    requires
        are_header_lines(lines),
    ensures
        header_lines(header_block_bytes(lines) + seq![LINE_FEED] + body) == lines,
        after_header_block(header_block_bytes(lines) + seq![LINE_FEED] + body) == body,
        header_lines(header_block_bytes(lines)) == lines,
        after_header_block(header_block_bytes(lines)) == Seq::<u8>::empty(),
    decreases lines.len(),
{
    let ended = header_block_bytes(lines) + seq![LINE_FEED] + body;
    let open_ended = header_block_bytes(lines);
    if lines.len() == 0 {
        assert(ended =~= Seq::<u8>::empty() + seq![LINE_FEED] + body);
        lemma_first_line_of_lines(Seq::<u8>::empty(), body);
        lemma_first_line_of_last_line(Seq::<u8>::empty());
        assert(header_lines(ended) =~= lines);
        assert(header_lines(open_ended) =~= lines);
    } else {
        let rest = lines.drop_first();
        assert(lines[0].len() > 0 && !lines[0].contains(LINE_FEED) && header_of_bytes(lines[0]) is Ok);
        assert forall|i: int| 0 <= i < rest.len() implies (#[trigger] rest[i]).len() > 0
            && !rest[i].contains(LINE_FEED) && header_of_bytes(rest[i]) is Ok by {
            assert(rest[i] == lines[i + 1]);
        }
        law_header_block_layout(rest, body);
        let tail = header_block_bytes(rest) + seq![LINE_FEED] + body;
        assert(ended =~= lines[0] + seq![LINE_FEED] + tail);
        lemma_first_line_of_lines(lines[0], tail);
        lemma_first_line_of_lines(lines[0], header_block_bytes(rest));
        assert(header_lines(ended) =~= lines);
        assert(header_lines(open_ended) =~= lines);
    }
}

/// The layout of a request: a request line, a line feed, the header lines
/// with a line feed each, an empty line, and the body. Such an input stands
/// for the request that the request line, the header lines and the body
/// stand for, and the body is taken over byte for byte.
pub proof fn law_request_layout(request_line: Seq<u8>, lines: Seq<Seq<u8>>, body: Seq<u8>)
    requires
        !request_line.contains(LINE_FEED),
        are_header_lines(lines),
    ensures
        ({
            let input = request_line + seq![LINE_FEED] + header_block_bytes(lines) + seq![
                LINE_FEED,
            ] + body;
            &&& body_of(input) == body
            &&& unresolved_request_of(input) == match method_line_of_bytes(request_line) {
                Ok(method_line) => match collect_headers(
                    lines,
                    Map::<Seq<char>, Seq<char>>::empty(),
                ) {
                    Ok(headers) => Ok::<HttpRequestView, ParseErrorView>(
                        HttpRequestView { method_line, headers, body, meta: None },
                    ),
                    Err(e) => Err(e),
                },
                Err(e) => Err(e),
            }
        }),
{
    let block = header_block_bytes(lines) + seq![LINE_FEED] + body;
    let input = request_line + seq![LINE_FEED] + header_block_bytes(lines) + seq![LINE_FEED]
        + body;
    assert(input =~= request_line + seq![LINE_FEED] + block);
    lemma_first_line_of_lines(request_line, block);
    law_header_block_layout(lines, body);
}

/// Capturing the body is repeatable: inputs that hold the same bytes give
/// the same body, and the same request or the same error.
pub proof fn law_body_capture_is_repeatable(first: Seq<u8>, second: Seq<u8>)
    requires
        first.len() == second.len(),
        forall|i: int| 0 <= i < first.len() ==> first[i] == second[i],
    ensures
        body_of(first) == body_of(second),
        request_of(first) == request_of(second),
{
    assert(first =~= second);
}

/// The body of a parsed request is what follows the header block in the
/// input; resolving the target does not touch it.
pub proof fn law_body_is_kept(input: Seq<u8>)
    requires
        request_of(input) is Ok,
    ensures
        request_of(input)->Ok_0.body == body_of(input),
{
}

/// What reading a request leaves unread of `input`: nothing where the read
/// succeeds, and otherwise what follows the line that it failed on.
pub open spec fn left_unread(input: Seq<u8>) -> Seq<u8> {
    if method_line_of_bytes(first_line(input)) is Err {
        after_first_line(input)
    } else if unresolved_request_of(input) is Err {
        body_of(input)
    } else {
        Seq::empty()
    }
}

/// Reads a request from `reader`: request line, header block and body. The
/// target is left as written.
pub fn read_request(reader: &mut LineReader) -> (r: Result<HttpRequest, ParseError>)
    ensures
        view_of(r) == unresolved_request_of(old(reader).remaining()),
        final(reader).remaining() == left_unread(old(reader).remaining()),
{
    let method_line = match parse_method_line(reader) {
        Ok(method_line) => method_line,
        Err(e) => {
            return Err(e);
        },
    };
    let headers = match parse_headers(reader) {
        Ok(headers) => headers,
        Err(e) => {
            return Err(e);
        },
    };
    let body = reader.read_to_end();
    Ok(HttpRequest { method_line, headers, body, meta: None })
}

/// Parses the request that `input` holds and resolves its target.
pub fn parse_http_request(input: Vec<u8>) -> (r: Result<HttpRequest, ParseError>)
    ensures
        view_of(r) == request_of(input@),
{
    let mut reader = LineReader::new(input);
    match read_request(&mut reader) {
        Ok(req) => with_meta(req),
        Err(e) => Err(e),
    }
}

} // verus!
