//! The request line: `METHOD TARGET [VERSION]`, separated by single spaces.

use crate::error::{ParseError, ParseErrorView};
use crate::reader::{first_line, after_first_line, text_of, LineReader};
use crate::request::{view_of, MethodLine, MethodLineView};
use crate::text::{join, lemma_split_join, lemma_split_pieces, split, split_on, texts};
use vstd::prelude::*;

verus! {

/// The protocol version of a request line that names none.
pub open spec fn default_version() -> Seq<char> {
    "HTTP/1.1"@
}

/// What a request line stands for. A line of three tokens gives method,
/// target and version as written; a line of two tokens gives method and
/// target, and the default version; any other line is malformed.
pub open spec fn method_line_of(line: Seq<char>) -> Result<MethodLineView, ParseErrorView> {
    let parts = split(line, ' ');
    if parts.len() == 3 {
        Ok(MethodLineView { method: parts[0], path: parts[1], http_version: parts[2] })
    } else if parts.len() == 2 {
        Ok(MethodLineView { method: parts[0], path: parts[1], http_version: default_version() })
    } else {
        Err(ParseErrorView::MalformedRequestLine(line))
    }
}

/// What the bytes of a request line stand for.
pub open spec fn method_line_of_bytes(line: Seq<u8>) -> Result<MethodLineView, ParseErrorView> {
    match text_of(line) {
        Ok(text) => method_line_of(text),
        Err(e) => Err(e),
    }
}

/// A request line of three tokens stands for exactly those tokens: method,
/// target and version come back as they were written.
pub proof fn law_three_tokens_round_trip(method: Seq<char>, target: Seq<char>, version: Seq<char>)
    requires
        !method.contains(' '),
        !target.contains(' '),
        !version.contains(' '),
    ensures
        join(seq![method, target, version], ' ') == method + seq![' '] + target + seq![' ']
            + version,
        method_line_of(join(seq![method, target, version], ' ')) == Ok::<
            MethodLineView,
            ParseErrorView,
        >(MethodLineView { method, path: target, http_version: version }),
{
    let tokens = seq![method, target, version];
    lemma_split_join(tokens, ' ');
    assert(tokens.drop_first() =~= seq![target, version]);
    assert(seq![target, version].drop_first() =~= seq![version]);
    assert(join(seq![version], ' ') == version);
    assert(join(seq![target, version], ' ') == target + seq![' '] + version);
    assert(join(tokens, ' ') =~= method + seq![' '] + target + seq![' '] + version);
}

/// A request line of two tokens stands for those tokens and the default
/// version.
pub proof fn law_two_tokens_default_version(method: Seq<char>, target: Seq<char>)
    requires
        !method.contains(' '),
        !target.contains(' '),
    ensures
        join(seq![method, target], ' ') == method + seq![' '] + target,
        method_line_of(join(seq![method, target], ' ')) == Ok::<MethodLineView, ParseErrorView>(
            MethodLineView { method, path: target, http_version: default_version() },
        ),
{
    let tokens = seq![method, target];
    lemma_split_join(tokens, ' ');
    assert(tokens.drop_first() =~= seq![target]);
    assert(join(seq![target], ' ') == target);
}

/// A request line of any other number of tokens than two or three is
/// malformed, and the error holds the line.
pub proof fn law_wrong_token_count(tokens: Seq<Seq<char>>)
    requires
        tokens.len() >= 1,
        tokens.len() != 2,
        tokens.len() != 3,
        forall|i: int| 0 <= i < tokens.len() ==> !(#[trigger] tokens[i]).contains(' '),
    ensures
        method_line_of(join(tokens, ' ')) == Err::<MethodLineView, ParseErrorView>(
            ParseErrorView::MalformedRequestLine(join(tokens, ' ')),
        ),
{
    lemma_split_join(tokens, ' ');
}

/// Method and target of a parsed request line hold no space, and neither
/// does its version.
pub proof fn law_tokens_hold_no_space(line: Seq<char>)
    requires
        method_line_of(line) is Ok,
    ensures
        !method_line_of(line)->Ok_0.method.contains(' '),
        !method_line_of(line)->Ok_0.path.contains(' '),
        !method_line_of(line)->Ok_0.http_version.contains(' '),
{
    lemma_split_pieces(line, ' ');
    let parts = split(line, ' ');
    assert(!parts[0].contains(' '));
    assert(!parts[1].contains(' '));
    if parts.len() == 3 {
        assert(!parts[2].contains(' '));
    } else {
        reveal_strlit("HTTP/1.1");
        let v = default_version();
        if v.contains(' ') {
            let k = choose|k: int| 0 <= k < v.len() && v[k] == ' ';
            assert(v[k] != ' ');
        }
    }
}

/// Parses a request line.
pub fn parse_request_line(line: &str) -> (r: Result<MethodLine, ParseError>)
    ensures
        view_of(r) == method_line_of(line@),
{
    let parts = split_on(line, ' ');
    proof {
        assert(texts(parts@).len() == parts@.len());
    }
    if parts.len() != 2 && parts.len() != 3 {
        return Err(ParseError::MalformedRequestLine(line.to_owned()));
    }
    proof {
        assert(texts(parts@)[0] == parts@[0]@);
        assert(texts(parts@)[1] == parts@[1]@);
    }
    let http_version: String = if parts.len() == 3 {
        proof {
            assert(texts(parts@)[2] == parts@[2]@);
        }
        parts[2].clone()
    } else {
        "HTTP/1.1".to_owned()
    };
    Ok(MethodLine { method: parts[0].clone(), path: parts[1].clone(), http_version })
}

/// Reads the request line from `reader` and parses it.
pub fn parse_method_line(reader: &mut LineReader) -> (r: Result<MethodLine, ParseError>)
    ensures
        final(reader).remaining() == after_first_line(old(reader).remaining()),
        view_of(r) == method_line_of_bytes(first_line(old(reader).remaining())),
{
    match reader.read_line() {
        Ok(line) => parse_request_line(line.as_str()),
        Err(e) => Err(e),
    }
}

} // verus!
