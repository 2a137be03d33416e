//! The header block: lines of the form `Name: value`, up to the first empty
//! line or the end of the input.

use crate::error::{ParseError, ParseErrorView};
use crate::headers::{Header, HeaderMap};
use crate::reader::{after_first_line, first_line, text_of, LineReader, LINE_FEED};
use crate::request::view_of;
use crate::text::{
    chars_of,
    find_char,
    first_index_of,
    is_whitespace,
    lemma_first_index_of,
    lemma_first_index_of_unique,
    lemma_trim_characterisation,
    substring,
    trim,
    trimmed,
};
use vstd::prelude::*;

verus! {

/// What a header line stands for. The name is what precedes the first colon,
/// as written; the value is what follows it, without surrounding whitespace.
/// A line without a colon is malformed.
pub open spec fn header_of(line: Seq<char>) -> Result<(Seq<char>, Seq<char>), ParseErrorView> {
    let i = first_index_of(line, ':');
    if 0 <= i < line.len() {
        Ok((line.take(i), trim(line.skip(i + 1))))
    } else {
        Err(ParseErrorView::MalformedHeaderLine(line))
    }
}

/// What the bytes of a header line stand for.
pub open spec fn header_of_bytes(line: Seq<u8>) -> Result<(Seq<char>, Seq<char>), ParseErrorView> {
    match text_of(line) {
        Ok(text) => header_of(text),
        Err(e) => Err(e),
    }
}

/// The lines of the header block at the start of `rest`: the lines before
/// the first empty line, or all lines when none is empty.
pub open spec fn header_lines(rest: Seq<u8>) -> Seq<Seq<u8>>
    decreases rest.len(),
    via header_lines_decreases
{
    if first_line(rest).len() == 0 {
        Seq::empty()
    } else {
        seq![first_line(rest)] + header_lines(after_first_line(rest))
    }
}

#[via_fn]
proof fn header_lines_decreases(rest: Seq<u8>) {
    lemma_first_index_of(rest, LINE_FEED);
}

/// The mapping that results from adding the headers of `lines`, in order, to
/// `acc`. The first line that cannot be read as a header decides the error.
pub open spec fn collect_headers(lines: Seq<Seq<u8>>, acc: Map<Seq<char>, Seq<char>>) -> Result<
    Map<Seq<char>, Seq<char>>,
    ParseErrorView,
>
    decreases lines.len(),
{
    if lines.len() == 0 {
        Ok(acc)
    } else {
        match header_of_bytes(lines[0]) {
            Ok(h) => collect_headers(lines.drop_first(), acc.insert(h.0, h.1)),
            Err(e) => Err(e),
        }
    }
}

/// What is left of `rest` once its header block has been read: what follows
/// the empty line that ends the block, or what follows the first line that
/// cannot be read as a header.
pub open spec fn after_header_block(rest: Seq<u8>) -> Seq<u8>
    decreases rest.len(),
    via after_header_block_decreases
{
    if first_line(rest).len() == 0 || header_of_bytes(first_line(rest)) is Err {
        after_first_line(rest)
    } else {
        after_header_block(after_first_line(rest))
    }
}

#[via_fn]
proof fn after_header_block_decreases(rest: Seq<u8>) {
    lemma_first_index_of(rest, LINE_FEED);
}

/// The name of the header that a line stands for.
pub open spec fn name_of(line: Seq<u8>) -> Seq<char> {
    header_of_bytes(line)->Ok_0.0
}

/// The value of the header that a line stands for.
pub open spec fn value_of(line: Seq<u8>) -> Seq<char> {
    header_of_bytes(line)->Ok_0.1
}

/// A line without a colon is malformed, and the error holds the line.
pub proof fn law_header_without_colon(line: Seq<char>)
    requires
        !line.contains(':'),
    ensures
        header_of(line) == Err::<(Seq<char>, Seq<char>), ParseErrorView>(
            ParseErrorView::MalformedHeaderLine(line),
        ),
{
    lemma_first_index_of(line, ':');
}

/// A line with a colon stands for a header: the name is what precedes the
/// first colon, and the value is what follows it, trimmed. Colons in what
/// follows belong to the value.
pub proof fn law_header_with_colon(name: Seq<char>, rest: Seq<char>)
    requires
        !name.contains(':'),
    ensures
        header_of(name + seq![':'] + rest) == Ok::<(Seq<char>, Seq<char>), ParseErrorView>(
            (name, trim(rest)),
        ),
{
    let line = name + seq![':'] + rest;
    assert forall|j: int| 0 <= j < name.len() implies line[j] != ':' by {
        assert(line[j] == name[j]);
        if name[j] == ':' {
            assert(name.contains(':'));
        }
    }
    assert(line[name.len() as int] == ':');
    lemma_first_index_of_unique(line, ':', name.len() as int);
    assert(line.take(name.len() as int) =~= name);
    assert(line.skip(name.len() as int + 1) =~= rest);
}

/// The value of a header neither begins nor ends with whitespace.
pub proof fn law_header_value_is_trimmed(line: Seq<char>)
    requires
        header_of(line) is Ok,
    ensures
        ({
            let value = header_of(line)->Ok_0.1;
            value.len() > 0 ==> !is_whitespace(value.first()) && !is_whitespace(value.last())
        }),
{
    let i = first_index_of(line, ':');
    lemma_trim_characterisation(line.skip(i + 1));
}

/// Where a header block is read without error, every one of its lines
/// stands for a header.
pub proof fn law_collected_lines_are_headers(
    lines: Seq<Seq<u8>>,
    acc: Map<Seq<char>, Seq<char>>,
)
    requires
        collect_headers(lines, acc) is Ok,
    ensures
        forall|i: int| 0 <= i < lines.len() ==> header_of_bytes(#[trigger] lines[i]) is Ok,
    decreases lines.len(),
{
    if lines.len() > 0 {
        let h = header_of_bytes(lines[0])->Ok_0;
        let rest = lines.drop_first();
        law_collected_lines_are_headers(rest, acc.insert(h.0, h.1));
        assert forall|i: int| 0 <= i < lines.len() implies header_of_bytes(
            #[trigger] lines[i],
        ) is Ok by {
            if i > 0 {
                assert(lines[i] == rest[i - 1]);
            }
        }
    }
}

/// The names of the mapping read from a header block are the names that the
/// mapping began with and the names of the block's lines.
pub proof fn law_header_names(
    lines: Seq<Seq<u8>>,
    acc: Map<Seq<char>, Seq<char>>,
    name: Seq<char>,
)
    requires
        collect_headers(lines, acc) is Ok,
    ensures
        collect_headers(lines, acc)->Ok_0.dom().contains(name) <==> acc.dom().contains(name) || (
        exists|i: int| 0 <= i < lines.len() && name_of(#[trigger] lines[i]) == name),
    decreases lines.len(),
{
    if lines.len() > 0 {
        let h = header_of_bytes(lines[0])->Ok_0;
        let rest = lines.drop_first();
        law_header_names(rest, acc.insert(h.0, h.1), name);
        if exists|i: int| 0 <= i < rest.len() && name_of(#[trigger] rest[i]) == name {
            let i = choose|i: int| 0 <= i < rest.len() && name_of(#[trigger] rest[i]) == name;
            assert(lines[i + 1] == rest[i]);
        }
        if exists|i: int| 0 <= i < lines.len() && name_of(#[trigger] lines[i]) == name {
            let i = choose|i: int| 0 <= i < lines.len() && name_of(#[trigger] lines[i]) == name;
            if i > 0 {
                assert(rest[i - 1] == lines[i]);
            }
        }
    }
}

/// A name that no line of the block carries keeps the value that the mapping
/// began with.
pub proof fn law_other_headers_are_kept(
    lines: Seq<Seq<u8>>,
    acc: Map<Seq<char>, Seq<char>>,
    name: Seq<char>,
)
    requires
        collect_headers(lines, acc) is Ok,
        acc.dom().contains(name),
        forall|i: int| 0 <= i < lines.len() ==> name_of(#[trigger] lines[i]) != name,
    ensures
        collect_headers(lines, acc)->Ok_0.dom().contains(name),
        collect_headers(lines, acc)->Ok_0[name] == acc[name],
    decreases lines.len(),
{
    if lines.len() > 0 {
        let h = header_of_bytes(lines[0])->Ok_0;
        let rest = lines.drop_first();
        assert(name_of(lines[0]) != name);
        assert forall|i: int| 0 <= i < rest.len() implies name_of(#[trigger] rest[i]) != name by {
            assert(rest[i] == lines[i + 1]);
        }
        law_other_headers_are_kept(rest, acc.insert(h.0, h.1), name);
    }
}

/// Later duplicates win: the mapping read from a header block holds, under
/// the name of a line, the value of that line, unless a later line carries
/// the same name. Nothing else about the order of the lines matters.
pub proof fn law_later_header_wins(lines: Seq<Seq<u8>>, acc: Map<Seq<char>, Seq<char>>, i: int)
    requires
        collect_headers(lines, acc) is Ok,
        0 <= i < lines.len(),
        forall|j: int| i < j < lines.len() ==> name_of(#[trigger] lines[j]) != name_of(lines[i]),
    ensures
        collect_headers(lines, acc)->Ok_0.dom().contains(name_of(lines[i])),
        collect_headers(lines, acc)->Ok_0[name_of(lines[i])] == value_of(lines[i]),
    decreases lines.len(),
{
    let h = header_of_bytes(lines[0])->Ok_0;
    let rest = lines.drop_first();
    let next = acc.insert(h.0, h.1);
    if i == 0 {
        assert forall|j: int| 0 <= j < rest.len() implies name_of(#[trigger] rest[j]) != h.0 by {
            assert(rest[j] == lines[j + 1]);
        }
        law_other_headers_are_kept(rest, next, h.0);
    } else {
        assert(rest[i - 1] == lines[i]);
        assert forall|j: int| i - 1 < j < rest.len() implies name_of(#[trigger] rest[j]) != name_of(
            rest[i - 1],
        ) by {
            assert(rest[j] == lines[j + 1]);
        }
        law_later_header_wins(rest, next, i - 1);
    }
}

/// Reading a block that consists of two parts is reading the first part and
/// then the second.
pub proof fn lemma_collect_headers_concat(
    first: Seq<Seq<u8>>,
    second: Seq<Seq<u8>>,
    acc: Map<Seq<char>, Seq<char>>,
)
    ensures
        collect_headers(first + second, acc) == match collect_headers(first, acc) {
            Ok(m) => collect_headers(second, m),
            Err(e) => Err(e),
        },
    decreases first.len(),
{
    if first.len() == 0 {
        assert(first + second =~= second);
    } else {
        let all = first + second;
        assert(all[0] == first[0]);
        assert(all.drop_first() =~= first.drop_first() + second);
        match header_of_bytes(first[0]) {
            Ok(h) => {
                lemma_collect_headers_concat(first.drop_first(), second, acc.insert(h.0, h.1));
            },
            Err(_) => {},
        }
    }
}

/// The order of two neighbouring header lines of different names does not
/// matter.
pub proof fn law_distinct_headers_commute(
    before: Seq<Seq<u8>>,
    first: Seq<u8>,
    second: Seq<u8>,
    after: Seq<Seq<u8>>,
    acc: Map<Seq<char>, Seq<char>>,
)
    requires
        header_of_bytes(first) is Ok,
        header_of_bytes(second) is Ok,
        name_of(first) != name_of(second),
    ensures
        collect_headers(before + seq![first, second] + after, acc) == collect_headers(
            before + seq![second, first] + after,
            acc,
        ),
{
    let one = seq![first, second] + after;
    let two = seq![second, first] + after;
    assert(before + seq![first, second] + after =~= before + one);
    assert(before + seq![second, first] + after =~= before + two);
    lemma_collect_headers_concat(before, one, acc);
    lemma_collect_headers_concat(before, two, acc);
    if let Ok(m) = collect_headers(before, acc) {
        let f = header_of_bytes(first)->Ok_0;
        let s = header_of_bytes(second)->Ok_0;
        assert(one[0] == first && one.drop_first()[0] == second);
        assert(two[0] == second && two.drop_first()[0] == first);
        assert(one.drop_first().drop_first() =~= after);
        assert(two.drop_first().drop_first() =~= after);
        let both = m.insert(f.0, f.1).insert(s.0, s.1);
        assert(both =~= m.insert(s.0, s.1).insert(f.0, f.1));
        assert(collect_headers(one, m) == collect_headers(one.drop_first(), m.insert(f.0, f.1)));
        assert(collect_headers(one.drop_first(), m.insert(f.0, f.1)) == collect_headers(
            after,
            both,
        ));
        assert(collect_headers(two, m) == collect_headers(two.drop_first(), m.insert(s.0, s.1)));
        assert(collect_headers(two.drop_first(), m.insert(s.0, s.1)) == collect_headers(
            after,
            both,
        ));
    }
}

/// Parses one header line.
pub fn parse_header_line(line: &str) -> (r: Result<Header, ParseError>)
    ensures
        view_of(r) == header_of(line@),
{
    let cs = chars_of(line);
    let n: usize = cs.len();
    let i: usize = find_char(&cs, 0, ':');
    proof {
        assert(cs@.skip(0) =~= line@);
    }
    if i < n {
        let name = substring(line, 0, i);
        let tail = substring(line, i + 1, n);
        let value = trimmed(tail.as_str());
        Ok(Header { name, value })
    } else {
        Err(ParseError::MalformedHeaderLine(line.to_owned()))
    }
}

/// Reads the header block from `reader` into a mapping.
pub fn parse_headers(reader: &mut LineReader) -> (r: Result<HeaderMap, ParseError>)
    ensures
        final(reader).remaining() == after_header_block(old(reader).remaining()),
        view_of(r) == collect_headers(
            header_lines(old(reader).remaining()),
            Map::<Seq<char>, Seq<char>>::empty(),
        ),
{
    let mut headers = HeaderMap::new();
    let ghost start = reader.remaining();
    loop
        invariant
            start == old(reader).remaining(),
            after_header_block(start) == after_header_block(reader.remaining()),
            collect_headers(header_lines(start), Map::<Seq<char>, Seq<char>>::empty())
                == collect_headers(header_lines(reader.remaining()), headers@),
        decreases reader.remaining().len(),
    {
        let ghost rest = reader.remaining();
        proof {
            lemma_first_index_of(rest, LINE_FEED);
            lemma_empty_text(first_line(rest));
        }
        let line = match reader.read_line() {
            Ok(line) => line,
            Err(e) => {
                proof {
                    assert(header_lines(rest)[0] == first_line(rest));
                }
                return Err(e);
            },
        };
        if line.as_str().unicode_len() == 0 {
            return Ok(headers);
        }
        proof {
            assert(header_lines(rest)[0] == first_line(rest));
            assert(header_lines(rest).drop_first() =~= header_lines(after_first_line(rest)));
        }
        match parse_header_line(line.as_str()) {
            Ok(h) => {
                headers.insert(h.name, h.value);
            },
            Err(e) => {
                return Err(e);
            },
        }
    }
}

/// The empty line, and no other, stands for the empty text.
pub proof fn lemma_empty_text(line: Seq<u8>)
    ensures
        line.len() == 0 ==> text_of(line) == Ok::<Seq<char>, ParseErrorView>(Seq::empty()),
        line.len() != 0 && text_of(line) is Ok ==> text_of(line)->Ok_0.len() != 0,
{
    if line.len() == 0 {
        assert(vstd::utf8::decode_utf8(line) =~= Seq::<char>::empty());
    } else if text_of(line) is Ok {
        vstd::utf8::decode_utf8_encode_utf8(line);
        if vstd::utf8::decode_utf8(line).len() == 0 {
            assert(vstd::utf8::encode_utf8(vstd::utf8::decode_utf8(line)) =~= Seq::<u8>::empty());
        }
    }
}

} // verus!
