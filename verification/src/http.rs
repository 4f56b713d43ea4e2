//! The part of HTTP that the ingress reads and writes: where a request header
//! ends, which host it asks for, and the answer to a request that is refused.

use std::borrow::Cow;
use vstd::prelude::*;
use vstd::slice::slice_subrange;
use vstd::string::StringExecFns;
use vstd::utf8::encode_scalar;
use vstd::utf8::encode_utf8;
use vstd::utf8::encode_utf8_first_scalar;
use vstd::utf8::is_ascii_chars_encode_utf8;
use vstd::utf8::valid_utf8;

use crate::host::normalize_host;
use crate::host::normalized_host;
use crate::text::append_decimal;
use crate::text::decimal;
use crate::text::lemma_decimal_is_digits;
use crate::text::lemma_encode_adds_no_ascii;
use crate::text::lemma_encode_concat;
use crate::text::lemma_index_of_first;
use crate::text::lemma_trim_end;
use crate::text::lemma_trim_keeps_the_middle;
use crate::text::lemma_trim_start;
use crate::text::text_is_read_as_written;
use crate::text::text_of;
use crate::text::trim;
use crate::text::utf8_text;

verus! {

/// Carriage return.
pub const CR: u8 = 0x0d;

/// Line feed, which ends a line.
pub const LF: u8 = 0x0a;

/// The colon between the name and the value of a header field.
pub const COLON: u8 = 0x3a;

/// Whether the empty line that ends a header starts at `index`.
pub open spec fn terminator_at(buf: Seq<u8>, index: int) -> bool {
    &&& 0 <= index
    &&& index + 4 <= buf.len()
    &&& buf[index] == CR
    &&& buf[index + 1] == LF
    &&& buf[index + 2] == CR
    &&& buf[index + 3] == LF
}

/// Whether `index` is the first place at or behind `start` where a terminator starts.
pub open spec fn first_terminator(buf: Seq<u8>, start: int, index: int) -> bool {
    &&& start <= index
    &&& terminator_at(buf, index)
    &&& forall|i: int| start <= i < index ==> !#[trigger] terminator_at(buf, i)
}

/// The index behind the first terminator that starts at or behind `start`.
pub open spec fn header_end_from(buf: Seq<u8>, start: int) -> Option<int> {
    if exists|i: int| first_terminator(buf, start, i) {
        Some((choose|i: int| first_terminator(buf, start, i)) + 4)
    } else {
        None
    }
}

/// The index behind the header that `buf` starts with.
pub open spec fn header_end(buf: Seq<u8>) -> Option<int> {
    header_end_from(buf, 0)
}

/// A first terminator decides where the header ends.
pub proof fn lemma_header_end(buf: Seq<u8>, start: int, index: int)
    requires
        first_terminator(buf, start, index),
    ensures
        header_end_from(buf, start) == Some(index + 4),
{
    let chosen = choose|i: int| first_terminator(buf, start, i);
    assert(first_terminator(buf, start, chosen));
    if chosen < index {
        assert(terminator_at(buf, chosen));
    } else if index < chosen {
        assert(terminator_at(buf, index));
    }
}

/// A terminator at or behind `start` leads to a header end that is not behind it.
pub proof fn lemma_header_end_exists(buf: Seq<u8>, start: int, index: int)
    requires
        start <= index,
        terminator_at(buf, index),
    ensures
        header_end_from(buf, start) matches Some(end) && end <= index + 4 && first_terminator(
            buf,
            start,
            end - 4,
        ),
    decreases index - start,
{
    if forall|i: int| start <= i < index ==> !#[trigger] terminator_at(buf, i) {
        assert(first_terminator(buf, start, index));
        lemma_header_end(buf, start, index);
    } else {
        let earlier = choose|i: int| start <= i < index && #[trigger] terminator_at(buf, i);
        lemma_header_end_exists(buf, start, earlier);
    }
}

/// Finds the end of the header at the front of `buf`.
pub fn find_header_end(buf: &[u8]) -> (end: Option<usize>)
    ensures
        match end {
            Some(end) => header_end(buf@) == Some(end as int) && end <= buf@.len(),
            None => header_end(buf@) is None,
        },
{
    find_header_end_from(buf, 0)
}

/// Finds the end of a header, looking for its terminator from `start` on.
pub fn find_header_end_from(buf: &[u8], start: usize) -> (end: Option<usize>)
    ensures
        match end {
            Some(end) => header_end_from(buf@, start as int) == Some(end as int) && start + 4 <= end
                && end <= buf@.len(),
            None => header_end_from(buf@, start as int) is None,
        },
{
    let mut index: usize = start;
    while index < buf.len() && buf.len() - index >= 4
        invariant
            start <= index,
            forall|i: int| start <= i < index ==> !#[trigger] terminator_at(buf@, i),
        decreases buf.len() - index,
    {
        if buf[index] == CR && buf[index + 1] == LF && buf[index + 2] == CR && buf[index + 3] == LF {
            proof {
                lemma_header_end(buf@, start as int, index as int);
            }
            return Some(index + 4);
        }
        index = index + 1;
    }
    None
}

/// Whether `byte` is white space in ASCII: space, tab, line feed, form feed or
/// carriage return.
pub open spec fn is_ascii_blank(byte: u8) -> bool {
    byte == 0x20 || byte == 0x09 || byte == 0x0a || byte == 0x0c || byte == 0x0d
}

/// `bytes` without ASCII white space at its ends.
pub open spec fn trimmed_bytes(bytes: Seq<u8>) -> Seq<u8> {
    trim(bytes, |byte: u8| is_ascii_blank(byte))
}

fn ascii_blank(byte: u8) -> (blank: bool)
    ensures
        blank == is_ascii_blank(byte),
{
    byte == 0x20 || byte == 0x09 || byte == 0x0a || byte == 0x0c || byte == 0x0d
}

/// Cuts ASCII white space from both ends of `bytes`.
pub fn trim_ascii(bytes: &[u8]) -> (trimmed: &[u8])
    ensures
        trimmed@ == trimmed_bytes(bytes@),
{
    let ghost cut = |byte: u8| is_ascii_blank(byte);
    let mut start: usize = 0;
    while start < bytes.len() && ascii_blank(bytes[start])
        invariant
            start <= bytes.len(),
            forall|i: int| 0 <= i < start ==> is_ascii_blank(#[trigger] bytes@[i]),
        decreases bytes.len() - start,
    {
        start = start + 1;
    }
    let mut end: usize = bytes.len();
    while end > start && ascii_blank(bytes[end - 1])
        invariant
            start <= end <= bytes.len(),
            forall|i: int| end <= i < bytes.len() ==> is_ascii_blank(#[trigger] bytes@[i]),
        decreases end,
    {
        end = end - 1;
    }
    proof {
        let tail = bytes@.skip(start as int);
        lemma_trim_start(bytes@, cut, start as int);
        assert forall|i: int| end - start <= i < tail.len() implies cut(#[trigger] tail[i]) by {
            assert(tail[i] == bytes@[i + start]);
        }
        lemma_trim_end(tail, cut, end - start);
        assert(tail.take(end - start) == bytes@.subrange(start as int, end as int));
    }
    slice_subrange(bytes, start, end)
}

/// `byte` with the letters `A` to `Z` mapped to `a` to `z`.
pub open spec fn ascii_lower_byte(byte: u8) -> u8 {
    if 'A' as u8 <= byte <= 'Z' as u8 {
        (byte + 32) as u8
    } else {
        byte
    }
}

/// Whether `name` is the field name `host`, in any case.
pub open spec fn is_host_name(name: Seq<u8>) -> bool {
    name.map_values(|byte: u8| ascii_lower_byte(byte)) == seq![
        'h' as u8,
        'o' as u8,
        's' as u8,
        't' as u8,
    ]
}

/// The lines of `bytes`, each without the line feed that ends it.
pub open spec fn lines(bytes: Seq<u8>) -> Seq<Seq<u8>>
    decreases bytes.len(),
{
    proof {
        bytes.index_of_first_ensures(LF);
    }
    match bytes.index_of_first(LF) {
        Some(end) => seq![bytes.take(end)] + lines(bytes.skip(end + 1)),
        None => seq![bytes],
    }
}

/// `line` without a carriage return at its end.
pub open spec fn without_return(line: Seq<u8>) -> Seq<u8> {
    if line.len() > 0 && line.last() == CR {
        line.drop_last()
    } else {
        line
    }
}

/// The name and the value of a header field; `None` for a line without a colon.
pub open spec fn header_field(line: Seq<u8>) -> Option<(Seq<u8>, Seq<u8>)> {
    let line = without_return(line);
    match line.index_of_first(COLON) {
        Some(colon) => Some((trimmed_bytes(line.take(colon)), trimmed_bytes(line.skip(colon + 1)))),
        None => None,
    }
}

/// The value of `line` if it is a `Host` field.
pub open spec fn host_field(line: Seq<u8>) -> Option<Seq<u8>> {
    match header_field(line) {
        Some((name, value)) => if is_host_name(name) {
            Some(value)
        } else {
            None
        },
        None => None,
    }
}

/// The value of the first `Host` field among `lines`.
pub open spec fn first_host_field(lines: Seq<Seq<u8>>) -> Option<Seq<u8>>
    decreases lines.len(),
{
    if lines.len() == 0 {
        None
    } else if host_field(lines.first()) is Some {
        host_field(lines.first())
    } else {
        first_host_field(lines.drop_first())
    }
}

/// The header that `prefix` starts with, or all of it when the header has no end.
pub open spec fn header_of(prefix: Seq<u8>) -> Seq<u8> {
    match header_end(prefix) {
        Some(end) => prefix.take(end),
        None => prefix,
    }
}

/// The value of the first `Host` field below the request line.
pub open spec fn requested_host(prefix: Seq<u8>) -> Option<Seq<u8>> {
    first_host_field(lines(header_of(prefix)).drop_first())
}

/// The host that a request asks for, in the form that tunnels are registered
/// under: `None` without a `Host` field, or when the first one holds no host.
pub open spec fn http_host(prefix: Seq<u8>) -> Option<Seq<char>> {
    match requested_host(prefix) {
        Some(value) => match utf8_text(value) {
            Some(text) => normalized_host(text),
            None => None,
        },
        None => None,
    }
}

fn find_byte(bytes: &[u8], wanted: u8) -> (found: Option<usize>)
    ensures
        match found {
            Some(index) => index < bytes.len() && bytes@.index_of_first(wanted) == Some(
                index as int,
            ),
            None => bytes@.index_of_first(wanted) is None,
        },
{
    for index in 0..bytes.len()
        invariant
            forall|i: int| 0 <= i < index ==> bytes@[i] != wanted,
    {
        if bytes[index] == wanted {
            proof {
                lemma_index_of_first(bytes@, wanted, index as int);
            }
            return Some(index);
        }
    }
    proof {
        bytes@.index_of_first_ensures(wanted);
    }
    None
}

fn names_host(name: &[u8]) -> (named: bool)
    ensures
        named == is_host_name(name@),
{
    let ghost lower = name@.map_values(|byte: u8| ascii_lower_byte(byte));
    if name.len() != 4 {
        assert(lower.len() != 4);
        return false;
    }
    let named = (name[0] == 0x68 || name[0] == 0x48) && (name[1] == 0x6f || name[1] == 0x4f) && (
    name[2] == 0x73 || name[2] == 0x53) && (name[3] == 0x74 || name[3] == 0x54);
    proof {
        let wanted = seq!['h' as u8, 'o' as u8, 's' as u8, 't' as u8];
        assert(lower[0] == ascii_lower_byte(name@[0]));
        assert(lower[1] == ascii_lower_byte(name@[1]));
        assert(lower[2] == ascii_lower_byte(name@[2]));
        assert(lower[3] == ascii_lower_byte(name@[3]));
        if named {
            assert(lower == wanted);
        } else {
            assert(lower[0] != wanted[0] || lower[1] != wanted[1] || lower[2] != wanted[2]
                || lower[3] != wanted[3]);
        }
    }
    named
}

/// The value of `line` if it is a `Host` field.
fn read_host_field(line: &[u8]) -> (value: Option<&[u8]>)
    ensures
        match value {
            Some(value) => host_field(line@) == Some(value@),
            None => host_field(line@) is None,
        },
{
    let line = if line.len() > 0 && line[line.len() - 1] == CR {
        slice_subrange(line, 0, line.len() - 1)
    } else {
        line
    };
    match find_byte(line, COLON) {
        Some(colon) => {
            assert(line@.take(colon as int) == line@.subrange(0, colon as int));
            assert(line@.skip(colon + 1) == line@.subrange(colon + 1, line@.len() as int));
            if names_host(trim_ascii(slice_subrange(line, 0, colon))) {
                Some(trim_ascii(slice_subrange(line, colon + 1, line.len())))
            } else {
                None
            }
        },
        None => None,
    }
}

/// Reads the host that a request asks for, in the form that tunnels are
/// registered under.
pub fn extract_http_host(prefix: &[u8]) -> (host: Option<Cow<'_, str>>)
    ensures
        match host {
            Some(host) => http_host(prefix@) == Some(host@),
            None => http_host(prefix@) is None,
        },
{
    let header = match find_header_end(prefix) {
        Some(end) => slice_subrange(prefix, 0, end),
        None => prefix,
    };
    assert(header@ == header_of(prefix@));
    let mut rest = match find_byte(header, LF) {
        Some(end) => slice_subrange(header, end + 1, header.len()),
        None => {
            assert(lines(header@).drop_first() == Seq::<Seq<u8>>::empty());
            return None;
        },
    };
    proof {
        let end = header@.index_of_first(LF)->0;
        assert(header@.skip(end + 1) == rest@);
        assert(lines(header@).drop_first() == lines(rest@));
    }
    loop
        invariant
            requested_host(prefix@) == first_host_field(lines(rest@)),
        decreases rest@.len(),
    {
        let end = find_byte(rest, LF);
        let line = match end {
            Some(end) => slice_subrange(rest, 0, end),
            None => rest,
        };
        proof {
            assert(lines(rest@).first() == line@);
        }
        if let Some(value) = read_host_field(line) {
            return match text_of(value) {
                Some(text) => normalize_host(text),
                None => None,
            };
        }
        match end {
            Some(end) => {
                let next = slice_subrange(rest, end + 1, rest.len());
                assert(rest@.skip(end + 1) == next@);
                assert(lines(rest@).drop_first() == lines(next@));
                rest = next;
            },
            None => {
                let ghost no_lines = Seq::<Seq<u8>>::empty();
                assert(lines(rest@).drop_first() == no_lines);
                assert(first_host_field(no_lines) is None);
                return None;
            },
        }
    }
}

/// The body of the answer to a request that is refused.
pub open spec fn error_body(status: u16, reason: Seq<char>) -> Seq<char> {
    decimal(status as nat) + " "@ + reason + "\n"@
}

/// The answer to a request that is refused: status line, header fields that
/// announce the length of the body and the end of the connection, and the body.
pub open spec fn error_response(status: u16, reason: Seq<char>) -> Seq<char> {
    "HTTP/1.1 "@ + decimal(status as nat) + " "@ + reason
        + "\r\nConnection: close\r\nContent-Type: text/plain\r\nContent-Length: "@ + decimal(
        encode_utf8(error_body(status, reason)).len(),
    ) + "\r\n\r\n"@ + error_body(status, reason)
}

/// Writes the answer to a request that is refused.
pub fn http_error_response(status: u16, reason: &str) -> (response: String)
    ensures
        response@ == error_response(status, reason@),
        response@ == "HTTP/1.1 "@ + decimal(status as nat) + " "@ + reason@
            + "\r\nConnection: close\r\nContent-Type: text/plain\r\nContent-Length: "@ + decimal(
            encode_utf8(decimal(status as nat) + " "@ + reason@ + "\n"@).len(),
        ) + "\r\n\r\n"@ + (decimal(status as nat) + " "@ + reason@ + "\n"@),
{
    let mut body = String::new();
    append_decimal(&mut body, status as u64);
    body.append(" ");
    body.append(reason);
    body.append("\n");
    assert(body@ == error_body(status, reason@));
    let length = body.as_str().as_bytes().len();
    let mut response = String::from_str("HTTP/1.1 ");
    append_decimal(&mut response, status as u64);
    response.append(" ");
    response.append(reason);
    response.append("\r\nConnection: close\r\nContent-Type: text/plain\r\nContent-Length: ");
    append_decimal(&mut response, length as u64);
    response.append("\r\n\r\n");
    response.append(body.as_str());
    response
}

/// What follows a header does not move its end.
pub proof fn header_end_is_stable(buf: Seq<u8>, more: Seq<u8>)
    requires
        header_end(buf) is Some,
    ensures
        header_end(buf + more) == header_end(buf),
{
    let index = choose|i: int| first_terminator(buf, 0, i);
    assert(first_terminator(buf, 0, index));
    assert forall|i: int| 0 <= i < index implies !#[trigger] terminator_at(buf + more, i) by {
        assert(!terminator_at(buf, i));
    }
    lemma_header_end(buf, 0, index);
    lemma_header_end(buf + more, 0, index);
}

/// What follows the header of a request does not change the host it asks for.
pub proof fn host_depends_on_header_alone(prefix: Seq<u8>, more: Seq<u8>)
    requires
        header_end(prefix) is Some,
    ensures
        http_host(prefix + more) == http_host(prefix),
{
    let index = choose|i: int| first_terminator(prefix, 0, i);
    assert(first_terminator(prefix, 0, index));
    header_end_is_stable(prefix, more);
    assert(header_of(prefix + more) == header_of(prefix));
}

/// Looking again at the last three bytes of a buffer without a terminator is
/// enough to find the one that more bytes complete.
pub proof fn rescan_finds_header_end(seen: Seq<u8>, more: Seq<u8>, from: int)
    requires
        header_end(seen) is None,
        0 <= from,
        from <= seen.len() - 3 || from == 0,
    ensures
        header_end_from(seen + more, from) == header_end(seen + more),
{
    let all = seen + more;
    assert forall|i: int| 0 <= i < from implies !#[trigger] terminator_at(all, i) by {
        if terminator_at(all, i) {
            assert(terminator_at(seen, i));
            lemma_header_end_exists(seen, 0, i);
        }
    }
    if header_end(all) is Some {
        let index = choose|i: int| first_terminator(all, 0, i);
        assert(first_terminator(all, 0, index));
        assert(first_terminator(all, from, index));
        lemma_header_end(all, 0, index);
        lemma_header_end(all, from, index);
    } else if header_end_from(all, from) is Some {
        let index = choose|i: int| first_terminator(all, from, i);
        assert(first_terminator(all, from, index));
        assert(first_terminator(all, 0, index));
    }
}

/// Whether `line` can stand in a header: it is not empty, and neither a carriage
/// return nor a line feed is in it.
pub open spec fn is_header_line(line: Seq<u8>) -> bool {
    line.len() > 0 && !line.contains(CR) && !line.contains(LF)
}

/// The header made of `lines`, each ended by a carriage return and a line feed,
/// with an empty line behind them.
pub open spec fn header_text(lines: Seq<Seq<u8>>) -> Seq<u8>
    decreases lines.len(),
{
    if lines.len() == 0 {
        seq![CR, LF]
    } else {
        lines.first() + seq![CR, LF] + header_text(lines.drop_first())
    }
}

proof fn lemma_header_text_terminators(lines: Seq<Seq<u8>>)
    requires
        lines.len() > 0,
        forall|i: int| 0 <= i < lines.len() ==> is_header_line(#[trigger] lines[i]),
    ensures
        terminator_at(header_text(lines), header_text(lines).len() - 4),
        forall|i: int| #[trigger]
            terminator_at(header_text(lines), i) ==> i == header_text(lines).len() - 4,
    decreases lines.len(),
{
    let line = lines.first();
    let rest = lines.drop_first();
    let text = header_text(lines);
    let tail = header_text(rest);
    let width = line.len() as int + 2;
    assert(is_header_line(lines[0]));
    assert(text[line.len() as int] == CR && text[line.len() as int + 1] == LF);
    assert forall|i: int| 0 <= i < tail.len() implies tail[i] == text[i + width] by {}
    assert forall|i: int| 0 <= i < line.len() implies text[i] != CR by {
        assert(text[i] == line[i]);
        assert(line.contains(line[i]));
    }
    if rest.len() == 0 {
        assert(tail == seq![CR, LF]);
        assert(text[width] == tail[0] && text[width + 1] == tail[1]);
    } else {
        assert forall|i: int| 0 <= i < rest.len() implies is_header_line(#[trigger] rest[i]) by {
            assert(rest[i] == lines[i + 1]);
        }
        lemma_header_text_terminators(rest);
        assert(is_header_line(rest[0]));
        assert(tail[0] == rest[0][0]);
        assert(rest[0].contains(rest[0][0]));
        assert(text[width] == tail[0]);
        assert(terminator_at(tail, tail.len() - 4));
        assert(text[text.len() - 4] == tail[tail.len() - 4]);
        assert(text[text.len() - 3] == tail[tail.len() - 3]);
        assert(text[text.len() - 2] == tail[tail.len() - 2]);
        assert(text[text.len() - 1] == tail[tail.len() - 1]);
        assert forall|i: int| #[trigger] terminator_at(text, i) implies i == text.len() - 4 by {
            if i >= width {
                assert(tail[i - width] == text[i] && tail[i - width + 1] == text[i + 1]);
                assert(tail[i - width + 2] == text[i + 2] && tail[i - width + 3] == text[i + 3]);
                assert(terminator_at(tail, i - width));
            }
        }
    }
}

proof fn lemma_lines_of_header_text(lines_in: Seq<Seq<u8>>)
    requires
        forall|i: int| 0 <= i < lines_in.len() ==> is_header_line(#[trigger] lines_in[i]),
    ensures
        lines(header_text(lines_in)) == lines_in.map_values(|line: Seq<u8>| line.push(CR)) + seq![
            seq![CR],
            Seq::<u8>::empty(),
        ],
    decreases lines_in.len(),
{
    let text = header_text(lines_in);
    let ended = |line: Seq<u8>| line.push(CR);
    let end = seq![seq![CR], Seq::<u8>::empty()];
    if lines_in.len() == 0 {
        lemma_index_of_first(text, LF, 1);
        let nothing = text.skip(2);
        nothing.index_of_first_ensures(LF);
        assert(nothing == Seq::<u8>::empty());
        assert(lines(nothing) == seq![nothing]);
        assert(text.take(1) == seq![CR]);
        assert(lines_in.map_values(ended) + end == seq![seq![CR]] + seq![nothing]);
    } else {
        let line = lines_in.first();
        let rest = lines_in.drop_first();
        assert(is_header_line(lines_in[0]));
        let feed = line.len() as int + 1;
        assert(text[feed] == LF);
        assert forall|i: int| 0 <= i < feed implies text[i] != LF by {
            if i < line.len() {
                assert(text[i] == line[i]);
                assert(line.contains(line[i]));
            } else {
                assert(text[i] == CR);
            }
        }
        lemma_index_of_first(text, LF, feed);
        assert(text.take(feed) == line.push(CR));
        assert(text.skip(feed + 1) == header_text(rest));
        assert forall|i: int| 0 <= i < rest.len() implies is_header_line(#[trigger] rest[i]) by {
            assert(rest[i] == lines_in[i + 1]);
        }
        lemma_lines_of_header_text(rest);
        assert(lines_in.map_values(ended) + end == seq![line.push(CR)] + (rest.map_values(ended)
            + end));
    }
}

proof fn lemma_host_field_of_ended_lines(lines_in: Seq<Seq<u8>>)
    requires
        forall|i: int| 0 <= i < lines_in.len() ==> is_header_line(#[trigger] lines_in[i]),
    ensures
        first_host_field(
            lines_in.map_values(|line: Seq<u8>| line.push(CR)) + seq![
                seq![CR],
                Seq::<u8>::empty(),
            ],
        ) == first_host_field(lines_in),
    decreases lines_in.len(),
{
    let ended = |line: Seq<u8>| line.push(CR);
    let end = seq![seq![CR], Seq::<u8>::empty()];
    let all = lines_in.map_values(ended) + end;
    if lines_in.len() == 0 {
        let nothing = Seq::<u8>::empty();
        nothing.index_of_first_ensures(COLON);
        assert(without_return(seq![CR]) == nothing);
        assert(host_field(seq![CR]) is None);
        assert(host_field(nothing) is None);
        assert(all == end);
        assert(all.drop_first() == seq![nothing]);
        assert(all.drop_first().drop_first() == Seq::<Seq<u8>>::empty());
        reveal_with_fuel(first_host_field, 3);
    } else {
        let line = lines_in.first();
        let rest = lines_in.drop_first();
        assert(is_header_line(lines_in[0]));
        assert(line.contains(line.last()));
        assert(without_return(line.push(CR)) == line);
        assert(all.first() == line.push(CR));
        assert forall|i: int| 0 <= i < rest.len() implies is_header_line(#[trigger] rest[i]) by {
            assert(rest[i] == lines_in[i + 1]);
        }
        lemma_host_field_of_ended_lines(rest);
        assert(all.drop_first() == rest.map_values(ended) + end);
    }
}

/// A header is read as it is written: it ends behind its empty line, whatever
/// follows, and the host asked for is that of the first `Host` field below the
/// request line.
pub proof fn header_is_read_as_written(request_line: Seq<u8>, fields: Seq<Seq<u8>>, body: Seq<u8>)
    requires
        is_header_line(request_line),
        forall|i: int| 0 <= i < fields.len() ==> is_header_line(#[trigger] fields[i]),
    ensures
        header_end(header_text(seq![request_line] + fields) + body) == Some(
            header_text(seq![request_line] + fields).len() as int,
        ),
        requested_host(header_text(seq![request_line] + fields) + body) == first_host_field(fields),
{
    let all = seq![request_line] + fields;
    let text = header_text(all);
    assert forall|i: int| 0 <= i < all.len() implies is_header_line(#[trigger] all[i]) by {
        if i > 0 {
            assert(all[i] == fields[i - 1]);
        }
    }
    lemma_header_text_terminators(all);
    lemma_header_end(text, 0, text.len() - 4);
    header_end_is_stable(text, body);
    assert((text + body).take(text.len() as int) == text);
    lemma_lines_of_header_text(all);
    lemma_host_field_of_ended_lines(fields);
    let ended = |line: Seq<u8>| line.push(CR);
    let end = seq![seq![CR], Seq::<u8>::empty()];
    assert((all.map_values(ended) + end).drop_first() == fields.map_values(ended) + end);
}

/// A field line holds what stands before and behind its first colon, without the
/// white space around either.
pub proof fn field_is_read_as_written(name: Seq<u8>, value: Seq<u8>)
    requires
        !name.contains(COLON),
        !value.contains(CR),
    ensures
        header_field(name.push(COLON) + value) == Some(
            (trimmed_bytes(name), trimmed_bytes(value)),
        ),
{
    let line = name.push(COLON) + value;
    let colon = name.len() as int;
    assert(line[colon] == COLON);
    assert forall|i: int| 0 <= i < colon implies line[i] != COLON by {
        assert(line[i] == name[i]);
        assert(name.contains(name[i]));
    }
    if value.len() > 0 {
        assert(line.last() == value.last());
        assert(value.contains(value.last()));
    } else {
        assert(line.last() == COLON);
    }
    lemma_index_of_first(line, COLON, colon);
    assert(line.take(colon) == name);
    assert(line.skip(colon + 1) == value);
}

proof fn lemma_text_is_header_line(text: Seq<char>)
    requires
        text.len() > 0,
        !text.contains('\r'),
        !text.contains('\n'),
    ensures
        is_header_line(encode_utf8(text)),
{
    lemma_encode_adds_no_ascii(text, '\r');
    lemma_encode_adds_no_ascii(text, '\n');
    encode_utf8_first_scalar(text);
    let first = encode_scalar(text[0] as u32);
    assert(encode_utf8(text) == first + encode_utf8(text.drop_first()));
}

/// The status line of an answer.
pub open spec fn status_line(status: u16, reason: Seq<char>) -> Seq<char> {
    "HTTP/1.1 "@ + decimal(status as nat) + " "@ + reason
}

/// The header field that announces the length of a body.
pub open spec fn length_field(body: Seq<u8>) -> Seq<char> {
    "Content-Length: "@ + decimal(body.len())
}

/// A header line of text and what follows it.
spec fn line_before(line: Seq<char>, rest: Seq<char>) -> Seq<char> {
    line + ("\r\n"@ + rest)
}

proof fn lemma_encode_line(line: Seq<char>, rest: Seq<char>)
    ensures
        encode_utf8(line_before(line, rest)) == encode_utf8(line) + (seq![CR, LF] + encode_utf8(
            rest,
        )),
{
    let end = "\r\n"@;
    reveal_strlit("\r\n");
    is_ascii_chars_encode_utf8(end);
    assert(encode_utf8(end) == seq![CR, LF]);
    lemma_encode_concat(end, rest);
    lemma_encode_concat(line, end + rest);
}

proof fn lemma_header_text_first(line: Seq<u8>, rest: Seq<Seq<u8>>, body: Seq<u8>)
    ensures
        header_text(seq![line] + rest) + body == line + (seq![CR, LF] + (header_text(rest) + body)),
{
    let all = seq![line] + rest;
    assert(all.drop_first() == rest);
    assert(all.first() == line);
}

proof fn lemma_error_response_lines(status: u16, reason: Seq<char>)
    ensures
        error_response(status, reason) == line_before(
            status_line(status, reason),
            line_before(
                "Connection: close"@,
                line_before(
                    "Content-Type: text/plain"@,
                    line_before(
                        length_field(encode_utf8(error_body(status, reason))),
                        line_before(Seq::empty(), error_body(status, reason)),
                    ),
                ),
            ),
        ),
{
    let fixed = "\r\nConnection: close\r\nContent-Type: text/plain\r\nContent-Length: "@;
    let end = "\r\n"@;
    let body = error_body(status, reason);
    let length = decimal(encode_utf8(body).len());
    reveal_strlit("Connection: close");
    reveal_strlit("Content-Type: text/plain");
    reveal_strlit("Content-Length: ");
    reveal_strlit("\r\n");
    reveal_strlit("\r\n\r\n");
    reveal_strlit("\r\nConnection: close\r\nContent-Type: text/plain\r\nContent-Length: ");
    assert(fixed == end + "Connection: close"@ + end + "Content-Type: text/plain"@ + end
        + "Content-Length: "@);
    assert("\r\n\r\n"@ == end + end);
    let tail = line_before(Seq::empty(), body);
    assert(tail == end + body);
    let fourth = line_before(length_field(encode_utf8(body)), tail);
    assert(fourth == "Content-Length: "@ + length + end + end + body);
    let third = line_before("Content-Type: text/plain"@, fourth);
    let second = line_before("Connection: close"@, third);
    assert(fixed + length + (end + end) + body == end + second);
    assert(error_response(status, reason) == status_line(status, reason) + (fixed + length + (end
        + end) + body));
}

proof fn lemma_status_line_is_header_line(status: u16, reason: Seq<char>)
    requires
        !reason.contains('\r'),
        !reason.contains('\n'),
    ensures
        is_header_line(encode_utf8(status_line(status, reason))),
{
    let line = status_line(status, reason);
    let digits = decimal(status as nat);
    reveal_strlit("HTTP/1.1 ");
    reveal_strlit(" ");
    lemma_decimal_is_digits(status as nat);
    assert forall|i: int| 0 <= i < line.len() implies line[i] != '\r' && line[i] != '\n' by {
        let start = 10 + digits.len();
        if 9 <= i < start - 1 {
            assert(line[i] == digits[i - 9]);
        } else if i >= start {
            assert(line[i] == reason[i - start]);
            assert(reason.contains(reason[i - start]));
        }
    }
    lemma_text_is_header_line(line);
}

proof fn lemma_fields_are_header_lines(body: Seq<u8>)
    ensures
        is_header_line(encode_utf8("Connection: close"@)),
        is_header_line(encode_utf8("Content-Type: text/plain"@)),
        is_header_line(encode_utf8(length_field(body))),
{
    let line = length_field(body);
    let digits = decimal(body.len());
    reveal_strlit("Connection: close");
    reveal_strlit("Content-Type: text/plain");
    reveal_strlit("Content-Length: ");
    lemma_decimal_is_digits(body.len());
    assert forall|i: int| 0 <= i < line.len() implies line[i] != '\r' && line[i] != '\n' by {
        if i >= 16 {
            assert(line[i] == digits[i - 16]);
        }
    }
    lemma_text_is_header_line("Connection: close"@);
    lemma_text_is_header_line("Content-Type: text/plain"@);
    lemma_text_is_header_line(line);
}

/// The lines of the header of an answer to a refused request.
pub open spec fn error_header(status: u16, reason: Seq<char>) -> Seq<Seq<u8>> {
    seq![
        encode_utf8(status_line(status, reason)),
        encode_utf8("Connection: close"@),
        encode_utf8("Content-Type: text/plain"@),
        encode_utf8(length_field(encode_utf8(error_body(status, reason)))),
    ]
}

/// An answer to a refused request is a header and the body whose length the
/// header announces, in bytes, and the header ends where the body starts.
pub proof fn error_response_is_framed(status: u16, reason: Seq<char>)
    requires
        !reason.contains('\r'),
        !reason.contains('\n'),
    ensures
        ({
            let answer = encode_utf8(error_response(status, reason));
            let header = header_text(error_header(status, reason));
            &&& answer == header + encode_utf8(error_body(status, reason))
            &&& header_end(answer) == Some(header.len() as int)
        }),
{
    let text = error_body(status, reason);
    let body = encode_utf8(text);
    let l1 = encode_utf8(status_line(status, reason));
    let l2 = encode_utf8("Connection: close"@);
    let l3 = encode_utf8("Content-Type: text/plain"@);
    let l4 = encode_utf8(length_field(body));

    lemma_error_response_lines(status, reason);
    let t5 = line_before(Seq::empty(), text);
    let t4 = line_before(length_field(body), t5);
    let t3 = line_before("Content-Type: text/plain"@, t4);
    let t2 = line_before("Connection: close"@, t3);
    lemma_encode_line(Seq::empty(), text);
    lemma_encode_line(length_field(body), t5);
    lemma_encode_line("Content-Type: text/plain"@, t4);
    lemma_encode_line("Connection: close"@, t3);
    lemma_encode_line(status_line(status, reason), t2);

    let none = Seq::<Seq<u8>>::empty();
    assert(header_text(none) == seq![CR, LF]);
    assert(encode_utf8(t5) == header_text(none) + body);
    lemma_header_text_first(l4, none, body);
    lemma_header_text_first(l3, seq![l4] + none, body);
    lemma_header_text_first(l2, seq![l3] + (seq![l4] + none), body);
    lemma_header_text_first(l1, seq![l2] + (seq![l3] + (seq![l4] + none)), body);
    assert(seq![l2] + (seq![l3] + (seq![l4] + none)) == seq![l2, l3, l4]);
    assert(seq![l1] + seq![l2, l3, l4] == error_header(status, reason));

    lemma_status_line_is_header_line(status, reason);
    lemma_fields_are_header_lines(body);
    header_is_read_as_written(l1, seq![l2, l3, l4], body);
}

/// Whether a line ends at `index` and an empty one follows it.
pub open spec fn empty_line_at(buf: Seq<u8>, index: int) -> bool {
    0 <= index && index + 4 <= buf.len() && buf.subrange(index, index + 4) == seq![
        0x0du8,
        0x0au8,
        0x0du8,
        0x0au8,
    ]
}

proof fn lemma_empty_line(buf: Seq<u8>, index: int)
    ensures
        empty_line_at(buf, index) == terminator_at(buf, index),
{
    if 0 <= index && index + 4 <= buf.len() {
        let part = buf.subrange(index, index + 4);
        let wanted = seq![0x0du8, 0x0au8, 0x0du8, 0x0au8];
        assert(part[0] == buf[index] && part[1] == buf[index + 1]);
        assert(part[2] == buf[index + 2] && part[3] == buf[index + 3]);
        if terminator_at(buf, index) {
            assert(part == wanted);
        } else if part == wanted {
            assert(part[0] == wanted[0] && part[1] == wanted[1]);
            assert(part[2] == wanted[2] && part[3] == wanted[3]);
        }
    }
}

/// A header ends behind the first empty line from `start` on, and nowhere else;
/// without an empty line it has no end.
pub proof fn header_ends_behind_first_empty_line(buf: Seq<u8>, start: int, end: int)
    requires
        0 <= start,
    ensures
        header_end_from(buf, start) == Some(end) <==> start <= end - 4 && empty_line_at(
            buf,
            end - 4,
        ) && forall|i: int| start <= i < end - 4 ==> !#[trigger] empty_line_at(buf, i),
        header_end_from(buf, start) is None <==> forall|i: int|
            start <= i ==> !#[trigger] empty_line_at(buf, i),
        header_end(buf) == header_end_from(buf, 0),
{
    assert forall|i: int| #[trigger] empty_line_at(buf, i) == terminator_at(buf, i) by {
        lemma_empty_line(buf, i);
    }
    assert forall|i: int| #[trigger] terminator_at(buf, i) == empty_line_at(buf, i) by {
        lemma_empty_line(buf, i);
    }
    if start <= end - 4 && terminator_at(buf, end - 4) && forall|i: int|
        start <= i < end - 4 ==> !#[trigger] terminator_at(buf, i) {
        lemma_header_end(buf, start, end - 4);
    }
    if let Some(found) = header_end_from(buf, start) {
        assert(first_terminator(buf, start, found - 4));
        assert(empty_line_at(buf, found - 4));
    }
    if exists|i: int| start <= i && #[trigger] terminator_at(buf, i) {
        let i = choose|i: int| start <= i && #[trigger] terminator_at(buf, i);
        lemma_header_end_exists(buf, start, i);
    }
}

/// Whether `bytes` are spaces, tabs, line feeds, form feeds and carriage returns.
pub open spec fn is_blank_bytes(bytes: Seq<u8>) -> bool {
    forall|i: int|
        0 <= i < bytes.len() ==> seq![0x20u8, 0x09u8, 0x0au8, 0x0cu8, 0x0du8].contains(
            #[trigger] bytes[i],
        )
}

/// Trimming cuts all ASCII white space at the ends, and nothing else.
pub proof fn trimming_cuts_blanks_alone(front: Seq<u8>, middle: Seq<u8>, back: Seq<u8>)
    requires
        is_blank_bytes(front) && is_blank_bytes(back),
        middle.len() > 0 ==> !is_blank_bytes(seq![middle.first()]) && !is_blank_bytes(
            seq![middle.last()],
        ),
    ensures
        trimmed_bytes(front + middle + back) == middle,
{
    let blanks = seq![0x20u8, 0x09u8, 0x0au8, 0x0cu8, 0x0du8];
    assert forall|b: u8| #[trigger] blanks.contains(b) == is_ascii_blank(b) by {
        if is_ascii_blank(b) {
            assert(blanks[0] == 0x20 && blanks[1] == 0x09 && blanks[2] == 0x0a && blanks[3] == 0x0c
                && blanks[4] == 0x0d);
        }
    }
    assert forall|b: u8| is_blank_bytes(#[trigger] seq![b]) == is_ascii_blank(b) by {
        let single = seq![b];
        assert(single[0] == b);
        if is_ascii_blank(b) {
            assert(blanks.contains(single[0]));
        } else if is_blank_bytes(single) {
            assert(blanks.contains(single[0]));
        }
    }
    let cut = |byte: u8| is_ascii_blank(byte);
    assert forall|i: int| 0 <= i < front.len() implies cut(#[trigger] front[i]) by {
        assert(blanks.contains(front[i]));
    }
    assert forall|i: int| 0 <= i < back.len() implies cut(#[trigger] back[i]) by {
        assert(blanks.contains(back[i]));
    }
    lemma_trim_keeps_the_middle(front, middle, back, cut);
}

/// Whether `line` is a `Host` field: before its first colon, at `colon`, stand the
/// four letters of the name, each in either case, and nothing else but white
/// space around them.
pub open spec fn is_host_line(line: Seq<u8>, colon: int) -> bool {
    let name = trimmed_bytes(line.take(colon));
    &&& 0 <= colon < line.len()
    &&& line[colon] == 0x3a
    &&& forall|i: int| 0 <= i < colon ==> #[trigger] line[i] != 0x3a
    &&& name.len() == 4
    &&& name[0] == 0x68 || name[0] == 0x48
    &&& name[1] == 0x6f || name[1] == 0x4f
    &&& name[2] == 0x73 || name[2] == 0x53
    &&& name[3] == 0x74 || name[3] == 0x54
}

proof fn lemma_is_host_name(name: Seq<u8>)
    ensures
        is_host_name(name) == (name.len() == 4 && (name[0] == 0x68 || name[0] == 0x48) && (name[1]
            == 0x6f || name[1] == 0x4f) && (name[2] == 0x73 || name[2] == 0x53) && (name[3] == 0x74
            || name[3] == 0x54)),
{
    let lower = name.map_values(|byte: u8| ascii_lower_byte(byte));
    let wanted = seq!['h' as u8, 'o' as u8, 's' as u8, 't' as u8];
    assert(lower.len() == name.len());
    assert(wanted[0] == 0x68 && wanted[1] == 0x6f && wanted[2] == 0x73 && wanted[3] == 0x74);
    if name.len() == 4 {
        assert(lower[0] == ascii_lower_byte(name[0]));
        assert(lower[1] == ascii_lower_byte(name[1]));
        assert(lower[2] == ascii_lower_byte(name[2]));
        assert(lower[3] == ascii_lower_byte(name[3]));
        if lower[0] == wanted[0] && lower[1] == wanted[1] && lower[2] == wanted[2] && lower[3]
            == wanted[3] {
            assert(lower == wanted);
        }
    }
}

/// A line holds the value of a `Host` field if and only if it is one, with or
/// without a carriage return at its end.
pub proof fn host_field_is_named_host(line: Seq<u8>, colon: int)
    requires
        line.len() > 0 ==> line.last() != 0x0d,
    ensures
        is_host_line(line, colon) ==> host_field(line) == Some(trimmed_bytes(line.skip(colon + 1))),
        host_field(line) is Some ==> exists|c: int| is_host_line(line, c),
        host_field(line.push(0x0d)) == host_field(line),
{
    assert(without_return(line.push(0x0d)) == line);
    assert(without_return(line) == line);
    if is_host_line(line, colon) {
        lemma_index_of_first(line, COLON, colon);
        lemma_is_host_name(trimmed_bytes(line.take(colon)));
    }
    line.index_of_first_ensures(COLON);
    if let Some(found) = line.index_of_first(COLON) {
        lemma_is_host_name(trimmed_bytes(line.take(found)));
        if host_field(line) is Some {
            assert(is_host_line(line, found));
        }
    }
}

/// `lines` with a line feed between any two of them.
pub open spec fn joined(lines: Seq<Seq<u8>>) -> Seq<u8>
    decreases lines.len(),
{
    if lines.len() == 0 {
        Seq::empty()
    } else if lines.len() == 1 {
        lines[0]
    } else {
        lines[0] + seq![0x0au8] + joined(lines.drop_first())
    }
}

/// Lines are what stands between line feeds.
pub proof fn lines_stand_between_line_feeds(parts: Seq<Seq<u8>>)
    requires
        parts.len() > 0,
        forall|i: int| 0 <= i < parts.len() ==> !(#[trigger] parts[i]).contains(0x0a),
    ensures
        lines(joined(parts)) == parts,
    decreases parts.len(),
{
    let text = joined(parts);
    let first = parts[0];
    assert(!first.contains(0x0a));
    if parts.len() == 1 {
        text.index_of_first_ensures(LF);
        assert(seq![first] == parts);
    } else {
        let rest = parts.drop_first();
        let feed = first.len() as int;
        assert(text[feed] == 0x0a);
        assert forall|i: int| 0 <= i < feed implies text[i] != LF by {
            assert(text[i] == first[i]);
            assert(first.contains(first[i]));
        }
        lemma_index_of_first(text, LF, feed);
        assert(text.take(feed) == first);
        assert(text.skip(feed + 1) == joined(rest));
        assert forall|i: int| 0 <= i < rest.len() implies !(#[trigger] rest[i]).contains(0x0a) by {
            assert(rest[i] == parts[i + 1]);
        }
        lines_stand_between_line_feeds(rest);
        assert(seq![first] + rest == parts);
    }
}

proof fn lemma_first_host_field(lines_in: Seq<Seq<u8>>, k: int)
    requires
        0 <= k <= lines_in.len(),
        forall|i: int| 0 <= i < k ==> host_field(#[trigger] lines_in[i]) is None,
        k < lines_in.len() ==> host_field(lines_in[k]) is Some,
    ensures
        first_host_field(lines_in) == if k < lines_in.len() {
            host_field(lines_in[k])
        } else {
            None
        },
    decreases k,
{
    if k > 0 {
        let rest = lines_in.drop_first();
        assert(host_field(lines_in[0]) is None);
        assert forall|i: int| 0 <= i < k - 1 implies host_field(#[trigger] rest[i]) is None by {
            assert(rest[i] == lines_in[i + 1]);
        }
        lemma_first_host_field(rest, k - 1);
    }
}

/// Whether `line` is `content`, with or without a carriage return behind it, and
/// `content` is all of it but that carriage return.
pub open spec fn is_line_of(line: Seq<u8>, content: Seq<u8>) -> bool {
    line == content.push(0x0d) || (line == content && (content.len() > 0 ==> content.last()
        != 0x0d))
}

proof fn lemma_host_field_of_line(line: Seq<u8>, content: Seq<u8>, colon: int)
    requires
        is_line_of(line, content),
    ensures
        is_host_line(content, colon) ==> host_field(line) == Some(
            trimmed_bytes(content.skip(colon + 1)),
        ),
        host_field(line) is Some ==> exists|c: int| is_host_line(content, c),
{
    assert(without_return(line) == content) by {
        if line == content.push(0x0d) {
            assert(line.drop_last() == content);
        }
    }
    if is_host_line(content, colon) {
        lemma_index_of_first(content, COLON, colon);
        lemma_is_host_name(trimmed_bytes(content.take(colon)));
    }
    content.index_of_first_ensures(COLON);
    if let Some(found) = content.index_of_first(COLON) {
        lemma_is_host_name(trimmed_bytes(content.take(found)));
        if host_field(line) is Some {
            assert(is_host_line(content, found));
        }
    }
}

/// The host asked for is the one in the value of the first `Host` field below the
/// first line of the header. The value is that of line `k` with the first colon at
/// `colon`; there is none when no line is a `Host` field, which `k` behind the last
/// line says. A value that is no text names no host, whatever follows.
pub proof fn first_host_line_is_asked_for(
    prefix: Seq<u8>,
    parts: Seq<Seq<u8>>,
    contents: Seq<Seq<u8>>,
    k: int,
    colon: int,
)
    requires
        contents.len() == parts.len(),
        1 <= k <= parts.len(),
        forall|i: int| 0 <= i < parts.len() ==> !(#[trigger] parts[i]).contains(0x0a),
        forall|i: int| 0 <= i < parts.len() ==> is_line_of(#[trigger] parts[i], contents[i]),
        match header_end(prefix) {
            Some(end) => prefix.take(end) == joined(parts),
            None => prefix == joined(parts),
        },
        forall|i: int, c: int| 1 <= i < k ==> !#[trigger] is_host_line(contents[i], c),
        k < parts.len() ==> is_host_line(contents[k], colon),
    ensures
        k == parts.len() ==> requested_host(prefix) is None && http_host(prefix) is None,
        k < parts.len() ==> ({
            let value = trimmed_bytes(contents[k].skip(colon + 1));
            &&& requested_host(prefix) == Some(value)
            &&& !valid_utf8(value) ==> http_host(prefix) is None
            &&& forall|text: Seq<char>| #[trigger]
                encode_utf8(text) == value ==> http_host(prefix) == normalized_host(text)
        }),
{
    lines_stand_between_line_feeds(parts);
    let fields = parts.drop_first();
    assert forall|i: int| 0 <= i < k - 1 implies host_field(#[trigger] fields[i]) is None by {
        assert(fields[i] == parts[i + 1]);
        assert(is_line_of(parts[i + 1], contents[i + 1]));
        lemma_host_field_of_line(parts[i + 1], contents[i + 1], 0);
    }
    if k < parts.len() {
        assert(fields[k - 1] == parts[k]);
        assert(is_line_of(parts[k], contents[k]));
        lemma_host_field_of_line(parts[k], contents[k], colon);
        let value = trimmed_bytes(contents[k].skip(colon + 1));
        assert forall|text: Seq<char>| #[trigger] encode_utf8(text) == value implies utf8_text(
            value,
        ) == Some(text) by {
            text_is_read_as_written(text, value);
        }
        text_is_read_as_written(Seq::empty(), value);
    }
    lemma_first_host_field(fields, k - 1);
}

/// The same of a header that is written line by line: if field `k` is a `Host`
/// field and no earlier one is, its value is asked for.
pub proof fn first_host_field_is_asked_for(
    request_line: Seq<u8>,
    fields: Seq<Seq<u8>>,
    body: Seq<u8>,
    k: int,
    colon: int,
)
    requires
        is_header_line(request_line),
        forall|i: int| 0 <= i < fields.len() ==> is_header_line(#[trigger] fields[i]),
        0 <= k <= fields.len(),
        forall|i: int, c: int| 0 <= i < k ==> !#[trigger] is_host_line(fields[i], c),
        k < fields.len() ==> is_host_line(fields[k], colon),
    ensures
        requested_host(header_text(seq![request_line] + fields) + body) == if k < fields.len() {
            Some(trimmed_bytes(fields[k].skip(colon + 1)))
        } else {
            None
        },
{
    header_is_read_as_written(request_line, fields, body);
    assert forall|i: int| 0 <= i < fields.len() implies is_line_of(#[trigger] fields[i], fields[i]) by {
        assert(is_header_line(fields[i]));
        assert(fields[i].contains(fields[i].last()));
    }
    assert forall|i: int| 0 <= i < k implies host_field(#[trigger] fields[i]) is None by {
        lemma_host_field_of_line(fields[i], fields[i], 0);
    }
    if k < fields.len() {
        assert(is_line_of(fields[k], fields[k]));
        lemma_host_field_of_line(fields[k], fields[k], colon);
    }
    lemma_first_host_field(fields, k);
}

/// Read line by line, an answer to a refused request has its status and reason in
/// the first line, closes the connection, is plain text, and announces as many
/// bytes as stand behind its header: status and reason, and a line feed.
pub proof fn error_response_is_read_back(status: u16, reason: Seq<char>)
    requires
        !reason.contains('\r'),
        !reason.contains('\n'),
    ensures
        ({
            let answer = encode_utf8(error_response(status, reason));
            let end = header_end(answer)->0;
            let parts = lines(answer.take(end));
            let status_text = decimal(status as nat) + " "@ + reason;
            &&& header_end(answer) is Some && 0 <= end <= answer.len()
            &&& parts.len() == 6
            &&& parts[0] == encode_utf8("HTTP/1.1 "@ + status_text).push(0x0d)
            &&& parts[1] == encode_utf8("Connection: close"@).push(0x0d)
            &&& parts[2] == encode_utf8("Content-Type: text/plain"@).push(0x0d)
            &&& parts[3] == encode_utf8(
                "Content-Length: "@ + decimal((answer.len() - end) as nat),
            ).push(0x0d)
            &&& parts[4] == seq![0x0du8] && parts[5].len() == 0
            &&& answer.skip(end) == encode_utf8(status_text + "\n"@)
        }),
{
    let answer = encode_utf8(error_response(status, reason));
    let header = header_text(error_header(status, reason));
    let body = encode_utf8(error_body(status, reason));
    let status_text = decimal(status as nat) + " "@ + reason;
    error_response_is_framed(status, reason);
    assert(answer.take(header.len() as int) == header);
    assert(answer.skip(header.len() as int) == body);
    lemma_status_line_is_header_line(status, reason);
    lemma_fields_are_header_lines(body);
    let lines_in = error_header(status, reason);
    lemma_lines_of_header_text(lines_in);
    let ended = |line: Seq<u8>| line.push(CR);
    let parts = lines(header);
    assert(parts == lines_in.map_values(ended) + seq![seq![CR], Seq::<u8>::empty()]);
    assert(status_line(status, reason) == "HTTP/1.1 "@ + status_text);
    assert(error_body(status, reason) == status_text + "\n"@);
    assert(parts[0] == lines_in[0].push(CR));
    assert(parts[1] == lines_in[1].push(CR));
    assert(parts[2] == lines_in[2].push(CR));
    assert(parts[3] == lines_in[3].push(CR));
}

} // verus!
