//! Host names as visitors write them, brought into the form that tunnels are
//! registered under.

use std::borrow::Cow;
use vstd::prelude::*;
use vstd::string::StrSliceExecFns;

use crate::text::ascii_lower;
use crate::text::chars_of;
use crate::text::is_ascii_upper;
use crate::text::lemma_index_of_first;
use crate::text::lemma_index_of_last;
use crate::text::lemma_lowercase_twice;
use crate::text::lemma_nothing_to_trim;
use crate::text::lemma_trim_end;
use crate::text::lemma_trim_end_is_prefix;
use crate::text::lemma_trim_end_keeps_the_front;
use crate::text::lemma_trim_end_of_map;
use crate::text::lemma_trim_ends;
use crate::text::lemma_trim_keeps_the_middle;
use crate::text::lemma_trim_start;
use crate::text::lemma_trim_start_of_map;
use crate::text::lowercase;
use crate::text::trim;
use crate::text::trim_end;
use crate::text::trim_start;

verus! {

/// Whether `c` has the Unicode property `White_Space`.
pub open spec fn is_white_space(c: char) -> bool {
    let code = c as u32;
    ||| 0x09 <= code <= 0x0d
    ||| code == 0x20
    ||| code == 0x85
    ||| code == 0xa0
    ||| code == 0x1680
    ||| 0x2000 <= code <= 0x200a
    ||| code == 0x2028
    ||| code == 0x2029
    ||| code == 0x202f
    ||| code == 0x205f
    ||| code == 0x3000
}

/// Tells white space from other characters.
pub fn white_space(c: char) -> (white: bool)
    ensures
        white == is_white_space(c),
{
    let code: u32 = c as u32;
    (0x09 <= code && code <= 0x0d) || code == 0x20 || code == 0x85 || code == 0xa0 || code == 0x1680
        || (0x2000 <= code && code <= 0x200a) || code == 0x2028 || code == 0x2029 || code == 0x202f
        || code == 0x205f || code == 0x3000
}

/// Whether every character is one of the digits `0` to `9`.
pub open spec fn all_digits(text: Seq<char>) -> bool {
    forall|i: int| 0 <= i < text.len() ==> '0' <= #[trigger] text[i] <= '9'
}

/// `text` without white space at its ends.
pub open spec fn trimmed(text: Seq<char>) -> Seq<char> {
    trim(text, |c: char| is_white_space(c))
}

/// `text` without the dots at its end.
pub open spec fn without_dots(text: Seq<char>) -> Seq<char> {
    trim_end(text, |c: char| c == '.')
}

/// A host without its port. An address in brackets is what stands between them,
/// and nothing when they are not closed; of any other host a last colon is cut
/// with what follows it, if that is digits or empty.
pub open spec fn without_port(host: Seq<char>) -> Option<Seq<char>> {
    if host.len() > 0 && host.first() == '[' {
        match host.drop_first().index_of_first(']') {
            Some(end) => Some(host.drop_first().take(end)),
            None => None,
        }
    } else {
        match host.index_of_last(':') {
            Some(colon) => if all_digits(host.skip(colon + 1)) {
                Some(host.take(colon))
            } else {
                Some(host)
            },
            None => Some(host),
        }
    }
}

/// The name within a host as a visitor wrote it: without white space around it,
/// without a port and without dots at its end, in the case it was written in.
pub open spec fn bare_host(host: Seq<char>) -> Option<Seq<char>> {
    match without_port(trimmed(host)) {
        Some(name) => if without_dots(name).len() > 0 {
            Some(without_dots(name))
        } else {
            None
        },
        None => None,
    }
}

/// The form of a host that tunnels are registered under: its bare name in lowercase.
pub open spec fn normalized_host(host: Seq<char>) -> Option<Seq<char>> {
    match bare_host(host) {
        Some(name) => Some(lowercase(name)),
        None => None,
    }
}

/// Brings a host into the form that tunnels are registered under. The result is
/// borrowed unless letters had to be changed.
pub fn normalize_host(host: &str) -> (normalized: Option<Cow<'_, str>>)
    ensures
        match normalized {
            Some(name) => normalized_host(host@) == Some(name@),
            None => normalized_host(host@) is None,
        },
        normalized matches Some(name) ==> (name is Borrowed <==> normalized_host(host@) == bare_host(
            host@,
        )),
{
    let chars = chars_of(host);
    let (first, last) = trim_white_space(&chars);
    let ghost inner = chars@.subrange(first as int, last as int);
    if first == last {
        assert(inner.len() == 0);
        proof {
            inner.index_of_last_ensures(':');
        }
        return None;
    }
    let (start, end) = if chars[first] == '[' {
        match find_char(&chars, first + 1, last, ']') {
            Some(close) => {
                proof {
                    let rest = inner.drop_first();
                    assert(rest == chars@.subrange(first + 1, last as int));
                    assert(rest.take(close - first - 1) == chars@.subrange(
                        first + 1,
                        close as int,
                    ));
                }
                (first + 1, close)
            },
            None => {
                assert(inner.drop_first() == chars@.subrange(first + 1, last as int));
                return None;
            },
        }
    } else {
        (first, port_start(&chars, first, last))
    };
    let ghost name = chars@.subrange(start as int, end as int);
    assert(without_port(inner) == Some(name));
    let end = trim_dots(&chars, start, end);
    if start == end {
        return None;
    }
    let bare = host.substring_char(start, end);
    if has_upper(&chars, start, end) {
        let lower = bare.to_ascii_lowercase();
        proof {
            let upper = choose|i: int| start <= i < end && is_ascii_upper(#[trigger] chars[i]);
            assert(bare@[upper - start] == chars[upper]);
            assert(lower@[upper - start] == ascii_lower(chars[upper]));
        }
        Some(Cow::Owned(lower))
    } else {
        assert(lowercase(bare@) == bare@);
        Some(Cow::Borrowed(bare))
    }
}

fn trim_white_space(chars: &Vec<char>) -> (bounds: (usize, usize))
    ensures
        bounds.0 <= bounds.1 <= chars.len(),
        trimmed(chars@) == chars@.subrange(bounds.0 as int, bounds.1 as int),
{
    let ghost cut = |c: char| is_white_space(c);
    let mut start: usize = 0;
    while start < chars.len() && white_space(chars[start])
        invariant
            start <= chars.len(),
            forall|i: int| 0 <= i < start ==> is_white_space(#[trigger] chars[i]),
        decreases chars.len() - start,
    {
        start = start + 1;
    }
    let mut end: usize = chars.len();
    while end > start && white_space(chars[end - 1])
        invariant
            start <= end <= chars.len(),
            forall|i: int| end <= i < chars.len() ==> is_white_space(#[trigger] chars[i]),
        decreases end,
    {
        end = end - 1;
    }
    proof {
        let tail = chars@.skip(start as int);
        lemma_trim_start(chars@, cut, start as int);
        assert forall|i: int| end - start <= i < tail.len() implies cut(#[trigger] tail[i]) by {
            assert(tail[i] == chars@[i + start]);
        }
        lemma_trim_end(tail, cut, end - start);
        assert(tail.take(end - start) == chars@.subrange(start as int, end as int));
    }
    (start, end)
}

fn find_char(chars: &Vec<char>, start: usize, end: usize, wanted: char) -> (found: Option<usize>)
    requires
        start <= end <= chars.len(),
    ensures
        match found {
            Some(index) => start <= index < end && chars@.subrange(
                start as int,
                end as int,
            ).index_of_first(wanted) == Some(index - start),
            None => chars@.subrange(start as int, end as int).index_of_first(wanted) is None,
        },
{
    let ghost part = chars@.subrange(start as int, end as int);
    for index in start..end
        invariant
            end <= chars.len(),
            part == chars@.subrange(start as int, end as int),
            forall|i: int| 0 <= i < index - start ==> part[i] != wanted,
    {
        if chars[index] == wanted {
            proof {
                lemma_index_of_first(part, wanted, index - start);
            }
            return Some(index);
        }
    }
    proof {
        part.index_of_first_ensures(wanted);
    }
    None
}

/// The index at which a host that does not start with a bracket gives way to its port.
fn port_start(chars: &Vec<char>, start: usize, end: usize) -> (port: usize)
    requires
        start < end <= chars.len(),
        chars[start as int] != '[',
    ensures
        start <= port <= end,
        without_port(chars@.subrange(start as int, end as int)) == Some(
            chars@.subrange(start as int, port as int),
        ),
{
    let ghost host = chars@.subrange(start as int, end as int);
    let mut index: usize = end;
    let mut digits: bool = true;
    while index > start
        invariant
            start <= index <= end <= chars.len(),
            host == chars@.subrange(start as int, end as int),
            host.len() > 0 && host.first() != '[',
            forall|i: int| index - start <= i < host.len() ==> host[i] != ':',
            digits == all_digits(host.skip(index - start)),
        decreases index,
    {
        index = index - 1;
        let c = chars[index];
        assert(c == host[index - start]);
        if c == ':' {
            proof {
                lemma_index_of_last(host, ':', index - start);
            }
            if digits {
                assert(host.take(index - start) == chars@.subrange(start as int, index as int));
                return index;
            } else {
                return end;
            }
        }
        let ghost longer = host.skip(index - start);
        let ghost shorter = host.skip(index - start + 1);
        proof {
            assert(longer.drop_first() == shorter);
            assert forall|i: int| 0 <= i < shorter.len() implies shorter[i] == #[trigger] longer[i
                + 1] by {}
            assert(longer[0] == c);
            if digits && '0' <= c <= '9' {
                assert forall|i: int| 0 <= i < longer.len() implies '0' <= #[trigger] longer[i]
                    <= '9' by {
                    if i > 0 {
                        assert(longer[i] == shorter[i - 1]);
                    }
                }
            } else if !digits {
                let bad = choose|i: int|
                    0 <= i < shorter.len() && !('0' <= #[trigger] shorter[i] <= '9');
                assert(longer[bad + 1] == shorter[bad]);
            }
        }
        digits = digits && '0' <= c && c <= '9';
    }
    proof {
        host.index_of_last_ensures(':');
    }
    end
}

fn trim_dots(chars: &Vec<char>, start: usize, end: usize) -> (stop: usize)
    requires
        start <= end <= chars.len(),
    ensures
        start <= stop <= end,
        without_dots(chars@.subrange(start as int, end as int)) == chars@.subrange(
            start as int,
            stop as int,
        ),
{
    let ghost name = chars@.subrange(start as int, end as int);
    let mut stop: usize = end;
    while stop > start && chars[stop - 1] == '.'
        invariant
            start <= stop <= end <= chars.len(),
            name == chars@.subrange(start as int, end as int),
            forall|i: int| stop - start <= i < name.len() ==> #[trigger] name[i] == '.',
        decreases stop,
    {
        stop = stop - 1;
    }
    proof {
        lemma_trim_end(name, |c: char| c == '.', stop - start);
        assert(name.take(stop - start) == chars@.subrange(start as int, stop as int));
    }
    stop
}

fn has_upper(chars: &Vec<char>, start: usize, end: usize) -> (upper: bool)
    requires
        start <= end <= chars.len(),
    ensures
        upper == exists|i: int| start <= i < end && is_ascii_upper(#[trigger] chars[i]),
{
    for index in start..end
        invariant
            end <= chars.len(),
            forall|i: int| start <= i < index ==> !is_ascii_upper(#[trigger] chars[i]),
    {
        let c = chars[index];
        if 'A' <= c && c <= 'Z' {
            return true;
        }
    }
    false
}

/// A host in its registered form is not empty, has none of the letters `A` to
/// `Z` and does not end with a dot.
pub proof fn normalized_host_is_clean(host: Seq<char>)
    ensures
        normalized_host(host) matches Some(name) ==> name.len() > 0 && lowercase(name) == name
            && name.last() != '.',
{
    if let Some(name) = bare_host(host) {
        lemma_trim_end_is_prefix(without_port(trimmed(host))->0, |c: char| c == '.');
        lemma_lowercase_twice(name);
        assert(lowercase(name).last() == ascii_lower(name.last()));
    }
}

/// White space around a host does not matter.
pub proof fn white_space_does_not_matter(host: Seq<char>)
    ensures
        normalized_host(trimmed(host)) == normalized_host(host),
{
    let cut = |c: char| is_white_space(c);
    lemma_trim_ends(host, cut);
    lemma_nothing_to_trim(trimmed(host), cut);
}

proof fn lemma_without_port_of_lowercase(host: Seq<char>)
    ensures
        without_port(lowercase(host)) == match without_port(host) {
            Some(name) => Some(lowercase(name)),
            None => None,
        },
{
    let lower = lowercase(host);
    if host.len() > 0 {
        assert(lower.first() == ascii_lower(host.first()));
    }
    if host.len() > 0 && host.first() == '[' {
        let rest = host.drop_first();
        assert(lower.drop_first() == lowercase(rest));
        rest.index_of_first_ensures(']');
        lowercase(rest).index_of_first_ensures(']');
        if let Some(end) = rest.index_of_first(']') {
            assert(lowercase(rest)[end] == ascii_lower(rest[end]));
            assert forall|i: int| 0 <= i < end implies lowercase(rest)[i] != ']' by {
                assert(lowercase(rest)[i] == ascii_lower(rest[i]));
            }
            lemma_index_of_first(lowercase(rest), ']', end);
            assert(lowercase(rest).take(end) == lowercase(rest.take(end)));
        } else if lowercase(rest).contains(']') {
            let i = choose|i: int| 0 <= i < lowercase(rest).len() && lowercase(rest)[i] == ']';
            assert(lowercase(rest)[i] == ascii_lower(rest[i]));
            assert(rest[i] == ']');
        }
    } else {
        host.index_of_last_ensures(':');
        lower.index_of_last_ensures(':');
        if let Some(colon) = host.index_of_last(':') {
            assert(lower[colon] == ascii_lower(host[colon]));
            assert forall|i: int| colon < i < lower.len() implies lower[i] != ':' by {
                assert(lower[i] == ascii_lower(host[i]));
            }
            lemma_index_of_last(lower, ':', colon);
            let port = host.skip(colon + 1);
            let lower_port = lower.skip(colon + 1);
            assert forall|i: int| 0 <= i < port.len() implies lower_port[i] == ascii_lower(
                #[trigger] port[i],
            ) by {}
            if all_digits(port) {
                assert forall|i: int| 0 <= i < lower_port.len() implies '0'
                    <= #[trigger] lower_port[i] <= '9' by {
                    assert('0' <= port[i] <= '9');
                }
            } else {
                let i = choose|i: int|
                    0 <= i < port.len() && !('0' <= #[trigger] port[i] <= '9');
                assert(!('0' <= lower_port[i] <= '9'));
            }
            assert(lower.take(colon) == lowercase(host.take(colon)));
        } else if lower.contains(':') {
            let i = choose|i: int| 0 <= i < lower.len() && lower[i] == ':';
            assert(lower[i] == ascii_lower(host[i]));
            assert(host[i] == ':');
        }
    }
}

/// The case in which a host is written does not matter.
pub proof fn case_does_not_matter(host: Seq<char>)
    ensures
        normalized_host(lowercase(host)) == normalized_host(host),
{
    let lower = |c: char| ascii_lower(c);
    let cut = |c: char| is_white_space(c);
    let dot = |c: char| c == '.';
    lemma_trim_start_of_map(host, cut, lower);
    lemma_trim_end_of_map(trim_start(host, cut), cut, lower);
    assert(trimmed(lowercase(host)) == lowercase(trimmed(host)));
    lemma_without_port_of_lowercase(trimmed(host));
    if let Some(name) = without_port(trimmed(host)) {
        lemma_trim_end_of_map(name, dot, lower);
        assert(without_dots(lowercase(name)) == lowercase(without_dots(name)));
        lemma_lowercase_twice(without_dots(name));
    }
}

/// Whether `name` is a plain host name: no white space at its ends, no colon and
/// no bracket at its front.
pub open spec fn is_plain(name: Seq<char>) -> bool {
    &&& name.len() > 0
    &&& !is_white_space(name.first())
    &&& !is_white_space(name.last())
    &&& name.first() != '['
    &&& !name.contains(':')
}

/// The registered form of a plain name is that name in lowercase, without the
/// dots at its end; there is none when it is nothing but dots.
pub proof fn plain_name_is_kept(name: Seq<char>)
    requires
        is_plain(name),
    ensures
        normalized_host(name) == if without_dots(name).len() > 0 {
            Some(lowercase(without_dots(name)))
        } else {
            None
        },
{
    lemma_nothing_to_trim(name, |c: char| is_white_space(c));
    name.index_of_last_ensures(':');
}

/// The port behind a plain name does not matter.
pub proof fn port_does_not_matter(name: Seq<char>, port: Seq<char>)
    requires
        is_plain(name),
        all_digits(port),
    ensures
        normalized_host(name.push(':') + port) == normalized_host(name),
{
    let host = name.push(':') + port;
    let cut = |c: char| is_white_space(c);
    assert(host.first() == name.first());
    if port.len() > 0 {
        assert('0' <= port[port.len() - 1] <= '9');
        assert(host.last() == port[port.len() - 1]);
    } else {
        assert(host.last() == ':');
    }
    lemma_nothing_to_trim(host, cut);
    lemma_nothing_to_trim(name, cut);
    assert(host[name.len() as int] == ':');
    assert forall|i: int| name.len() < i < host.len() implies host[i] != ':' by {
        assert(host[i] == port[i - name.len() - 1]);
    }
    lemma_index_of_last(host, ':', name.len() as int);
    assert(host.skip(name.len() as int + 1) == port);
    assert(host.take(name.len() as int) == name);
    name.index_of_last_ensures(':');
}

/// A dot behind a plain name does not matter; with it the name is still plain.
pub proof fn final_dot_does_not_matter(name: Seq<char>)
    requires
        is_plain(name),
    ensures
        is_plain(name.push('.')),
        normalized_host(name.push('.')) == normalized_host(name),
{
    let dotted = name.push('.');
    assert(dotted.first() == name.first());
    assert forall|i: int| 0 <= i < dotted.len() implies dotted[i] != ':' by {
        if i < name.len() {
            assert(name.contains(name[i]));
        }
    }
    assert(is_plain(dotted));
    plain_name_is_kept(dotted);
    plain_name_is_kept(name);
    assert(dotted.drop_last() == name);
}

/// An address in brackets is what stands between them, whatever follows.
pub proof fn bracketed_address_is_kept(address: Seq<char>, rest: Seq<char>)
    requires
        !address.contains(']'),
        rest.len() > 0 ==> !is_white_space(rest.last()),
    ensures
        normalized_host(seq!['['] + address + seq![']'] + rest) == if without_dots(address).len()
            > 0 {
            Some(lowercase(without_dots(address)))
        } else {
            None
        },
{
    let host = seq!['['] + address + seq![']'] + rest;
    assert(host.first() == '[');
    if rest.len() > 0 {
        assert(host.last() == rest.last());
    } else {
        assert(host.last() == ']');
    }
    lemma_nothing_to_trim(host, |c: char| is_white_space(c));
    let inner = host.drop_first();
    assert(inner[address.len() as int] == ']');
    assert forall|i: int| 0 <= i < address.len() implies inner[i] != ']' by {
        assert(inner[i] == address[i]);
        assert(address.contains(address[i]));
    }
    lemma_index_of_first(inner, ']', address.len() as int);
    assert(inner.take(address.len() as int) == address);
}

/// Whether `text` is all white space.
pub open spec fn is_blank(text: Seq<char>) -> bool {
    forall|i: int| 0 <= i < text.len() ==> is_white_space(#[trigger] text[i])
}

/// Whether `text` is nothing but dots.
pub open spec fn is_dots(text: Seq<char>) -> bool {
    forall|i: int| 0 <= i < text.len() ==> #[trigger] text[i] == '.'
}

/// Whether `text` is a colon with digits behind it, or with nothing.
pub open spec fn is_port(text: Seq<char>) -> bool {
    text.len() > 0 && text[0] == ':' && forall|i: int|
        0 < i < text.len() ==> '0' <= #[trigger] text[i] <= '9'
}

proof fn lemma_white_space_around(before: Seq<char>, shown: Seq<char>, after: Seq<char>)
    requires
        is_blank(before) && is_blank(after),
        shown.len() > 0 ==> !is_white_space(shown.first()) && !is_white_space(shown.last()),
    ensures
        trimmed(before + shown + after) == shown,
{
    lemma_trim_keeps_the_middle(before, shown, after, |c: char| is_white_space(c));
}

proof fn lemma_without_port(name: Seq<char>, port: Seq<char>)
    requires
        name.len() > 0 ==> name.first() != '[',
        is_port(port) || (port.len() == 0 && forall|k: int|
            0 <= k < name.len() && #[trigger] name[k] == ':' ==> exists|j: int|
                k < j < name.len() && !('0' <= #[trigger] name[j] <= '9')),
    ensures
        without_port(name + port) == Some(name),
{
    let host = name + port;
    if port.len() > 0 {
        let colon = name.len() as int;
        assert(host.first() == if name.len() > 0 { name.first() } else { ':' });
        assert(host[colon] == ':');
        assert forall|i: int| colon < i < host.len() implies host[i] != ':' by {
            assert(host[i] == port[i - colon]);
        }
        lemma_index_of_last(host, ':', colon);
        assert forall|i: int| 0 <= i < host.skip(colon + 1).len() implies '0'
            <= #[trigger] host.skip(colon + 1)[i] <= '9' by {
            assert(host.skip(colon + 1)[i] == port[i + 1]);
        }
        assert(host.take(colon) == name);
    } else {
        assert(host == name);
        host.index_of_last_ensures(':');
        if let Some(colon) = host.index_of_last(':') {
            assert(name[colon] == ':');
            let j = choose|j: int| colon < j < name.len() && !('0' <= #[trigger] name[j] <= '9');
            assert(host.skip(colon + 1)[j - colon - 1] == name[j]);
        }
    }
}

proof fn lemma_without_brackets(inner: Seq<char>, rest: Seq<char>)
    requires
        !inner.contains(']'),
    ensures
        without_port(seq!['['] + inner + seq![']'] + rest) == Some(inner),
{
    let host = seq!['['] + inner + seq![']'] + rest;
    let tail = host.drop_first();
    let close = inner.len() as int;
    assert(host.first() == '[');
    assert(tail[close] == ']');
    assert forall|i: int| 0 <= i < close implies tail[i] != ']' by {
        assert(tail[i] == inner[i]);
        assert(inner.contains(inner[i]));
    }
    lemma_index_of_first(tail, ']', close);
    assert(tail.take(close) == inner);
}

/// A host that does not start with a bracket is its name, in lowercase: without
/// the white space around it, without the last colon if digits or nothing follow
/// it, and without all dots before that. Any other colon is part of the name.
pub proof fn host_is_its_name(
    before: Seq<char>,
    name: Seq<char>,
    dots: Seq<char>,
    port: Seq<char>,
    after: Seq<char>,
)
    requires
        is_blank(before) && is_blank(after) && is_dots(dots),
        name.len() > 0,
        !is_white_space(name.first()) && name.first() != '[' && name.last() != '.',
        !is_white_space((name + dots + port).last()),
        is_port(port) || (port.len() == 0 && forall|k: int|
            0 <= k < name.len() && #[trigger] name[k] == ':' ==> dots.len() > 0 || exists|j: int|
                k < j < name.len() && !('0' <= #[trigger] name[j] <= '9')),
    ensures
        normalized_host(before + (name + dots + port) + after) == Some(lowercase(name)),
        bare_host(before + (name + dots + port) + after) == Some(name),
{
    let shown = name + dots + port;
    let dotted = name + dots;
    assert(shown.first() == name.first());
    assert(dotted.first() == name.first());
    lemma_white_space_around(before, shown, after);
    if port.len() == 0 {
        assert forall|k: int| 0 <= k < dotted.len() && #[trigger] dotted[k] == ':' implies exists|
            j: int,
        | k < j < dotted.len() && !('0' <= #[trigger] dotted[j] <= '9') by {
            if k >= name.len() {
                assert(dotted[k] == dots[k - name.len()]);
            } else if dots.len() > 0 {
                let j = dotted.len() - 1;
                assert(dotted[j] == dots[j - name.len()]);
            } else {
                assert(name[k] == ':');
                let j = choose|j: int|
                    k < j < name.len() && !('0' <= #[trigger] name[j] <= '9');
                assert(dotted[j] == name[j]);
            }
        }
    }
    lemma_without_port(dotted, port);
    lemma_trim_end_keeps_the_front(name, dots, |c: char| c == '.');
}

/// A host in brackets is the name between them, in lowercase and without the dots
/// at its end. The first closing bracket counts, and what follows it does not.
pub proof fn bracketed_host_is_its_name(
    before: Seq<char>,
    name: Seq<char>,
    dots: Seq<char>,
    rest: Seq<char>,
    after: Seq<char>,
)
    requires
        is_blank(before) && is_blank(after) && is_dots(dots),
        name.len() > 0,
        name.last() != '.' && !name.contains(']'),
        rest.len() > 0 ==> !is_white_space(rest.last()),
    ensures
        normalized_host(before + (seq!['['] + (name + dots) + seq![']'] + rest) + after) == Some(
            lowercase(name),
        ),
        bare_host(before + (seq!['['] + (name + dots) + seq![']'] + rest) + after) == Some(name),
{
    let inner = name + dots;
    let shown = seq!['['] + inner + seq![']'] + rest;
    assert(shown.first() == '[');
    assert(shown.last() == if rest.len() > 0 { rest.last() } else { ']' });
    lemma_white_space_around(before, shown, after);
    assert forall|i: int| 0 <= i < inner.len() implies inner[i] != ']' by {
        if i < name.len() {
            assert(name.contains(name[i]));
        } else {
            assert(inner[i] == dots[i - name.len()]);
        }
    }
    lemma_without_brackets(inner, rest);
    lemma_trim_end_keeps_the_front(name, dots, |c: char| c == '.');
}

/// There is no host in white space, in dots with or without a port, and in dots
/// in brackets.
pub proof fn host_needs_a_name(
    before: Seq<char>,
    dots: Seq<char>,
    port: Seq<char>,
    rest: Seq<char>,
    after: Seq<char>,
)
    requires
        is_blank(before) && is_blank(after) && is_dots(dots),
        is_port(port) || port.len() == 0,
        rest.len() > 0 ==> !is_white_space(rest.last()),
    ensures
        normalized_host(before) is None,
        normalized_host(before + (dots + port) + after) is None,
        normalized_host(before + (seq!['['] + dots + seq![']'] + rest) + after) is None,
{
    let nothing = Seq::<char>::empty();
    lemma_white_space_around(before, nothing, nothing);
    assert(before + nothing + nothing == before);
    lemma_without_port(nothing, nothing);
    assert(nothing + nothing == nothing);
    lemma_trim_end_keeps_the_front(nothing, nothing, |c: char| c == '.');
    lemma_trim_end_keeps_the_front(nothing, dots, |c: char| c == '.');
    assert(nothing + dots == dots);

    let shown = dots + port;
    if shown.len() > 0 {
        assert(shown.first() == if dots.len() > 0 { dots[0] } else { port[0] });
        assert(shown.last() == if port.len() > 0 { port[port.len() - 1] } else {
            dots[dots.len() - 1]
        });
    }
    lemma_white_space_around(before, shown, after);
    lemma_without_port(dots, port);

    let bracketed = seq!['['] + dots + seq![']'] + rest;
    assert(bracketed.first() == '[');
    assert(bracketed.last() == if rest.len() > 0 { rest.last() } else { ']' });
    lemma_white_space_around(before, bracketed, after);
    assert forall|i: int| 0 <= i < dots.len() implies dots[i] != ']' by {}
    lemma_without_brackets(dots, rest);
}

/// There is no host behind a bracket that is not closed.
pub proof fn bracket_must_be_closed(before: Seq<char>, inner: Seq<char>, after: Seq<char>)
    requires
        is_blank(before) && is_blank(after),
        !inner.contains(']'),
        inner.len() > 0 ==> !is_white_space(inner.last()),
    ensures
        normalized_host(before + (seq!['['] + inner) + after) is None,
{
    let shown = seq!['['] + inner;
    assert(shown.first() == '[');
    assert(shown.last() == if inner.len() > 0 { inner.last() } else { '[' });
    lemma_white_space_around(before, shown, after);
    assert(shown.drop_first() == inner);
    inner.index_of_first_ensures(']');
}

} // verus!
