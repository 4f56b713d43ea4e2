//! Text helpers: characters of a string, prefixes, decimal numbers and case.

use vstd::prelude::*;
use vstd::string::StrSliceExecFns;
use vstd::string::StringExecFns;
use vstd::utf8::decode_utf8;
use vstd::utf8::decode_utf8_encode_utf8;
use vstd::utf8::encode_scalar;
use vstd::utf8::encode_utf8;
use vstd::utf8::encode_utf8_decode_utf8;
use vstd::utf8::encode_utf8_first_scalar;
use vstd::utf8::encode_utf8_valid_utf8;
use vstd::utf8::is_ascii_chars_encode_utf8;
use vstd::utf8::valid_utf8;

verus! {

/// The characters of `text`, in order.
pub fn chars_of(text: &str) -> (chars: Vec<char>)
    ensures
        chars@ == text@,
{
    let mut chars: Vec<char> = Vec::new();
    for c in it: text.chars()
        invariant
            chars@ == it.seq().take(it.index()),
            it.seq() == text@,
    {
        chars.push(c);
    }
    assert(text@.take(text@.len() as int) == text@);
    chars
}

/// `text` without `prefix`, or `None` when it does not start with it.
pub open spec fn without_prefix(text: Seq<char>, prefix: Seq<char>) -> Option<Seq<char>> {
    if prefix.len() <= text.len() && text.take(prefix.len() as int) == prefix {
        Some(text.skip(prefix.len() as int))
    } else {
        None
    }
}

/// Removes `prefix` from the front of `text`, once.
pub fn strip_prefix<'a>(text: &'a str, prefix: &str) -> (rest: Option<&'a str>)
    ensures
        match rest {
            Some(rest) => without_prefix(text@, prefix@) == Some(rest@),
            None => without_prefix(text@, prefix@) is None,
        },
        match rest {
            Some(rest) => text@ == prefix@ + rest@,
            None => !prefix@.is_prefix_of(text@),
        },
{
    proof {
        if prefix@.len() <= text@.len() {
            prefix_is_cut_where_it_stands(text@, prefix@, text@.skip(prefix@.len() as int));
        }
    }
    let chars = chars_of(text);
    let wanted = chars_of(prefix);
    if wanted.len() > chars.len() {
        return None;
    }
    for i in 0..wanted.len()
        invariant
            wanted@ == prefix@,
            chars@ == text@,
            wanted.len() <= chars.len(),
            forall|j: int| 0 <= j < i ==> chars[j] == wanted[j],
    {
        if chars[i] != wanted[i] {
            assert(text@.take(prefix@.len() as int)[i as int] != prefix@[i as int]);
            return None;
        }
    }
    assert(text@.take(prefix@.len() as int) == prefix@);
    Some(text.substring_char(wanted.len(), chars.len()))
}

/// The decimal digit of a number below ten.
pub open spec fn digit_char(n: nat) -> char {
    ('0' as u32 + n) as char
}

/// The decimal digits of `n`, without leading zeros.
pub open spec fn decimal(n: nat) -> Seq<char>
    decreases n,
{
    if n < 10 {
        seq![digit_char(n)]
    } else {
        decimal(n / 10).push(digit_char(n % 10))
    }
}

fn digit_text(n: u64) -> (text: &'static str)
    requires
        n < 10,
    ensures
        text@ == seq![digit_char(n as nat)],
{
    proof {
        reveal_strlit("0");
        reveal_strlit("1");
        reveal_strlit("2");
        reveal_strlit("3");
        reveal_strlit("4");
        reveal_strlit("5");
        reveal_strlit("6");
        reveal_strlit("7");
        reveal_strlit("8");
        reveal_strlit("9");
    }
    match n {
        0 => "0",
        1 => "1",
        2 => "2",
        3 => "3",
        4 => "4",
        5 => "5",
        6 => "6",
        7 => "7",
        8 => "8",
        _ => "9",
    }
}

/// Appends `n` to `out` in decimal.
pub fn append_decimal(out: &mut String, n: u64)
    ensures
        final(out)@ == old(out)@ + decimal(n as nat),
    decreases n,
{
    if n < 10 {
        out.append(digit_text(n));
    } else {
        append_decimal(out, n / 10);
        out.append(digit_text(n % 10));
        assert(out@ == old(out)@ + decimal(n as nat));
    }
}

/// Whether `c` is one of the letters `A` to `Z`.
pub open spec fn is_ascii_upper(c: char) -> bool {
    'A' <= c <= 'Z'
}

/// `c` with the letters `A` to `Z` mapped to `a` to `z`.
pub open spec fn ascii_lower(c: char) -> char {
    if is_ascii_upper(c) {
        (c as u32 + 32) as char
    } else {
        c
    }
}

/// `text` with the letters `A` to `Z` mapped to `a` to `z`.
pub open spec fn lowercase(text: Seq<char>) -> Seq<char> {
    text.map_values(|c: char| ascii_lower(c))
}

/// Text in lowercase stays as it is.
pub proof fn lemma_lowercase_twice(text: Seq<char>)
    ensures
        lowercase(lowercase(text)) == lowercase(text),
{
    assert forall|i: int| 0 <= i < text.len() implies #[trigger] lowercase(lowercase(text))[i]
        == lowercase(text)[i] by {
        assert(lowercase(text)[i] == ascii_lower(text[i]));
    }
}

/// `str::to_ascii_lowercase`: a copy in which the letters `A` to `Z` are mapped
/// to `a` to `z` and every other character is unchanged.
pub assume_specification[ str::to_ascii_lowercase ](text: &str) -> (lower: String)
    ensures
        lower@ == lowercase(text@),
;

/// The error of `std::str::from_utf8`.
#[verifier::external_type_specification]
#[verifier::external_body]
pub struct ExUtf8Error(core::str::Utf8Error);

/// `std::str::from_utf8`: the text whose UTF-8 form the bytes are, or an error
/// when they are not valid UTF-8. Nothing is said of the error.
pub assume_specification[ core::str::from_utf8 ](bytes: &[u8]) -> (text: Result<
    &str,
    core::str::Utf8Error,
>)
    ensures
        text is Ok <==> valid_utf8(bytes@),
        text matches Ok(text) ==> encode_utf8(text@) == bytes@,
;

/// The text whose UTF-8 form is `bytes`.
pub open spec fn utf8_text(bytes: Seq<u8>) -> Option<Seq<char>> {
    if valid_utf8(bytes) {
        Some(decode_utf8(bytes))
    } else {
        None
    }
}

/// Reads `bytes` as UTF-8.
pub fn text_of(bytes: &[u8]) -> (text: Option<&str>)
    ensures
        match text {
            Some(text) => utf8_text(bytes@) == Some(text@),
            None => utf8_text(bytes@) is None,
        },
        match text {
            Some(text) => encode_utf8(text@) == bytes@,
            None => !valid_utf8(bytes@),
        },
{
    match core::str::from_utf8(bytes) {
        Ok(text) => {
            proof {
                encode_utf8_decode_utf8(text@);
            }
            Some(text)
        },
        Err(_) => None,
    }
}

/// `items` without the run at its front that `cut` holds of.
pub open spec fn trim_start<T>(items: Seq<T>, cut: spec_fn(T) -> bool) -> Seq<T>
    decreases items.len(),
{
    if items.len() > 0 && cut(items.first()) {
        trim_start(items.drop_first(), cut)
    } else {
        items
    }
}

/// `items` without the run at its back that `cut` holds of.
pub open spec fn trim_end<T>(items: Seq<T>, cut: spec_fn(T) -> bool) -> Seq<T>
    decreases items.len(),
{
    if items.len() > 0 && cut(items.last()) {
        trim_end(items.drop_last(), cut)
    } else {
        items
    }
}

/// `items` without the runs at either end that `cut` holds of.
pub open spec fn trim<T>(items: Seq<T>, cut: spec_fn(T) -> bool) -> Seq<T> {
    trim_end(trim_start(items, cut), cut)
}

/// What is cut from the front ends before the first item that is kept.
pub proof fn lemma_trim_start<T>(items: Seq<T>, cut: spec_fn(T) -> bool, start: int)
    requires
        0 <= start <= items.len(),
        forall|i: int| 0 <= i < start ==> cut(#[trigger] items[i]),
        start < items.len() ==> !cut(items[start]),
    ensures
        trim_start(items, cut) == items.skip(start),
    decreases start,
{
    if start > 0 {
        let rest = items.drop_first();
        assert forall|i: int| 0 <= i < start - 1 implies cut(#[trigger] rest[i]) by {
            assert(rest[i] == items[i + 1]);
        }
        lemma_trim_start(rest, cut, start - 1);
        assert(rest.skip(start - 1) == items.skip(start));
        assert(cut(items[0]));
    } else {
        assert(items.skip(0) == items);
    }
}

/// What is cut from the back starts behind the last item that is kept.
pub proof fn lemma_trim_end<T>(items: Seq<T>, cut: spec_fn(T) -> bool, end: int)
    requires
        0 <= end <= items.len(),
        forall|i: int| end <= i < items.len() ==> cut(#[trigger] items[i]),
        end > 0 ==> !cut(items[end - 1]),
    ensures
        trim_end(items, cut) == items.take(end),
    decreases items.len() - end,
{
    if end < items.len() {
        let rest = items.drop_last();
        assert forall|i: int| end <= i < rest.len() implies cut(#[trigger] rest[i]) by {
            assert(rest[i] == items[i]);
        }
        lemma_trim_end(rest, cut, end);
        assert(rest.take(end) == items.take(end));
        assert(cut(items[items.len() - 1]));
    } else {
        assert(items.take(end) == items);
    }
}

/// A first occurrence is where `index_of_first` points.
pub proof fn lemma_index_of_first<T>(items: Seq<T>, item: T, index: int)
    requires
        0 <= index < items.len(),
        items[index] == item,
        forall|i: int| 0 <= i < index ==> items[i] != item,
    ensures
        items.index_of_first(item) == Some(index),
{
    items.index_of_first_ensures(item);
}

/// A last occurrence is where `index_of_last` points.
pub proof fn lemma_index_of_last<T>(items: Seq<T>, item: T, index: int)
    requires
        0 <= index < items.len(),
        items[index] == item,
        forall|i: int| index < i < items.len() ==> items[i] != item,
    ensures
        items.index_of_last(item) == Some(index),
{
    items.index_of_last_ensures(item);
}

/// Nothing is left to cut at the ends of what was trimmed.
pub proof fn lemma_trim_ends<T>(items: Seq<T>, cut: spec_fn(T) -> bool)
    ensures
        trim(items, cut).len() > 0 ==> !cut(trim(items, cut).first()) && !cut(
            trim(items, cut).last(),
        ),
{
    lemma_trim_start_stops(items, cut);
    let front = trim_start(items, cut);
    lemma_trim_end_is_prefix(front, cut);
    let kept = trim_end(front, cut);
    if kept.len() > 0 {
        assert(kept.first() == front.first());
    }
}

proof fn lemma_trim_start_stops<T>(items: Seq<T>, cut: spec_fn(T) -> bool)
    ensures
        trim_start(items, cut).len() > 0 ==> !cut(trim_start(items, cut).first()),
    decreases items.len(),
{
    if items.len() > 0 && cut(items.first()) {
        lemma_trim_start_stops(items.drop_first(), cut);
    }
}

/// What was cut at the back is all that is missing there.
pub proof fn lemma_trim_end_is_prefix<T>(items: Seq<T>, cut: spec_fn(T) -> bool)
    ensures
        trim_end(items, cut).len() > 0 ==> !cut(trim_end(items, cut).last()),
        trim_end(items, cut).len() <= items.len(),
        trim_end(items, cut) == items.take(trim_end(items, cut).len() as int),
    decreases items.len(),
{
    if items.len() > 0 && cut(items.last()) {
        lemma_trim_end_is_prefix(items.drop_last(), cut);
        let kept = trim_end(items, cut).len() as int;
        assert(items.drop_last().take(kept) == items.take(kept));
    } else {
        assert(items.take(items.len() as int) == items);
    }
}

/// A sequence that `cut` does not hold of at either end is not trimmed.
pub proof fn lemma_nothing_to_trim<T>(items: Seq<T>, cut: spec_fn(T) -> bool)
    requires
        items.len() > 0 ==> !cut(items.first()) && !cut(items.last()),
    ensures
        trim(items, cut) == items,
{
}

/// Trimming a mapped sequence maps the trimmed one, if `cut` does not tell items
/// from what they are mapped to.
pub proof fn lemma_trim_start_of_map<T>(items: Seq<T>, cut: spec_fn(T) -> bool, f: spec_fn(T) -> T)
    requires
        forall|item: T| cut(#[trigger] f(item)) == cut(item),
    ensures
        trim_start(items.map_values(f), cut) == trim_start(items, cut).map_values(f),
    decreases items.len(),
{
    let mapped = items.map_values(f);
    if items.len() > 0 {
        assert(mapped.first() == f(items.first()));
        if cut(items.first()) {
            lemma_trim_start_of_map(items.drop_first(), cut, f);
            assert(mapped.drop_first() == items.drop_first().map_values(f));
        }
    }
}

/// The same for what is cut at the back.
pub proof fn lemma_trim_end_of_map<T>(items: Seq<T>, cut: spec_fn(T) -> bool, f: spec_fn(T) -> T)
    requires
        forall|item: T| cut(#[trigger] f(item)) == cut(item),
    ensures
        trim_end(items.map_values(f), cut) == trim_end(items, cut).map_values(f),
    decreases items.len(),
{
    let mapped = items.map_values(f);
    if items.len() > 0 {
        assert(mapped.last() == f(items.last()));
        if cut(items.last()) {
            lemma_trim_end_of_map(items.drop_last(), cut, f);
            assert(mapped.drop_last() == items.drop_last().map_values(f));
        }
    }
}

/// The digits of a number are digits.
pub proof fn lemma_decimal_is_digits(n: nat)
    ensures
        decimal(n).len() > 0,
        forall|i: int| 0 <= i < decimal(n).len() ==> '0' <= #[trigger] decimal(n)[i] <= '9',
    decreases n,
{
    if n >= 10 {
        lemma_decimal_is_digits(n / 10);
    }
}

/// The UTF-8 form of a text is that of its parts.
pub proof fn lemma_encode_concat(a: Seq<char>, b: Seq<char>)
    ensures
        encode_utf8(a + b) == encode_utf8(a) + encode_utf8(b),
    decreases a.len(),
{
    if a.len() == 0 {
        assert(a + b == b);
        assert(encode_utf8(a) + encode_utf8(b) == encode_utf8(b));
    } else {
        assert((a + b).drop_first() == a.drop_first() + b);
        lemma_encode_concat(a.drop_first(), b);
        let first = encode_scalar(a[0] as u32);
        let rest = encode_utf8(a.drop_first());
        assert((a + b)[0] == a[0]);
        assert(first + (rest + encode_utf8(b)) == first + rest + encode_utf8(b));
    }
}

proof fn lemma_scalar_bytes(c: char, other: char)
    requires
        other <= '\u{7f}',
        c != other,
    ensures
        forall|i: int|
            0 <= i < encode_scalar(c as u32).len() ==> #[trigger] encode_scalar(c as u32)[i]
                != other as u8,
{
    let text = seq![c];
    encode_utf8_first_scalar(text);
    assert(encode_utf8(text.drop_first()) == Seq::<u8>::empty());
    assert(encode_utf8(text) == encode_scalar(c as u32));
    if c <= '\u{7f}' {
        is_ascii_chars_encode_utf8(text);
        assert(text[0] as u8 == encode_utf8(text)[0]);
    }
}

/// The UTF-8 form of a text holds an ASCII character only where the text does.
pub proof fn lemma_encode_adds_no_ascii(text: Seq<char>, c: char)
    requires
        c <= '\u{7f}',
        !text.contains(c),
    ensures
        !encode_utf8(text).contains(c as u8),
    decreases text.len(),
{
    let bytes = encode_utf8(text);
    if text.len() > 0 {
        let rest = text.drop_first();
        let first = encode_scalar(text[0] as u32);
        assert(text.contains(text[0]));
        assert(!rest.contains(c)) by {
            if rest.contains(c) {
                let i = choose|i: int| 0 <= i < rest.len() && rest[i] == c;
                assert(text[i + 1] == c);
            }
        }
        lemma_encode_adds_no_ascii(rest, c);
        lemma_scalar_bytes(text[0], c);
        assert forall|i: int| 0 <= i < bytes.len() implies bytes[i] != c as u8 by {
            if i < first.len() {
                assert(bytes[i] == first[i]);
            } else {
                assert(bytes[i] == encode_utf8(rest)[i - first.len()]);
                assert(encode_utf8(rest).contains(bytes[i]));
            }
        }
    }
}

/// A prefix is cut from every text that starts with it, and from no other.
pub proof fn prefix_is_cut_where_it_stands(text: Seq<char>, prefix: Seq<char>, rest: Seq<char>)
    ensures
        without_prefix(prefix + rest, prefix) == Some(rest),
        without_prefix(text, prefix) == Some(rest) <==> text == prefix + rest,
        without_prefix(text, prefix) is None <==> !prefix.is_prefix_of(text),
{
    let whole = prefix + rest;
    assert(whole.take(prefix.len() as int) == prefix);
    assert(whole.skip(prefix.len() as int) == rest);
    if without_prefix(text, prefix) == Some(rest) {
        assert(text == text.take(prefix.len() as int) + text.skip(prefix.len() as int));
    }
    if prefix.len() <= text.len() {
        assert(text.take(prefix.len() as int) == text.subrange(0, prefix.len() as int));
    }
}

/// The number that decimal digits stand for, read from the left.
pub open spec fn number_of(digits: Seq<char>) -> int
    decreases digits.len(),
{
    if digits.len() == 0 {
        0
    } else {
        10 * number_of(digits.drop_last()) + (digits.last() as u32 - 0x30)
    }
}

/// A number in decimal is made of digits, stands for that number, and starts with
/// a zero only if it is one.
pub proof fn decimal_stands_for_its_number(n: nat)
    ensures
        number_of(decimal(n)) == n,
        decimal(n).len() > 0,
        forall|i: int| 0 <= i < decimal(n).len() ==> '0' <= #[trigger] decimal(n)[i] <= '9',
        decimal(n)[0] == '0' ==> n == 0 && decimal(n).len() == 1,
    decreases n,
{
    lemma_decimal_is_digits(n);
    if n < 10 {
        assert(decimal(n).drop_last() == Seq::<char>::empty());
        assert(number_of(Seq::<char>::empty()) == 0);
        assert(decimal(n).last() as u32 == 0x30 + n);
    } else {
        decimal_stands_for_its_number(n / 10);
        assert(decimal(n).drop_last() == decimal(n / 10));
        assert(decimal(n)[0] == decimal(n / 10)[0]);
        assert(decimal(n).last() as u32 == 0x30 + n % 10);
        assert(n == 10 * (n / 10) + n % 10);
    }
}

/// In lowercase each of the letters `A` to `Z` gives way to the small letter 32
/// places on, and every other character stays.
pub proof fn lowercase_changes_capitals_alone(text: Seq<char>)
    ensures
        lowercase(text).len() == text.len(),
        forall|i: int|
            0 <= i < text.len() ==> if 0x41 <= text[i] as u32 <= 0x5a {
                #[trigger] lowercase(text)[i] as u32 == text[i] as u32 + 0x20
            } else {
                lowercase(text)[i] == text[i]
            },
{
    assert forall|i: int| 0 <= i < text.len() implies if 0x41 <= text[i] as u32 <= 0x5a {
        #[trigger] lowercase(text)[i] as u32 == text[i] as u32 + 0x20
    } else {
        lowercase(text)[i] == text[i]
    } by {
        assert(lowercase(text)[i] == ascii_lower(text[i]));
    }
}

/// Bytes are read as the text that they are the UTF-8 form of, and as none when
/// they are not valid.
pub proof fn text_is_read_as_written(text: Seq<char>, bytes: Seq<u8>)
    ensures
        utf8_text(encode_utf8(text)) == Some(text),
        utf8_text(bytes) == Some(text) ==> encode_utf8(text) == bytes,
        utf8_text(bytes) is None <==> !valid_utf8(bytes),
{
    encode_utf8_valid_utf8(text);
    encode_utf8_decode_utf8(text);
    if valid_utf8(bytes) {
        decode_utf8_encode_utf8(bytes);
    }
}

/// Trimming cuts all that can be cut at the ends, and nothing else.
pub proof fn lemma_trim_keeps_the_middle<T>(
    front: Seq<T>,
    middle: Seq<T>,
    back: Seq<T>,
    cut: spec_fn(T) -> bool,
)
    requires
        forall|i: int| 0 <= i < front.len() ==> cut(#[trigger] front[i]),
        forall|i: int| 0 <= i < back.len() ==> cut(#[trigger] back[i]),
        middle.len() > 0 ==> !cut(middle.first()) && !cut(middle.last()),
    ensures
        trim(front + middle + back, cut) == middle,
{
    let all = front + middle + back;
    let start = if middle.len() > 0 { front.len() as int } else { all.len() as int };
    assert forall|i: int| 0 <= i < start implies cut(#[trigger] all[i]) by {
        if i < front.len() {
            assert(all[i] == front[i]);
        } else {
            assert(all[i] == back[i - front.len()]);
        }
    }
    if middle.len() > 0 {
        assert(all[start] == middle[0]);
    }
    lemma_trim_start(all, cut, start);
    let rest = all.skip(start);
    if middle.len() > 0 {
        assert(rest == middle + back);
        lemma_trim_end_keeps_the_front(middle, back, cut);
    } else {
        assert(rest == Seq::<T>::empty());
        assert(trim_end(rest, cut) == rest);
    }
}

/// Trimming the back cuts all that can be cut there, and nothing else.
pub proof fn lemma_trim_end_keeps_the_front<T>(
    front: Seq<T>,
    back: Seq<T>,
    cut: spec_fn(T) -> bool,
)
    requires
        forall|i: int| 0 <= i < back.len() ==> cut(#[trigger] back[i]),
        front.len() > 0 ==> !cut(front.last()),
    ensures
        trim_end(front + back, cut) == front,
{
    let all = front + back;
    let end = front.len() as int;
    assert forall|i: int| end <= i < all.len() implies cut(#[trigger] all[i]) by {
        assert(all[i] == back[i - end]);
    }
    if end > 0 {
        assert(all[end - 1] == front.last());
    }
    lemma_trim_end(all, cut, end);
    assert(all.take(end) == front);
}

} // verus!
