//! Reading and writing bencode, as far as the extension protocol and the
//! `info` dictionary need it: numbers, strings, and finding a key in a
//! dictionary, whatever else the dictionary holds.

use vstd::prelude::*;

verus! {

/// Whether the byte is a decimal digit.
pub open spec fn is_digit(byte: u8) -> bool {
    48 <= byte <= 57
}

/// Where the run of digits that begins at `pos` ends.
pub open spec fn digits_end(bytes: Seq<u8>, pos: int) -> int
    decreases bytes.len() - pos,
{
    if 0 <= pos < bytes.len() && is_digit(bytes[pos]) {
        digits_end(bytes, pos + 1)
    } else {
        pos
    }
}

/// The number that the digits from `from` up to `to` stand for.
pub open spec fn digits_value(bytes: Seq<u8>, from: int, to: int) -> nat
    decreases to - from,
{
    if to <= from {
        0
    } else {
        (digits_value(bytes, from, to - 1) * 10 + (bytes[to - 1] - 48)) as nat
    }
}

/// A number that was read: its digits stand for `value`, and what follows
/// them begins at `end`.
pub struct Number {
    pub value: u64,
    pub end: usize,
}

/// The number whose digits begin at `pos`: `None` where no digit stands, and
/// for a number that does not fit in 64 bits.
pub open spec fn number_at(bytes: Seq<u8>, pos: int) -> Option<Number> {
    let end = digits_end(bytes, pos);
    if 0 <= pos < end && digits_value(bytes, pos, end) <= u64::MAX {
        Some(Number { value: digits_value(bytes, pos, end) as u64, end: end as usize })
    } else {
        None
    }
}

/// The run of digits ends within the bytes, and behind the place where it
/// begins exactly if a digit stands there.
pub proof fn lemma_digits_end(bytes: Seq<u8>, pos: int)
    requires
        0 <= pos <= bytes.len(),
    ensures
        pos <= digits_end(bytes, pos) <= bytes.len(),
        forall|k: int| pos <= k < digits_end(bytes, pos) ==> is_digit(#[trigger] bytes[k]),
        digits_end(bytes, pos) < bytes.len() ==> !is_digit(bytes[digits_end(bytes, pos)]),
    decreases bytes.len() - pos,
{
    if pos < bytes.len() && is_digit(bytes[pos]) {
        lemma_digits_end(bytes, pos + 1);
    }
}

/// A run of digits ends where its tail ends.
proof fn lemma_digits_end_from(bytes: Seq<u8>, pos: int, at: int)
    requires
        0 <= pos <= at <= bytes.len(),
        forall|k: int| pos <= k < at ==> is_digit(#[trigger] bytes[k]),
    ensures
        digits_end(bytes, pos) == digits_end(bytes, at),
    decreases at - pos,
{
    if pos < at {
        lemma_digits_end_from(bytes, pos + 1, at);
    }
}

/// The value of a run of digits grows with the run.
proof fn lemma_digits_value_grows(bytes: Seq<u8>, from: int, mid: int, to: int)
    requires
        0 <= from <= mid <= to <= bytes.len(),
        forall|k: int| from <= k < to ==> is_digit(#[trigger] bytes[k]),
    ensures
        digits_value(bytes, from, mid) <= digits_value(bytes, from, to),
    decreases to - mid,
{
    if mid < to {
        lemma_digits_value_grows(bytes, from, mid, to - 1);
        assert(digits_value(bytes, from, to - 1) * 10 >= digits_value(bytes, from, to - 1))
            by (nonlinear_arith);
        assert(is_digit(bytes[to - 1]));
    }
}

/// Reads the number whose digits begin at `pos`.
pub fn read_number(bytes: &[u8], pos: usize) -> (number: Option<Number>)
    requires
        pos <= bytes@.len(),
    ensures
        number == number_at(bytes@, pos as int),
        number is Some ==> pos < number->0.end <= bytes@.len(),
{
    let len: usize = bytes.len();
    let mut at: usize = pos;
    let mut value: u64 = 0;
    proof {
        lemma_digits_end(bytes@, pos as int);
    }
    while at < len && bytes[at] >= 48 && bytes[at] <= 57
        invariant
            pos <= at <= len,
            len == bytes@.len(),
            forall|k: int| pos <= k < at ==> is_digit(#[trigger] bytes@[k]),
            value == digits_value(bytes@, pos as int, at as int),
        decreases len - at,
    {
        let digit: u64 = (bytes[at] - 48) as u64;
        if value > (u64::MAX - digit) / 10 {
            proof {
                let end = digits_end(bytes@, pos as int);
                lemma_digits_end_from(bytes@, pos as int, at as int);
                lemma_digits_end(bytes@, at as int);
                assert(end > at);
                lemma_digits_value_grows(bytes@, pos as int, at + 1, end);
                assert(digits_value(bytes@, pos as int, at + 1) == value * 10 + digit);
            }
            return None;
        }
        value = value * 10 + digit;
        at = at + 1;
    }
    proof {
        lemma_digits_end_from(bytes@, pos as int, at as int);
    }
    if at == pos {
        None
    } else {
        Some(Number { value, end: at })
    }
}

/// A string that was read: its bytes begin at `start` and end before `end`.
pub struct Span {
    pub start: usize,
    pub end: usize,
}

/// The string that begins at `pos` with its length: `None` unless a number,
/// a colon and that many bytes stand there.
pub open spec fn string_at(bytes: Seq<u8>, pos: int) -> Option<Span> {
    match number_at(bytes, pos) {
        None => None,
        Some(length) => {
            if length.end < bytes.len() && bytes[length.end as int] == 58 && length.end + 1
                + length.value <= bytes.len() {
                Some(
                    Span {
                        start: (length.end + 1) as usize,
                        end: (length.end + 1 + length.value) as usize,
                    },
                )
            } else {
                None
            }
        },
    }
}

/// Reads the string that begins at `pos`.
pub fn read_string(bytes: &[u8], pos: usize) -> (span: Option<Span>)
    requires
        pos <= bytes@.len(),
    ensures
        span == string_at(bytes@, pos as int),
        span is Some ==> pos < span->0.start <= span->0.end <= bytes@.len(),
{
    let len: usize = bytes.len();
    match read_number(bytes, pos) {
        None => None,
        Some(length) => {
            if length.end < len && bytes[length.end] == 58 && length.value <= (len - length.end
                - 1) as u64 {
                Some(Span { start: length.end + 1, end: length.end + 1 + length.value as usize })
            } else {
                None
            }
        },
    }
}

/// Where the integer ends that begins at `pos` with `i`: `None` unless an
/// `i`, an optional minus sign, at least one digit and an `e` stand there.
pub open spec fn integer_end(bytes: Seq<u8>, pos: int) -> Option<int> {
    if 0 <= pos < bytes.len() && bytes[pos] == 105 {
        let first = if pos + 1 < bytes.len() && bytes[pos + 1] == 45 {
            pos + 2
        } else {
            pos + 1
        };
        let end = digits_end(bytes, first);
        if first < end < bytes.len() && bytes[end] == 101 {
            Some(end + 1)
        } else {
            None
        }
    } else {
        None
    }
}

/// The integer that begins at `pos`, if it is not negative and fits in 64
/// bits.
pub open spec fn integer_at(bytes: Seq<u8>, pos: int) -> Option<Number> {
    if 0 <= pos < bytes.len() && bytes[pos] == 105 {
        match number_at(bytes, pos + 1) {
            None => None,
            Some(number) => {
                if number.end < bytes.len() && bytes[number.end as int] == 101 {
                    Some(Number { value: number.value, end: (number.end + 1) as usize })
                } else {
                    None
                }
            },
        }
    } else {
        None
    }
}

/// Reads the integer that begins at `pos`, if it is not negative.
pub fn read_integer(bytes: &[u8], pos: usize) -> (number: Option<Number>)
    requires
        pos <= bytes@.len(),
    ensures
        number == integer_at(bytes@, pos as int),
        number is Some ==> pos < number->0.end <= bytes@.len(),
{
    let len: usize = bytes.len();
    if pos >= len || bytes[pos] != 105 {
        return None;
    }
    match read_number(bytes, pos + 1) {
        None => None,
        Some(number) => {
            if number.end < len && bytes[number.end] == 101 {
                Some(Number { value: number.value, end: number.end + 1 })
            } else {
                None
            }
        },
    }
}

/// Where the digits end that begin at `pos`.
fn skip_digits(bytes: &[u8], pos: usize) -> (end: usize)
    requires
        pos <= bytes@.len(),
    ensures
        end == digits_end(bytes@, pos as int),
        pos <= end <= bytes@.len(),
{
    let len: usize = bytes.len();
    let mut at: usize = pos;
    while at < len && bytes[at] >= 48 && bytes[at] <= 57
        invariant
            pos <= at <= len,
            len == bytes@.len(),
            forall|k: int| pos <= k < at ==> is_digit(#[trigger] bytes@[k]),
        decreases len - at,
    {
        at = at + 1;
    }
    proof {
        lemma_digits_end_from(bytes@, pos as int, at as int);
    }
    at
}

/// Where the string ends that begins at `pos`, whatever its length.
pub open spec fn string_end(bytes: Seq<u8>, pos: int) -> Option<int> {
    let colon = digits_end(bytes, pos);
    let length = digits_value(bytes, pos, colon);
    if 0 <= pos < colon < bytes.len() && bytes[colon] == 58 && colon + 1 + length <= bytes.len() {
        Some(colon + 1 + length)
    } else {
        None
    }
}

/// Where the value ends that begins at `pos`, `depth` lists and dictionaries
/// deep: behind the value itself where `depth` is 0, else behind the `e`
/// that closes the outermost of them. `None` for bytes that are no bencode.
pub open spec fn value_end(bytes: Seq<u8>, pos: int, depth: nat) -> Option<int>
    decreases bytes.len() - pos,
{
    if pos < 0 || pos >= bytes.len() {
        None
    } else if bytes[pos] == 101 {
        if depth == 0 {
            None
        } else if depth == 1 {
            Some(pos + 1)
        } else {
            value_end(bytes, pos + 1, (depth - 1) as nat)
        }
    } else if bytes[pos] == 108 || bytes[pos] == 100 {
        value_end(bytes, pos + 1, depth + 1)
    } else {
        let end = if bytes[pos] == 105 {
            integer_end(bytes, pos)
        } else {
            string_end(bytes, pos)
        };
        match end {
            None => None,
            Some(end) => {
                if depth == 0 {
                    Some(end)
                } else if pos < end {
                    value_end(bytes, end, depth)
                } else {
                    None
                }
            },
        }
    }
}

/// Where the value ends that begins at `pos`.
pub fn skip_value(bytes: &[u8], pos: usize) -> (end: Option<usize>)
    requires
        pos <= bytes@.len(),
    ensures
        match end {
            Some(end) => value_end(bytes@, pos as int, 0) == Some(end as int) && pos < end
                <= bytes@.len(),
            None => value_end(bytes@, pos as int, 0) is None,
        },
{
    let len: usize = bytes.len();
    let mut at: usize = pos;
    let mut depth: usize = 0;
    loop
        invariant
            pos <= at <= len,
            len == bytes@.len(),
            depth <= at - pos,
            value_end(bytes@, pos as int, 0) == value_end(bytes@, at as int, depth as nat),
            at == pos ==> depth == 0,
        decreases len - at,
    {
        if at >= len {
            return None;
        }
        let byte: u8 = bytes[at];
        if byte == 101 {
            if depth == 0 {
                return None;
            }
            at = at + 1;
            depth = depth - 1;
            if depth == 0 {
                return Some(at);
            }
        } else if byte == 108 || byte == 100 {
            at = at + 1;
            depth = depth + 1;
        } else {
            let end: usize = if byte == 105 {
                let first: usize = if at + 1 < len && bytes[at + 1] == 45 {
                    at + 2
                } else {
                    at + 1
                };
                let digits: usize = skip_digits(bytes, first);
                if first < digits && digits < len && bytes[digits] == 101 {
                    digits + 1
                } else {
                    return None;
                }
            } else {
                let colon: usize = skip_digits(bytes, at);
                if at < colon && colon < len && bytes[colon] == 58 {
                    match read_number(bytes, at) {
                        None => {
                            proof {
                                lemma_digits_end(bytes@, at as int);
                            }
                            return None;
                        },
                        Some(length) => {
                            if length.value <= (len - colon - 1) as u64 {
                                colon + 1 + length.value as usize
                            } else {
                                return None;
                            }
                        },
                    }
                } else {
                    return None;
                }
            };
            if depth == 0 {
                return Some(end);
            }
            at = end;
        }
    }
}

/// Whether the bytes from `start` up to `end` are `key`.
pub fn span_is(bytes: &[u8], start: usize, end: usize, key: &[u8]) -> (same: bool)
    requires
        start <= end <= bytes@.len(),
    ensures
        same == (bytes@.subrange(start as int, end as int) == key@),
{
    if end - start != key.len() {
        return false;
    }
    let mut i: usize = 0;
    while i < key.len()
        invariant
            i <= key@.len(),
            start <= end <= bytes@.len(),
            end - start == key@.len(),
            forall|k: int| 0 <= k < i ==> bytes@[start + k] == key@[k],
        decreases key@.len() - i,
    {
        if bytes[start + i] != key[i] {
            assert(bytes@.subrange(start as int, end as int)[i as int] != key@[i as int]);
            return false;
        }
        i = i + 1;
    }
    assert(bytes@.subrange(start as int, end as int) =~= key@);
    true
}

/// Where the value of `key` begins among the entries of a dictionary that
/// go on at `pos`: the first entry with that key counts. `None` if the
/// dictionary ends without the key, or if an entry is no bencode.
pub open spec fn entry_value(bytes: Seq<u8>, pos: int, key: Seq<u8>) -> Option<int>
    decreases bytes.len() - pos,
{
    let name = string_at(bytes, pos);
    let next = value_end(bytes, name->0.end as int, 0);
    if pos < 0 || pos >= bytes.len() || name is None {
        None
    } else if bytes.subrange(name->0.start as int, name->0.end as int) == key {
        Some(name->0.end as int)
    } else if next is Some && pos < next->0 <= bytes.len() {
        entry_value(bytes, next->0, key)
    } else {
        None
    }
}

/// Where the value of `key` begins in the dictionary that begins at `pos`.
pub open spec fn dict_value(bytes: Seq<u8>, pos: int, key: Seq<u8>) -> Option<int> {
    if 0 <= pos < bytes.len() && bytes[pos] == 100 {
        entry_value(bytes, pos + 1, key)
    } else {
        None
    }
}

/// Finds where the value of `key` begins in the dictionary that begins at
/// `pos`.
pub fn find_key(bytes: &[u8], pos: usize, key: &[u8]) -> (value: Option<usize>)
    requires
        pos <= bytes@.len(),
    ensures
        match value {
            Some(at) => dict_value(bytes@, pos as int, key@) == Some(at as int) && pos < at
                <= bytes@.len(),
            None => dict_value(bytes@, pos as int, key@) is None,
        },
{
    let len: usize = bytes.len();
    if pos >= len || bytes[pos] != 100 {
        return None;
    }
    let mut at: usize = pos + 1;
    loop
        invariant
            pos < at <= len,
            len == bytes@.len(),
            dict_value(bytes@, pos as int, key@) == entry_value(bytes@, at as int, key@),
        decreases len - at,
    {
        match read_string(bytes, at) {
            None => {
                return None;
            },
            Some(name) => {
                if span_is(bytes, name.start, name.end, key) {
                    return Some(name.end);
                }
                match skip_value(bytes, name.end) {
                    None => {
                        return None;
                    },
                    Some(next) => {
                        at = next;
                    },
                }
            },
        }
    }
}

/// The number that stands under `key` in the dictionary that begins at
/// `pos`, if there is one and it is not negative.
pub open spec fn dict_number(bytes: Seq<u8>, pos: int, key: Seq<u8>) -> Option<u64> {
    match dict_value(bytes, pos, key) {
        None => None,
        Some(at) => match integer_at(bytes, at) {
            None => None,
            Some(number) => Some(number.value),
        },
    }
}

/// Reads the number that stands under `key` in the dictionary that begins at
/// `pos`.
pub fn get_number(bytes: &[u8], pos: usize, key: &[u8]) -> (number: Option<u64>)
    requires
        pos <= bytes@.len(),
    ensures
        number == dict_number(bytes@, pos as int, key@),
{
    match find_key(bytes, pos, key) {
        None => None,
        Some(at) => match read_integer(bytes, at) {
            None => None,
            Some(number) => Some(number.value),
        },
    }
}

/// The string that stands under `key` in the dictionary that begins at
/// `pos`.
pub open spec fn dict_string(bytes: Seq<u8>, pos: int, key: Seq<u8>) -> Option<Seq<u8>> {
    match dict_value(bytes, pos, key) {
        None => None,
        Some(at) => match string_at(bytes, at) {
            None => None,
            Some(span) => Some(bytes.subrange(span.start as int, span.end as int)),
        },
    }
}

/// Reads the string that stands under `key` in the dictionary that begins
/// at `pos`.
pub fn get_string(bytes: &[u8], pos: usize, key: &[u8]) -> (span: Option<Span>)
    requires
        pos <= bytes@.len(),
    ensures
        match span {
            Some(span) => span.start <= span.end <= bytes@.len() && dict_string(
                bytes@,
                pos as int,
                key@,
            ) == Some(bytes@.subrange(span.start as int, span.end as int)),
            None => dict_string(bytes@, pos as int, key@) is None,
        },
{
    match find_key(bytes, pos, key) {
        None => None,
        Some(at) => read_string(bytes, at),
    }
}

/// The decimal digits of `value`.
pub open spec fn decimal(value: nat) -> Seq<u8>
    decreases value,
{
    if value < 10 {
        seq![(48 + value) as u8]
    } else {
        decimal(value / 10).push((48 + value % 10) as u8)
    }
}

/// Appends the decimal digits of `value` to `out`.
pub fn push_decimal(out: &mut Vec<u8>, value: u64)
    ensures
        final(out)@ == old(out)@ + decimal(value as nat),
    decreases value,
{
    if value < 10 {
        out.push(48 + value as u8);
        assert(out@ =~= old(out)@ + decimal(value as nat));
    } else {
        push_decimal(out, value / 10);
        out.push(48 + (value % 10) as u8);
        assert(out@ =~= old(out)@ + decimal(value as nat));
    }
}

/// The bencode of the number `value`.
pub open spec fn integer(value: nat) -> Seq<u8> {
    seq![105u8] + decimal(value) + seq![101u8]
}

/// Appends the bencode of the number `value` to `out`.
pub fn push_integer(out: &mut Vec<u8>, value: u64)
    ensures
        final(out)@ == old(out)@ + integer(value as nat),
{
    out.push(105);
    push_decimal(out, value);
    out.push(101);
    assert(out@ =~= old(out)@ + integer(value as nat));
}

/// The bencode of the string `text`.
pub open spec fn string(text: Seq<u8>) -> Seq<u8> {
    decimal(text.len()) + seq![58u8] + text
}

/// Appends the bencode of the string `text` to `out`.
pub fn push_string(out: &mut Vec<u8>, text: &[u8])
    ensures
        final(out)@ == old(out)@ + string(text@),
{
    push_decimal(out, text.len() as u64);
    out.push(58);
    out.extend_from_slice(text);
    assert(out@ =~= old(out)@ + string(text@));
}

} // verus!
