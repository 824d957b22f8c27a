//! Text as the library writes and reads it: numbers in decimal and in hex,
//! comparison, splitting, joining and replacing.
//!
//! A text is seen in contracts as its sequence of characters.

use vstd::prelude::*;
use vstd::string::*;
use vstd::utf8::*;

verus! {

// -- digits -------------------------------------------------------------------

/// The hex digit that stands for `d`, in lower case.
pub open spec fn digit(d: int) -> char
    recommends
        0 <= d < 16,
{
    if d < 10 {
        (0x30 + d) as char
    } else {
        (0x57 + d) as char
    }
}

/// The hex digit that stands for `d`, in upper case.
pub open spec fn upper_digit(d: int) -> char
    recommends
        0 <= d < 16,
{
    if d < 10 {
        (0x30 + d) as char
    } else {
        (0x37 + d) as char
    }
}

/// `n` in decimal, without leading zeros.
pub open spec fn decimal(n: nat) -> Seq<char>
    decreases n,
{
    if n < 10 {
        seq![digit(n as int)]
    } else {
        decimal(n / 10).push(digit((n % 10) as int))
    }
}

/// A byte as two hex digits in lower case.
pub open spec fn hex_byte(b: u8) -> Seq<char> {
    seq![digit(b as int / 16), digit(b as int % 16)]
}

/// A byte as two hex digits in upper case.
pub open spec fn upper_hex_byte(b: u8) -> Seq<char> {
    seq![upper_digit(b as int / 16), upper_digit(b as int % 16)]
}

/// A 16-bit number as four hex digits in lower case.
pub open spec fn hex_word(w: u16) -> Seq<char> {
    hex_byte((w / 256) as u8) + hex_byte((w % 256) as u8)
}

fn digit_text(d: u8) -> (text: &'static str)
    requires
        d < 16,
    ensures
        text@ == seq![digit(d as int)],
{
    proof {
        reveal_strlit("0");
        reveal_strlit("1");
        reveal_strlit("2");
        reveal_strlit("3");
        reveal_strlit("4");
        reveal_strlit("5");
        reveal_strlit("6");
        reveal_strlit("7");
        reveal_strlit("8");
        reveal_strlit("9");
        reveal_strlit("a");
        reveal_strlit("b");
        reveal_strlit("c");
        reveal_strlit("d");
        reveal_strlit("e");
        reveal_strlit("f");
    }
    let text = match d {
        0 => "0",
        1 => "1",
        2 => "2",
        3 => "3",
        4 => "4",
        5 => "5",
        6 => "6",
        7 => "7",
        8 => "8",
        9 => "9",
        10 => "a",
        11 => "b",
        12 => "c",
        13 => "d",
        14 => "e",
        _ => "f",
    };
    assert(text@ =~= seq![digit(d as int)]);
    text
}

fn upper_digit_text(d: u8) -> (text: &'static str)
    requires
        d < 16,
    ensures
        text@ == seq![upper_digit(d as int)],
{
    proof {
        reveal_strlit("A");
        reveal_strlit("B");
        reveal_strlit("C");
        reveal_strlit("D");
        reveal_strlit("E");
        reveal_strlit("F");
    }
    let text = match d {
        10 => "A",
        11 => "B",
        12 => "C",
        13 => "D",
        14 => "E",
        15 => "F",
        _ => digit_text(d),
    };
    assert(text@ =~= seq![upper_digit(d as int)]);
    text
}

/// A number in decimal starts with a digit, which is no zero that could be left out.
pub proof fn lemma_decimal_starts(n: nat)
    ensures
        decimal(n).len() > 0,
        '0' <= decimal(n)[0] <= '9',
        n > 0 ==> decimal(n)[0] != '0',
    decreases n,
{
    if n >= 10 {
        lemma_decimal_starts(n / 10);
    }
}

/// Append `n` in decimal.
pub fn push_decimal(out: &mut String, n: u64)
    ensures
        final(out)@ == old(out)@ + decimal(n as nat),
    decreases n,
{
    if n < 10 {
        out.append(digit_text(n as u8));
    } else {
        push_decimal(out, n / 10);
        out.append(digit_text((n % 10) as u8));
    }
    assert(out@ =~= old(out)@ + decimal(n as nat));
}

/// A number in decimal.
pub fn number_text(value: u64) -> (text: String)
    ensures
        text@ == decimal(value as nat),
{
    let mut text = String::new();
    push_decimal(&mut text, value);
    assert(text@ =~= decimal(value as nat));
    text
}

/// A whole number in decimal, with a minus sign where it is negative.
pub open spec fn signed(n: int) -> Seq<char> {
    if n < 0 {
        "-"@ + decimal((-n) as nat)
    } else {
        decimal(n as nat)
    }
}

/// Append a whole number in decimal.
pub fn push_signed(out: &mut String, n: i64)
    ensures
        final(out)@ == old(out)@ + signed(n as int),
{
    if n < 0 {
        out.append("-");
        let size: u64 = if n == i64::MIN {
            0x8000_0000_0000_0000
        } else {
            (-n) as u64
        };
        push_decimal(out, size);
        assert(out@ =~= old(out)@ + signed(n as int));
    } else {
        push_decimal(out, n as u64);
    }
}

/// Append a byte as two hex digits in lower case.
pub fn push_hex_byte(out: &mut String, b: u8)
    ensures
        final(out)@ == old(out)@ + hex_byte(b),
{
    out.append(digit_text(b / 16));
    out.append(digit_text(b % 16));
    assert(out@ =~= old(out)@ + hex_byte(b));
}

/// Append a byte as two hex digits in upper case.
pub fn push_upper_hex_byte(out: &mut String, b: u8)
    ensures
        final(out)@ == old(out)@ + upper_hex_byte(b),
{
    out.append(upper_digit_text(b / 16));
    out.append(upper_digit_text(b % 16));
    assert(out@ =~= old(out)@ + upper_hex_byte(b));
}

/// Append a 16-bit number as four hex digits in lower case.
pub fn push_hex_word(out: &mut String, w: u16)
    ensures
        final(out)@ == old(out)@ + hex_word(w),
{
    push_hex_byte(out, (w / 256) as u8);
    push_hex_byte(out, (w % 256) as u8);
    assert(out@ =~= old(out)@ + hex_word(w));
}

// -- comparison ---------------------------------------------------------------

/// Whether two texts are the same.
pub fn same(a: &str, b: &str) -> (equal: bool)
    ensures
        equal == (a@ == b@),
{
    let x = a.as_bytes();
    let y = b.as_bytes();
    proof {
        encode_utf8_decode_utf8(a@);
        encode_utf8_decode_utf8(b@);
    }
    if x.len() != y.len() {
        return false;
    }
    let mut i: usize = 0;
    while i < x.len()
        invariant
            i <= x.len(),
            x@.len() == y@.len(),
            x@ == a.spec_bytes(),
            y@ == b.spec_bytes(),
            forall|j: int| 0 <= j < i ==> x@[j] == y@[j],
        decreases x.len() - i,
    {
        if x[i] != y[i] {
            assert(x@[i as int] != y@[i as int]);
            return false;
        }
        i += 1;
    }
    assert(x@ =~= y@);
    true
}

/// Where a text first stands among `names`.
pub open spec fn position_of(names: Seq<&'static str>, text: Seq<char>) -> Option<nat>
    decreases names.len(),
{
    if names.len() == 0 {
        None
    } else {
        match position_of(names.drop_last(), text) {
            Some(index) => Some(index),
            None => if names.last()@ == text {
                Some((names.len() - 1) as nat)
            } else {
                None
            },
        }
    }
}

/// Where a text first stands among `names`.
pub fn position(names: &[&'static str], text: &str) -> (index: Option<usize>)
    ensures
        match index {
            Some(index) => position_of(names@, text@) == Some(index as nat) && index < names@.len(),
            None => position_of(names@, text@) is None,
        },
{
    let mut i: usize = 0;
    while i < names.len()
        invariant
            i <= names@.len(),
            position_of(names@.take(i as int), text@) is None,
        decreases names.len() - i,
    {
        let ghost longer = names@.take(i + 1);
        assert(longer.drop_last() =~= names@.take(i as int));
        if same(names[i], text) {
            proof {
                assert(position_of(longer, text@) == Some(i as nat));
                lemma_position_stays(names@, text@, (i + 1) as nat);
            }
            return Some(i);
        }
        i += 1;
    }
    assert(names@.take(i as int) =~= names@);
    None
}

proof fn lemma_position_stays(names: Seq<&'static str>, text: Seq<char>, count: nat)
    requires
        count <= names.len(),
        position_of(names.take(count as int), text) is Some,
    ensures
        position_of(names, text) == position_of(names.take(count as int), text),
    decreases names.len(),
{
    if count == names.len() {
        assert(names.take(count as int) =~= names);
    } else {
        assert(names.drop_last().take(count as int) =~= names.take(count as int));
        lemma_position_stays(names.drop_last(), text, count);
    }
}

/// A text that stands among names is the name that stands there, and no name
/// before it.
pub proof fn lemma_position_names(names: Seq<&'static str>, text: Seq<char>)
    ensures
        position_of(names, text) matches Some(index) ==> {
            &&& index < names.len()
            &&& names[index as int]@ == text
            &&& forall|i: int| 0 <= i < index ==> (#[trigger] names[i])@ != text
        },
        position_of(names, text) is None ==> forall|i: int|
            0 <= i < names.len() ==> (#[trigger] names[i])@ != text,
    decreases names.len(),
{
    if names.len() > 0 {
        lemma_position_names(names.drop_last(), text);
        if let Some(index) = position_of(names, text) {
            assert forall|i: int| 0 <= i < index implies (#[trigger] names[i])@ != text by {
                assert(names.drop_last()[i] == names[i]);
            }
        } else {
            assert forall|i: int| 0 <= i < names.len() implies (#[trigger] names[i])@ != text by {
                if i < names.len() - 1 {
                    assert(names.drop_last()[i] == names[i]);
                }
            }
        }
    }
}

/// The texts of a list of strings, as contracts see them.
pub open spec fn strings(list: Seq<String>) -> Seq<Seq<char>> {
    list.map_values(|text: String| text@)
}

/// Whether a text is among `list`.
pub fn among(list: &[String], text: &str) -> (answer: bool)
    ensures
        answer == strings(list@).contains(text@),
{
    let mut i: usize = 0;
    while i < list.len()
        invariant
            i <= list@.len(),
            forall|j: int| 0 <= j < i ==> strings(list@)[j] != text@,
        decreases list.len() - i,
    {
        if same(list[i].as_str(), text) {
            assert(strings(list@)[i as int] == text@);
            return true;
        }
        i += 1;
    }
    false
}

// -- splitting ----------------------------------------------------------------

/// Where a character first stands in a text; the text's length if it does not.
pub open spec fn index_of(text: Seq<char>, c: char) -> nat
    decreases text.len(),
{
    if text.len() == 0 || text[0] == c {
        0
    } else {
        1 + index_of(text.skip(1), c)
    }
}

/// A text in two, around the first `c` in it.
pub open spec fn halves(text: Seq<char>, c: char) -> Option<(Seq<char>, Seq<char>)> {
    let i = index_of(text, c) as int;
    if i < text.len() {
        Some((text.take(i), text.skip(i + 1)))
    } else {
        None
    }
}

/// The pieces of a text between one `c` and the next.
pub open spec fn pieces(text: Seq<char>, c: char) -> Seq<Seq<char>>
    decreases text.len(),
{
    match halves(text, c) {
        Some((head, rest)) => if rest.len() < text.len() {
            seq![head] + pieces(rest, c)
        } else {
            seq![text]
        },
        None => seq![text],
    }
}

/// A text has a piece, even where `c` is not in it.
pub proof fn lemma_pieces_some(text: Seq<char>, c: char)
    ensures
        pieces(text, c).len() > 0,
{
}

/// A line without the carriage return that ends it.
pub open spec fn without_return(line: Seq<char>) -> Seq<char> {
    if line.len() > 0 && line.last() == '\r' {
        line.drop_last()
    } else {
        line
    }
}

/// The lines of a text. A line ends with a line feed, which a carriage return
/// may precede; what follows the last line feed is a line too, unless it is
/// empty.
pub open spec fn text_lines(text: Seq<char>) -> Seq<Seq<char>>
    decreases text.len(),
{
    if text.len() == 0 {
        Seq::empty()
    } else {
        match halves(text, '\n') {
            Some((head, rest)) => if rest.len() < text.len() {
                seq![without_return(head)] + text_lines(rest)
            } else {
                seq![text]
            },
            None => seq![text],
        }
    }
}

/// An optional text as contracts see it.
pub open spec fn text_view(text: Option<String>) -> Option<Seq<char>> {
    match text {
        Some(text) => Some(text@),
        None => None,
    }
}

/// The texts of a list, as contracts see them.
pub open spec fn texts<'a>(list: Seq<&'a str>) -> Seq<Seq<char>> {
    list.map_values(|text: &'a str| text@)
}

/// The first `c` in a text is where it says, and nowhere before.
pub proof fn lemma_index_of(text: Seq<char>, c: char)
    ensures
        index_of(text, c) <= text.len(),
        index_of(text, c) < text.len() ==> text[index_of(text, c) as int] == c,
        forall|i: int| 0 <= i < index_of(text, c) ==> text[i] != c,
    decreases text.len(),
{
    if text.len() > 0 && text[0] != c {
        lemma_index_of(text.skip(1), c);
        assert forall|i: int| 0 <= i < index_of(text, c) implies text[i] != c by {
            if i > 0 {
                assert(text.skip(1)[i - 1] == text[i]);
            }
        }
    }
}

fn find(text: &str, c: char) -> (index: usize)
    ensures
        index == index_of(text@, c),
        index <= text@.len(),
{
    let count: usize = text.unicode_len();
    let mut i: usize = 0;
    assert(text@.skip(0) =~= text@);
    while i < count && text.get_char(i) != c
        invariant
            i <= count == text@.len(),
            index_of(text@, c) == i + index_of(text@.skip(i as int), c),
        decreases count - i,
    {
        assert(text@.skip(i as int).skip(1) =~= text@.skip(i + 1));
        i += 1;
    }
    i
}

/// A text in two, around the first `c` in it.
pub fn split_once<'a>(text: &'a str, c: char) -> (parts: Option<(&'a str, &'a str)>)
    ensures
        match parts {
            Some((head, rest)) => halves(text@, c) == Some((head@, rest@)),
            None => halves(text@, c) is None,
        },
        parts matches Some((_, rest)) ==> rest@.len() < text@.len(),
{
    let count: usize = text.unicode_len();
    let i: usize = find(text, c);
    if i < count {
        let head = text.substring_char(0, i);
        let rest = text.substring_char(i + 1, count);
        assert(head@ =~= text@.take(i as int));
        assert(rest@ =~= text@.skip(i + 1));
        Some((head, rest))
    } else {
        None
    }
}

/// The pieces of a text between one `c` and the next.
pub fn split<'a>(text: &'a str, c: char) -> (parts: Vec<&'a str>)
    ensures
        texts(parts@) == pieces(text@, c),
{
    let mut parts: Vec<&'a str> = Vec::new();
    let mut left = text;
    let mut more = true;
    assert(texts(parts@) + pieces(left@, c) =~= pieces(text@, c));
    while more
        invariant
            more ==> texts(parts@) + pieces(left@, c) == pieces(text@, c),
            !more ==> texts(parts@) == pieces(text@, c),
        decreases
                if more {
                    left@.len() + 1
                } else {
                    0
                },
    {
        let ghost so_far = texts(parts@);
        match split_once(left, c) {
            Some((head, rest)) => {
                parts.push(head);
                assert(texts(parts@) =~= so_far.push(head@));
                assert(texts(parts@) + pieces(rest@, c) =~= so_far + pieces(left@, c));
                left = rest;
            },
            None => {
                parts.push(left);
                assert(texts(parts@) =~= so_far + seq![left@]);
                more = false;
            },
        }
    }
    parts
}

/// The lines of a text.
pub fn lines<'a>(text: &'a str) -> (out: Vec<&'a str>)
    ensures
        texts(out@) == text_lines(text@),
{
    let mut out: Vec<&'a str> = Vec::new();
    let mut left = text;
    assert(texts(out@) + text_lines(left@) =~= text_lines(text@));
    while !left.is_empty()
        invariant
            texts(out@) + text_lines(left@) == text_lines(text@),
        decreases left@.len(),
    {
        let ghost so_far = texts(out@);
        match split_once(left, '\n') {
            Some((head, rest)) => {
                let count: usize = head.unicode_len();
                let line = if count > 0 && head.get_char(count - 1) == '\r' {
                    head.substring_char(0, count - 1)
                } else {
                    head
                };
                assert(line@ =~= without_return(head@));
                out.push(line);
                assert(texts(out@) =~= so_far.push(line@));
                assert(texts(out@) + text_lines(rest@) =~= so_far + text_lines(left@));
                left = rest;
            },
            None => {
                out.push(left);
                assert(texts(out@) =~= so_far + seq![left@]);
                assert(texts(out@) =~= text_lines(text@));
                return out;
            },
        }
    }
    assert(texts(out@) =~= text_lines(text@));
    out
}

// -- reading numbers ----------------------------------------------------------

/// The value of a digit in either case, if it is one in `radix`.
pub open spec fn digit_value(c: char, radix: nat) -> Option<nat> {
    let code = c as nat;
    let value = if 0x30 <= code <= 0x39 {
        (code - 0x30) as nat
    } else if 0x41 <= code <= 0x5A {
        (code - 0x37) as nat
    } else if 0x61 <= code <= 0x7A {
        (code - 0x57) as nat
    } else {
        radix
    };
    if value < radix {
        Some(value)
    } else {
        None
    }
}

/// The number that a row of digits spells.
pub open spec fn digits_value(text: Seq<char>, radix: nat) -> Option<nat>
    decreases text.len(),
{
    if text.len() == 0 {
        Some(0)
    } else {
        match (digits_value(text.drop_last(), radix), digit_value(text.last(), radix)) {
            (Some(n), Some(d)) => Some(n * radix + d),
            _ => None,
        }
    }
}

/// A number's digits, without the plus sign that may stand before them.
pub open spec fn without_plus(text: Seq<char>) -> Seq<char> {
    if text.len() > 0 && text[0] == '+' {
        text.skip(1)
    } else {
        text
    }
}

/// The number that a text spells, if it is at most `max`: at least one digit,
/// after an optional plus sign.
pub open spec fn number(text: Seq<char>, radix: nat, max: nat) -> Option<nat> {
    let digits = without_plus(text);
    match digits_value(digits, radix) {
        Some(n) => if digits.len() > 0 && n <= max {
            Some(n)
        } else {
            None
        },
        None => None,
    }
}

fn read_digit(c: char, radix: u64) -> (value: Option<u64>)
    requires
        radix <= 36,
    ensures
        match value {
            Some(value) => digit_value(c, radix as nat) == Some(value as nat) && value < radix,
            None => digit_value(c, radix as nat) is None,
        },
{
    let code: u64 = (c as u32) as u64;
    let value: u64 = if 0x30 <= code && code <= 0x39 {
        code - 0x30
    } else if 0x41 <= code && code <= 0x5A {
        code - 0x37
    } else if 0x61 <= code && code <= 0x7A {
        code - 0x57
    } else {
        radix
    };
    if value < radix {
        Some(value)
    } else {
        None
    }
}

proof fn lemma_digits_grow(text: Seq<char>, count: nat, radix: nat)
    requires
        count <= text.len(),
        radix >= 1,
    ensures
        digits_value(text.take(count as int), radix) is None ==> digits_value(text, radix) is None,
        match (digits_value(text.take(count as int), radix), digits_value(text, radix)) {
            (Some(part), Some(whole)) => part <= whole,
            _ => true,
        },
    decreases text.len(),
{
    if count == text.len() {
        assert(text.take(count as int) =~= text);
    } else {
        assert(text.drop_last().take(count as int) =~= text.take(count as int));
        lemma_digits_grow(text.drop_last(), count, radix);
        if let (Some(n), Some(d)) = (
            digits_value(text.drop_last(), radix),
            digit_value(text.last(), radix),
        ) {
            assert(n <= n * radix) by (nonlinear_arith)
                requires
                    radix >= 1,
            ;
        }
    }
}

/// The number that a text spells, if it is at most `max`.
pub fn read_number(text: &str, radix: u64, max: u64) -> (value: Option<u64>)
    requires
        2 <= radix <= 36,
    ensures
        match value {
            Some(value) => number(text@, radix as nat, max as nat) == Some(value as nat) && value
                <= max,
            None => number(text@, radix as nat, max as nat) is None,
        },
{
    let whole: usize = text.unicode_len();
    let digits = if whole > 0 && text.get_char(0) == '+' {
        text.substring_char(1, whole)
    } else {
        text
    };
    assert(digits@ =~= without_plus(text@));
    let count: usize = digits.unicode_len();
    if count == 0 {
        return None;
    }
    let mut value: u64 = 0;
    let mut i: usize = 0;
    while i < count
        invariant
            i <= count == digits@.len(),
            2 <= radix <= 36,
            value <= max,
            digits@ == without_plus(text@),
            digits_value(digits@.take(i as int), radix as nat) == Some(value as nat),
        decreases count - i,
    {
        let ghost longer = digits@.take(i + 1);
        assert(longer.drop_last() =~= digits@.take(i as int));
        match read_digit(digits.get_char(i), radix) {
            Some(d) => {
                assert(0 <= value * radix + d <= 0xffff_ffff_ffff_ffff * 36 + 36)
                    by (nonlinear_arith)
                    requires
                        0 <= value <= 0xffff_ffff_ffff_ffff,
                        0 <= radix <= 36,
                        0 <= d < radix,
                ;
                let next: u128 = (value as u128) * (radix as u128) + (d as u128);
                assert(digits_value(longer, radix as nat) == Some(next as nat));
                if next > max as u128 {
                    proof {
                        lemma_digits_grow(digits@, (i + 1) as nat, radix as nat);
                    }
                    return None;
                }
                value = next as u64;
            },
            None => {
                proof {
                    lemma_digits_grow(digits@, (i + 1) as nat, radix as nat);
                }
                return None;
            },
        }
        i += 1;
    }
    assert(digits@.take(i as int) =~= digits@);
    Some(value)
}

// -- joining and cutting ------------------------------------------------------

/// Texts one after the other, with `separator` between them.
pub open spec fn joined(list: Seq<Seq<char>>, separator: Seq<char>) -> Seq<char>
    decreases list.len(),
{
    if list.len() == 0 {
        Seq::empty()
    } else if list.len() == 1 {
        list[0]
    } else {
        joined(list.drop_last(), separator) + separator + list.last()
    }
}

/// Texts one after the other, with `separator` between them.
pub fn join(list: &Vec<String>, separator: &str) -> (text: String)
    ensures
        text@ == joined(strings(list@), separator@),
{
    let mut text = String::new();
    let ghost all = strings(list@);
    let mut i: usize = 0;
    assert(all.take(0) =~= Seq::empty());
    while i < list.len()
        invariant
            i <= list@.len(),
            all == strings(list@),
            text@ == joined(all.take(i as int), separator@),
        decreases list.len() - i,
    {
        assert(all.take(i + 1).drop_last() =~= all.take(i as int));
        if i > 0 {
            text.append(separator);
        }
        text.append(list[i].as_str());
        assert(text@ =~= joined(all.take(i + 1), separator@));
        i += 1;
    }
    assert(all.take(i as int) =~= all);
    text
}

/// A text starts with another.
pub open spec fn has_prefix(text: Seq<char>, prefix: Seq<char>) -> bool {
    prefix.len() <= text.len() && text.take(prefix.len() as int) == prefix
}

/// A text ends with another.
pub open spec fn has_suffix(text: Seq<char>, suffix: Seq<char>) -> bool {
    suffix.len() <= text.len() && text.skip(text.len() - suffix.len()) == suffix
}

/// What follows `prefix` in a text that starts with it.
pub fn strip_prefix<'a>(text: &'a str, prefix: &str) -> (rest: Option<&'a str>)
    ensures
        match rest {
            Some(rest) => has_prefix(text@, prefix@) && rest@ == text@.skip(prefix@.len() as int),
            None => !has_prefix(text@, prefix@),
        },
{
    let count: usize = text.unicode_len();
    let length: usize = prefix.unicode_len();
    if length > count {
        return None;
    }
    let head = text.substring_char(0, length);
    assert(head@ =~= text@.take(length as int));
    if same(head, prefix) {
        let rest = text.substring_char(length, count);
        assert(rest@ =~= text@.skip(length as int));
        Some(rest)
    } else {
        None
    }
}

/// A text without any of the places where `part` stands, from left to right.
pub open spec fn cut(text: Seq<char>, part: Seq<char>) -> Seq<char>
    decreases text.len(),
{
    if text.len() == 0 || part.len() == 0 {
        text
    } else if has_prefix(text, part) {
        cut(text.skip(part.len() as int), part)
    } else {
        seq![text[0]] + cut(text.skip(1), part)
    }
}

/// A text without any of the places where `part` stands.
pub fn without(text: &str, part: &str) -> (rest: String)
    requires
        part@.len() > 0,
    ensures
        rest@ == cut(text@, part@),
{
    let mut rest = String::new();
    let mut left = text;
    assert(rest@ + cut(left@, part@) =~= cut(text@, part@));
    while !left.is_empty()
        invariant
            part@.len() > 0,
            rest@ + cut(left@, part@) == cut(text@, part@),
        decreases left@.len(),
    {
        let ghost before = rest@;
        match strip_prefix(left, part) {
            Some(tail) => {
                left = tail;
            },
            None => {
                let count: usize = left.unicode_len();
                let head = left.substring_char(0, 1);
                let tail = left.substring_char(1, count);
                rest.append(head);
                assert(head@ =~= seq![left@[0]]);
                assert(tail@ =~= left@.skip(1));
                assert(rest@ + cut(tail@, part@) =~= before + cut(left@, part@));
                left = tail;
            },
        }
    }
    assert(rest@ =~= cut(text@, part@));
    rest
}

/// A text filled up with spaces to a width.
pub open spec fn padded(text: Seq<char>, width: nat) -> Seq<char> {
    if text.len() >= width {
        text
    } else {
        text + Seq::new((width - text.len()) as nat, |i: int| ' ')
    }
}

/// A text filled up with spaces to a width.
pub fn pad(text: &str, width: usize) -> (out: String)
    ensures
        out@ == padded(text@, width as nat),
{
    let mut out = text.to_owned();
    let mut count: usize = text.unicode_len();
    proof {
        reveal_strlit(" ");
    }
    while count < width
        invariant
            text@.len() <= count,
            count <= width || count == text@.len(),
            " "@ == seq![' '],
            out@ == text@ + Seq::new((count - text@.len()) as nat, |i: int| ' '),
        decreases width - count,
    {
        let ghost before = out@;
        out.append(" ");
        count += 1;
        assert(out@ =~= text@ + Seq::new((count - text@.len()) as nat, |i: int| ' '));
    }
    assert(out@ =~= padded(text@, width as nat));
    out
}

// -- upper case ---------------------------------------------------------------

/// A text in upper case.
pub uninterp spec fn uppercase(text: Seq<char>) -> Seq<char>;

/// An ASCII character in upper case.
pub open spec fn upper_ascii(c: char) -> char {
    if 'a' <= c <= 'z' {
        ((c as int) - 32) as char
    } else {
        c
    }
}

/// A text of ASCII characters only.
pub open spec fn is_ascii_text(text: Seq<char>) -> bool {
    forall|i: int| 0 <= i < text.len() ==> (#[trigger] text[i]) < 128
}

/// A text in upper case: std's `str::to_uppercase`, which maps every character
/// as Unicode says. It depends on the text alone; of ASCII, letters are mapped
/// to capitals and nothing else changes. What becomes of other characters is not
/// stated.
#[verifier::external_body]
pub(crate) fn to_upper(text: &str) -> (upper: String)
    ensures
        upper@ == uppercase(text@),
        is_ascii_text(text@) ==> upper@ == text@.map_values(|c: char| upper_ascii(c)),
{
    text.to_uppercase()
}

/// A text in upper case: letter by letter where it is ASCII.
pub open spec fn in_upper_case(text: Seq<char>) -> Seq<char> {
    if is_ascii_text(text) {
        text.map_values(|c: char| upper_ascii(c))
    } else {
        uppercase(text)
    }
}

/// A name that starts with an ASCII character.
pub open spec fn starts_plain(name: Seq<char>) -> bool {
    name.len() > 0 && name[0] < 128
}

/// A name with a capital first letter.
pub open spec fn title(name: Seq<char>) -> Seq<char> {
    seq![upper_ascii(name[0])] + name.skip(1)
}

/// A name with a capital first letter.
pub fn title_case(name: &str) -> (text: String)
    requires
        starts_plain(name@),
    ensures
        text@ == title(name@),
{
    let count: usize = name.unicode_len();
    let head = name.substring_char(0, 1);
    assert(head@ =~= name@.take(1));
    let mut text = to_upper(head);
    assert(text@ =~= seq![upper_ascii(name@[0])]);
    text.append(name.substring_char(1, count));
    assert(name@.subrange(1, count as int) =~= name@.skip(1));
    text
}

// -- laws ---------------------------------------------------------------------

/// A text is its two halves around the first `c`, and has no `c` where it has no
/// halves.
pub proof fn lemma_halves(text: Seq<char>, c: char)
    ensures
        match halves(text, c) {
            Some((head, rest)) => text == head.push(c) + rest && !head.contains(c),
            None => !text.contains(c),
        },
{
    lemma_index_of(text, c);
    if let Some((head, rest)) = halves(text, c) {
        assert(text =~= head.push(c) + rest);
    }
}

/// The pieces of a text, put together again with `c` between them, are the text;
/// and no piece has a `c` in it.
pub proof fn lemma_pieces(text: Seq<char>, c: char)
    ensures
        pieces(text, c).len() > 0,
        joined(pieces(text, c), seq![c]) == text,
        forall|i: int| 0 <= i < pieces(text, c).len() ==> !(#[trigger] pieces(text, c)[i]).contains(c),
    decreases text.len(),
{
    lemma_halves(text, c);
    let all = pieces(text, c);
    if let Some((head, rest)) = halves(text, c) {
        lemma_pieces(rest, c);
        let more = pieces(rest, c);
        assert(all =~= seq![head] + more);
        lemma_joined_front(head, more, seq![c]);
        assert(head + seq![c] + rest =~= text);
        assert forall|i: int| 0 <= i < all.len() implies !(#[trigger] all[i]).contains(c) by {
            if i > 0 {
                assert(all[i] == more[i - 1]);
            }
        }
    } else {
        assert(all =~= seq![text]);
        assert(joined(all, seq![c]) == text);
    }
}

/// A line ends at its line feed, without the carriage return that may stand before
/// it, and the rest of the text has the other lines. What no line feed ends is a
/// line as it is, unless it is empty.
pub proof fn lemma_first_line(head: Seq<char>, rest: Seq<char>)
    requires
        !head.contains('\n'),
    ensures
        head.len() == 0 || head.last() != '\r' ==> text_lines(head.push('\n') + rest) == seq![head]
            + text_lines(rest),
        text_lines(head.push('\r').push('\n') + rest) == seq![head] + text_lines(rest),
        text_lines(head) == if head.len() == 0 {
            Seq::<Seq<char>>::empty()
        } else {
            seq![head]
        },
{
    lemma_halved(head, rest, '\n');
    let carried = head.push('\r');
    assert forall|i: int| 0 <= i < carried.len() implies #[trigger] carried[i] != '\n' by {
        if i < head.len() {
            assert(head.contains(head[i]));
        }
    }
    lemma_halved(carried, rest, '\n');
    assert(carried.drop_last() =~= head);
    lemma_halves(head, '\n');
    if let Some((start, end)) = halves(head, '\n') {
        assert(head[start.len() as int] == '\n');
    }
}

proof fn lemma_halved(head: Seq<char>, rest: Seq<char>, c: char)
    requires
        !head.contains(c),
    ensures
        halves(head.push(c) + rest, c) == Some((head, rest)),
{
    let text = head.push(c) + rest;
    lemma_halves(text, c);
    assert(text[head.len() as int] == c);
    assert(text.contains(c));
    let (start, end) = halves(text, c)->0;
    assert(text[start.len() as int] == c);
    if start.len() < head.len() {
        assert(head[start.len() as int] == c);
    }
    if head.len() < start.len() {
        assert(start[head.len() as int] == c);
    }
    assert(start =~= head);
    assert(end =~= rest);
}

/// A text that has no `c` and one that follows a `c` are its first piece and the
/// pieces of the rest.
pub proof fn lemma_first_piece(head: Seq<char>, rest: Seq<char>, c: char)
    requires
        !head.contains(c),
    ensures
        pieces(head.push(c) + rest, c) == seq![head] + pieces(rest, c),
        pieces(head, c) == seq![head],
{
    let text = head.push(c) + rest;
    lemma_index_of(text, c);
    lemma_index_of(head, c);
    let i = index_of(text, c) as int;
    assert(text[head.len() as int] == c);
    if i < head.len() {
        assert(text[i] == head[i]);
        assert(head.contains(c));
    }
    assert(text.take(i) =~= head);
    assert(text.skip(i + 1) =~= rest);
    if index_of(head, c) < head.len() {
        assert(head.contains(c));
    }
}

/// A text with a `c` and what has no `c` behind it has one more piece.
pub proof fn lemma_last_piece(text: Seq<char>, tail: Seq<char>, c: char)
    requires
        !tail.contains(c),
    ensures
        pieces(text.push(c) + tail, c) == pieces(text, c).push(tail),
    decreases text.len(),
{
    lemma_halves(text, c);
    lemma_first_piece(tail, Seq::empty(), c);
    match halves(text, c) {
        Some((head, rest)) => {
            lemma_last_piece(rest, tail, c);
            lemma_first_piece(head, rest.push(c) + tail, c);
            lemma_first_piece(head, rest, c);
            assert(text.push(c) + tail =~= head.push(c) + (rest.push(c) + tail));
            assert(pieces(text.push(c) + tail, c) =~= pieces(text, c).push(tail));
        },
        None => {
            lemma_first_piece(text, tail, c);
            assert(pieces(text.push(c) + tail, c) =~= pieces(text, c).push(tail));
        },
    }
}

proof fn lemma_joined_front(head: Seq<char>, list: Seq<Seq<char>>, separator: Seq<char>)
    requires
        list.len() > 0,
    ensures
        joined(seq![head] + list, separator) == head + separator + joined(list, separator),
    decreases list.len(),
{
    let all = seq![head] + list;
    if list.len() == 1 {
        assert(all.drop_last() =~= seq![head]);
        assert(joined(all.drop_last(), separator) == head);
        assert(joined(all, separator) =~= head + separator + joined(list, separator));
    } else {
        assert(all.drop_last() =~= seq![head] + list.drop_last());
        lemma_joined_front(head, list.drop_last(), separator);
        assert(joined(all, separator) =~= head + separator + joined(list, separator));
    }
}

/// A number that was written down in decimal reads as itself, where it is within
/// bounds.
pub proof fn lemma_decimal_reads_back(n: nat, max: nat)
    ensures
        number(decimal(n), 10, max) == if n <= max {
            Some(n)
        } else {
            None
        },
{
    lemma_decimal_digits(n);
    lemma_decimal_starts(n);
    assert(without_plus(decimal(n)) == decimal(n));
}

proof fn lemma_decimal_digits(n: nat)
    ensures
        digits_value(decimal(n), 10) == Some(n),
    decreases n,
{
    reveal_with_fuel(digits_value, 2);
    if n < 10 {
        assert(decimal(n).drop_last() =~= Seq::empty());
        assert(decimal(n).last() == digit(n as int));
    } else {
        lemma_decimal_digits(n / 10);
        assert(decimal(n).drop_last() =~= decimal(n / 10));
        assert(decimal(n).last() == digit((n % 10) as int));
    }
}

/// Different numbers are written down differently.
pub proof fn lemma_decimals_differ(one: nat, other: nat)
    requires
        decimal(one) == decimal(other),
    ensures
        one == other,
{
    lemma_decimal_digits(one);
    lemma_decimal_digits(other);
}

/// A word that was written down in hex reads as itself, in any width of zeros and
/// in either case of its letters.
pub proof fn lemma_hex_reads_back(w: u16)
    ensures
        number(hex_word(w), 16, 0xFFFF_FFFF) == Some(w as nat),
        number(seq!['0', '0', '0', '0'] + hex_word(w), 16, 0xFFFF_FFFF) == Some(w as nat),
        number(
            upper_hex_byte((w / 256) as u8) + upper_hex_byte((w % 256) as u8),
            16,
            0xFFFF_FFFF,
        ) == Some(w as nat),
{
    let (high, low) = ((w / 256) as u8, (w % 256) as u8);
    let none = Seq::<char>::empty();
    lemma_two_more_digits(none, 0, high, hex_byte(high));
    lemma_two_more_digits(none + hex_byte(high), high as nat, low, hex_byte(low));
    assert(none + hex_byte(high) + hex_byte(low) =~= hex_word(w));
    lemma_two_more_digits(none, 0, high, upper_hex_byte(high));
    lemma_two_more_digits(none + upper_hex_byte(high), high as nat, low, upper_hex_byte(low));
    assert(none + upper_hex_byte(high) + upper_hex_byte(low) =~= upper_hex_byte(high)
        + upper_hex_byte(low));
    lemma_two_more_digits(none, 0, 0, seq!['0', '0']);
    lemma_two_more_digits(none + seq!['0', '0'], 0, 0, seq!['0', '0']);
    let zeros = none + seq!['0', '0'] + seq!['0', '0'];
    assert(zeros =~= seq!['0', '0', '0', '0']);
    lemma_two_more_digits(zeros, 0, high, hex_byte(high));
    lemma_two_more_digits(zeros + hex_byte(high), high as nat, low, hex_byte(low));
    assert(zeros + hex_byte(high) + hex_byte(low) =~= zeros + hex_word(w));
}

/// A number of eight hex digits reads as its two halves, the first worth 65536
/// times as much.
pub proof fn lemma_long_hex_reads_back(high: u16, low: u16)
    ensures
        number(hex_word(high) + hex_word(low), 16, 0xFFFF_FFFF) == Some(
            (65536 * high + low) as nat,
        ),
{
    let (a, b) = ((high / 256) as u8, (high % 256) as u8);
    let (c, d) = ((low / 256) as u8, (low % 256) as u8);
    let none = Seq::<char>::empty();
    let one = none + hex_byte(a);
    let two = one + hex_byte(b);
    let three = two + hex_byte(c);
    lemma_two_more_digits(none, 0, a, hex_byte(a));
    lemma_two_more_digits(one, a as nat, b, hex_byte(b));
    lemma_two_more_digits(two, high as nat, c, hex_byte(c));
    lemma_two_more_digits(three, 256 * (high as nat) + c as nat, d, hex_byte(d));
    assert(three + hex_byte(d) =~= hex_word(high) + hex_word(low));
}

proof fn lemma_two_more_digits(text: Seq<char>, n: nat, b: u8, two: Seq<char>)
    requires
        digits_value(text, 16) == Some(n),
        two.len() == 2,
        digit_value(two[0], 16) == Some(b as nat / 16),
        digit_value(two[1], 16) == Some(b as nat % 16),
    ensures
        digits_value(text + two, 16) == Some(256 * n + b as nat),
{
    let all = text + two;
    reveal_with_fuel(digits_value, 3);
    assert(all.drop_last() =~= text.push(two[0]));
    assert(all.drop_last().drop_last() =~= text);
}

/// The first letter of a name is made a capital, and the rest is left alone.
pub proof fn lemma_title(name: Seq<char>)
    requires
        name.len() > 0,
    ensures
        title(name).len() == name.len(),
        'a' <= name[0] <= 'z' ==> title(name)[0] as int + 32 == name[0] as int,
        !('a' <= name[0] <= 'z') ==> title(name)[0] == name[0],
        forall|i: int| 1 <= i < name.len() ==> #[trigger] title(name)[i] == name[i],
{
}

/// A digit that is added to a number makes it ten times as large -- or as many
/// times as there are digits -- and adds its own value; a plus sign before it makes
/// no difference, and what is no digit makes it no number at all.
pub proof fn lemma_one_digit_more(text: Seq<char>, c: char, radix: nat, max: nat)
    requires
        text.len() > 0,
        text[0] != '+',
        1 < radix <= 36,
    ensures
        match (number(text, radix, max), digit_value(c, radix)) {
            (Some(n), Some(d)) => number(text.push(c), radix, max) == if n * radix + d <= max {
                Some(n * radix + d)
            } else {
                None
            },
            _ => number(text.push(c), radix, max) is None,
        },
        number(seq!['+'] + text, radix, max) == number(text, radix, max),
        number(Seq::empty(), radix, max) is None,
        number(seq!['+'], radix, max) is None,
{
    assert(text.push(c).drop_last() =~= text);
    assert((seq!['+'] + text).skip(1) =~= text);
    assert(seq!['+'].skip(1) =~= Seq::empty());
    if let Some(n) = digits_value(text, radix) {
        assert(n * radix >= n) by (nonlinear_arith)
            requires
                radix >= 1,
                n >= 0,
        ;
    }
}

/// What a digit is worth: ten figures, and letters from ten up in either case.
pub proof fn lemma_digit_value(c: char, radix: nat)
    requires
        radix == 10 || radix == 16,
    ensures
        digit_value(c, radix) matches Some(value) ==> value < radix,
        '0' <= c <= '9' ==> digit_value(c, radix) == Some((c as nat - 48) as nat),
        'a' <= c <= 'f' ==> digit_value(c, 16) == Some((c as nat - 87) as nat),
        'A' <= c <= 'F' ==> digit_value(c, 16) == Some((c as nat - 55) as nat),
        !('0' <= c <= '9') ==> digit_value(c, 10) is None,
        !('0' <= c <= '9' || 'a' <= c <= 'f' || 'A' <= c <= 'F') ==> digit_value(c, 16) is None,
{
}

/// A byte in hex is two digits that read as the byte, with small letters or with
/// capitals.
pub proof fn lemma_hex_bytes(b: u8)
    ensures
        number(hex_byte(b), 16, 255) == Some(b as nat),
        number(upper_hex_byte(b), 16, 255) == Some(b as nat),
        hex_byte(b).len() == 2,
        upper_hex_byte(b).len() == 2,
        forall|i: int| 0 <= i < 2 ==> !('A' <= #[trigger] hex_byte(b)[i] <= 'Z'),
        forall|i: int| 0 <= i < 2 ==> !('a' <= #[trigger] upper_hex_byte(b)[i] <= 'z'),
{
    reveal_with_fuel(digits_value, 3);
    let (small, large) = (hex_byte(b), upper_hex_byte(b));
    assert(small.drop_last().drop_last() =~= Seq::empty());
    assert(large.drop_last().drop_last() =~= Seq::empty());
    assert(small.drop_last().last() == small[0] && large.drop_last().last() == large[0]);
    assert(digit_value(small[0], 16) == Some((b / 16) as nat));
    assert(digit_value(small[1], 16) == Some((b % 16) as nat));
    assert(digit_value(large[0], 16) == Some((b / 16) as nat));
    assert(digit_value(large[1], 16) == Some((b % 16) as nat));
}

/// A negative number is written with a minus sign before its size, any other as it
/// is.
pub proof fn lemma_signed(n: int, max: nat)
    requires
        -(max as int) <= n <= max,
    ensures
        n < 0 ==> signed(n)[0] == '-' && number(signed(n).skip(1), 10, max) == Some((-n) as nat),
        n >= 0 ==> number(signed(n), 10, max) == Some(n as nat),
{
    reveal_strlit("-");
    if n < 0 {
        lemma_decimal_reads_back((-n) as nat, max);
        assert(signed(n).skip(1) =~= decimal((-n) as nat));
    } else {
        lemma_decimal_reads_back(n as nat, max);
    }
}

/// Cutting a part out of a text that has none leaves the text, and out of one that
/// starts with the part, what is left of the rest.
pub proof fn lemma_cut(text: Seq<char>, part: Seq<char>)
    requires
        part.len() > 0,
    ensures
        (forall|i: int| 0 <= i < text.len() ==> !has_prefix(#[trigger] text.skip(i), part)) ==> cut(
            text,
            part,
        ) == text,
        cut(part + text, part) == cut(text, part),
    decreases text.len(),
{
    let longer = part + text;
    assert(longer.take(part.len() as int) =~= part);
    assert(longer.skip(part.len() as int) =~= text);
    if (forall|i: int| 0 <= i < text.len() ==> !has_prefix(#[trigger] text.skip(i), part))
        && text.len() > 0 {
        let rest = text.skip(1);
        assert(text.skip(0) =~= text);
        assert forall|i: int| 0 <= i < rest.len() implies !has_prefix(
            #[trigger] rest.skip(i),
            part,
        ) by {
            assert(rest.skip(i) =~= text.skip(i + 1));
        }
        lemma_cut(rest, part);
        assert(seq![text[0]] + rest =~= text);
    }
}

/// A text is filled up with spaces behind it, and never shortened.
pub proof fn lemma_padded(text: Seq<char>, width: nat)
    ensures
        has_prefix(padded(text, width), text),
        padded(text, width).len() == if text.len() < width {
            width
        } else {
            text.len()
        },
        forall|i: int|
            text.len() <= i < padded(text, width).len() ==> (#[trigger] padded(text, width)[i])
                == ' ',
{
    assert(padded(text, width).take(text.len() as int) =~= text);
}

/// In upper case, small ASCII letters are capitals, and of an ASCII text nothing
/// else changes.
pub proof fn lemma_in_upper_case(text: Seq<char>, i: int)
    requires
        forall|k: int| 0 <= k < text.len() ==> (#[trigger] text[k]) < 128,
        0 <= i < text.len(),
    ensures
        in_upper_case(text).len() == text.len(),
        'a' <= text[i] <= 'z' ==> in_upper_case(text)[i] as int == text[i] as int - 32,
        !('a' <= text[i] <= 'z') ==> in_upper_case(text)[i] == text[i],
{
}

} // verus!
