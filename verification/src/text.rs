//! Text as sequences of characters: decimal numbers, words and lines.

use vstd::prelude::*;
use vstd::string::*;

verus! {

/// `String::push` appends one character.
pub assume_specification[ String::push ](s: &mut String, c: char)
    ensures
        final(s)@ == old(s)@.push(c),
;

/// Whether Unicode gives a character the property `White_Space`, as
/// `char::is_whitespace` reports.
pub uninterp spec fn white_space(c: char) -> bool;

/// `char::is_whitespace`: whether the character has the Unicode property
/// `White_Space`. In ASCII these are the space and the controls from tab to
/// carriage return.
pub assume_specification[ char::is_whitespace ](c: char) -> (r: bool)
    ensures
        r == white_space(c),
        (c as u32) < 0x80 ==> r == (c == ' ' || 0x09 <= c as u32 <= 0x0d),
;

/// Whether a text has no character but white space.
pub open spec fn blank(text: Seq<char>) -> bool {
    forall|i: int| 0 <= i < text.len() ==> white_space(#[trigger] text[i])
}

/// The characters of a text.
pub fn to_chars(text: &str) -> (chars: Vec<char>)
    ensures
        chars@ == text@,
{
    let mut chars: Vec<char> = Vec::new();
    for c in it: text.chars()
        invariant
            it.seq() == text@,
            chars@ == it.seq().take(it.index() as int),
    {
        chars.push(c);
    }
    assert(chars@ =~= text@);
    chars
}

/// The text of some characters.
pub fn from_chars(chars: &[char]) -> (text: String)
    ensures
        text@ == chars@,
{
    let mut text = String::new();
    let mut i: usize = 0;
    while i < chars.len()
        invariant
            i <= chars.len(),
            text@ == chars@.take(i as int),
        decreases chars.len() - i,
    {
        text.push(chars[i]);
        i = i + 1;
        assert(chars@.take(i as int) =~= chars@.take(i - 1).push(chars@[i - 1]));
    }
    assert(chars@.take(i as int) =~= chars@);
    text
}

/// Whether two texts are equal.
pub fn same_text(a: &str, b: &str) -> (same: bool)
    ensures
        same == (a@ == b@),
{
    a.to_owned() == b.to_owned()
}

/// Whether a text has no character but white space.
pub fn is_blank(text: &str) -> (r: bool)
    ensures
        r == blank(text@),
{
    let chars = to_chars(text);
    let mut i: usize = 0;
    while i < chars.len()
        invariant
            i <= chars.len(),
            chars@ == text@,
            forall|j: int| 0 <= j < i ==> white_space(#[trigger] chars@[j]),
        decreases chars.len() - i,
    {
        if !chars[i].is_whitespace() {
            return false;
        }
        i = i + 1;
    }
    true
}

/// The character of a decimal digit.
pub open spec fn digit_char(d: nat) -> char {
    (('0' as u32) + d) as char
}

/// A number in decimal, without leading zeros.
pub open spec fn decimal_text(n: nat) -> Seq<char>
    decreases n,
{
    if n < 10 {
        seq![digit_char(n)]
    } else {
        decimal_text(n / 10).push(digit_char(n % 10))
    }
}

fn digit(d: u64) -> (c: char)
    requires
        d < 10,
    ensures
        c == digit_char(d as nat),
{
    match d {
        0 => '0',
        1 => '1',
        2 => '2',
        3 => '3',
        4 => '4',
        5 => '5',
        6 => '6',
        7 => '7',
        8 => '8',
        _ => '9',
    }
}

/// A number in decimal, without leading zeros.
pub fn decimal(n: u64) -> (text: String)
    ensures
        text@ == decimal_text(n as nat),
    decreases n,
{
    if n < 10 {
        let mut text = String::new();
        text.push(digit(n));
        text
    } else {
        let mut text = decimal(n / 10);
        text.push(digit(n % 10));
        text
    }
}

/// The lower-case character of a hexadecimal digit.
pub open spec fn hex_char(d: nat) -> char {
    if d < 10 {
        digit_char(d)
    } else {
        (('a' as u32) + (d - 10)) as char
    }
}

/// A number in hexadecimal, in lower case and without leading zeros.
pub open spec fn hex_text(n: nat) -> Seq<char>
    decreases n,
{
    if n < 16 {
        seq![hex_char(n)]
    } else {
        hex_text(n / 16).push(hex_char(n % 16))
    }
}

fn hex_digit(d: u64) -> (c: char)
    requires
        d < 16,
    ensures
        c == hex_char(d as nat),
{
    match d {
        10 => 'a',
        11 => 'b',
        12 => 'c',
        13 => 'd',
        14 => 'e',
        15 => 'f',
        _ => digit(d),
    }
}

/// A number in hexadecimal, in lower case and without leading zeros.
pub fn hexadecimal(n: u64) -> (text: String)
    ensures
        text@ == hex_text(n as nat),
    decreases n,
{
    if n < 16 {
        let mut text = String::new();
        text.push(hex_digit(n));
        text
    } else {
        let mut text = hexadecimal(n / 16);
        text.push(hex_digit(n % 16));
        text
    }
}

// ---------------------------------------------------------------------------
// Lists of texts.
// ---------------------------------------------------------------------------

/// A list of strings as a sequence of texts.
pub open spec fn texts(list: Seq<String>) -> Seq<Seq<char>> {
    list.map_values(|text: String| text@)
}

/// A list of words as a sequence of texts.
pub open spec fn word_texts(list: Seq<Vec<char>>) -> Seq<Seq<char>> {
    list.map_values(|word: Vec<char>| word@)
}

/// Appends a text to a list.
pub fn push_text(list: &mut Vec<String>, text: &str)
    ensures
        texts(final(list)@) == texts(old(list)@).push(text@),
{
    let ghost before = list@;
    list.push(text.to_owned());
    assert(texts(list@) =~= texts(before).push(text@));
}

/// Appends a string to a list.
pub fn push_string(list: &mut Vec<String>, text: String)
    ensures
        texts(final(list)@) == texts(old(list)@).push(text@),
{
    let ghost before = list@;
    list.push(text);
    assert(texts(list@) =~= texts(before).push(text@));
}

/// Appends copies of all strings of one list to another.
pub fn push_all(list: &mut Vec<String>, more: &Vec<String>)
    ensures
        texts(final(list)@) == texts(old(list)@) + texts(more@),
{
    let ghost before = list@;
    let mut i: usize = 0;
    assert(texts(before) + texts(more@).take(0) =~= texts(before));
    while i < more.len()
        invariant
            i <= more.len(),
            texts(list@) == texts(before) + texts(more@).take(i as int),
        decreases more.len() - i,
    {
        push_text(list, more[i].as_str());
        i = i + 1;
        assert(texts(more@).take(i as int) =~= texts(more@).take(i - 1).push(more@[i - 1]@));
        assert(texts(list@) =~= texts(before) + texts(more@).take(i as int));
    }
    assert(texts(more@).take(i as int) =~= texts(more@));
}

/// Texts joined by a separator.
pub open spec fn joined(list: Seq<Seq<char>>, separator: Seq<char>) -> Seq<char>
    decreases list.len(),
{
    if list.len() == 0 {
        seq![]
    } else if list.len() == 1 {
        list[0]
    } else {
        joined(list.drop_last(), separator) + separator + list.last()
    }
}

/// Joins strings by a separator.
pub fn join(list: &Vec<String>, separator: &str) -> (text: String)
    ensures
        text@ == joined(texts(list@), separator@),
{
    let mut text = String::new();
    let ghost all = texts(list@);
    let mut i: usize = 0;
    while i < list.len()
        invariant
            i <= list.len(),
            all == texts(list@),
            text@ == joined(all.take(i as int), separator@),
        decreases list.len() - i,
    {
        if i > 0 {
            text.append(separator);
        }
        text.append(list[i].as_str());
        i = i + 1;
        proof {
            let now = all.take(i as int);
            assert(now.drop_last() =~= all.take(i - 1));
            assert(now.last() == list@[i - 1]@);
            if i == 1 {
                assert(now[0] == list@[0]@);
                assert(text@ =~= now[0]);
            }
        }
    }
    assert(all.take(i as int) =~= all);
    text
}

// ---------------------------------------------------------------------------
// Lines and words.
// ---------------------------------------------------------------------------

/// A line without the carriage return that precedes its line feed.
pub open spec fn without_return(line: Seq<char>) -> Seq<char> {
    if line.len() > 0 && line.last() == '\r' {
        line.drop_last()
    } else {
        line
    }
}

/// The lines that end among the first `n` characters.
pub open spec fn ended_lines(text: Seq<char>, n: int) -> Seq<Seq<char>>
    decreases n,
{
    if n <= 0 {
        seq![]
    } else if text[n - 1] == '\n' {
        ended_lines(text, n - 1).push(without_return(open_line(text, n - 1)))
    } else {
        ended_lines(text, n - 1)
    }
}

/// What follows the last line feed among the first `n` characters.
pub open spec fn open_line(text: Seq<char>, n: int) -> Seq<char>
    decreases n,
{
    if n <= 0 {
        seq![]
    } else if text[n - 1] == '\n' {
        seq![]
    } else {
        open_line(text, n - 1).push(text[n - 1])
    }
}

/// The lines of a text. They end in a line feed, which a carriage return may
/// precede; the last one need not end.
pub open spec fn lines_of(text: Seq<char>) -> Seq<Seq<char>> {
    let n = text.len() as int;
    if open_line(text, n).len() > 0 {
        ended_lines(text, n).push(open_line(text, n))
    } else {
        ended_lines(text, n)
    }
}

/// The lines of a text.
pub fn lines(text: &Vec<char>) -> (list: Vec<Vec<char>>)
    ensures
        word_texts(list@) == lines_of(text@),
{
    let mut list: Vec<Vec<char>> = Vec::new();
    let mut line: Vec<char> = Vec::new();
    let mut i: usize = 0;
    assert(word_texts(list@) =~= ended_lines(text@, 0));
    while i < text.len()
        invariant
            i <= text.len(),
            word_texts(list@) == ended_lines(text@, i as int),
            line@ == open_line(text@, i as int),
        decreases text.len() - i,
    {
        let c = text[i];
        if c == '\n' {
            let ghost whole = line@;
            if line.len() > 0 && line[line.len() - 1] == '\r' {
                line.pop();
                assert(line@ =~= whole.drop_last());
            }
            let ghost before = list@;
            list.push(line);
            assert(word_texts(list@) =~= word_texts(before).push(without_return(whole)));
            line = Vec::new();
        } else {
            line.push(c);
        }
        i = i + 1;
    }
    if line.len() > 0 {
        let ghost before = list@;
        let ghost whole = line@;
        list.push(line);
        assert(word_texts(list@) =~= word_texts(before).push(whole));
    }
    list
}

/// A class of characters.
#[derive(Clone, Copy, Debug, Eq, PartialEq, Structural)]
pub enum CharClass {
    /// Space, tab, line feed, form feed and carriage return.
    AsciiSpace,
    /// What Unicode calls white space.
    WhiteSpace,
    /// The two quotation marks of ASCII.
    Quote,
}

impl CharClass {
    pub open spec fn has(self, c: char) -> bool {
        match self {
            CharClass::AsciiSpace => c == ' ' || c == '\t' || c == '\n' || c == '\r' || c as u32
                == 0x0c,
            CharClass::WhiteSpace => white_space(c),
            CharClass::Quote => c == '\'' || c == '"',
        }
    }

    pub fn contains(self, c: char) -> (r: bool)
        ensures
            r == self.has(c),
    {
        match self {
            CharClass::AsciiSpace => c == ' ' || c == '\t' || c == '\n' || c == '\r' || c as u32
                == 0x0c,
            CharClass::WhiteSpace => c.is_whitespace(),
            CharClass::Quote => c == '\'' || c == '"',
        }
    }
}

/// The words that end among the first `n` characters.
pub open spec fn ended_words(text: Seq<char>, separator: CharClass, n: int) -> Seq<Seq<char>>
    decreases n,
{
    if n <= 0 {
        seq![]
    } else if separator.has(text[n - 1]) && open_word(text, separator, n - 1).len() > 0 {
        ended_words(text, separator, n - 1).push(open_word(text, separator, n - 1))
    } else {
        ended_words(text, separator, n - 1)
    }
}

/// What follows the last separator among the first `n` characters.
pub open spec fn open_word(text: Seq<char>, separator: CharClass, n: int) -> Seq<char>
    decreases n,
{
    if n <= 0 {
        seq![]
    } else if separator.has(text[n - 1]) {
        seq![]
    } else {
        open_word(text, separator, n - 1).push(text[n - 1])
    }
}

/// The words of a text: its runs of characters that are no separators.
pub open spec fn words_of(text: Seq<char>, separator: CharClass) -> Seq<Seq<char>> {
    let n = text.len() as int;
    if open_word(text, separator, n).len() > 0 {
        ended_words(text, separator, n).push(open_word(text, separator, n))
    } else {
        ended_words(text, separator, n)
    }
}

/// The words of a text.
pub fn words(text: &Vec<char>, separator: CharClass) -> (list: Vec<Vec<char>>)
    ensures
        word_texts(list@) == words_of(text@, separator),
{
    let mut list: Vec<Vec<char>> = Vec::new();
    let mut word: Vec<char> = Vec::new();
    let mut i: usize = 0;
    assert(word_texts(list@) =~= ended_words(text@, separator, 0));
    while i < text.len()
        invariant
            i <= text.len(),
            word_texts(list@) == ended_words(text@, separator, i as int),
            word@ == open_word(text@, separator, i as int),
        decreases text.len() - i,
    {
        let c = text[i];
        if separator.contains(c) {
            if word.len() > 0 {
                let ghost before = list@;
                let ghost whole = word@;
                list.push(word);
                assert(word_texts(list@) =~= word_texts(before).push(whole));
                word = Vec::new();
            }
        } else {
            word.push(c);
        }
        i = i + 1;
    }
    if word.len() > 0 {
        let ghost before = list@;
        let ghost whole = word@;
        list.push(word);
        assert(word_texts(list@) =~= word_texts(before).push(whole));
    }
    list
}

/// A text without the characters of a class at its ends.
pub open spec fn trimmed(text: Seq<char>, class: CharClass) -> Seq<char>
    decreases text.len(),
{
    if text.len() > 0 && class.has(text[0]) {
        trimmed(text.skip(1), class)
    } else if text.len() > 0 && class.has(text.last()) {
        trimmed(text.drop_last(), class)
    } else {
        text
    }
}

/// A text without the characters of a class at its ends.
pub fn trim(text: &Vec<char>, class: CharClass) -> (inner: Vec<char>)
    ensures
        inner@ == trimmed(text@, class),
{
    let mut start: usize = 0;
    let mut end: usize = text.len();
    assert(text@.subrange(0, end as int) =~= text@);
    while start < end && class.contains(text[start])
        invariant
            start <= end == text.len(),
            trimmed(text@, class) == trimmed(text@.subrange(start as int, end as int), class),
        decreases end - start,
    {
        proof {
            let part = text@.subrange(start as int, end as int);
            assert(part[0] == text@[start as int]);
            assert(part.skip(1) =~= text@.subrange(start + 1, end as int));
        }
        start = start + 1;
    }
    while start < end && class.contains(text[end - 1])
        invariant
            start <= end <= text.len(),
            start < end ==> !class.has(text@[start as int]),
            trimmed(text@, class) == trimmed(text@.subrange(start as int, end as int), class),
        decreases end - start,
    {
        proof {
            let part = text@.subrange(start as int, end as int);
            assert(part[0] == text@[start as int]);
            assert(part.last() == text@[end - 1]);
            assert(part.drop_last() =~= text@.subrange(start as int, end - 1));
        }
        end = end - 1;
    }
    let mut inner: Vec<char> = Vec::new();
    let mut i: usize = start;
    while i < end
        invariant
            start <= i <= end <= text.len(),
            inner@ == text@.subrange(start as int, i as int),
        decreases end - i,
    {
        inner.push(text[i]);
        i = i + 1;
        assert(text@.subrange(start as int, i as int) =~= text@.subrange(
            start as int,
            i - 1,
        ).push(text@[i - 1]));
    }
    proof {
        let part = text@.subrange(start as int, end as int);
        if start < end {
            assert(part[0] == text@[start as int]);
            assert(part.last() == text@[end - 1]);
        }
    }
    inner
}

/// Whether a text begins with another.
pub open spec fn begins_with(text: Seq<char>, prefix: Seq<char>) -> bool {
    text.len() >= prefix.len() && text.take(prefix.len() as int) == prefix
}

/// Whether a text ends with another.
pub open spec fn ends_with(text: Seq<char>, suffix: Seq<char>) -> bool {
    text.len() >= suffix.len() && text.skip(text.len() - suffix.len()) == suffix
}

/// Whether a text begins with another.
pub fn has_prefix(text: &Vec<char>, prefix: &str) -> (r: bool)
    ensures
        r == begins_with(text@, prefix@),
{
    let wanted = to_chars(prefix);
    if text.len() < wanted.len() {
        return false;
    }
    let mut i: usize = 0;
    while i < wanted.len()
        invariant
            i <= wanted.len() <= text.len(),
            wanted@ == prefix@,
            forall|j: int| 0 <= j < i ==> text@[j] == wanted@[j],
        decreases wanted.len() - i,
    {
        if text[i] != wanted[i] {
            assert(text@.take(prefix@.len() as int)[i as int] != prefix@[i as int]);
            return false;
        }
        i = i + 1;
    }
    assert(text@.take(prefix@.len() as int) =~= prefix@);
    true
}

/// Whether a text ends with another.
pub fn has_suffix(text: &Vec<char>, suffix: &str) -> (r: bool)
    ensures
        r == ends_with(text@, suffix@),
{
    let wanted = to_chars(suffix);
    if text.len() < wanted.len() {
        return false;
    }
    let start: usize = text.len() - wanted.len();
    let mut i: usize = 0;
    while i < wanted.len()
        invariant
            i <= wanted.len(),
            wanted@ == suffix@,
            start + wanted.len() == text.len(),
            forall|j: int| 0 <= j < i ==> text@[start + j] == wanted@[j],
        decreases wanted.len() - i,
    {
        if text[start + i] != wanted[i] {
            assert(text@.skip(start as int)[i as int] != suffix@[i as int]);
            return false;
        }
        i = i + 1;
    }
    assert(text@.skip(start as int) =~= suffix@);
    true
}

/// Whether some characters are those of a text.
pub fn is_text(chars: &Vec<char>, text: &str) -> (r: bool)
    ensures
        r == (chars@ == text@),
{
    same_text(from_chars(chars.as_slice()).as_str(), text)
}

// ---------------------------------------------------------------------------
// Numbers.
// ---------------------------------------------------------------------------

/// Whether a character is an ASCII digit.
pub open spec fn is_digit(c: char) -> bool {
    '0' as u32 <= c as u32 <= '9' as u32
}

/// The number that digits spell; none unless there is a digit and nothing
/// else.
pub open spec fn digits_value(text: Seq<char>) -> Option<nat>
    decreases text.len(),
{
    if text.len() == 0 || !is_digit(text.last()) {
        None
    } else if text.len() == 1 {
        Some((text.last() as u32 - '0' as u32) as nat)
    } else {
        match digits_value(text.drop_last()) {
            Some(high) => Some(high * 10 + (text.last() as u32 - '0' as u32) as nat),
            None => None,
        }
    }
}

/// The number that a text spells, if it is at most `limit`: digits, which a
/// plus sign may precede.
pub open spec fn number_of(text: Seq<char>, limit: nat) -> Option<nat> {
    let digits = if text.len() > 0 && text[0] == '+' {
        text.skip(1)
    } else {
        text
    };
    match digits_value(digits) {
        Some(value) => if value <= limit {
            Some(value)
        } else {
            None
        },
        None => None,
    }
}

/// Reads a decimal number of at most `limit`.
pub fn parse_number(text: &Vec<char>, limit: u64) -> (number: Option<u64>)
    ensures
        match number {
            Some(value) => number_of(text@, limit as nat) == Some(value as nat),
            None => number_of(text@, limit as nat) is None,
        },
{
    let start: usize = if text.len() > 0 && text[0] == '+' {
        1
    } else {
        0
    };
    let ghost digits = text@.skip(start as int);
    assert(start == 0 ==> digits =~= text@);
    if text.len() == start {
        return None;
    }
    let mut value: u64 = 0;
    let mut i: usize = start;
    while i < text.len()
        invariant
            start <= i <= text.len(),
            digits == text@.skip(start as int),
            number_of(text@, limit as nat) == (match digits_value(digits) {
                Some(v) => if v <= limit {
                    Some(v)
                } else {
                    None
                },
                None => None,
            }),
            i == start ==> value == 0,
            i > start ==> digits_value(digits.take(i - start)) == Some(value as nat),
            value <= limit,
        decreases text.len() - i,
    {
        let c = text[i];
        let ghost seen = digits.take(i + 1 - start);
        assert(seen.drop_last() =~= digits.take(i - start));
        assert(seen.last() == c);
        if (c as u32) < ('0' as u32) || (c as u32) > ('9' as u32) {
            proof {
                lemma_bad_digit(digits, i - start);
            }
            return None;
        }
        let digit: u64 = (c as u32 - '0' as u32) as u64;
        let shifted: Option<u64> = match value.checked_mul(10) {
            Some(tens) => tens.checked_add(digit),
            None => None,
        };
        match shifted {
            Some(next) => {
                proof {
                    assert(digits_value(seen) == Some(next as nat));
                }
                if next > limit {
                    proof {
                        lemma_prefix_bounds(digits, i + 1 - start);
                    }
                    return None;
                }
                value = next;
            },
            None => {
                proof {
                    assert(digits_value(seen) == Some((value * 10 + digit) as nat));
                    lemma_prefix_bounds(digits, i + 1 - start);
                }
                return None;
            },
        }
        i = i + 1;
    }
    assert(digits.take(i - start) =~= digits);
    Some(value)
}

proof fn lemma_bad_digit(digits: Seq<char>, k: int)
    requires
        0 <= k < digits.len(),
        !is_digit(digits[k]),
    ensures
        digits_value(digits) is None,
    decreases digits.len(),
{
    if k < digits.len() - 1 {
        lemma_bad_digit(digits.drop_last(), k);
    }
}

/// A number is at least the one that its first digits spell.
proof fn lemma_prefix_bounds(digits: Seq<char>, k: int)
    requires
        0 < k <= digits.len(),
        digits_value(digits.take(k)) is Some,
    ensures
        digits_value(digits) matches Some(value) ==> value >= digits_value(digits.take(k))->0,
    decreases digits.len(),
{
    if k == digits.len() {
        assert(digits.take(k) =~= digits);
    } else {
        assert(digits.drop_last().take(k) =~= digits.take(k));
        lemma_prefix_bounds(digits.drop_last(), k);
    }
}

// ---------------------------------------------------------------------------
// Laws.
// ---------------------------------------------------------------------------

proof fn lemma_words_of_start(text: Seq<char>, rest: Seq<char>, separator: CharClass, n: int)
    requires
        0 <= n <= text.len(),
    ensures
        ended_words(text + rest, separator, n) == ended_words(text, separator, n),
        open_word(text + rest, separator, n) == open_word(text, separator, n),
    decreases n,
{
    if n > 0 {
        lemma_words_of_start(text, rest, separator, n - 1);
        assert((text + rest)[n - 1] == text[n - 1]);
    }
}

proof fn lemma_words_of_end(
    left: Seq<char>,
    c: char,
    right: Seq<char>,
    separator: CharClass,
    n: int,
)
    requires
        separator.has(c),
        0 <= n <= right.len(),
    ensures
        ({
            let text = left.push(c) + right;
            let from = left.len() + 1;
            &&& ended_words(text, separator, from + n) == words_of(left, separator) + ended_words(
                right,
                separator,
                n,
            )
            &&& open_word(text, separator, from + n) == open_word(right, separator, n)
        }),
    decreases n,
{
    let text = left.push(c) + right;
    let from = left.len() + 1;
    if n == 0 {
        let k = left.len() as int;
        lemma_words_of_start(left, seq![c] + right, separator, k);
        assert(left + (seq![c] + right) =~= text);
        assert(text[k] == c);
        assert(ended_words(text, separator, from as int) =~= words_of(left, separator));
        assert(words_of(left, separator) + ended_words(right, separator, 0) =~= words_of(
            left,
            separator,
        ));
    } else {
        lemma_words_of_end(left, c, right, separator, n - 1);
        assert(text[from + n - 1] == right[n - 1]);
        assert(ended_words(text, separator, from + n) =~= words_of(left, separator) + ended_words(
            right,
            separator,
            n,
        ));
    }
}

/// A separator parts the words: those of a text are the words before it,
/// followed by those after it.
pub proof fn separators_part_the_words(
    left: Seq<char>,
    c: char,
    right: Seq<char>,
    separator: CharClass,
)
    requires
        separator.has(c),
    ensures
        words_of(left.push(c) + right, separator) == words_of(left, separator) + words_of(
            right,
            separator,
        ),
{
    lemma_words_of_end(left, c, right, separator, right.len() as int);
    let text = left.push(c) + right;
    assert(text.len() == left.len() + 1 + right.len());
    assert(words_of(text, separator) =~= words_of(left, separator) + words_of(right, separator));
}

proof fn lemma_one_word(text: Seq<char>, separator: CharClass, n: int)
    requires
        0 <= n <= text.len(),
        forall|i: int| #![trigger text[i]] 0 <= i < text.len() ==> !separator.has(text[i]),
    ensures
        ended_words(text, separator, n) == Seq::<Seq<char>>::empty(),
        open_word(text, separator, n) == text.take(n),
    decreases n,
{
    if n > 0 {
        lemma_one_word(text, separator, n - 1);
        assert(!separator.has(text[n - 1]));
        assert(text.take(n) =~= text.take(n - 1).push(text[n - 1]));
    }
}

/// A text without separators is one word, and an empty one has none.
pub proof fn text_without_separators_is_one_word(text: Seq<char>, separator: CharClass)
    requires
        forall|i: int| #![trigger text[i]] 0 <= i < text.len() ==> !separator.has(text[i]),
    ensures
        words_of(text, separator) == if text.len() == 0 {
            seq![]
        } else {
            seq![text]
        },
{
    lemma_one_word(text, separator, text.len() as int);
    assert(text.take(text.len() as int) =~= text);
    assert(words_of(text, separator) =~= if text.len() == 0 {
        seq![]
    } else {
        seq![text]
    });
}

proof fn lemma_lines_of_start(text: Seq<char>, rest: Seq<char>, n: int)
    requires
        0 <= n <= text.len(),
    ensures
        ended_lines(text + rest, n) == ended_lines(text, n),
        open_line(text + rest, n) == open_line(text, n),
    decreases n,
{
    if n > 0 {
        lemma_lines_of_start(text, rest, n - 1);
        assert((text + rest)[n - 1] == text[n - 1]);
    }
}

proof fn lemma_lines_of_end(left: Seq<char>, right: Seq<char>, n: int)
    requires
        0 <= n <= right.len(),
    ensures
        ({
            let text = left.push('\n') + right;
            let from = left.len() + 1;
            &&& ended_lines(text, from + n) == lines_of(left.push('\n')) + ended_lines(right, n)
            &&& open_line(text, from + n) == open_line(right, n)
        }),
    decreases n,
{
    let head = left.push('\n');
    let text = head + right;
    let from = left.len() + 1;
    if n == 0 {
        lemma_lines_of_start(head, right, from as int);
        assert(head[from - 1] == '\n');
        assert(open_line(head, from as int).len() == 0);
        assert(ended_lines(text, from as int) =~= lines_of(head));
        assert(lines_of(head) + ended_lines(right, 0) =~= lines_of(head));
    } else {
        lemma_lines_of_end(left, right, n - 1);
        assert(text[from + n - 1] == right[n - 1]);
        assert(ended_lines(text, from + n) =~= lines_of(head) + ended_lines(right, n));
    }
}

/// A line feed ends a line: the lines of a text are those up to it, followed by
/// those after it.
pub proof fn line_feeds_part_the_lines(left: Seq<char>, right: Seq<char>)
    ensures
        lines_of(left.push('\n') + right) == lines_of(left.push('\n')) + lines_of(right),
{
    lemma_lines_of_end(left, right, right.len() as int);
    let text = left.push('\n') + right;
    assert(text.len() == left.len() + 1 + right.len());
    assert(lines_of(text) =~= lines_of(left.push('\n')) + lines_of(right));
}

proof fn lemma_one_line(text: Seq<char>, n: int)
    requires
        0 <= n <= text.len(),
        forall|i: int| #![trigger text[i]] 0 <= i < n ==> text[i] != '\n',
    ensures
        ended_lines(text, n) == Seq::<Seq<char>>::empty(),
        open_line(text, n) == text.take(n),
    decreases n,
{
    if n > 0 {
        lemma_one_line(text, n - 1);
        assert(text[n - 1] != '\n');
        assert(text.take(n) =~= text.take(n - 1).push(text[n - 1]));
    }
}

/// A text without line feeds is one line, unless it is empty; a line feed after
/// it changes nothing but that a carriage return before that is dropped and
/// that an empty line counts.
pub proof fn text_without_line_feeds_is_one_line(line: Seq<char>)
    requires
        forall|i: int| #![trigger line[i]] 0 <= i < line.len() ==> line[i] != '\n',
    ensures
        lines_of(line) == if line.len() == 0 {
            seq![]
        } else {
            seq![line]
        },
        lines_of(line.push('\n')) == seq![
            if line.len() > 0 && line.last() == '\r' {
                line.drop_last()
            } else {
                line
            },
        ],
{
    let n = line.len() as int;
    lemma_one_line(line, n);
    assert(line.take(n) =~= line);
    assert(lines_of(line) =~= if line.len() == 0 {
        seq![]
    } else {
        seq![line]
    });
    let ended = line.push('\n');
    assert forall|i: int| #![trigger ended[i]] 0 <= i < n implies ended[i] != '\n' by {
        assert(ended[i] == line[i]);
    }
    lemma_one_line(ended, n);
    assert(ended.take(n) =~= line);
    assert(ended[n] == '\n');
    assert(lines_of(ended) =~= seq![without_return(line)]);
}

/// Trimming takes away what stands at the ends and belongs to the class, and
/// nothing else.
pub proof fn trimming_takes_the_ends_away(
    before: Seq<char>,
    inner: Seq<char>,
    after: Seq<char>,
    class: CharClass,
)
    requires
        forall|i: int| #![trigger before[i]] 0 <= i < before.len() ==> class.has(before[i]),
        forall|i: int| #![trigger after[i]] 0 <= i < after.len() ==> class.has(after[i]),
        inner.len() > 0 ==> !class.has(inner[0]) && !class.has(inner.last()),
    ensures
        trimmed(before + inner + after, class) == inner,
    decreases before.len() + after.len(),
{
    let text = before + inner + after;
    if before.len() > 0 {
        assert(text[0] == before[0]);
        assert(class.has(before[0]));
        let rest = before.skip(1);
        assert forall|i: int| #![trigger rest[i]] 0 <= i < rest.len() implies class.has(rest[i]) by {
            assert(rest[i] == before[i + 1]);
        }
        assert(text.skip(1) =~= rest + inner + after);
        trimming_takes_the_ends_away(rest, inner, after, class);
    } else if after.len() > 0 {
        let rest = after.drop_last();
        assert forall|i: int| #![trigger rest[i]] 0 <= i < rest.len() implies class.has(rest[i]) by {
            assert(rest[i] == after[i]);
        }
        assert(text.last() == after.last());
        assert(class.has(after[after.len() - 1]));
        if inner.len() == 0 {
            assert(text =~= after);
            assert(class.has(after[0]));
            let tail = after.skip(1);
            assert forall|i: int|
                #![trigger tail[i]]
                0 <= i < tail.len() implies class.has(tail[i]) by {
                assert(tail[i] == after[i + 1]);
            }
            assert(text.skip(1) =~= before + inner + tail);
            trimming_takes_the_ends_away(before, inner, tail, class);
        } else {
            assert(text[0] == inner[0]);
            assert(text.drop_last() =~= before + inner + rest);
            trimming_takes_the_ends_away(before, inner, rest, class);
        }
    } else {
        assert(text =~= inner);
    }
}

/// The digits that a number is written with spell that number again.
pub proof fn written_numbers_are_read_back(n: nat)
    ensures
        digits_value(decimal_text(n)) == Some(n),
    decreases n,
{
    if n < 10 {
        assert(decimal_text(n).last() == digit_char(n));
    } else {
        written_numbers_are_read_back(n / 10);
        assert(decimal_text(n).drop_last() =~= decimal_text(n / 10));
        assert(decimal_text(n).last() == digit_char(n % 10));
        lemma_decimal_nonempty(n / 10);
    }
}

proof fn lemma_decimal_nonempty(n: nat)
    ensures
        decimal_text(n).len() >= 1,
    decreases n,
{
    if n >= 10 {
        lemma_decimal_nonempty(n / 10);
    }
}

/// A number in decimal begins with a digit, and so with no sign.
pub proof fn written_numbers_begin_with_a_digit(n: nat)
    ensures
        decimal_text(n).len() >= 1,
        is_digit(decimal_text(n)[0]),
        decimal_text(n)[0] != '+',
    decreases n,
{
    if n >= 10 {
        written_numbers_begin_with_a_digit(n / 10);
        assert(decimal_text(n)[0] == decimal_text(n / 10)[0]);
    }
}

} // verus!
