//! Text helpers: comparing, searching, splitting and trimming strings, each
//! stated over the sequence of characters that a string holds.

use vstd::prelude::*;
use vstd::utf8::encode_utf8;

verus! {

/// Number of bytes that a text takes in UTF-8.
pub open spec fn byte_length(text: Seq<char>) -> nat {
    encode_utf8(text).len()
}

/// `std`'s `String::push` appends one character.
pub assume_specification[ String::push ](text: &mut String, c: char)
    ensures
        final(text)@ == old(text)@.push(c),
;

/// Two texts with the same UTF-8 bytes are the same text.
pub proof fn lemma_utf8_injective(a: Seq<char>, b: Seq<char>)
    requires
        encode_utf8(a) == encode_utf8(b),
    ensures
        a == b,
{
    vstd::utf8::encode_utf8_decode_utf8(a);
    vstd::utf8::encode_utf8_decode_utf8(b);
}

/// Length of a text in UTF-8 bytes.
pub fn byte_len(text: &str) -> (n: usize)
    ensures
        n == byte_length(text@),
{
    text.as_bytes().len()
}

/// Whether two byte strings are equal.
pub fn bytes_equal(a: &[u8], b: &[u8]) -> (equal: bool)
    ensures
        equal == (a@ == b@),
{
    if a.len() != b.len() {
        return false;
    }
    for i in 0..a.len()
        invariant
            a@.len() == b@.len(),
            forall|k: int| 0 <= k < i ==> a@[k] == b@[k],
    {
        if a[i] != b[i] {
            return false;
        }
    }
    assert(a@ =~= b@);
    true
}

/// Whether two texts are equal.
pub fn text_equal(a: &str, b: &str) -> (equal: bool)
    ensures
        equal == (a@ == b@),
{
    let equal = bytes_equal(a.as_bytes(), b.as_bytes());
    proof {
        if equal {
            lemma_utf8_injective(a@, b@);
        }
    }
    equal
}

/// The characters of a text, one by one.
pub fn chars_of(text: &str) -> (chars: Vec<char>)
    ensures
        chars@ == text@,
{
    let mut chars: Vec<char> = Vec::new();
    for c in it: text.chars()
        invariant
            it.seq() == text@,
            chars@ == text@.take(it.index()),
    {
        chars.push(c);
    }
    assert(text@.take(text@.len() as int) =~= text@);
    chars
}

/// The text that a range of characters spells.
pub fn text_from(chars: &Vec<char>, from: usize, to: usize) -> (text: String)
    requires
        from <= to <= chars@.len(),
    ensures
        text@ == chars@.subrange(from as int, to as int),
{
    let mut text = String::new();
    for i in from..to
        invariant
            from <= i <= to <= chars@.len(),
            text@ =~= chars@.subrange(from as int, i as int),
    {
        text.push(chars[i]);
    }
    text
}

/// Whether `text` begins with `prefix`.
pub fn starts_with(text: &str, prefix: &str) -> (found: bool)
    ensures
        found == prefix@.is_prefix_of(text@),
{
    let chars = chars_of(text);
    let wanted = chars_of(prefix);
    if chars.len() < wanted.len() {
        return false;
    }
    for i in 0..wanted.len()
        invariant
            chars@ == text@,
            wanted@ == prefix@,
            wanted@.len() <= chars@.len(),
            forall|k: int| 0 <= k < i ==> chars@[k] == wanted@[k],
    {
        if chars[i] != wanted[i] {
            assert(text@.subrange(0, prefix@.len() as int)[i as int] != prefix@[i as int]);
            return false;
        }
    }
    assert(prefix@ =~= text@.subrange(0, prefix@.len() as int));
    true
}

/// Whether `text` ends with `suffix`.
pub fn ends_with(text: &str, suffix: &str) -> (found: bool)
    ensures
        found == suffix@.is_suffix_of(text@),
{
    let chars = chars_of(text);
    let wanted = chars_of(suffix);
    if chars.len() < wanted.len() {
        return false;
    }
    let total: usize = chars.len();
    let offset: usize = total - wanted.len();
    for i in 0..wanted.len()
        invariant
            chars@ == text@,
            wanted@ == suffix@,
            offset + wanted@.len() == total == chars@.len(),
            forall|k: int| 0 <= k < i ==> chars@[offset + k] == wanted@[k],
    {
        if chars[offset + i] != wanted[i] {
            assert(text@.subrange(offset as int, text@.len() as int)[i as int]
                != suffix@[i as int]);
            return false;
        }
    }
    assert(suffix@ =~= text@.subrange(offset as int, text@.len() as int));
    true
}

/// `needle` occurs in `text` at position `at`.
pub open spec fn occurs_at(text: Seq<char>, needle: Seq<char>, at: int) -> bool {
    &&& 0 <= at
    &&& at + needle.len() <= text.len()
    &&& text.subrange(at, at + needle.len()) == needle
}

/// `needle` occurs somewhere in `text`.
pub open spec fn occurs_in(needle: Seq<char>, text: Seq<char>) -> bool {
    exists|at: int| occurs_at(text, needle, at)
}

/// Whether the characters of `wanted` stand in `chars` from position `at` on.
fn matches_at(chars: &Vec<char>, wanted: &Vec<char>, at: usize) -> (found: bool)
    requires
        at + wanted@.len() <= chars@.len(),
    ensures
        found == occurs_at(chars@, wanted@, at as int),
{
    let total: usize = chars.len();
    for i in 0..wanted.len()
        invariant
            at + wanted@.len() <= total == chars@.len(),
            forall|k: int| 0 <= k < i ==> chars@[at + k] == wanted@[k],
    {
        if chars[at + i] != wanted[i] {
            assert(chars@.subrange(at as int, at + wanted@.len())[i as int] != wanted@[i as int]);
            return false;
        }
    }
    assert(chars@.subrange(at as int, at + wanted@.len()) =~= wanted@);
    true
}

/// Whether `needle` occurs somewhere in `text`.
pub fn contains_text(text: &str, needle: &str) -> (found: bool)
    ensures
        found == occurs_in(needle@, text@),
{
    let chars = chars_of(text);
    let wanted = chars_of(needle);
    if chars.len() < wanted.len() {
        return false;
    }
    let last: usize = chars.len() - wanted.len();
    let mut at: usize = 0;
    while at <= last
        invariant
            chars@ == text@,
            wanted@ == needle@,
            last + wanted@.len() == chars@.len(),
            at <= last + 1,
            forall|k: int| 0 <= k < at ==> !occurs_at(text@, needle@, k),
        decreases last + 1 - at,
    {
        if matches_at(&chars, &wanted, at) {
            return true;
        }
        if at == last {
            assert forall|k: int| !occurs_at(text@, needle@, k) by {
                if occurs_at(text@, needle@, k) {
                    assert(k <= last);
                }
            }
            return false;
        }
        at = at + 1;
    }
    false
}

/// Whether the character `c` occurs in `text`.
pub fn contains_char(text: &str, c: char) -> (found: bool)
    ensures
        found == text@.contains(c),
{
    let chars = chars_of(text);
    for i in 0..chars.len()
        invariant
            chars@ == text@,
            forall|k: int| 0 <= k < i ==> chars@[k] != c,
    {
        if chars[i] == c {
            assert(text@[i as int] == c);
            return true;
        }
    }
    false
}

/// Whether one of `texts` spells `wanted`.
pub fn list_contains(texts: &Vec<String>, wanted: &str) -> (found: bool)
    ensures
        found == texts.deep_view().contains(wanted@),
{
    for i in 0..texts.len()
        invariant
            forall|k: int| 0 <= k < i ==> texts@[k]@ != wanted@,
    {
        if text_equal(texts[i].as_str(), wanted) {
            assert(texts.deep_view()[i as int] == wanted@);
            return true;
        }
    }
    assert forall|k: int| 0 <= k < texts.deep_view().len() implies texts.deep_view()[k]
        != wanted@ by {
        assert(texts.deep_view()[k] == texts@[k]@);
    }
    false
}

/// The characters that Unicode gives the property `White_Space`.
pub open spec fn white_space(c: char) -> bool {
    let u = c as u32;
    ||| 0x09 <= u <= 0x0d
    ||| u == 0x20
    ||| u == 0x85
    ||| u == 0xa0
    ||| u == 0x1680
    ||| 0x2000 <= u <= 0x200a
    ||| u == 0x2028
    ||| u == 0x2029
    ||| u == 0x202f
    ||| u == 0x205f
    ||| u == 0x3000
}

/// `std`'s `char::is_whitespace` tests for the property `White_Space`.
pub assume_specification[ char::is_whitespace ](c: char) -> (found: bool)
    ensures
        found == white_space(c),
;

/// The characters in Unicode's general category `Cc`.
pub open spec fn control_character(c: char) -> bool {
    let u = c as u32;
    u <= 0x1f || 0x7f <= u <= 0x9f
}

/// `std`'s `char::is_control` tests for the general category `Cc`.
pub assume_specification[ char::is_control ](c: char) -> (found: bool)
    ensures
        found == control_character(c),
;

/// Whether `text` holds a control character.
pub fn contains_control(text: &str) -> (found: bool)
    ensures
        found == exists|k: int| 0 <= k < text@.len() && control_character(#[trigger] text@[k]),
{
    let chars = chars_of(text);
    for i in 0..chars.len()
        invariant
            chars@ == text@,
            forall|k: int| 0 <= k < i ==> !control_character(#[trigger] chars@[k]),
    {
        if chars[i].is_control() {
            return true;
        }
    }
    false
}

/// A text without the white space that it begins with.
pub open spec fn trimmed_start(text: Seq<char>) -> Seq<char>
    decreases text.len(),
{
    if text.len() > 0 && white_space(text[0]) {
        trimmed_start(text.skip(1))
    } else {
        text
    }
}

/// A text without the white space that it ends with.
pub open spec fn trimmed_end(text: Seq<char>) -> Seq<char>
    decreases text.len(),
{
    if text.len() > 0 && white_space(text.last()) {
        trimmed_end(text.drop_last())
    } else {
        text
    }
}

/// A text without white space at either end.
pub open spec fn trimmed(text: Seq<char>) -> Seq<char> {
    trimmed_end(trimmed_start(text))
}

/// Takes the white space off both ends of a text.
pub fn trim(text: &str) -> (result: String)
    ensures
        result@ == trimmed(text@),
{
    let chars = chars_of(text);
    let mut from: usize = 0;
    assert(chars@.skip(0) =~= chars@);
    while from < chars.len() && chars[from].is_whitespace()
        invariant
            from <= chars@.len(),
            trimmed_start(chars@) == trimmed_start(chars@.skip(from as int)),
        decreases chars@.len() - from,
    {
        assert(chars@.skip(from as int).skip(1) =~= chars@.skip(from + 1));
        from = from + 1;
    }
    assert(trimmed_start(chars@) == chars@.skip(from as int));
    let mut to: usize = chars.len();
    assert(chars@.skip(from as int) =~= chars@.subrange(from as int, to as int));
    while from < to && chars[to - 1].is_whitespace()
        invariant
            from <= to <= chars@.len(),
            trimmed_end(chars@.skip(from as int)) == trimmed_end(
                chars@.subrange(from as int, to as int),
            ),
        decreases to - from,
    {
        assert(chars@.subrange(from as int, to as int).drop_last() =~= chars@.subrange(
            from as int,
            to - 1,
        ));
        to = to - 1;
    }
    text_from(&chars, from, to)
}

/// What ends an item of a list: a comma, or, where `spaces` holds, white space.
pub open spec fn separator(c: char, spaces: bool) -> bool {
    c == ',' || (spaces && white_space(c))
}

/// The pieces of a text between its separators, empty ones too.
pub open spec fn pieces(text: Seq<char>, spaces: bool) -> Seq<Seq<char>>
    decreases text.len(),
{
    if text.len() == 0 {
        seq![Seq::empty()]
    } else {
        let before = pieces(text.drop_last(), spaces);
        if separator(text.last(), spaces) {
            before.push(Seq::empty())
        } else {
            before.drop_last().push(before.last().push(text.last()))
        }
    }
}

/// Splits a text at its separators.
pub fn split(text: &str, spaces: bool) -> (result: Vec<String>)
    ensures
        result.deep_view() == pieces(text@, spaces),
{
    let chars = chars_of(text);
    let mut done: Vec<String> = Vec::new();
    let mut piece = String::new();
    assert(done.deep_view().push(piece@) =~= pieces(chars@.take(0), spaces));
    for i in 0..chars.len()
        invariant
            chars@ == text@,
            done.deep_view().push(piece@) == pieces(chars@.take(i as int), spaces),
    {
        proof {
            assert(chars@.take(i + 1).drop_last() =~= chars@.take(i as int));
            assert(done.deep_view().push(piece@).drop_last() =~= done.deep_view());
        }
        let c = chars[i];
        let ghost earlier = done.deep_view();
        if c == ',' || (spaces && c.is_whitespace()) {
            let ghost ended = piece@;
            done.push(piece);
            piece = String::new();
            assert(done.deep_view() =~= earlier.push(ended));
        } else {
            piece.push(c);
        }
    }
    assert(chars@.take(chars@.len() as int) =~= chars@);
    let ghost earlier = done.deep_view();
    let ghost ended = piece@;
    done.push(piece);
    assert(done.deep_view() =~= earlier.push(ended));
    done
}

/// The texts of a sequence that are not empty, in their order.
pub open spec fn non_empty(texts: Seq<Seq<char>>) -> Seq<Seq<char>>
    decreases texts.len(),
{
    if texts.len() == 0 {
        Seq::empty()
    } else {
        let before = non_empty(texts.drop_last());
        if texts.last().len() > 0 {
            before.push(texts.last())
        } else {
            before
        }
    }
}

/// The texts of a sequence in their order, each once.
pub open spec fn distinct(texts: Seq<Seq<char>>) -> Seq<Seq<char>>
    decreases texts.len(),
{
    if texts.len() == 0 {
        Seq::empty()
    } else {
        let before = distinct(texts.drop_last());
        if before.contains(texts.last()) {
            before
        } else {
            before.push(texts.last())
        }
    }
}

/// A text is among the distinct ones exactly where it is among all, and there only once.
pub proof fn lemma_distinct(texts: Seq<Seq<char>>)
    ensures
        distinct(texts).no_duplicates(),
        forall|text: Seq<char>| distinct(texts).contains(text) <==> texts.contains(text),
    decreases texts.len(),
{
    if texts.len() > 0 {
        lemma_distinct(texts.drop_last());
        let before = distinct(texts.drop_last());
        let after = distinct(texts);
        assert forall|text: Seq<char>| after.contains(text) <==> texts.contains(text) by {
            if after.contains(text) {
                let k = after.index_of(text);
                if k < before.len() {
                    assert(before[k] == text);
                    assert(texts.drop_last().contains(text));
                    let j = texts.drop_last().index_of(text);
                    assert(texts[j] == text);
                } else {
                    assert(texts[texts.len() - 1] == text);
                }
            }
            if texts.contains(text) {
                let j = texts.index_of(text);
                if j < texts.len() - 1 {
                    assert(texts.drop_last()[j] == text);
                    assert(texts.drop_last().contains(text));
                    assert(before.contains(text));
                }
                if before.contains(text) {
                    assert(after[before.index_of(text)] == text);
                } else {
                    assert(after[after.len() - 1] == text);
                }
            }
        }
    }
}

/// Takes the texts of a list that are not empty, each once.
pub fn distinct_non_empty(texts: Vec<String>) -> (kept: Vec<String>)
    ensures
        kept.deep_view() == distinct(non_empty(texts.deep_view())),
{
    let ghost all = texts.deep_view();
    let mut kept: Vec<String> = Vec::new();
    assert(kept.deep_view() =~= Seq::<Seq<char>>::empty());
    for text in it: texts
        invariant
            it.seq() == texts@,
            all == texts.deep_view(),
            kept.deep_view() == distinct(non_empty(all.take(it.index()))),
    {
        let ghost before = kept.deep_view();
        let ghost model = text@;
        let ghost earlier = non_empty(all.take(it.index()));
        assert(all.take(it.index() + 1).drop_last() =~= all.take(it.index()));
        assert(all[it.index()] == model);
        assert(earlier.push(model).drop_last() =~= earlier);
        if !text.as_str().is_empty() && !list_contains(&kept, text.as_str()) {
            kept.push(text);
            assert(kept.deep_view() =~= before.push(model));
        }
    }
    assert(all.take(all.len() as int) =~= all);
    kept
}

/// A letter, a digit, a hyphen or an underscore, all ASCII.
pub open spec fn name_char(c: char) -> bool {
    'a' <= c <= 'z' || 'A' <= c <= 'Z' || '0' <= c <= '9' || c == '-' || c == '_'
}

/// A name of a room or a request: 1 to 64 letters, digits, hyphens and underscores.
pub open spec fn valid_name(text: Seq<char>) -> bool {
    1 <= text.len() <= 64 && forall|i: int| 0 <= i < text.len() ==> name_char(#[trigger] text[i])
}

/// Whether a text can name a room or a request.
pub fn is_name(text: &str) -> (valid: bool)
    ensures
        valid == valid_name(text@),
{
    let chars = chars_of(text);
    if chars.len() == 0 || chars.len() > 64 {
        return false;
    }
    for i in 0..chars.len()
        invariant
            chars@ == text@,
            forall|k: int| 0 <= k < i ==> name_char(#[trigger] chars@[k]),
    {
        let c = chars[i];
        let letter = ('a' <= c && c <= 'z') || ('A' <= c && c <= 'Z');
        if !letter && !('0' <= c && c <= '9') && c != '-' && c != '_' {
            assert(!name_char(text@[i as int]));
            return false;
        }
    }
    true
}

/// The views of a result's value or error.
pub open spec fn result_view<A: DeepView, E: DeepView>(result: Result<A, E>) -> Result<A::V, E::V> {
    match result {
        Ok(value) => Ok(value.deep_view()),
        Err(error) => Err(error.deep_view()),
    }
}

/// Upper-case ASCII letters as lower case, every other character as it is.
pub open spec fn lower_char(c: char) -> char {
    if 'A' <= c <= 'Z' {
        ((c as u8 + 32) as u8) as char
    } else {
        c
    }
}

/// A text with its ASCII letters in lower case.
pub open spec fn lowered(text: Seq<char>) -> Seq<char> {
    text.map_values(|c: char| lower_char(c))
}

/// Puts the ASCII letters of a text in lower case.
pub fn lowercase(text: &str) -> (result: String)
    ensures
        result@ == lowered(text@),
{
    let chars = chars_of(text);
    let mut result = String::new();
    for i in 0..chars.len()
        invariant
            chars@ == text@,
            result@ =~= lowered(text@).take(i as int),
    {
        let c = chars[i];
        if 'A' <= c && c <= 'Z' {
            result.push((c as u8 + 32) as char);
        } else {
            result.push(c);
        }
    }
    assert(lowered(text@).take(text@.len() as int) =~= lowered(text@));
    result
}

/// Why a text is not a number.
#[derive(Clone, Copy, Debug, PartialEq, Eq, Structural)]
pub enum NumberError {
    Empty,
    InvalidDigit,
    TooLarge,
}

impl NumberError {
    /// The reason in words.
    pub fn message(&self) -> (text: &'static str)
        ensures
            text@ == match *self {
                NumberError::Empty => "cannot parse integer from empty string"@,
                NumberError::InvalidDigit => "invalid digit found in string"@,
                NumberError::TooLarge => "number too large to fit in target type"@,
            },
    {
        match self {
            NumberError::Empty => "cannot parse integer from empty string",
            NumberError::InvalidDigit => "invalid digit found in string",
            NumberError::TooLarge => "number too large to fit in target type",
        }
    }
}

/// The value of a run of decimal digits, or what is first wrong with it: a
/// character that is no digit, or a value above `max`.
pub open spec fn digits_value(digits: Seq<char>, max: u64) -> Result<u64, NumberError>
    decreases digits.len(),
{
    if digits.len() == 0 {
        Ok(0)
    } else {
        match digits_value(digits.drop_last(), max) {
            Err(error) => Err(error),
            Ok(value) => {
                let c = digits.last();
                if !('0' <= c <= '9') {
                    Err(NumberError::InvalidDigit)
                } else if value * 10 + (c as int - '0' as int) > max {
                    Err(NumberError::TooLarge)
                } else {
                    Ok((value * 10 + (c as int - '0' as int)) as u64)
                }
            },
        }
    }
}

/// The number that a text spells: digits, after at most one plus sign.
pub open spec fn number_value(text: Seq<char>, max: u64) -> Result<u64, NumberError> {
    if text.len() == 0 {
        Err(NumberError::Empty)
    } else if text.len() == 1 && (text[0] == '+' || text[0] == '-') {
        Err(NumberError::InvalidDigit)
    } else if text[0] == '+' {
        digits_value(text.skip(1), max)
    } else {
        digits_value(text, max)
    }
}

/// What is wrong with a prefix of digits is wrong with the whole.
proof fn lemma_digits_prefix(digits: Seq<char>, n: int, max: u64)
    requires
        0 <= n <= digits.len(),
        digits_value(digits.take(n), max) is Err,
    ensures
        digits_value(digits, max) == digits_value(digits.take(n), max),
    decreases digits.len(),
{
    if n < digits.len() {
        assert(digits.drop_last().take(n) =~= digits.take(n));
        lemma_digits_prefix(digits.drop_last(), n, max);
    } else {
        assert(digits.take(n) =~= digits);
    }
}

/// A run of digits has no value above `max`.
pub proof fn lemma_digits_bound(digits: Seq<char>, max: u64)
    ensures
        digits_value(digits, max) matches Ok(value) ==> value <= max,
    decreases digits.len(),
{
    if digits.len() > 0 {
        lemma_digits_bound(digits.drop_last(), max);
    }
}

/// Reads an unsigned decimal number of at most `max`.
pub fn parse_number(text: &str, max: u64) -> (result: Result<u64, NumberError>)
    ensures
        result == number_value(text@, max),
{
    let chars = chars_of(text);
    if chars.len() == 0 {
        return Err(NumberError::Empty);
    }
    if chars.len() == 1 && (chars[0] == '+' || chars[0] == '-') {
        return Err(NumberError::InvalidDigit);
    }
    let from: usize = if chars[0] == '+' { 1 } else { 0 };
    let ghost digits = chars@.skip(from as int);
    assert(from == 0 ==> digits =~= text@);
    let mut value: u64 = 0;
    for i in from..chars.len()
        invariant
            from <= i <= chars@.len(),
            digits == chars@.skip(from as int),
            digits_value(digits.take(i - from), max) == Ok::<u64, NumberError>(value),
            number_value(text@, max) == digits_value(digits, max),
    {
        let c = chars[i];
        proof {
            assert(digits.take(i - from + 1).drop_last() =~= digits.take(i - from));
            if digits_value(digits.take(i - from + 1), max) is Err {
                lemma_digits_prefix(digits, i - from + 1, max);
            }
        }
        if !('0' <= c && c <= '9') {
            return Err(NumberError::InvalidDigit);
        }
        let digit: u64 = (c as u32 - '0' as u32) as u64;
        match value.checked_mul(10) {
            Some(tens) => match tens.checked_add(digit) {
                Some(next) if next <= max => {
                    value = next;
                },
                _ => return Err(NumberError::TooLarge),
            },
            None => return Err(NumberError::TooLarge),
        }
    }
    assert(digits.take(digits.len() as int) =~= digits);
    Ok(value)
}

/// ASCII takes one byte for each character, and every other character at least
/// two and at most four, so a text has as many bytes as characters exactly
/// where it is ASCII. The bytes of two texts behind each other add up.
pub proof fn lemma_byte_length(first: Seq<char>, second: Seq<char>)
    ensures
        byte_length(first + second) == byte_length(first) + byte_length(second),
        first.len() <= byte_length(first) <= 4 * first.len(),
        byte_length(first) == first.len() <==> forall|i: int|
            0 <= i < first.len() ==> (#[trigger] first[i]) as u32 <= 0x7f,
    decreases first.len(),
{
    let both = first + second;
    if first.len() == 0 {
        assert(both =~= second);
    } else {
        let rest = first.drop_first();
        lemma_byte_length(rest, second);
        assert(both.drop_first() =~= rest + second);
        assert(both[0] == first[0]);
        let width = vstd::utf8::encode_scalar(first[0] as u32).len();
        vstd::utf8::char_is_scalar(first[0]);
        assert(byte_length(first) == width + byte_length(rest));
        assert(1 <= width <= 4 && (width == 1 <==> first[0] as u32 <= 0x7f));
        if byte_length(first) == first.len() {
            assert forall|i: int| 0 <= i < first.len() implies (#[trigger] first[i]) as u32
                <= 0x7f by {
                if i > 0 {
                    assert(rest[i - 1] == first[i]);
                }
            }
        }
        if forall|i: int| 0 <= i < first.len() ==> (#[trigger] first[i]) as u32 <= 0x7f {
            assert forall|i: int| 0 <= i < rest.len() implies (#[trigger] rest[i]) as u32
                <= 0x7f by {
                assert(rest[i] == first[i + 1]);
            }
        }
    }
}

/// What stands between two texts occurs in the whole, and whatever occurs in a
/// text stands between two others.
pub proof fn lemma_occurs(before: Seq<char>, needle: Seq<char>, after: Seq<char>, text: Seq<char>)
    ensures
        occurs_in(needle, before + needle + after),
        occurs_in(needle, text) <==> exists|a: Seq<char>, b: Seq<char>|
            text == #[trigger] (a + needle + b),
{
    let whole = before + needle + after;
    assert(whole.subrange(before.len() as int, (before.len() + needle.len()) as int) =~= needle);
    assert(occurs_at(whole, needle, before.len() as int));
    if occurs_in(needle, text) {
        let at = choose|at: int| occurs_at(text, needle, at);
        let a = text.take(at);
        let b = text.skip(at + needle.len());
        assert(text =~= a + needle + b) by {
            assert(text.subrange(at, at + needle.len()) == needle);
            assert forall|i: int| 0 <= i < text.len() implies text[i] == (a + needle + b)[i] by {
                if at <= i < at + needle.len() {
                    assert(text.subrange(at, at + needle.len())[i - at] == text[i]);
                }
            }
        }
    }
    if exists|a: Seq<char>, b: Seq<char>| text == #[trigger] (a + needle + b) {
        let (a, b) = choose|a: Seq<char>, b: Seq<char>| text == #[trigger] (a + needle + b);
        assert(text.subrange(a.len() as int, (a.len() + needle.len()) as int) =~= needle);
        assert(occurs_at(text, needle, a.len() as int));
    }
}

/// A text is the white space that it begins with, what is left when it is
/// trimmed, and the white space that it ends with; what is left neither begins
/// nor ends with white space, and a text that does neither stays as it is.
pub proof fn lemma_trimmed(text: Seq<char>)
    ensures
        exists|n: int, m: int|
            #![trigger text.subrange(n, m)]
            0 <= n <= m <= text.len() && trimmed(text) == text.subrange(n, m) && (forall|i: int|
                0 <= i < n || m <= i < text.len() ==> white_space(#[trigger] text[i])),
        trimmed(text).len() > 0 ==> !white_space(trimmed(text)[0]) && !white_space(
            trimmed(text).last(),
        ),
        text.len() > 0 && !white_space(text[0]) && !white_space(text.last()) ==> trimmed(text)
            == text,
        trimmed(trimmed(text)) == trimmed(text),
{
    lemma_trimmed_start(text);
    let n = choose|n: int|
        0 <= n <= text.len() && #[trigger] text.skip(n) == trimmed_start(text) && (forall|i: int|
            0 <= i < n ==> white_space(#[trigger] text[i]));
    let rest = text.skip(n);
    lemma_trimmed_end(rest);
    let k = choose|k: int|
        0 <= k <= rest.len() && #[trigger] rest.take(k) == trimmed_end(rest) && (forall|i: int|
            k <= i < rest.len() ==> white_space(#[trigger] rest[i]));
    assert(rest.take(k) =~= text.subrange(n, n + k));
    assert forall|i: int| 0 <= i < n || n + k <= i < text.len() implies white_space(
        #[trigger] text[i],
    ) by {
        if i >= n + k {
            assert(rest[i - n] == text[i]);
        }
    }
    let cut = trimmed(text);
    if cut.len() > 0 {
        assert(cut[0] == rest[0]);
        assert(trimmed_start(cut) == cut);
        assert(trimmed_end(cut) == cut);
    }
}

/// What is left of a text behind the white space that it begins with.
proof fn lemma_trimmed_start(text: Seq<char>)
    ensures
        exists|n: int|
            0 <= n <= text.len() && #[trigger] text.skip(n) == trimmed_start(text) && (forall|
                i: int,
            |
                0 <= i < n ==> white_space(#[trigger] text[i])),
        trimmed_start(text).len() > 0 ==> !white_space(trimmed_start(text)[0]),
    decreases text.len(),
{
    if text.len() > 0 && white_space(text[0]) {
        let rest = text.skip(1);
        lemma_trimmed_start(rest);
        let n = choose|n: int|
            0 <= n <= rest.len() && #[trigger] rest.skip(n) == trimmed_start(rest) && (forall|i: int|
                0 <= i < n ==> white_space(#[trigger] rest[i]));
        assert(text.skip(n + 1) =~= rest.skip(n));
        assert forall|i: int| 0 <= i < n + 1 implies white_space(#[trigger] text[i]) by {
            if i > 0 {
                assert(rest[i - 1] == text[i]);
            }
        }
    } else {
        assert(text.skip(0) =~= text);
    }
}

/// What is left of a text before the white space that it ends with.
proof fn lemma_trimmed_end(text: Seq<char>)
    ensures
        exists|n: int|
            0 <= n <= text.len() && #[trigger] text.take(n) == trimmed_end(text) && (forall|i: int|
                n <= i < text.len() ==> white_space(#[trigger] text[i])),
        trimmed_end(text).len() > 0 ==> !white_space(trimmed_end(text).last()),
    decreases text.len(),
{
    if text.len() > 0 && white_space(text.last()) {
        let rest = text.drop_last();
        lemma_trimmed_end(rest);
        let n = choose|n: int|
            0 <= n <= rest.len() && #[trigger] rest.take(n) == trimmed_end(rest) && (forall|i: int|
                n <= i < rest.len() ==> white_space(#[trigger] rest[i]));
        assert(text.take(n) =~= rest.take(n));
        assert forall|i: int| n <= i < text.len() implies white_space(#[trigger] text[i]) by {
            if i < text.len() - 1 {
                assert(rest[i] == text[i]);
            }
        }
    } else {
        assert(text.take(text.len() as int) =~= text);
    }
}

/// The white space of ASCII is the tab, the line breaks and the space; a letter,
/// a digit or a mark is none. Beyond ASCII there are nineteen more.
pub proof fn lemma_white_space(c: char)
    ensures
        c as u32 <= 0x7f ==> (white_space(c) <==> (c == ' ' || c == '\t' || c == '\n' || c == '\r'
            || c as u32 == 0x0b || c as u32 == 0x0c)),
        ({
            let u = c as u32;
            white_space(c) <==> (9 <= u <= 13 || u == 32 || u == 133 || u == 160 || u == 5760
                || 8192 <= u <= 8202 || u == 8232 || u == 8233 || u == 8239 || u == 8287 || u
                == 12288)
        }),
{
}

/// A control character of ASCII stands before the space or is the last one; the 32
/// characters behind ASCII are control characters too.
pub proof fn lemma_control_character(c: char)
    ensures
        c as u32 <= 0x7f ==> (control_character(c) <==> ((c as u32) < 0x20 || c as u32 == 0x7f)),
        control_character(c) <==> ((c as u32) < 32 || 127 <= c as u32 <= 159),
{
}

/// Texts in one, with a comma between each two.
pub open spec fn with_commas(texts: Seq<Seq<char>>) -> Seq<char>
    decreases texts.len(),
{
    if texts.len() == 0 {
        Seq::empty()
    } else if texts.len() == 1 {
        texts[0]
    } else {
        with_commas(texts.drop_last()) + seq![','] + texts.last()
    }
}

/// No piece holds a comma, and there is one piece more than there are commas:
/// the pieces with commas between them are the text again. At white space a text
/// is cut only where that is asked for.
pub proof fn lemma_pieces(text: Seq<char>)
    ensures
        pieces(text, false).len() >= 1,
        with_commas(pieces(text, false)) == text,
        forall|i: int|
            0 <= i < pieces(text, false).len() ==> !(#[trigger] pieces(text, false)[i]).contains(
                ',',
            ),
    decreases text.len(),
{
    let all = pieces(text, false);
    if text.len() == 0 {
        assert(all.len() == 1);
        assert(with_commas(all) =~= text);
    } else {
        let rest = text.drop_last();
        let before = pieces(rest, false);
        lemma_pieces(rest);
        if text.last() == ',' {
            assert(all == before.push(Seq::empty()));
            assert(all.drop_last() =~= before);
            assert(with_commas(all) =~= text);
            assert forall|i: int| 0 <= i < all.len() implies !(#[trigger] all[i]).contains(
                ',',
            ) by {
                if i < before.len() {
                    assert(all[i] == before[i]);
                }
            }
        } else {
            let last = before.last().push(text.last());
            assert(all == before.drop_last().push(last));
            assert(all.drop_last() =~= before.drop_last());
            assert forall|i: int| 0 <= i < all.len() implies !(#[trigger] all[i]).contains(
                ',',
            ) by {
                if i < before.len() - 1 {
                    assert(all[i] == before[i]);
                } else {
                    assert(!before[before.len() - 1].contains(','));
                    assert forall|k: int| 0 <= k < last.len() implies last[k] != ',' by {
                        if k < before.last().len() {
                            assert(before.last().contains(before.last()[k]));
                        }
                    }
                }
            }
            if before.len() == 1 {
                assert(with_commas(before) == before[0]);
                assert(with_commas(all) == last);
                assert(text =~= rest.push(text.last()));
            } else {
                assert(with_commas(before) == with_commas(before.drop_last()) + seq![',']
                    + before.last());
                assert(with_commas(all) == with_commas(before.drop_last()) + seq![','] + last);
                assert(with_commas(all) =~= rest.push(text.last()));
            }
            assert(rest.push(text.last()) =~= text);
        }
    }
}

/// Where a text is cut at commas and white space, no piece holds either, and
/// every other character comes out in its order.
pub proof fn lemma_spaced_pieces(text: Seq<char>)
    ensures
        pieces(text, true).len() >= 1,
        forall|i: int, k: int|
            0 <= i < pieces(text, true).len() && 0 <= k < pieces(text, true)[i].len() ==> {
                let c = #[trigger] pieces(text, true)[i][k];
                c != ',' && !white_space(c)
            },
        pieces(text, true).flatten() == text.filter(|c: char| c != ',' && !white_space(c)),
    decreases text.len(),
{
    let kept = |c: char| c != ',' && !white_space(c);
    let all = pieces(text, true);
    reveal(Seq::filter);
    if text.len() == 0 {
        assert(text.filter(kept) =~= Seq::empty());
        seq![Seq::<char>::empty()].lemma_flatten_one_element();
    } else {
        let rest = text.drop_last();
        let before = pieces(rest, true);
        lemma_spaced_pieces(rest);
        let c = text.last();
        assert(text =~= rest.push(c));
        if kept(c) {
            let last = before.last().push(c);
            let earlier = before.drop_last();
            assert(all == earlier.push(last));
            assert(before =~= earlier.push(before.last()));
            earlier.lemma_flatten_push(last);
            earlier.lemma_flatten_push(before.last());
            assert(earlier.flatten() + last =~= (earlier.flatten() + before.last()).push(c));
            assert forall|i: int, k: int|
                0 <= i < all.len() && 0 <= k < all[i].len() implies {
                let c = #[trigger] all[i][k];
                c != ',' && !white_space(c)
            } by {
                if i < before.len() - 1 {
                    assert(all[i] == before[i]);
                    assert(before[i][k] == all[i][k]);
                } else if k < before.last().len() {
                    assert(before[i][k] == all[i][k]);
                }
            }
        } else {
            assert(all == before.push(Seq::empty()));
            before.lemma_flatten_push(Seq::empty());
            assert(before.flatten() + Seq::<char>::empty() =~= before.flatten());
            assert forall|i: int, k: int|
                0 <= i < all.len() && 0 <= k < all[i].len() implies {
                let c = #[trigger] all[i][k];
                c != ',' && !white_space(c)
            } by {
                assert(i < before.len());
                assert(before[i][k] == all[i][k]);
            }
        }
    }
}

/// A text is among those that are kept exactly where it is among all and not
/// empty, and keeping those that are not empty is keeping them in their order.
pub proof fn lemma_non_empty(texts: Seq<Seq<char>>)
    ensures
        non_empty(texts) == texts.filter(|text: Seq<char>| text.len() >= 1),
        forall|text: Seq<char>|
            non_empty(texts).contains(text) <==> texts.contains(text) && text.len() >= 1,
    decreases texts.len(),
{
    let kept = |text: Seq<char>| text.len() >= 1;
    reveal(Seq::filter);
    if texts.len() == 0 {
        assert(texts.filter(kept) =~= Seq::empty());
    } else {
        lemma_non_empty(texts.drop_last());
    }
    assert forall|text: Seq<char>| non_empty(texts).contains(text) <==> texts.contains(text)
        && text.len() >= 1 by {
        if texts.len() > 0 {
            let rest = texts.drop_last();
            let before = non_empty(rest);
            let after = non_empty(texts);
            if after.contains(text) {
                let k = after.index_of(text);
                if k < before.len() {
                    assert(before[k] == text);
                    assert(before.contains(text));
                    assert(rest.contains(text));
                    let j = rest.index_of(text);
                    assert(rest[j] == text);
                    assert(texts[j] == text);
                } else {
                    assert(texts[texts.len() - 1] == text);
                }
            }
            if texts.contains(text) && text.len() >= 1 {
                let k = texts.index_of(text);
                if k < rest.len() {
                    assert(rest[k] == text);
                    assert(before.contains(text));
                    assert(after[before.index_of(text)] == text);
                } else {
                    assert(after[after.len() - 1] == text);
                }
            }
        }
    }
}

/// A name has at least one and at most 64 characters, each a letter of the
/// English alphabet, a digit, a hyphen or an underscore; it is ASCII, so it has
/// as many bytes, and no space, slash or dot stands in it.
pub proof fn lemma_valid_name(text: Seq<char>)
    ensures
        valid_name(text) <==> 1 <= text.len() <= 64 && forall|i: int|
            0 <= i < text.len() ==> {
                let u = (#[trigger] text[i]) as int;
                0x61 <= u <= 0x7a || 0x41 <= u <= 0x5a || 0x30 <= u <= 0x39 || u == 0x2d || u
                    == 0x5f
            },
        valid_name(text) ==> byte_length(text) == text.len() && !text.contains(' ')
            && !text.contains('/') && !text.contains('.') && !text.contains('"'),
{
    if valid_name(text) {
        assert forall|i: int| 0 <= i < text.len() implies (#[trigger] text[i]) as u32 <= 0x7f by {
            assert(name_char(text[i]));
        }
        lemma_byte_length(text, Seq::empty());
        assert forall|i: int| 0 <= i < text.len() implies (#[trigger] text[i]) != ' ' && text[i]
            != '/' && text[i] != '.' && text[i] != '"' by {
            assert(name_char(text[i]));
        }
    }
    if 1 <= text.len() <= 64 && forall|i: int|
        0 <= i < text.len() ==> {
            let u = (#[trigger] text[i]) as int;
            0x61 <= u <= 0x7a || 0x41 <= u <= 0x5a || 0x30 <= u <= 0x39 || u == 0x2d || u == 0x5f
        } {
        assert forall|i: int| 0 <= i < text.len() implies name_char(#[trigger] text[i]) by {
            let u = text[i] as int;
            assert(0x61 <= u <= 0x7a || 0x41 <= u <= 0x5a || 0x30 <= u <= 0x39 || u == 0x2d || u
                == 0x5f);
        }
    }
}

/// Lower case keeps the length, changes each capital letter to the small one
/// that stands 32 places behind it, and nothing else; it is the same for two
/// texts that differ in the case of their letters alone.
pub proof fn lemma_lowered(text: Seq<char>, i: int)
    requires
        0 <= i < text.len(),
    ensures
        lowered(text).len() == text.len(),
        0x41 <= text[i] as u32 <= 0x5a ==> lowered(text)[i] as u32 == text[i] as u32 + 32,
        !(0x41 <= text[i] as u32 <= 0x5a) ==> lowered(text)[i] == text[i],
        lowered(lowered(text)) == lowered(text),
{
    assert forall|k: int| 0 <= k < text.len() implies lowered(lowered(text))[k] == #[trigger] lowered(
        text,
    )[k] by {
        let c = text[k];
        if 'A' <= c <= 'Z' {
            assert(((c as u8 + 32) as u8) as char as u32 == c as u32 + 32);
        }
    }
    let c = text[i];
    if 'A' <= c <= 'Z' {
        assert(((c as u8 + 32) as u8) as char as u32 == c as u32 + 32);
    }
    assert(lowered(lowered(text)) =~= lowered(text));
}

/// Decimal digits read from left to right: one more digit is ten times the
/// number before it and the digit, up to the largest number. A plus sign before
/// a number changes nothing, and nothing but digits and that sign is taken; what is
/// wrong with a beginning is wrong with the whole.
pub proof fn lemma_number_value(text: Seq<char>, c: char, max: u64)
    ensures
        max >= 9 && 0x30 <= c as u32 <= 0x39 ==> number_value(seq![c], max) == Ok::<u64, NumberError>(
            (c as u32 - 0x30) as u64,
        ),
        number_value(text, max) matches Ok(n) ==> 0x30 <= c as u32 <= 0x39 ==> number_value(
            text.push(c),
            max,
        ) == if 10 * n + (c as u32 - 0x30) <= max {
            Ok::<u64, NumberError>((10 * n + (c as u32 - 0x30)) as u64)
        } else {
            Err(NumberError::TooLarge)
        },
        number_value(text, max) is Ok ==> !(0x30 <= c as u32 <= 0x39) ==> number_value(
            text.push(c),
            max,
        ) == Err::<u64, NumberError>(NumberError::InvalidDigit),
        text.len() > 0 && text[0] != '+' && text[0] != '-' ==> number_value(seq!['+'] + text, max)
            == number_value(text, max),
        number_value(Seq::empty(), max) == Err::<u64, NumberError>(NumberError::Empty),
        !(0x30 <= c as u32 <= 0x39) ==> number_value(seq![c], max) == Err::<u64, NumberError>(
            NumberError::InvalidDigit,
        ),
        text.len() > 0 && text != seq!['+'] ==> (number_value(text, max) matches Err(error)
            ==> number_value(text.push(c), max) == Err::<u64, NumberError>(error)),
        number_value(seq!['-'] + text, max) == Err::<u64, NumberError>(NumberError::InvalidDigit),
{
    reveal_with_fuel(digits_value, 3);
    let one = seq![c];
    assert(one.drop_last() =~= Seq::empty());
    if number_value(text, max) is Ok {
        let longer = text.push(c);
        assert(longer[0] == text[0]);
        if text[0] == '+' {
            assert(longer.skip(1) =~= text.skip(1).push(c));
            assert(longer.skip(1).drop_last() =~= text.skip(1));
        } else {
            assert(longer.drop_last() =~= text);
        }
    }
    if text.len() > 0 && text != seq!['+'] && number_value(text, max) is Err {
        let longer = text.push(c);
        assert(longer[0] == text[0]);
        if text[0] == '+' {
            if text.len() == 1 {
                assert(text =~= seq!['+']);
            }
            assert(longer.skip(1) =~= text.skip(1).push(c));
            assert(longer.skip(1).drop_last() =~= text.skip(1));
        } else {
            assert(longer.drop_last() =~= text);
            if text.len() == 1 {
                assert(text.drop_last() =~= Seq::empty());
                assert(digits_value(text, max) is Err);
            }
        }
    }
    let plus = seq!['+'] + text;
    assert(plus.skip(1) =~= text);
    let minus = seq!['-'] + text;
    assert(minus.take(1) =~= seq!['-']);
    assert(minus.take(1).drop_last() =~= Seq::empty());
    assert(digits_value(minus.take(1), max) is Err);
    if text.len() > 0 {
        lemma_digits_prefix(minus, 1, max);
    }
}

/// A text that holds no separator is one piece, and a separator parts what
/// stands before it from what stands behind it: a comma, and white space where
/// that is asked for.
pub proof fn lemma_pieces_apart(before: Seq<char>, c: char, after: Seq<char>, at_spaces: bool)
    ensures
        (forall|i: int|
            0 <= i < before.len() ==> #[trigger] before[i] != ',' && !(at_spaces && white_space(
                before[i],
            ))) ==> pieces(before, at_spaces) == seq![before],
        c == ',' || at_spaces && white_space(c) ==> pieces(before + seq![c] + after, at_spaces)
            == pieces(before, at_spaces) + pieces(after, at_spaces),
{
    lemma_one_piece(before, at_spaces);
    if c == ',' || at_spaces && white_space(c) {
        lemma_two_parts(before, c, after, at_spaces);
    }
}

/// A text that holds no separator is one piece.
proof fn lemma_one_piece(text: Seq<char>, at_spaces: bool)
    ensures
        (forall|i: int|
            0 <= i < text.len() ==> #[trigger] text[i] != ',' && !(at_spaces && white_space(
                text[i],
            ))) ==> pieces(text, at_spaces) == seq![text],
    decreases text.len(),
{
    if text.len() == 0 {
        assert(text =~= Seq::empty());
    } else if forall|i: int|
        0 <= i < text.len() ==> #[trigger] text[i] != ',' && !(at_spaces && white_space(
            text[i],
        )) {
        let rest = text.drop_last();
        assert forall|i: int| 0 <= i < rest.len() implies #[trigger] rest[i] != ',' && !(at_spaces
            && white_space(rest[i])) by {
            assert(rest[i] == text[i]);
        }
        lemma_one_piece(rest, at_spaces);
        assert(text[text.len() - 1] == text.last());
        assert(rest.push(text.last()) =~= text);
        assert(pieces(text, at_spaces) =~= seq![text]);
    }
}

/// A separator parts what stands before it from what stands behind it.
proof fn lemma_two_parts(before: Seq<char>, c: char, after: Seq<char>, at_spaces: bool)
    requires
        c == ',' || at_spaces && white_space(c),
    ensures
        pieces(before + seq![c] + after, at_spaces) == pieces(before, at_spaces) + pieces(
            after,
            at_spaces,
        ),
    decreases after.len(),
{
    let text = before + seq![c] + after;
    let first = pieces(before, at_spaces);
    let second = pieces(after, at_spaces);
    if after.len() == 0 {
        assert(text.drop_last() =~= before);
        assert(text.last() == c);
        assert(after =~= Seq::empty());
        assert(pieces(text, at_spaces) =~= first + second);
    } else {
        let rest = after.drop_last();
        lemma_two_parts(before, c, rest, at_spaces);
        lemma_some_piece(rest, at_spaces);
        assert(text.drop_last() =~= before + seq![c] + rest);
        assert(text.last() == after.last());
        assert(pieces(text, at_spaces) =~= first + second);
    }
}

/// There is always a piece.
proof fn lemma_some_piece(text: Seq<char>, at_spaces: bool)
    ensures
        pieces(text, at_spaces).len() >= 1,
    decreases text.len(),
{
    if text.len() > 0 {
        lemma_some_piece(text.drop_last(), at_spaces);
    }
}

/// One text more is added behind the distinct ones where it is new, and else
/// nothing is.
pub proof fn lemma_distinct_in_order(texts: Seq<Seq<char>>, text: Seq<char>)
    ensures
        distinct(Seq::empty()).len() == 0,
        distinct(texts.push(text)) == if texts.contains(text) {
            distinct(texts)
        } else {
            distinct(texts).push(text)
        },
{
    lemma_distinct(texts);
    assert(texts.push(text).drop_last() =~= texts);
}

} // verus!
